//! What an adapter for a language has to offer.

use crate::core_ir::{Capabilities, Capability, FileIr, FileIrModel, FilePath};
use vstd::prelude::*;

verus! {

/// A source file to be parsed.
pub struct ParseInput {
    pub path: FilePath,
    pub source: String,
}

pub struct ParseOutput {
    pub ir: FileIr,
}

/// An adapter that reads the files of one language.
pub trait LangaugeAdapter {
    /// Whether the adapter reads the file at the path.
    spec fn accepts(&self, path: Seq<char>) -> bool;

    /// What the adapter finds in a file.
    spec fn found_in(&self, path: Seq<char>, source: Seq<char>) -> FileIrModel;

    fn can_parse_path(&self, path: &str) -> (r: bool)
        ensures
            r == self.accepts(path@),
    ;

    /// What the adapter is able to find.
    spec fn offers(&self) -> Seq<Capability>;

    fn capabilities(&self) -> (r: Capabilities)
        ensures
            r.supported@ == self.offers(),
    ;

    fn parse(&self, input: ParseInput) -> (output: ParseOutput)
        ensures
            output.ir@ == self.found_in(input.path.0@, input.source@),
    ;
}

} // verus!
