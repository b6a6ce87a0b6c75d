//! What the steps of a run hand to each other.

use crate::memory::types::FileMemory;
use crate::source_indexer::SourceIndex;
use vstd::prelude::*;

verus! {

/// A source file as it was taken in.
pub struct ParsedFile {
    pub path: String,
    pub relative_path: String,
    pub language: String,
    pub hash: String,
    pub source_index: SourceIndex,
    pub memory: FileMemory,
}

/// How much context a request carries.
#[derive(Clone, Copy, PartialEq, Eq, Structural, Debug)]
pub enum PromptProfile {
    Standard,
    Compact,
}

} // verus!
