//! Choosing the adapter for a file.

use crate::core_ir::{Capabilities, Capability, FileIrModel};
use crate::parser::framework::{LangaugeAdapter, ParseInput, ParseOutput};
use crate::parser::languages::{EmptyAdapter, JavaAdapter};
use crate::text::{chars_of, string_of};
use vstd::prelude::*;

verus! {

/// The adapters that are asked, in order.
pub struct Registry<A: LangaugeAdapter> {
    adapters: Vec<A>,
}

/// The index of the first adapter from `from` on that reads the file.
pub open spec fn first_accepting<A: LangaugeAdapter>(
    adapters: Seq<A>,
    path: Seq<char>,
    from: int,
) -> Option<int>
    decreases adapters.len() - from,
{
    if from < 0 || from >= adapters.len() {
        None
    } else if adapters[from].accepts(path) {
        Some(from)
    } else {
        first_accepting(adapters, path, from + 1)
    }
}

impl<A: LangaugeAdapter> Registry<A> {
    pub closed spec fn adapters(&self) -> Seq<A> {
        self.adapters@
    }

    pub fn new(adapters: Vec<A>) -> (registry: Registry<A>)
        ensures
            registry.adapters() == adapters@,
    {
        Registry { adapters }
    }

    /// What the first adapter that reads the file finds in it. It is an
    /// error if no adapter reads the file.
    pub fn parse(&self, path: &str, input: ParseInput) -> (r: Result<ParseOutput, String>)
        ensures
            match r {
                Ok(output) => first_accepting(self.adapters(), path@, 0) is Some && output.ir@
                    == self.adapters()[first_accepting(self.adapters(), path@, 0)->0].found_in(
                    input.path.0@,
                    input.source@,
                ),
                Err(message) => first_accepting(self.adapters(), path@, 0) is None && message@
                    == "Failed to parse input file. No valid adapter was found."@,
            },
    {
        let mut i: usize = 0;
        while i < self.adapters.len()
            invariant
                i <= self.adapters.len(),
                first_accepting(self.adapters@, path@, 0) == first_accepting(
                    self.adapters@,
                    path@,
                    i as int,
                ),
            decreases self.adapters.len() - i,
        {
            if self.adapters[i].can_parse_path(path) {
                return Ok(self.adapters[i].parse(input));
            }
            i += 1;
        }
        Err(
            string_of(
                chars_of("Failed to parse input file. No valid adapter was found.").as_slice(),
            ),
        )
    }
}

/// One of the adapters that the library brings.
pub enum BuiltinAdapter {
    Java(JavaAdapter),
    Empty(EmptyAdapter),
}

impl LangaugeAdapter for BuiltinAdapter {
    open spec fn accepts(&self, path: Seq<char>) -> bool {
        match self {
            BuiltinAdapter::Java(a) => a.accepts(path),
            BuiltinAdapter::Empty(a) => a.accepts(path),
        }
    }

    open spec fn found_in(&self, path: Seq<char>, source: Seq<char>) -> FileIrModel {
        match self {
            BuiltinAdapter::Java(a) => a.found_in(path, source),
            BuiltinAdapter::Empty(a) => a.found_in(path, source),
        }
    }

    open spec fn offers(&self) -> Seq<Capability> {
        match self {
            BuiltinAdapter::Java(a) => a.offers(),
            BuiltinAdapter::Empty(a) => a.offers(),
        }
    }

    fn can_parse_path(&self, path: &str) -> (r: bool) {
        match self {
            BuiltinAdapter::Java(a) => a.can_parse_path(path),
            BuiltinAdapter::Empty(a) => a.can_parse_path(path),
        }
    }

    fn capabilities(&self) -> (r: Capabilities) {
        match self {
            BuiltinAdapter::Java(a) => a.capabilities(),
            BuiltinAdapter::Empty(a) => a.capabilities(),
        }
    }

    fn parse(&self, input: ParseInput) -> (output: ParseOutput) {
        match self {
            BuiltinAdapter::Java(a) => a.parse(input),
            BuiltinAdapter::Empty(a) => a.parse(input),
        }
    }
}

/// The registry of the adapters that the library brings: Java first, then
/// the adapter that reads every file.
pub fn default_registry() -> (registry: Registry<BuiltinAdapter>)
    ensures
        registry.adapters() == seq![
            BuiltinAdapter::Java(JavaAdapter),
            BuiltinAdapter::Empty(EmptyAdapter),
        ],
{
    let mut adapters: Vec<BuiltinAdapter> = Vec::new();
    adapters.push(BuiltinAdapter::Java(JavaAdapter));
    adapters.push(BuiltinAdapter::Empty(EmptyAdapter));
    assert(adapters@ =~= seq![
        BuiltinAdapter::Java(JavaAdapter),
        BuiltinAdapter::Empty(EmptyAdapter),
    ]);
    Registry::new(adapters)
}

/// The default registry reads Java files with the Java adapter and every
/// other file with the adapter that finds nothing.
pub proof fn lemma_default_registry(adapters: Seq<BuiltinAdapter>, path: Seq<char>)
    requires
        adapters == seq![BuiltinAdapter::Java(JavaAdapter), BuiltinAdapter::Empty(EmptyAdapter)],
    ensures
        first_accepting(adapters, path, 0) == Some(
            if crate::file_walker::extension_of(path) == "java"@ {
                0int
            } else {
                1int
            },
        ),
{
    reveal_with_fuel(first_accepting, 3);
}

} // verus!
