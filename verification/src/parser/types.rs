//! What a parser reports of a source file, held as text.

use vstd::prelude::*;

verus! {

#[derive(Debug)]
pub struct Function {
    pub name: String,
    pub params_text: String,
    pub return_type: Option<String>,
    pub visibility: Option<String>,
    pub owner: Option<String>,
}

#[derive(Debug)]
pub struct Type {
    pub name: String,
    pub kind: Option<String>,
    pub visibility: Option<String>,
    pub fields: Vec<String>,
}

#[derive(Debug)]
pub struct Import {
    pub path: String,
    pub name: String,
    pub alias: Option<String>,
    pub is_wildcard: bool,
}

#[derive(Debug)]
pub struct Variable {
    pub name: String,
    pub type_text: Option<String>,
    pub value: Option<String>,
    pub visibility: Option<String>,
    pub is_mut: bool,
    pub is_const: bool,
    pub is_static: bool,
}

/// Everything a parser found in one file.
#[derive(Debug)]
pub struct ParseResult {
    pub functions: Vec<Function>,
    pub types: Vec<Type>,
    pub imports: Vec<Import>,
    pub variables: Vec<Variable>,
}

/// The kinds of things a parser can be asked for.
#[derive(Clone, Copy, PartialEq, Eq, Structural, Debug)]
pub enum ExtractKind {
    Functions,
    Imports,
    Types,
    Variables,
}

impl ExtractKind {
    /// The name of the kind, as it is written in the names of query files.
    pub open spec fn name(self) -> Seq<char> {
        match self {
            ExtractKind::Functions => "functions"@,
            ExtractKind::Imports => "imports"@,
            ExtractKind::Types => "types"@,
            ExtractKind::Variables => "variables"@,
        }
    }

    pub fn as_str(&self) -> (s: &'static str)
        ensures
            s@ == self.name(),
    {
        match self {
            ExtractKind::Functions => "functions",
            ExtractKind::Imports => "imports",
            ExtractKind::Types => "types",
            ExtractKind::Variables => "variables",
        }
    }

    /// Every kind, in the order in which they are asked for.
    pub fn all() -> (kinds: Vec<ExtractKind>)
        ensures
            kinds@ == seq![
                ExtractKind::Functions,
                ExtractKind::Imports,
                ExtractKind::Types,
                ExtractKind::Variables,
            ],
    {
        vec![
            ExtractKind::Functions,
            ExtractKind::Imports,
            ExtractKind::Types,
            ExtractKind::Variables,
        ]
    }
}

/// A path with a segment appended, with `::` between the two unless one of
/// them is empty.
pub open spec fn joined_segments(prefix: Seq<char>, segment: Seq<char>) -> Seq<char> {
    if prefix.len() == 0 {
        segment
    } else if segment.len() == 0 {
        prefix
    } else {
        prefix + "::"@ + segment
    }
}

pub fn join_path(prefix: &str, segment: &str) -> (r: String)
    ensures
        r@ == joined_segments(prefix@, segment@),
{
    let p = crate::text::chars_of(prefix);
    let s = crate::text::chars_of(segment);
    if p.len() == 0 {
        crate::text::string_of(s.as_slice())
    } else if s.len() == 0 {
        crate::text::string_of(p.as_slice())
    } else {
        let mut out = p;
        crate::text::push_chars(&mut out, crate::text::chars_of("::").as_slice());
        crate::text::push_chars(&mut out, s.as_slice());
        crate::text::string_of(out.as_slice())
    }
}

/// The text an optional string holds.
pub open spec fn opt_text(s: Option<String>) -> Option<Seq<char>> {
    match s {
        Some(t) => Some(t@),
        None => None,
    }
}

} // verus!
