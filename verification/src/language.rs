//! The language families that the library tells apart.

use crate::text::{chars_of, same_chars};
use vstd::prelude::*;

verus! {

/// A family of source languages. A tag that names none of them is `Other`.
#[derive(Clone, Copy, PartialEq, Eq, Structural, Debug)]
pub enum Language {
    Rust,
    Python,
    JavaScript,
    TypeScript,
    Go,
    Java,
    Kotlin,
    CSharp,
    C,
    Cpp,
    Other,
}

/// The family a language tag names.
pub open spec fn language_of(tag: Seq<char>) -> Language {
    if tag == "rust"@ {
        Language::Rust
    } else if tag == "python"@ {
        Language::Python
    } else if tag == "javascript"@ {
        Language::JavaScript
    } else if tag == "typescript"@ {
        Language::TypeScript
    } else if tag == "go"@ {
        Language::Go
    } else if tag == "java"@ {
        Language::Java
    } else if tag == "kotlin"@ {
        Language::Kotlin
    } else if tag == "csharp"@ {
        Language::CSharp
    } else if tag == "c"@ {
        Language::C
    } else if tag == "cpp"@ {
        Language::Cpp
    } else {
        Language::Other
    }
}

/// Whether `s` is the text `lit`.
pub fn is_text(s: &[char], lit: &str) -> (r: bool)
    ensures
        r == (s@ == lit@),
{
    let l = chars_of(lit);
    same_chars(s, l.as_slice())
}

pub fn language_from_chars(tag: &[char]) -> (l: Language)
    ensures
        l == language_of(tag@),
{
    if is_text(tag, "rust") {
        Language::Rust
    } else if is_text(tag, "python") {
        Language::Python
    } else if is_text(tag, "javascript") {
        Language::JavaScript
    } else if is_text(tag, "typescript") {
        Language::TypeScript
    } else if is_text(tag, "go") {
        Language::Go
    } else if is_text(tag, "java") {
        Language::Java
    } else if is_text(tag, "kotlin") {
        Language::Kotlin
    } else if is_text(tag, "csharp") {
        Language::CSharp
    } else if is_text(tag, "c") {
        Language::C
    } else if is_text(tag, "cpp") {
        Language::Cpp
    } else {
        Language::Other
    }
}

pub fn language_from_tag(tag: &str) -> (l: Language)
    ensures
        l == language_of(tag@),
{
    let t = chars_of(tag);
    language_from_chars(t.as_slice())
}

} // verus!
