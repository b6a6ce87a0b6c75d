//! Facts about one file: the symbols it declares and what it imports.
//!
//! The file is read line by line. What follows the language's comment mark
//! is dropped, the line is trimmed, and what is left is held against the
//! language family's patterns for an import and for a declaration. Nothing
//! here parses; a line that matches no pattern yields nothing.

use crate::language::{is_text, language_from_chars, language_of, Language};
use crate::memory::types::{
    fact_models, lemma_texts_push, no_details, texts, ConfidenceLevel, FactModel, FileMemory,
    FileModel, SymbolDetails, SymbolFact,
};
use crate::split::{line_seq, lines, rows, split_whitespace, words};
use crate::text::{
    ascii_digit, ascii_letter, chars_of, contains, contains_char, copy_chars, drop_trailing,
    ends_with, find, has_prefix, has_suffix, is_ascii_digit, is_ascii_letter, is_word_char, leading,
    lemma_position, occurs, occurs_at, position, push_chars, starts_with, string_of, take_leading,
    trim, trim_end, trim_start, trimmed, trimmed_end, trimmed_start, without_trailing, word_char,
    CharClass, Class,
};
use vstd::prelude::*;

verus! {

/// A file memory holds at most this many symbols.
pub const MAX_FILE_SYMBOLS: usize = 200;

/// A file memory holds at most this many imports.
pub const MAX_FILE_IMPORTS: usize = 200;

/// An import is kept up to this many characters.
pub const MAX_IMPORT_CHARS: usize = 180;

// ---------------------------------------------------------------------------
// Words and lists of words
// ---------------------------------------------------------------------------

/// The text each literal of `v` holds.
pub open spec fn lits(v: Seq<&'static str>) -> Seq<Seq<char>> {
    Seq::new(v.len(), |i: int| v[i]@)
}

/// Whether `s` is one of the words of `list`.
pub fn text_in(s: &[char], list: &Vec<&'static str>) -> (r: bool)
    ensures
        r == lits(list@).contains(s@),
{
    let mut i: usize = 0;
    while i < list.len()
        invariant
            i <= list.len(),
            forall|j: int| 0 <= j < i ==> lits(list@)[j] != s@,
        decreases list.len() - i,
    {
        if is_text(s, list[i]) {
            assert(lits(list@)[i as int] == s@);
            return true;
        }
        i += 1;
    }
    false
}

/// A name: a letter or an underscore, then letters, digits and underscores.
pub open spec fn valid_identifier(s: Seq<char>) -> bool {
    &&& s.len() > 0
    &&& (is_ascii_letter(s[0]) || s[0] == '_')
    &&& forall|i: int| 0 <= i < s.len() ==> is_word_char(#[trigger] s[i])
}

pub fn is_valid_identifier(s: &[char]) -> (r: bool)
    ensures
        r == valid_identifier(s@),
{
    if s.len() == 0 {
        return false;
    }
    if !(ascii_letter(s[0]) || s[0] == '_') {
        return false;
    }
    let mut i: usize = 0;
    while i < s.len()
        invariant
            i <= s.len(),
            forall|j: int| 0 <= j < i ==> is_word_char(#[trigger] s@[j]),
        decreases s.len() - i,
    {
        if !word_char(s[i]) {
            return false;
        }
        i += 1;
    }
    true
}

/// Words that open a statement and so cannot be the name of a function.
pub open spec fn control_keywords() -> Seq<Seq<char>> {
    seq![
        "if"@,
        "for"@,
        "while"@,
        "switch"@,
        "match"@,
        "catch"@,
        "foreach"@,
        "loop"@,
        "do"@,
        "else"@,
        "return"@,
    ]
}

pub fn is_control_keyword(token: &[char]) -> (r: bool)
    ensures
        r == control_keywords().contains(token@),
{
    let list: Vec<&'static str> = vec![
        "if",
        "for",
        "while",
        "switch",
        "match",
        "catch",
        "foreach",
        "loop",
        "do",
        "else",
        "return",
    ];
    assert(lits(list@) =~= control_keywords());
    text_in(token, &list)
}

// ---------------------------------------------------------------------------
// Comments
// ---------------------------------------------------------------------------

/// The mark that opens a comment running to the end of the line.
pub open spec fn comment_mark(language: Language) -> Seq<char> {
    match language {
        Language::Python => "#"@,
        _ => "//"@,
    }
}

/// `line` up to the first comment mark.
pub open spec fn without_comment(line: Seq<char>, language: Language) -> Seq<char> {
    match position(line, comment_mark(language)) {
        Some(i) => line.take(i),
        None => line,
    }
}

pub fn strip_comments<'a>(line: &'a [char], language: Language) -> (r: &'a [char])
    ensures
        r@ == without_comment(line@, language),
{
    let mark = match language {
        Language::Python => chars_of("#"),
        _ => chars_of("//"),
    };
    match find(line, mark.as_slice()) {
        Some(i) => {
            proof {
                lemma_position(line@, mark@);
                assert(occurs_at(line@, mark@, i as int));
            }
            &line[0..i]
        },
        None => line,
    }
}

// ---------------------------------------------------------------------------
// Imports
// ---------------------------------------------------------------------------

/// Whether a trimmed line is an import of its language family.
pub open spec fn is_import_line(line: Seq<char>, language: Language) -> bool {
    match language {
        Language::Rust => has_prefix(line, "use "@),
        Language::Python => has_prefix(line, "import "@) || has_prefix(line, "from "@),
        Language::JavaScript | Language::TypeScript => has_prefix(line, "import "@) || occurs(
            line,
            "= require("@,
        ),
        Language::Go => has_prefix(line, "import "@),
        Language::Java | Language::Kotlin | Language::CSharp => has_prefix(line, "import "@)
            || has_prefix(line, "using "@),
        Language::C | Language::Cpp => has_prefix(line, "#include "@),
        Language::Other => has_prefix(line, "import "@) || has_prefix(line, "use "@) || has_prefix(
            line,
            "#include "@,
        ),
    }
}

/// An import as it is kept: without semicolons at its end, and cut to
/// `MAX_IMPORT_CHARS` characters with three dots in place of the rest.
pub open spec fn normalized_import(line: Seq<char>) -> Seq<char> {
    let bare = without_trailing(line, Class::AnyOf(seq![';']));
    if bare.len() > MAX_IMPORT_CHARS {
        bare.take(MAX_IMPORT_CHARS as int) + "..."@
    } else {
        bare
    }
}

/// The import a trimmed line holds, if it is one.
pub open spec fn import_of(line: Seq<char>, language: Language) -> Option<Seq<char>> {
    if is_import_line(line, language) {
        Some(normalized_import(line))
    } else {
        None
    }
}

fn begins(line: &[char], lit: &str) -> (r: bool)
    ensures
        r == has_prefix(line@, lit@),
{
    let l = chars_of(lit);
    starts_with(line, l.as_slice())
}

fn holds(line: &[char], lit: &str) -> (r: bool)
    ensures
        r == occurs(line@, lit@),
{
    let l = chars_of(lit);
    contains(line, l.as_slice())
}

pub fn parse_import(line: &[char], language: Language) -> (r: Option<Vec<char>>)
    ensures
        match r {
            Some(import) => import_of(line@, language) == Some(import@),
            None => import_of(line@, language) is None,
        },
{
    let is_import = match language {
        Language::Rust => begins(line, "use "),
        Language::Python => begins(line, "import ") || begins(line, "from "),
        Language::JavaScript | Language::TypeScript => begins(line, "import ") || holds(
            line,
            "= require(",
        ),
        Language::Go => begins(line, "import "),
        Language::Java | Language::Kotlin | Language::CSharp => begins(line, "import ") || begins(
            line,
            "using ",
        ),
        Language::C | Language::Cpp => begins(line, "#include "),
        Language::Other => begins(line, "import ") || begins(line, "use ") || begins(
            line,
            "#include ",
        ),
    };
    if !is_import {
        return None;
    }
    let semicolon: Vec<char> = vec![';'];
    assert(semicolon@ =~= seq![';']);
    let bare = drop_trailing(line, &CharClass::AnyOf(semicolon.as_slice()));
    if bare.len() > MAX_IMPORT_CHARS {
        let mut out = copy_chars(&bare[0..MAX_IMPORT_CHARS]);
        let dots = chars_of("...");
        push_chars(&mut out, dots.as_slice());
        Some(out)
    } else {
        Some(copy_chars(bare))
    }
}

// ---------------------------------------------------------------------------
// Names next to a keyword or a character
// ---------------------------------------------------------------------------

/// The name that follows the first occurrence of `keyword` and a space:
/// after any further white space, the longest run of word characters. There
/// is none if `keyword` does not occur so, if the run is empty, or if it
/// begins with a digit.
pub open spec fn identifier_after_keyword(line: Seq<char>, keyword: Seq<char>) -> Option<
    Seq<char>,
> {
    match position(line, keyword.push(' ')) {
        Some(i) => {
            let word = leading(trimmed_start(line.skip(i + keyword.len() + 1)), Class::Word);
            if word.len() == 0 || is_ascii_digit(word[0]) {
                None
            } else {
                Some(word)
            }
        },
        None => None,
    }
}

pub fn extract_identifier_after_keyword(line: &[char], keyword: &str) -> (r: Option<Vec<char>>)
    ensures
        match r {
            Some(name) => identifier_after_keyword(line@, keyword@) == Some(name@),
            None => identifier_after_keyword(line@, keyword@) is None,
        },
{
    let mut marker = chars_of(keyword);
    marker.push(' ');
    match find(line, marker.as_slice()) {
        Some(start) => {
            proof {
                lemma_position(line@, marker@);
                assert(occurs_at(line@, marker@, start as int));
            }
            let n: usize = line.len();
            let rest = trim_start(&line[start + marker.len()..n]);
            let word = take_leading(rest, &CharClass::Word);
            if word.len() == 0 || ascii_digit(word[0]) {
                None
            } else {
                Some(copy_chars(word))
            }
        },
        None => None,
    }
}

/// The name that follows the first `c`: after any white space, the longest
/// run of word characters, if that is a valid identifier.
pub open spec fn identifier_after_char(line: Seq<char>, c: char) -> Option<Seq<char>> {
    match position(line, seq![c]) {
        Some(i) => {
            let word = leading(trimmed_start(line.skip(i + 1)), Class::Word);
            if valid_identifier(word) {
                Some(word)
            } else {
                None
            }
        },
        None => None,
    }
}

pub fn extract_identifier_after_char(line: &[char], c: char) -> (r: Option<Vec<char>>)
    ensures
        match r {
            Some(name) => identifier_after_char(line@, c) == Some(name@),
            None => identifier_after_char(line@, c) is None,
        },
{
    let pat: Vec<char> = vec![c];
    assert(pat@ =~= seq![c]);
    match find(line, pat.as_slice()) {
        Some(i) => {
            proof {
                lemma_position(line@, pat@);
                assert(occurs_at(line@, pat@, i as int));
            }
            let n: usize = line.len();
            let rest = trim_start(&line[i + 1..n]);
            let word = take_leading(rest, &CharClass::Word);
            if is_valid_identifier(word) {
                Some(copy_chars(word))
            } else {
                None
            }
        },
        None => None,
    }
}

/// The name that stands before the first `c`: the last word of what comes
/// before it, if that is a valid identifier.
pub open spec fn identifier_before_char(line: Seq<char>, c: char) -> Option<Seq<char>> {
    match position(line, seq![c]) {
        Some(i) => {
            let ws = words(trimmed_end(line.take(i)));
            if ws.len() > 0 && valid_identifier(trimmed(ws.last())) {
                Some(trimmed(ws.last()))
            } else {
                None
            }
        },
        None => None,
    }
}

pub fn extract_identifier_before_char(line: &[char], c: char) -> (r: Option<Vec<char>>)
    ensures
        match r {
            Some(name) => identifier_before_char(line@, c) == Some(name@),
            None => identifier_before_char(line@, c) is None,
        },
{
    let pat: Vec<char> = vec![c];
    assert(pat@ =~= seq![c]);
    match find(line, pat.as_slice()) {
        Some(i) => {
            proof {
                lemma_position(line@, pat@);
                assert(occurs_at(line@, pat@, i as int));
            }
            let prefix = trim_end(&line[0..i]);
            let ws = split_whitespace(prefix);
            assert(rows(ws@).len() == ws@.len());
            if ws.len() == 0 {
                return None;
            }
            assert(rows(ws@).last() == ws@[ws.len() - 1]@);
            let token = trim(ws[ws.len() - 1].as_slice());
            if is_valid_identifier(token) {
                Some(copy_chars(token))
            } else {
                None
            }
        },
        None => None,
    }
}

// ---------------------------------------------------------------------------
// Declarations
// ---------------------------------------------------------------------------

/// A declaration found on a line.
pub struct Hit {
    pub name: Vec<char>,
    pub kind: &'static str,
    pub confidence: ConfidenceLevel,
}

pub struct HitModel {
    pub name: Seq<char>,
    pub kind: Seq<char>,
    pub confidence: ConfidenceLevel,
}

impl View for Hit {
    type V = HitModel;

    open spec fn view(&self) -> HitModel {
        HitModel { name: self.name@, kind: self.kind@, confidence: self.confidence }
    }
}

/// Whether `r` is the hit `m`, or neither is there.
pub open spec fn is_hit(r: Option<Hit>, m: Option<HitModel>) -> bool {
    match r {
        Some(hit) => m == Some(hit@),
        None => m is None,
    }
}

/// Keywords with the kind of symbol each declares.
pub open spec fn keyword_pairs(v: Seq<(&'static str, &'static str)>) -> Seq<(Seq<char>, Seq<char>)> {
    Seq::new(v.len(), |i: int| (v[i].0@, v[i].1@))
}

/// The declaration by the first keyword of `table` that has a name after it.
pub open spec fn keyword_hit(
    line: Seq<char>,
    table: Seq<(Seq<char>, Seq<char>)>,
    confidence: ConfidenceLevel,
) -> Option<HitModel>
    decreases table.len(),
{
    if table.len() == 0 {
        None
    } else {
        match identifier_after_keyword(line, table[0].0) {
            Some(name) => Some(HitModel { name, kind: table[0].1, confidence }),
            None => keyword_hit(line, table.drop_first(), confidence),
        }
    }
}

fn first_keyword_hit(
    line: &[char],
    table: &Vec<(&'static str, &'static str)>,
    confidence: ConfidenceLevel,
) -> (r: Option<Hit>)
    ensures
        is_hit(r, keyword_hit(line@, keyword_pairs(table@), confidence)),
{
    let ghost all = keyword_pairs(table@);
    let mut i: usize = 0;
    assert(all.skip(0) =~= all);
    while i < table.len()
        invariant
            i <= table.len(),
            all == keyword_pairs(table@),
            keyword_hit(line@, all, confidence) == keyword_hit(line@, all.skip(i as int), confidence),
        decreases table.len() - i,
    {
        let (keyword, kind) = table[i];
        assert(all.skip(i as int)[0] == (keyword@, kind@));
        match extract_identifier_after_keyword(line, keyword) {
            Some(name) => {
                return Some(Hit { name, kind, confidence });
            },
            None => {},
        }
        assert(all.skip(i as int).drop_first() =~= all.skip(i + 1));
        i += 1;
    }
    None
}

/// The shape of a function's head: a name, then `(`, where the name is no
/// control keyword.
pub open spec fn call_shape_hit(line: Seq<char>) -> Option<HitModel> {
    match identifier_before_char(line, '(') {
        Some(name) => if control_keywords().contains(name) {
            None
        } else {
            Some(HitModel { name, kind: "function"@, confidence: ConfidenceLevel::Medium })
        },
        None => None,
    }
}

fn call_shape(line: &[char]) -> (r: Option<Hit>)
    ensures
        is_hit(r, call_shape_hit(line@)),
{
    match extract_identifier_before_char(line, '(') {
        Some(name) => {
            if is_control_keyword(name.as_slice()) {
                None
            } else {
                Some(Hit { name, kind: "function", confidence: ConfidenceLevel::Medium })
            }
        },
        None => None,
    }
}

/// `(` and `)` occur and the line ends with `{`.
pub open spec fn has_block_head(line: Seq<char>) -> bool {
    line.contains('(') && line.contains(')') && has_suffix(line, seq!['{'])
}

fn block_head(line: &[char]) -> (r: bool)
    ensures
        r == has_block_head(line@),
{
    let brace: Vec<char> = vec!['{'];
    assert(brace@ =~= seq!['{']);
    contains_char(line, '(') && contains_char(line, ')') && ends_with(line, brace.as_slice())
}

pub open spec fn rust_keywords() -> Seq<(Seq<char>, Seq<char>)> {
    seq![
        ("fn"@, "function"@),
        ("struct"@, "struct"@),
        ("enum"@, "enum"@),
        ("trait"@, "trait"@),
        ("mod"@, "module"@),
        ("const"@, "const"@),
        ("static"@, "static"@),
        ("type"@, "type_alias"@),
    ]
}

pub open spec fn rust_symbol(line: Seq<char>) -> Option<HitModel> {
    keyword_hit(line, rust_keywords(), ConfidenceLevel::High)
}

pub fn parse_rust_symbol(line: &[char]) -> (r: Option<Hit>)
    ensures
        is_hit(r, rust_symbol(line@)),
{
    let table: Vec<(&'static str, &'static str)> = vec![
        ("fn", "function"),
        ("struct", "struct"),
        ("enum", "enum"),
        ("trait", "trait"),
        ("mod", "module"),
        ("const", "const"),
        ("static", "static"),
        ("type", "type_alias"),
    ];
    assert(keyword_pairs(table@) =~= rust_keywords());
    first_keyword_hit(line, &table, ConfidenceLevel::High)
}

pub open spec fn python_keywords() -> Seq<(Seq<char>, Seq<char>)> {
    seq![("class"@, "class"@), ("def"@, "function"@)]
}

pub open spec fn python_symbol(line: Seq<char>) -> Option<HitModel> {
    keyword_hit(line, python_keywords(), ConfidenceLevel::High)
}

pub fn parse_python_symbol(line: &[char]) -> (r: Option<Hit>)
    ensures
        is_hit(r, python_symbol(line@)),
{
    let table: Vec<(&'static str, &'static str)> = vec![("class", "class"), ("def", "function")];
    assert(keyword_pairs(table@) =~= python_keywords());
    first_keyword_hit(line, &table, ConfidenceLevel::High)
}

pub open spec fn js_ts_keywords() -> Seq<(Seq<char>, Seq<char>)> {
    seq![
        ("function"@, "function"@),
        ("class"@, "class"@),
        ("interface"@, "interface"@),
        ("type"@, "type_alias"@),
        ("enum"@, "enum"@),
    ]
}

/// A keyword declaration; failing that, on a line with an arrow or with
/// `(`, `)` and `{`, the shape of a function's head.
pub open spec fn js_ts_symbol(line: Seq<char>) -> Option<HitModel> {
    match keyword_hit(line, js_ts_keywords(), ConfidenceLevel::High) {
        Some(hit) => Some(hit),
        None => if occurs(line, "=>"@) || (line.contains('(') && line.contains(')')
            && line.contains('{')) {
            call_shape_hit(line)
        } else {
            None
        },
    }
}

pub fn parse_js_ts_symbol(line: &[char]) -> (r: Option<Hit>)
    ensures
        is_hit(r, js_ts_symbol(line@)),
{
    let table: Vec<(&'static str, &'static str)> = vec![
        ("function", "function"),
        ("class", "class"),
        ("interface", "interface"),
        ("type", "type_alias"),
        ("enum", "enum"),
    ];
    assert(keyword_pairs(table@) =~= js_ts_keywords());
    match first_keyword_hit(line, &table, ConfidenceLevel::High) {
        Some(hit) => Some(hit),
        None => {
            if holds(line, "=>") || (contains_char(line, '(') && contains_char(line, ')')
                && contains_char(line, '{')) {
                call_shape(line)
            } else {
                None
            }
        },
    }
}

pub open spec fn go_keywords() -> Seq<(Seq<char>, Seq<char>)> {
    seq![("type"@, "type"@), ("const"@, "const"@), ("var"@, "var"@)]
}

/// The name of a function or method on a line that begins with `func `.
pub open spec fn go_function(line: Seq<char>) -> Option<Seq<char>> {
    if !has_prefix(line, "func "@) {
        None
    } else if has_prefix(line, "func ("@) {
        identifier_after_char(line, ')')
    } else {
        identifier_after_keyword(line, "func"@)
    }
}

pub open spec fn go_symbol(line: Seq<char>) -> Option<HitModel> {
    match go_function(line) {
        Some(name) => Some(
            HitModel { name, kind: "function"@, confidence: ConfidenceLevel::High },
        ),
        None => keyword_hit(line, go_keywords(), ConfidenceLevel::High),
    }
}

pub fn parse_go_symbol(line: &[char]) -> (r: Option<Hit>)
    ensures
        is_hit(r, go_symbol(line@)),
{
    let function = if !begins(line, "func ") {
        None
    } else if begins(line, "func (") {
        extract_identifier_after_char(line, ')')
    } else {
        extract_identifier_after_keyword(line, "func")
    };
    match function {
        Some(name) => Some(Hit { name, kind: "function", confidence: ConfidenceLevel::High }),
        None => {
            let table: Vec<(&'static str, &'static str)> = vec![
                ("type", "type"),
                ("const", "const"),
                ("var", "var"),
            ];
            assert(keyword_pairs(table@) =~= go_keywords());
            first_keyword_hit(line, &table, ConfidenceLevel::High)
        },
    }
}

pub open spec fn jvm_keywords() -> Seq<(Seq<char>, Seq<char>)> {
    seq![
        ("class"@, "class"@),
        ("interface"@, "interface"@),
        ("enum"@, "enum"@),
        ("record"@, "record"@),
    ]
}

pub open spec fn jvm_or_csharp_symbol(line: Seq<char>) -> Option<HitModel> {
    match keyword_hit(line, jvm_keywords(), ConfidenceLevel::High) {
        Some(hit) => Some(hit),
        None => if has_block_head(line) {
            call_shape_hit(line)
        } else {
            None
        },
    }
}

pub fn parse_jvm_or_csharp_symbol(line: &[char]) -> (r: Option<Hit>)
    ensures
        is_hit(r, jvm_or_csharp_symbol(line@)),
{
    let table: Vec<(&'static str, &'static str)> = vec![
        ("class", "class"),
        ("interface", "interface"),
        ("enum", "enum"),
        ("record", "record"),
    ];
    assert(keyword_pairs(table@) =~= jvm_keywords());
    match first_keyword_hit(line, &table, ConfidenceLevel::High) {
        Some(hit) => Some(hit),
        None => {
            if block_head(line) {
                call_shape(line)
            } else {
                None
            }
        },
    }
}

pub open spec fn c_keywords() -> Seq<(Seq<char>, Seq<char>)> {
    seq![
        ("#define"@, "macro"@),
        ("struct"@, "struct"@),
        ("enum"@, "enum"@),
        ("typedef"@, "type_alias"@),
    ]
}

pub open spec fn c_family_symbol(line: Seq<char>) -> Option<HitModel> {
    match keyword_hit(line, c_keywords(), ConfidenceLevel::High) {
        Some(hit) => Some(hit),
        None => if has_block_head(line) {
            call_shape_hit(line)
        } else {
            None
        },
    }
}

pub fn parse_c_family_symbol(line: &[char]) -> (r: Option<Hit>)
    ensures
        is_hit(r, c_family_symbol(line@)),
{
    let table: Vec<(&'static str, &'static str)> = vec![
        ("#define", "macro"),
        ("struct", "struct"),
        ("enum", "enum"),
        ("typedef", "type_alias"),
    ];
    assert(keyword_pairs(table@) =~= c_keywords());
    match first_keyword_hit(line, &table, ConfidenceLevel::High) {
        Some(hit) => Some(hit),
        None => {
            if block_head(line) {
                call_shape(line)
            } else {
                None
            }
        },
    }
}

pub open spec fn fallback_keywords() -> Seq<(Seq<char>, Seq<char>)> {
    seq![("function"@, "function"@), ("class"@, "class"@), ("def"@, "function"@)]
}

pub open spec fn fallback_symbol(line: Seq<char>) -> Option<HitModel> {
    keyword_hit(line, fallback_keywords(), ConfidenceLevel::Low)
}

pub fn parse_fallback_symbol(line: &[char]) -> (r: Option<Hit>)
    ensures
        is_hit(r, fallback_symbol(line@)),
{
    let table: Vec<(&'static str, &'static str)> = vec![
        ("function", "function"),
        ("class", "class"),
        ("def", "function"),
    ];
    assert(keyword_pairs(table@) =~= fallback_keywords());
    first_keyword_hit(line, &table, ConfidenceLevel::Low)
}

/// The declaration a trimmed line holds, by the patterns of its language.
pub open spec fn symbol_of(line: Seq<char>, language: Language) -> Option<HitModel> {
    match language {
        Language::Rust => rust_symbol(line),
        Language::Python => python_symbol(line),
        Language::JavaScript | Language::TypeScript => js_ts_symbol(line),
        Language::Go => go_symbol(line),
        Language::Java | Language::Kotlin | Language::CSharp => jvm_or_csharp_symbol(line),
        Language::C | Language::Cpp => c_family_symbol(line),
        Language::Other => fallback_symbol(line),
    }
}

/// The fact that a hit on line `line_no` stands for.
pub open spec fn fact_of(hit: HitModel, line_no: nat) -> FactModel {
    FactModel {
        name: hit.name,
        kind: hit.kind,
        line: line_no,
        confidence: hit.confidence,
        details: no_details(),
    }
}

pub fn parse_symbol(line: &[char], line_no: usize, language: Language) -> (r: Option<SymbolFact>)
    ensures
        match r {
            Some(fact) => symbol_of(line@, language) is Some && fact@ == fact_of(
                symbol_of(line@, language)->0,
                line_no as nat,
            ),
            None => symbol_of(line@, language) is None,
        },
{
    let parsed = match language {
        Language::Rust => parse_rust_symbol(line),
        Language::Python => parse_python_symbol(line),
        Language::JavaScript | Language::TypeScript => parse_js_ts_symbol(line),
        Language::Go => parse_go_symbol(line),
        Language::Java | Language::Kotlin | Language::CSharp => parse_jvm_or_csharp_symbol(line),
        Language::C | Language::Cpp => parse_c_family_symbol(line),
        Language::Other => parse_fallback_symbol(line),
    };
    match parsed {
        Some(hit) => Some(
            SymbolFact {
                name: string_of(hit.name.as_slice()),
                kind: string_of(chars_of(hit.kind).as_slice()),
                line: line_no,
                confidence: hit.confidence,
                details: SymbolDetails::default(),
            },
        ),
        None => None,
    }
}

// ---------------------------------------------------------------------------
// Keeping what was seen first
// ---------------------------------------------------------------------------

/// `s` without the elements that occurred before.
pub open spec fn first_seen<T>(s: Seq<T>) -> Seq<T>
    decreases s.len(),
{
    if s.len() == 0 {
        s
    } else {
        let init = first_seen(s.drop_last());
        if init.contains(s.last()) {
            init
        } else {
            init.push(s.last())
        }
    }
}

/// What is kept holds everything that was there, once.
pub proof fn lemma_first_seen<T>(s: Seq<T>)
    ensures
        first_seen(s).no_duplicates(),
        first_seen(s).len() <= s.len(),
        forall|x: T| first_seen(s).contains(x) <==> s.contains(x),
    decreases s.len(),
{
    if s.len() > 0 {
        let init = first_seen(s.drop_last());
        lemma_first_seen(s.drop_last());
        let t = s.drop_last();
        let last = s.last();
        assert forall|x: T| first_seen(s).contains(x) <==> s.contains(x) by {
            assert(init.contains(x) <==> t.contains(x));
            assert(s.contains(x) <==> (t.contains(x) || x == last)) by {
                if s.contains(x) {
                    let i = choose|i: int| 0 <= i < s.len() && s[i] == x;
                    if i < s.len() - 1 {
                        assert(t[i] == x);
                    }
                }
                if t.contains(x) {
                    let i = choose|i: int| 0 <= i < t.len() && t[i] == x;
                    assert(s[i] == x);
                }
                if x == last {
                    assert(s[s.len() - 1] == x);
                }
            }
            assert(first_seen(s).contains(x) <==> (init.contains(x) || x == last)) by {
                if init.contains(last) {
                } else {
                    let r = init.push(last);
                    if r.contains(x) {
                        let i = choose|i: int| 0 <= i < r.len() && r[i] == x;
                        if i < init.len() {
                            assert(init[i] == x);
                        }
                    }
                    if init.contains(x) {
                        let i = choose|i: int| 0 <= i < init.len() && init[i] == x;
                        assert(r[i] == x);
                    }
                    if x == last {
                        assert(r[init.len() as int] == x);
                    }
                }
            }
        }
    }
}

/// Nothing is dropped from a sequence without repetitions.
pub proof fn lemma_first_seen_distinct<T>(s: Seq<T>)
    requires
        s.no_duplicates(),
    ensures
        first_seen(s) == s,
    decreases s.len(),
{
    if s.len() > 0 {
        let t = s.drop_last();
        lemma_first_seen_distinct(t);
        if t.contains(s.last()) {
            let i = choose|i: int| 0 <= i < t.len() && t[i] == s.last();
            assert(s[i] == s[s.len() - 1]);
        }
        assert(t.push(s.last()) =~= s);
    } else {
        assert(first_seen(s) =~= s);
    }
}

/// Keeps of each import its first occurrence.
pub fn dedup_imports(imports: &mut Vec<String>)
    ensures
        texts(final(imports)@) == first_seen(texts(old(imports)@)),
{
    let mut kept: Vec<String> = Vec::new();
    let ghost all = texts(imports@);
    let mut i: usize = 0;
    assert(texts(kept@) =~= first_seen(all.take(0)));
    while i < imports.len()
        invariant
            i <= imports.len(),
            all == texts(imports@),
            texts(kept@) == first_seen(all.take(i as int)),
        decreases imports.len() - i,
    {
        let mut seen = false;
        let mut k: usize = 0;
        while k < kept.len()
            invariant
                k <= kept.len(),
                i < imports.len(),
                !seen ==> forall|j: int| 0 <= j < k ==> texts(kept@)[j] != imports@[i as int]@,
                seen ==> texts(kept@).contains(imports@[i as int]@),
            decreases kept.len() - k,
        {
            if kept[k] == imports[i] {
                assert(texts(kept@)[k as int] == imports@[i as int]@);
                seen = true;
            }
            k += 1;
        }
        let ghost before = kept@;
        if !seen {
            let s = imports[i].clone();
            kept.push(s);
            proof {
                lemma_texts_push(before, s);
            }
        }
        i += 1;
        proof {
            assert(all.take(i as int).drop_last() =~= all.take(i - 1));
            assert(all.take(i as int).last() == imports@[i - 1]@);
        }
    }
    assert(all.take(imports.len() as int) =~= all);
    *imports = kept;
}

/// Keeps of each symbol fact its first occurrence. Facts as they are
/// extracted carry no details, so two of them are the same if they agree in
/// name, kind, line and confidence.
fn dedup_symbols(symbols: &mut Vec<SymbolFact>)
    requires
        forall|i: int| 0 <= i < old(symbols)@.len() ==> (#[trigger] old(symbols)@[i])@.details
            == no_details(),
    ensures
        fact_models(final(symbols)@) == first_seen(fact_models(old(symbols)@)),
{
    let mut kept: Vec<SymbolFact> = Vec::new();
    let ghost all = fact_models(symbols@);
    let mut i: usize = 0;
    assert(fact_models(kept@) =~= first_seen(all.take(0)));
    while i < symbols.len()
        invariant
            i <= symbols.len(),
            all == fact_models(symbols@),
            fact_models(kept@) == first_seen(all.take(i as int)),
            forall|j: int| 0 <= j < symbols@.len() ==> (#[trigger] symbols@[j])@.details
                == no_details(),
            forall|j: int| 0 <= j < kept@.len() ==> (#[trigger] kept@[j])@.details == no_details(),
        decreases symbols.len() - i,
    {
        let mut seen = false;
        let mut k: usize = 0;
        while k < kept.len()
            invariant
                k <= kept.len(),
                i < symbols.len(),
                symbols@[i as int]@.details == no_details(),
                forall|j: int| 0 <= j < kept@.len() ==> (#[trigger] kept@[j])@.details
                    == no_details(),
                !seen ==> forall|j: int| 0 <= j < k ==> fact_models(kept@)[j] != symbols@[i as int]@,
                seen ==> fact_models(kept@).contains(symbols@[i as int]@),
            decreases kept.len() - k,
        {
            let a = &kept[k];
            let b = &symbols[i];
            if a.line == b.line && a.confidence == b.confidence && a.name == b.name && a.kind
                == b.kind {
                assert(fact_models(kept@)[k as int] == symbols@[i as int]@);
                seen = true;
            }
            k += 1;
        }
        let ghost before = kept@;
        if !seen {
            let f = symbols[i].clone();
            kept.push(f);
            proof {
                assert(fact_models(kept@) =~= fact_models(before).push(f@));
            }
        }
        i += 1;
        proof {
            assert(all.take(i as int).drop_last() =~= all.take(i - 1));
            assert(all.take(i as int).last() == symbols@[i - 1]@);
        }
    }
    assert(all.take(symbols.len() as int) =~= all);
    *symbols = kept;
}

// ---------------------------------------------------------------------------
// The memory of a file
// ---------------------------------------------------------------------------

/// What is left of a raw line once its comment is dropped and it is trimmed.
pub open spec fn bare_line(raw: Seq<char>, language: Language) -> Seq<char> {
    trimmed(without_comment(raw, language))
}

/// The imports of the lines, in order, repetitions included.
pub open spec fn imports_of_lines(ls: Seq<Seq<char>>, language: Language) -> Seq<Seq<char>>
    decreases ls.len(),
{
    if ls.len() == 0 {
        Seq::empty()
    } else {
        let init = imports_of_lines(ls.drop_last(), language);
        let line = bare_line(ls.last(), language);
        match import_of(line, language) {
            Some(import) => if line.len() > 0 {
                init.push(import)
            } else {
                init
            },
            None => init,
        }
    }
}

/// The declarations of the lines, in order, each with the number of its line.
pub open spec fn symbols_of_lines(ls: Seq<Seq<char>>, language: Language) -> Seq<FactModel>
    decreases ls.len(),
{
    if ls.len() == 0 {
        Seq::empty()
    } else {
        let init = symbols_of_lines(ls.drop_last(), language);
        let line = bare_line(ls.last(), language);
        match symbol_of(line, language) {
            Some(hit) => if line.len() > 0 {
                init.push(fact_of(hit, ls.len()))
            } else {
                init
            },
            None => init,
        }
    }
}

/// The first `cap` elements of `s`, or all of them if there are fewer.
pub open spec fn capped<T>(s: Seq<T>, cap: int) -> Seq<T> {
    if s.len() > cap {
        s.take(cap)
    } else {
        s
    }
}

/// The memory of the file at `path` with the text `source`.
pub open spec fn file_model(path: Seq<char>, language: Seq<char>, source: Seq<char>) -> FileModel {
    let family = language_of(language);
    let ls = line_seq(source);
    let symbols = capped(first_seen(symbols_of_lines(ls, family)), MAX_FILE_SYMBOLS as int);
    let imports = capped(first_seen(imports_of_lines(ls, family)), MAX_FILE_IMPORTS as int);
    FileModel {
        path,
        language,
        symbol_count: symbols.len(),
        import_count: imports.len(),
        symbols,
        imports,
    }
}

/// The symbols and imports of a file, each list without repetitions and cut
/// to its cap, with counts that say how long the lists are.
pub fn build_file_memory(relative_path: &str, language: &str, source: &str) -> (memory: FileMemory)
    ensures
        memory@ == file_model(relative_path@, language@, source@),
        memory.counts_agree(),
        memory.symbols@.len() <= MAX_FILE_SYMBOLS,
        memory.imports@.len() <= MAX_FILE_IMPORTS,
{
    let tag = chars_of(language);
    let family = language_from_chars(tag.as_slice());
    let text = chars_of(source);
    let ls = lines(text.as_slice());
    let ghost all = rows(ls@);
    let mut symbols: Vec<SymbolFact> = Vec::new();
    let mut imports: Vec<String> = Vec::new();
    let mut idx: usize = 0;
    proof {
        assert(all.take(0) =~= Seq::<Seq<char>>::empty());
        assert(fact_models(symbols@) =~= symbols_of_lines(all.take(0), family));
        assert(texts(imports@) =~= imports_of_lines(all.take(0), family));
    }
    while idx < ls.len()
        invariant
            idx <= ls.len(),
            all == rows(ls@),
            fact_models(symbols@) == symbols_of_lines(all.take(idx as int), family),
            texts(imports@) == imports_of_lines(all.take(idx as int), family),
            forall|j: int| 0 <= j < symbols@.len() ==> (#[trigger] symbols@[j])@.details
                == no_details(),
        decreases ls.len() - idx,
    {
        let line_no: usize = idx + 1;
        let line = strip_comments(ls[idx].as_slice(), family);
        let bare = trim(line);
        proof {
            assert(all.take(idx + 1).drop_last() =~= all.take(idx as int));
            assert(all.take(idx + 1).last() == ls@[idx as int]@);
            assert(bare@ == bare_line(ls@[idx as int]@, family));
        }
        if bare.len() > 0 {
            match parse_import(bare, family) {
                Some(import) => {
                    let ghost before = imports@;
                    let s = string_of(import.as_slice());
                    imports.push(s);
                    proof {
                        lemma_texts_push(before, s);
                    }
                },
                None => {},
            }
            match parse_symbol(bare, line_no, family) {
                Some(fact) => {
                    let ghost before = symbols@;
                    symbols.push(fact);
                    proof {
                        assert(fact_models(symbols@) =~= fact_models(before).push(fact@));
                    }
                },
                None => {},
            }
        }
        idx += 1;
    }
    proof {
        assert(all.take(ls.len() as int) =~= all);
    }
    dedup_imports(&mut imports);
    dedup_symbols(&mut symbols);
    if symbols.len() > MAX_FILE_SYMBOLS {
        let ghost before = symbols@;
        symbols.truncate(MAX_FILE_SYMBOLS);
        proof {
            assert(fact_models(symbols@) =~= fact_models(before).take(MAX_FILE_SYMBOLS as int));
        }
    }
    if imports.len() > MAX_FILE_IMPORTS {
        let ghost before = imports@;
        imports.truncate(MAX_FILE_IMPORTS);
        proof {
            assert(texts(imports@) =~= texts(before).take(MAX_FILE_IMPORTS as int));
        }
    }
    FileMemory {
        path: string_of(chars_of(relative_path).as_slice()),
        language: string_of(tag.as_slice()),
        symbol_count: symbols.len(),
        import_count: imports.len(),
        symbols,
        imports,
    }
}

/// Two memories built from the same path, language and source hold the same.
pub proof fn lemma_extraction_repeatable(
    first: FileMemory,
    second: FileMemory,
    path: Seq<char>,
    language: Seq<char>,
    source: Seq<char>,
)
    requires
        first@ == file_model(path, language, source),
        second@ == file_model(path, language, source),
    ensures
        first@.symbols == second@.symbols,
        first@.imports == second@.imports,
        first@ == second@,
{
}

/// The counts of a file's memory are the lengths of its lists, and neither
/// list is longer than its cap.
pub proof fn lemma_file_model_counts(path: Seq<char>, language: Seq<char>, source: Seq<char>)
    ensures
        file_model(path, language, source).symbol_count == file_model(
            path,
            language,
            source,
        ).symbols.len(),
        file_model(path, language, source).import_count == file_model(
            path,
            language,
            source,
        ).imports.len(),
        file_model(path, language, source).symbols.len() <= MAX_FILE_SYMBOLS,
        file_model(path, language, source).imports.len() <= MAX_FILE_IMPORTS,
        file_model(path, language, source).imports.no_duplicates(),
{
    let family = language_of(language);
    let ls = line_seq(source);
    lemma_first_seen(imports_of_lines(ls, family));
    let full = first_seen(imports_of_lines(ls, family));
    if full.len() > MAX_FILE_IMPORTS {
        let cut = full.take(MAX_FILE_IMPORTS as int);
        assert forall|i: int, j: int| 0 <= i < cut.len() && 0 <= j < cut.len() && i != j implies cut[i]
            != cut[j] by {
            assert(cut[i] == full[i] && cut[j] == full[j]);
        }
    }
}

} // verus!
