//! The adapters for Java and for everything else.
//!
//! Java is read word by word: the word after `class`, `interface` or
//! `enum` names a type, the word after `package` the package, the word
//! after `import` what is imported. A keyword that no word follows finds
//! nothing.

use crate::core_ir::{import_models, symbol_models, Capabilities, Capability, Diagnostic, DiagnosticModel, FileIr, FileIrModel, FilePath, Import, ImportModel, LanguageId, Package, PackageModel, Severity, Span, Symbol, SymbolId, SymbolKind, SymbolModel};
use crate::file_walker::{extension_of, file_extension};
use crate::language::is_text;
use crate::parser::framework::{LangaugeAdapter, ParseInput, ParseOutput};
use crate::split::{rows, split_whitespace, words};
use crate::text::{
    chars_of, copy_chars, find, has_prefix, lemma_position, occurs_at, position, push_chars,
    starts_with, string_of,
};
use vstd::prelude::*;

verus! {

// ---------------------------------------------------------------------------
// Everything else
// ---------------------------------------------------------------------------

/// An adapter that reads every file and finds nothing in it.
pub struct EmptyAdapter;

pub open spec fn empty_note() -> DiagnosticModel {
    DiagnosticModel {
        severity: Severity::Info,
        message: "This is an empty language adapter. This is only for testing!"@,
        span: None,
    }
}

impl LangaugeAdapter for EmptyAdapter {
    open spec fn accepts(&self, path: Seq<char>) -> bool {
        true
    }

    open spec fn found_in(&self, path: Seq<char>, source: Seq<char>) -> FileIrModel {
        FileIrModel {
            language: LanguageId::Empty,
            path,
            package: None,
            imports: Seq::empty(),
            symbols: Seq::empty(),
            diagnostics: seq![empty_note()],
        }
    }

    open spec fn offers(&self) -> Seq<Capability> {
        Seq::empty()
    }

    fn can_parse_path(&self, path: &str) -> (r: bool) {
        true
    }

    fn capabilities(&self) -> (r: Capabilities) {
        Capabilities::none()
    }

    fn parse(&self, input: ParseInput) -> (output: ParseOutput) {
        let mut diagnostics: Vec<Diagnostic> = Vec::new();
        diagnostics.push(
            Diagnostic {
                severity: Severity::Info,
                message: string_of(
                    chars_of(
                        "This is an empty language adapter. This is only for testing!",
                    ).as_slice(),
                ),
                span: None,
            },
        );
        let ir = FileIr {
            language: LanguageId::Empty,
            path: input.path,
            package: None,
            imports: Vec::new(),
            symbols: Vec::new(),
            diagnostics,
        };
        proof {
            assert(ir@.imports =~= Seq::<ImportModel>::empty());
            assert(ir@.symbols =~= Seq::<SymbolModel>::empty());
            assert(ir@.diagnostics =~= seq![empty_note()]);
        }
        ParseOutput { ir }
    }
}

// ---------------------------------------------------------------------------
// Places in the source
// ---------------------------------------------------------------------------

/// How many bytes a character takes in UTF-8.
pub open spec fn utf8_len(c: char) -> nat {
    let u = c as u32;
    if u < 0x80 {
        1
    } else if u < 0x800 {
        2
    } else if u < 0x10000 {
        3
    } else {
        4
    }
}

/// How many bytes a text takes in UTF-8.
pub open spec fn byte_len(s: Seq<char>) -> nat
    decreases s.len(),
{
    if s.len() == 0 {
        0
    } else {
        byte_len(s.drop_last()) + utf8_len(s.last())
    }
}

/// A number as it is held in 32 bits.
pub open spec fn in_u32(n: nat) -> u32 {
    (n % 0x1_0000_0000) as u32
}

/// Where `name` first occurs in the source, in bytes.
pub open spec fn span_of(source: Seq<char>, name: Seq<char>) -> Option<Span> {
    match position(source, name) {
        Some(at) => Some(
            Span {
                start: in_u32(byte_len(source.take(at))),
                end: in_u32(byte_len(source.take(at)) + byte_len(name)),
            },
        ),
        None => None,
    }
}

fn bytes_of(s: &[char], upto: usize) -> (n: u128)
    requires
        upto <= s.len(),
    ensures
        n == byte_len(s@.take(upto as int)),
        n <= 4 * upto,
{
    let mut n: u128 = 0;
    let mut i: usize = 0;
    assert(s@.take(0) =~= Seq::<char>::empty());
    while i < upto
        invariant
            i <= upto <= s.len(),
            n == byte_len(s@.take(i as int)),
            n <= 4 * i,
        decreases upto - i,
    {
        let u: u32 = s[i] as u32;
        let w: u128 = if u < 0x80 {
            1
        } else if u < 0x800 {
            2
        } else if u < 0x10000 {
            3
        } else {
            4
        };
        proof {
            assert(s@.take(i + 1).drop_last() =~= s@.take(i as int));
            assert(s@.take(i + 1).last() == s@[i as int]);
        }
        n = n + w;
        i += 1;
    }
    n
}

fn find_span(source: &[char], name: &[char]) -> (r: Option<Span>)
    ensures
        r == span_of(source@, name@),
{
    match find(source, name) {
        Some(at) => {
            proof {
                lemma_position(source@, name@);
                assert(occurs_at(source@, name@, at as int));
                assert(name@.take(name@.len() as int) =~= name@);
            }
            let start: u128 = bytes_of(source, at);
            let length: u128 = bytes_of(name, name.len());
            Some(
                Span {
                    start: (start % 0x1_0000_0000) as u32,
                    end: ((start + length) % 0x1_0000_0000) as u32,
                },
            )
        },
        None => None,
    }
}

// ---------------------------------------------------------------------------
// Java
// ---------------------------------------------------------------------------

/// An adapter that reads the types, the package and the imports of Java files.
pub struct JavaAdapter;

/// What has been found in a Java file so far.
pub struct JavaFindings {
    pub symbols: Seq<SymbolModel>,
    pub imports: Seq<ImportModel>,
    pub package: Option<PackageModel>,
}

/// The symbol of a type with the given name.
pub open spec fn type_symbol(
    path: Seq<char>,
    source: Seq<char>,
    name: Seq<char>,
    kind: SymbolKind,
    label: Seq<char>,
) -> SymbolModel {
    SymbolModel { id: path + ":"@ + label + "_"@ + name, name, kind, span: span_of(source, name) }
}

/// What the word at index `i` adds to the findings.
pub open spec fn java_word(
    found: JavaFindings,
    path: Seq<char>,
    source: Seq<char>,
    tokens: Seq<Seq<char>>,
    i: int,
) -> JavaFindings {
    let word = tokens[i];
    let next = if i + 1 < tokens.len() {
        Some(tokens[i + 1])
    } else {
        None
    };
    if has_prefix(word, "class"@) {
        match next {
            Some(name) => JavaFindings {
                symbols: found.symbols.push(
                    type_symbol(path, source, name, SymbolKind::Class, "class"@),
                ),
                ..found
            },
            None => found,
        }
    } else if has_prefix(word, "interface"@) {
        match next {
            Some(name) => JavaFindings {
                symbols: found.symbols.push(
                    type_symbol(path, source, name, SymbolKind::Interface, "interface"@),
                ),
                ..found
            },
            None => found,
        }
    } else if has_prefix(word, "enum"@) {
        match next {
            Some(name) => JavaFindings {
                symbols: found.symbols.push(
                    type_symbol(path, source, name, SymbolKind::Enum, "enum"@),
                ),
                ..found
            },
            None => found,
        }
    } else if has_prefix(word, "import"@) {
        match java_import(source, tokens, i) {
            Some(import) => JavaFindings { imports: found.imports.push(import), ..found },
            None => found,
        }
    } else if has_prefix(word, "package"@) {
        match next {
            Some(name) => JavaFindings {
                package: Some(PackageModel { name, span: span_of(source, name) }),
                ..found
            },
            None => found,
        }
    } else {
        found
    }
}

/// A word without its last character.
pub open spec fn without_last(word: Seq<char>) -> Seq<char> {
    if word.len() > 0 {
        word.drop_last()
    } else {
        word
    }
}

/// The import that the word at index `i` opens: the next word without its
/// last character, or the one after it if the next is `static`.
pub open spec fn java_import(source: Seq<char>, tokens: Seq<Seq<char>>, i: int) -> Option<
    ImportModel,
> {
    if i + 1 >= tokens.len() {
        None
    } else if tokens[i + 1] == "static"@ {
        if i + 2 >= tokens.len() {
            None
        } else {
            let name = without_last(tokens[i + 2]);
            Some(ImportModel { path: name, is_static: true, span: span_of(source, name) })
        }
    } else {
        let name = without_last(tokens[i + 1]);
        Some(ImportModel { path: name, is_static: false, span: span_of(source, name) })
    }
}

/// What the first `upto` words hold.
pub open spec fn java_findings(
    path: Seq<char>,
    source: Seq<char>,
    tokens: Seq<Seq<char>>,
    upto: int,
) -> JavaFindings
    decreases upto,
{
    if upto <= 0 {
        JavaFindings { symbols: Seq::empty(), imports: Seq::empty(), package: None }
    } else {
        java_word(java_findings(path, source, tokens, upto - 1), path, source, tokens, upto - 1)
    }
}

/// The notes that go with what was found.
pub open spec fn java_notes(found_types: bool) -> Seq<DiagnosticModel> {
    seq![
        DiagnosticModel {
            severity: Severity::Info,
            message: if found_types {
                "Java adapter: extracted package/imports and top-level types (heuristic)."@
            } else {
                "Java adapter: no top-level type symbols found (heuristic)."@
            },
            span: None,
        },
        DiagnosticModel {
            severity: Severity::Warning,
            message: "Heuristic Java parser: results may be incomplete."@,
            span: None,
        },
    ]
}

/// What the Java adapter finds in a file.
pub open spec fn java_file(path: Seq<char>, source: Seq<char>) -> FileIrModel {
    let tokens = words(source);
    let found = java_findings(path, source, tokens, tokens.len() as int);
    FileIrModel {
        language: LanguageId::Java,
        path,
        package: found.package,
        imports: found.imports,
        symbols: found.symbols,
        diagnostics: java_notes(found.symbols.len() > 0),
    }
}

fn make_symbol(path: &[char], source: &[char], name: &[char], kind: SymbolKind, label: &str) -> (r:
    Symbol)
    ensures
        r@ == type_symbol(path@, source@, name@, kind, label@),
{
    let mut id = copy_chars(path);
    push_chars(&mut id, chars_of(":").as_slice());
    push_chars(&mut id, chars_of(label).as_slice());
    push_chars(&mut id, chars_of("_").as_slice());
    push_chars(&mut id, name);
    Symbol {
        id: SymbolId(string_of(id.as_slice())),
        name: string_of(name),
        kind,
        span: find_span(source, name),
    }
}

fn make_import(source: &[char], token: &[char], is_static: bool) -> (r: Import)
    ensures
        r@ == (ImportModel {
            path: without_last(token@),
            is_static,
            span: span_of(source@, without_last(token@)),
        }),
{
    let name: &[char] = if token.len() > 0 {
        &token[0..token.len() - 1]
    } else {
        token
    };
    Import { path: string_of(name), is_static, span: find_span(source, name) }
}

fn note(severity: Severity, message: &str) -> (r: Diagnostic)
    ensures
        r@ == (DiagnosticModel { severity, message: message@, span: None }),
{
    Diagnostic { severity, message: string_of(chars_of(message).as_slice()), span: None }
}

/// What a Java file holds.
pub fn parse_file(input: &ParseInput) -> (ir: FileIr)
    ensures
        ir@ == java_file(input.path.0@, input.source@),
{
    let source = chars_of(input.source.as_str());
    let path = chars_of(input.path.0.as_str());
    let tokens = split_whitespace(source.as_slice());
    let ghost all = rows(tokens@);
    let mut symbols: Vec<Symbol> = Vec::new();
    let mut imports: Vec<Import> = Vec::new();
    let mut package: Option<Package> = None;
    let mut i: usize = 0;
    proof {
        assert(symbol_models(symbols@) =~= Seq::<SymbolModel>::empty());
        assert(import_models(imports@) =~= Seq::<ImportModel>::empty());
    }
    while i < tokens.len()
        invariant
            i <= tokens.len(),
            all == rows(tokens@),
            all == words(source@),
            ({
                let found = java_findings(path@, source@, all, i as int);
                &&& symbol_models(symbols@) == found.symbols
                &&& import_models(imports@) == found.imports
                &&& found.package == (match package {
                    Some(p) => Some(p@),
                    None => None,
                })
            }),
        decreases tokens.len() - i,
    {
        let word = tokens[i].as_slice();
        let ghost before_symbols = symbols@;
        let ghost before_imports = imports@;
        proof {
            assert(all[i as int] == word@);
            if i + 1 < tokens.len() {
                assert(all[i + 1] == tokens@[i + 1]@);
            }
            if i + 2 < tokens.len() {
                assert(all[i + 2] == tokens@[i + 2]@);
            }
        }
        if starts_with(word, chars_of("class").as_slice()) {
            if i + 1 < tokens.len() {
                let symbol = make_symbol(
                    path.as_slice(),
                    source.as_slice(),
                    tokens[i + 1].as_slice(),
                    SymbolKind::Class,
                    "class",
                );
                symbols.push(symbol);
                assert(symbol_models(symbols@) =~= symbol_models(before_symbols).push(symbol@));
            }
        } else if starts_with(word, chars_of("interface").as_slice()) {
            if i + 1 < tokens.len() {
                let symbol = make_symbol(
                    path.as_slice(),
                    source.as_slice(),
                    tokens[i + 1].as_slice(),
                    SymbolKind::Interface,
                    "interface",
                );
                symbols.push(symbol);
                assert(symbol_models(symbols@) =~= symbol_models(before_symbols).push(symbol@));
            }
        } else if starts_with(word, chars_of("enum").as_slice()) {
            if i + 1 < tokens.len() {
                let symbol = make_symbol(
                    path.as_slice(),
                    source.as_slice(),
                    tokens[i + 1].as_slice(),
                    SymbolKind::Enum,
                    "enum",
                );
                symbols.push(symbol);
                assert(symbol_models(symbols@) =~= symbol_models(before_symbols).push(symbol@));
            }
        } else if starts_with(word, chars_of("import").as_slice()) {
            if i + 1 < tokens.len() {
                if is_text(tokens[i + 1].as_slice(), "static") {
                    if i + 2 < tokens.len() {
                        let import = make_import(source.as_slice(), tokens[i + 2].as_slice(), true);
                        imports.push(import);
                        assert(import_models(imports@) =~= import_models(before_imports).push(
                            import@,
                        ));
                    }
                } else {
                    let import = make_import(source.as_slice(), tokens[i + 1].as_slice(), false);
                    imports.push(import);
                    assert(import_models(imports@) =~= import_models(before_imports).push(import@));
                }
            }
        } else if starts_with(word, chars_of("package").as_slice()) {
            if i + 1 < tokens.len() {
                let name = tokens[i + 1].as_slice();
                package = Some(
                    Package { name: string_of(name), span: find_span(source.as_slice(), name) },
                );
            }
        }
        i += 1;
    }
    let mut diagnostics: Vec<Diagnostic> = Vec::new();
    if symbols.len() == 0 {
        diagnostics.push(
            note(Severity::Info, "Java adapter: no top-level type symbols found (heuristic)."),
        );
    } else {
        diagnostics.push(
            note(
                Severity::Info,
                "Java adapter: extracted package/imports and top-level types (heuristic).",
            ),
        );
    }
    diagnostics.push(note(Severity::Warning, "Heuristic Java parser: results may be incomplete."));
    let ir = FileIr {
        language: LanguageId::Java,
        path: FilePath(input.path.0.clone()),
        package,
        imports,
        symbols,
        diagnostics,
    };
    proof {
        assert(ir@.diagnostics =~= java_notes(symbols@.len() > 0));
    }
    ir
}

impl LangaugeAdapter for JavaAdapter {
    open spec fn accepts(&self, path: Seq<char>) -> bool {
        extension_of(path) == "java"@
    }

    open spec fn found_in(&self, path: Seq<char>, source: Seq<char>) -> FileIrModel {
        java_file(path, source)
    }

    open spec fn offers(&self) -> Seq<Capability> {
        seq![Capability::Symbols, Capability::Imports]
    }

    fn can_parse_path(&self, path: &str) -> (r: bool) {
        is_text(file_extension(path).as_slice(), "java")
    }

    fn capabilities(&self) -> (r: Capabilities) {
        Capabilities::from(vec![Capability::Symbols, Capability::Imports])
    }

    fn parse(&self, input: ParseInput) -> (output: ParseOutput) {
        ParseOutput { ir: parse_file(&input) }
    }
}

} // verus!
