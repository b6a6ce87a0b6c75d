use plainsight::memory::file_memory::{
    extract_identifier_after_char, extract_identifier_after_keyword, extract_identifier_before_char,
    is_control_keyword, is_valid_identifier,
};
use plainsight::memory::{build_file_memory, ConfidenceLevel, FileMemory};
use plainsight::text::chars_of;

fn symbols(memory: &FileMemory) -> Vec<(String, String, usize, ConfidenceLevel)> {
    memory
        .symbols
        .iter()
        .map(|s| (s.name.clone(), s.kind.clone(), s.line, s.confidence))
        .collect()
}

fn sym(name: &str, kind: &str, line: usize, confidence: ConfidenceLevel) -> (String, String, usize, ConfidenceLevel) {
    (name.to_string(), kind.to_string(), line, confidence)
}

fn name_of(found: Option<Vec<char>>) -> Option<String> {
    found.map(|n| n.iter().collect())
}

#[test]
fn rust_declarations_and_imports() {
    let source = "use std::fmt;\nuse crate::a::B; // trailing\n\npub struct Config {\n    x: u32,\n}\n\npub enum Mode { A }\ntrait Shape {}\nmod inner;\nconst LIMIT: usize = 3;\nstatic NAME: &str = \"n\";\ntype Alias = u8;\npub(crate) fn run(config: &Config) {}\n// fn hidden() {}\n";
    let memory = build_file_memory("src/lib.rs", "rust", source);
    assert_eq!(memory.path, "src/lib.rs");
    assert_eq!(memory.language, "rust");
    assert_eq!(memory.imports, vec!["use std::fmt", "use crate::a::B"]);
    assert_eq!(
        symbols(&memory),
        vec![
            sym("Config", "struct", 4, ConfidenceLevel::High),
            sym("Mode", "enum", 8, ConfidenceLevel::High),
            sym("Shape", "trait", 9, ConfidenceLevel::High),
            sym("inner", "module", 10, ConfidenceLevel::High),
            sym("LIMIT", "const", 11, ConfidenceLevel::High),
            sym("NAME", "static", 12, ConfidenceLevel::High),
            sym("Alias", "type_alias", 13, ConfidenceLevel::High),
            sym("run", "function", 14, ConfidenceLevel::High),
        ]
    );
    assert_eq!(memory.symbol_count, 8);
    assert_eq!(memory.import_count, 2);
    for symbol in &memory.symbols {
        assert!(symbol.details.signature.is_empty());
        assert!(symbol.details.fields.is_empty());
    }
}

#[test]
fn the_first_keyword_of_the_table_wins() {
    // `fn` comes before `struct` in the table, wherever it stands on the line.
    let memory = build_file_memory("a.rs", "rust", "struct A { f: fn () }\nimpl X { fn new() {} }\n");
    assert_eq!(
        symbols(&memory),
        vec![sym("A", "struct", 1, ConfidenceLevel::High), sym("new", "function", 2, ConfidenceLevel::High)]
    );
    // A keyword whose name begins with a digit yields nothing for that keyword.
    let memory = build_file_memory("a.rs", "rust", "fn 9lives() {}\nfn   spaced () {}\n");
    assert_eq!(symbols(&memory), vec![sym("spaced", "function", 2, ConfidenceLevel::High)]);
}

#[test]
fn python_declarations_and_imports() {
    let source = "import os\nfrom a.b import C as D  # note\nclass Foo(Base):\n    def method(self):\n        pass\n# def gone(): pass\nx = 1\n";
    let memory = build_file_memory("m.py", "python", source);
    assert_eq!(memory.imports, vec!["import os", "from a.b import C as D"]);
    assert_eq!(
        symbols(&memory),
        vec![sym("Foo", "class", 3, ConfidenceLevel::High), sym("method", "function", 4, ConfidenceLevel::High)]
    );
}

#[test]
fn javascript_declarations_and_imports() {
    let source = "import { a } from './a';\nconst fs = require('fs');\nfunction go() {}\nclass Box {}\ninterface Shape {}\ntype Id = string;\nenum Color { Red }\nconst add = (a, b) => a + b;\nhandler(req, res) {\nif (x) {\n";
    let memory = build_file_memory("m.ts", "typescript", source);
    assert_eq!(memory.imports, vec!["import { a } from './a'", "const fs = require('fs')"]);
    assert_eq!(
        symbols(&memory),
        vec![
            sym("go", "function", 3, ConfidenceLevel::High),
            sym("Box", "class", 4, ConfidenceLevel::High),
            sym("Shape", "interface", 5, ConfidenceLevel::High),
            sym("Id", "type_alias", 6, ConfidenceLevel::High),
            sym("Color", "enum", 7, ConfidenceLevel::High),
            sym("handler", "function", 9, ConfidenceLevel::Medium),
        ]
    );
    let same = build_file_memory("m.js", "javascript", source);
    assert_eq!(symbols(&same), symbols(&memory));
}

#[test]
fn go_declarations_and_imports() {
    let source = "import \"fmt\"\nfunc Run() {}\nfunc (s *Server) Start() error {\ntype Server struct {\nconst Max = 3\nvar count int\nfunc () {}\n";
    let memory = build_file_memory("m.go", "go", source);
    assert_eq!(memory.imports, vec!["import \"fmt\""]);
    assert_eq!(
        symbols(&memory),
        vec![
            sym("Run", "function", 2, ConfidenceLevel::High),
            sym("Start", "function", 3, ConfidenceLevel::High),
            sym("Server", "type", 4, ConfidenceLevel::High),
            sym("Max", "const", 5, ConfidenceLevel::High),
            sym("count", "var", 6, ConfidenceLevel::High),
        ]
    );
}

#[test]
fn jvm_and_csharp_declarations_and_imports() {
    let source = "import java.util.List;\nusing System.Text;\npublic class Main {\n    public void run(int n) {\n        while (n > 0) {\n        }\n    }\n}\ninterface Shape {}\nenum Mode {}\nrecord Point(int x) {}\n";
    for tag in ["java", "kotlin", "csharp"] {
        let memory = build_file_memory("M.java", tag, source);
        assert_eq!(memory.imports, vec!["import java.util.List", "using System.Text"]);
        assert_eq!(
            symbols(&memory),
            vec![
                sym("Main", "class", 3, ConfidenceLevel::High),
                sym("run", "function", 4, ConfidenceLevel::Medium),
                sym("Shape", "interface", 9, ConfidenceLevel::High),
                sym("Mode", "enum", 10, ConfidenceLevel::High),
                sym("Point", "record", 11, ConfidenceLevel::High),
            ]
        );
    }
}

#[test]
fn c_family_declarations_and_imports() {
    let source = "#include <stdio.h>\n#define LIMIT 10\nstruct node {\nenum color {\ntypedef int id_t;\nint main(int argc, char **argv) {\nfor (;;) {\nint later(void);\n";
    for tag in ["c", "cpp"] {
        let memory = build_file_memory("m.c", tag, source);
        assert_eq!(memory.imports, vec!["#include <stdio.h>"]);
        assert_eq!(
            symbols(&memory),
            vec![
                sym("LIMIT", "macro", 2, ConfidenceLevel::High),
                sym("node", "struct", 3, ConfidenceLevel::High),
                sym("color", "enum", 4, ConfidenceLevel::High),
                sym("int", "type_alias", 5, ConfidenceLevel::High),
                sym("main", "function", 6, ConfidenceLevel::Medium),
            ]
        );
    }
}

#[test]
fn other_languages_fall_back_to_low_confidence() {
    let source = "import thing\nuse other;\n#include \"x\"\nfunction go()\nclass Box\ndef run\nstruct Not\n";
    let memory = build_file_memory("m.txt", "text", source);
    assert_eq!(memory.imports, vec!["import thing", "use other", "#include \"x\""]);
    assert_eq!(
        symbols(&memory),
        vec![
            sym("go", "function", 4, ConfidenceLevel::Low),
            sym("Box", "class", 5, ConfidenceLevel::Low),
            sym("run", "function", 6, ConfidenceLevel::Low),
        ]
    );
}

#[test]
fn comments_are_cut_by_language() {
    // `#` opens a comment in Python only, `//` everywhere else.
    let memory = build_file_memory("m.py", "python", "# class A:\nclass B: # class C\nx = 1 // class D\n");
    assert_eq!(
        symbols(&memory),
        vec![sym("B", "class", 2, ConfidenceLevel::High), sym("D", "class", 3, ConfidenceLevel::High)]
    );
    let memory = build_file_memory("m.rs", "rust", "# fn a() {}\nfn b() {} // fn c() {}\n");
    assert_eq!(
        symbols(&memory),
        vec![sym("a", "function", 1, ConfidenceLevel::High), sym("b", "function", 2, ConfidenceLevel::High)]
    );
}

#[test]
fn imports_are_kept_once_in_the_order_first_seen() {
    let source = "use b;\nuse a;\nuse b;;\n  use a;  \nuse c;\n";
    let memory = build_file_memory("m.rs", "rust", source);
    assert_eq!(memory.imports, vec!["use b", "use a", "use c"]);
    assert_eq!(memory.import_count, 3);
}

#[test]
fn a_long_import_is_cut_with_three_dots() {
    let long = format!("use {};", "a".repeat(300));
    let memory = build_file_memory("m.rs", "rust", &long);
    assert_eq!(memory.imports.len(), 1);
    assert_eq!(memory.imports[0].chars().count(), 183);
    assert_eq!(memory.imports[0], format!("use {}...", "a".repeat(176)));
    let exact = format!("use {};", "b".repeat(176));
    let memory = build_file_memory("m.rs", "rust", &exact);
    assert_eq!(memory.imports[0], format!("use {}", "b".repeat(176)));
}

#[test]
fn lists_are_cut_to_two_hundred() {
    let mut source = String::new();
    for i in 0..250 {
        source.push_str(&format!("use m{};\nfn f{}() {{}}\n", i, i));
    }
    let memory = build_file_memory("big.rs", "rust", &source);
    assert_eq!(memory.symbols.len(), 200);
    assert_eq!(memory.imports.len(), 200);
    assert_eq!(memory.symbol_count, 200);
    assert_eq!(memory.import_count, 200);
    assert_eq!(memory.symbols[0].name, "f0");
    assert_eq!(memory.symbols[199].name, "f199");
    assert_eq!(memory.symbols[199].line, 400);
    assert_eq!(memory.imports[199], "use m199");
}

#[test]
fn counts_are_the_lengths_of_the_lists() {
    for (tag, source) in [
        ("rust", "fn a() {}\nuse b;\n"),
        ("python", ""),
        ("go", "\n\n\n"),
        ("text", "class X\nclass X\n"),
    ] {
        let memory = build_file_memory("p", tag, source);
        assert_eq!(memory.symbol_count, memory.symbols.len());
        assert_eq!(memory.import_count, memory.imports.len());
    }
}

#[test]
fn extraction_twice_gives_the_same() {
    let source = "use a::B;\nfn one() {}\nstruct Two;\nuse a::B;\n";
    let first = build_file_memory("x.rs", "rust", source);
    let second = build_file_memory("x.rs", "rust", source);
    assert_eq!(symbols(&first), symbols(&second));
    assert_eq!(first.imports, second.imports);
    assert_eq!(first.symbol_count, second.symbol_count);
}

#[test]
fn malformed_input_yields_less_not_an_error() {
    let memory = build_file_memory("x.rs", "rust", "fn\nstruct\n}{)(\nfn (\n\u{0}\u{1f600} fn \u{e9}\n");
    assert!(memory.symbols.is_empty());
    assert!(memory.imports.is_empty());
}

#[test]
fn names_next_to_keywords_and_characters() {
    assert_eq!(name_of(extract_identifier_after_keyword(&chars_of("pub fn  go_1(x)"), "fn")), Some("go_1".to_string()));
    assert_eq!(name_of(extract_identifier_after_keyword(&chars_of("fn(x)"), "fn")), None);
    assert_eq!(name_of(extract_identifier_after_keyword(&chars_of("fn 1x"), "fn")), None);
    assert_eq!(name_of(extract_identifier_after_keyword(&chars_of("fn _x"), "fn")), Some("_x".to_string()));
    assert_eq!(name_of(extract_identifier_after_char(&chars_of("func (s T) Name()"), ')')), Some("Name".to_string()));
    assert_eq!(name_of(extract_identifier_after_char(&chars_of("func (s T) 9()"), ')')), None);
    assert_eq!(name_of(extract_identifier_before_char(&chars_of("int  main (void)"), '(')), Some("main".to_string()));
    assert_eq!(name_of(extract_identifier_before_char(&chars_of("(x)"), '(')), None);
    assert_eq!(name_of(extract_identifier_before_char(&chars_of("a.b(x)"), '(')), None);
    assert!(is_valid_identifier(&chars_of("_a1")));
    assert!(!is_valid_identifier(&chars_of("1a")));
    assert!(!is_valid_identifier(&chars_of("")));
    assert!(!is_valid_identifier(&chars_of("a-b")));
    assert!(!is_valid_identifier(&chars_of("caf\u{e9}")));
    for word in ["if", "for", "while", "switch", "match", "catch", "foreach", "loop", "do", "else", "return"] {
        assert!(is_control_keyword(&chars_of(word)));
    }
    assert!(!is_control_keyword(&chars_of("If")));
    assert!(!is_control_keyword(&chars_of("main")));
}
