use plainsight::core_ir::{
    Capability, FilePath, LanguageId, Severity, Span, SymbolKind,
};
use plainsight::parser::captures::{
    build_field_strings, cap_text, cap_texts, function_of, has_capture, type_of, variable_of,
    Capture,
};
use plainsight::parser::framework::{LangaugeAdapter, ParseInput};
use plainsight::parser::languages::{parse_file, EmptyAdapter, JavaAdapter};
use plainsight::parser::parser::{
    assemble, dedup_by_name, extract_functions, extract_imports, extract_types,
    extract_variables, parse_and_extract, parse_result, QueryTexts,
};
use plainsight::parser::registry::BuiltinAdapter;
use plainsight::parser::specs::{
    collect_use_imports, normalize_variable_value, query_path, UseNode,
};
use plainsight::parser::types::join_path;
use plainsight::parser::captures::cap_node;
use plainsight::parser::{
    default_registry, ExtractKind, Function, Import, LanguageSpec, Parser, Registry, RustSpec,
    Type, Variable,
};

fn java(path: &str, source: &str) -> ParseInput {
    ParseInput { path: FilePath(path.to_string()), source: source.to_string() }
}

const SHAPES: &str = "package com.acme.shapes;\n\nimport java.util.List;\nimport static java.lang.Math.max;\n\npublic class Circle {\n}\n\ninterface Shape {}\nenum Colour { RED }\n";

#[test]
fn java_types_package_and_imports() {
    let ir = parse_file(&java("src/Circle.java", SHAPES));
    assert_eq!(ir.language, LanguageId::Java);
    assert_eq!(ir.path.0, "src/Circle.java");

    let package = ir.package.unwrap();
    assert_eq!(package.name, "com.acme.shapes;");
    assert_eq!(package.span, Some(Span { start: 8, end: 24 }));

    assert_eq!(ir.imports.len(), 2);
    assert_eq!(ir.imports[0].path, "java.util.List");
    assert!(!ir.imports[0].is_static);
    let at = SHAPES.find("java.util.List").unwrap() as u32;
    assert_eq!(ir.imports[0].span, Some(Span { start: at, end: at + 14 }));
    assert_eq!(ir.imports[1].path, "java.lang.Math.max");
    assert!(ir.imports[1].is_static);

    let found: Vec<(&str, SymbolKind, &str)> =
        ir.symbols.iter().map(|s| (s.name.as_str(), s.kind, s.id.0.as_str())).collect();
    assert_eq!(
        found,
        vec![
            ("Circle", SymbolKind::Class, "src/Circle.java:class_Circle"),
            ("Shape", SymbolKind::Interface, "src/Circle.java:interface_Shape"),
            ("Colour", SymbolKind::Enum, "src/Circle.java:enum_Colour"),
        ]
    );
    let circle = SHAPES.find("Circle").unwrap() as u32;
    assert_eq!(ir.symbols[0].span, Some(Span { start: circle, end: circle + 6 }));

    assert_eq!(ir.diagnostics.len(), 2);
    assert_eq!(ir.diagnostics[0].severity, Severity::Info);
    assert_eq!(
        ir.diagnostics[0].message,
        "Java adapter: extracted package/imports and top-level types (heuristic)."
    );
    assert_eq!(ir.diagnostics[1].severity, Severity::Warning);
    assert_eq!(ir.diagnostics[1].message, "Heuristic Java parser: results may be incomplete.");
}

#[test]
fn java_spans_count_bytes() {
    let source = "// grüße\nclass Übung {}";
    let ir = parse_file(&java("U.java", source));
    assert_eq!(ir.symbols.len(), 1);
    assert_eq!(ir.symbols[0].name, "Übung");
    let at = source.find("Übung").unwrap();
    assert_eq!(
        ir.symbols[0].span,
        Some(Span { start: at as u32, end: (at + "Übung".len()) as u32 })
    );
}

#[test]
fn java_span_is_the_first_place_of_the_name() {
    let source = "// a Box of things\nclass Box {}";
    let ir = parse_file(&java("Box.java", source));
    assert_eq!(ir.symbols[0].span, Some(Span { start: 5, end: 8 }));
}

#[test]
fn java_without_types() {
    let ir = parse_file(&java("Empty.java", "int x = 1;\n"));
    assert!(ir.symbols.is_empty());
    assert!(ir.imports.is_empty());
    assert!(ir.package.is_none());
    assert_eq!(ir.diagnostics.len(), 2);
    assert_eq!(
        ir.diagnostics[0].message,
        "Java adapter: no top-level type symbols found (heuristic)."
    );
    assert_eq!(ir.diagnostics[0].severity, Severity::Info);
    assert_eq!(ir.diagnostics[1].severity, Severity::Warning);
}

#[test]
fn java_keyword_at_the_end_finds_nothing() {
    let ir = parse_file(&java("A.java", "class A {} class"));
    assert_eq!(ir.symbols.len(), 1);
    let ir = parse_file(&java("A.java", "import static"));
    assert!(ir.imports.is_empty());
    let ir = parse_file(&java("A.java", "package"));
    assert!(ir.package.is_none());
}

#[test]
fn java_words_that_begin_with_a_keyword_count() {
    // `classic` begins with `class`, so the next word is taken as a name.
    let ir = parse_file(&java("A.java", "classic car"));
    assert_eq!(ir.symbols.len(), 1);
    assert_eq!(ir.symbols[0].name, "car");
    assert_eq!(ir.symbols[0].kind, SymbolKind::Class);
}

#[test]
fn adapters_say_what_they_read() {
    assert!(JavaAdapter.can_parse_path("src/Main.java"));
    assert!(!JavaAdapter.can_parse_path("src/main.rs"));
    assert!(!JavaAdapter.can_parse_path("java"));
    assert!(EmptyAdapter.can_parse_path("anything.at.all"));
    assert!(JavaAdapter.capabilities().supports(Capability::Symbols));
    assert!(JavaAdapter.capabilities().supports(Capability::Imports));
    assert!(!JavaAdapter.capabilities().supports(Capability::DataFlow));
    assert!(!EmptyAdapter.capabilities().supports(Capability::Symbols));
}

#[test]
fn empty_adapter_finds_nothing() {
    let out = EmptyAdapter.parse(java("notes.txt", "class A {}"));
    assert_eq!(out.ir.language, LanguageId::Empty);
    assert_eq!(out.ir.path.0, "notes.txt");
    assert!(out.ir.symbols.is_empty());
    assert_eq!(out.ir.diagnostics.len(), 1);
    assert_eq!(
        out.ir.diagnostics[0].message,
        "This is an empty language adapter. This is only for testing!"
    );
}

#[test]
fn the_first_adapter_that_reads_a_file_parses_it() {
    let registry = default_registry();
    let out = registry.parse("A.java", java("A.java", "class A {}")).unwrap();
    assert_eq!(out.ir.language, LanguageId::Java);
    assert_eq!(out.ir.symbols.len(), 1);
    let out = registry.parse("a.py", java("a.py", "class A {}")).unwrap();
    assert_eq!(out.ir.language, LanguageId::Empty);

    let swapped = Registry::new(vec![
        BuiltinAdapter::Empty(EmptyAdapter),
        BuiltinAdapter::Java(JavaAdapter),
    ]);
    let out = swapped.parse("A.java", java("A.java", "class A {}")).unwrap();
    assert_eq!(out.ir.language, LanguageId::Empty);
}

#[test]
fn no_adapter_is_an_error() {
    let only_java = Registry::new(vec![JavaAdapter]);
    let err = only_java.parse("a.py", java("a.py", "")).err().unwrap();
    assert_eq!(err, "Failed to parse input file. No valid adapter was found.");
    let none: Registry<JavaAdapter> = Registry::new(vec![]);
    assert!(none.parse("A.java", java("A.java", "")).is_err());
}

// ---------------------------------------------------------------------
// Captures
// ---------------------------------------------------------------------

fn cap(name: &str, text: &str) -> Capture {
    Capture { name: name.to_string(), text: Some(text.to_string()), argument: vec![] }
}

#[test]
fn the_first_capture_of_a_name_counts() {
    let caps = vec![cap("vis", " pub "), cap("name", "  run\n"), cap("name", "other")];
    assert_eq!(cap_text(&caps, "name"), Some("run".to_string()));
    assert_eq!(cap_text(&caps, "vis"), Some("pub".to_string()));
    assert_eq!(cap_text(&caps, "ret"), None);
    assert!(has_capture(&caps, "vis"));
    assert!(!has_capture(&caps, "mut"));
    // An empty first capture hides a later one.
    let caps = vec![cap("name", "  "), cap("name", "later")];
    assert_eq!(cap_text(&caps, "name"), None);
    assert!(has_capture(&caps, "name"));
    // A capture whose text could not be read counts as empty.
    let caps = vec![Capture { name: "name".to_string(), text: None, argument: vec![] }];
    assert_eq!(cap_text(&caps, "name"), None);
}

#[test]
fn all_captures_of_a_name() {
    let caps = vec![
        cap("field_name", "x"),
        cap("field_type", "i32"),
        cap("field_name", "  "),
        cap("field_name", " y "),
    ];
    assert_eq!(cap_texts(&caps, "field_name"), vec!["x", "y"]);
    assert_eq!(cap_texts(&caps, "field_vis"), Vec::<String>::new());
}

#[test]
fn fields_are_written_side_by_side() {
    let caps = vec![
        cap("field_vis", "pub"),
        cap("field_name", "x"),
        cap("field_type", "i32"),
        cap("field_name", "y"),
        cap("field_type", "String"),
        cap("field_type", "bool"),
    ];
    assert_eq!(build_field_strings(&caps), vec!["pub x: i32", "y: String", "_: bool"]);
    let caps = vec![cap("field_name", "a"), cap("field_name", "b"), cap("field_vis", "pub(crate)")];
    assert_eq!(build_field_strings(&caps), vec!["pub(crate) a", "b"]);
    // Visibilities alone make no field.
    assert!(build_field_strings(&vec![cap("field_vis", "pub")]).is_empty());
    assert!(build_field_strings(&vec![]).is_empty());
}

#[test]
fn a_function_from_its_captures() {
    let caps = vec![
        cap("vis", "pub"),
        cap("name", "area"),
        cap("params", "(&self, scale: f64)"),
        cap("ret", "f64"),
        cap("impl_target", "Circle"),
    ];
    let f = function_of(&caps).unwrap();
    assert_eq!(f.name, "area");
    assert_eq!(f.params_text, "(&self, scale: f64)");
    assert_eq!(f.return_type.as_deref(), Some("f64"));
    assert_eq!(f.visibility.as_deref(), Some("pub"));
    assert_eq!(f.owner.as_deref(), Some("Circle"));

    let f = function_of(&vec![cap("name", "run"), cap("ret", " () ")]).unwrap();
    assert_eq!(f.params_text, "");
    assert_eq!(f.return_type, None);
    assert_eq!(f.visibility, None);
    assert_eq!(f.owner, None);

    assert!(function_of(&vec![cap("params", "()")]).is_none());
}

#[test]
fn a_variable_from_its_captures() {
    let caps = vec![
        cap("name", "LIMIT"),
        cap("type", "usize"),
        cap("value", "1 + 2 *\n 3"),
        cap("const_keyword", "const"),
    ];
    let v = variable_of(&caps).unwrap();
    assert_eq!(v.name, "LIMIT");
    assert_eq!(v.type_text.as_deref(), Some("usize"));
    assert_eq!(v.value.as_deref(), Some("1+2*3"));
    assert!(v.is_const);
    assert!(!v.is_mut);
    assert!(!v.is_static);

    let v = variable_of(&vec![cap("name", "n"), cap("mut", "mut"), cap("static_keyword", "")])
        .unwrap();
    assert!(v.is_mut);
    assert!(v.is_static);
    assert_eq!(v.value, None);
    assert!(variable_of(&vec![cap("value", "1")]).is_none());
}

#[test]
fn values_that_are_kept_as_written() {
    assert_eq!(
        normalize_variable_value(Some("node.named_child(0) + 1".to_string())).as_deref(),
        Some("node.named_child(0) + 1")
    );
    assert_eq!(
        normalize_variable_value(Some("names[ 0 ]".to_string())).as_deref(),
        Some("names[ 0 ]")
    );
    assert_eq!(
        normalize_variable_value(Some(" a\t+\u{a0}b\n".to_string())).as_deref(),
        Some("a+b")
    );
    assert_eq!(normalize_variable_value(None), None);
    let text = "x \u{3000}= \u{2003}[1,\r\n 2]";
    let expected: String = text.chars().filter(|c| !c.is_whitespace()).collect();
    assert_eq!(normalize_variable_value(Some(text.to_string())), Some(expected));
}

#[test]
fn a_type_from_its_captures() {
    let caps = vec![
        cap("kind", "struct"),
        cap("name", "Point"),
        cap("field_name", "x"),
        cap("field_type", "i32"),
    ];
    let t = type_of(&caps).unwrap();
    assert_eq!(t.name, "Point");
    assert_eq!(t.kind.as_deref(), Some("struct"));
    assert_eq!(t.visibility, None);
    assert_eq!(t.fields, vec!["x: i32"]);
}

#[test]
fn parts_of_a_type_are_put_together() {
    let matches = vec![
        vec![cap("name", "Point"), cap("field_name", "x"), cap("field_type", "i32")],
        vec![cap("kind", "enum"), cap("name", "Colour")],
        vec![cap("field_name", "lost")],
        vec![
            cap("name", "Point"),
            cap("kind", "struct"),
            cap("vis", "pub"),
            cap("field_name", "y"),
            cap("field_type", "i32"),
        ],
        vec![cap("name", "Point"), cap("kind", "union"), cap("vis", "pub(crate)")],
    ];
    let types = extract_types(&matches);
    assert_eq!(types.len(), 2);
    assert_eq!(types[0].name, "Point");
    assert_eq!(types[0].kind.as_deref(), Some("struct"));
    assert_eq!(types[0].visibility.as_deref(), Some("pub"));
    assert_eq!(types[0].fields, vec!["x: i32", "y: i32"]);
    assert_eq!(types[1].name, "Colour");
    assert_eq!(types[1].kind.as_deref(), Some("enum"));
    assert!(types[1].fields.is_empty());
}

#[test]
fn functions_and_variables_of_all_matches() {
    let matches = vec![
        vec![cap("name", "a")],
        vec![cap("params", "()")],
        vec![cap("name", "b"), cap("ret", "u8")],
    ];
    let fs = extract_functions(&matches);
    assert_eq!(fs.iter().map(|f| f.name.as_str()).collect::<Vec<_>>(), vec!["a", "b"]);
    assert_eq!(fs[1].return_type.as_deref(), Some("u8"));
    let vs = extract_variables(&matches);
    assert_eq!(vs.iter().map(|v| v.name.as_str()).collect::<Vec<_>>(), vec!["a", "b"]);
    assert!(extract_functions(&vec![]).is_empty());
}

fn function(name: &str, params: &str) -> Function {
    Function {
        name: name.to_string(),
        params_text: params.to_string(),
        return_type: None,
        visibility: None,
        owner: None,
    }
}

#[test]
fn the_first_of_each_name_stays() {
    let kept = dedup_by_name(vec![
        function("a", "1"),
        function("b", "2"),
        function("a", "3"),
        function("c", "4"),
        function("b", "5"),
    ]);
    let shown: Vec<(&str, &str)> =
        kept.iter().map(|f| (f.name.as_str(), f.params_text.as_str())).collect();
    assert_eq!(shown, vec![("a", "1"), ("b", "2"), ("c", "4")]);
    assert!(dedup_by_name(Vec::<Function>::new()).is_empty());
}

#[test]
fn a_result_holds_each_name_once() {
    let import = |name: &str, path: &str| Import {
        path: path.to_string(),
        name: name.to_string(),
        alias: None,
        is_wildcard: false,
    };
    let variable = |name: &str| Variable {
        name: name.to_string(),
        type_text: None,
        value: None,
        visibility: None,
        is_mut: false,
        is_const: false,
        is_static: false,
    };
    let ty = |name: &str| Type {
        name: name.to_string(),
        kind: None,
        visibility: None,
        fields: vec![],
    };
    let r = parse_result(
        vec![function("f", ""), function("f", "x")],
        vec![ty("T"), ty("U"), ty("T")],
        vec![import("Map", "std::a"), import("Map", "std::b"), import("*", "x")],
        vec![variable("v"), variable("v")],
    );
    assert_eq!(r.functions.len(), 1);
    assert_eq!(r.types.len(), 2);
    assert_eq!(r.imports.len(), 2);
    assert_eq!(r.imports[0].path, "std::a");
    assert_eq!(r.variables.len(), 1);
}

#[test]
fn kinds_have_names() {
    assert_eq!(
        ExtractKind::all(),
        vec![
            ExtractKind::Functions,
            ExtractKind::Imports,
            ExtractKind::Types,
            ExtractKind::Variables
        ]
    );
    assert_eq!(ExtractKind::Functions.as_str(), "functions");
    assert_eq!(ExtractKind::Imports.as_str(), "imports");
    assert_eq!(ExtractKind::Types.as_str(), "types");
    assert_eq!(ExtractKind::Variables.as_str(), "variables");
}

// ---------------------------------------------------------------------
// `use` declarations
// ---------------------------------------------------------------------

fn node(kind: &str, text: &str) -> UseNode {
    UseNode {
        kind: kind.to_string(),
        text: text.to_string(),
        path: None,
        name: None,
        alias: None,
        list: vec![],
        children: vec![],
    }
}

fn shown(imports: &[Import]) -> Vec<(String, String, Option<String>, bool)> {
    imports
        .iter()
        .map(|i| (i.path.clone(), i.name.clone(), i.alias.clone(), i.is_wildcard))
        .collect()
}

#[test]
fn paths_are_joined_with_colons() {
    assert_eq!(join_path("", "std"), "std");
    assert_eq!(join_path("std", ""), "std");
    assert_eq!(join_path("std", "fmt"), "std::fmt");
    assert_eq!(join_path("", ""), "");
}

#[test]
fn plain_and_scoped_imports() {
    let mut out = Vec::new();
    collect_use_imports(&node("identifier", " serde "), "", &mut out);
    collect_use_imports(&node("identifier", "  "), "", &mut out);
    collect_use_imports(&node("self", "self"), "std::io", &mut out);
    let mut scoped = node("scoped_identifier", "std::fmt::Display");
    scoped.path = Some("std::fmt".to_string());
    scoped.name = Some("Display".to_string());
    collect_use_imports(&scoped, "", &mut out);
    // Without a name nothing is imported.
    let mut nameless = node("scoped_identifier", "std::fmt");
    nameless.path = Some("std::fmt".to_string());
    collect_use_imports(&nameless, "", &mut out);
    collect_use_imports(&node("crate", "crate"), "", &mut out);
    assert_eq!(
        shown(&out),
        vec![
            ("".to_string(), "serde".to_string(), None, false),
            ("std::io".to_string(), "self".to_string(), None, false),
            ("std::fmt".to_string(), "Display".to_string(), None, false),
        ]
    );
}

#[test]
fn grouped_imports() {
    // use std::{fmt::{self, Write as W}, collections::*, io};
    let mut write = node("use_as_clause", "Write as W");
    write.path = Some("Write".to_string());
    write.alias = Some("W".to_string());
    let mut inner_list = node("use_list", "{self, Write as W}");
    inner_list.children = vec![node("self", "self"), write];
    let mut fmt = node("scoped_use_list", "fmt::{self, Write as W}");
    fmt.path = Some("fmt".to_string());
    fmt.list = vec![inner_list];
    let mut wildcard = node("use_wildcard", "collections::*");
    wildcard.path = Some("collections".to_string());
    let mut list = node("use_list", "{...}");
    list.children = vec![fmt, wildcard, node("identifier", "io")];
    let mut root = node("scoped_use_list", "std::{...}");
    root.path = Some("std".to_string());
    root.list = vec![list];

    let mut out = vec![Import {
        path: "kept".to_string(),
        name: "first".to_string(),
        alias: None,
        is_wildcard: false,
    }];
    collect_use_imports(&root, "", &mut out);
    assert_eq!(
        shown(&out),
        vec![
            ("kept".to_string(), "first".to_string(), None, false),
            ("std::fmt".to_string(), "self".to_string(), None, false),
            ("std::fmt::Write".to_string(), "W".to_string(), Some("W".to_string()), false),
            ("std::collections".to_string(), "*".to_string(), None, true),
            ("std".to_string(), "io".to_string(), None, false),
        ]
    );
}

#[test]
fn a_wildcard_without_a_path() {
    let mut out = Vec::new();
    collect_use_imports(&node("use_wildcard", "*"), "crate::a", &mut out);
    assert_eq!(shown(&out), vec![("crate::a".to_string(), "*".to_string(), None, true)]);
    // A list without a path imports nothing.
    let mut list = node("scoped_use_list", "{a}");
    list.list = vec![node("identifier", "a")];
    collect_use_imports(&list, "", &mut out);
    assert_eq!(out.len(), 1);
}

// ---------------------------------------------------------------------
// From a source to what is reported of it
// ---------------------------------------------------------------------

#[test]
fn imports_are_read_from_the_argument_of_the_root() {
    let mut scoped = node("scoped_identifier", "a::B");
    scoped.path = Some("a".to_string());
    scoped.name = Some("B".to_string());
    let root = |argument: Vec<UseNode>| Capture {
        name: "root".to_string(),
        text: Some("use ...;".to_string()),
        argument,
    };
    let matches = vec![
        vec![root(vec![scoped])],
        vec![root(vec![])],
        vec![cap("other", "x")],
        vec![cap("first", "y"), root(vec![node("identifier", "serde")])],
    ];
    let imports = extract_imports(&matches);
    assert_eq!(
        shown(&imports),
        vec![
            ("a".to_string(), "B".to_string(), None, false),
            ("".to_string(), "serde".to_string(), None, false),
        ]
    );
}

#[test]
fn matches_are_put_together() {
    let functions = vec![vec![cap("name", "f")], vec![cap("name", "f"), cap("ret", "u8")]];
    let types = vec![vec![cap("name", "T")], vec![cap("name", "T"), cap("kind", "struct")]];
    let variables = vec![vec![cap("name", "v")], vec![cap("name", "w")], vec![cap("name", "v")]];
    let r = assemble(&functions, &types, &vec![], &variables);
    assert_eq!(r.functions.len(), 1);
    assert_eq!(r.functions[0].return_type, None);
    assert_eq!(r.types.len(), 1);
    assert_eq!(r.types[0].kind.as_deref(), Some("struct"));
    assert!(r.imports.is_empty());
    assert_eq!(r.variables.iter().map(|v| v.name.as_str()).collect::<Vec<_>>(), vec!["v", "w"]);
}

fn queries() -> QueryTexts {
    QueryTexts {
        functions: "(function_item (visibility_modifier)? @vis name: (identifier) @name parameters: (parameters) @params return_type: (_)? @ret)".to_string(),
        types: "(struct_item name: (type_identifier) @name body: (field_declaration_list (field_declaration (visibility_modifier)? @field_vis name: (field_identifier) @field_name type: (_) @field_type)))".to_string(),
        imports: "(use_declaration) @root".to_string(),
        variables: "(const_item name: (identifier) @name type: (_) @type value: (_) @value)".to_string(),
    }
}

const RUST_SOURCE: &str = "use std::{fmt::{self, Write as W}, collections::*, io};\nuse serde::Serialize;\n\npub fn area(r: f64) -> f64 { r }\nfn run() {}\n\nstruct Point { x: i32, pub y: i32 }\n\nconst LIMIT: usize = 1 + 2;\n\nmod inner { fn run() {} }\n";

#[test]
fn a_rust_source_is_parsed_and_searched() {
    let r = parse_and_extract(RUST_SOURCE, &queries()).unwrap();

    let functions: Vec<(&str, &str, Option<&str>, Option<&str>)> = r
        .functions
        .iter()
        .map(|f| {
            (f.name.as_str(), f.params_text.as_str(), f.return_type.as_deref(), f.visibility.as_deref())
        })
        .collect();
    assert_eq!(
        functions,
        vec![("area", "(r: f64)", Some("f64"), Some("pub")), ("run", "()", None, None)]
    );

    assert_eq!(r.types.len(), 1);
    assert_eq!(r.types[0].name, "Point");
    assert_eq!(r.types[0].fields, vec!["x: i32", "pub y: i32"]);

    assert_eq!(
        shown(&r.imports),
        vec![
            ("std::fmt".to_string(), "self".to_string(), None, false),
            ("std::fmt::Write".to_string(), "W".to_string(), Some("W".to_string()), false),
            ("std".to_string(), "*".to_string(), None, true),
            ("std".to_string(), "io".to_string(), None, false),
            ("serde".to_string(), "Serialize".to_string(), None, false),
        ]
    );

    assert_eq!(r.variables.len(), 1);
    assert_eq!(r.variables[0].name, "LIMIT");
    assert_eq!(r.variables[0].type_text.as_deref(), Some("usize"));
    assert_eq!(r.variables[0].value.as_deref(), Some("1+2"));
    assert!(!r.variables[0].is_const);
}

#[test]
fn a_source_without_anything() {
    let r = parse_and_extract("", &queries()).unwrap();
    assert!(r.functions.is_empty());
    assert!(r.types.is_empty());
    assert!(r.imports.is_empty());
    assert!(r.variables.is_empty());
}

#[test]
fn a_query_that_is_none_is_an_error() {
    let mut q = queries();
    q.types = "(no_such_node) @name".to_string();
    let message = parse_and_extract(RUST_SOURCE, &q).unwrap_err();
    assert!(message.starts_with("Invalid types query: "), "{message}");
    assert!(message.len() > "Invalid types query: ".len());
    // The first query that fails says so.
    q.functions = "(((".to_string();
    let message = parse_and_extract(RUST_SOURCE, &q).unwrap_err();
    assert!(message.starts_with("Invalid functions query: "), "{message}");
}

#[test]
fn where_the_queries_are_kept() {
    assert_eq!(query_path("rust", ExtractKind::Functions), "querys/rust/functions.scm");
    assert_eq!(query_path("rust", ExtractKind::Variables), "querys/rust/variables.scm");
    for kind in ExtractKind::all() {
        let expected = std::path::Path::new("querys")
            .join("go")
            .join(format!("{}.scm", kind.as_str()))
            .display()
            .to_string();
        assert_eq!(query_path("go", kind), expected);
    }
}

#[test]
fn what_is_special_to_rust() {
    assert_eq!(RustSpec.id(), "rust");
    assert_eq!(RustSpec.supported_extract_kinds(), ExtractKind::all());
    for kind in ExtractKind::all() {
        assert!(RustSpec.supports_kind(kind));
    }
    assert_eq!(RustSpec.query_path(ExtractKind::Types), "querys/rust/types.scm");
    assert_eq!(
        RustSpec.normalize_variable_value(Some("a + b".to_string())).as_deref(),
        Some("a+b")
    );
    assert_eq!(RustSpec.normalize_variable_value(None), None);
}

#[test]
fn a_parser_keeps_its_queries() {
    let parser = Parser::new(RustSpec, queries());
    let r = parser.parse_and_extract("fn one() {}\nfn two() -> u8 { 2 }\n").unwrap();
    assert_eq!(r.functions.iter().map(|f| f.name.as_str()).collect::<Vec<_>>(), vec!["one", "two"]);
    let again = parser.parse_and_extract("fn one() {}\nfn two() -> u8 { 2 }\n").unwrap();
    assert_eq!(again.functions.len(), 2);
}

#[test]
fn the_node_of_a_capture() {
    let caps = vec![cap("a", "1"), cap("b", "2"), cap("a", "3")];
    assert_eq!(cap_node(&caps, "a").unwrap().text.as_deref(), Some("1"));
    assert_eq!(cap_node(&caps, "b").unwrap().text.as_deref(), Some("2"));
    assert!(cap_node(&caps, "c").is_none());
}
