use plainsight::memory::candidates::import_symbol_candidates;
use plainsight::language::language_from_tag;
use plainsight::memory::project_memory::{build_links, build_open_items};
use plainsight::memory::{build_file_memory, build_project_memory, FileMemory, ProjectMemory};
use plainsight::text::chars_of;

fn candidates(import: &str, tag: &str) -> Vec<String> {
    import_symbol_candidates(&chars_of(import), language_from_tag(tag))
        .iter()
        .map(|c| c.iter().collect())
        .collect()
}

fn table(memory: &ProjectMemory) -> Vec<(String, String, Vec<String>)> {
    memory
        .global_symbols
        .iter()
        .map(|s| (s.name.clone(), s.kind.clone(), s.defined_in.clone()))
        .collect()
}

fn links(memory: &ProjectMemory) -> Vec<(String, String, String, String)> {
    memory
        .links
        .iter()
        .map(|l| (l.from_file.clone(), l.symbol.clone(), l.to_file.clone(), l.reason.clone()))
        .collect()
}

fn row(name: &str, kind: &str, files: &[&str]) -> (String, String, Vec<String>) {
    (name.to_string(), kind.to_string(), files.iter().map(|f| f.to_string()).collect())
}

fn link(from: &str, symbol: &str, to: &str) -> (String, String, String, String) {
    (from.to_string(), symbol.to_string(), to.to_string(), "import".to_string())
}

#[test]
fn an_empty_project() {
    let memory = build_project_memory(&[]);
    assert_eq!(memory.file_count, 0);
    assert_eq!(memory.unique_symbol_count, 0);
    assert!(memory.files.is_empty());
    assert!(memory.global_symbols.is_empty());
    assert!(memory.open_items.is_empty());
    assert!(memory.links.is_empty());
}

#[test]
fn two_files_one_symbol_one_link() {
    let files = vec![
        build_file_memory("a/foo.rs", "rust", "pub struct Config {\n}\n"),
        build_file_memory("a/bar.rs", "rust", "use foo::Config;\n"),
    ];
    let memory = build_project_memory(&files);
    assert_eq!(memory.file_count, 2);
    assert_eq!(memory.unique_symbol_count, 1);
    assert_eq!(table(&memory), vec![row("Config", "struct", &["a/foo.rs"])]);
    assert_eq!(links(&memory), vec![link("a/bar.rs", "Config", "a/foo.rs")]);
    assert!(memory.open_items.is_empty());
    assert_eq!(memory.files.len(), 2);
    assert_eq!(memory.files[0].path, "a/foo.rs");
    assert_eq!(memory.files[0].symbols[0].name, "Config");
    assert_eq!(memory.files[1].path, "a/bar.rs");
    assert_eq!(memory.files[1].imports, vec!["use foo::Config"]);
}

#[test]
fn a_name_with_two_kinds_is_an_open_item() {
    let files = vec![
        build_file_memory("a.py", "python", "class Foo:\n    pass\n"),
        build_file_memory("b.py", "python", "def Foo():\n    pass\n"),
    ];
    let memory = build_project_memory(&files);
    assert_eq!(memory.unique_symbol_count, 2);
    assert_eq!(memory.open_items.len(), 1);
    let item = &memory.open_items[0];
    assert_eq!(item.kind, "kind_conflict");
    assert_eq!(item.symbol, "Foo");
    assert_eq!(item.message, "symbol 'Foo' appears with multiple kinds: class, function");
    assert_eq!(item.files, vec!["a.py", "b.py"]);
    assert_eq!(
        table(&memory),
        vec![row("Foo", "class", &["a.py"]), row("Foo", "function", &["b.py"])]
    );
}

#[test]
fn the_table_is_ordered_by_files_then_name_then_kind() {
    let files = vec![
        build_file_memory("x.rs", "rust", "fn alpha() {}\nfn beta() {}\nstruct beta;\nfn zeta() {}\n"),
        build_file_memory("y.rs", "rust", "fn beta() {}\nfn zeta() {}\nfn beta() {}\n"),
        build_file_memory("w.rs", "rust", "fn zeta() {}\n"),
    ];
    let memory = build_project_memory(&files);
    assert_eq!(memory.unique_symbol_count, 4);
    assert_eq!(
        table(&memory),
        vec![
            row("zeta", "function", &["w.rs", "x.rs", "y.rs"]),
            row("beta", "function", &["x.rs", "y.rs"]),
            row("alpha", "function", &["x.rs"]),
            row("beta", "struct", &["x.rs"]),
        ]
    );
    assert_eq!(memory.open_items.len(), 1);
    assert_eq!(memory.open_items[0].symbol, "beta");
    assert_eq!(
        memory.open_items[0].message,
        "symbol 'beta' appears with multiple kinds: function, struct"
    );
    assert_eq!(memory.open_items[0].files, vec!["x.rs", "y.rs"]);
}

#[test]
fn every_declared_pair_has_one_row_with_all_its_files() {
    let files = vec![
        build_file_memory("b/one.py", "python", "class A:\n    def go(self): pass\n"),
        build_file_memory("a/two.py", "python", "class A:\n    pass\ndef go(): pass\n"),
        build_file_memory("c/three.go", "go", "func go() {}\ntype A struct {\n"),
    ];
    let memory = build_project_memory(&files);
    for file in &files {
        for symbol in &file.symbols {
            let rows: Vec<_> = memory
                .global_symbols
                .iter()
                .filter(|g| g.name == symbol.name && g.kind == symbol.kind)
                .collect();
            assert_eq!(rows.len(), 1);
            assert!(rows[0].defined_in.contains(&file.path));
        }
    }
    for global in &memory.global_symbols {
        let mut expected: Vec<String> = files
            .iter()
            .filter(|f| f.symbols.iter().any(|s| s.name == global.name && s.kind == global.kind))
            .map(|f| f.path.clone())
            .collect();
        expected.sort();
        expected.dedup();
        assert_eq!(global.defined_in, expected);
    }
    assert_eq!(memory.unique_symbol_count, memory.global_symbols.len());
}

#[test]
fn links_go_to_every_other_file_that_declares_the_name() {
    let files = vec![
        build_file_memory("lib/shape.py", "python", "class Shape:\n    pass\n"),
        build_file_memory("lib/other.py", "python", "def Shape(): pass\nimport Shape\n"),
        build_file_memory("app/main.py", "python", "from lib.shape import Shape as S, Nothing\nimport lib.other\n"),
    ];
    let memory = build_project_memory(&files);
    assert_eq!(
        links(&memory),
        vec![
            link("app/main.py", "Shape", "lib/other.py"),
            link("app/main.py", "Shape", "lib/shape.py"),
            link("lib/other.py", "Shape", "lib/shape.py"),
        ]
    );
}

#[test]
fn the_lists_are_cut_to_their_caps() {
    let mut files: Vec<FileMemory> = Vec::new();
    let mut defs = String::new();
    let mut uses = String::new();
    for i in 0..150 {
        defs.push_str(&format!("fn name{:03}() {{}}\n", i));
        uses.push_str(&format!("use x::name{:03};\n", i));
    }
    let mut classes = String::new();
    for i in 0..130 {
        classes.push_str(&format!("class Dup{:03}:\n", i));
        classes.push_str(&format!("def Dup{:03}(): pass\n", i));
    }
    files.push(build_file_memory("defs1.rs", "rust", &defs));
    files.push(build_file_memory("defs2.rs", "rust", &defs));
    files.push(build_file_memory("uses1.rs", "rust", &uses));
    files.push(build_file_memory("uses2.rs", "rust", &uses));
    files.push(build_file_memory("d1.py", "python", &classes[..classes.len() / 2]));
    files.push(build_file_memory("d2.py", "python", &classes[classes.len() / 2..]));
    let memory = build_project_memory(&files);
    assert_eq!(memory.unique_symbol_count, 150 + 260);
    assert_eq!(memory.global_symbols.len(), 300);
    assert_eq!(memory.open_items.len(), 120);
    assert_eq!(memory.links.len(), 400);
    assert_eq!(memory.global_symbols[0].name, "name000");
    assert_eq!(memory.global_symbols[0].defined_in, vec!["defs1.rs", "defs2.rs"]);
    assert_eq!(memory.global_symbols[150].name, "Dup000");
    assert_eq!(memory.open_items[0].symbol, "Dup000");
    assert_eq!(memory.open_items[119].symbol, "Dup119");
    assert_eq!(links(&memory)[0], link("uses1.rs", "name000", "defs1.rs"));
    assert_eq!(links(&memory)[1], link("uses1.rs", "name000", "defs2.rs"));
    assert_eq!(links(&memory)[399], link("uses2.rs", "name049", "defs2.rs"));
}

#[test]
fn an_open_item_names_twelve_files_at_most() {
    let mut files: Vec<FileMemory> = Vec::new();
    for i in 0..20 {
        let source = if i % 2 == 0 { "class Thing:\n" } else { "def Thing(): pass\n" };
        files.push(build_file_memory(&format!("f{:02}.py", 19 - i), "python", source));
    }
    let memory = build_project_memory(&files);
    assert_eq!(memory.open_items.len(), 1);
    let expected: Vec<String> = (0..12).map(|i| format!("f{:02}.py", i)).collect();
    assert_eq!(memory.open_items[0].files, expected);
}

#[test]
fn candidates_of_rust_imports() {
    assert_eq!(candidates("use foo::Config", "rust"), vec!["Config"]);
    assert_eq!(candidates("use std::collections::{BTreeMap, BTreeSet}", "rust"), vec!["collections", "BTreeMap", "BTreeSet"]);
    assert_eq!(candidates("use a::b as Alias", "rust"), vec!["Alias"]);
    assert_eq!(candidates("use crate::memory::*", "rust"), vec!["memory"]);
    assert_eq!(candidates("use super::{self, Thing}", "rust"), vec!["Thing"]);
}

#[test]
fn candidates_of_python_imports() {
    assert_eq!(candidates("from a.b import Cee as Dee, eff.Gee", "python"), vec!["Dee", "Cee", "Gee"]);
    assert_eq!(candidates("import os.path, numpy as npy", "python"), vec!["path", "npy", "numpy"]);
    assert_eq!(candidates("from x import y", "python"), Vec::<String>::new());
    assert_eq!(candidates("nothing here", "python"), Vec::<String>::new());
}

#[test]
fn candidates_of_javascript_imports() {
    assert_eq!(candidates("import { Alpha, Beta as Gamma } from './m'", "javascript"), vec!["Alpha", "Gamma", "Beta"]);
    assert_eq!(candidates("import React, Other from 'react'", "typescript"), vec!["React", "Other"]);
    assert_eq!(candidates("const helper = require('./helper')", "javascript"), vec!["helper"]);
    assert_eq!(candidates("import './side-effect'", "javascript"), Vec::<String>::new());
}

#[test]
fn candidates_of_dotted_and_go_and_other_imports() {
    assert_eq!(candidates("import java.util.List", "java"), vec!["List"]);
    assert_eq!(candidates("using System.Text;", "csharp"), vec!["Text"]);
    assert_eq!(candidates("import kotlin.collections.Map", "kotlin"), vec!["Map"]);
    assert_eq!(candidates("import alias \"net/http\"", "go"), vec!["alias"]);
    assert_eq!(candidates("import \"fmt\"", "go"), Vec::<String>::new());
    assert_eq!(candidates("import . \"fmt\"", "go"), Vec::<String>::new());
    assert_eq!(candidates("#include <stdio.h>", "c"), vec!["stdio"]);
    assert_eq!(candidates("import thing.Other as xy", "text"), vec!["thing", "Other"]);
}

#[test]
fn keywords_and_short_tokens_are_no_candidates() {
    assert_eq!(candidates("use crate::self::Mod::ab::Type::pub::abc", "rust"), vec!["abc"]);
    assert_eq!(candidates("import IMPORT Static class1 9abc ab_", "text"), vec!["class1", "ab_"]);
}

#[test]
fn the_parts_of_the_memory_can_be_built_alone() {
    let files = vec![
        build_file_memory("a/foo.rs", "rust", "pub struct Config {}\nfn Helper() {}\n"),
        build_file_memory("a/bar.rs", "rust", "use foo::Config;\nstruct Helper;\n"),
        build_file_memory("b/baz.py", "python", "from foo import Config\nclass Config:\n    pass\n"),
    ];
    let memory = build_project_memory(&files);

    let links_alone: Vec<_> = build_links(&files)
        .iter()
        .map(|l| (l.from_file.clone(), l.symbol.clone(), l.to_file.clone(), l.reason.clone()))
        .collect();
    assert_eq!(links_alone, links(&memory));
    assert_eq!(
        links_alone,
        vec![
            link("a/bar.rs", "Config", "a/foo.rs"),
            link("a/bar.rs", "Config", "b/baz.py"),
            link("b/baz.py", "Config", "a/foo.rs"),
        ]
    );

    let items = build_open_items(&files);
    let shown: Vec<(&str, &str, &Vec<String>)> =
        items.iter().map(|i| (i.kind.as_str(), i.symbol.as_str(), &i.files)).collect();
    let expected: Vec<(&str, &str, &Vec<String>)> = memory
        .open_items
        .iter()
        .map(|i| (i.kind.as_str(), i.symbol.as_str(), &i.files))
        .collect();
    assert_eq!(shown, expected);
    assert_eq!(items.iter().map(|i| i.symbol.as_str()).collect::<Vec<_>>(), vec!["Config", "Helper"]);
    assert_eq!(items[0].message, memory.open_items[0].message);

    assert!(build_links(&[]).is_empty());
    assert!(build_open_items(&[]).is_empty());
}
