use plainsight::config::SourceDiscoveryConfig;
use plainsight::core_ir::{Capabilities, Capability};
use plainsight::error::PlainSightError;
use plainsight::file_walker::{file_extension, FileWalker, FilterOptions};
use plainsight::language::{language_from_tag, Language};
use plainsight::memory::ConfidenceLevel;
use plainsight::ollama::Task;
use plainsight::parser::types::join_path;
use plainsight::parser::ExtractKind;

fn walker(extensions: &[&str], excluded: &[&str]) -> FileWalker {
    FileWalker::with_filter(FilterOptions {
        extensions: extensions.iter().map(|e| e.to_string()).collect(),
        exclude_directories: excluded.iter().map(|e| e.to_string()).collect(),
    })
}

#[test]
fn capabilities() {
    let none = Capabilities::none();
    assert!(none.supported.is_empty());
    assert!(!none.supports(Capability::Symbols));
    let some = Capabilities::from(vec![Capability::Symbols, Capability::Imports]);
    assert_eq!(some.supported, vec![Capability::Symbols, Capability::Imports]);
    assert!(some.supports(Capability::Symbols));
    assert!(some.supports(Capability::Imports));
    assert!(!some.supports(Capability::BasicTypes));
    assert!(!some.supports(Capability::ControlFlow));
    assert!(!some.supports(Capability::DataFlow));
}

#[test]
fn language_tags() {
    for (tag, family) in [
        ("rust", Language::Rust),
        ("python", Language::Python),
        ("javascript", Language::JavaScript),
        ("typescript", Language::TypeScript),
        ("go", Language::Go),
        ("java", Language::Java),
        ("kotlin", Language::Kotlin),
        ("csharp", Language::CSharp),
        ("c", Language::C),
        ("cpp", Language::Cpp),
        ("text", Language::Other),
        ("", Language::Other),
        ("Rust", Language::Other),
        ("rust ", Language::Other),
    ] {
        assert_eq!(language_from_tag(tag), family, "{:?}", tag);
    }
}

#[test]
fn default_discovery() {
    let config = SourceDiscoveryConfig::default();
    assert_eq!(
        config.extensions,
        vec!["rs", "py", "js", "jsx", "ts", "tsx", "go", "java", "kt", "c", "h", "cc", "cpp", "hpp", "cs"]
    );
    assert_eq!(config.exclude_directories, vec![".git", "target", "docs"]);
    assert_eq!(ConfidenceLevel::default(), ConfidenceLevel::Medium);
}

#[test]
fn excluded_directories() {
    let w = walker(&["rs"], &[".git", "target", "docs"]);
    assert!(w.is_directory_excluded("target"));
    assert!(w.is_directory_excluded("/work/project/target/debug"));
    assert!(w.is_directory_excluded("a/.git"));
    assert!(w.is_directory_excluded("./docs/api"));
    assert!(!w.is_directory_excluded("/work/project/src"));
    assert!(!w.is_directory_excluded("targets/x"));
    assert!(!w.is_directory_excluded(""));
    assert!(!w.is_directory_excluded("/"));
    // Only names count: not the root, not `.` nor `..`.
    let odd = walker(&[], &["/", ".", ".."]);
    assert!(!odd.is_directory_excluded("/a/../b"));
    assert!(!odd.is_directory_excluded("./a"));
}

#[test]
fn extensions_are_those_of_the_standard_library() {
    for path in [
        "a.rs", "dir/b.tar.gz", "noext", ".hidden", "dir/.hidden.txt", "a.", "a/b.c/d", "", "/",
        "x/..", "..", "a.b/", "weird.RS", "dir.d/file",
    ] {
        let expected = std::path::Path::new(path)
            .extension()
            .unwrap_or_default()
            .to_str()
            .unwrap_or_default()
            .to_string();
        let got: String = file_extension(path).iter().collect();
        assert_eq!(got, expected, "{:?}", path);
    }
}

#[test]
fn files_are_taken_by_extension() {
    let w = walker(&["rs", "py"], &[]);
    assert!(w.takes_file("src/main.rs"));
    assert!(w.takes_file("/abs/tool.py"));
    assert!(!w.takes_file("notes.txt"));
    assert!(!w.takes_file("Makefile"));
    assert!(!w.takes_file("main.RS"));
    assert!(!w.takes_file(".rs"));
    // Without extensions to go by nothing is taken.
    assert!(!walker(&[], &[]).takes_file("a.rs"));
    // The empty extension is that of files without one.
    assert!(walker(&[""], &[]).takes_file("Makefile"));
}

#[test]
fn error_messages() {
    assert_eq!(
        PlainSightError::io("reading x".to_string(), "denied".to_string()).message(),
        "I/O error while reading x: denied"
    );
    assert_eq!(PlainSightError::Parse("bad".to_string()).message(), "parse error: bad");
    assert_eq!(
        PlainSightError::QueryLoad { path: "q.scm".to_string(), source: "gone".to_string() }.message(),
        "failed to load query file 'q.scm': gone"
    );
    assert_eq!(
        PlainSightError::QueryCompile { kind: "types".to_string(), detail: "syntax".to_string() }.message(),
        "failed to compile 'types' query: syntax"
    );
    assert_eq!(PlainSightError::Ollama("down".to_string()).message(), "ollama error: down");
    assert_eq!(
        PlainSightError::PathOutsideProject { path: "/x".to_string(), project_root: "/p".to_string() }.message(),
        "file path '/x' is outside project root '/p'"
    );
    assert_eq!(PlainSightError::InvalidState("odd".to_string()).message(), "invalid state: odd");
    match PlainSightError::io("c".to_string(), "s".to_string()) {
        PlainSightError::Io { context, source } => {
            assert_eq!(context, "c");
            assert_eq!(source, "s");
        }
        other => panic!("{:?}", other),
    }
}

#[test]
fn names_of_kinds_and_tasks() {
    assert_eq!(ExtractKind::Functions.as_str(), "functions");
    assert_eq!(ExtractKind::Imports.as_str(), "imports");
    assert_eq!(ExtractKind::Types.as_str(), "types");
    assert_eq!(ExtractKind::Variables.as_str(), "variables");
    assert_eq!(
        ExtractKind::all(),
        vec![ExtractKind::Functions, ExtractKind::Imports, ExtractKind::Types, ExtractKind::Variables]
    );
    assert_eq!(Task::Documentation.model(), "qwen2.5-coder:7b");
    assert_eq!(Task::ProjectSummary.model(), "llama3.1:8b");
    assert_eq!(Task::Architecture.model(), "qwen2.5-coder:7b");
    assert_eq!(Task::Summarize.model(), "llama3.1:8b");
    assert_eq!(Task::Summarize.name(), "Summarize");
    assert_eq!(join_path("", "seg"), "seg");
    assert_eq!(join_path("pre", ""), "pre");
    assert_eq!(join_path("a::b", "c"), "a::b::c");
    assert_eq!(join_path("", ""), "");
}
