use plainsight::error::PlainSightError;
use plainsight::memory::relevance::RelevantMemory;
use plainsight::memory::{build_file_memory, CrossFileLink, GlobalSymbol, OpenItem};
use plainsight::ollama::tools::{
    clip_relevant, default_chunk_ids, is_memory_file, is_source_index_file, select_chunks,
    source_cap,
};
use plainsight::source_indexer::SourceChunk;
use plainsight::workflow::generate::{
    advance, begin, build_project_summary_context, clamp_count, classify_answer,
    classify_existing, clip_chunks, clip_file_memory, clip_text, format_duration,
    is_transient_message, judge_answer, memory_pressure, prompt_budget,
    should_retry_compact_ollama_error, source_preview, Action, Outcome, Step,
};
use plainsight::workflow::ingest::{detect_language, infer_project_name, relative_path_display};
use plainsight::workflow::types::PromptProfile;

fn chunk(id: usize, content: &str) -> SourceChunk {
    SourceChunk { chunk_id: id, start_line: id * 10 + 1, end_line: id * 10 + 10, content: content.to_string() }
}

fn contents(chunks: &[SourceChunk]) -> Vec<(usize, String)> {
    chunks.iter().map(|c| (c.chunk_id, c.content.clone())).collect()
}

#[test]
fn languages_by_extension() {
    for (path, tag) in [
        ("src/main.rs", "rust"), ("a.py", "python"), ("a.js", "javascript"), ("a.jsx", "javascript"),
        ("a.ts", "typescript"), ("a.tsx", "typescript"), ("a.go", "go"), ("A.java", "java"),
        ("a.kt", "kotlin"), ("a.cs", "csharp"), ("a.c", "c"), ("a.h", "c"), ("a.cc", "cpp"),
        ("a.cpp", "cpp"), ("a.hpp", "cpp"), ("a.RS", "rust"), ("dir.rs/file", "text"),
        ("README", "text"), (".rs", "text"), ("a.txt", "text"), ("", "text"), ("a.tar.PY", "python"),
    ] {
        assert_eq!(detect_language(path), tag, "{:?}", path);
    }
}

#[test]
fn paths_as_they_are_shown() {
    assert_eq!(relative_path_display("/p/src/a.rs", "/p"), "src/a.rs");
    assert_eq!(relative_path_display("/p/src/a.rs", "/p/"), "src/a.rs");
    assert_eq!(relative_path_display("/q/src/a.rs", "/p"), "/q/src/a.rs");
    assert_eq!(relative_path_display("/p", "/p"), "");
    assert_eq!(relative_path_display("rel/a.rs", "rel"), "a.rs");
    for (path, root) in [("/p/src/a.rs", "/p"), ("/q/a.rs", "/p"), ("a/b/c", "a"), ("a/b", "a/b/c")] {
        let expected = std::path::Path::new(path)
            .strip_prefix(root)
            .unwrap_or(std::path::Path::new(path))
            .display()
            .to_string();
        assert_eq!(relative_path_display(path, root), expected);
    }
}

#[test]
fn names_of_projects() {
    assert_eq!(infer_project_name("/work/my-cool-project"), "my_cool_project");
    assert_eq!(infer_project_name("plain"), "plain");
    assert_eq!(infer_project_name("a/b-c/"), "b_c");
    assert_eq!(infer_project_name("/"), "plain_sight");
    assert_eq!(infer_project_name(""), "plain_sight");
    assert_eq!(infer_project_name("."), "plain_sight");
    assert_eq!(infer_project_name("a/.."), "plain_sight");
}

#[test]
fn errors_that_pass() {
    for message in [
        "ollama error (m): request timeout after 30 seconds",
        "operation Timed Out",
        "model is Stopping...",
        "process was KILLED",
        "Connection refused",
        "ollama returned JSON payload instead of markdown",
    ] {
        assert!(is_transient_message(message), "{}", message);
        assert!(should_retry_compact_ollama_error(&PlainSightError::Ollama(message.to_string())));
    }
    assert!(!is_transient_message("model not found"));
    assert!(!is_transient_message(""));
    // The message of the error counts, with what the kind of error puts before it.
    assert!(should_retry_compact_ollama_error(&PlainSightError::io("opening a connection".to_string(), "denied".to_string())));
    assert!(!should_retry_compact_ollama_error(&PlainSightError::Parse("bad".to_string())));
}

#[test]
fn how_the_work_on_a_file_goes() {
    assert_eq!(begin(true, true), (Step::AskedStandard, Action::Ask(PromptProfile::Standard)));
    assert_eq!(begin(true, false), (Step::AskedStandard, Action::Ask(PromptProfile::Standard)));
    assert_eq!(begin(false, true), (Step::ReadingExisting, Action::ReadExisting));
    assert_eq!(begin(false, false), (Step::Done, Action::Reuse));

    assert_eq!(advance(Step::ReadingExisting, Outcome::Text), (Step::Done, Action::Reuse));
    assert_eq!(advance(Step::ReadingExisting, Outcome::Empty), (Step::AskedStandard, Action::Ask(PromptProfile::Standard)));

    assert_eq!(advance(Step::AskedStandard, Outcome::Text), (Step::Done, Action::Write));
    assert_eq!(advance(Step::AskedStandard, Outcome::Empty), (Step::Done, Action::Skip));
    assert_eq!(advance(Step::AskedStandard, Outcome::Refusal), (Step::AskedCompact, Action::Ask(PromptProfile::Compact)));
    assert_eq!(advance(Step::AskedStandard, Outcome::Transient), (Step::AskedCompact, Action::Ask(PromptProfile::Compact)));
    assert_eq!(advance(Step::AskedStandard, Outcome::Fatal), (Step::Done, Action::Fail));

    assert_eq!(advance(Step::AskedCompact, Outcome::Text), (Step::Done, Action::Write));
    assert_eq!(advance(Step::AskedCompact, Outcome::Empty), (Step::Done, Action::Skip));
    assert_eq!(advance(Step::AskedCompact, Outcome::Refusal), (Step::Done, Action::Skip));
    assert_eq!(advance(Step::AskedCompact, Outcome::Transient), (Step::Done, Action::Skip));
    assert_eq!(advance(Step::AskedCompact, Outcome::Fatal), (Step::Done, Action::Fail));
    assert_eq!(advance(Step::Done, Outcome::Text), (Step::Done, Action::Skip));
}

#[test]
fn what_an_answer_is() {
    assert_eq!(classify_answer(&Ok("## Purpose\nfine".to_string())), Outcome::Text);
    assert_eq!(classify_answer(&Ok(String::new())), Outcome::Empty);
    assert_eq!(classify_answer(&Ok("I CANNOT help".to_string())), Outcome::Refusal);
    assert_eq!(classify_answer(&Err(PlainSightError::Ollama("timed out".to_string()))), Outcome::Transient);
    assert_eq!(classify_answer(&Err(PlainSightError::Ollama("no such model".to_string()))), Outcome::Fatal);
    assert_eq!(judge_answer(&Ok("x".to_string()), true), Outcome::Refusal);
    assert_eq!(judge_answer(&Ok("".to_string()), true), Outcome::Empty);
    assert_eq!(classify_existing(&None), Outcome::Empty);
    assert_eq!(classify_existing(&Some(" \n".to_string())), Outcome::Empty);
    assert_eq!(classify_existing(&Some(" kept ".to_string())), Outcome::Text);
}

#[test]
fn budgets_of_requests() {
    let b = |p, n| {
        let b = prompt_budget(p, n);
        (b.max_chunks, b.max_chunk_chars, b.max_file_symbols, b.max_file_imports)
    };
    assert_eq!(b(PromptProfile::Standard, 0), (8, 1600, 70, 50));
    assert_eq!(b(PromptProfile::Standard, 200), (8, 1600, 70, 50));
    assert_eq!(b(PromptProfile::Standard, 201), (6, 1350, 70, 50));
    assert_eq!(b(PromptProfile::Standard, 350), (6, 1350, 70, 50));
    assert_eq!(b(PromptProfile::Standard, 351), (5, 1200, 70, 50));
    assert_eq!(b(PromptProfile::Compact, 0), (4, 900, 30, 20));
    assert_eq!(b(PromptProfile::Compact, 201), (3, 800, 30, 20));
    assert_eq!(b(PromptProfile::Compact, 351), (2, 650, 30, 20));
    assert_eq!(memory_pressure(1, 2, 3, 4, 5), 15);
    assert_eq!(memory_pressure(usize::MAX, 1, 0, 0, 0), usize::MAX);
    assert_eq!(clamp_count(3, 8, 20), 8);
    assert_eq!(clamp_count(12, 8, 20), 12);
    assert_eq!(clamp_count(99, 8, 20), 20);
}

#[test]
fn cutting_texts_and_lists() {
    assert_eq!(clip_text("abcdef", 3), "abc...");
    assert_eq!(clip_text("abc", 3), "abc");
    assert_eq!(clip_text("", 0), "");
    assert_eq!(clip_text("\u{e9}\u{e9}\u{e9}", 2), "\u{e9}\u{e9}...");
    let chunks = vec![chunk(0, "aaaaaa"), chunk(1, "bb"), chunk(2, "cccc")];
    assert_eq!(contents(&clip_chunks(&chunks, 2, 3)), vec![(0, "aaa...".to_string()), (1, "bb".to_string())]);
    assert_eq!(contents(&clip_chunks(&chunks, 5, 10)).len(), 3);
    assert_eq!(clip_chunks(&chunks, 2, 3)[1].start_line, 11);
    assert_eq!(source_preview(&chunks), "aaaaaa");
    assert_eq!(source_preview(&vec![]), "");
    assert_eq!(source_preview(&vec![chunk(0, &"z".repeat(400))]), format!("{}...", "z".repeat(350)));
    let memory = build_file_memory("a.rs", "rust", "use a;\nuse b;\nuse c;\nfn x() {}\nfn y() {}\n");
    let cut = clip_file_memory(&memory, 1, 2);
    assert_eq!(cut.symbols.len(), 1);
    assert_eq!(cut.symbol_count, 1);
    assert_eq!(cut.imports, vec!["use a", "use b"]);
    assert_eq!(cut.import_count, 2);
    assert_eq!(cut.path, "a.rs");
    let same = clip_file_memory(&memory, 70, 50);
    assert_eq!(same.symbol_count, 2);
    assert_eq!(same.import_count, 3);
}

#[test]
fn summaries_put_together() {
    assert_eq!(build_project_summary_context(&vec![]), "# File Summaries\n\n");
    assert_eq!(
        build_project_summary_context(&vec![
            ("a.rs".to_string(), "  first \n".to_string()),
            ("b/c.rs".to_string(), "second".to_string()),
        ]),
        "# File Summaries\n\n## a.rs\nfirst\n\n## b/c.rs\nsecond\n\n"
    );
}

#[test]
fn lengths_of_time() {
    assert_eq!(format_duration(0, 0), "0ms");
    assert_eq!(format_duration(0, 999), "999ms");
    assert_eq!(format_duration(1, 5), "1s 5ms");
    assert_eq!(format_duration(59, 0), "59s 0ms");
    assert_eq!(format_duration(60, 0), "1m 0s 0ms");
    assert_eq!(format_duration(3725, 42), "62m 5s 42ms");
    assert_eq!(format_duration(u64::MAX, u32::MAX), format!("{}m {}s {}ms", u64::MAX / 60, u64::MAX % 60, u32::MAX));
}

#[test]
fn chunks_that_a_tool_hands_out() {
    assert!(is_memory_file("docs/p/.memory.json"));
    assert!(!is_memory_file("docs/p/memory.json"));
    assert!(is_source_index_file(".source_index.json"));
    assert!(!is_source_index_file(".source_index.jsonl"));
    assert_eq!(source_cap(None), 3500);
    assert_eq!(source_cap(Some(0)), 400);
    assert_eq!(source_cap(Some(5000)), 5000);
    assert_eq!(source_cap(Some(50000)), 12000);
    assert_eq!(default_chunk_ids(), vec![0, 1]);

    let chunks = vec![chunk(0, "aaaaa"), chunk(1, "bbbbb"), chunk(2, "ccccc"), chunk(1, "again")];
    let (picked, total) = select_chunks(&chunks, &vec![0, 1], 100);
    assert_eq!(contents(&picked), vec![(0, "aaaaa".to_string()), (1, "bbbbb".to_string())]);
    assert_eq!(total, 10);
    // In the order asked; a number that no chunk has is passed over.
    let (picked, total) = select_chunks(&chunks, &vec![2, 7, 0, 2], 100);
    assert_eq!(contents(&picked), vec![(2, "ccccc".to_string()), (0, "aaaaa".to_string()), (2, "ccccc".to_string())]);
    assert_eq!(total, 15);
    // A chunk is cut to what is left; after that none follows.
    let (picked, total) = select_chunks(&chunks, &vec![0, 1, 2], 7);
    assert_eq!(contents(&picked), vec![(0, "aaaaa".to_string()), (1, "bb...".to_string())]);
    assert_eq!(total, 10);
    let (picked, total) = select_chunks(&chunks, &vec![0, 1, 2], 5);
    assert_eq!(contents(&picked), vec![(0, "aaaaa".to_string())]);
    assert_eq!(total, 5);
    let (picked, total) = select_chunks(&chunks, &vec![0], 0);
    assert!(picked.is_empty());
    assert_eq!(total, 0);
}

#[test]
fn memory_that_a_tool_hands_out() {
    let make = || RelevantMemory {
        file_count: 3,
        unique_symbol_count: 9,
        global_symbols: (0..250)
            .map(|i| GlobalSymbol { name: format!("s{}", i), kind: "fn".to_string(), defined_in: vec![] })
            .collect(),
        open_items: (0..150)
            .map(|i| OpenItem { kind: "k".to_string(), symbol: format!("i{}", i), message: String::new(), files: vec![] })
            .collect(),
        links: (0..250)
            .map(|i| CrossFileLink { from_file: format!("f{}", i), to_file: "t".to_string(), symbol: "s".to_string(), reason: "import".to_string() })
            .collect(),
    };
    let all = clip_relevant(make(), None, None, None);
    assert_eq!((all.global_symbols.len(), all.open_items.len(), all.links.len()), (250, 150, 250));
    let some = clip_relevant(make(), Some(5), Some(0), Some(1000));
    assert_eq!((some.global_symbols.len(), some.open_items.len(), some.links.len()), (5, 0, 200));
    assert_eq!(some.global_symbols[4].name, "s4");
    assert_eq!((some.file_count, some.unique_symbol_count), (3, 9));
    let most = clip_relevant(make(), Some(usize::MAX), Some(101), Some(7));
    assert_eq!((most.global_symbols.len(), most.open_items.len(), most.links.len()), (200, 100, 7));
}
