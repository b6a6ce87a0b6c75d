use plainsight::source_indexer::{build_source_index, chunk_config, estimate_tokens};
use plainsight::text::chars_of;

fn numbered_lines(count: usize) -> String {
    let mut source = String::new();
    for i in 0..count {
        source.push_str(&format!("line {}\n", i + 1));
    }
    source
}

#[test]
fn empty_source_has_no_chunks() {
    let index = build_source_index("", "rust");
    assert_eq!(index.line_count, 0);
    assert_eq!(index.chunk_count, 0);
    assert!(index.chunks.is_empty());
    assert_eq!(index.language, "rust");
}

#[test]
fn short_source_is_one_chunk() {
    let index = build_source_index("fn main() {\n    println!(\"hi\");\n}\n", "rust");
    assert_eq!(index.line_count, 3);
    assert_eq!(index.chunk_count, 1);
    assert_eq!(index.chunks[0].chunk_id, 0);
    assert_eq!(index.chunks[0].start_line, 1);
    assert_eq!(index.chunks[0].end_line, 3);
    assert_eq!(index.chunks[0].content, "fn main() {\n    println!(\"hi\");\n}");
}

#[test]
fn source_without_final_line_end_counts_its_last_line() {
    let index = build_source_index("a\nb", "rust");
    assert_eq!(index.line_count, 2);
    assert_eq!(index.chunks[0].content, "a\nb");
}

#[test]
fn carriage_returns_do_not_belong_to_lines() {
    let index = build_source_index("a\r\nb\r\n", "rust");
    assert_eq!(index.line_count, 2);
    assert_eq!(index.chunks[0].content, "a\nb");
}

#[test]
fn windows_of_the_default_profile_overlap_by_twenty_lines() {
    let index = build_source_index(&numbered_lines(300), "rust");
    assert_eq!(index.line_count, 300);
    assert_eq!(index.chunk_count, 3);
    let bounds: Vec<(usize, usize, usize)> =
        index.chunks.iter().map(|c| (c.chunk_id, c.start_line, c.end_line)).collect();
    assert_eq!(bounds, vec![(0, 1, 120), (1, 101, 220), (2, 201, 300)]);
    assert!(index.chunks[1].content.starts_with("line 101\n"));
    assert!(index.chunks[1].content.ends_with("line 220"));
}

#[test]
fn windows_of_the_python_profile() {
    let index = build_source_index(&numbered_lines(250), "python");
    let bounds: Vec<(usize, usize)> =
        index.chunks.iter().map(|c| (c.start_line, c.end_line)).collect();
    assert_eq!(bounds, vec![(1, 100), (87, 186), (173, 250)]);
}

#[test]
fn chunks_cover_every_line_and_overlap() {
    for count in [1usize, 2, 119, 120, 121, 240, 241, 500, 1234] {
        let index = build_source_index(&numbered_lines(count), "typescript");
        assert_eq!(index.line_count, count);
        assert_eq!(index.chunk_count, index.chunks.len());
        assert_eq!(index.chunks[0].start_line, 1);
        assert_eq!(index.chunks[index.chunks.len() - 1].end_line, count);
        for (i, chunk) in index.chunks.iter().enumerate() {
            assert_eq!(chunk.chunk_id, i);
            assert!(chunk.start_line >= 1);
            assert!(chunk.end_line >= chunk.start_line);
            assert!(chunk.end_line <= count);
        }
        for pair in index.chunks.windows(2) {
            assert!(pair[1].start_line > pair[0].start_line);
            assert!(pair[1].start_line <= pair[0].end_line);
        }
    }
}

#[test]
fn a_window_shrinks_to_the_token_budget() {
    // 100 characters a line: 25 estimated tokens each, 101 characters with the line end.
    let line = "x".repeat(100);
    let mut source = String::new();
    for _ in 0..80 {
        source.push_str(&line);
        source.push('\n');
    }
    let index = build_source_index(&source, "rust");
    // 1300 tokens allow 52 lines; 6000 characters would allow 59.
    assert_eq!(index.chunks[0].start_line, 1);
    assert_eq!(index.chunks[0].end_line, 52);
    assert_eq!(index.chunks[1].start_line, 33);
}

#[test]
fn a_window_shrinks_to_the_character_budget() {
    // 300 characters in 100 words a line: 75 tokens by characters, 51 by words.
    let line = "ab ".repeat(100);
    let mut source = String::new();
    for _ in 0..40 {
        source.push_str(&line);
        source.push('\n');
    }
    let index = build_source_index(&source, "rust");
    // 1300 tokens allow 17 lines, 6000 characters allow 19 lines of 301.
    assert_eq!(index.chunks[0].end_line, 17);
    let short = "a".repeat(59);
    let mut source = String::new();
    for _ in 0..120 {
        source.push_str(&short);
        source.push('\n');
    }
    let index = build_source_index(&source, "rust");
    // 60 characters and 15 tokens a line: 100 lines by characters, 86 by tokens.
    assert_eq!(index.chunks[0].end_line, 86);
}

#[test]
fn a_line_over_the_budget_is_a_chunk_of_its_own() {
    let long = "y".repeat(7000);
    let source = format!("{}\nshort\nlines\n", long);
    let index = build_source_index(&source, "rust");
    assert_eq!(index.line_count, 3);
    assert_eq!(index.chunks[0].start_line, 1);
    assert_eq!(index.chunks[0].end_line, 1);
    assert_eq!(index.chunks[0].content.len(), 7000);
    // The next window begins one line further on.
    assert_eq!(index.chunks[1].start_line, 2);
    assert_eq!(index.chunks[1].end_line, 3);
    assert_eq!(index.chunk_count, 2);
}

#[test]
fn profiles_by_language() {
    let python = chunk_config("python");
    assert_eq!(
        (python.max_lines, python.overlap_lines, python.max_chars, python.max_tokens),
        (100, 14, 5200, 1100)
    );
    for tag in ["javascript", "typescript"] {
        let c = chunk_config(tag);
        assert_eq!((c.max_lines, c.overlap_lines, c.max_chars, c.max_tokens), (110, 18, 5600, 1200));
    }
    for tag in ["java", "kotlin", "csharp"] {
        let c = chunk_config(tag);
        assert_eq!((c.max_lines, c.overlap_lines, c.max_chars, c.max_tokens), (95, 16, 5400, 1150));
    }
    for tag in ["c", "cpp"] {
        let c = chunk_config(tag);
        assert_eq!((c.max_lines, c.overlap_lines, c.max_chars, c.max_tokens), (105, 18, 5600, 1200));
    }
    for tag in ["rust", "go", "text", "", "Python"] {
        let c = chunk_config(tag);
        assert_eq!((c.max_lines, c.overlap_lines, c.max_chars, c.max_tokens), (120, 20, 6000, 1300));
    }
}

#[test]
fn token_estimates() {
    let lines: Vec<Vec<char>> = vec![
        chars_of(""),
        chars_of("abcd"),
        chars_of("abcde"),
        chars_of("a b c d e f"),
        chars_of("   "),
    ];
    // An empty line: max(0, 0 / 2 + 1) = 1.
    assert_eq!(estimate_tokens(&lines, 0, 1), 1);
    // Four characters: max(1, 1 / 2 + 1) = 1; five: max(2, 1) = 2.
    assert_eq!(estimate_tokens(&lines, 1, 2), 1);
    assert_eq!(estimate_tokens(&lines, 2, 3), 2);
    // Eleven characters in six words: max(3, 6 / 2 + 1) = 4.
    assert_eq!(estimate_tokens(&lines, 3, 4), 4);
    assert_eq!(estimate_tokens(&lines, 4, 5), 1);
    assert_eq!(estimate_tokens(&lines, 0, 5), 9);
    assert_eq!(estimate_tokens(&lines, 2, 2), 0);
}
