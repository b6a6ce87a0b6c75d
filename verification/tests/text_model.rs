use plainsight::memory::paths::{parent_dir, path_components};
use plainsight::order::{compare, Rank};
use plainsight::split::{lines, split, split_whitespace};
use plainsight::text::{chars_of, find, to_ascii_lower, trim, trim_end, trim_start, white_space};

fn text(v: &[char]) -> String {
    v.iter().collect()
}

fn texts(v: &[Vec<char>]) -> Vec<String> {
    v.iter().map(|r| r.iter().collect()).collect()
}

const SAMPLES: [&str; 14] = [
    "",
    " ",
    "a",
    "  lead and trail \t",
    "one\ntwo\n",
    "one\r\ntwo\r\nthree",
    "\n\n",
    "a\rb\n",
    "tab\tseparated  words\u{a0}here\u{2003}and there",
    "use std::collections::{BTreeMap, BTreeSet};",
    "caf\u{e9} \u{4f60}\u{597d} \u{1f600}",
    "\u{3000}wide\u{3000}",
    "ab::cd::::ef",
    "trailing\r",
];

#[test]
fn lines_are_those_of_the_standard_library() {
    for sample in SAMPLES {
        let expected: Vec<String> = sample.lines().map(|l| l.to_string()).collect();
        assert_eq!(texts(&lines(&chars_of(sample))), expected, "{:?}", sample);
    }
}

#[test]
fn words_are_those_of_the_standard_library() {
    for sample in SAMPLES {
        let expected: Vec<String> = sample.split_whitespace().map(|l| l.to_string()).collect();
        assert_eq!(texts(&split_whitespace(&chars_of(sample))), expected, "{:?}", sample);
    }
}

#[test]
fn trimming_is_that_of_the_standard_library() {
    for sample in SAMPLES {
        let chars = chars_of(sample);
        assert_eq!(text(trim(&chars)), sample.trim(), "{:?}", sample);
        assert_eq!(text(trim_start(&chars)), sample.trim_start(), "{:?}", sample);
        assert_eq!(text(trim_end(&chars)), sample.trim_end(), "{:?}", sample);
    }
}

#[test]
fn white_space_is_that_of_the_standard_library() {
    for code in 0u32..0x3100 {
        if let Some(c) = char::from_u32(code) {
            assert_eq!(white_space(c), c.is_whitespace(), "U+{:04X}", code);
        }
    }
    assert!(!white_space('\u{feff}'));
    assert!(!white_space('\u{1f600}'));
}

#[test]
fn splitting_is_that_of_the_standard_library() {
    for sample in SAMPLES {
        for pattern in ["::", ",", " ", "\n", "ab"] {
            let expected: Vec<String> = sample.split(pattern).map(|l| l.to_string()).collect();
            assert_eq!(
                texts(&split(&chars_of(sample), &chars_of(pattern))),
                expected,
                "{:?} at {:?}",
                sample,
                pattern
            );
        }
    }
}

#[test]
fn finding_counts_characters() {
    assert_eq!(find(&chars_of("hello world"), &chars_of("o w")), Some(4));
    assert_eq!(find(&chars_of("hello"), &chars_of("")), Some(0));
    assert_eq!(find(&chars_of("hello"), &chars_of("lo")), Some(3));
    assert_eq!(find(&chars_of("hello"), &chars_of("hello!")), None);
    assert_eq!(find(&chars_of("caf\u{e9} au lait"), &chars_of("au")), Some(5));
    assert_eq!(find(&chars_of("aaa"), &chars_of("b")), None);
}

#[test]
fn lower_case_of_ascii_letters_only() {
    assert_eq!(text(&to_ascii_lower(&chars_of("MiXed_09 \u{c9}"))), "mixed_09 \u{c9}");
    for sample in SAMPLES {
        assert_eq!(text(&to_ascii_lower(&chars_of(sample))), sample.to_ascii_lowercase());
    }
}

#[test]
fn order_of_strings_is_that_of_the_standard_library() {
    let words = ["", "a", "ab", "b", "B", "a/b", "a.b", "caf\u{e9}", "cafe", "\u{1f600}", "zz"];
    for a in words {
        for b in words {
            let expected = match a.cmp(b) {
                std::cmp::Ordering::Less => Rank::Before,
                std::cmp::Ordering::Equal => Rank::Same,
                std::cmp::Ordering::Greater => Rank::After,
            };
            assert_eq!(compare(&chars_of(a), &chars_of(b)), expected, "{:?} and {:?}", a, b);
        }
    }
}

#[test]
fn components_are_those_of_the_standard_library() {
    let paths = [
        "", "a", "a/b", "a/b/", "a//b", "a/./b", "./a/b", ".", "/", "/a", "/a/b.rs", "a/b/.",
        "../a", "a/../b", "src/memory/types.rs", "//a", "./", "a/b/c/d.txt",
    ];
    for path in paths {
        let expected: Vec<String> = std::path::Path::new(path)
            .components()
            .map(|c| c.as_os_str().to_string_lossy().to_string())
            .collect();
        assert_eq!(texts(&path_components(&chars_of(path))), expected, "{:?}", path);
        let parent: Vec<String> = std::path::Path::new(path)
            .parent()
            .unwrap_or_else(|| std::path::Path::new(""))
            .components()
            .map(|c| c.as_os_str().to_string_lossy().to_string())
            .collect();
        assert_eq!(texts(&parent_dir(&chars_of(path))), parent, "parent of {:?}", path);
    }
}
