use plainsight::project_manager::content_hash;
use std::hash::{Hash, Hasher};
use plainsight::text::to_hexadecimal;
use plainsight::error::PlainSightError;
use plainsight::memory::build_file_memory;
use plainsight::project_manager::{
    any_needed, cached_file_memory, join_path, needs_recompute, update_meta_for_files, FileMeta,
    FileRecord, MetaCache, ProjectManager,
};

fn meta(hash: &str, language: Option<&str>, source: Option<&str>) -> FileMeta {
    FileMeta {
        hash: hash.to_string(),
        language: language.map(|l| l.to_string()),
        memory: source.map(|s| build_file_memory("p", language.unwrap_or("text"), s)),
    }
}

fn record(path: &str, language: &str, hash: &str, source: &str) -> FileRecord {
    FileRecord {
        relative_path: path.to_string(),
        language: language.to_string(),
        hash: hash.to_string(),
        memory: build_file_memory(path, language, source),
    }
}

#[test]
fn joining_paths() {
    assert_eq!(join_path("docs", "proj"), "docs/proj");
    assert_eq!(join_path("docs/", "proj"), "docs/proj");
    assert_eq!(join_path("", "proj"), "proj");
    assert_eq!(join_path("docs", "/abs"), "/abs");
    assert_eq!(join_path("docs", ""), "docs/");
    assert_eq!(join_path("/", "a"), "/a");
    for (base, part) in [("docs", "proj"), ("docs/", "p/q"), ("", "x"), ("a", "/b"), ("a", ""), ("/", "a")] {
        let expected = std::path::Path::new(base).join(part);
        assert_eq!(join_path(base, part), expected.to_string_lossy());
    }
}

#[test]
fn where_the_documents_lie() {
    let manager = ProjectManager::new("/docs");
    let project = manager.new_project("demo", "/work/demo");
    assert_eq!(project.project_docs_path(), "/docs/demo");
    assert_eq!(project.files_root_path(), "/docs/demo/files");
    assert_eq!(project.summary_path(), "/docs/demo/summary.md");
    assert_eq!(project.architecture_path(), "/docs/demo/architecture.md");
    assert_eq!(project.meta_path(), "/work/demo/.meta.json");
    assert_eq!(project.relative_file_path("/work/demo/src/a.rs").unwrap(), "src/a.rs");
    assert_eq!(project.relative_file_path("src/a.rs").unwrap(), "src/a.rs");
    assert_eq!(project.relative_file_path("/work/demo").unwrap(), "");
    assert_eq!(project.file_docs_dir("src/a.rs").unwrap(), "/docs/demo/files/src/a.rs");
    assert_eq!(project.file_summary_path("/work/demo/src/a.rs").unwrap(), "/docs/demo/files/src/a.rs/summary.md");
    assert_eq!(project.file_docs_path("src/a.rs").unwrap(), "/docs/demo/files/src/a.rs/docs.md");
}

#[test]
fn a_file_outside_the_project_is_refused() {
    let project = ProjectManager::new("docs").new_project("demo", "/work/demo");
    for path in ["/work/other/a.rs", "/work/demolition/a.rs", "/a.rs"] {
        match project.relative_file_path(path) {
            Err(PlainSightError::PathOutsideProject { path: p, project_root }) => {
                assert_eq!(p, path);
                assert_eq!(project_root, "/work/demo");
            }
            other => panic!("{:?}", other),
        }
        assert!(project.file_docs_dir(path).is_err());
        assert!(project.file_summary_path(path).is_err());
        assert!(project.file_docs_path(path).is_err());
        assert!(project.needs_generation(path, &MetaCache::new(), "h", true, true).is_err());
    }
    let error = project.relative_file_path("/a.rs").unwrap_err();
    assert_eq!(error.message(), "file path '/a.rs' is outside project root '/work/demo'");
}

#[test]
fn the_cache_holds_one_entry_for_a_path() {
    let mut cache = MetaCache::new();
    assert!(cache.get("a.rs").is_none());
    assert!(cache.entries().is_empty());
    cache.insert("b.rs".to_string(), meta("h1", Some("rust"), None));
    cache.insert("a.rs".to_string(), meta("h2", Some("rust"), None));
    cache.insert("c.rs".to_string(), meta("h3", None, None));
    cache.insert("a.rs".to_string(), meta("h4", Some("go"), Some("func x() {}\n")));
    let paths: Vec<&str> = cache.entries().iter().map(|e| e.path.as_str()).collect();
    assert_eq!(paths, vec!["a.rs", "b.rs", "c.rs"]);
    let a = cache.get("a.rs").unwrap();
    assert_eq!(a.hash, "h4");
    assert_eq!(a.language.as_deref(), Some("go"));
    assert_eq!(a.memory.as_ref().unwrap().symbols[0].name, "x");
    assert_eq!(cache.get("b.rs").unwrap().hash, "h1");
    assert_eq!(cache.get("c.rs").unwrap().hash, "h3");
    assert!(cache.get("d.rs").is_none());
    assert!(cache.get("").is_none());
}

#[test]
fn when_a_memory_is_used_again() {
    let mut cache = MetaCache::new();
    cache.insert("a.rs".to_string(), meta("h1", Some("rust"), Some("fn kept() {}\n")));
    cache.insert("old.rs".to_string(), meta("h1", Some("rust"), None));
    cache.insert("bare.rs".to_string(), meta("h1", None, Some("fn x() {}\n")));

    let again = cached_file_memory(&cache, "a.rs", "h1", "rust").unwrap();
    assert_eq!(again.symbols[0].name, "kept");
    assert!(!needs_recompute(&cache, "a.rs", "h1", "rust"));
    // Another hash, another language, no entry, no memory, no language.
    assert!(cached_file_memory(&cache, "a.rs", "h2", "rust").is_none());
    assert!(needs_recompute(&cache, "a.rs", "h2", "rust"));
    assert!(needs_recompute(&cache, "a.rs", "h1", "python"));
    assert!(needs_recompute(&cache, "b.rs", "h1", "rust"));
    assert!(needs_recompute(&cache, "old.rs", "h1", "rust"));
    assert!(needs_recompute(&cache, "bare.rs", "h1", "rust"));
    assert!(needs_recompute(&MetaCache::new(), "a.rs", "h1", "rust"));
}

#[test]
fn when_documents_are_made_again() {
    let project = ProjectManager::new("docs").new_project("demo", "/p");
    let mut cache = MetaCache::new();
    cache.insert("src/a.rs".to_string(), meta("h1", Some("rust"), None));
    assert_eq!(project.needs_generation("/p/src/a.rs", &cache, "h1", true, true).unwrap(), false);
    assert_eq!(project.needs_generation("src/a.rs", &cache, "h1", true, true).unwrap(), false);
    assert_eq!(project.needs_generation("src/a.rs", &cache, "h2", true, true).unwrap(), true);
    assert_eq!(project.needs_generation("src/a.rs", &cache, "h1", false, true).unwrap(), true);
    assert_eq!(project.needs_generation("src/a.rs", &cache, "h1", true, false).unwrap(), true);
    assert_eq!(project.needs_generation("src/b.rs", &cache, "h1", true, true).unwrap(), true);
    assert!(!any_needed(&vec![]));
    assert!(!any_needed(&vec![false, false]));
    assert!(any_needed(&vec![false, true, false]));
}

#[test]
fn a_run_replaces_entries_as_a_whole() {
    let mut cache = MetaCache::new();
    cache.insert("keep.rs".to_string(), meta("k", Some("rust"), Some("fn keep() {}\n")));
    cache.insert("a.rs".to_string(), meta("old", Some("python"), Some("def old(): pass\n")));
    let records = vec![
        record("a.rs", "rust", "h1", "fn first() {}\n"),
        record("b.rs", "go", "h2", "func b() {}\n"),
        record("a.rs", "rust", "h3", "fn second() {}\n"),
    ];
    update_meta_for_files(&mut cache, &records);
    let paths: Vec<&str> = cache.entries().iter().map(|e| e.path.as_str()).collect();
    assert_eq!(paths, vec!["a.rs", "b.rs", "keep.rs"]);
    let a = cache.get("a.rs").unwrap();
    assert_eq!(a.hash, "h3");
    assert_eq!(a.language.as_deref(), Some("rust"));
    assert_eq!(a.memory.as_ref().unwrap().symbols[0].name, "second");
    assert_eq!(cache.get("b.rs").unwrap().hash, "h2");
    assert_eq!(cache.get("keep.rs").unwrap().hash, "k");
}

#[test]
fn an_unchanged_file_keeps_its_cached_memory() {
    let mut cache = MetaCache::new();
    cache.insert("a.rs".to_string(), meta("h1", Some("rust"), Some("fn cached() {}\n")));
    // The file changed on disk in a way the hash does not show: the cached memory is used.
    let reused = cached_file_memory(&cache, "a.rs", "h1", "rust").unwrap();
    let records = vec![FileRecord {
        relative_path: "a.rs".to_string(),
        language: "rust".to_string(),
        hash: "h1".to_string(),
        memory: reused,
    }];
    update_meta_for_files(&mut cache, &records);
    let after = cache.get("a.rs").unwrap();
    assert_eq!(after.hash, "h1");
    assert_eq!(after.memory.as_ref().unwrap().symbols.len(), 1);
    assert_eq!(after.memory.as_ref().unwrap().symbols[0].name, "cached");
    // A new hash forces the memory to be worked out again.
    assert!(needs_recompute(&cache, "a.rs", "h2", "rust"));
}

#[test]
fn the_hash_of_a_content() {
    for content in [
        Vec::new(),
        b"fn main() {}\n".to_vec(),
        vec![0u8; 1000],
        "gr\u{fc}\u{df}e".as_bytes().to_vec(),
    ] {
        let mut hasher = std::collections::hash_map::DefaultHasher::new();
        content.hash(&mut hasher);
        assert_eq!(content_hash(&content), format!("{:x}", hasher.finish()));
    }
    assert_eq!(content_hash(&b"a".to_vec()), content_hash(&b"a".to_vec()));
    assert_ne!(content_hash(&b"fn a() {}".to_vec()), content_hash(&b"fn b() {}".to_vec()));
}

#[test]
fn numbers_in_hexadecimal() {
    for n in [0u64, 9, 10, 15, 16, 255, 256, 0xdead_beef, u64::MAX, 1 << 63, 0x0123_4567_89ab_cdef] {
        let shown: String = to_hexadecimal(n).into_iter().collect();
        assert_eq!(shown, format!("{:x}", n));
    }
}

#[test]
fn the_hash_of_a_file_is_written_into_the_cache() {
    let project = ProjectManager::new("docs").new_project("demo", "/work/demo");
    let mut cache = MetaCache::new();
    cache.insert("src/b.rs".to_string(), meta("old", Some("rust"), Some("fn b() {}")));
    project.update_file_meta("/work/demo/src/a.rs", "abc", &mut cache).unwrap();
    project.update_file_meta("src/b.rs", "def", &mut cache).unwrap();
    assert_eq!(cache.entries().len(), 2);
    let a = cache.get("src/a.rs").unwrap();
    assert_eq!(a.hash, "abc");
    assert!(a.language.is_none() && a.memory.is_none());
    let b = cache.get("src/b.rs").unwrap();
    assert_eq!(b.hash, "def");
    assert!(b.language.is_none() && b.memory.is_none());

    match project.update_file_meta("/elsewhere/c.rs", "x", &mut cache) {
        Err(PlainSightError::PathOutsideProject { path, project_root }) => {
            assert_eq!(path, "/elsewhere/c.rs");
            assert_eq!(project_root, "/work/demo");
        }
        other => panic!("{other:?}"),
    }
    assert_eq!(cache.entries().len(), 2);
}

#[test]
fn a_cache_that_is_not_stored_starts_empty() {
    let project = ProjectManager::new("docs").new_project("demo", "/work/demo");
    let (cache, write) = project.ensure_meta_exists(None);
    assert!(write);
    assert!(cache.entries().is_empty());
    assert!(cache.get("src/a.rs").is_none());

    let mut stored = MetaCache::new();
    stored.insert("src/a.rs".to_string(), meta("abc", Some("rust"), None));
    let (cache, write) = project.ensure_meta_exists(Some(stored));
    assert!(!write);
    assert_eq!(cache.entries().len(), 1);
    assert_eq!(cache.get("src/a.rs").unwrap().hash, "abc");
}
