use plainsight::memory::relevance::{choose_indices, RelevanceScorer};
use plainsight::memory::scoring::{damp, log10_fixed_of, LOG_UNIT};
use plainsight::memory::{
    build_file_memory, build_project_memory, get_relevant_memory_for_file, CrossFileLink,
    FileMemory, GlobalSymbol, OpenItem, ProjectMemory, SmartMemory,
};

fn global(name: &str, kind: &str, files: &[&str]) -> GlobalSymbol {
    GlobalSymbol {
        name: name.to_string(),
        kind: kind.to_string(),
        defined_in: files.iter().map(|f| f.to_string()).collect(),
    }
}

fn item(symbol: &str, files: &[&str]) -> OpenItem {
    OpenItem {
        kind: "kind_conflict".to_string(),
        symbol: symbol.to_string(),
        message: String::new(),
        files: files.iter().map(|f| f.to_string()).collect(),
    }
}

fn link(from: &str, symbol: &str, to: &str) -> CrossFileLink {
    CrossFileLink {
        from_file: from.to_string(),
        to_file: to.to_string(),
        symbol: symbol.to_string(),
        reason: "import".to_string(),
    }
}

fn project(files: Vec<FileMemory>) -> ProjectMemory {
    build_project_memory(&files)
}

fn bare(files: Vec<FileMemory>, symbols: Vec<GlobalSymbol>, items: Vec<OpenItem>, links: Vec<CrossFileLink>) -> ProjectMemory {
    ProjectMemory {
        file_count: files.len(),
        unique_symbol_count: symbols.len(),
        files,
        global_symbols: symbols,
        open_items: items,
        links,
    }
}

#[test]
fn logarithm_in_fixed_point() {
    let unit = (1u64 << 30) as f64;
    assert_eq!(LOG_UNIT, 1 << 30);
    // Powers of ten have a whole logarithm.
    assert_eq!(log10_fixed_of(0), 0);
    let mut power: usize = 1;
    for e in 0..19u128 {
        assert_eq!(log10_fixed_of(power), e * LOG_UNIT, "10^{}", e);
        power *= 10;
    }
    // Elsewhere it is the logarithm to eight places, never above it.
    let numbers = (1..=5000usize).chain([
        9_999,
        12_345,
        99_999,
        100_001,
        123_456_789,
        999_999_999_999,
        usize::MAX / 3,
        usize::MAX,
    ]);
    for n in numbers {
        let found = log10_fixed_of(n) as f64 / unit;
        let exact = (n as f64).log10();
        assert!(found <= exact + 1e-12, "n = {}: {} above {}", n, found, exact);
        assert!(exact - found < 1e-8, "n = {}: {} below {}", n, found, exact);
    }
    // It grows with the number.
    let mut before = 0;
    for n in 1..=2000usize {
        let now = log10_fixed_of(n);
        assert!(now > before || n == 1, "n = {}", n);
        before = now;
    }
    // Some values, rounded to thousandths: log10(2) = 0.30103, log10(3) = 0.47712.
    assert_eq!(log10_fixed_of(2) * 100_000 / LOG_UNIT, 30_102);
    assert_eq!(log10_fixed_of(3) * 100_000 / LOG_UNIT, 47_712);
    assert_eq!(log10_fixed_of(7) * 100_000 / LOG_UNIT, 84_509);
    assert_eq!(log10_fixed_of(2000) * 100_000 / LOG_UNIT, 330_102);
}

#[test]
fn damping_divides_by_one_plus_the_logarithm() {
    assert_eq!(damp(1100, 1), 1100);
    assert_eq!(damp(1000, 2), 768);
    assert_eq!(damp(300, 2), 230);
    assert_eq!(damp(600, 2), 461);
    assert_eq!(damp(1000, 3), 676);
    assert_eq!(damp(1000, 10), 500);
    assert_eq!(damp(1000, 100), 333);
    assert_eq!(damp(1000, 0), 0);
    assert_eq!(damp(0, 7), 0);
    for base in [1u128, 300, 1100, 1300, 2100, 45_000, 1_000_000_007] {
        for n in [1usize, 2, 3, 4, 5, 9, 11, 37, 99, 101, 999, 1001, 65_536] {
            let exact = base as f64 / (1.0 + (n as f64).log10());
            let found = damp(base, n) as f64;
            assert!((found - exact.floor()).abs() <= 1.0, "{} by {}: {} for {}", base, n, found, exact);
            assert!(found <= exact + 1e-6 * exact + 1e-9, "{} by {}", base, n);
        }
    }
}

#[test]
fn a_finer_logarithm_keeps_the_order_of_close_scores() {
    // Declared in three files, one of them the target: 1000 + 300 points.
    let three = damp(1300, 3);
    // Imported by the target and declared in two files below its directory: 800 + 400 points.
    let two = damp(1200, 2);
    assert_eq!(three, 880);
    assert_eq!(two, 922);
    assert!(two > three);
    assert_eq!((1300.0 / (1.0 + 3f64.log10())).floor() as u128, three);
    assert_eq!((1200.0 / (1.0 + 2f64.log10())).floor() as u128, two);
}

#[test]
fn scores_of_the_two_file_project() {
    let memory = project(vec![
        build_file_memory("a/foo.rs", "rust", "pub struct Config {\n}\n"),
        build_file_memory("a/bar.rs", "rust", "use foo::Config;\n"),
    ]);
    let smart = SmartMemory::new(memory.clone());
    let scorer = RelevanceScorer::new(&smart, "a/bar.rs");
    // The import matches (800) and the defining file lies in the same directory (300).
    assert_eq!(scorer.score_symbol(&memory.global_symbols[0]), 1100);
    // The target is the link's source (1000), imports its symbol (700), same directory (300).
    assert_eq!(scorer.score_link(&memory.links[0]), 2000);

    let relevant = smart.get_relevant_memory_for_file("a/bar.rs");
    assert_eq!(relevant.file_count, 2);
    assert_eq!(relevant.unique_symbol_count, 1);
    assert_eq!(relevant.global_symbols.len(), 1);
    assert_eq!(relevant.global_symbols[0].name, "Config");
    assert_eq!(relevant.global_symbols[0].defined_in, vec!["a/foo.rs"]);
    assert_eq!(relevant.links.len(), 1);
    assert_eq!(relevant.links[0].from_file, "a/bar.rs");
    assert_eq!(relevant.links[0].to_file, "a/foo.rs");
    assert_eq!(relevant.links[0].symbol, "Config");
    assert_eq!(relevant.links[0].reason, "import");
    assert!(relevant.open_items.is_empty());

    // For the defining file: it declares the symbol (1000) and lies in its own directory (300).
    let scorer = RelevanceScorer::new(&smart, "a/foo.rs");
    assert_eq!(scorer.score_symbol(&memory.global_symbols[0]), 1300);
    assert_eq!(scorer.score_link(&memory.links[0]), 1300);
    // For a file elsewhere nothing counts.
    let scorer = RelevanceScorer::new(&smart, "b/else.rs");
    assert_eq!(scorer.score_symbol(&memory.global_symbols[0]), 0);
    assert_eq!(scorer.score_link(&memory.links[0]), 0);
    let relevant = get_relevant_memory_for_file(&memory, "b/else.rs");
    assert!(relevant.global_symbols.is_empty());
    assert!(relevant.links.is_empty());
}

#[test]
fn points_for_symbols() {
    let files = vec![build_file_memory("src/app/main.rs", "rust", "use x::Wanted;\n")];
    let smart = SmartMemory::new(bare(files, vec![], vec![], vec![]));
    let scorer = RelevanceScorer::new(&smart, "src/app/main.rs");
    // Declared by the target, in its directory: 1000 + 300.
    assert_eq!(scorer.score_symbol(&global("a", "fn", &["src/app/main.rs"])), 1300);
    // Imported by the target, declared far away: 800.
    assert_eq!(scorer.score_symbol(&global("Wanted", "fn", &["lib/w.rs"])), 800);
    // Declared below the target's directory: 200; beside it: 300; above it: nothing.
    assert_eq!(scorer.score_symbol(&global("a", "fn", &["src/app/sub/x.rs"])), 200);
    assert_eq!(scorer.score_symbol(&global("a", "fn", &["src/app/x.rs"])), 300);
    assert_eq!(scorer.score_symbol(&global("a", "fn", &["src/x.rs"])), 0);
    assert_eq!(scorer.score_symbol(&global("a", "fn", &["src/application/x.rs"])), 0);
    // Two files: (300 + 200) / 1.30103, three files beside it: 900 / 1.47712.
    assert_eq!(scorer.score_symbol(&global("a", "fn", &["src/app/x.rs", "src/app/sub/y.rs"])), 384);
    assert_eq!(scorer.score_symbol(&global("a", "fn", &["src/app/x.rs", "src/app/y.rs", "src/app/z.rs"])), 609);
    // One file beside it and one far away: 300 / 1.30103 falls below the threshold.
    assert_eq!(scorer.score_symbol(&global("a", "fn", &["src/app/x.rs", "lib/y.rs"])), 230);
    assert_eq!(scorer.score_symbol(&global("a", "fn", &[])), 0);

    // A target at the top of the project: every directory lies in or below its directory.
    let scorer = RelevanceScorer::new(&smart, "main.rs");
    assert_eq!(scorer.score_symbol(&global("a", "fn", &["lib.rs"])), 300);
    assert_eq!(scorer.score_symbol(&global("a", "fn", &["deep/down/x.rs"])), 200);
}

#[test]
fn points_for_open_items_and_links() {
    let files = vec![build_file_memory("pkg/mod.py", "python", "from lib import Thing\n")];
    let smart = SmartMemory::new(bare(files, vec![], vec![], vec![]));
    let scorer = RelevanceScorer::new(&smart, "pkg/mod.py");
    assert_eq!(scorer.score_open_item(&item("x", &["pkg/mod.py", "other/a.py"])), 1400);
    assert_eq!(scorer.score_open_item(&item("Thing", &["other/a.py"])), 600);
    assert_eq!(scorer.score_open_item(&item("x", &["pkg/a.py", "pkg/sub/b.py", "pkg/c.py"])), 1000);
    assert_eq!(scorer.score_open_item(&item("x", &["pkg/sub/b.py"])), 200);
    assert_eq!(scorer.score_open_item(&item("x", &[])), 0);

    assert_eq!(scorer.score_link(&link("pkg/mod.py", "x", "far/a.py")), 1300);
    assert_eq!(scorer.score_link(&link("far/a.py", "x", "pkg/mod.py")), 1300);
    assert_eq!(scorer.score_link(&link("far/a.py", "Thing", "far/b.py")), 700);
    assert_eq!(scorer.score_link(&link("pkg/a.py", "x", "pkg/sub/b.py")), 300);
    assert_eq!(scorer.score_link(&link("pkg/sub/a.py", "x", "far/b.py")), 150);
    assert_eq!(scorer.score_link(&link("far/a.py", "x", "far/b.py")), 0);
}

#[test]
fn the_last_file_of_a_path_says_what_is_imported() {
    let files = vec![
        build_file_memory("d/m.rs", "rust", "use a::First;\n"),
        build_file_memory("d/m.rs", "rust", "use a::Second;\n"),
    ];
    let smart = SmartMemory::new(bare(files, vec![], vec![], vec![]));
    let scorer = RelevanceScorer::new(&smart, "d/m.rs");
    assert_eq!(scorer.score_symbol(&global("Second", "fn", &["x/y.rs"])), 800);
    assert_eq!(scorer.score_symbol(&global("First", "fn", &["x/y.rs"])), 0);
}

#[test]
fn a_declared_and_imported_symbol_outscores_a_neighbour() {
    let files = vec![
        build_file_memory("src/own.rs", "rust", "use m::Sym;\nstruct Sym;\n"),
        build_file_memory("src/near.rs", "rust", "fn Sym() {}\n"),
    ];
    let memory = project(files);
    let smart = SmartMemory::new(memory.clone());
    let scorer = RelevanceScorer::new(&smart, "src/own.rs");
    let own = memory.global_symbols.iter().find(|g| g.kind == "struct").unwrap();
    let near = global("Other", "function", &["src/near.rs"]);
    assert_eq!(scorer.score_symbol(own), 2100);
    assert_eq!(scorer.score_symbol(&near), 300);
    assert!(scorer.score_symbol(own) > scorer.score_symbol(&near));
}

#[test]
fn choosing_keeps_the_best_in_order() {
    assert_eq!(choose_indices(&vec![], 5), Vec::<usize>::new());
    assert_eq!(choose_indices(&vec![299, 300, 301], 5), vec![2, 1]);
    assert_eq!(choose_indices(&vec![500, 900, 500, 100, 900, 300], 10), vec![1, 4, 0, 2, 5]);
    assert_eq!(choose_indices(&vec![500, 900, 500, 100, 900, 300], 3), vec![1, 4, 0]);
    assert_eq!(choose_indices(&vec![500, 900], 0), Vec::<usize>::new());
    assert_eq!(choose_indices(&vec![0, 0, 0], 2), Vec::<usize>::new());
}

#[test]
fn what_is_chosen_is_capped_and_ordered() {
    let mut symbols = Vec::new();
    let mut items = Vec::new();
    let mut links = Vec::new();
    for i in 0..60 {
        // Even entries lie beside the target, odd ones below it.
        let dir = if i % 2 == 0 { "src" } else { "src/sub" };
        symbols.push(global(&format!("s{:02}", i), "fn", &[&format!("{}/f{}.rs", dir, i)]));
        items.push(item(&format!("i{:02}", i), &[&format!("{}/f{}.rs", dir, i)]));
        links.push(link(&format!("{}/f{}.rs", dir, i), "x", "far/away.rs"));
    }
    let memory = bare(vec![], symbols, items, links);
    let relevant = get_relevant_memory_for_file(&memory, "src/target.rs");
    assert_eq!(relevant.file_count, 0);
    assert_eq!(relevant.unique_symbol_count, 60);
    // Symbols: 300 for the 30 beside the target; 200 is below the threshold.
    let names: Vec<String> = relevant.global_symbols.iter().map(|s| s.name.clone()).collect();
    let expected: Vec<String> = (0..30).map(|i| format!("s{:02}", 2 * i)).collect();
    assert_eq!(names, expected);
    // Items: 400 beside, 200 below: the first ten beside.
    let names: Vec<String> = relevant.open_items.iter().map(|s| s.symbol.clone()).collect();
    let expected: Vec<String> = (0..10).map(|i| format!("i{:02}", 2 * i)).collect();
    assert_eq!(names, expected);
    // Links: 300 beside, 150 below: the first twenty beside.
    let froms: Vec<String> = relevant.links.iter().map(|s| s.from_file.clone()).collect();
    let expected: Vec<String> = (0..20).map(|i| format!("src/f{}.rs", 2 * i)).collect();
    assert_eq!(froms, expected);
}

#[test]
fn forty_symbols_at_most() {
    let mut symbols = Vec::new();
    for i in 0..100 {
        let file = if i >= 50 { "src/target.rs".to_string() } else { format!("src/f{}.rs", i) };
        symbols.push(global(&format!("s{:03}", i), "fn", &[&file]));
    }
    let memory = bare(vec![], symbols, vec![], vec![]);
    let relevant = get_relevant_memory_for_file(&memory, "src/target.rs");
    let names: Vec<String> = relevant.global_symbols.iter().map(|s| s.name.clone()).collect();
    let expected: Vec<String> = (50..90).map(|i| format!("s{:03}", i)).collect();
    assert_eq!(names, expected);
}

#[test]
fn asking_twice_gives_the_same() {
    let memory = project(vec![
        build_file_memory("a/foo.rs", "rust", "pub struct Config;\nfn helper() {}\n"),
        build_file_memory("a/bar.rs", "rust", "use foo::Config;\nfn helper() {}\n"),
        build_file_memory("b/baz.py", "python", "class Config:\n    pass\n"),
    ]);
    let smart = SmartMemory::new(memory);
    let describe = |r: plainsight::memory::RelevantMemory| {
        (
            r.global_symbols.iter().map(|s| (s.name.clone(), s.kind.clone())).collect::<Vec<_>>(),
            r.open_items.iter().map(|s| s.symbol.clone()).collect::<Vec<_>>(),
            r.links.iter().map(|s| (s.from_file.clone(), s.to_file.clone())).collect::<Vec<_>>(),
        )
    };
    let first = describe(smart.get_relevant_memory_for_file("a/bar.rs"));
    let second = describe(smart.get_relevant_memory_for_file("a/bar.rs"));
    assert_eq!(first, second);
    assert_eq!(
        first.0,
        vec![
            ("helper".to_string(), "function".to_string()),
            ("Config".to_string(), "struct".to_string()),
            ("Config".to_string(), "class".to_string()),
        ]
    );
    assert_eq!(first.1, vec!["Config".to_string()]);
}
