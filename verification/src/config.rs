//! The settings of a run: which files of a project count as sources, and
//! how the language model is spoken to.

use crate::memory::file_memory::lits;
use crate::memory::types::{lemma_texts_push, texts};
use crate::ollama::config::{default_task, OllamaConfig};
use crate::ollama::task::Task;
use crate::text::{chars_of, string_of};
use vstd::prelude::*;

verus! {

/// The file extensions that mark a source file, and the directories that
/// are not looked into.
#[derive(Debug)]
pub struct SourceDiscoveryConfig {
    pub extensions: Vec<String>,
    pub exclude_directories: Vec<String>,
}

pub open spec fn default_extensions() -> Seq<Seq<char>> {
    seq![
        "rs"@,
        "py"@,
        "js"@,
        "jsx"@,
        "ts"@,
        "tsx"@,
        "go"@,
        "java"@,
        "kt"@,
        "c"@,
        "h"@,
        "cc"@,
        "cpp"@,
        "hpp"@,
        "cs"@,
    ]
}

pub open spec fn default_excluded() -> Seq<Seq<char>> {
    seq![".git"@, "target"@, "docs"@]
}

/// The literals as strings.
pub fn strings_of(list: &Vec<&'static str>) -> (r: Vec<String>)
    ensures
        texts(r@) == lits(list@),
{
    let mut out: Vec<String> = Vec::new();
    let mut i: usize = 0;
    assert(texts(out@) =~= lits(list@).take(0));
    while i < list.len()
        invariant
            i <= list.len(),
            texts(out@) == lits(list@).take(i as int),
        decreases list.len() - i,
    {
        let ghost before = out@;
        let s = string_of(chars_of(list[i]).as_slice());
        out.push(s);
        i += 1;
        proof {
            lemma_texts_push(before, s);
            assert(lits(list@).take(i as int) =~= lits(list@).take(i - 1).push(list@[i - 1]@));
        }
    }
    assert(lits(list@).take(list.len() as int) =~= lits(list@));
    out
}

impl Default for SourceDiscoveryConfig {
    fn default() -> (config: SourceDiscoveryConfig)
        ensures
            texts(config.extensions@) == default_extensions(),
            texts(config.exclude_directories@) == default_excluded(),
    {
        let extensions: Vec<&'static str> = vec![
            "rs",
            "py",
            "js",
            "jsx",
            "ts",
            "tsx",
            "go",
            "java",
            "kt",
            "c",
            "h",
            "cc",
            "cpp",
            "hpp",
            "cs",
        ];
        assert(lits(extensions@) =~= default_extensions());
        let excluded: Vec<&'static str> = vec![".git", "target", "docs"];
        assert(lits(excluded@) =~= default_excluded());
        SourceDiscoveryConfig {
            extensions: strings_of(&extensions),
            exclude_directories: strings_of(&excluded),
        }
    }
}

#[derive(Debug)]
pub struct PlainSightConfig {
    pub source_discovery: SourceDiscoveryConfig,
    pub ollama: OllamaConfig,
}

impl Default for PlainSightConfig {
    fn default() -> (config: PlainSightConfig)
        ensures
            texts(config.source_discovery.extensions@) == default_extensions(),
            texts(config.source_discovery.exclude_directories@) == default_excluded(),
            config.ollama.lock_timeout == 30,
            config.ollama.unload_timeout == 30,
            config.ollama.keep_alive_minutes == 30,
            forall|task: Task| #[trigger] config.ollama.tasks.of(task)@ == default_task(task),
    {
        PlainSightConfig {
            source_discovery: SourceDiscoveryConfig::default(),
            ollama: OllamaConfig::default(),
        }
    }
}

} // verus!
