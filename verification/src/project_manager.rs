//! Where a project's documents lie, and what is already known of its files.
//!
//! Paths are text with `/` between their components. The cache of file
//! metadata holds, for each project-relative path, the hash of the file's
//! content at the time its memory was worked out, the language, and the
//! memory. A file's memory is worked out again when its hash or language is
//! no longer what the cache holds.

use crate::error::{ErrorModel, PlainSightError};
use crate::memory::paths::{components, is_subdirectory, is_under, path_components};
use crate::memory::types::{FileMemory, FileModel};
use crate::order::{compare, increasing, keys_of, lemma_increasing_distinct, lemma_record_rank_step, slot, upsert, Keyed, Rank};
use crate::split::{join_range, joined, rows};
use crate::text::{chars_of, ends_with, has_prefix, has_suffix, hexadecimal, push_chars, same_text, starts_with, string_of, to_hexadecimal};
use vstd::prelude::*;
use vstd::std_specs::hash::DefaultHasherAdditionalSpecFns;

verus! {

// ---------------------------------------------------------------------------
// Paths
// ---------------------------------------------------------------------------

/// `part` appended to the path `base`. A part that begins with `/` stands
/// for itself.
pub open spec fn joined_path(base: Seq<char>, part: Seq<char>) -> Seq<char> {
    if has_prefix(part, "/"@) || base.len() == 0 {
        part
    } else if has_suffix(base, "/"@) {
        base + part
    } else {
        base + "/"@ + part
    }
}

pub fn join_path(base: &str, part: &str) -> (r: String)
    ensures
        r@ == joined_path(base@, part@),
{
    let b = chars_of(base);
    let p = chars_of(part);
    let slash = chars_of("/");
    if starts_with(p.as_slice(), slash.as_slice()) || b.len() == 0 {
        return string_of(p.as_slice());
    }
    let mut out = b;
    if !ends_with(out.as_slice(), slash.as_slice()) {
        push_chars(&mut out, slash.as_slice());
    }
    push_chars(&mut out, p.as_slice());
    string_of(out.as_slice())
}

/// The path of a file as it lies in the project: the file's path itself if
/// it begins with `/`, else the file's path appended to the project's root.
pub open spec fn absolute_path(root: Seq<char>, file: Seq<char>) -> Seq<char> {
    if has_prefix(file, "/"@) {
        file
    } else {
        joined_path(root, file)
    }
}

/// The path of a file from the project's root on, if it lies below the root.
pub open spec fn relative_path(root: Seq<char>, file: Seq<char>) -> Option<Seq<char>> {
    let whole = components(absolute_path(root, file));
    let base = components(root);
    if is_under(whole, base) {
        Some(joined(whole.skip(base.len() as int), "/"@))
    } else {
        None
    }
}

/// Makes contexts for the projects whose documents lie below one directory.
#[derive(Debug)]
pub struct ProjectManager {
    docs_root: String,
}

/// A project: where its sources and its documents lie.
#[derive(Debug)]
pub struct ProjectContext {
    docs_root: String,
    project_name: String,
    project_root: String,
}

impl ProjectManager {
    pub closed spec fn docs_root(&self) -> Seq<char> {
        self.docs_root@
    }

    pub fn new(docs_root: &str) -> (manager: ProjectManager)
        ensures
            manager.docs_root() == docs_root@,
    {
        ProjectManager { docs_root: string_of(chars_of(docs_root).as_slice()) }
    }

    pub fn new_project(&self, project_name: &str, project_root: &str) -> (project: ProjectContext)
        ensures
            project.docs_root() == self.docs_root(),
            project.name() == project_name@,
            project.root() == project_root@,
    {
        ProjectContext {
            docs_root: self.docs_root.clone(),
            project_name: string_of(chars_of(project_name).as_slice()),
            project_root: string_of(chars_of(project_root).as_slice()),
        }
    }
}

impl ProjectContext {
    pub closed spec fn docs_root(&self) -> Seq<char> {
        self.docs_root@
    }

    pub closed spec fn name(&self) -> Seq<char> {
        self.project_name@
    }

    pub closed spec fn root(&self) -> Seq<char> {
        self.project_root@
    }

    /// Where the documents of the project lie.
    pub open spec fn docs_path(&self) -> Seq<char> {
        joined_path(self.docs_root(), self.name())
    }

    /// Where the documents of the project's files lie.
    pub open spec fn files_root(&self) -> Seq<char> {
        joined_path(self.docs_path(), "files"@)
    }

    /// Where the documents of one file lie, if the file lies in the project.
    pub open spec fn docs_dir_of(&self, file: Seq<char>) -> Option<Seq<char>> {
        match relative_path(self.root(), file) {
            Some(relative) => Some(joined_path(self.files_root(), relative)),
            None => None,
        }
    }

    pub fn project_docs_path(&self) -> (path: String)
        ensures
            path@ == self.docs_path(),
    {
        join_path(self.docs_root.as_str(), self.project_name.as_str())
    }

    pub fn files_root_path(&self) -> (path: String)
        ensures
            path@ == self.files_root(),
    {
        join_path(self.project_docs_path().as_str(), "files")
    }

    pub fn summary_path(&self) -> (path: String)
        ensures
            path@ == joined_path(self.docs_path(), "summary.md"@),
    {
        join_path(self.project_docs_path().as_str(), "summary.md")
    }

    pub fn architecture_path(&self) -> (path: String)
        ensures
            path@ == joined_path(self.docs_path(), "architecture.md"@),
    {
        join_path(self.project_docs_path().as_str(), "architecture.md")
    }

    pub fn meta_path(&self) -> (path: String)
        ensures
            path@ == joined_path(self.root(), ".meta.json"@),
    {
        join_path(self.project_root.as_str(), ".meta.json")
    }

    /// The path of a file from the project's root on. A file that does not
    /// lie below the root is refused.
    pub fn relative_file_path(&self, file_path: &str) -> (r: Result<String, PlainSightError>)
        ensures
            match r {
                Ok(path) => relative_path(self.root(), file_path@) == Some(path@),
                Err(error) => relative_path(self.root(), file_path@) is None && error@ == (
                ErrorModel::PathOutsideProject {
                    path: absolute_path(self.root(), file_path@),
                    project_root: self.root(),
                }),
            },
    {
        let slash = chars_of("/");
        let absolute = if starts_with(chars_of(file_path).as_slice(), slash.as_slice()) {
            string_of(chars_of(file_path).as_slice())
        } else {
            join_path(self.project_root.as_str(), file_path)
        };
        let whole = path_components(chars_of(absolute.as_str()).as_slice());
        let base = path_components(chars_of(self.project_root.as_str()).as_slice());
        assert(rows(whole@).len() == whole@.len());
        assert(rows(base@).len() == base@.len());
        if is_subdirectory(&whole, &base) {
            let rest = join_range(&whole, base.len(), whole.len(), slash.as_slice());
            proof {
                assert(rows(whole@).subrange(base@.len() as int, whole@.len() as int) =~= rows(
                    whole@,
                ).skip(base@.len() as int));
            }
            Ok(string_of(rest.as_slice()))
        } else {
            Err(
                PlainSightError::PathOutsideProject {
                    path: absolute,
                    project_root: self.project_root.clone(),
                },
            )
        }
    }

    pub fn file_docs_dir(&self, file_path: &str) -> (r: Result<String, PlainSightError>)
        ensures
            match r {
                Ok(path) => self.docs_dir_of(file_path@) == Some(path@),
                Err(error) => self.docs_dir_of(file_path@) is None && error@ == (
                ErrorModel::PathOutsideProject {
                    path: absolute_path(self.root(), file_path@),
                    project_root: self.root(),
                }),
            },
    {
        match self.relative_file_path(file_path) {
            Ok(relative) => Ok(join_path(self.files_root_path().as_str(), relative.as_str())),
            Err(error) => Err(error),
        }
    }

    pub fn file_summary_path(&self, file_path: &str) -> (r: Result<String, PlainSightError>)
        ensures
            match r {
                Ok(path) => self.docs_dir_of(file_path@) is Some && path@ == joined_path(
                    self.docs_dir_of(file_path@)->0,
                    "summary.md"@,
                ),
                Err(error) => self.docs_dir_of(file_path@) is None && error@ == (
                ErrorModel::PathOutsideProject {
                    path: absolute_path(self.root(), file_path@),
                    project_root: self.root(),
                }),
            },
    {
        match self.file_docs_dir(file_path) {
            Ok(dir) => Ok(join_path(dir.as_str(), "summary.md")),
            Err(error) => Err(error),
        }
    }

    pub fn file_docs_path(&self, file_path: &str) -> (r: Result<String, PlainSightError>)
        ensures
            match r {
                Ok(path) => self.docs_dir_of(file_path@) is Some && path@ == joined_path(
                    self.docs_dir_of(file_path@)->0,
                    "docs.md"@,
                ),
                Err(error) => self.docs_dir_of(file_path@) is None && error@ == (
                ErrorModel::PathOutsideProject {
                    path: absolute_path(self.root(), file_path@),
                    project_root: self.root(),
                }),
            },
    {
        match self.file_docs_dir(file_path) {
            Ok(dir) => Ok(join_path(dir.as_str(), "docs.md")),
            Err(error) => Err(error),
        }
    }

    /// Whether the documents of a file have to be made again: its hash is
    /// not the cached one, or one of its documents is missing.
    pub fn needs_generation(
        &self,
        file_path: &str,
        meta: &MetaCache,
        hash: &str,
        summary_exists: bool,
        docs_exists: bool,
    ) -> (r: Result<bool, PlainSightError>)
        ensures
            match r {
                Ok(needed) => relative_path(self.root(), file_path@) is Some && needed == (
                cached_hash(meta, relative_path(self.root(), file_path@)->0) != Some(hash@)
                    || !summary_exists || !docs_exists),
                Err(error) => relative_path(self.root(), file_path@) is None && error@ == (
                ErrorModel::PathOutsideProject {
                    path: absolute_path(self.root(), file_path@),
                    project_root: self.root(),
                }),
            },
    {
        match self.relative_file_path(file_path) {
            Ok(key) => {
                let same = match meta.get(key.as_str()) {
                    Some(cached) => same_text(cached.hash.as_str(), hash),
                    None => false,
                };
                Ok(!same || !summary_exists || !docs_exists)
            },
            Err(error) => Err(error),
        }
    }

    /// Writes the hash of a file into the cache, in place of whatever the
    /// cache holds for the file. A file that does not lie below the
    /// project's root is refused, and the cache stays as it is.
    pub fn update_file_meta(&self, file_path: &str, hash: &str, meta: &mut MetaCache) -> (r: Result<
        (),
        PlainSightError,
    >)
        ensures
            match r {
                Ok(_) => relative_path(self.root(), file_path@) is Some && final(meta).lookup(
                    relative_path(self.root(), file_path@)->0,
                ) == Some(MetaModel { hash: hash@, language: None, memory: None }) && forall|
                    other: Seq<char>,
                |
                    other != relative_path(self.root(), file_path@)->0 ==> final(meta).lookup(other)
                        == old(meta).lookup(other),
                Err(error) => relative_path(self.root(), file_path@) is None && *final(meta)
                    == *old(meta) && error@ == (ErrorModel::PathOutsideProject {
                    path: absolute_path(self.root(), file_path@),
                    project_root: self.root(),
                }),
            },
    {
        match self.relative_file_path(file_path) {
            Ok(key) => {
                meta.insert(
                    key,
                    FileMeta {
                        hash: string_of(chars_of(hash).as_slice()),
                        language: None,
                        memory: None,
                    },
                );
                Ok(())
            },
            Err(error) => Err(error),
        }
    }

    /// The cache to work with, given the one that is stored, if any, and
    /// whether it has to be written: where none is stored, the cache is one
    /// that knows of no file, and it is to be written.
    pub fn ensure_meta_exists(&self, stored: Option<MetaCache>) -> (r: (MetaCache, bool))
        ensures
            match stored {
                Some(cache) => r.0 == cache && !r.1,
                None => r.0.count() == 0 && r.1 && forall|path: Seq<char>|
                    r.0.lookup(path) is None,
            },
    {
        match stored {
            Some(cache) => (cache, false),
            None => (MetaCache::new(), true),
        }
    }
}

// ---------------------------------------------------------------------------
// The cache
// ---------------------------------------------------------------------------

/// What is known of one file.
#[derive(Debug)]
pub struct FileMeta {
    pub hash: String,
    pub language: Option<String>,
    pub memory: Option<FileMemory>,
}

pub struct MetaModel {
    pub hash: Seq<char>,
    pub language: Option<Seq<char>>,
    pub memory: Option<FileModel>,
}

impl View for FileMeta {
    type V = MetaModel;

    open spec fn view(&self) -> MetaModel {
        MetaModel {
            hash: self.hash@,
            language: match self.language {
                Some(l) => Some(l@),
                None => None,
            },
            memory: match self.memory {
                Some(m) => Some(m@),
                None => None,
            },
        }
    }
}

impl Clone for FileMeta {
    fn clone(&self) -> (r: Self)
        ensures
            r@ == self@,
    {
        FileMeta {
            hash: self.hash.clone(),
            language: match &self.language {
                Some(l) => Some(l.clone()),
                None => None,
            },
            memory: match &self.memory {
                Some(m) => Some(m.clone()),
                None => None,
            },
        }
    }
}

/// What is known of the file at a path.
#[derive(Debug)]
pub struct MetaEntry {
    pub path: String,
    pub meta: FileMeta,
}

impl Keyed for MetaEntry {
    open spec fn key(&self) -> Seq<Seq<char>> {
        seq![self.path@]
    }

    fn relate(&self, other: &Self) -> (r: Rank) {
        proof {
            lemma_record_rank_step(self.key(), other.key());
            assert(self.key().drop_first() =~= other.key().drop_first());
        }
        compare(chars_of(self.path.as_str()).as_slice(), chars_of(other.path.as_str()).as_slice())
    }
}

/// What is known of the files of a project, by path. There is one entry
/// for a path at most, and the entries are in ascending order of path.
#[derive(Debug)]
pub struct MetaCache {
    entries: Vec<MetaEntry>,
}

impl MetaCache {
    #[verifier::type_invariant]
    spec fn well_formed(self) -> bool {
        increasing(keys_of(self.entries@))
    }

    /// The cache holds `meta` for `path`.
    pub closed spec fn holds(&self, path: Seq<char>, meta: MetaModel) -> bool {
        exists|i: int|
            0 <= i < self.entries@.len() && (#[trigger] self.entries@[i]).path@ == path
                && self.entries@[i].meta@ == meta
    }

    /// What the cache holds for `path`.
    pub open spec fn lookup(&self, path: Seq<char>) -> Option<MetaModel> {
        if exists|meta: MetaModel| self.holds(path, meta) {
            Some(choose|meta: MetaModel| self.holds(path, meta))
        } else {
            None
        }
    }

    /// The number of entries.
    pub closed spec fn count(&self) -> nat {
        self.entries@.len()
    }

    /// A cache that knows of no file.
    pub fn new() -> (cache: MetaCache)
        ensures
            cache.count() == 0,
            forall|path: Seq<char>| cache.lookup(path) is None,
    {
        MetaCache { entries: Vec::new() }
    }

    /// The entries, in ascending order of path.
    pub fn entries(&self) -> (entries: &Vec<MetaEntry>)
        ensures
            entries@.len() == self.count(),
            forall|i: int|
                0 <= i < entries@.len() ==> self.holds(
                    (#[trigger] entries@[i]).path@,
                    entries@[i].meta@,
                ),
    {
        &self.entries
    }

    proof fn lemma_one_meta(&self, path: Seq<char>, a: MetaModel, b: MetaModel)
        requires
            increasing(keys_of(self.entries@)),
            self.holds(path, a),
            self.holds(path, b),
        ensures
            a == b,
    {
        let i = choose|i: int|
            0 <= i < self.entries@.len() && (#[trigger] self.entries@[i]).path@ == path
                && self.entries@[i].meta@ == a;
        let j = choose|j: int|
            0 <= j < self.entries@.len() && (#[trigger] self.entries@[j]).path@ == path
                && self.entries@[j].meta@ == b;
        lemma_increasing_distinct(keys_of(self.entries@));
        assert(keys_of(self.entries@)[i] =~= keys_of(self.entries@)[j]);
    }

    /// What the cache holds for `path`.
    pub fn get(&self, path: &str) -> (r: Option<&FileMeta>)
        ensures
            match r {
                Some(meta) => self.lookup(path@) == Some(meta@),
                None => self.lookup(path@) is None,
            },
    {
        proof {
            use_type_invariant(self);
        }
        let probe = MetaEntry {
            path: string_of(chars_of(path).as_slice()),
            meta: FileMeta { hash: String::new(), language: None, memory: None },
        };
        let (at, found) = slot(&self.entries, &probe);
        if found {
            let entry = &self.entries[at];
            proof {
                assert(entry.key()[0] == probe.key()[0]);
                assert(self.holds(path@, entry.meta@));
                self.lemma_one_meta(path@, entry.meta@, self.lookup(path@)->0);
            }
            Some(&entry.meta)
        } else {
            proof {
                if exists|meta: MetaModel| self.holds(path@, meta) {
                    let meta = choose|meta: MetaModel| self.holds(path@, meta);
                    let i = choose|i: int|
                        0 <= i < self.entries@.len() && (#[trigger] self.entries@[i]).path@ == path@
                            && self.entries@[i].meta@ == meta;
                    assert(keys_of(self.entries@)[i] =~= probe.key());
                }
            }
            None
        }
    }

    /// Puts `meta` in place of whatever the cache holds for `path`.
    pub fn insert(&mut self, path: String, meta: FileMeta)
        ensures
            final(self).lookup(path@) == Some(meta@),
            forall|other: Seq<char>| other != path@ ==> final(self).lookup(other) == old(
                self,
            ).lookup(other),
    {
        proof {
            use_type_invariant(&*self);
        }
        let ghost before = self.entries@;
        let ghost p = path@;
        let ghost m = meta@;
        let entry = MetaEntry { path, meta };
        let mut taken = MetaCache { entries: Vec::new() };
        std::mem::swap(self, &mut taken);
        let MetaCache { entries } = taken;
        let mut entries = entries;
        upsert(&mut entries, entry);
        *self = MetaCache { entries };
        proof {
            let after = self.entries@;
            assert forall|q: Seq<char>, x: MetaModel|
                self.holds(q, x) <==> (if q == p {
                    x == m
                } else {
                    old(self).holds(q, x)
                }) by {
                if self.holds(q, x) {
                    let i = choose|i: int|
                        0 <= i < after.len() && (#[trigger] after[i]).path@ == q && after[i].meta@
                            == x;
                    assert(after.contains(after[i]));
                    if after[i] != entry {
                        assert(before.contains(after[i]));
                        let j = choose|j: int| 0 <= j < before.len() && before[j] == after[i];
                        assert(before[j].path@ == q && before[j].meta@ == x);
                        if q == p {
                            assert(after[i].key() =~= entry.key());
                        }
                    }
                }
                if q == p && x == m {
                    assert(after.contains(entry));
                    let i = choose|i: int| 0 <= i < after.len() && after[i] == entry;
                    assert(after[i].path@ == q && after[i].meta@ == x);
                }
                if q != p && old(self).holds(q, x) {
                    let j = choose|j: int|
                        0 <= j < before.len() && (#[trigger] before[j]).path@ == q
                            && before[j].meta@ == x;
                    assert(before.contains(before[j]));
                    assert(before[j].key()[0] != entry.key()[0]);
                    assert(after.contains(before[j]));
                    let i = choose|i: int| 0 <= i < after.len() && after[i] == before[j];
                    assert(after[i].path@ == q && after[i].meta@ == x);
                }
            }
            assert(self.holds(p, m));
            assert forall|other: Seq<char>| other != p implies self.lookup(other) == old(
                self,
            ).lookup(other) by {
                assert(forall|x: MetaModel|
                    self.holds(other, x) <==> old(self).holds(other, x));
                if exists|x: MetaModel| old(self).holds(other, x) {
                    let a = choose|x: MetaModel| old(self).holds(other, x);
                    let b = choose|x: MetaModel| self.holds(other, x);
                    assert(self.holds(other, a));
                    assert(old(self).holds(other, b));
                    old(self).lemma_one_meta(other, a, b);
                }
            }
            if exists|x: MetaModel| self.holds(p, x) {
                let b = choose|x: MetaModel| self.holds(p, x);
                assert(b == m);
            }
        }
    }
}

/// The hash that the cache holds for `path`.
pub open spec fn cached_hash(meta: &MetaCache, path: Seq<char>) -> Option<Seq<char>> {
    match meta.lookup(path) {
        Some(entry) => Some(entry.hash),
        None => None,
    }
}

/// The memory that can be used again for the file at `path` with the given
/// hash and language: the cached one, if the cache holds a memory for the
/// path with this very hash and language.
pub open spec fn reusable(
    meta: &MetaCache,
    path: Seq<char>,
    hash: Seq<char>,
    language: Seq<char>,
) -> Option<FileModel> {
    match meta.lookup(path) {
        Some(entry) => if entry.hash == hash && entry.language == Some(language) {
            entry.memory
        } else {
            None
        },
        None => None,
    }
}

/// The cached memory of a file, if it can be used again.
pub fn cached_file_memory(meta: &MetaCache, relative_path: &str, hash: &str, language: &str) -> (r:
    Option<FileMemory>)
    ensures
        match r {
            Some(memory) => reusable(meta, relative_path@, hash@, language@) == Some(memory@),
            None => reusable(meta, relative_path@, hash@, language@) is None,
        },
{
    match meta.get(relative_path) {
        Some(cached) => {
            if !same_text(cached.hash.as_str(), hash) {
                return None;
            }
            let same_language = match &cached.language {
                Some(l) => same_text(l.as_str(), language),
                None => false,
            };
            if !same_language {
                return None;
            }
            match &cached.memory {
                Some(memory) => Some(memory.clone()),
                None => None,
            }
        },
        None => None,
    }
}

/// Whether the memory of a file has to be worked out again: the cache has
/// no memory for its path, or one with another hash or another language.
pub fn needs_recompute(meta: &MetaCache, relative_path: &str, hash: &str, language: &str) -> (r:
    bool)
    ensures
        r == (reusable(meta, relative_path@, hash@, language@) is None),
        meta.lookup(relative_path@) is None ==> r,
        meta.lookup(relative_path@) is Some && meta.lookup(relative_path@)->0.hash != hash@ ==> r,
        meta.lookup(relative_path@) is Some && meta.lookup(relative_path@)->0.language != Some(
            language@,
        ) ==> r,
{
    cached_file_memory(meta, relative_path, hash, language).is_none()
}

/// Whether anything has to be made again: whether any file has to be.
pub fn any_needed(decisions: &Vec<bool>) -> (r: bool)
    ensures
        r == decisions@.contains(true),
{
    let mut i: usize = 0;
    while i < decisions.len()
        invariant
            i <= decisions.len(),
            forall|j: int| 0 <= j < i ==> !decisions@[j],
        decreases decisions.len() - i,
    {
        if decisions[i] {
            return true;
        }
        i += 1;
    }
    false
}

/// A file as it was read in this run.
#[derive(Debug)]
pub struct FileRecord {
    pub relative_path: String,
    pub language: String,
    pub hash: String,
    pub memory: FileMemory,
}

/// What the cache holds for a file after the run.
pub open spec fn record_meta(record: &FileRecord) -> MetaModel {
    MetaModel {
        hash: record.hash@,
        language: Some(record.language@),
        memory: Some(record.memory@),
    }
}

/// The last of the records with the given path, if there is one.
pub open spec fn last_record(records: Seq<FileRecord>, path: Seq<char>) -> Option<int>
    decreases records.len(),
{
    if records.len() == 0 {
        None
    } else if records.last().relative_path@ == path {
        Some(records.len() - 1)
    } else {
        last_record(records.drop_last(), path)
    }
}

/// Writes the files of this run into the cache. An entry is replaced as a
/// whole; what the cache holds for other paths stays.
pub fn update_meta_for_files(meta: &mut MetaCache, records: &Vec<FileRecord>)
    ensures
        forall|path: Seq<char>| #[trigger]
            final(meta).lookup(path) == (match last_record(records@, path) {
                Some(i) => Some(record_meta(&records@[i])),
                None => old(meta).lookup(path),
            }),
{
    let mut i: usize = 0;
    assert(records@.take(0) =~= Seq::<FileRecord>::empty());
    while i < records.len()
        invariant
            i <= records.len(),
            forall|path: Seq<char>| #[trigger]
                meta.lookup(path) == (match last_record(records@.take(i as int), path) {
                    Some(k) => Some(record_meta(&records@[k])),
                    None => old(meta).lookup(path),
                }),
        decreases records.len() - i,
    {
        let record = &records[i];
        let ghost before = *meta;
        meta.insert(
            record.relative_path.clone(),
            FileMeta {
                hash: record.hash.clone(),
                language: Some(record.language.clone()),
                memory: Some(record.memory.clone()),
            },
        );
        proof {
            let now = records@.take(i + 1);
            assert(now.drop_last() =~= records@.take(i as int));
            assert(now.last() == records@[i as int]);
            assert forall|path: Seq<char>| #[trigger]
                meta.lookup(path) == (match last_record(now, path) {
                    Some(k) => Some(record_meta(&records@[k])),
                    None => old(meta).lookup(path),
                }) by {
                if path != record.relative_path@ {
                    assert(meta.lookup(path) == before.lookup(path));
                }
            }
        }
        i += 1;
    }
    assert(records@.take(records.len() as int) =~= records@);
}

// ---------------------------------------------------------------------------
// What holds of the cache
// ---------------------------------------------------------------------------

/// A file whose hash and language are what the cache holds gets its cached
/// memory again, and writing the file back with that memory leaves the
/// cached memory as it was.
pub proof fn lemma_unchanged_file_keeps_memory(
    before: &MetaCache,
    after: &MetaCache,
    record: &FileRecord,
)
    requires
        reusable(before, record.relative_path@, record.hash@, record.language@) == Some(
            record.memory@,
        ),
        after.lookup(record.relative_path@) == Some(record_meta(record)),
    ensures
        after.lookup(record.relative_path@)->0.memory == before.lookup(
            record.relative_path@,
        )->0.memory,
        after.lookup(record.relative_path@) == before.lookup(record.relative_path@),
        reusable(after, record.relative_path@, record.hash@, record.language@) == Some(
            record.memory@,
        ),
{
}

/// A file whose hash is not the cached one has no memory to use again.
pub proof fn lemma_changed_hash_forces_recompute(
    meta: &MetaCache,
    path: Seq<char>,
    hash: Seq<char>,
    language: Seq<char>,
)
    requires
        cached_hash(meta, path) != Some(hash),
    ensures
        reusable(meta, path, hash, language) is None,
{
}

// ---------------------------------------------------------------------------
// The hash of a file
// ---------------------------------------------------------------------------

/// What the `Hash::hash` of a byte vector writes into a hasher: the
/// pieces, in the order in which they are written. It depends on the bytes
/// alone, for one build of the standard library and one kind of machine.
pub uninterp spec fn hash_writes(content: Seq<u8>) -> Seq<Seq<u8>>;

/// Feeds the bytes of a file to a hasher with the `Hash::hash` of a byte
/// vector: the hasher has then been written what `hash_writes` names,
/// after what it had been written before.
#[verifier::external_body]
fn feed(hasher: &mut std::collections::hash_map::DefaultHasher, content: &Vec<u8>)
    ensures
        final(hasher)@ == old(hasher)@ + hash_writes(content@),
{
    std::hash::Hash::hash(content, hasher)
}

/// The number that the hasher of the standard library makes of the
/// content of a file.
pub open spec fn digest(content: Seq<u8>) -> u64 {
    std::collections::hash_map::DefaultHasher::spec_finish(hash_writes(content))
}

/// The hash of a content: its digest in hexadecimal digits, in lower case.
pub open spec fn hash_text(content: Seq<u8>) -> Seq<char> {
    hexadecimal(digest(content) as nat)
}

/// The hash of the content of a file.
pub fn content_hash(content: &Vec<u8>) -> (hash: String)
    ensures
        hash@ == hash_text(content@),
{
    let mut hasher = std::collections::hash_map::DefaultHasher::new();
    feed(&mut hasher, content);
    assert(hasher@ =~= hash_writes(content@));
    let n = std::hash::Hasher::finish(&hasher);
    string_of(to_hexadecimal(n).as_slice())
}

/// A file whose content is what it was has the hash that it had, and with
/// it the memory that the cache holds under that hash.
pub proof fn lemma_same_content_same_hash(
    meta: &MetaCache,
    path: Seq<char>,
    language: Seq<char>,
    before: Seq<u8>,
    after: Seq<u8>,
)
    requires
        before == after,
    ensures
        hash_text(before) == hash_text(after),
        reusable(meta, path, hash_text(after), language) == reusable(
            meta,
            path,
            hash_text(before),
            language,
        ),
{
}

} // verus!
