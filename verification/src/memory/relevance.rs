//! Choosing, for one file, what of the project memory has most to do with
//! it: the entries are scored, those below the threshold are left out, and
//! of the rest the best are kept, in descending order of score; entries of
//! equal score keep the order they have in the project memory.

use crate::language::{language_from_chars, language_of};
use crate::memory::candidates::import_symbol_candidates;
use crate::memory::paths::{dir_of, is_subdirectory, is_under, parent_dir};
use crate::memory::project_memory::imported_in;
use crate::memory::scoring::{
    item_score, link_score, score_item_paths, score_link_paths, score_symbol_paths, symbol_score,
    RELEVANCE_THRESHOLD,
};
use crate::memory::types::{
    global_models, item_models, link_models, texts, CrossFileLink, FileModel, GlobalModel,
    GlobalSymbol, ItemModel, LinkModel, OpenItem, ProjectMemory, ProjectModel,
};
use crate::order::{as_nats, holds_text, is_ranking, outranks, rank_indices, ranking_of};
use crate::split::{lemma_rows_push, rows};
use crate::text::{chars_of, same_chars};
use vstd::prelude::*;

verus! {

/// At most this many symbols are chosen.
pub const MAX_RELEVANT_GLOBAL_SYMBOLS: usize = 40;

/// At most this many open items are chosen.
pub const MAX_RELEVANT_OPEN_ITEMS: usize = 10;

/// At most this many links are chosen.
pub const MAX_RELEVANT_LINKS: usize = 20;

/// What of a project's memory has to do with one file.
#[derive(Debug)]
pub struct RelevantMemory {
    pub file_count: usize,
    pub unique_symbol_count: usize,
    pub global_symbols: Vec<GlobalSymbol>,
    pub open_items: Vec<OpenItem>,
    pub links: Vec<CrossFileLink>,
}

pub struct RelevantModel {
    pub file_count: nat,
    pub unique_symbol_count: nat,
    pub global_symbols: Seq<GlobalModel>,
    pub open_items: Seq<ItemModel>,
    pub links: Seq<LinkModel>,
}

impl View for RelevantMemory {
    type V = RelevantModel;

    open spec fn view(&self) -> RelevantModel {
        RelevantModel {
            file_count: self.file_count as nat,
            unique_symbol_count: self.unique_symbol_count as nat,
            global_symbols: global_models(self.global_symbols@),
            open_items: item_models(self.open_items@),
            links: link_models(self.links@),
        }
    }
}

// ---------------------------------------------------------------------------
// What a file imports
// ---------------------------------------------------------------------------

/// File `f` is the last of the files with the path `target`.
pub open spec fn last_with_path(files: Seq<FileModel>, target: Seq<char>, f: int) -> bool {
    &&& 0 <= f < files.len()
    &&& files[f].path == target
    &&& forall|g: int| f < g < files.len() ==> (#[trigger] files[g]).path != target
}

/// The file at `target` has an import with `name` among its candidates. If
/// several files have that path, the last of them counts.
pub open spec fn target_imports(files: Seq<FileModel>, target: Seq<char>, name: Seq<char>) -> bool {
    exists|f: int| #[trigger]
        last_with_path(files, target, f) && imported_in(
            files[f].imports,
            language_of(files[f].language),
            files[f].imports.len() as int,
            name,
        )
}

/// The names that the imports of one file may bring in.
pub struct ImportSet {
    path: Vec<char>,
    names: Vec<Vec<char>>,
}

impl ImportSet {
    pub closed spec fn stands_for(&self, file: FileModel) -> bool {
        &&& self.path@ == file.path
        &&& forall|s: Seq<char>| #[trigger]
            rows(self.names@).contains(s) <==> imported_in(
                file.imports,
                language_of(file.language),
                file.imports.len() as int,
                s,
            )
    }
}

/// A project's memory together with the names that each file imports.
pub struct SmartMemory {
    project_memory: ProjectMemory,
    import_export_graph: Vec<ImportSet>,
}

// ---------------------------------------------------------------------------
// Choosing by score
// ---------------------------------------------------------------------------

/// How many entries are kept: those at the head of the ranking that reach
/// the threshold, up to `cap`.
pub open spec fn kept(scores: Seq<nat>, order: Seq<usize>, cap: nat, from: nat) -> nat
    decreases order.len() - from,
{
    if from < cap && from < order.len() && scores[order[from as int] as int]
        >= RELEVANCE_THRESHOLD {
        kept(scores, order, cap, from + 1)
    } else {
        from
    }
}

/// The indices of the entries that are chosen, best first.
pub open spec fn chosen_indices(scores: Seq<nat>, cap: nat) -> Seq<usize> {
    let order = ranking_of(scores);
    order.take(kept(scores, order, cap, 0) as int)
}

/// The entries at the given indices.
pub open spec fn picked<T>(entries: Seq<T>, indices: Seq<usize>) -> Seq<T> {
    Seq::new(indices.len(), |i: int| entries[indices[i] as int])
}

pub proof fn lemma_kept_bounds(scores: Seq<nat>, order: Seq<usize>, cap: nat, from: nat)
    requires
        from <= order.len(),
        from <= cap,
    ensures
        from <= kept(scores, order, cap, from) <= order.len(),
        kept(scores, order, cap, from) <= cap,
        forall|i: int|
            from <= i < kept(scores, order, cap, from) ==> scores[(#[trigger] order[i]) as int]
                >= RELEVANCE_THRESHOLD,
        kept(scores, order, cap, from) < cap && kept(scores, order, cap, from) < order.len()
            ==> scores[order[kept(scores, order, cap, from) as int] as int] < RELEVANCE_THRESHOLD,
    decreases order.len() - from,
{
    if from < cap && from < order.len() && scores[order[from as int] as int]
        >= RELEVANCE_THRESHOLD {
        lemma_kept_bounds(scores, order, cap, from + 1);
    }
}

/// What is chosen: at most `cap` entries, each of which reaches the
/// threshold, in descending order of score, entries of equal score in the
/// order of their indices. If fewer than `cap` are chosen, every entry
/// that reaches the threshold is among them; if `cap` are chosen, every
/// entry that is left out ranks after all that are chosen.
pub proof fn lemma_chosen(scores: Seq<nat>, cap: nat)
    requires
        scores.len() <= usize::MAX,
    ensures
        chosen_indices(scores, cap).len() <= cap,
        chosen_indices(scores, cap).len() <= scores.len(),
        forall|i: int|
            0 <= i < chosen_indices(scores, cap).len() ==> (#[trigger] chosen_indices(
                scores,
                cap,
            )[i]) < scores.len() && scores[chosen_indices(scores, cap)[i] as int]
                >= RELEVANCE_THRESHOLD,
        forall|i: int, j: int|
            0 <= i < j < chosen_indices(scores, cap).len() ==> outranks(
                scores,
                #[trigger] chosen_indices(scores, cap)[i] as int,
                #[trigger] chosen_indices(scores, cap)[j] as int,
            ),
        forall|x: usize|
            x < scores.len() && scores[x as int] >= RELEVANCE_THRESHOLD && !(
            #[trigger] chosen_indices(scores, cap).contains(x)) ==> chosen_indices(
                scores,
                cap,
            ).len() == cap && forall|i: int|
                0 <= i < cap ==> outranks(
                    scores,
                    #[trigger] chosen_indices(scores, cap)[i] as int,
                    x as int,
                ),
{
    crate::order::lemma_ranking_exists(scores);
    let order = ranking_of(scores);
    let n = kept(scores, order, cap, 0);
    lemma_kept_bounds(scores, order, cap, 0);
    let chosen = chosen_indices(scores, cap);
    assert forall|i: int| 0 <= i < chosen.len() implies (#[trigger] chosen[i]) < scores.len()
        && scores[chosen[i] as int] >= RELEVANCE_THRESHOLD by {
        assert(chosen[i] == order[i]);
    }
    assert forall|i: int, j: int| 0 <= i < j < chosen.len() implies outranks(
        scores,
        #[trigger] chosen[i] as int,
        #[trigger] chosen[j] as int,
    ) by {
        assert(chosen[i] == order[i] && chosen[j] == order[j]);
    }
    assert forall|x: usize|
        x < scores.len() && scores[x as int] >= RELEVANCE_THRESHOLD && !(#[trigger] chosen.contains(
            x,
        )) implies chosen.len() == cap && forall|i: int|
        0 <= i < cap ==> outranks(scores, #[trigger] chosen[i] as int, x as int) by {
        assert(order.contains(x));
        let at = choose|at: int| 0 <= at < order.len() && order[at] == x;
        if at < n {
            assert(chosen[at] == x);
        }
        if n < cap {
            // The entry at place `n` is below the threshold, and `x` ranks after it.
            assert(n < order.len());
            if at > n {
                assert(outranks(scores, order[n as int] as int, order[at] as int));
            }
        }
        assert forall|i: int| 0 <= i < cap implies outranks(
            scores,
            #[trigger] chosen[i] as int,
            x as int,
        ) by {
            assert(chosen[i] == order[i]);
            assert(outranks(scores, order[i] as int, order[at] as int));
        }
    }
}

/// The indices of the entries that reach the threshold, best first, up to
/// `cap` of them.
pub fn choose_indices(scores: &Vec<u128>, cap: usize) -> (r: Vec<usize>)
    ensures
        r@ == chosen_indices(as_nats(scores@), cap as nat),
        forall|i: int| 0 <= i < r@.len() ==> (#[trigger] r@[i]) < scores@.len(),
        r@.len() <= cap,
{
    let order = rank_indices(scores);
    let ghost nats = as_nats(scores@);
    let mut out: Vec<usize> = Vec::new();
    let mut i: usize = 0;
    assert(out@ =~= order@.take(0));
    while i < cap && i < order.len() && scores[order[i]] >= RELEVANCE_THRESHOLD
        invariant
            i <= cap,
            i <= order.len(),
            nats == as_nats(scores@),
            is_ranking(nats, order@),
            out@ == order@.take(i as int),
            kept(nats, order@, cap as nat, 0) == kept(nats, order@, cap as nat, i as nat),
        decreases order.len() - i,
    {
        out.push(order[i]);
        i += 1;
        assert(out@ =~= order@.take(i as int));
    }
    proof {
        if i < cap && i < order.len() {
            assert(nats[order@[i as int] as int] == scores@[order@[i as int] as int]);
        }
    }
    out
}

// ---------------------------------------------------------------------------
// What is relevant to a file
// ---------------------------------------------------------------------------

pub open spec fn symbol_scores(memory: ProjectModel, target: Seq<char>) -> Seq<nat> {
    Seq::new(
        memory.global_symbols.len(),
        |i: int|
            symbol_score(
                memory.global_symbols[i],
                target,
                target_imports(memory.files, target, memory.global_symbols[i].name),
            ),
    )
}

pub open spec fn item_scores(memory: ProjectModel, target: Seq<char>) -> Seq<nat> {
    Seq::new(
        memory.open_items.len(),
        |i: int|
            item_score(
                memory.open_items[i],
                target,
                target_imports(memory.files, target, memory.open_items[i].symbol),
            ),
    )
}

pub open spec fn link_scores(memory: ProjectModel, target: Seq<char>) -> Seq<nat> {
    Seq::new(
        memory.links.len(),
        |i: int|
            link_score(
                memory.links[i],
                target,
                target_imports(memory.files, target, memory.links[i].symbol),
            ),
    )
}

/// What of `memory` is relevant to the file at `target`.
pub open spec fn relevant_model(memory: ProjectModel, target: Seq<char>) -> RelevantModel {
    RelevantModel {
        file_count: memory.file_count,
        unique_symbol_count: memory.unique_symbol_count,
        global_symbols: picked(
            memory.global_symbols,
            chosen_indices(symbol_scores(memory, target), MAX_RELEVANT_GLOBAL_SYMBOLS as nat),
        ),
        open_items: picked(
            memory.open_items,
            chosen_indices(item_scores(memory, target), MAX_RELEVANT_OPEN_ITEMS as nat),
        ),
        links: picked(
            memory.links,
            chosen_indices(link_scores(memory, target), MAX_RELEVANT_LINKS as nat),
        ),
    }
}

/// Scores the entries of a project's memory for one file.
pub struct RelevanceScorer<'a> {
    smart_memory: &'a SmartMemory,
    target_file: Vec<char>,
    target_dir: Vec<Vec<char>>,
    import_set: Option<usize>,
}

impl SmartMemory {
    #[verifier::type_invariant]
    spec fn well_formed(self) -> bool {
        &&& self.import_export_graph@.len() == self.project_memory@.files.len()
        &&& forall|i: int|
            0 <= i < self.import_export_graph@.len() ==> (
            #[trigger] self.import_export_graph@[i]).stands_for(self.project_memory@.files[i])
    }

    /// The project memory that is held.
    pub closed spec fn memory(&self) -> ProjectModel {
        self.project_memory@
    }

    /// Takes a project's memory and works out what each of its files imports.
    pub fn new(project_memory: ProjectMemory) -> (smart: SmartMemory)
        ensures
            smart.memory() == project_memory@,
    {
        let mut graph: Vec<ImportSet> = Vec::new();
        let ghost files = project_memory@.files;
        let mut f: usize = 0;
        while f < project_memory.files.len()
            invariant
                f <= project_memory.files.len(),
                files == project_memory@.files,
                graph@.len() == f,
                forall|i: int| 0 <= i < f ==> (#[trigger] graph@[i]).stands_for(files[i]),
            decreases project_memory.files.len() - f,
        {
            let file = &project_memory.files[f];
            let language = language_from_chars(chars_of(file.language.as_str()).as_slice());
            let ghost imports = texts(file.imports@);
            let mut names: Vec<Vec<char>> = Vec::new();
            let mut m: usize = 0;
            assert(files[f as int] == file@);
            while m < file.imports.len()
                invariant
                    m <= file.imports.len(),
                    imports == texts(file.imports@),
                    language == language_of(file.language@),
                    forall|s: Seq<char>| #[trigger]
                        rows(names@).contains(s) <==> imported_in(imports, language, m as int, s),
                decreases file.imports.len() - m,
            {
                let cands = import_symbol_candidates(
                    chars_of(file.imports[m].as_str()).as_slice(),
                    language,
                );
                let ghost before = rows(names@);
                let ghost found = rows(cands@);
                let mut c: usize = 0;
                while c < cands.len()
                    invariant
                        c <= cands.len(),
                        found == rows(cands@),
                        forall|s: Seq<char>| #[trigger]
                            rows(names@).contains(s) <==> (before.contains(s) || found.take(
                                c as int,
                            ).contains(s)),
                    decreases cands.len() - c,
                {
                    let ghost old_names = names@;
                    let name = cands[c].clone();
                    names.push(name);
                    proof {
                        lemma_rows_push(old_names, name);
                        assert(found.take(c + 1) =~= found.take(c as int).push(cands@[c as int]@));
                        assert forall|s: Seq<char>| #[trigger]
                            rows(names@).contains(s) <==> (before.contains(s) || found.take(
                                c + 1,
                            ).contains(s)) by {
                            lemma_push_has(rows(old_names), name@, s);
                            lemma_push_has(found.take(c as int), cands@[c as int]@, s);
                        }
                    }
                    c += 1;
                }
                proof {
                    assert(found.take(cands.len() as int) =~= found);
                    assert(imports[m as int] == file.imports@[m as int]@);
                    assert forall|s: Seq<char>| #[trigger]
                        rows(names@).contains(s) <==> imported_in(imports, language, m + 1, s) by {
                        if imported_in(imports, language, m + 1, s) {
                            let x = choose|x: int|
                                0 <= x < m + 1 && x < imports.len()
                                    && crate::memory::candidates::candidates(
                                    #[trigger] imports[x],
                                    language,
                                ).contains(s);
                            if x < m {
                                assert(imported_in(imports, language, m as int, s));
                            }
                        }
                        if imported_in(imports, language, m as int, s) {
                            let x = choose|x: int|
                                0 <= x < m && x < imports.len()
                                    && crate::memory::candidates::candidates(
                                    #[trigger] imports[x],
                                    language,
                                ).contains(s);
                            assert(0 <= x < m + 1 && crate::memory::candidates::candidates(
                                imports[x],
                                language,
                            ).contains(s));
                        }
                        if found.contains(s) {
                            assert(crate::memory::candidates::candidates(
                                imports[m as int],
                                language,
                            ).contains(s));
                        }
                    }
                }
                m += 1;
            }
            let set = ImportSet { path: chars_of(file.path.as_str()), names };
            graph.push(set);
            f += 1;
        }
        SmartMemory { project_memory, import_export_graph: graph }
    }

    /// What of the project memory is relevant to the file at `file_path`.
    pub fn get_relevant_memory_for_file(&self, file_path: &str) -> (relevant: RelevantMemory)
        ensures
            relevant@ == relevant_model(self.memory(), file_path@),
    {
        let scorer = RelevanceScorer::new(self, file_path);
        let memory = &self.project_memory;

        let mut scores: Vec<u128> = Vec::new();
        let mut i: usize = 0;
        while i < memory.global_symbols.len()
            invariant
                i <= memory.global_symbols.len(),
                *memory == self.project_memory,
                scorer.memory() == self.memory(),
                scorer.target() == file_path@,
                scores@.len() == i,
                forall|j: int|
                    0 <= j < i ==> (#[trigger] scores@[j]) == symbol_scores(
                        self.memory(),
                        file_path@,
                    )[j],
            decreases memory.global_symbols.len() - i,
        {
            scores.push(scorer.score_symbol(&memory.global_symbols[i]));
            i += 1;
        }
        assert(as_nats(scores@) =~= symbol_scores(self.memory(), file_path@));
        let chosen = choose_indices(&scores, MAX_RELEVANT_GLOBAL_SYMBOLS);
        let mut global_symbols: Vec<GlobalSymbol> = Vec::new();
        let mut i: usize = 0;
        while i < chosen.len()
            invariant
                i <= chosen.len(),
                *memory == self.project_memory,
                global_symbols@.len() == i,
                forall|j: int|
                    0 <= j < chosen@.len() ==> (#[trigger] chosen@[j]) < memory.global_symbols@.len(),
                forall|j: int|
                    0 <= j < i ==> (#[trigger] global_symbols@[j])@
                        == memory.global_symbols@[chosen@[j] as int]@,
            decreases chosen.len() - i,
        {
            global_symbols.push(memory.global_symbols[chosen[i]].clone());
            i += 1;
        }
        assert(global_models(global_symbols@) =~= picked(self.memory().global_symbols, chosen@));

        let mut scores: Vec<u128> = Vec::new();
        let mut i: usize = 0;
        while i < memory.open_items.len()
            invariant
                i <= memory.open_items.len(),
                *memory == self.project_memory,
                scorer.memory() == self.memory(),
                scorer.target() == file_path@,
                scores@.len() == i,
                forall|j: int|
                    0 <= j < i ==> (#[trigger] scores@[j]) == item_scores(
                        self.memory(),
                        file_path@,
                    )[j],
            decreases memory.open_items.len() - i,
        {
            scores.push(scorer.score_open_item(&memory.open_items[i]));
            i += 1;
        }
        assert(as_nats(scores@) =~= item_scores(self.memory(), file_path@));
        let chosen = choose_indices(&scores, MAX_RELEVANT_OPEN_ITEMS);
        let mut open_items: Vec<OpenItem> = Vec::new();
        let mut i: usize = 0;
        while i < chosen.len()
            invariant
                i <= chosen.len(),
                *memory == self.project_memory,
                open_items@.len() == i,
                forall|j: int|
                    0 <= j < chosen@.len() ==> (#[trigger] chosen@[j]) < memory.open_items@.len(),
                forall|j: int|
                    0 <= j < i ==> (#[trigger] open_items@[j])@
                        == memory.open_items@[chosen@[j] as int]@,
            decreases chosen.len() - i,
        {
            open_items.push(memory.open_items[chosen[i]].clone());
            i += 1;
        }
        assert(item_models(open_items@) =~= picked(self.memory().open_items, chosen@));

        let mut scores: Vec<u128> = Vec::new();
        let mut i: usize = 0;
        while i < memory.links.len()
            invariant
                i <= memory.links.len(),
                *memory == self.project_memory,
                scorer.memory() == self.memory(),
                scorer.target() == file_path@,
                scores@.len() == i,
                forall|j: int|
                    0 <= j < i ==> (#[trigger] scores@[j]) == link_scores(
                        self.memory(),
                        file_path@,
                    )[j],
            decreases memory.links.len() - i,
        {
            scores.push(scorer.score_link(&memory.links[i]));
            i += 1;
        }
        assert(as_nats(scores@) =~= link_scores(self.memory(), file_path@));
        let chosen = choose_indices(&scores, MAX_RELEVANT_LINKS);
        let mut links: Vec<CrossFileLink> = Vec::new();
        let mut i: usize = 0;
        while i < chosen.len()
            invariant
                i <= chosen.len(),
                *memory == self.project_memory,
                links@.len() == i,
                forall|j: int| 0 <= j < chosen@.len() ==> (#[trigger] chosen@[j]) < memory.links@.len(),
                forall|j: int|
                    0 <= j < i ==> (#[trigger] links@[j])@ == memory.links@[chosen@[j] as int]@,
            decreases chosen.len() - i,
        {
            links.push(memory.links[chosen[i]].clone());
            i += 1;
        }
        assert(link_models(links@) =~= picked(self.memory().links, chosen@));

        RelevantMemory {
            file_count: memory.file_count,
            unique_symbol_count: memory.unique_symbol_count,
            global_symbols,
            open_items,
            links,
        }
    }
}

proof fn lemma_push_has<T>(s: Seq<T>, v: T, x: T)
    ensures
        s.push(v).contains(x) <==> (s.contains(x) || x == v),
{
    let r = s.push(v);
    if r.contains(x) {
        let i = choose|i: int| 0 <= i < r.len() && r[i] == x;
        if i < s.len() {
            assert(s[i] == x);
        }
    }
    if s.contains(x) {
        let i = choose|i: int| 0 <= i < s.len() && s[i] == x;
        assert(r[i] == x);
    }
    if x == v {
        assert(r[s.len() as int] == x);
    }
}

impl<'a> RelevanceScorer<'a> {
    #[verifier::type_invariant]
    spec fn well_formed(self) -> bool {
        &&& rows(self.target_dir@) == dir_of(self.target_file@)
        &&& match self.import_set {
            Some(f) => last_with_path(self.smart_memory.memory().files, self.target_file@, f as int),
            None => forall|f: int|
                0 <= f < self.smart_memory.memory().files.len() ==> (
                #[trigger] self.smart_memory.memory().files[f]).path != self.target_file@,
        }
    }

    /// The project memory whose entries are scored.
    pub closed spec fn memory(&self) -> ProjectModel {
        self.smart_memory.memory()
    }

    /// The path of the file for which they are scored.
    pub closed spec fn target(&self) -> Seq<char> {
        self.target_file@
    }

    pub fn new(smart_memory: &'a SmartMemory, target_file: &str) -> (scorer: RelevanceScorer<'a>)
        ensures
            scorer.memory() == smart_memory.memory(),
            scorer.target() == target_file@,
    {
        proof {
            use_type_invariant(smart_memory);
        }
        let target = chars_of(target_file);
        let target_dir = parent_dir(target.as_slice());
        let graph = &smart_memory.import_export_graph;
        let ghost files = smart_memory.memory().files;
        let mut import_set: Option<usize> = None;
        let mut f: usize = graph.len();
        while f > 0 && import_set.is_none()
            invariant
                f <= graph.len(),
                graph@.len() == files.len(),
                forall|i: int| 0 <= i < graph@.len() ==> (#[trigger] graph@[i]).stands_for(files[i]),
                match import_set {
                    Some(x) => last_with_path(files, target@, x as int),
                    None => forall|g: int|
                        f <= g < files.len() ==> (#[trigger] files[g]).path != target@,
                },
            decreases f,
        {
            f -= 1;
            assert(graph@[f as int].stands_for(files[f as int]));
            if same_chars(graph[f].path.as_slice(), target.as_slice()) {
                import_set = Some(f);
            }
        }
        RelevanceScorer { smart_memory, target_file: target, target_dir, import_set }
    }

    /// Whether the target file imports what may be `name`.
    fn imports(&self, name: &[char]) -> (r: bool)
        ensures
            r == target_imports(self.memory().files, self.target(), name@),
    {
        proof {
            use_type_invariant(self);
            use_type_invariant(self.smart_memory);
        }
        let ghost files = self.memory().files;
        match self.import_set {
            Some(f) => {
                let set = &self.smart_memory.import_export_graph[f];
                assert(set.stands_for(files[f as int]));
                let r = holds_text(&set.names, name);
                proof {
                    if target_imports(files, self.target(), name@) {
                        let g = choose|g: int| #[trigger]
                            last_with_path(files, self.target(), g) && imported_in(
                                files[g].imports,
                                language_of(files[g].language),
                                files[g].imports.len() as int,
                                name@,
                            );
                        assert(g == f);
                    }
                    if r {
                        assert(last_with_path(files, self.target(), f as int));
                    }
                }
                r
            },
            None => {
                proof {
                    if target_imports(files, self.target(), name@) {
                        let g = choose|g: int| #[trigger]
                            last_with_path(files, self.target(), g) && imported_in(
                                files[g].imports,
                                language_of(files[g].language),
                                files[g].imports.len() as int,
                                name@,
                            );
                        assert(files[g].path == self.target());
                    }
                }
                false
            },
        }
    }

    pub fn score_symbol(&self, symbol: &GlobalSymbol) -> (score: u128)
        ensures
            score == symbol_score(
                symbol@,
                self.target(),
                target_imports(self.memory().files, self.target(), symbol@.name),
            ),
    {
        proof {
            use_type_invariant(self);
        }
        let imported = self.imports(chars_of(symbol.name.as_str()).as_slice());
        score_symbol_paths(
            &symbol.defined_in,
            self.target_file.as_slice(),
            &self.target_dir,
            imported,
        )
    }

    pub fn score_open_item(&self, item: &OpenItem) -> (score: u128)
        ensures
            score == item_score(
                item@,
                self.target(),
                target_imports(self.memory().files, self.target(), item@.symbol),
            ),
    {
        proof {
            use_type_invariant(self);
        }
        let imported = self.imports(chars_of(item.symbol.as_str()).as_slice());
        score_item_paths(&item.files, self.target_file.as_slice(), &self.target_dir, imported)
    }

    pub fn score_link(&self, link: &CrossFileLink) -> (score: u128)
        ensures
            score == link_score(
                link@,
                self.target(),
                target_imports(self.memory().files, self.target(), link@.symbol),
            ),
    {
        proof {
            use_type_invariant(self);
        }
        let imported = self.imports(chars_of(link.symbol.as_str()).as_slice());
        score_link_paths(
            link.from_file.as_str(),
            link.to_file.as_str(),
            self.target_file.as_slice(),
            &self.target_dir,
            imported,
        )
    }

    /// Whether the directory `sub` lies in `parent` or below it.
    pub fn is_subdirectory(&self, sub: &Vec<Vec<char>>, parent: &Vec<Vec<char>>) -> (r: bool)
        ensures
            r == is_under(rows(sub@), rows(parent@)),
    {
        is_subdirectory(sub, parent)
    }
}

/// What of `project_memory` is relevant to the file at `file_path`.
pub fn get_relevant_memory_for_file(project_memory: &ProjectMemory, file_path: &str) -> (relevant:
    RelevantMemory)
    ensures
        relevant@ == relevant_model(project_memory@, file_path@),
{
    let smart = SmartMemory::new(project_memory.clone());
    smart.get_relevant_memory_for_file(file_path)
}

} // verus!
