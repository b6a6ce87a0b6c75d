//! The memory of a project, put together from the memories of its files:
//! the table of symbols, the names that are declared with more than one
//! kind, and the links that imports suggest between files.

use crate::language::{language_from_chars, language_of, Language};
use crate::memory::candidates::{candidates, import_symbol_candidates};
use crate::memory::file_memory::capped;
use crate::memory::types::{
    file_models, global_models, item_models, lemma_texts_push, link_models, texts, CrossFileLink,
    FileMemory, FileModel, GlobalModel, GlobalSymbol, ItemModel, LinkModel, OpenItem,
    ProjectMemory,
};
use crate::order::lemma_increasing_unique;
use crate::order::{as_nats, ascending, increasing, insert_unique, is_ranking, keys_of, lemma_lex_asymmetric, lemma_lex_irreflexive, lemma_lex_transitive, lemma_record1_lt, lemma_record2_lt, lemma_record3_lt, lemma_record_asymmetric, lemma_record_irreflexive, lemma_record_transitive, lex_lt, outranks, rank_indices, record1, record2, record3, record_lt, slot, Keyed, Record};
use crate::split::{join_range, joined, lemma_rows_push, rows};
use crate::text::{chars_of, copy_chars, push_chars, same_chars, string_of};
use vstd::prelude::*;

verus! {

/// The symbol table holds at most this many symbols.
pub const MAX_GLOBAL_SYMBOLS: usize = 300;

/// At most this many open items are kept.
pub const MAX_OPEN_ITEMS: usize = 120;

/// At most this many links are kept.
pub const MAX_PROJECT_LINKS: usize = 400;

/// An open item names at most this many files.
pub const MAX_ITEM_FILES: usize = 12;

// ---------------------------------------------------------------------------
// What the files declare
// ---------------------------------------------------------------------------

/// Symbol `j` of file `i` has the given name and kind, and the file has the
/// given path.
pub open spec fn declares_at(
    files: Seq<FileModel>,
    i: int,
    j: int,
    name: Seq<char>,
    kind: Seq<char>,
    path: Seq<char>,
) -> bool {
    &&& 0 <= i < files.len()
    &&& 0 <= j < files[i].symbols.len()
    &&& files[i].symbols[j].name == name
    &&& files[i].symbols[j].kind == kind
    &&& files[i].path == path
}

/// The file at `path` declares a symbol of this name and kind.
pub open spec fn declared_in(
    files: Seq<FileModel>,
    name: Seq<char>,
    kind: Seq<char>,
    path: Seq<char>,
) -> bool {
    exists|i: int, j: int| declares_at(files, i, j, name, kind, path)
}

/// Some file declares a symbol of this name and kind.
pub open spec fn is_declared(files: Seq<FileModel>, name: Seq<char>, kind: Seq<char>) -> bool {
    exists|i: int, j: int|
        0 <= i < files.len() && 0 <= j < files[i].symbols.len() && (
        #[trigger] files[i].symbols[j]).name == name && files[i].symbols[j].kind == kind
}

/// The file at `path` declares a symbol of this name, of whatever kind.
pub open spec fn defines_name(files: Seq<FileModel>, name: Seq<char>, path: Seq<char>) -> bool {
    exists|i: int, j: int|
        0 <= i < files.len() && 0 <= j < files[i].symbols.len() && (
        #[trigger] files[i].symbols[j]).name == name && files[i].path == path
}

/// A declaration by one of the symbols that come before symbol `j` of file `i`.
pub open spec fn declared_before(
    files: Seq<FileModel>,
    i: int,
    j: int,
    name: Seq<char>,
    kind: Seq<char>,
    path: Seq<char>,
) -> bool {
    exists|a: int, b: int|
        declares_at(files, a, b, name, kind, path) && (a < i || (a == i && b < j))
}

pub open spec fn named_before(
    files: Seq<FileModel>,
    i: int,
    j: int,
    name: Seq<char>,
    path: Seq<char>,
) -> bool {
    exists|a: int, b: int|
        0 <= a < files.len() && 0 <= b < files[a].symbols.len() && (
        #[trigger] files[a].symbols[b]).name == name && files[a].path == path && (a < i || (a == i
            && b < j))
}

/// The declarations of the files as records: name, kind and path of each,
/// and name and path of each, both in ascending order and without
/// repetitions.
fn declaration_records(files: &[FileMemory]) -> (r: (Vec<Record>, Vec<Record>))
    ensures
        increasing(keys_of(r.0@)),
        forall|k: Seq<Seq<char>>|
            #[trigger] keys_of(r.0@).contains(k) <==> (k.len() == 3 && declared_in(
                file_models(files@),
                k[0],
                k[1],
                k[2],
            )),
        increasing(keys_of(r.1@)),
        forall|k: Seq<Seq<char>>|
            #[trigger] keys_of(r.1@).contains(k) <==> (k.len() == 2 && defines_name(
                file_models(files@),
                k[0],
                k[1],
            )),
{
    let ghost fm = file_models(files@);
    let mut triples: Vec<Record> = Vec::new();
    let mut pairs: Vec<Record> = Vec::new();
    let mut i: usize = 0;
    while i < files.len()
        invariant
            i <= files.len(),
            fm == file_models(files@),
            increasing(keys_of(triples@)),
            increasing(keys_of(pairs@)),
            forall|k: Seq<Seq<char>>|
                #[trigger] keys_of(triples@).contains(k) <==> (k.len() == 3 && declared_before(
                    fm,
                    i as int,
                    0,
                    k[0],
                    k[1],
                    k[2],
                )),
            forall|k: Seq<Seq<char>>|
                #[trigger] keys_of(pairs@).contains(k) <==> (k.len() == 2 && named_before(
                    fm,
                    i as int,
                    0,
                    k[0],
                    k[1],
                )),
        decreases files.len() - i,
    {
        let file = &files[i];
        let path = chars_of(file.path.as_str());
        let mut j: usize = 0;
        while j < file.symbols.len()
            invariant
                i < files.len(),
                j <= file.symbols.len(),
                fm == file_models(files@),
                *file == files@[i as int],
                path@ == file.path@,
                increasing(keys_of(triples@)),
                increasing(keys_of(pairs@)),
                forall|k: Seq<Seq<char>>|
                    #[trigger] keys_of(triples@).contains(k) <==> (k.len() == 3 && declared_before(
                        fm,
                        i as int,
                        j as int,
                        k[0],
                        k[1],
                        k[2],
                    )),
                forall|k: Seq<Seq<char>>|
                    #[trigger] keys_of(pairs@).contains(k) <==> (k.len() == 2 && named_before(
                        fm,
                        i as int,
                        j as int,
                        k[0],
                        k[1],
                    )),
            decreases file.symbols.len() - j,
        {
            let symbol = &file.symbols[j];
            let name = chars_of(symbol.name.as_str());
            let kind = chars_of(symbol.kind.as_str());
            let triple = record3(name.as_slice(), kind.as_slice(), path.as_slice());
            let pair = record2(name.as_slice(), path.as_slice());
            let ghost old_triples = keys_of(triples@);
            let ghost old_pairs = keys_of(pairs@);
            let ghost tk = triple.key();
            let ghost pk = pair.key();
            insert_unique(&mut triples, triple);
            insert_unique(&mut pairs, pair);
            proof {
                assert(fm[i as int] == files@[i as int]@);
                assert(fm[i as int].symbols[j as int] == file.symbols@[j as int]@);
                assert(declares_at(fm, i as int, j as int, name@, kind@, path@));
                assert forall|k: Seq<Seq<char>>|
                    #[trigger] keys_of(triples@).contains(k) <==> (k.len() == 3 && declared_before(
                        fm,
                        i as int,
                        j + 1,
                        k[0],
                        k[1],
                        k[2],
                    )) by {
                    if k.len() == 3 && declared_before(fm, i as int, j + 1, k[0], k[1], k[2]) {
                        let (a, b) = choose|a: int, b: int|
                            declares_at(fm, a, b, k[0], k[1], k[2]) && (a < i || (a == i && b < j
                                + 1));
                        if a == i && b == j {
                            assert(k =~= tk);
                        } else {
                            assert(declared_before(fm, i as int, j as int, k[0], k[1], k[2]));
                        }
                    }
                    if old_triples.contains(k) {
                        let (a, b) = choose|a: int, b: int|
                            declares_at(fm, a, b, k[0], k[1], k[2]) && (a < i || (a == i && b < j));
                        assert(declares_at(fm, a, b, k[0], k[1], k[2]) && (a < i || (a == i && b
                            < j + 1)));
                    }
                    if k == tk {
                        assert(declares_at(fm, i as int, j as int, k[0], k[1], k[2]) && (i < i || (
                        i == i && j < j + 1)));
                    }
                }
                assert forall|k: Seq<Seq<char>>|
                    #[trigger] keys_of(pairs@).contains(k) <==> (k.len() == 2 && named_before(
                        fm,
                        i as int,
                        j + 1,
                        k[0],
                        k[1],
                    )) by {
                    if k.len() == 2 && named_before(fm, i as int, j + 1, k[0], k[1]) {
                        let (a, b) = choose|a: int, b: int|
                            0 <= a < fm.len() && 0 <= b < fm[a].symbols.len() && (
                            #[trigger] fm[a].symbols[b]).name == k[0] && fm[a].path == k[1] && (a
                                < i || (a == i && b < j + 1));
                        if a == i && b == j {
                            assert(k =~= pk);
                        } else {
                            assert(named_before(fm, i as int, j as int, k[0], k[1]));
                        }
                    }
                    if old_pairs.contains(k) {
                        let (a, b) = choose|a: int, b: int|
                            0 <= a < fm.len() && 0 <= b < fm[a].symbols.len() && (
                            #[trigger] fm[a].symbols[b]).name == k[0] && fm[a].path == k[1] && (a
                                < i || (a == i && b < j));
                        assert(fm[a].symbols[b].name == k[0] && (a < i || (a == i && b < j + 1)));
                    }
                    if k == pk {
                        assert(fm[i as int].symbols[j as int].name == k[0]);
                    }
                }
            }
            j += 1;
        }
        proof {
            assert(fm[i as int] == files@[i as int]@);
            assert(fm[i as int].symbols.len() == file.symbols@.len());
            assert forall|k: Seq<Seq<char>>|
                #[trigger] keys_of(triples@).contains(k) <==> (k.len() == 3 && declared_before(
                    fm,
                    i + 1,
                    0,
                    k[0],
                    k[1],
                    k[2],
                )) by {
                if k.len() == 3 && declared_before(fm, i + 1, 0, k[0], k[1], k[2]) {
                    let (a, b) = choose|a: int, b: int|
                        declares_at(fm, a, b, k[0], k[1], k[2]) && (a < i + 1 || (a == i + 1 && b
                            < 0));
                    assert(declares_at(fm, a, b, k[0], k[1], k[2]) && (a < i || (a == i && b < j)));
                }
                if k.len() == 3 && declared_before(fm, i as int, j as int, k[0], k[1], k[2]) {
                    let (a, b) = choose|a: int, b: int|
                        declares_at(fm, a, b, k[0], k[1], k[2]) && (a < i || (a == i && b < j));
                    assert(declares_at(fm, a, b, k[0], k[1], k[2]) && (a < i + 1 || (a == i + 1
                        && b < 0)));
                }
            }
            assert forall|k: Seq<Seq<char>>|
                #[trigger] keys_of(pairs@).contains(k) <==> (k.len() == 2 && named_before(
                    fm,
                    i + 1,
                    0,
                    k[0],
                    k[1],
                )) by {
                if k.len() == 2 && named_before(fm, i + 1, 0, k[0], k[1]) {
                    let (a, b) = choose|a: int, b: int|
                        0 <= a < fm.len() && 0 <= b < fm[a].symbols.len() && (
                        #[trigger] fm[a].symbols[b]).name == k[0] && fm[a].path == k[1] && (a < i
                            + 1 || (a == i + 1 && b < 0));
                    assert(fm[a].symbols[b].name == k[0] && (a < i || (a == i && b < j)));
                }
                if k.len() == 2 && named_before(fm, i as int, j as int, k[0], k[1]) {
                    let (a, b) = choose|a: int, b: int|
                        0 <= a < fm.len() && 0 <= b < fm[a].symbols.len() && (
                        #[trigger] fm[a].symbols[b]).name == k[0] && fm[a].path == k[1] && (a < i
                            || (a == i && b < j));
                    assert(fm[a].symbols[b].name == k[0] && (a < i + 1 || (a == i + 1 && b < 0)));
                }
            }
        }
        i += 1;
    }
    proof {
        assert forall|k: Seq<Seq<char>>|
            #[trigger] keys_of(triples@).contains(k) <==> (k.len() == 3 && declared_in(
                fm,
                k[0],
                k[1],
                k[2],
            )) by {
            if k.len() == 3 && declared_in(fm, k[0], k[1], k[2]) {
                let (a, b) = choose|a: int, b: int| declares_at(fm, a, b, k[0], k[1], k[2]);
                assert(declares_at(fm, a, b, k[0], k[1], k[2]) && (a < i || (a == i && b < 0)));
            }
        }
        assert forall|k: Seq<Seq<char>>|
            #[trigger] keys_of(pairs@).contains(k) <==> (k.len() == 2 && defines_name(fm, k[0], k[1])) by {
            if k.len() == 2 && defines_name(fm, k[0], k[1]) {
                let (a, b) = choose|a: int, b: int|
                    0 <= a < fm.len() && 0 <= b < fm[a].symbols.len() && (
                    #[trigger] fm[a].symbols[b]).name == k[0] && fm[a].path == k[1];
                assert(fm[a].symbols[b].name == k[0] && (a < i || (a == i && b < 0)));
            }
            if k.len() == 2 && named_before(fm, i as int, 0, k[0], k[1]) {
                let (a, b) = choose|a: int, b: int|
                    0 <= a < fm.len() && 0 <= b < fm[a].symbols.len() && (
                    #[trigger] fm[a].symbols[b]).name == k[0] && fm[a].path == k[1] && (a < i || (a
                        == i && b < 0));
                assert(fm[a].symbols[b].name == k[0]);
            }
        }
    }
    (triples, pairs)
}

/// The second fields of the records of `list` that begin with `head`, in
/// ascending order.
fn seconds_of(list: &Vec<Record>, head: &[char]) -> (r: Vec<Vec<char>>)
    requires
        increasing(keys_of(list@)),
        forall|i: int| 0 <= i < list@.len() ==> (#[trigger] list@[i]).key().len() == 2,
    ensures
        ascending(rows(r@)),
        forall|p: Seq<char>| rows(r@).contains(p) <==> keys_of(list@).contains(seq![head@, p]),
{
    let probe = record1(head);
    let (at, found) = slot(list, &probe);
    let ghost keys = keys_of(list@);
    let mut out: Vec<Vec<char>> = Vec::new();
    let mut x: usize = at;
    proof {
        if found {
            assert(list@[at as int].key().len() == 2);
            assert(probe.key().len() == 1);
        }
        assert forall|i: int| 0 <= i < list@.len() implies (i < at ==> keys[i][0] != head@) && (i
            >= at ==> (keys[i][0] == head@ || lex_lt(head@, keys[i][0]))) by {
            assert(keys[i] == list@[i].key());
            lemma_record1_lt(head@, keys[i]);
        }
    }
    while x < list.len() && same_chars(list[x].fields[0].as_slice(), head)
        invariant
            at <= x <= list.len(),
            keys == keys_of(list@),
            increasing(keys),
            forall|i: int| 0 <= i < list@.len() ==> (#[trigger] list@[i]).key().len() == 2,
            out.len() == x - at,
            forall|t: int| 0 <= t < x - at ==> keys[at + t] == seq![head@, #[trigger] rows(out@)[t]],
        decreases list.len() - x,
    {
        proof {
            assert(list@[x as int].key().len() == 2);
        }
        let second = copy_chars(list[x].fields[1].as_slice());
        let ghost before = out@;
        out.push(second);
        proof {
            lemma_rows_push(before, second);
            assert(keys[x as int] == list@[x as int].key());
            assert(keys[x as int] =~= seq![head@, second@]);
        }
        x += 1;
    }
    proof {
        let r = rows(out@);
        assert forall|i: int, j: int| 0 <= i < j < r.len() implies lex_lt(
            #[trigger] r[i],
            #[trigger] r[j],
        ) by {
            assert(record_lt(keys[at + i], keys[at + j]));
            lemma_record2_lt(head@, r[i], head@, r[j]);
        }
        // No record from `x` on begins with `head`.
        assert forall|i: int| x <= i < list@.len() implies keys[i][0] != head@ by {
            assert(keys[x as int] == list@[x as int].key());
            assert(keys[i] == list@[i].key());
            assert(list@[x as int].key().len() == 2);
            assert(keys[x as int][0] == list@[x as int].fields@[0]@);
            assert(lex_lt(head@, keys[x as int][0]));
            if i > x {
                assert(record_lt(keys[x as int], keys[i]));
                let kx = keys[x as int];
                let ki = keys[i];
                assert(kx =~= seq![kx[0], kx[1]]);
                assert(ki =~= seq![ki[0], ki[1]]);
                lemma_record2_lt(kx[0], kx[1], ki[0], ki[1]);
                if ki[0] == head@ {
                    lemma_lex_asymmetric(head@, kx[0]);
                }
            } else {
                lemma_lex_irreflexive(head@);
            }
        }
        assert forall|p: Seq<char>| r.contains(p) <==> keys.contains(seq![head@, p]) by {
            if r.contains(p) {
                let t = choose|t: int| 0 <= t < r.len() && r[t] == p;
                assert(keys[at + t] == seq![head@, p]);
            }
            if keys.contains(seq![head@, p]) {
                let i = choose|i: int| 0 <= i < keys.len() && keys[i] == seq![head@, p];
                assert(keys[i][0] == head@);
                assert(at <= i < x);
                assert(keys[at + (i - at)] == seq![head@, rows(out@)[i - at]]);
                assert(seq![head@, p][1] == seq![head@, rows(out@)[i - at]][1]);
                assert(r[i - at] == p);
            }
        }
    }
    out
}

// ---------------------------------------------------------------------------
// Rows: the declarations of one name and kind
// ---------------------------------------------------------------------------

/// A symbol with the files that declare it, held as characters.
pub struct Row {
    pub name: Vec<char>,
    pub kind: Vec<char>,
    pub paths: Vec<Vec<char>>,
}

impl View for Row {
    type V = GlobalModel;

    open spec fn view(&self) -> GlobalModel {
        GlobalModel { name: self.name@, kind: self.kind@, defined_in: rows(self.paths@) }
    }
}

pub open spec fn row_models(v: Seq<Row>) -> Seq<GlobalModel> {
    Seq::new(v.len(), |i: int| v[i]@)
}

/// Name and kind of a row, as a record.
pub open spec fn pair_key(row: GlobalModel) -> Seq<Seq<char>> {
    seq![row.name, row.kind]
}

/// The records of name, kind and path gathered into rows: each run of
/// records of one name and kind makes a row with the paths of the run.
pub open spec fn grouped(l3: Seq<Seq<Seq<char>>>) -> Seq<GlobalModel>
    decreases l3.len(),
{
    if l3.len() == 0 {
        Seq::empty()
    } else {
        let init = grouped(l3.drop_last());
        let k = l3.last();
        if init.len() > 0 && init.last().name == k[0] && init.last().kind == k[1] {
            init.drop_last().push(
                GlobalModel {
                    name: k[0],
                    kind: k[1],
                    defined_in: init.last().defined_in.push(k[2]),
                },
            )
        } else {
            init.push(GlobalModel { name: k[0], kind: k[1], defined_in: seq![k[2]] })
        }
    }
}

/// `g` holds the records `l3` by name and kind: each row has its paths in
/// ascending order, the rows are in ascending order of name and kind, a row
/// holds a path exactly if the record of its name, kind and that path is
/// among `l3`, and every record has its row.
pub open spec fn is_grouping(l3: Seq<Seq<Seq<char>>>, g: Seq<GlobalModel>) -> bool {
    &&& forall|e: int|
        0 <= e < g.len() ==> (#[trigger] g[e]).defined_in.len() > 0 && ascending(g[e].defined_in)
    &&& forall|e: int, f: int|
        0 <= e < f < g.len() ==> record_lt(pair_key(#[trigger] g[e]), pair_key(#[trigger] g[f]))
    &&& forall|e: int, p: Seq<char>|
        0 <= e < g.len() ==> (#[trigger] g[e].defined_in.contains(p) <==> l3.contains(
            seq![g[e].name, g[e].kind, p],
        ))
    &&& forall|i: int|
        0 <= i < l3.len() ==> exists|e: int|
            0 <= e < g.len() && (#[trigger] g[e]).name == (#[trigger] l3[i])[0] && g[e].kind
                == l3[i][1]
}

proof fn lemma_contains_last<T>(s: Seq<T>, x: T)
    requires
        s.len() > 0,
    ensures
        s.contains(x) <==> (s.drop_last().contains(x) || x == s.last()),
{
    let t = s.drop_last();
    if s.contains(x) {
        let i = choose|i: int| 0 <= i < s.len() && s[i] == x;
        if i < s.len() - 1 {
            assert(t[i] == x);
        }
    }
    if t.contains(x) {
        let i = choose|i: int| 0 <= i < t.len() && t[i] == x;
        assert(s[i] == x);
    }
    if x == s.last() {
        assert(s[s.len() - 1] == x);
    }
}

proof fn lemma_push_contains<T>(s: Seq<T>, v: T, x: T)
    ensures
        s.push(v).contains(x) <==> (s.contains(x) || x == v),
{
    let r = s.push(v);
    if r.contains(x) {
        let i = choose|i: int| 0 <= i < r.len() && r[i] == x;
        if i < s.len() {
            assert(s[i] == x);
        }
    }
    if s.contains(x) {
        let i = choose|i: int| 0 <= i < s.len() && s[i] == x;
        assert(r[i] == x);
    }
    if x == v {
        assert(r[s.len() as int] == x);
    }
}

proof fn lemma_increasing_drop_last(l: Seq<Seq<Seq<char>>>)
    requires
        increasing(l),
        l.len() > 0,
    ensures
        increasing(l.drop_last()),
{
    let t = l.drop_last();
    assert forall|i: int, j: int| 0 <= i < j < t.len() implies record_lt(
        #[trigger] t[i],
        #[trigger] t[j],
    ) by {
        assert(t[i] == l[i] && t[j] == l[j]);
    }
}

/// A record of three fields that stands before another has a lesser name
/// and kind, or the same name and kind and a lesser path.
proof fn lemma_triple_order(x: Seq<Seq<char>>, y: Seq<Seq<char>>)
    requires
        x.len() == 3,
        y.len() == 3,
        record_lt(x, y),
    ensures
        record_lt(seq![x[0], x[1]], seq![y[0], y[1]]) || (x[0] == y[0] && x[1] == y[1] && lex_lt(
            x[2],
            y[2],
        )),
{
    assert(x =~= seq![x[0], x[1], x[2]]);
    assert(y =~= seq![y[0], y[1], y[2]]);
    lemma_record3_lt(x[0], x[1], x[2], y[0], y[1], y[2]);
}

/// Grouping records that are in ascending order gives a grouping, whose
/// last row is that of the last record.
pub proof fn lemma_grouped(l3: Seq<Seq<Seq<char>>>)
    requires
        increasing(l3),
        forall|i: int| 0 <= i < l3.len() ==> (#[trigger] l3[i]).len() == 3,
    ensures
        is_grouping(l3, grouped(l3)),
        l3.len() > 0 ==> grouped(l3).len() > 0 && grouped(l3).last().name == l3.last()[0]
            && grouped(l3).last().kind == l3.last()[1],
        grouped(l3).len() <= l3.len(),
    decreases l3.len(),
{
    if l3.len() == 0 {
        return ;
    }
    let t = l3.drop_last();
    let k = l3.last();
    let g0 = grouped(t);
    let g = grouped(l3);
    let n = l3.len() - 1;
    lemma_increasing_drop_last(l3);
    assert forall|i: int| 0 <= i < t.len() implies (#[trigger] t[i]).len() == 3 by {
        assert(t[i] == l3[i]);
    }
    lemma_grouped(t);
    assert(k.len() == 3);
    assert(k =~= seq![k[0], k[1], k[2]]);
    // Every row of `g0` stands for a record before `k`.
    assert forall|e: int| 0 <= e < g0.len() implies record_lt(
        pair_key(#[trigger] g0[e]),
        seq![k[0], k[1]],
    ) || (g0[e].name == k[0] && g0[e].kind == k[1]) by {
        let x = g0[e].defined_in[0];
        assert(g0[e].defined_in.contains(x));
        let rec = seq![g0[e].name, g0[e].kind, x];
        assert(t.contains(rec));
        let u = choose|u: int| 0 <= u < t.len() && t[u] == rec;
        assert(l3[u] == rec);
        assert(record_lt(l3[u], l3[n]));
        lemma_triple_order(rec, k);
    }
    if g0.len() > 0 && g0.last().name == k[0] && g0.last().kind == k[1] {
        let last = g0.last();
        let row = GlobalModel { name: k[0], kind: k[1], defined_in: last.defined_in.push(k[2]) };
        let m = g0.len() - 1;
        assert(g == g0.drop_last().push(row));
        assert(g.len() == g0.len());
        assert(g[m] == row);
        assert(forall|e: int| 0 <= e < m ==> g[e] == g0[e]);
        assert(pair_key(row) == pair_key(last));
        // The paths of the last row stay in ascending order.
        assert(ascending(row.defined_in)) by {
            let d = row.defined_in;
            assert forall|i: int, j: int| 0 <= i < j < d.len() implies lex_lt(
                #[trigger] d[i],
                #[trigger] d[j],
            ) by {
                if j < last.defined_in.len() {
                    assert(d[i] == last.defined_in[i] && d[j] == last.defined_in[j]);
                } else {
                    let x = last.defined_in[i];
                    assert(last.defined_in.contains(x));
                    let rec = seq![last.name, last.kind, x];
                    assert(t.contains(rec));
                    let u = choose|u: int| 0 <= u < t.len() && t[u] == rec;
                    assert(l3[u] == rec);
                    assert(record_lt(l3[u], l3[n]));
                    lemma_triple_order(rec, k);
                    lemma_record_irreflexive(seq![k[0], k[1]]);
                }
            }
        }
        assert forall|e: int, f: int| 0 <= e < f < g.len() implies record_lt(
            pair_key(#[trigger] g[e]),
            pair_key(#[trigger] g[f]),
        ) by {
            assert(record_lt(pair_key(g0[e]), pair_key(g0[f])));
        }
        assert forall|e: int, p: Seq<char>| 0 <= e < g.len() implies (
        #[trigger] g[e].defined_in.contains(p) <==> l3.contains(seq![g[e].name, g[e].kind, p])) by {
            let rec = seq![g[e].name, g[e].kind, p];
            lemma_contains_last(l3, rec);
            if e < m {
                assert(g0[e].defined_in.contains(p) <==> t.contains(rec));
                assert(record_lt(pair_key(g0[e]), pair_key(g0[m])));
                lemma_record_asymmetric(pair_key(g0[e]), pair_key(g0[m]));
                if rec == k {
                    assert(rec[0] == k[0] && rec[1] == k[1]);
                    assert(pair_key(g0[e]) =~= pair_key(g0[m]));
                }
            } else {
                lemma_push_contains(last.defined_in, k[2], p);
                assert(last.defined_in.contains(p) <==> t.contains(rec));
                if p == k[2] {
                    assert(rec =~= k);
                }
                if rec == k {
                    assert(rec[2] == k[2]);
                }
            }
        }
        assert forall|i: int| 0 <= i < l3.len() implies exists|e: int|
            0 <= e < g.len() && (#[trigger] g[e]).name == (#[trigger] l3[i])[0] && g[e].kind
                == l3[i][1] by {
            if i < n {
                assert(t[i] == l3[i]);
                let e = choose|e: int|
                    0 <= e < g0.len() && (#[trigger] g0[e]).name == t[i][0] && g0[e].kind
                        == t[i][1];
                assert(g[e].name == l3[i][0] && g[e].kind == l3[i][1]);
            } else {
                assert(g[m].name == l3[i][0] && g[m].kind == l3[i][1]);
            }
        }
    } else {
        let row = GlobalModel { name: k[0], kind: k[1], defined_in: seq![k[2]] };
        let m = g0.len() as int;
        assert(g == g0.push(row));
        assert(g[m] == row);
        assert(forall|e: int| 0 <= e < m ==> g[e] == g0[e]);
        // Every earlier row has a lesser name and kind.
        assert forall|e: int| 0 <= e < m implies record_lt(
            pair_key(#[trigger] g0[e]),
            pair_key(row),
        ) by {
            assert(pair_key(row) == seq![k[0], k[1]]);
            if e < m - 1 {
                assert(record_lt(pair_key(g0[e]), pair_key(g0[m - 1])));
                assert(record_lt(pair_key(g0[m - 1]), seq![k[0], k[1]]) || (g0[m - 1].name == k[0]
                    && g0[m - 1].kind == k[1]));
                lemma_record_transitive(pair_key(g0[e]), pair_key(g0[m - 1]), pair_key(row));
            }
        }
        assert(ascending(row.defined_in));
        assert forall|e: int, f: int| 0 <= e < f < g.len() implies record_lt(
            pair_key(#[trigger] g[e]),
            pair_key(#[trigger] g[f]),
        ) by {
            if f < m {
                assert(record_lt(pair_key(g0[e]), pair_key(g0[f])));
            }
        }
        assert forall|e: int, p: Seq<char>| 0 <= e < g.len() implies (
        #[trigger] g[e].defined_in.contains(p) <==> l3.contains(seq![g[e].name, g[e].kind, p])) by {
            let rec = seq![g[e].name, g[e].kind, p];
            lemma_contains_last(l3, rec);
            if e < m {
                assert(g0[e].defined_in.contains(p) <==> t.contains(rec));
                lemma_record_asymmetric(pair_key(g0[e]), pair_key(row));
                if rec == k {
                    assert(rec[0] == k[0] && rec[1] == k[1]);
                    assert(pair_key(g0[e]) =~= pair_key(row));
                }
            } else {
                lemma_push_contains(Seq::<Seq<char>>::empty(), k[2], p);
                assert(seq![k[2]] =~= Seq::<Seq<char>>::empty().push(k[2]));
                if p == k[2] {
                    assert(rec =~= k);
                }
                if rec == k {
                    assert(rec[2] == k[2]);
                }
                if t.contains(rec) {
                    let u = choose|u: int| 0 <= u < t.len() && t[u] == rec;
                    let e2 = choose|e2: int|
                        0 <= e2 < g0.len() && (#[trigger] g0[e2]).name == t[u][0] && g0[e2].kind
                            == t[u][1];
                    assert(record_lt(pair_key(g0[e2]), pair_key(row)));
                    assert(pair_key(g0[e2]) =~= pair_key(row));
                    lemma_record_irreflexive(pair_key(row));
                }
            }
        }
        assert forall|i: int| 0 <= i < l3.len() implies exists|e: int|
            0 <= e < g.len() && (#[trigger] g[e]).name == (#[trigger] l3[i])[0] && g[e].kind
                == l3[i][1] by {
            if i < n {
                assert(t[i] == l3[i]);
                let e = choose|e: int|
                    0 <= e < g0.len() && (#[trigger] g0[e]).name == t[i][0] && g0[e].kind
                        == t[i][1];
                assert(g[e].name == l3[i][0] && g[e].kind == l3[i][1]);
            } else {
                assert(g[m].name == l3[i][0] && g[m].kind == l3[i][1]);
            }
        }
    }
}

/// The rows of records that are in ascending order of name, kind and path.
fn group_rows(triples: &Vec<Record>) -> (r: Vec<Row>)
    requires
        forall|i: int| 0 <= i < triples@.len() ==> (#[trigger] triples@[i]).key().len() == 3,
    ensures
        row_models(r@) == grouped(keys_of(triples@)),
{
    let ghost keys = keys_of(triples@);
    let mut out: Vec<Row> = Vec::new();
    let mut t: usize = 0;
    proof {
        assert(keys.take(0) =~= Seq::<Seq<Seq<char>>>::empty());
        assert(row_models(out@) =~= grouped(keys.take(0)));
    }
    while t < triples.len()
        invariant
            t <= triples.len(),
            keys == keys_of(triples@),
            forall|i: int| 0 <= i < triples@.len() ==> (#[trigger] triples@[i]).key().len() == 3,
            row_models(out@) == grouped(keys.take(t as int)),
        decreases triples.len() - t,
    {
        let record = &triples[t];
        proof {
            assert(triples@[t as int].key().len() == 3);
            assert(keys.take(t + 1).drop_last() =~= keys.take(t as int));
            assert(keys.take(t + 1).last() == record.key());
        }
        let name = record.fields[0].as_slice();
        let kind = record.fields[1].as_slice();
        let path = copy_chars(record.fields[2].as_slice());
        let ghost before = out@;
        let n: usize = out.len();
        let same = n > 0 && same_chars(out[n - 1].name.as_slice(), name) && same_chars(
            out[n - 1].kind.as_slice(),
            kind,
        );
        proof {
            if n > 0 {
                assert(row_models(before).last() == before[n - 1]@);
            }
        }
        if same {
            let mut last = out.pop().unwrap();
            let ghost old_paths = last.paths@;
            last.paths.push(path);
            proof {
                lemma_rows_push(old_paths, path);
            }
            out.push(last);
            proof {
                assert(row_models(out@) =~= row_models(before).drop_last().push(last@));
            }
        } else {
            let mut paths: Vec<Vec<char>> = Vec::new();
            paths.push(path);
            let row = Row { name: copy_chars(name), kind: copy_chars(kind), paths };
            out.push(row);
            proof {
                assert(row@.defined_in =~= seq![path@]);
                assert(row_models(out@) =~= row_models(before).push(row@));
            }
        }
        t += 1;
    }
    proof {
        assert(keys.take(triples.len() as int) =~= keys);
    }
    out
}

// ---------------------------------------------------------------------------
// The symbol table
// ---------------------------------------------------------------------------

/// A row of the symbol table: the files that declare a symbol of the row's
/// name and kind, each once, in ascending order.
pub open spec fn is_table_row(files: Seq<FileModel>, row: GlobalModel) -> bool {
    &&& row.defined_in.len() > 0
    &&& ascending(row.defined_in)
    &&& forall|p: Seq<char>| #[trigger]
        row.defined_in.contains(p) <==> declared_in(files, row.name, row.kind, p)
}

/// The order of the symbol table: symbols declared in more files first,
/// then by name, then by kind.
pub open spec fn ranks_before(a: GlobalModel, b: GlobalModel) -> bool {
    ||| a.defined_in.len() > b.defined_in.len()
    ||| a.defined_in.len() == b.defined_in.len() && (lex_lt(a.name, b.name) || (a.name == b.name
        && lex_lt(a.kind, b.kind)))
}

/// `table` is the symbol table of `files`: it has a row for every name and
/// kind that some file declares, every row is a row of the table, and the
/// rows are in the table's order, so that none occurs twice.
pub open spec fn is_symbol_table(files: Seq<FileModel>, table: Seq<GlobalModel>) -> bool {
    &&& forall|i: int| 0 <= i < table.len() ==> is_table_row(files, #[trigger] table[i])
    &&& forall|i: int, j: int|
        0 <= i < j < table.len() ==> ranks_before(#[trigger] table[i], #[trigger] table[j])
    &&& forall|name: Seq<char>, kind: Seq<char>| #[trigger]
        is_declared(files, name, kind) ==> exists|i: int|
            0 <= i < table.len() && (#[trigger] table[i]).name == name && table[i].kind == kind
}

/// The same rows in ascending order of name and kind.
pub open spec fn is_catalogue(files: Seq<FileModel>, cat: Seq<GlobalModel>) -> bool {
    &&& forall|i: int| 0 <= i < cat.len() ==> is_table_row(files, #[trigger] cat[i])
    &&& forall|i: int, j: int|
        0 <= i < j < cat.len() ==> record_lt(pair_key(#[trigger] cat[i]), pair_key(#[trigger] cat[j]))
    &&& forall|name: Seq<char>, kind: Seq<char>| #[trigger]
        is_declared(files, name, kind) ==> exists|i: int|
            0 <= i < cat.len() && (#[trigger] cat[i]).name == name && cat[i].kind == kind
}

/// A declaration in a file is a declaration, and the file defines the name.
pub proof fn lemma_declared_in(
    files: Seq<FileModel>,
    name: Seq<char>,
    kind: Seq<char>,
    path: Seq<char>,
)
    requires
        declared_in(files, name, kind, path),
    ensures
        is_declared(files, name, kind),
        defines_name(files, name, path),
{
    let (i, j) = choose|i: int, j: int| declares_at(files, i, j, name, kind, path);
    assert(files[i].symbols[j].name == name);
}

/// What is declared is declared in some file.
pub proof fn lemma_is_declared(files: Seq<FileModel>, name: Seq<char>, kind: Seq<char>) -> (path:
    Seq<char>)
    requires
        is_declared(files, name, kind),
    ensures
        declared_in(files, name, kind, path),
{
    let (i, j) = choose|i: int, j: int|
        0 <= i < files.len() && 0 <= j < files[i].symbols.len() && (
        #[trigger] files[i].symbols[j]).name == name && files[i].symbols[j].kind == kind;
    assert(declares_at(files, i, j, name, kind, files[i].path));
    files[i].path
}

/// The grouped records of all declarations are the catalogue.
proof fn lemma_grouped_is_catalogue(files: Seq<FileModel>, l3: Seq<Seq<Seq<char>>>)
    requires
        increasing(l3),
        forall|k: Seq<Seq<char>>| #[trigger]
            l3.contains(k) <==> (k.len() == 3 && declared_in(files, k[0], k[1], k[2])),
    ensures
        is_catalogue(files, grouped(l3)),
{
    assert forall|i: int| 0 <= i < l3.len() implies (#[trigger] l3[i]).len() == 3 by {
        assert(l3.contains(l3[i]));
    }
    lemma_grouped(l3);
    let g = grouped(l3);
    assert forall|e: int| 0 <= e < g.len() implies is_table_row(files, #[trigger] g[e]) by {
        assert forall|p: Seq<char>| #[trigger]
            g[e].defined_in.contains(p) <==> declared_in(files, g[e].name, g[e].kind, p) by {
            let rec = seq![g[e].name, g[e].kind, p];
            assert(g[e].defined_in.contains(p) <==> l3.contains(rec));
            assert(rec.len() == 3 && rec[0] == g[e].name && rec[1] == g[e].kind && rec[2] == p);
        }
    }
    assert forall|name: Seq<char>, kind: Seq<char>| #[trigger]
        is_declared(files, name, kind) implies exists|i: int|
        0 <= i < g.len() && (#[trigger] g[i]).name == name && g[i].kind == kind by {
        let path = lemma_is_declared(files, name, kind);
        let rec = seq![name, kind, path];
        assert(rec.len() == 3 && rec[0] == name && rec[1] == kind && rec[2] == path);
        assert(l3.contains(rec));
        let u = choose|u: int| 0 <= u < l3.len() && l3[u] == rec;
        let e = choose|e: int|
            0 <= e < g.len() && (#[trigger] g[e]).name == (#[trigger] l3[u])[0] && g[e].kind
                == l3[u][1];
        assert(g[e].name == name && g[e].kind == kind);
    }
}

/// Rows in ascending order of name and kind are in ascending order of name,
/// and rows of one name in ascending order of kind.
proof fn lemma_catalogue_names(cat: Seq<GlobalModel>, e: int, f: int)
    requires
        forall|i: int, j: int|
            0 <= i < j < cat.len() ==> record_lt(
                pair_key(#[trigger] cat[i]),
                pair_key(#[trigger] cat[j]),
            ),
        0 <= e < f < cat.len(),
    ensures
        (cat[e].name != cat[f].name && lex_lt(cat[e].name, cat[f].name)) || (cat[e].name
            == cat[f].name && cat[e].kind != cat[f].kind && lex_lt(cat[e].kind, cat[f].kind)),
{
    assert(record_lt(pair_key(cat[e]), pair_key(cat[f])));
    lemma_record2_lt(cat[e].name, cat[e].kind, cat[f].name, cat[f].kind);
}

fn to_strings(v: &Vec<Vec<char>>, limit: usize) -> (r: Vec<String>)
    ensures
        texts(r@) == capped(rows(v@), limit as int),
{
    let n: usize = if v.len() > limit {
        limit
    } else {
        v.len()
    };
    let mut out: Vec<String> = Vec::new();
    let mut i: usize = 0;
    assert(texts(out@) =~= rows(v@).take(0));
    while i < n
        invariant
            i <= n <= v.len(),
            texts(out@) == rows(v@).take(i as int),
        decreases n - i,
    {
        let ghost before = out@;
        let s = string_of(v[i].as_slice());
        out.push(s);
        i += 1;
        proof {
            lemma_texts_push(before, s);
            assert(rows(v@).take(i as int) =~= rows(v@).take(i - 1).push(v@[i - 1]@));
        }
    }
    proof {
        if v.len() <= limit {
            assert(rows(v@).take(n as int) =~= rows(v@));
        }
    }
    out
}

/// The rows of the catalogue in the order of the symbol table.
pub open spec fn ranked(cat: Seq<GlobalModel>, order: Seq<usize>) -> Seq<GlobalModel> {
    Seq::new(order.len(), |i: int| cat[order[i] as int])
}

/// The catalogue, put into the order of a ranking by the number of files of
/// each row, is the symbol table.
proof fn lemma_ranked_is_table(
    files: Seq<FileModel>,
    cat: Seq<GlobalModel>,
    counts: Seq<nat>,
    order: Seq<usize>,
)
    requires
        is_catalogue(files, cat),
        counts.len() == cat.len(),
        cat.len() <= usize::MAX,
        forall|e: int| 0 <= e < cat.len() ==> (#[trigger] counts[e]) == cat[e].defined_in.len(),
        is_ranking(counts, order),
    ensures
        is_symbol_table(files, ranked(cat, order)),
        ranked(cat, order).len() == cat.len(),
{
    let table = ranked(cat, order);
    assert forall|i: int, j: int| 0 <= i < j < table.len() implies ranks_before(
        #[trigger] table[i],
        #[trigger] table[j],
    ) by {
        let a = order[i] as int;
        let b = order[j] as int;
        assert(outranks(counts, a, b));
        assert(counts[a] == cat[a].defined_in.len());
        assert(counts[b] == cat[b].defined_in.len());
        if counts[a] == counts[b] {
            lemma_catalogue_names(cat, a, b);
        }
    }
    assert forall|name: Seq<char>, kind: Seq<char>| #[trigger]
        is_declared(files, name, kind) implies exists|i: int|
        0 <= i < table.len() && (#[trigger] table[i]).name == name && table[i].kind == kind by {
        let e = choose|e: int| 0 <= e < cat.len() && (#[trigger] cat[e]).name == name && cat[e].kind
            == kind;
        assert(order.contains(e as usize));
        let i = choose|i: int| 0 <= i < order.len() && order[i] == e as usize;
        assert(table[i] == cat[e]);
    }
}

/// The first `MAX_GLOBAL_SYMBOLS` rows of the symbol table.
fn top_symbols(cat: &Vec<Row>, order: &Vec<usize>) -> (r: Vec<GlobalSymbol>)
    requires
        order@.len() == cat@.len(),
        forall|i: int| 0 <= i < order@.len() ==> (#[trigger] order@[i]) < cat@.len(),
    ensures
        global_models(r@) == capped(ranked(row_models(cat@), order@), MAX_GLOBAL_SYMBOLS as int),
{
    let ghost table = ranked(row_models(cat@), order@);
    let n: usize = if order.len() > MAX_GLOBAL_SYMBOLS {
        MAX_GLOBAL_SYMBOLS
    } else {
        order.len()
    };
    let mut out: Vec<GlobalSymbol> = Vec::new();
    let mut i: usize = 0;
    assert(global_models(out@) =~= table.take(0));
    while i < n
        invariant
            i <= n <= order.len(),
            order@.len() == cat@.len(),
            forall|x: int| 0 <= x < order@.len() ==> (#[trigger] order@[x]) < cat@.len(),
            table == ranked(row_models(cat@), order@),
            global_models(out@) == table.take(i as int),
        decreases n - i,
    {
        let row = &cat[order[i]];
        let defined_in = to_strings(&row.paths, row.paths.len());
        assert(rows(row.paths@).len() == row.paths@.len());
        let symbol = GlobalSymbol {
            name: string_of(row.name.as_slice()),
            kind: string_of(row.kind.as_slice()),
            defined_in,
        };
        let ghost before = out@;
        out.push(symbol);
        i += 1;
        proof {
            assert(table[i - 1] == cat@[order@[i - 1] as int]@);
            assert(symbol@ == table[i - 1]);
            assert(global_models(out@) =~= global_models(before).push(symbol@));
            assert(table.take(i as int) =~= table.take(i - 1).push(table[i - 1]));
        }
    }
    proof {
        if order.len() <= MAX_GLOBAL_SYMBOLS {
            assert(table.take(n as int) =~= table);
        }
    }
    out
}

// ---------------------------------------------------------------------------
// Open items: names declared with more than one kind
// ---------------------------------------------------------------------------

/// The name is declared with two kinds at least.
pub open spec fn has_conflict(files: Seq<FileModel>, name: Seq<char>) -> bool {
    exists|k1: Seq<char>, k2: Seq<char>|
        k1 != k2 && #[trigger] is_declared(files, name, k1) && #[trigger] is_declared(
            files,
            name,
            k2,
        )
}

/// The kinds with which the name is declared, each once, in ascending order.
pub open spec fn is_kind_list(files: Seq<FileModel>, name: Seq<char>, kinds: Seq<Seq<char>>) -> bool {
    &&& ascending(kinds)
    &&& forall|k: Seq<char>| #[trigger] kinds.contains(k) <==> is_declared(files, name, k)
}

/// The files that declare the name, each once, in ascending order.
pub open spec fn is_definer_list(
    files: Seq<FileModel>,
    name: Seq<char>,
    paths: Seq<Seq<char>>,
) -> bool {
    &&& ascending(paths)
    &&& forall|p: Seq<char>| #[trigger] paths.contains(p) <==> defines_name(files, name, p)
}

pub open spec fn conflict_message(name: Seq<char>, kinds: Seq<Seq<char>>) -> Seq<char> {
    "symbol '"@ + name + "' appears with multiple kinds: "@ + joined(kinds, ", "@)
}

/// An item that reports a name declared with several kinds: its message
/// lists the kinds, and it names the first files that declare the name.
pub open spec fn is_conflict_item(files: Seq<FileModel>, item: ItemModel) -> bool {
    &&& item.kind == "kind_conflict"@
    &&& exists|kinds: Seq<Seq<char>>| #[trigger]
        is_kind_list(files, item.symbol, kinds) && kinds.len() >= 2 && item.message
            == conflict_message(item.symbol, kinds)
    &&& exists|paths: Seq<Seq<char>>| #[trigger]
        is_definer_list(files, item.symbol, paths) && item.files == capped(
            paths,
            MAX_ITEM_FILES as int,
        )
}

/// `items` reports every name that is declared with several kinds, once,
/// in ascending order of the names.
pub open spec fn is_conflict_list(files: Seq<FileModel>, items: Seq<ItemModel>) -> bool {
    &&& forall|i: int| 0 <= i < items.len() ==> is_conflict_item(files, #[trigger] items[i])
    &&& forall|i: int, j: int|
        0 <= i < j < items.len() ==> lex_lt(
            (#[trigger] items[i]).symbol,
            (#[trigger] items[j]).symbol,
        )
    &&& forall|name: Seq<char>| #[trigger]
        has_conflict(files, name) ==> exists|i: int|
            0 <= i < items.len() && (#[trigger] items[i]).symbol == name
}

/// The rows of one name stand together: a row of the name of the run
/// `i..j` lies in the run, if the rows next to the run have other names.
proof fn lemma_run_names(cat: Seq<GlobalModel>, i: int, j: int, e: int)
    requires
        forall|a: int, b: int|
            0 <= a < b < cat.len() ==> record_lt(
                pair_key(#[trigger] cat[a]),
                pair_key(#[trigger] cat[b]),
            ),
        0 <= i < j <= cat.len(),
        i == 0 || cat[i - 1].name != cat[i].name,
        j == cat.len() || cat[j].name != cat[i].name,
        0 <= e < cat.len(),
        cat[e].name == cat[i].name,
    ensures
        i <= e < j,
{
    if e < i {
        lemma_catalogue_names(cat, i - 1, i);
        if e < i - 1 {
            lemma_catalogue_names(cat, e, i - 1);
            if cat[e].name != cat[i - 1].name {
                lemma_lex_asymmetric(cat[e].name, cat[i - 1].name);
            } else {
                lemma_lex_irreflexive(cat[e].name);
            }
        }
    } else if e >= j {
        lemma_catalogue_names(cat, i, j);
        if e > j {
            lemma_catalogue_names(cat, j, e);
            if cat[j].name != cat[e].name {
                lemma_lex_asymmetric(cat[j].name, cat[e].name);
            } else {
                lemma_lex_irreflexive(cat[e].name);
            }
        }
    }
}

/// What holds of the run `i..j` of rows of one name in the catalogue: its
/// kinds are the kinds of the name, the name has a conflict exactly if the
/// run has two rows at least, and every earlier row has a lesser name.
proof fn lemma_run(files: Seq<FileModel>, cat: Seq<GlobalModel>, i: int, j: int, kinds: Seq<Seq<char>>)
    requires
        is_catalogue(files, cat),
        0 <= i < j <= cat.len(),
        forall|e: int| i <= e < j ==> (#[trigger] cat[e]).name == cat[i].name,
        i == 0 || cat[i - 1].name != cat[i].name,
        j == cat.len() || cat[j].name != cat[i].name,
        kinds.len() == j - i,
        forall|t: int| 0 <= t < j - i ==> (#[trigger] kinds[t]) == cat[i + t].kind,
    ensures
        is_kind_list(files, cat[i].name, kinds),
        has_conflict(files, cat[i].name) <==> kinds.len() >= 2,
        forall|e: int| 0 <= e < i ==> lex_lt((#[trigger] cat[e]).name, cat[i].name),
{
    let name = cat[i].name;
    assert forall|e: int| 0 <= e < cat.len() && cat[e].name == name implies i <= e < j by {
        lemma_run_names(cat, i, j, e);
    }
    assert(ascending(kinds)) by {
        assert forall|a: int, b: int| 0 <= a < b < kinds.len() implies lex_lt(
            #[trigger] kinds[a],
            #[trigger] kinds[b],
        ) by {
            lemma_catalogue_names(cat, i + a, i + b);
            assert(cat[i + a].name == name && cat[i + b].name == name);
        }
    }
    assert forall|k: Seq<char>| #[trigger] kinds.contains(k) <==> is_declared(files, name, k) by {
        if kinds.contains(k) {
            let t = choose|t: int| 0 <= t < kinds.len() && kinds[t] == k;
            let row = cat[i + t];
            assert(is_table_row(files, row));
            let p = row.defined_in[0];
            assert(row.defined_in.contains(p));
            lemma_declared_in(files, row.name, row.kind, p);
        }
        if is_declared(files, name, k) {
            let e = choose|e: int|
                0 <= e < cat.len() && (#[trigger] cat[e]).name == name && cat[e].kind == k;
            assert(i <= e < j);
            assert(kinds[e - i] == k);
        }
    }
    if has_conflict(files, name) {
        let (k1, k2) = choose|k1: Seq<char>, k2: Seq<char>|
            k1 != k2 && #[trigger] is_declared(files, name, k1) && #[trigger] is_declared(
                files,
                name,
                k2,
            );
        assert(kinds.contains(k1) && kinds.contains(k2));
    }
    if kinds.len() >= 2 {
        assert(kinds.contains(kinds[0]));
        assert(kinds.contains(kinds[1]));
        lemma_lex_asymmetric(kinds[0], kinds[1]);
        assert(is_declared(files, name, kinds[0]) && is_declared(files, name, kinds[1]));
    }
    assert forall|e: int| 0 <= e < i implies lex_lt((#[trigger] cat[e]).name, name) by {
        lemma_catalogue_names(cat, e, i);
        if cat[e].name == name {
            lemma_run_names(cat, i, j, e);
        }
    }
}

/// The items made so far report the conflicts among the first `i` rows.
pub closed spec fn items_cover(
    files: Seq<FileModel>,
    cat: Seq<GlobalModel>,
    i: int,
    items: Seq<ItemModel>,
) -> bool {
    &&& forall|x: int| 0 <= x < items.len() ==> is_conflict_item(files, #[trigger] items[x])
    &&& forall|x: int, y: int|
        0 <= x < y < items.len() ==> lex_lt(
            (#[trigger] items[x]).symbol,
            (#[trigger] items[y]).symbol,
        )
    &&& forall|x: int|
        0 <= x < items.len() ==> exists|e: int|
            0 <= e < i && (#[trigger] cat[e]).name == (#[trigger] items[x]).symbol
    &&& forall|e: int|
        0 <= e < i && has_conflict(files, (#[trigger] cat[e]).name) ==> exists|x: int|
            0 <= x < items.len() && (#[trigger] items[x]).symbol == cat[e].name
}

proof fn lemma_items_start(files: Seq<FileModel>, cat: Seq<GlobalModel>)
    ensures
        items_cover(files, cat, 0, Seq::empty()),
{
}

proof fn lemma_items_push(
    files: Seq<FileModel>,
    cat: Seq<GlobalModel>,
    i: int,
    j: int,
    items: Seq<ItemModel>,
    item: ItemModel,
)
    requires
        items_cover(files, cat, i, items),
        0 <= i < j <= cat.len(),
        forall|e: int| i <= e < j ==> (#[trigger] cat[e]).name == cat[i].name,
        forall|e: int| 0 <= e < i ==> lex_lt((#[trigger] cat[e]).name, cat[i].name),
        is_conflict_item(files, item),
        item.symbol == cat[i].name,
    ensures
        items_cover(files, cat, j, items.push(item)),
{
    let now = items.push(item);
    assert forall|x: int| 0 <= x < now.len() implies is_conflict_item(files, #[trigger] now[x]) by {
        if x < items.len() {
            assert(now[x] == items[x]);
        }
    }
    assert forall|x: int, y: int| 0 <= x < y < now.len() implies lex_lt(
        (#[trigger] now[x]).symbol,
        (#[trigger] now[y]).symbol,
    ) by {
        assert(now[x] == items[x]);
        if y < items.len() {
            assert(now[y] == items[y]);
        } else {
            let e = choose|e: int|
                0 <= e < i && (#[trigger] cat[e]).name == (#[trigger] items[x]).symbol;
            assert(lex_lt(cat[e].name, cat[i].name));
        }
    }
    assert forall|x: int| 0 <= x < now.len() implies exists|e: int|
        0 <= e < j && (#[trigger] cat[e]).name == (#[trigger] now[x]).symbol by {
        if x < items.len() {
            assert(now[x] == items[x]);
            let e = choose|e: int|
                0 <= e < i && (#[trigger] cat[e]).name == (#[trigger] items[x]).symbol;
            assert(0 <= e < j && cat[e].name == now[x].symbol);
        } else {
            assert(cat[i].name == now[x].symbol);
        }
    }
    assert forall|e: int|
        0 <= e < j && has_conflict(files, (#[trigger] cat[e]).name) implies exists|x: int|
        0 <= x < now.len() && (#[trigger] now[x]).symbol == cat[e].name by {
        if e < i {
            let x = choose|x: int|
                0 <= x < items.len() && (#[trigger] items[x]).symbol == cat[e].name;
            assert(now[x] == items[x]);
        } else {
            assert(now[items.len() as int].symbol == cat[e].name);
        }
    }
}

proof fn lemma_items_skip(
    files: Seq<FileModel>,
    cat: Seq<GlobalModel>,
    i: int,
    j: int,
    items: Seq<ItemModel>,
)
    requires
        items_cover(files, cat, i, items),
        0 <= i < j <= cat.len(),
        forall|e: int| i <= e < j ==> (#[trigger] cat[e]).name == cat[i].name,
        !has_conflict(files, cat[i].name),
    ensures
        items_cover(files, cat, j, items),
{
    assert forall|x: int| 0 <= x < items.len() implies exists|e: int|
        0 <= e < j && (#[trigger] cat[e]).name == (#[trigger] items[x]).symbol by {
        let e = choose|e: int|
            0 <= e < i && (#[trigger] cat[e]).name == (#[trigger] items[x]).symbol;
        assert(0 <= e < j && cat[e].name == items[x].symbol);
    }
    assert forall|e: int|
        0 <= e < j && has_conflict(files, (#[trigger] cat[e]).name) implies exists|x: int|
        0 <= x < items.len() && (#[trigger] items[x]).symbol == cat[e].name by {
        if e >= i {
            assert(cat[e].name == cat[i].name);
        }
    }
}

proof fn lemma_items_done(files: Seq<FileModel>, cat: Seq<GlobalModel>, items: Seq<ItemModel>)
    requires
        is_catalogue(files, cat),
        items_cover(files, cat, cat.len() as int, items),
    ensures
        is_conflict_list(files, items),
{
    assert forall|name: Seq<char>| #[trigger] has_conflict(files, name) implies exists|x: int|
        0 <= x < items.len() && (#[trigger] items[x]).symbol == name by {
        let (k1, k2) = choose|k1: Seq<char>, k2: Seq<char>|
            k1 != k2 && #[trigger] is_declared(files, name, k1) && #[trigger] is_declared(
                files,
                name,
                k2,
            );
        let e = choose|e: int|
            0 <= e < cat.len() && (#[trigger] cat[e]).name == name && cat[e].kind == k1;
        assert(has_conflict(files, cat[e].name));
    }
}

/// The item that reports `name` as declared with `kinds` in `paths`.
fn conflict_item(name: &[char], kinds: &Vec<Vec<char>>, paths: &Vec<Vec<char>>) -> (item: OpenItem)
    ensures
        item@.kind == "kind_conflict"@,
        item@.symbol == name@,
        item@.message == conflict_message(name@, rows(kinds@)),
        item@.files == capped(rows(paths@), MAX_ITEM_FILES as int),
{
    let mut message = chars_of("symbol '");
    push_chars(&mut message, name);
    push_chars(&mut message, chars_of("' appears with multiple kinds: ").as_slice());
    let listed = join_range(kinds, 0, kinds.len(), chars_of(", ").as_slice());
    push_chars(&mut message, listed.as_slice());
    proof {
        assert(rows(kinds@).subrange(0, kinds@.len() as int) =~= rows(kinds@));
    }
    OpenItem {
        kind: string_of(chars_of("kind_conflict").as_slice()),
        symbol: string_of(name),
        message: string_of(message.as_slice()),
        files: to_strings(paths, MAX_ITEM_FILES),
    }
}

/// The files that declare `name`, in ascending order.
fn definers(name_paths: &Vec<Record>, name: &[char], Ghost(files): Ghost<Seq<FileModel>>) -> (paths:
    Vec<Vec<char>>)
    requires
        increasing(keys_of(name_paths@)),
        forall|k: Seq<Seq<char>>| #[trigger]
            keys_of(name_paths@).contains(k) <==> (k.len() == 2 && defines_name(files, k[0], k[1])),
    ensures
        is_definer_list(files, name@, rows(paths@)),
{
    proof {
        assert forall|x: int| 0 <= x < name_paths@.len() implies (
        #[trigger] name_paths@[x]).key().len() == 2 by {
            assert(keys_of(name_paths@)[x] == name_paths@[x].key());
            assert(keys_of(name_paths@).contains(name_paths@[x].key()));
        }
    }
    let paths = seconds_of(name_paths, name);
    proof {
        assert forall|p: Seq<char>| #[trigger]
            rows(paths@).contains(p) <==> defines_name(files, name@, p) by {
            let k = seq![name@, p];
            assert(k.len() == 2 && k[0] == name@ && k[1] == p);
            assert(rows(paths@).contains(p) <==> keys_of(name_paths@).contains(k));
        }
    }
    paths
}

/// The items for the names that the catalogue holds with several kinds.
fn open_items_of(
    cat: &Vec<Row>,
    name_paths: &Vec<Record>,
    Ghost(files): Ghost<Seq<FileModel>>,
) -> (items: Vec<OpenItem>)
    requires
        is_catalogue(files, row_models(cat@)),
        increasing(keys_of(name_paths@)),
        forall|k: Seq<Seq<char>>| #[trigger]
            keys_of(name_paths@).contains(k) <==> (k.len() == 2 && defines_name(files, k[0], k[1])),
    ensures
        is_conflict_list(files, item_models(items@)),
{
    let ghost rowsm = row_models(cat@);
    let mut items: Vec<OpenItem> = Vec::new();
    let mut i: usize = 0;
    proof {
        lemma_items_start(files, rowsm);
        assert(item_models(items@) =~= Seq::<ItemModel>::empty());
    }
    while i < cat.len()
        invariant
            i <= cat.len(),
            rowsm == row_models(cat@),
            is_catalogue(files, rowsm),
            increasing(keys_of(name_paths@)),
            forall|k: Seq<Seq<char>>| #[trigger]
                keys_of(name_paths@).contains(k) <==> (k.len() == 2 && defines_name(
                    files,
                    k[0],
                    k[1],
                )),
            i == 0 || i == cat.len() || rowsm[i - 1].name != rowsm[i as int].name,
            items_cover(files, rowsm, i as int, item_models(items@)),
        decreases cat.len() - i,
    {
        let name = cat[i].name.as_slice();
        let mut kinds: Vec<Vec<char>> = Vec::new();
        kinds.push(copy_chars(cat[i].kind.as_slice()));
        let mut j: usize = i + 1;
        proof {
            assert(rowsm[i as int] == cat@[i as int]@);
            assert(rows(kinds@) =~= seq![rowsm[i as int].kind]);
        }
        while j < cat.len() && same_chars(cat[j].name.as_slice(), name)
            invariant
                i < j <= cat.len(),
                rowsm == row_models(cat@),
                name@ == rowsm[i as int].name,
                forall|e: int| i <= e < j ==> (#[trigger] rowsm[e]).name == name@,
                kinds@.len() == j - i,
                forall|t: int| 0 <= t < j - i ==> (#[trigger] rows(kinds@)[t]) == rowsm[i + t].kind,
            decreases cat.len() - j,
        {
            let ghost before = kinds@;
            let kind = copy_chars(cat[j].kind.as_slice());
            kinds.push(kind);
            proof {
                lemma_rows_push(before, kind);
                assert(rowsm[j as int] == cat@[j as int]@);
            }
            j += 1;
        }
        proof {
            if j < cat.len() {
                assert(rowsm[j as int] == cat@[j as int]@);
            }
            lemma_run(files, rowsm, i as int, j as int, rows(kinds@));
        }
        if kinds.len() >= 2 {
            let paths = definers(name_paths, name, Ghost(files));
            let item = conflict_item(name, &kinds, &paths);
            let ghost before = items@;
            items.push(item);
            proof {
                assert(item_models(items@) =~= item_models(before).push(item@));
                assert(is_kind_list(files, item@.symbol, rows(kinds@)));
                assert(is_definer_list(files, item@.symbol, rows(paths@)));
                assert(is_conflict_item(files, item@));
                lemma_items_push(files, rowsm, i as int, j as int, item_models(before), item@);
            }
        } else {
            proof {
                lemma_items_skip(files, rowsm, i as int, j as int, item_models(items@));
            }
        }
        i = j;
    }
    proof {
        lemma_items_done(files, rowsm, item_models(items@));
    }
    items
}

// ---------------------------------------------------------------------------
// Links: imports that name a symbol of another file
// ---------------------------------------------------------------------------

/// One of the first `upto` imports has `symbol` among its candidates.
pub open spec fn imported_in(
    imports: Seq<Seq<char>>,
    language: Language,
    upto: int,
    symbol: Seq<char>,
) -> bool {
    exists|m: int|
        0 <= m < upto && m < imports.len() && candidates(#[trigger] imports[m], language).contains(
            symbol,
        )
}

/// One of the first `upto` files has the path `from` and an import with
/// `symbol` among its candidates.
pub open spec fn importing_before(
    files: Seq<FileModel>,
    upto: int,
    from: Seq<char>,
    symbol: Seq<char>,
) -> bool {
    exists|f: int|
        0 <= f < upto && f < files.len() && (#[trigger] files[f]).path == from && imported_in(
            files[f].imports,
            language_of(files[f].language),
            files[f].imports.len() as int,
            symbol,
        )
}

/// A file at `from` has an import with `symbol` among its candidates.
pub open spec fn imports_candidate(files: Seq<FileModel>, from: Seq<char>, symbol: Seq<char>) -> bool {
    importing_before(files, files.len() as int, from, symbol)
}

/// There is a link from `from` to `to` by `symbol`: a file at `from`
/// imports what may be `symbol`, and the other file `to` declares a symbol
/// of that name.
pub open spec fn is_link(
    files: Seq<FileModel>,
    from: Seq<char>,
    symbol: Seq<char>,
    to: Seq<char>,
) -> bool {
    &&& from != to
    &&& imports_candidate(files, from, symbol)
    &&& defines_name(files, symbol, to)
}

/// The fields by which links are ordered.
pub open spec fn link_key(link: LinkModel) -> Seq<Seq<char>> {
    seq![link.from_file, link.symbol, link.to_file]
}

/// `links` holds a link from `from` by `symbol` to `to`.
pub open spec fn has_link(
    links: Seq<LinkModel>,
    from: Seq<char>,
    symbol: Seq<char>,
    to: Seq<char>,
) -> bool {
    exists|i: int| 0 <= i < links.len() && link_key(#[trigger] links[i]) == seq![from, symbol, to]
}

/// `links` holds every link of the files.
pub open spec fn holds_all_links(files: Seq<FileModel>, links: Seq<LinkModel>) -> bool {
    forall|from: Seq<char>, symbol: Seq<char>, to: Seq<char>|
        is_link(files, from, symbol, to) ==> #[trigger] has_link(links, from, symbol, to)
}

/// `links` holds every link of the files once, in ascending order of the
/// importing file, the symbol and the declaring file.
pub open spec fn is_link_list(files: Seq<FileModel>, links: Seq<LinkModel>) -> bool {
    &&& forall|i: int|
        0 <= i < links.len() ==> (#[trigger] links[i]).reason == "import"@ && is_link(
            files,
            links[i].from_file,
            links[i].symbol,
            links[i].to_file,
        )
    &&& forall|i: int, j: int|
        0 <= i < j < links.len() ==> record_lt(
            link_key(#[trigger] links[i]),
            link_key(#[trigger] links[j]),
        )
    &&& holds_all_links(files, links)
}

/// A link of the files is in their list of links.
pub proof fn lemma_link_listed(
    files: Seq<FileModel>,
    links: Seq<LinkModel>,
    from: Seq<char>,
    symbol: Seq<char>,
    to: Seq<char>,
)
    requires
        is_link_list(files, links),
        is_link(files, from, symbol, to),
    ensures
        has_link(links, from, symbol, to),
{
}

/// Adds the links from `from` by `symbol` to each of `dests` but `from`.
fn add_links_to(links: &mut Vec<Record>, from: &[char], symbol: &[char], dests: &Vec<Vec<char>>)
    requires
        increasing(keys_of(old(links)@)),
    ensures
        increasing(keys_of(final(links)@)),
        forall|k: Seq<Seq<char>>| #[trigger]
            keys_of(final(links)@).contains(k) <==> (keys_of(old(links)@).contains(k) || (k.len()
                == 3 && k[0] == from@ && k[1] == symbol@ && k[2] != from@ && rows(
                dests@,
            ).contains(k[2]))),
{
    let ghost first = keys_of(links@);
    let ghost all = rows(dests@);
    let mut d: usize = 0;
    while d < dests.len()
        invariant
            d <= dests.len(),
            all == rows(dests@),
            increasing(keys_of(links@)),
            forall|k: Seq<Seq<char>>| #[trigger]
                keys_of(links@).contains(k) <==> (first.contains(k) || (k.len() == 3 && k[0]
                    == from@ && k[1] == symbol@ && k[2] != from@ && all.take(d as int).contains(
                    k[2],
                ))),
        decreases dests.len() - d,
    {
        let dest = dests[d].as_slice();
        let ghost before = keys_of(links@);
        proof {
            assert(all.take(d + 1).drop_last() =~= all.take(d as int));
            assert(all.take(d + 1).last() == dest@);
            assert forall|x: Seq<char>|
                all.take(d + 1).contains(x) <==> (all.take(d as int).contains(x) || x == dest@) by {
                lemma_contains_last(all.take(d + 1), x);
            }
        }
        if !same_chars(dest, from) {
            let record = record3(from, symbol, dest);
            let ghost key = record.key();
            insert_unique(links, record);
            proof {
                assert forall|k: Seq<Seq<char>>| #[trigger]
                    keys_of(links@).contains(k) <==> (first.contains(k) || (k.len() == 3 && k[0]
                        == from@ && k[1] == symbol@ && k[2] != from@ && all.take(d + 1).contains(
                        k[2],
                    ))) by {
                    assert(before.contains(k) <==> (first.contains(k) || (k.len() == 3 && k[0]
                        == from@ && k[1] == symbol@ && k[2] != from@ && all.take(
                        d as int,
                    ).contains(k[2]))));
                    assert(all.take(d + 1).contains(k[2]) <==> (all.take(d as int).contains(k[2])
                        || k[2] == dest@));
                    if k.len() == 3 && k[0] == from@ && k[1] == symbol@ && k[2] == dest@ {
                        assert(k =~= key);
                    }
                }
            }
        } else {
            proof {
                assert forall|k: Seq<Seq<char>>| #[trigger]
                    keys_of(links@).contains(k) <==> (first.contains(k) || (k.len() == 3 && k[0]
                        == from@ && k[1] == symbol@ && k[2] != from@ && all.take(d + 1).contains(
                        k[2],
                    ))) by {
                    assert(all.take(d + 1).contains(k[2]) <==> (all.take(d as int).contains(k[2])
                        || k[2] == dest@));
                }
            }
        }
        d += 1;
    }
    proof {
        assert(all.take(dests.len() as int) =~= all);
    }
}

/// Adds the links from `from` that one of its imports suggests.
fn add_links_for_import(
    links: &mut Vec<Record>,
    from: &[char],
    import: &[char],
    language: Language,
    name_paths: &Vec<Record>,
)
    requires
        increasing(keys_of(old(links)@)),
        increasing(keys_of(name_paths@)),
        forall|i: int| 0 <= i < name_paths@.len() ==> (#[trigger] name_paths@[i]).key().len() == 2,
    ensures
        increasing(keys_of(final(links)@)),
        forall|k: Seq<Seq<char>>| #[trigger]
            keys_of(final(links)@).contains(k) <==> (keys_of(old(links)@).contains(k) || (k.len()
                == 3 && k[0] == from@ && k[2] != from@ && candidates(import@, language).contains(
                k[1],
            ) && keys_of(name_paths@).contains(seq![k[1], k[2]]))),
{
    let ghost first = keys_of(links@);
    let ghost np = keys_of(name_paths@);
    let cands = import_symbol_candidates(import, language);
    let ghost all = rows(cands@);
    let mut c: usize = 0;
    while c < cands.len()
        invariant
            c <= cands.len(),
            all == rows(cands@),
            np == keys_of(name_paths@),
            increasing(np),
            forall|i: int| 0 <= i < name_paths@.len() ==> (#[trigger] name_paths@[i]).key().len()
                == 2,
            increasing(keys_of(links@)),
            forall|k: Seq<Seq<char>>| #[trigger]
                keys_of(links@).contains(k) <==> (first.contains(k) || (k.len() == 3 && k[0]
                    == from@ && k[2] != from@ && all.take(c as int).contains(k[1]) && np.contains(
                    seq![k[1], k[2]],
                ))),
        decreases cands.len() - c,
    {
        let symbol = cands[c].as_slice();
        let dests = seconds_of(name_paths, symbol);
        let ghost before = keys_of(links@);
        add_links_to(links, from, symbol, &dests);
        proof {
            assert(all.take(c + 1).drop_last() =~= all.take(c as int));
            assert(all.take(c + 1).last() == symbol@);
            assert forall|k: Seq<Seq<char>>| #[trigger]
                keys_of(links@).contains(k) <==> (first.contains(k) || (k.len() == 3 && k[0]
                    == from@ && k[2] != from@ && all.take(c + 1).contains(k[1]) && np.contains(
                    seq![k[1], k[2]],
                ))) by {
                assert(before.contains(k) <==> (first.contains(k) || (k.len() == 3 && k[0]
                    == from@ && k[2] != from@ && all.take(c as int).contains(k[1]) && np.contains(
                    seq![k[1], k[2]],
                ))));
                lemma_contains_last(all.take(c + 1), k[1]);
                assert(rows(dests@).contains(k[2]) <==> np.contains(seq![symbol@, k[2]]));
            }
        }
        c += 1;
    }
    proof {
        assert(all.take(cands.len() as int) =~= all);
    }
}

/// Adds the links that the imports of one file suggest.
fn add_links_for_file(links: &mut Vec<Record>, file: &FileMemory, name_paths: &Vec<Record>)
    requires
        increasing(keys_of(old(links)@)),
        increasing(keys_of(name_paths@)),
        forall|i: int| 0 <= i < name_paths@.len() ==> (#[trigger] name_paths@[i]).key().len() == 2,
    ensures
        increasing(keys_of(final(links)@)),
        forall|k: Seq<Seq<char>>| #[trigger]
            keys_of(final(links)@).contains(k) <==> (keys_of(old(links)@).contains(k) || (k.len()
                == 3 && k[0] == file@.path && k[2] != k[0] && imported_in(
                file@.imports,
                language_of(file@.language),
                file@.imports.len() as int,
                k[1],
            ) && keys_of(name_paths@).contains(seq![k[1], k[2]]))),
{
    let ghost first = keys_of(links@);
    let ghost np = keys_of(name_paths@);
    let from = chars_of(file.path.as_str());
    let tag = chars_of(file.language.as_str());
    let language = language_from_chars(tag.as_slice());
    let ghost imports = texts(file.imports@);
    let mut m: usize = 0;
    while m < file.imports.len()
        invariant
            m <= file.imports.len(),
            imports == texts(file.imports@),
            imports == file@.imports,
            from@ == file@.path,
            language == language_of(file@.language),
            np == keys_of(name_paths@),
            increasing(np),
            forall|i: int| 0 <= i < name_paths@.len() ==> (#[trigger] name_paths@[i]).key().len()
                == 2,
            increasing(keys_of(links@)),
            forall|k: Seq<Seq<char>>| #[trigger]
                keys_of(links@).contains(k) <==> (first.contains(k) || (k.len() == 3 && k[0]
                    == from@ && k[2] != from@ && imported_in(imports, language, m as int, k[1])
                    && np.contains(seq![k[1], k[2]]))),
        decreases file.imports.len() - m,
    {
        let import = chars_of(file.imports[m].as_str());
        let ghost before = keys_of(links@);
        add_links_for_import(links, from.as_slice(), import.as_slice(), language, name_paths);
        proof {
            assert(imports[m as int] == import@);
            assert forall|s: Seq<char>|
                imported_in(imports, language, m + 1, s) <==> (imported_in(
                    imports,
                    language,
                    m as int,
                    s,
                ) || candidates(import@, language).contains(s)) by {
                if imported_in(imports, language, m + 1, s) {
                    let x = choose|x: int|
                        0 <= x < m + 1 && x < imports.len() && candidates(
                            #[trigger] imports[x],
                            language,
                        ).contains(s);
                    if x < m {
                        assert(imported_in(imports, language, m as int, s));
                    }
                }
                if imported_in(imports, language, m as int, s) {
                    let x = choose|x: int|
                        0 <= x < m && x < imports.len() && candidates(
                            #[trigger] imports[x],
                            language,
                        ).contains(s);
                    assert(0 <= x < m + 1 && candidates(imports[x], language).contains(s));
                }
                if candidates(import@, language).contains(s) {
                    assert(candidates(imports[m as int], language).contains(s));
                }
            }
            assert forall|k: Seq<Seq<char>>| #[trigger]
                keys_of(links@).contains(k) <==> (first.contains(k) || (k.len() == 3 && k[0]
                    == from@ && k[2] != from@ && imported_in(imports, language, m + 1, k[1])
                    && np.contains(seq![k[1], k[2]]))) by {
                assert(before.contains(k) <==> (first.contains(k) || (k.len() == 3 && k[0]
                    == from@ && k[2] != from@ && imported_in(imports, language, m as int, k[1])
                    && np.contains(seq![k[1], k[2]]))));
                assert(imported_in(imports, language, m + 1, k[1]) <==> (imported_in(
                    imports,
                    language,
                    m as int,
                    k[1],
                ) || candidates(import@, language).contains(k[1])));
            }
        }
        m += 1;
    }
}

/// The links of the files as records of importing file, symbol and
/// declaring file, in ascending order.
fn link_records(files: &[FileMemory], name_paths: &Vec<Record>) -> (links: Vec<Record>)
    requires
        increasing(keys_of(name_paths@)),
        forall|k: Seq<Seq<char>>| #[trigger]
            keys_of(name_paths@).contains(k) <==> (k.len() == 2 && defines_name(
                file_models(files@),
                k[0],
                k[1],
            )),
    ensures
        increasing(keys_of(links@)),
        forall|k: Seq<Seq<char>>| #[trigger]
            keys_of(links@).contains(k) <==> (k.len() == 3 && is_link(
                file_models(files@),
                k[0],
                k[1],
                k[2],
            )),
{
    let ghost fm = file_models(files@);
    let ghost np = keys_of(name_paths@);
    let mut links: Vec<Record> = Vec::new();
    let mut f: usize = 0;
    proof {
        assert forall|x: int| 0 <= x < name_paths@.len() implies (
        #[trigger] name_paths@[x]).key().len() == 2 by {
            assert(np[x] == name_paths@[x].key());
            assert(np.contains(name_paths@[x].key()));
        }
    }
    while f < files.len()
        invariant
            f <= files.len(),
            fm == file_models(files@),
            np == keys_of(name_paths@),
            increasing(np),
            forall|i: int| 0 <= i < name_paths@.len() ==> (#[trigger] name_paths@[i]).key().len()
                == 2,
            increasing(keys_of(links@)),
            forall|k: Seq<Seq<char>>| #[trigger]
                keys_of(links@).contains(k) <==> (k.len() == 3 && k[0] != k[2] && importing_before(
                    fm,
                    f as int,
                    k[0],
                    k[1],
                ) && np.contains(seq![k[1], k[2]])),
        decreases files.len() - f,
    {
        let ghost before = keys_of(links@);
        add_links_for_file(&mut links, &files[f], name_paths);
        proof {
            let file = fm[f as int];
            assert(file == files@[f as int]@);
            assert forall|from: Seq<char>, s: Seq<char>|
                importing_before(fm, f + 1, from, s) <==> (importing_before(fm, f as int, from, s)
                    || (from == file.path && imported_in(
                    file.imports,
                    language_of(file.language),
                    file.imports.len() as int,
                    s,
                ))) by {
                if importing_before(fm, f + 1, from, s) {
                    let x = choose|x: int|
                        0 <= x < f + 1 && x < fm.len() && (#[trigger] fm[x]).path == from
                            && imported_in(
                            fm[x].imports,
                            language_of(fm[x].language),
                            fm[x].imports.len() as int,
                            s,
                        );
                    if x < f {
                        assert(importing_before(fm, f as int, from, s));
                    }
                }
                if importing_before(fm, f as int, from, s) {
                    let x = choose|x: int|
                        0 <= x < f && x < fm.len() && (#[trigger] fm[x]).path == from
                            && imported_in(
                            fm[x].imports,
                            language_of(fm[x].language),
                            fm[x].imports.len() as int,
                            s,
                        );
                    assert(0 <= x < f + 1 && fm[x].path == from);
                }
                if from == file.path && imported_in(
                    file.imports,
                    language_of(file.language),
                    file.imports.len() as int,
                    s,
                ) {
                    assert(fm[f as int].path == from);
                }
            }
            assert forall|k: Seq<Seq<char>>| #[trigger]
                keys_of(links@).contains(k) <==> (k.len() == 3 && k[0] != k[2] && importing_before(
                    fm,
                    f + 1,
                    k[0],
                    k[1],
                ) && np.contains(seq![k[1], k[2]])) by {
                assert(before.contains(k) <==> (k.len() == 3 && k[0] != k[2] && importing_before(
                    fm,
                    f as int,
                    k[0],
                    k[1],
                ) && np.contains(seq![k[1], k[2]])));
                assert(importing_before(fm, f + 1, k[0], k[1]) <==> (importing_before(
                    fm,
                    f as int,
                    k[0],
                    k[1],
                ) || (k[0] == file.path && imported_in(
                    file.imports,
                    language_of(file.language),
                    file.imports.len() as int,
                    k[1],
                ))));
            }
        }
        f += 1;
    }
    proof {
        assert forall|k: Seq<Seq<char>>| #[trigger]
            keys_of(links@).contains(k) <==> (k.len() == 3 && is_link(fm, k[0], k[1], k[2])) by {
            let pair = seq![k[1], k[2]];
            assert(pair.len() == 2 && pair[0] == k[1] && pair[1] == k[2]);
            assert(np.contains(pair) <==> defines_name(fm, k[1], k[2]));
        }
    }
    links
}

/// The links that the records stand for.
fn links_of_records(records: &Vec<Record>) -> (links: Vec<CrossFileLink>)
    requires
        forall|i: int| 0 <= i < records@.len() ==> (#[trigger] records@[i]).key().len() == 3,
    ensures
        links@.len() == records@.len(),
        forall|i: int|
            0 <= i < links@.len() ==> (#[trigger] link_models(links@)[i]).reason == "import"@
                && link_key(link_models(links@)[i]) == records@[i].key(),
{
    let mut links: Vec<CrossFileLink> = Vec::new();
    let mut i: usize = 0;
    while i < records.len()
        invariant
            i <= records.len(),
            links@.len() == i,
            forall|x: int| 0 <= x < records@.len() ==> (#[trigger] records@[x]).key().len() == 3,
            forall|x: int|
                0 <= x < i ==> (#[trigger] link_models(links@)[x]).reason == "import"@ && link_key(
                    link_models(links@)[x],
                ) == records@[x].key(),
        decreases records.len() - i,
    {
        let record = &records[i];
        proof {
            assert(records@[i as int].key().len() == 3);
        }
        let link = CrossFileLink {
            from_file: string_of(record.fields[0].as_slice()),
            to_file: string_of(record.fields[2].as_slice()),
            symbol: string_of(record.fields[1].as_slice()),
            reason: string_of(chars_of("import").as_slice()),
        };
        let ghost before = links@;
        links.push(link);
        proof {
            assert(link_key(link@) =~= record.key());
            assert forall|x: int| 0 <= x < i + 1 implies (#[trigger] link_models(links@)[x]).reason
                == "import"@ && link_key(link_models(links@)[x]) == records@[x].key() by {
                if x < i {
                    assert(link_models(links@)[x] == link_models(before)[x]);
                }
            }
        }
        i += 1;
    }
    links
}

/// Records of links in ascending order stand for the list of links.
proof fn lemma_link_list(files: Seq<FileModel>, keys: Seq<Seq<Seq<char>>>, links: Seq<LinkModel>)
    requires
        increasing(keys),
        forall|k: Seq<Seq<char>>| #[trigger]
            keys.contains(k) <==> (k.len() == 3 && is_link(files, k[0], k[1], k[2])),
        links.len() == keys.len(),
        forall|i: int|
            0 <= i < links.len() ==> (#[trigger] links[i]).reason == "import"@ && link_key(
                links[i],
            ) == keys[i],
    ensures
        is_link_list(files, links),
{
    assert forall|i: int| 0 <= i < links.len() implies (#[trigger] links[i]).reason == "import"@
        && is_link(files, links[i].from_file, links[i].symbol, links[i].to_file) by {
        assert(keys.contains(keys[i]));
        let k = link_key(links[i]);
        assert(k[0] == links[i].from_file && k[1] == links[i].symbol && k[2] == links[i].to_file);
    }
    assert forall|i: int, j: int| 0 <= i < j < links.len() implies record_lt(
        link_key(#[trigger] links[i]),
        link_key(#[trigger] links[j]),
    ) by {
        assert(record_lt(keys[i], keys[j]));
    }
    assert forall|from: Seq<char>, symbol: Seq<char>, to: Seq<char>|
        is_link(files, from, symbol, to) implies #[trigger] has_link(links, from, symbol, to) by {
        let k = seq![from, symbol, to];
        assert(k.len() == 3 && k[0] == from && k[1] == symbol && k[2] == to);
        assert(keys.contains(k));
        let i = choose|i: int| 0 <= i < keys.len() && keys[i] == k;
        assert(link_key(links[i]) == k);
    }
}

// ---------------------------------------------------------------------------
// The parts of the memory, each cut to its cap
// ---------------------------------------------------------------------------

/// The catalogue of the declarations of the files, with the records of
/// name and path.
fn catalogue(files: &[FileMemory]) -> (r: (Vec<Row>, Vec<Record>))
    ensures
        is_catalogue(file_models(files@), row_models(r.0@)),
        increasing(keys_of(r.1@)),
        forall|k: Seq<Seq<char>>| #[trigger]
            keys_of(r.1@).contains(k) <==> (k.len() == 2 && defines_name(
                file_models(files@),
                k[0],
                k[1],
            )),
{
    let ghost fm = file_models(files@);
    let (triples, name_paths) = declaration_records(files);
    proof {
        assert forall|i: int| 0 <= i < triples@.len() implies (#[trigger] triples@[i]).key().len()
            == 3 by {
            assert(keys_of(triples@)[i] == triples@[i].key());
            assert(keys_of(triples@).contains(triples@[i].key()));
        }
        lemma_grouped_is_catalogue(fm, keys_of(triples@));
    }
    let cat = group_rows(&triples);
    (cat, name_paths)
}

fn capped_open_items(
    cat: &Vec<Row>,
    name_paths: &Vec<Record>,
    Ghost(files): Ghost<Seq<FileModel>>,
) -> (items: Vec<OpenItem>)
    requires
        is_catalogue(files, row_models(cat@)),
        increasing(keys_of(name_paths@)),
        forall|k: Seq<Seq<char>>| #[trigger]
            keys_of(name_paths@).contains(k) <==> (k.len() == 2 && defines_name(files, k[0], k[1])),
    ensures
        is_conflict_list(files, conflict_list(files)),
        item_models(items@) == capped(conflict_list(files), MAX_OPEN_ITEMS as int),
{
    let mut open_items = open_items_of(cat, name_paths, Ghost(files));
    let ghost items = item_models(open_items@);
    if open_items.len() > MAX_OPEN_ITEMS {
        open_items.truncate(MAX_OPEN_ITEMS);
        proof {
            assert(item_models(open_items@) =~= items.take(MAX_OPEN_ITEMS as int));
        }
    }
    proof {
        lemma_conflict_list_unique(files, items, conflict_list(files));
    }
    open_items
}

/// The open items of a project: for each name that is declared with
/// several kinds one item, in ascending order of the names, the first 120
/// of them.
pub fn build_open_items(files: &[FileMemory]) -> (items: Vec<OpenItem>)
    ensures
        is_conflict_list(file_models(files@), conflict_list(file_models(files@))),
        item_models(items@) == capped(conflict_list(file_models(files@)), MAX_OPEN_ITEMS as int),
{
    let (cat, name_paths) = catalogue(files);
    capped_open_items(&cat, &name_paths, Ghost(file_models(files@)))
}

fn capped_links(files: &[FileMemory], name_paths: &Vec<Record>) -> (links: Vec<CrossFileLink>)
    requires
        increasing(keys_of(name_paths@)),
        forall|k: Seq<Seq<char>>| #[trigger]
            keys_of(name_paths@).contains(k) <==> (k.len() == 2 && defines_name(
                file_models(files@),
                k[0],
                k[1],
            )),
    ensures
        is_link_list(file_models(files@), link_list(file_models(files@))),
        link_models(links@) == capped(link_list(file_models(files@)), MAX_PROJECT_LINKS as int),
{
    let ghost fm = file_models(files@);
    let records = link_records(files, name_paths);
    proof {
        assert forall|i: int| 0 <= i < records@.len() implies (#[trigger] records@[i]).key().len()
            == 3 by {
            assert(keys_of(records@)[i] == records@[i].key());
            assert(keys_of(records@).contains(records@[i].key()));
        }
    }
    let mut links = links_of_records(&records);
    let ghost all_links = link_models(links@);
    proof {
        assert forall|i: int| 0 <= i < all_links.len() implies (#[trigger] all_links[i]).reason
            == "import"@ && link_key(all_links[i]) == keys_of(records@)[i] by {
            assert(keys_of(records@)[i] == records@[i].key());
        }
        lemma_link_list(fm, keys_of(records@), all_links);
    }
    if links.len() > MAX_PROJECT_LINKS {
        links.truncate(MAX_PROJECT_LINKS);
        proof {
            assert(link_models(links@) =~= all_links.take(MAX_PROJECT_LINKS as int));
        }
    }
    proof {
        lemma_link_list_unique(fm, all_links, link_list(fm));
    }
    links
}

/// The links of a project: from each file to every other file that
/// declares a name which one of its imports suggests, in ascending order
/// of importing file, name and declaring file, the first 400 of them.
pub fn build_links(files: &[FileMemory]) -> (links: Vec<CrossFileLink>)
    ensures
        is_link_list(file_models(files@), link_list(file_models(files@))),
        link_models(links@) == capped(link_list(file_models(files@)), MAX_PROJECT_LINKS as int),
{
    let (_, name_paths) = catalogue(files);
    capped_links(files, &name_paths)
}

// ---------------------------------------------------------------------------
// The memory of the project
// ---------------------------------------------------------------------------

fn copy_files(files: &[FileMemory]) -> (r: Vec<FileMemory>)
    ensures
        file_models(r@) == file_models(files@),
{
    let mut out: Vec<FileMemory> = Vec::new();
    let mut i: usize = 0;
    while i < files.len()
        invariant
            i <= files.len(),
            out@.len() == i,
            forall|j: int| 0 <= j < i ==> (#[trigger] out@[j])@ == files@[j]@,
        decreases files.len() - i,
    {
        out.push(files[i].clone());
        i += 1;
    }
    assert(file_models(out@) =~= file_models(files@));
    out
}

/// The number of files of each row.
fn row_counts(cat: &Vec<Row>) -> (counts: Vec<u128>)
    ensures
        counts@.len() == cat@.len(),
        forall|e: int|
            0 <= e < cat@.len() ==> (#[trigger] counts@[e]) == row_models(
                cat@,
            )[e].defined_in.len(),
{
    let mut counts: Vec<u128> = Vec::new();
    let mut e: usize = 0;
    while e < cat.len()
        invariant
            e <= cat.len(),
            counts@.len() == e,
            forall|x: int|
                0 <= x < e ==> (#[trigger] counts@[x]) == row_models(cat@)[x].defined_in.len(),
        decreases cat.len() - e,
    {
        let n: usize = cat[e].paths.len();
        counts.push(n as u128);
        e += 1;
    }
    counts
}

/// The memory of a project with the given files.
///
/// The files are kept as they are given. The symbol table, the open items
/// and the links are each cut to their cap; `unique_symbol_count` is the
/// number of rows of the whole symbol table.
pub fn build_project_memory(files: &[FileMemory]) -> (memory: ProjectMemory)
    ensures
        memory@.files == file_models(files@),
        memory.file_count == files@.len(),
        is_symbol_table(file_models(files@), symbol_table(file_models(files@))),
        memory@.global_symbols == capped(
            symbol_table(file_models(files@)),
            MAX_GLOBAL_SYMBOLS as int,
        ),
        memory.unique_symbol_count == symbol_table(file_models(files@)).len(),
        is_conflict_list(file_models(files@), conflict_list(file_models(files@))),
        memory@.open_items == capped(conflict_list(file_models(files@)), MAX_OPEN_ITEMS as int),
        is_link_list(file_models(files@), link_list(file_models(files@))),
        memory@.links == capped(link_list(file_models(files@)), MAX_PROJECT_LINKS as int),
{
    let ghost fm = file_models(files@);
    let (cat, name_paths) = catalogue(files);
    let row_count: usize = cat.len();
    let counts = row_counts(&cat);
    let order = rank_indices(&counts);
    let ghost table = ranked(row_models(cat@), order@);
    proof {
        assert forall|e: int| 0 <= e < cat@.len() implies (#[trigger] as_nats(counts@)[e]) == row_models(
            cat@,
        )[e].defined_in.len() by {
            assert(as_nats(counts@)[e] == counts@[e] as nat);
        }
        lemma_ranked_is_table(fm, row_models(cat@), as_nats(counts@), order@);
    }
    let global_symbols = top_symbols(&cat, &order);

    let open_items = capped_open_items(&cat, &name_paths, Ghost(fm));
    let links = capped_links(files, &name_paths);

    let memory = ProjectMemory {
        file_count: files.len(),
        unique_symbol_count: row_count,
        files: copy_files(files),
        global_symbols,
        open_items,
        links,
    };
    proof {
        lemma_symbol_table_unique(fm, table, symbol_table(fm));
    }
    memory
}

// ---------------------------------------------------------------------------
// What holds of every project memory
// ---------------------------------------------------------------------------

/// Strings in ascending order are determined by which strings they are.
pub proof fn lemma_ascending_unique(x: Seq<Seq<char>>, y: Seq<Seq<char>>)
    requires
        ascending(x),
        ascending(y),
        forall|s: Seq<char>| x.contains(s) <==> y.contains(s),
    ensures
        x == y,
    decreases x.len(),
{
    if x.len() == 0 {
        if y.len() > 0 {
            assert(y.contains(y[0]));
        }
        assert(x =~= y);
    } else if y.len() == 0 {
        assert(x.contains(x[0]));
    } else {
        assert(x.contains(x[0]));
        assert(y.contains(y[0]));
        let i = choose|i: int| 0 <= i < y.len() && y[i] == x[0];
        let j = choose|j: int| 0 <= j < x.len() && x[j] == y[0];
        if i > 0 {
            if j > 0 {
                lemma_lex_transitive(x[0], x[j], y[i]);
            }
            lemma_lex_irreflexive(x[0]);
        }
        assert(x[0] == y[0]);
        let xt = x.drop_first();
        let yt = y.drop_first();
        assert(ascending(xt)) by {
            assert forall|a: int, b: int| 0 <= a < b < xt.len() implies lex_lt(
                #[trigger] xt[a],
                #[trigger] xt[b],
            ) by {
                assert(xt[a] == x[a + 1] && xt[b] == x[b + 1]);
            }
        }
        assert(ascending(yt)) by {
            assert forall|a: int, b: int| 0 <= a < b < yt.len() implies lex_lt(
                #[trigger] yt[a],
                #[trigger] yt[b],
            ) by {
                assert(yt[a] == y[a + 1] && yt[b] == y[b + 1]);
            }
        }
        assert forall|s: Seq<char>| xt.contains(s) <==> yt.contains(s) by {
            if xt.contains(s) {
                let a = choose|a: int| 0 <= a < xt.len() && xt[a] == s;
                assert(x[a + 1] == s);
                assert(x.contains(s));
                lemma_lex_asymmetric(x[0], x[a + 1]);
                let b = choose|b: int| 0 <= b < y.len() && y[b] == s;
                assert(yt[b - 1] == s);
            }
            if yt.contains(s) {
                let a = choose|a: int| 0 <= a < yt.len() && yt[a] == s;
                assert(y[a + 1] == s);
                assert(y.contains(s));
                lemma_lex_asymmetric(y[0], y[a + 1]);
                let b = choose|b: int| 0 <= b < x.len() && x[b] == s;
                assert(xt[b - 1] == s);
            }
        }
        lemma_ascending_unique(xt, yt);
        assert(x =~= seq![x[0]] + xt);
        assert(y =~= seq![y[0]] + yt);
    }
}

/// There is one row only for a name and kind.
pub proof fn lemma_table_row_unique(files: Seq<FileModel>, a: GlobalModel, b: GlobalModel)
    requires
        is_table_row(files, a),
        is_table_row(files, b),
        a.name == b.name,
        a.kind == b.kind,
    ensures
        a == b,
{
    assert forall|p: Seq<char>| a.defined_in.contains(p) <==> b.defined_in.contains(p) by {
        assert(a.defined_in.contains(p) <==> declared_in(files, a.name, a.kind, p));
        assert(b.defined_in.contains(p) <==> declared_in(files, b.name, b.kind, p));
    }
    lemma_ascending_unique(a.defined_in, b.defined_in);
}

/// A row of a symbol table stands for a declared name and kind.
proof fn lemma_row_is_declared(files: Seq<FileModel>, row: GlobalModel)
    requires
        is_table_row(files, row),
    ensures
        is_declared(files, row.name, row.kind),
{
    let p = row.defined_in[0];
    assert(row.defined_in.contains(p));
    lemma_declared_in(files, row.name, row.kind, p);
}

/// The order of the symbol table is strict and total on rows of different
/// name or kind.
proof fn lemma_ranks_before_order(a: GlobalModel, b: GlobalModel, c: GlobalModel)
    ensures
        !ranks_before(a, a),
        ranks_before(a, b) && ranks_before(b, c) ==> ranks_before(a, c),
        ranks_before(a, b) ==> !ranks_before(b, a),
{
    lemma_lex_irreflexive(a.name);
    lemma_lex_irreflexive(a.kind);
    if ranks_before(a, b) && ranks_before(b, c) {
        if lex_lt(a.name, b.name) && lex_lt(b.name, c.name) {
            lemma_lex_transitive(a.name, b.name, c.name);
        }
        if lex_lt(a.kind, b.kind) && lex_lt(b.kind, c.kind) {
            lemma_lex_transitive(a.kind, b.kind, c.kind);
        }
    }
    if ranks_before(a, b) {
        if lex_lt(a.name, b.name) {
            lemma_lex_asymmetric(a.name, b.name);
        }
        if lex_lt(a.kind, b.kind) {
            lemma_lex_asymmetric(a.kind, b.kind);
        }
    }
}

/// Every name and kind that a file declares has exactly one row in the
/// symbol table, and that row lists exactly the files that declare it.
pub proof fn lemma_symbol_table_total(
    files: Seq<FileModel>,
    table: Seq<GlobalModel>,
    name: Seq<char>,
    kind: Seq<char>,
)
    requires
        is_symbol_table(files, table),
        is_declared(files, name, kind),
    ensures
        exists|i: int|
            0 <= i < table.len() && (#[trigger] table[i]).name == name && table[i].kind == kind,
        forall|i: int, j: int|
            0 <= i < table.len() && 0 <= j < table.len() && (#[trigger] table[i]).name == name
                && table[i].kind == kind && (#[trigger] table[j]).name == name && table[j].kind
                == kind ==> i == j,
        forall|i: int, path: Seq<char>|
            0 <= i < table.len() && (#[trigger] table[i]).name == name && table[i].kind == kind
                ==> (#[trigger] table[i].defined_in.contains(path) <==> declared_in(
                files,
                name,
                kind,
                path,
            )),
{
    assert forall|i: int, j: int|
        0 <= i < table.len() && 0 <= j < table.len() && (#[trigger] table[i]).name == name
            && table[i].kind == kind && (#[trigger] table[j]).name == name && table[j].kind
            == kind implies i == j by {
        lemma_table_row_unique(files, table[i], table[j]);
        lemma_ranks_before_order(table[i], table[j], table[i]);
        if i < j {
            assert(ranks_before(table[i], table[j]));
        }
        if j < i {
            assert(ranks_before(table[j], table[i]));
        }
    }
    assert forall|i: int, path: Seq<char>|
        0 <= i < table.len() && (#[trigger] table[i]).name == name && table[i].kind == kind implies (
    #[trigger] table[i].defined_in.contains(path) <==> declared_in(files, name, kind, path)) by {
        assert(is_table_row(files, table[i]));
    }
}

/// Two symbol tables of the same files agree on their first `n` rows.
proof fn lemma_symbol_table_prefix(
    files: Seq<FileModel>,
    x: Seq<GlobalModel>,
    y: Seq<GlobalModel>,
    n: int,
)
    requires
        is_symbol_table(files, x),
        is_symbol_table(files, y),
        0 <= n <= x.len(),
        n <= y.len(),
    ensures
        forall|i: int| 0 <= i < n ==> x[i] == y[i],
    decreases n,
{
    if n > 0 {
        lemma_symbol_table_prefix(files, x, y, n - 1);
        let m = n - 1;
        // Each table holds the row that the other holds at place `m`.
        assert(is_table_row(files, x[m]));
        assert(is_table_row(files, y[m]));
        lemma_row_is_declared(files, x[m]);
        lemma_row_is_declared(files, y[m]);
        let a = choose|a: int|
            0 <= a < y.len() && (#[trigger] y[a]).name == x[m].name && y[a].kind == x[m].kind;
        let b = choose|b: int|
            0 <= b < x.len() && (#[trigger] x[b]).name == y[m].name && x[b].kind == y[m].kind;
        assert(is_table_row(files, y[a]));
        assert(is_table_row(files, x[b]));
        lemma_table_row_unique(files, y[a], x[m]);
        lemma_table_row_unique(files, x[b], y[m]);
        assert(y[a] == x[m]);
        assert(x[b] == y[m]);
        lemma_ranks_before_order(x[m], y[m], x[m]);
        lemma_ranks_before_order(y[m], x[m], y[m]);
        if a < m {
            assert(x[a] == y[a]);
            assert(ranks_before(x[a], x[m]));
            assert(false);
        }
        if b < m {
            assert(y[b] == x[b]);
            assert(ranks_before(y[b], y[m]));
            assert(false);
        }
        if a > m && b > m {
            assert(ranks_before(y[m], y[a]));
            assert(ranks_before(x[m], x[b]));
            assert(false);
        }
        assert(a == m || b == m);
        assert(x[m] == y[m]);
        assert forall|i: int| 0 <= i < n implies x[i] == y[i] by {
            if i < m {
            }
        }
    }
}

/// The files have one symbol table only.
pub proof fn lemma_symbol_table_unique(files: Seq<FileModel>, x: Seq<GlobalModel>, y: Seq<GlobalModel>)
    requires
        is_symbol_table(files, x),
        is_symbol_table(files, y),
    ensures
        x == y,
{
    // Neither table is longer than the other: a row beyond the end of the
    // shorter would have to occur in it.
    if x.len() <= y.len() {
        lemma_symbol_table_prefix(files, x, y, x.len() as int);
        if x.len() < y.len() {
            let extra = y[x.len() as int];
            assert(is_table_row(files, extra));
            lemma_row_is_declared(files, extra);
            let b = choose|b: int|
                0 <= b < x.len() && (#[trigger] x[b]).name == extra.name && x[b].kind == extra.kind;
            assert(is_table_row(files, x[b]));
            lemma_table_row_unique(files, x[b], extra);
            assert(y[b] == x[b]);
            assert(ranks_before(y[b], y[x.len() as int]));
            lemma_ranks_before_order(extra, extra, extra);
        }
    } else {
        lemma_symbol_table_prefix(files, x, y, y.len() as int);
        let extra = x[y.len() as int];
        assert(is_table_row(files, extra));
        lemma_row_is_declared(files, extra);
        let b = choose|b: int|
            0 <= b < y.len() && (#[trigger] y[b]).name == extra.name && y[b].kind == extra.kind;
        assert(is_table_row(files, y[b]));
        lemma_table_row_unique(files, y[b], extra);
        assert(x[b] == y[b]);
        assert(ranks_before(x[b], x[y.len() as int]));
        lemma_ranks_before_order(extra, extra, extra);
    }
    assert(x =~= y);
}

/// A name that two files declare with different kinds has exactly one open
/// item, which names both kinds in its message.
pub proof fn lemma_conflict_reported(
    files: Seq<FileModel>,
    items: Seq<ItemModel>,
    name: Seq<char>,
    kind1: Seq<char>,
    kind2: Seq<char>,
)
    requires
        is_conflict_list(files, items),
        is_declared(files, name, kind1),
        is_declared(files, name, kind2),
        kind1 != kind2,
    ensures
        exists|i: int| 0 <= i < items.len() && (#[trigger] items[i]).symbol == name,
        forall|i: int, j: int|
            0 <= i < items.len() && 0 <= j < items.len() && (#[trigger] items[i]).symbol == name
                && (#[trigger] items[j]).symbol == name ==> i == j,
        forall|i: int|
            0 <= i < items.len() && (#[trigger] items[i]).symbol == name ==> exists|
                kinds: Seq<Seq<char>>,
            | #[trigger]
                is_kind_list(files, name, kinds) && kinds.contains(kind1) && kinds.contains(kind2)
                    && items[i].message == conflict_message(name, kinds),
{
    assert(has_conflict(files, name));
    assert forall|i: int, j: int|
        0 <= i < items.len() && 0 <= j < items.len() && (#[trigger] items[i]).symbol == name && (
        #[trigger] items[j]).symbol == name implies i == j by {
        lemma_lex_irreflexive(name);
        if i < j {
            assert(lex_lt(items[i].symbol, items[j].symbol));
        }
        if j < i {
            assert(lex_lt(items[j].symbol, items[i].symbol));
        }
    }
    assert forall|i: int| 0 <= i < items.len() && (#[trigger] items[i]).symbol == name implies exists|
        kinds: Seq<Seq<char>>,
    | #[trigger]
        is_kind_list(files, name, kinds) && kinds.contains(kind1) && kinds.contains(kind2)
            && items[i].message == conflict_message(name, kinds) by {
        assert(is_conflict_item(files, items[i]));
        let kinds = choose|kinds: Seq<Seq<char>>| #[trigger]
            is_kind_list(files, items[i].symbol, kinds) && kinds.len() >= 2 && items[i].message
                == conflict_message(items[i].symbol, kinds);
        assert(kinds.contains(kind1));
        assert(kinds.contains(kind2));
    }
}

/// No link leads from a file to itself, and none occurs twice.
pub proof fn lemma_links_distinct(files: Seq<FileModel>, links: Seq<LinkModel>)
    requires
        is_link_list(files, links),
    ensures
        forall|i: int| 0 <= i < links.len() ==> (#[trigger] links[i]).from_file != links[i].to_file,
        forall|i: int, j: int|
            0 <= i < j < links.len() ==> (#[trigger] links[i]) != (#[trigger] links[j]),
{
    assert forall|i: int, j: int| 0 <= i < j < links.len() implies (#[trigger] links[i]) != (
    #[trigger] links[j]) by {
        assert(record_lt(link_key(links[i]), link_key(links[j])));
        lemma_record_irreflexive(link_key(links[i]));
    }
}

/// An open item stands for a name with a conflict.
proof fn lemma_item_has_conflict(files: Seq<FileModel>, item: ItemModel)
    requires
        is_conflict_item(files, item),
    ensures
        has_conflict(files, item.symbol),
{
    let kinds = choose|kinds: Seq<Seq<char>>| #[trigger]
        is_kind_list(files, item.symbol, kinds) && kinds.len() >= 2 && item.message
            == conflict_message(item.symbol, kinds);
    assert(kinds.contains(kinds[0]));
    assert(kinds.contains(kinds[1]));
    lemma_lex_asymmetric(kinds[0], kinds[1]);
    assert(is_declared(files, item.symbol, kinds[0]) && is_declared(files, item.symbol, kinds[1]));
}

/// There is one open item only for a name.
proof fn lemma_conflict_item_unique(files: Seq<FileModel>, a: ItemModel, b: ItemModel)
    requires
        is_conflict_item(files, a),
        is_conflict_item(files, b),
        a.symbol == b.symbol,
    ensures
        a == b,
{
    let ka = choose|kinds: Seq<Seq<char>>| #[trigger]
        is_kind_list(files, a.symbol, kinds) && kinds.len() >= 2 && a.message == conflict_message(
            a.symbol,
            kinds,
        );
    let kb = choose|kinds: Seq<Seq<char>>| #[trigger]
        is_kind_list(files, b.symbol, kinds) && kinds.len() >= 2 && b.message == conflict_message(
            b.symbol,
            kinds,
        );
    assert forall|k: Seq<char>| ka.contains(k) <==> kb.contains(k) by {
        assert(ka.contains(k) <==> is_declared(files, a.symbol, k));
        assert(kb.contains(k) <==> is_declared(files, b.symbol, k));
    }
    lemma_ascending_unique(ka, kb);
    let pa = choose|paths: Seq<Seq<char>>| #[trigger]
        is_definer_list(files, a.symbol, paths) && a.files == capped(paths, MAX_ITEM_FILES as int);
    let pb = choose|paths: Seq<Seq<char>>| #[trigger]
        is_definer_list(files, b.symbol, paths) && b.files == capped(paths, MAX_ITEM_FILES as int);
    assert forall|p: Seq<char>| pa.contains(p) <==> pb.contains(p) by {
        assert(pa.contains(p) <==> defines_name(files, a.symbol, p));
        assert(pb.contains(p) <==> defines_name(files, b.symbol, p));
    }
    lemma_ascending_unique(pa, pb);
}

/// The symbols of the items of a list.
pub open spec fn item_symbols(items: Seq<ItemModel>) -> Seq<Seq<char>> {
    Seq::new(items.len(), |i: int| items[i].symbol)
}

/// The files have one list of open items only.
pub proof fn lemma_conflict_list_unique(
    files: Seq<FileModel>,
    x: Seq<ItemModel>,
    y: Seq<ItemModel>,
)
    requires
        is_conflict_list(files, x),
        is_conflict_list(files, y),
    ensures
        x == y,
{
    let sx = item_symbols(x);
    let sy = item_symbols(y);
    assert(ascending(sx)) by {
        assert forall|i: int, j: int| 0 <= i < j < sx.len() implies lex_lt(
            #[trigger] sx[i],
            #[trigger] sx[j],
        ) by {
            assert(lex_lt(x[i].symbol, x[j].symbol));
        }
    }
    assert(ascending(sy)) by {
        assert forall|i: int, j: int| 0 <= i < j < sy.len() implies lex_lt(
            #[trigger] sy[i],
            #[trigger] sy[j],
        ) by {
            assert(lex_lt(y[i].symbol, y[j].symbol));
        }
    }
    assert forall|s: Seq<char>| sx.contains(s) <==> sy.contains(s) by {
        if sx.contains(s) {
            let i = choose|i: int| 0 <= i < sx.len() && sx[i] == s;
            assert(is_conflict_item(files, x[i]));
            lemma_item_has_conflict(files, x[i]);
            let j = choose|j: int| 0 <= j < y.len() && (#[trigger] y[j]).symbol == s;
            assert(sy[j] == s);
        }
        if sy.contains(s) {
            let i = choose|i: int| 0 <= i < sy.len() && sy[i] == s;
            assert(is_conflict_item(files, y[i]));
            lemma_item_has_conflict(files, y[i]);
            let j = choose|j: int| 0 <= j < x.len() && (#[trigger] x[j]).symbol == s;
            assert(sx[j] == s);
        }
    }
    lemma_ascending_unique(sx, sy);
    assert(sx == sy);
    assert(sx.len() == x.len());
    assert(sy.len() == y.len());
    assert(x.len() == y.len());
    assert forall|i: int| 0 <= i < x.len() implies x[i] == y[i] by {
        assert(sx[i] == sy[i]);
        assert(is_conflict_item(files, x[i]));
        assert(is_conflict_item(files, y[i]));
        lemma_conflict_item_unique(files, x[i], y[i]);
    }
    assert(x =~= y);
}

/// The keys of the links of a list.
pub open spec fn link_keys(links: Seq<LinkModel>) -> Seq<Seq<Seq<char>>> {
    Seq::new(links.len(), |i: int| link_key(links[i]))
}

proof fn lemma_link_keys_increasing(files: Seq<FileModel>, x: Seq<LinkModel>)
    requires
        is_link_list(files, x),
    ensures
        increasing(link_keys(x)),
{
    let kx = link_keys(x);
    assert forall|i: int, j: int| 0 <= i < j < kx.len() implies record_lt(
        #[trigger] kx[i],
        #[trigger] kx[j],
    ) by {
        assert(record_lt(link_key(x[i]), link_key(x[j])));
    }
}

proof fn lemma_link_key_shared(
    files: Seq<FileModel>,
    x: Seq<LinkModel>,
    y: Seq<LinkModel>,
    k: Seq<Seq<char>>,
)
    requires
        is_link_list(files, x),
        is_link_list(files, y),
        link_keys(x).contains(k),
    ensures
        link_keys(y).contains(k),
{
    let i = choose|i: int| 0 <= i < link_keys(x).len() && link_keys(x)[i] == k;
    let link = x[i];
    assert(is_link(files, link.from_file, link.symbol, link.to_file));
    lemma_link_listed(files, y, link.from_file, link.symbol, link.to_file);
    let j = choose|j: int|
        0 <= j < y.len() && link_key(#[trigger] y[j]) == seq![
            link.from_file,
            link.symbol,
            link.to_file,
        ];
    assert(link_keys(y)[j] == k);
}

proof fn lemma_link_of_key(a: LinkModel, b: LinkModel)
    requires
        link_key(a) == link_key(b),
        a.reason == b.reason,
    ensures
        a == b,
{
    assert(link_key(a)[0] == link_key(b)[0]);
    assert(link_key(a)[1] == link_key(b)[1]);
    assert(link_key(a)[2] == link_key(b)[2]);
}

/// The files have one list of links only.
pub proof fn lemma_link_list_unique(files: Seq<FileModel>, x: Seq<LinkModel>, y: Seq<LinkModel>)
    requires
        is_link_list(files, x),
        is_link_list(files, y),
    ensures
        x == y,
{
    let kx = link_keys(x);
    let ky = link_keys(y);
    lemma_link_keys_increasing(files, x);
    lemma_link_keys_increasing(files, y);
    assert forall|k: Seq<Seq<char>>| kx.contains(k) <==> ky.contains(k) by {
        if kx.contains(k) {
            lemma_link_key_shared(files, x, y, k);
        }
        if ky.contains(k) {
            lemma_link_key_shared(files, y, x, k);
        }
    }
    lemma_increasing_unique(kx, ky);
    assert(kx == ky);
    assert(kx.len() == x.len());
    assert(ky.len() == y.len());
    assert(x.len() == y.len());
    assert forall|i: int| 0 <= i < x.len() implies x[i] == y[i] by {
        assert(kx[i] == ky[i]);
        assert(x[i].reason == "import"@ && y[i].reason == "import"@);
        lemma_link_of_key(x[i], y[i]);
    }
    assert(x =~= y);
}

/// The symbol table of the files.
pub open spec fn symbol_table(files: Seq<FileModel>) -> Seq<GlobalModel> {
    choose|table: Seq<GlobalModel>| is_symbol_table(files, table)
}

/// The open items of the files.
pub open spec fn conflict_list(files: Seq<FileModel>) -> Seq<ItemModel> {
    choose|items: Seq<ItemModel>| is_conflict_list(files, items)
}

/// The links of the files.
pub open spec fn link_list(files: Seq<FileModel>) -> Seq<LinkModel> {
    choose|links: Seq<LinkModel>| is_link_list(files, links)
}

} // verus!
