//! The order of strings and of records of strings, and vectors kept sorted
//! by it.
//!
//! Strings are ordered lexicographically by character, records (sequences of
//! strings) lexicographically by field. Both orders are strict and total, so
//! a strictly increasing vector holds each key once and is determined by the
//! set of its keys.

use crate::split::rows;
use crate::text::{copy_chars, same_chars};
use vstd::prelude::*;

verus! {

/// How one value stands to another in an order.
#[derive(Clone, Copy, PartialEq, Eq, Structural, Debug)]
pub enum Rank {
    Before,
    Same,
    After,
}

// ---------------------------------------------------------------------------
// Strings
// ---------------------------------------------------------------------------

/// `a` comes before `b` in the lexicographic order of characters.
pub open spec fn lex_lt(a: Seq<char>, b: Seq<char>) -> bool
    decreases a.len(),
{
    if b.len() == 0 {
        false
    } else if a.len() == 0 {
        true
    } else if a[0] != b[0] {
        a[0] < b[0]
    } else {
        lex_lt(a.drop_first(), b.drop_first())
    }
}

pub open spec fn rank_of(a: Seq<char>, b: Seq<char>) -> Rank {
    if a == b {
        Rank::Same
    } else if lex_lt(a, b) {
        Rank::Before
    } else {
        Rank::After
    }
}

pub proof fn lemma_lex_irreflexive(a: Seq<char>)
    ensures
        !lex_lt(a, a),
    decreases a.len(),
{
    if a.len() > 0 {
        lemma_lex_irreflexive(a.drop_first());
    }
}

pub proof fn lemma_lex_asymmetric(a: Seq<char>, b: Seq<char>)
    requires
        lex_lt(a, b),
    ensures
        !lex_lt(b, a),
        a != b,
    decreases a.len(),
{
    lemma_lex_irreflexive(a);
    if a.len() > 0 && b.len() > 0 && a[0] == b[0] {
        lemma_lex_asymmetric(a.drop_first(), b.drop_first());
    }
}

pub proof fn lemma_lex_transitive(a: Seq<char>, b: Seq<char>, c: Seq<char>)
    requires
        lex_lt(a, b),
        lex_lt(b, c),
    ensures
        lex_lt(a, c),
    decreases a.len(),
{
    if a.len() > 0 && b.len() > 0 && c.len() > 0 && a[0] == b[0] && b[0] == c[0] {
        lemma_lex_transitive(a.drop_first(), b.drop_first(), c.drop_first());
    }
}

pub proof fn lemma_lex_total(a: Seq<char>, b: Seq<char>)
    ensures
        a == b || lex_lt(a, b) || lex_lt(b, a),
    decreases a.len(),
{
    if a.len() == 0 || b.len() == 0 {
        if a.len() == 0 && b.len() == 0 {
            assert(a =~= b);
        }
    } else if a[0] == b[0] {
        lemma_lex_total(a.drop_first(), b.drop_first());
        if a.drop_first() == b.drop_first() {
            assert(a =~= seq![a[0]] + a.drop_first());
            assert(b =~= seq![b[0]] + b.drop_first());
        }
    }
}

/// Dropping a common prefix changes neither order nor equality.
pub proof fn lemma_lex_skip(a: Seq<char>, b: Seq<char>, k: int)
    requires
        0 <= k <= a.len(),
        k <= b.len(),
        a.take(k) == b.take(k),
    ensures
        lex_lt(a, b) == lex_lt(a.skip(k), b.skip(k)),
        (a == b) == (a.skip(k) == b.skip(k)),
    decreases k,
{
    if k > 0 {
        assert(a[0] == a.take(k)[0]);
        assert(b[0] == b.take(k)[0]);
        let a1 = a.drop_first();
        let b1 = b.drop_first();
        assert(a1.take(k - 1) =~= a.take(k).drop_first());
        assert(b1.take(k - 1) =~= b.take(k).drop_first());
        lemma_lex_skip(a1, b1, k - 1);
        assert(a1.skip(k - 1) =~= a.skip(k));
        assert(b1.skip(k - 1) =~= b.skip(k));
        if a1 == b1 {
            assert(a =~= seq![a[0]] + a1);
            assert(b =~= seq![b[0]] + b1);
        }
    } else {
        assert(a.skip(0) =~= a);
        assert(b.skip(0) =~= b);
    }
}

pub fn compare(a: &[char], b: &[char]) -> (r: Rank)
    ensures
        r == rank_of(a@, b@),
{
    let mut i: usize = 0;
    while i < a.len() && i < b.len()
        invariant
            i <= a.len(),
            i <= b.len(),
            a@.take(i as int) == b@.take(i as int),
        decreases a.len() - i,
    {
        if a[i] != b[i] {
            proof {
                lemma_lex_skip(a@, b@, i as int);
                assert(a@.skip(i as int)[0] == a@[i as int]);
                assert(b@.skip(i as int)[0] == b@[i as int]);
            }
            if a[i] < b[i] {
                return Rank::Before;
            } else {
                return Rank::After;
            }
        }
        i += 1;
        proof {
            assert(a@.take(i as int) =~= a@.take(i - 1).push(a@[i - 1]));
            assert(b@.take(i as int) =~= b@.take(i - 1).push(b@[i - 1]));
        }
    }
    proof {
        lemma_lex_skip(a@, b@, i as int);
        if a@.skip(i as int).len() == 0 && b@.skip(i as int).len() == 0 {
            assert(a@.skip(i as int) =~= b@.skip(i as int));
        }
    }
    if i < b.len() {
        Rank::Before
    } else if i < a.len() {
        Rank::After
    } else {
        Rank::Same
    }
}

// ---------------------------------------------------------------------------
// Records
// ---------------------------------------------------------------------------

/// `a` comes before `b` in the lexicographic order of fields.
pub open spec fn record_lt(a: Seq<Seq<char>>, b: Seq<Seq<char>>) -> bool
    decreases a.len(),
{
    if b.len() == 0 {
        false
    } else if a.len() == 0 {
        true
    } else if a[0] != b[0] {
        lex_lt(a[0], b[0])
    } else {
        record_lt(a.drop_first(), b.drop_first())
    }
}

pub open spec fn record_rank(a: Seq<Seq<char>>, b: Seq<Seq<char>>) -> Rank {
    if a == b {
        Rank::Same
    } else if record_lt(a, b) {
        Rank::Before
    } else {
        Rank::After
    }
}

pub proof fn lemma_record_irreflexive(a: Seq<Seq<char>>)
    ensures
        !record_lt(a, a),
    decreases a.len(),
{
    if a.len() > 0 {
        lemma_record_irreflexive(a.drop_first());
    }
}

pub proof fn lemma_record_asymmetric(a: Seq<Seq<char>>, b: Seq<Seq<char>>)
    requires
        record_lt(a, b),
    ensures
        !record_lt(b, a),
        a != b,
    decreases a.len(),
{
    lemma_record_irreflexive(a);
    if a.len() > 0 && b.len() > 0 {
        if a[0] == b[0] {
            lemma_record_asymmetric(a.drop_first(), b.drop_first());
        } else {
            lemma_lex_asymmetric(a[0], b[0]);
        }
    }
}

pub proof fn lemma_record_transitive(a: Seq<Seq<char>>, b: Seq<Seq<char>>, c: Seq<Seq<char>>)
    requires
        record_lt(a, b),
        record_lt(b, c),
    ensures
        record_lt(a, c),
    decreases a.len(),
{
    if a.len() > 0 && b.len() > 0 && c.len() > 0 {
        if a[0] == b[0] && b[0] == c[0] {
            lemma_record_transitive(a.drop_first(), b.drop_first(), c.drop_first());
        } else if a[0] != b[0] && b[0] != c[0] {
            lemma_lex_transitive(a[0], b[0], c[0]);
            lemma_lex_asymmetric(a[0], b[0]);
        }
    }
}

pub proof fn lemma_record_total(a: Seq<Seq<char>>, b: Seq<Seq<char>>)
    ensures
        a == b || record_lt(a, b) || record_lt(b, a),
    decreases a.len(),
{
    if a.len() == 0 || b.len() == 0 {
        if a.len() == 0 && b.len() == 0 {
            assert(a =~= b);
        }
    } else if a[0] == b[0] {
        lemma_record_total(a.drop_first(), b.drop_first());
        if a.drop_first() == b.drop_first() {
            assert(a =~= seq![a[0]] + a.drop_first());
            assert(b =~= seq![b[0]] + b.drop_first());
        }
    } else {
        lemma_lex_total(a[0], b[0]);
    }
}

/// The rank of two records that begin with different fields is the rank of
/// those fields; records that begin alike rank as their remainders do.
pub proof fn lemma_record_rank_step(a: Seq<Seq<char>>, b: Seq<Seq<char>>)
    requires
        a.len() > 0,
        b.len() > 0,
    ensures
        a[0] != b[0] ==> record_rank(a, b) == rank_of(a[0], b[0]),
        a[0] == b[0] ==> record_rank(a, b) == record_rank(a.drop_first(), b.drop_first()),
{
    if a[0] == b[0] {
        if a.drop_first() == b.drop_first() {
            assert(a =~= seq![a[0]] + a.drop_first());
            assert(b =~= seq![b[0]] + b.drop_first());
        }
    }
}

// ---------------------------------------------------------------------------
// Sorted vectors
// ---------------------------------------------------------------------------

/// A value with a record of strings by which it is ordered and found.
pub trait Keyed: Sized {
    spec fn key(&self) -> Seq<Seq<char>>;

    fn relate(&self, other: &Self) -> (r: Rank)
        ensures
            r == record_rank(self.key(), other.key()),
    ;
}

pub open spec fn keys_of<T: Keyed>(v: Seq<T>) -> Seq<Seq<Seq<char>>> {
    Seq::new(v.len(), |i: int| v[i].key())
}

/// Each key comes before every later one.
pub open spec fn increasing(keys: Seq<Seq<Seq<char>>>) -> bool {
    forall|i: int, j: int| 0 <= i < j < keys.len() ==> record_lt(#[trigger] keys[i], #[trigger] keys[j])
}

/// An increasing sequence holds no key twice.
pub proof fn lemma_increasing_distinct(keys: Seq<Seq<Seq<char>>>)
    requires
        increasing(keys),
    ensures
        keys.no_duplicates(),
{
    assert forall|i: int, j: int| 0 <= i < keys.len() && 0 <= j < keys.len() && i != j implies keys[i]
        != keys[j] by {
        if i < j {
            lemma_record_asymmetric(keys[i], keys[j]);
        } else {
            lemma_record_asymmetric(keys[j], keys[i]);
        }
    }
}

/// Two increasing sequences with the same keys are the same sequence.
pub proof fn lemma_increasing_unique(x: Seq<Seq<Seq<char>>>, y: Seq<Seq<Seq<char>>>)
    requires
        increasing(x),
        increasing(y),
        forall|k: Seq<Seq<char>>| x.contains(k) <==> y.contains(k),
    ensures
        x == y,
    decreases x.len(),
{
    if x.len() == 0 {
        if y.len() > 0 {
            assert(y.contains(y[0]));
        }
        assert(x =~= y);
    } else if y.len() == 0 {
        assert(x.contains(x[0]));
    } else {
        // The least key of each is the least key of the other.
        assert(x.contains(x[0]));
        assert(y.contains(y[0]));
        let i = choose|i: int| 0 <= i < y.len() && y[i] == x[0];
        let j = choose|j: int| 0 <= j < x.len() && x[j] == y[0];
        if i > 0 {
            if j > 0 {
                lemma_record_transitive(x[0], x[j], y[i]);
                lemma_record_irreflexive(x[0]);
            } else {
                lemma_record_irreflexive(x[0]);
            }
        }
        assert(x[0] == y[0]);
        let xt = x.drop_first();
        let yt = y.drop_first();
        assert(increasing(xt)) by {
            assert forall|a: int, b: int| 0 <= a < b < xt.len() implies record_lt(
                #[trigger] xt[a],
                #[trigger] xt[b],
            ) by {
                assert(xt[a] == x[a + 1] && xt[b] == x[b + 1]);
            }
        }
        assert(increasing(yt)) by {
            assert forall|a: int, b: int| 0 <= a < b < yt.len() implies record_lt(
                #[trigger] yt[a],
                #[trigger] yt[b],
            ) by {
                assert(yt[a] == y[a + 1] && yt[b] == y[b + 1]);
            }
        }
        assert forall|k: Seq<Seq<char>>| xt.contains(k) <==> yt.contains(k) by {
            if xt.contains(k) {
                let a = choose|a: int| 0 <= a < xt.len() && xt[a] == k;
                assert(x[a + 1] == k);
                assert(x.contains(k));
                lemma_record_asymmetric(x[0], x[a + 1]);
                let b = choose|b: int| 0 <= b < y.len() && y[b] == k;
                assert(b > 0);
                assert(yt[b - 1] == k);
            }
            if yt.contains(k) {
                let a = choose|a: int| 0 <= a < yt.len() && yt[a] == k;
                assert(y[a + 1] == k);
                assert(y.contains(k));
                lemma_record_asymmetric(y[0], y[a + 1]);
                let b = choose|b: int| 0 <= b < x.len() && x[b] == k;
                assert(b > 0);
                assert(xt[b - 1] == k);
            }
        }
        lemma_increasing_unique(xt, yt);
        assert(x =~= seq![x[0]] + xt);
        assert(y =~= seq![y[0]] + yt);
    }
}

/// Where `probe` stands in the increasing vector `v`: the index of the
/// element with its key, or the index at which it would have to be put.
pub fn slot<T: Keyed>(v: &Vec<T>, probe: &T) -> (r: (usize, bool))
    requires
        increasing(keys_of(v@)),
    ensures
        r.0 <= v.len(),
        forall|i: int| 0 <= i < r.0 ==> record_lt(#[trigger] v@[i].key(), probe.key()),
        r.1 ==> r.0 < v.len() && v@[r.0 as int].key() == probe.key(),
        !r.1 ==> forall|i: int| r.0 <= i < v.len() ==> record_lt(probe.key(), #[trigger] v@[i].key()),
        r.1 == keys_of(v@).contains(probe.key()),
{
    let mut lo: usize = 0;
    let mut hi: usize = v.len();
    while lo < hi
        invariant
            lo <= hi <= v.len(),
            increasing(keys_of(v@)),
            forall|i: int| 0 <= i < lo ==> record_lt(#[trigger] v@[i].key(), probe.key()),
            forall|i: int| hi <= i < v.len() ==> record_lt(probe.key(), #[trigger] v@[i].key()),
        decreases hi - lo,
    {
        let mid: usize = lo + (hi - lo) / 2;
        let ghost keys = keys_of(v@);
        match v[mid].relate(probe) {
            Rank::Same => {
                proof {
                    assert(keys[mid as int] == probe.key());
                    assert forall|i: int| 0 <= i < mid implies record_lt(
                        #[trigger] v@[i].key(),
                        probe.key(),
                    ) by {
                        assert(record_lt(keys[i], keys[mid as int]));
                    }
                }
                return (mid, true);
            },
            Rank::Before => {
                proof {
                    assert forall|i: int| 0 <= i < mid + 1 implies record_lt(
                        #[trigger] v@[i].key(),
                        probe.key(),
                    ) by {
                        if i < mid {
                            assert(record_lt(keys[i], keys[mid as int]));
                            lemma_record_transitive(v@[i].key(), v@[mid as int].key(), probe.key());
                        }
                    }
                }
                lo = mid + 1;
            },
            Rank::After => {
                proof {
                    lemma_record_total(v@[mid as int].key(), probe.key());
                    assert forall|i: int| mid <= i < v.len() implies record_lt(
                        probe.key(),
                        #[trigger] v@[i].key(),
                    ) by {
                        if i > mid {
                            assert(record_lt(keys[mid as int], keys[i]));
                            lemma_record_transitive(probe.key(), v@[mid as int].key(), v@[i].key());
                        }
                    }
                }
                hi = mid;
            },
        }
    }
    proof {
        let keys = keys_of(v@);
        if keys.contains(probe.key()) {
            let i = choose|i: int| 0 <= i < keys.len() && keys[i] == probe.key();
            assert(v@[i].key() == probe.key());
            lemma_record_irreflexive(probe.key());
        }
    }
    (lo, false)
}

/// Puts `x` into the increasing vector `v` unless its key is there already.
/// Returns whether it was put in.
pub fn insert_unique<T: Keyed>(v: &mut Vec<T>, x: T) -> (added: bool)
    requires
        increasing(keys_of(old(v)@)),
    ensures
        increasing(keys_of(final(v)@)),
        added == !keys_of(old(v)@).contains(x.key()),
        !added ==> final(v)@ == old(v)@,
        added ==> final(v)@.len() == old(v)@.len() + 1,
        forall|k: Seq<Seq<char>>| #[trigger]
            keys_of(final(v)@).contains(k) <==> (keys_of(old(v)@).contains(k) || k == x.key()),
        forall|e: T| #[trigger] final(v)@.contains(e) <==> (old(v)@.contains(e) || (added && e == x)),
{
    let (at, found) = slot(v, &x);
    if found {
        proof {
            assert(keys_of(v@)[at as int] == x.key());
        }
        return false;
    }
    let ghost before = v@;
    v.insert(at, x);
    proof {
        let after = v@;
        let kb = keys_of(before);
        let ka = keys_of(after);
        assert forall|i: int, j: int| 0 <= i < j < ka.len() implies record_lt(
            #[trigger] ka[i],
            #[trigger] ka[j],
        ) by {
            if j < at {
                assert(record_lt(kb[i], kb[j]));
            } else if j == at {
                assert(ka[i] == before[i].key());
            } else if i < at {
                assert(record_lt(kb[i], kb[j - 1]));
            } else if i == at {
                assert(ka[j] == before[j - 1].key());
            } else {
                assert(record_lt(kb[i - 1], kb[j - 1]));
            }
        }
        assert forall|k: Seq<Seq<char>>| ka.contains(k) <==> (kb.contains(k) || k == x.key()) by {
            if ka.contains(k) {
                let i = choose|i: int| 0 <= i < ka.len() && ka[i] == k;
                if i < at {
                    assert(kb[i] == k);
                } else if i > at {
                    assert(kb[i - 1] == k);
                }
            }
            if kb.contains(k) {
                let i = choose|i: int| 0 <= i < kb.len() && kb[i] == k;
                if i < at {
                    assert(ka[i] == k);
                } else {
                    assert(ka[i + 1] == k);
                }
            }
            if k == x.key() {
                assert(ka[at as int] == k);
            }
        }
        assert forall|e: T| after.contains(e) <==> (before.contains(e) || e == x) by {
            if after.contains(e) {
                let i = choose|i: int| 0 <= i < after.len() && after[i] == e;
                if i < at {
                    assert(before[i] == e);
                } else if i > at {
                    assert(before[i - 1] == e);
                }
            }
            if before.contains(e) {
                let i = choose|i: int| 0 <= i < before.len() && before[i] == e;
                if i < at {
                    assert(after[i] == e);
                } else {
                    assert(after[i + 1] == e);
                }
            }
            if e == x {
                assert(after[at as int] == e);
            }
        }
    }
    true
}

/// Takes the element with the key of `probe` out of the increasing vector
/// `v`, if there is one.
pub fn remove_key<T: Keyed>(v: &mut Vec<T>, probe: &T) -> (removed: bool)
    requires
        increasing(keys_of(old(v)@)),
    ensures
        increasing(keys_of(final(v)@)),
        removed == keys_of(old(v)@).contains(probe.key()),
        forall|e: T| #[trigger]
            final(v)@.contains(e) <==> (old(v)@.contains(e) && e.key() != probe.key()),
{
    let (at, found) = slot(v, probe);
    let ghost before = v@;
    proof {
        lemma_increasing_distinct(keys_of(before));
    }
    if !found {
        proof {
            assert forall|e: T| #[trigger] before.contains(e) implies e.key() != probe.key() by {
                let i = choose|i: int| 0 <= i < before.len() && before[i] == e;
                assert(keys_of(before)[i] == e.key());
            }
        }
        return false;
    }
    v.remove(at);
    proof {
        let after = v@;
        let kb = keys_of(before);
        let ka = keys_of(after);
        assert forall|i: int, j: int| 0 <= i < j < ka.len() implies record_lt(
            #[trigger] ka[i],
            #[trigger] ka[j],
        ) by {
            let a = if i < at {
                i
            } else {
                i + 1
            };
            let b = if j < at {
                j
            } else {
                j + 1
            };
            assert(ka[i] == kb[a] && ka[j] == kb[b]);
            assert(record_lt(kb[a], kb[b]));
        }
        assert forall|e: T| #[trigger]
            after.contains(e) <==> (before.contains(e) && e.key() != probe.key()) by {
            if after.contains(e) {
                let i = choose|i: int| 0 <= i < after.len() && after[i] == e;
                let a = if i < at {
                    i
                } else {
                    i + 1
                };
                assert(before[a] == e);
                assert(kb[a] == e.key() && kb[at as int] == probe.key());
            }
            if before.contains(e) && e.key() != probe.key() {
                let i = choose|i: int| 0 <= i < before.len() && before[i] == e;
                assert(kb[i] == e.key());
                if i < at {
                    assert(after[i] == e);
                } else {
                    assert(after[i - 1] == e);
                }
            }
        }
    }
    true
}

/// Puts `x` into the increasing vector `v`, in place of the element with
/// its key if there is one.
pub fn upsert<T: Keyed>(v: &mut Vec<T>, x: T)
    requires
        increasing(keys_of(old(v)@)),
    ensures
        increasing(keys_of(final(v)@)),
        forall|e: T| #[trigger]
            final(v)@.contains(e) <==> ((old(v)@.contains(e) && e.key() != x.key()) || e == x),
{
    remove_key(v, &x);
    let ghost mid = v@;
    proof {
        if keys_of(mid).contains(x.key()) {
            let i = choose|i: int| 0 <= i < keys_of(mid).len() && keys_of(mid)[i] == x.key();
            assert(mid.contains(mid[i]));
        }
    }
    insert_unique(v, x);
}

// ---------------------------------------------------------------------------
// Records
// ---------------------------------------------------------------------------

/// A record of strings, ordered by its fields.
pub struct Record {
    pub fields: Vec<Vec<char>>,
}

impl Keyed for Record {
    open spec fn key(&self) -> Seq<Seq<char>> {
        rows(self.fields@)
    }

    fn relate(&self, other: &Self) -> (r: Rank) {
        let ghost a = rows(self.fields@);
        let ghost b = rows(other.fields@);
        let mut i: usize = 0;
        proof {
            assert(a.skip(0) =~= a);
            assert(b.skip(0) =~= b);
        }
        while i < self.fields.len() && i < other.fields.len()
            invariant
                i <= self.fields.len(),
                i <= other.fields.len(),
                a == rows(self.fields@),
                b == rows(other.fields@),
                record_rank(a, b) == record_rank(a.skip(i as int), b.skip(i as int)),
            decreases self.fields.len() - i,
        {
            let r = compare(self.fields[i].as_slice(), other.fields[i].as_slice());
            proof {
                lemma_record_rank_step(a.skip(i as int), b.skip(i as int));
                assert(a.skip(i as int)[0] == self.fields@[i as int]@);
                assert(b.skip(i as int)[0] == other.fields@[i as int]@);
                assert(a.skip(i as int).drop_first() =~= a.skip(i + 1));
                assert(b.skip(i as int).drop_first() =~= b.skip(i + 1));
            }
            match r {
                Rank::Same => {},
                Rank::Before => {
                    return Rank::Before;
                },
                Rank::After => {
                    return Rank::After;
                },
            }
            i += 1;
        }
        proof {
            if a.skip(i as int).len() == 0 && b.skip(i as int).len() == 0 {
                assert(a.skip(i as int) =~= b.skip(i as int));
            }
        }
        if i < other.fields.len() {
            Rank::Before
        } else if i < self.fields.len() {
            Rank::After
        } else {
            Rank::Same
        }
    }
}

/// A record of one field.
pub fn record1(a: &[char]) -> (r: Record)
    ensures
        r.key() == seq![a@],
{
    let mut fields: Vec<Vec<char>> = Vec::new();
    fields.push(copy_chars(a));
    let r = Record { fields };
    assert(r.key() =~= seq![a@]);
    r
}

/// A record of two fields.
pub fn record2(a: &[char], b: &[char]) -> (r: Record)
    ensures
        r.key() == seq![a@, b@],
{
    let mut fields: Vec<Vec<char>> = Vec::new();
    fields.push(copy_chars(a));
    fields.push(copy_chars(b));
    let r = Record { fields };
    assert(r.key() =~= seq![a@, b@]);
    r
}

/// A record of three fields.
pub fn record3(a: &[char], b: &[char], c: &[char]) -> (r: Record)
    ensures
        r.key() == seq![a@, b@, c@],
{
    let mut fields: Vec<Vec<char>> = Vec::new();
    fields.push(copy_chars(a));
    fields.push(copy_chars(b));
    fields.push(copy_chars(c));
    let r = Record { fields };
    assert(r.key() =~= seq![a@, b@, c@]);
    r
}

/// Records of two fields are ordered by the first field, then the second.
pub proof fn lemma_record2_lt(a: Seq<char>, b: Seq<char>, c: Seq<char>, d: Seq<char>)
    ensures
        record_lt(seq![a, b], seq![c, d]) == (lex_lt(a, c) && a != c || a == c && lex_lt(b, d)
            && b != d),
{
    reveal_with_fuel(record_lt, 3);
    let x = seq![a, b];
    let y = seq![c, d];
    assert(x.drop_first() =~= seq![b]);
    assert(y.drop_first() =~= seq![d]);
    assert(seq![b].drop_first() =~= Seq::<Seq<char>>::empty());
    assert(seq![d].drop_first() =~= Seq::<Seq<char>>::empty());
    if lex_lt(a, c) {
        lemma_lex_asymmetric(a, c);
    }
    if lex_lt(b, d) {
        lemma_lex_asymmetric(b, d);
    }
}

/// Records of three fields are ordered by the first two, then the third.
pub proof fn lemma_record3_lt(
    a: Seq<char>,
    b: Seq<char>,
    c: Seq<char>,
    d: Seq<char>,
    e: Seq<char>,
    f: Seq<char>,
)
    ensures
        record_lt(seq![a, b, c], seq![d, e, f]) == (record_lt(seq![a, b], seq![d, e]) || (a == d
            && b == e && lex_lt(c, f))),
{
    reveal_with_fuel(record_lt, 4);
    lemma_record2_lt(a, b, d, e);
    lemma_lex_irreflexive(c);
    lemma_lex_irreflexive(a);
    lemma_lex_irreflexive(b);
    let x = seq![a, b, c];
    let y = seq![d, e, f];
    assert(x.drop_first() =~= seq![b, c]);
    assert(y.drop_first() =~= seq![e, f]);
    assert(seq![b, c].drop_first() =~= seq![c]);
    assert(seq![e, f].drop_first() =~= seq![f]);
    assert(seq![c].drop_first() =~= Seq::<Seq<char>>::empty());
    assert(seq![f].drop_first() =~= Seq::<Seq<char>>::empty());
    if lex_lt(a, d) {
        lemma_lex_asymmetric(a, d);
    }
    if lex_lt(b, e) {
        lemma_lex_asymmetric(b, e);
    }
}

/// A record of one field comes before every record that begins with that
/// field and goes on; it comes before any other record exactly if its
/// field comes before that record's first.
pub proof fn lemma_record1_lt(a: Seq<char>, k: Seq<Seq<char>>)
    requires
        k.len() >= 2,
    ensures
        record_lt(seq![a], k) == (a == k[0] || lex_lt(a, k[0])),
        record_lt(k, seq![a]) == (a != k[0] && lex_lt(k[0], a)),
{
    reveal_with_fuel(record_lt, 3);
    assert(seq![a].drop_first() =~= Seq::<Seq<char>>::empty());
    if lex_lt(a, k[0]) {
        lemma_lex_asymmetric(a, k[0]);
    }
    if lex_lt(k[0], a) {
        lemma_lex_asymmetric(k[0], a);
    }
}

// ---------------------------------------------------------------------------
// Strings in ascending order
// ---------------------------------------------------------------------------

/// Each string comes before every later one.
pub open spec fn ascending(s: Seq<Seq<char>>) -> bool {
    forall|i: int, j: int| 0 <= i < j < s.len() ==> lex_lt(#[trigger] s[i], #[trigger] s[j])
}

/// Whether some element of `v` holds the text `s`.
pub fn holds_text(v: &Vec<Vec<char>>, s: &[char]) -> (r: bool)
    ensures
        r == rows(v@).contains(s@),
{
    let mut i: usize = 0;
    while i < v.len()
        invariant
            i <= v.len(),
            forall|j: int| 0 <= j < i ==> rows(v@)[j] != s@,
        decreases v.len() - i,
    {
        if same_chars(v[i].as_slice(), s) {
            assert(rows(v@)[i as int] == s@);
            return true;
        }
        i += 1;
    }
    false
}

// ---------------------------------------------------------------------------
// Ranking by a number
// ---------------------------------------------------------------------------

/// The numbers that `keys` holds.
pub open spec fn as_nats(keys: Seq<u128>) -> Seq<nat> {
    Seq::new(keys.len(), |i: int| keys[i] as nat)
}

/// Index `a` stands before index `b`: its key is greater, or the keys are
/// equal and it is the smaller index.
pub open spec fn outranks(keys: Seq<nat>, a: int, b: int) -> bool {
    keys[a] > keys[b] || (keys[a] == keys[b] && a < b)
}

/// `order` lists every index of `keys` once, greatest key first, and indices
/// of equal keys in their own order.
pub open spec fn is_ranking(keys: Seq<nat>, order: Seq<usize>) -> bool {
    &&& order.len() == keys.len()
    &&& forall|i: int| 0 <= i < order.len() ==> (#[trigger] order[i]) < keys.len()
    &&& forall|i: int, j: int|
        0 <= i < j < order.len() ==> outranks(keys, #[trigger] order[i] as int, #[trigger] order[j] as int)
    &&& forall|x: usize| x < keys.len() ==> #[trigger] order.contains(x)
}

/// The ranking of `keys`.
pub open spec fn ranking_of(keys: Seq<nat>) -> Seq<usize> {
    choose|order: Seq<usize>| is_ranking(keys, order)
}

/// There is one ranking only.
pub proof fn lemma_ranking_unique(keys: Seq<nat>, x: Seq<usize>, y: Seq<usize>)
    requires
        is_ranking(keys, x),
        is_ranking(keys, y),
    ensures
        x == y,
{
    lemma_ranking_prefix(keys, x, y, keys.len() as int);
    assert(x =~= y);
}

/// Two rankings agree on their first `n` places.
proof fn lemma_ranking_prefix(keys: Seq<nat>, x: Seq<usize>, y: Seq<usize>, n: int)
    requires
        is_ranking(keys, x),
        is_ranking(keys, y),
        0 <= n <= keys.len(),
    ensures
        forall|i: int| 0 <= i < n ==> x[i] == y[i],
    decreases n,
{
    if n > 0 {
        lemma_ranking_prefix(keys, x, y, n - 1);
        let m = n - 1;
        // Where each ranking holds what the other holds at place `m`.
        assert(y.contains(x[m]));
        assert(x.contains(y[m]));
        let a = choose|a: int| 0 <= a < y.len() && y[a] == x[m];
        let b = choose|b: int| 0 <= b < x.len() && x[b] == y[m];
        if a < m {
            // x[a] == y[a] == x[m]: the ranking `x` would hold an index twice.
            assert(outranks(keys, x[a] as int, x[m] as int));
        }
        if b < m {
            assert(outranks(keys, y[b] as int, y[m] as int));
        }
        if a > m && b > m {
            assert(outranks(keys, y[m] as int, y[a] as int));
            assert(outranks(keys, x[m] as int, x[b] as int));
        }
    }
}

/// The ranking of `keys` is a ranking.
pub proof fn lemma_ranking_of(keys: Seq<nat>, order: Seq<usize>)
    requires
        is_ranking(keys, order),
    ensures
        ranking_of(keys) == order,
        is_ranking(keys, ranking_of(keys)),
{
    lemma_ranking_unique(keys, ranking_of(keys), order);
}

/// How many of the indices of `order` from `from` on have a key no less
/// than `key`, counted up to the first that has a lesser one.
spec fn place_for(keys: Seq<nat>, order: Seq<usize>, key: nat, from: int) -> int
    decreases order.len() - from,
{
    if 0 <= from < order.len() && keys[order[from] as int] >= key {
        place_for(keys, order, key, from + 1)
    } else {
        from
    }
}

proof fn lemma_place_for(keys: Seq<nat>, order: Seq<usize>, key: nat, from: int)
    requires
        0 <= from <= order.len(),
    ensures
        from <= place_for(keys, order, key, from) <= order.len(),
        forall|i: int|
            from <= i < place_for(keys, order, key, from) ==> keys[(#[trigger] order[i]) as int]
                >= key,
        place_for(keys, order, key, from) < order.len() ==> keys[order[place_for(
            keys,
            order,
            key,
            from,
        )] as int] < key,
    decreases order.len() - from,
{
    if from < order.len() && keys[order[from] as int] >= key {
        lemma_place_for(keys, order, key, from + 1);
    }
}

/// Keys that a machine can count have a ranking.
pub proof fn lemma_ranking_exists(keys: Seq<nat>)
    requires
        keys.len() <= usize::MAX,
    ensures
        is_ranking(keys, ranking_of(keys)),
    decreases keys.len(),
{
    if keys.len() == 0 {
        let order = Seq::<usize>::empty();
        assert(is_ranking(keys, order));
    } else {
        let n = (keys.len() - 1) as int;
        let front = keys.drop_last();
        lemma_ranking_exists(front);
        let before = ranking_of(front);
        let key = keys[n];
        let p = place_for(keys, before, key, 0);
        lemma_place_for(keys, before, key, 0);
        let after = before.insert(p, n as usize);
        assert forall|i: int| 0 <= i < before.len() implies keys[(#[trigger] before[i]) as int]
            == front[before[i] as int] by {}
        assert forall|i: int| p <= i < before.len() implies keys[(#[trigger] before[i]) as int]
            < key by {
            if i > p {
                assert(outranks(front, before[p] as int, before[i] as int));
            }
        }
        assert forall|i: int, j: int| 0 <= i < j < after.len() implies outranks(
            keys,
            #[trigger] after[i] as int,
            #[trigger] after[j] as int,
        ) by {
            if j < p {
                assert(outranks(front, before[i] as int, before[j] as int));
            } else if j == p {
                assert(after[i] == before[i]);
            } else if i < p {
                assert(outranks(front, before[i] as int, before[j - 1] as int));
            } else if i == p {
                assert(after[j] == before[j - 1]);
            } else {
                assert(outranks(front, before[i - 1] as int, before[j - 1] as int));
            }
        }
        assert forall|i: int| 0 <= i < after.len() implies (#[trigger] after[i]) < keys.len() by {
            if i < p {
                assert(after[i] == before[i]);
            } else if i > p {
                assert(after[i] == before[i - 1]);
            }
        }
        assert forall|x: usize| x < keys.len() implies #[trigger] after.contains(x) by {
            if x < n {
                assert(before.contains(x));
                let i = choose|i: int| 0 <= i < before.len() && before[i] == x;
                if i < p {
                    assert(after[i] == x);
                } else {
                    assert(after[i + 1] == x);
                }
            } else {
                assert(after[p] == x);
            }
        }
        assert(is_ranking(keys, after));
    }
}

/// The indices of `keys`, greatest key first; equal keys keep their order.
pub fn rank_indices(keys: &Vec<u128>) -> (order: Vec<usize>)
    ensures
        is_ranking(as_nats(keys@), order@),
        order@ == ranking_of(as_nats(keys@)),
{
    let ghost nats = as_nats(keys@);
    let mut order: Vec<usize> = Vec::new();
    let mut k: usize = 0;
    while k < keys.len()
        invariant
            k <= keys.len(),
            nats == as_nats(keys@),
            order.len() == k,
            forall|i: int| 0 <= i < order.len() ==> (#[trigger] order@[i]) < k,
            forall|i: int, j: int|
                0 <= i < j < order.len() ==> outranks(
                    nats,
                    #[trigger] order@[i] as int,
                    #[trigger] order@[j] as int,
                ),
            forall|x: usize| x < k ==> #[trigger] order@.contains(x),
        decreases keys.len() - k,
    {
        let key = keys[k];
        let mut lo: usize = 0;
        let mut hi: usize = k;
        while lo < hi
            invariant
                lo <= hi <= k,
                k < keys.len(),
                nats == as_nats(keys@),
                order.len() == k,
                key == keys@[k as int],
                forall|i: int| 0 <= i < order.len() ==> (#[trigger] order@[i]) < k,
                forall|i: int, j: int|
                    0 <= i < j < order.len() ==> outranks(
                        nats,
                        #[trigger] order@[i] as int,
                        #[trigger] order@[j] as int,
                    ),
                forall|i: int| 0 <= i < lo ==> keys@[(#[trigger] order@[i]) as int] >= key,
                forall|i: int| hi <= i < k ==> keys@[(#[trigger] order@[i]) as int] < key,
            decreases hi - lo,
        {
            let mid: usize = lo + (hi - lo) / 2;
            if keys[order[mid]] >= key {
                proof {
                    assert forall|i: int| 0 <= i < mid + 1 implies keys@[(#[trigger] order@[i]) as int]
                        >= key by {
                        if i < mid {
                            assert(outranks(nats, order@[i] as int, order@[mid as int] as int));
                        }
                    }
                }
                lo = mid + 1;
            } else {
                proof {
                    assert forall|i: int| mid <= i < k implies keys@[(#[trigger] order@[i]) as int]
                        < key by {
                        if i > mid {
                            assert(outranks(nats, order@[mid as int] as int, order@[i] as int));
                        }
                    }
                }
                hi = mid;
            }
        }
        let ghost before = order@;
        order.insert(lo, k);
        proof {
            let after = order@;
            assert forall|i: int, j: int| 0 <= i < j < after.len() implies outranks(
                nats,
                #[trigger] after[i] as int,
                #[trigger] after[j] as int,
            ) by {
                if j < lo {
                    assert(outranks(nats, before[i] as int, before[j] as int));
                } else if j == lo {
                    assert(after[i] == before[i]);
                } else if i < lo {
                    assert(outranks(nats, before[i] as int, before[j - 1] as int));
                } else if i == lo {
                    assert(after[j] == before[j - 1]);
                } else {
                    assert(outranks(nats, before[i - 1] as int, before[j - 1] as int));
                }
            }
            assert forall|i: int| 0 <= i < after.len() implies (#[trigger] after[i]) < k + 1 by {
                if i < lo {
                    assert(after[i] == before[i]);
                } else if i > lo {
                    assert(after[i] == before[i - 1]);
                }
            }
            assert forall|x: usize| x < k + 1 implies #[trigger] after.contains(x) by {
                if x < k {
                    assert(before.contains(x));
                    let i = choose|i: int| 0 <= i < before.len() && before[i] == x;
                    if i < lo {
                        assert(after[i] == x);
                    } else {
                        assert(after[i + 1] == x);
                    }
                } else {
                    assert(after[lo as int] == x);
                }
            }
        }
        k += 1;
    }
    proof {
        lemma_ranking_of(nats, order@);
    }
    order
}

} // verus!
