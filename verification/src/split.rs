//! Cutting text into pieces: at a separator, at white space, at line ends;
//! and joining pieces back together.

use crate::text::{
    copy_chars, count_leading, ends_with, find, has_suffix, occurs_at, has_prefix, lemma_position, lemma_run_len_bounds, position,
    push_chars, run_len, skip_leading, starts_with, without_leading, CharClass, Class,
};
use vstd::prelude::*;

verus! {

/// The text each row of `v` holds.
pub open spec fn rows(v: Seq<Vec<char>>) -> Seq<Seq<char>> {
    Seq::new(v.len(), |i: int| v[i]@)
}

pub proof fn lemma_rows_push(v: Seq<Vec<char>>, x: Vec<char>)
    ensures
        rows(v.push(x)) == rows(v).push(x@),
{
    assert(rows(v.push(x)) =~= rows(v).push(x@));
}

// ---------------------------------------------------------------------------
// Splitting at a separator
// ---------------------------------------------------------------------------

/// The parts of `s` before and after the first occurrence of `pat`.
pub open spec fn halves(s: Seq<char>, pat: Seq<char>) -> Option<(Seq<char>, Seq<char>)> {
    match position(s, pat) {
        Some(i) => Some((s.take(i), s.skip(i + pat.len()))),
        None => None,
    }
}

/// The parts of `s` between the occurrences of `pat`, taken from the left
/// and not overlapping. Text without the separator is a single piece.
pub open spec fn pieces(s: Seq<char>, pat: Seq<char>) -> Seq<Seq<char>>
    decreases s.len(),
{
    match position(s, pat) {
        Some(i) => if pat.len() > 0 && 0 <= i && i + pat.len() <= s.len() {
            seq![s.take(i)] + pieces(s.skip(i + pat.len()), pat)
        } else {
            seq![s]
        },
        None => seq![s],
    }
}

pub proof fn lemma_pieces_nonempty(s: Seq<char>, pat: Seq<char>)
    ensures
        pieces(s, pat).len() >= 1,
    decreases s.len(),
{
    match position(s, pat) {
        Some(i) => if pat.len() > 0 && 0 <= i && i + pat.len() <= s.len() {
            lemma_pieces_nonempty(s.skip(i + pat.len()), pat);
        },
        None => {},
    }
}

pub fn split_once<'b>(s: &'b [char], pat: &[char]) -> (r: Option<(&'b [char], &'b [char])>)
    ensures
        match r {
            Some((left, right)) => halves(s@, pat@) == Some((left@, right@)),
            None => halves(s@, pat@) is None,
        },
{
    match find(s, pat) {
        Some(i) => {
            proof {
                lemma_position(s@, pat@);
                assert(occurs_at(s@, pat@, i as int));
            }
            let n: usize = s.len();
            let j: usize = i + pat.len();
            Some((&s[0..i], &s[j..n]))
        },
        None => None,
    }
}

pub fn split(s: &[char], pat: &[char]) -> (r: Vec<Vec<char>>)
    ensures
        rows(r@) == pieces(s@, pat@),
        r.len() >= 1,
{
    let mut out: Vec<Vec<char>> = Vec::new();
    let mut rest: &[char] = s;
    proof {
        assert(rows(out@) =~= Seq::<Seq<char>>::empty());
        assert(rows(out@) + pieces(rest@, pat@) =~= pieces(s@, pat@));
    }
    loop
        invariant
            rows(out@) + pieces(rest@, pat@) == pieces(s@, pat@),
        decreases rest.len(),
    {
        let found = if pat.len() == 0 {
            None
        } else {
            find(rest, pat)
        };
        match found {
            Some(i) => {
                proof {
                    lemma_position(rest@, pat@);
                }
                let piece = copy_chars(&rest[0..i]);
                let ghost before = out@;
                let ghost whole = rest@;
                out.push(piece);
                rest = &rest[i + pat.len()..rest.len()];
                proof {
                    lemma_rows_push(before, piece);
                    assert(piece@ == whole.take(i as int));
                    assert(rest@ == whole.skip(i + pat.len()));
                    assert(rows(out@) + pieces(rest@, pat@) =~= rows(before) + (seq![piece@]
                        + pieces(rest@, pat@)));
                }
            },
            None => {
                let piece = copy_chars(rest);
                let ghost before = out@;
                out.push(piece);
                proof {
                    lemma_rows_push(before, piece);
                    assert(pieces(rest@, pat@) == seq![rest@]);
                    assert(rows(out@) =~= rows(before) + seq![rest@]);
                }
                return out;
            },
        }
    }
}

/// The last piece of `s` cut at `pat`.
pub open spec fn last_piece(s: Seq<char>, pat: Seq<char>) -> Seq<char> {
    pieces(s, pat).last()
}

// ---------------------------------------------------------------------------
// Words
// ---------------------------------------------------------------------------

/// The maximal runs of `class` characters in `s`, in order, where every
/// other character belongs to `gap`.
pub open spec fn runs_of(s: Seq<char>, class: Class, gap: Class) -> Seq<Seq<char>>
    decreases s.len(),
{
    let t = without_leading(s, gap);
    let n = run_len(t, class);
    if n == 0 {
        Seq::empty()
    } else {
        proof {
            lemma_run_len_bounds(s, gap);
            lemma_run_len_bounds(t, class);
        }
        seq![t.take(n as int)] + runs_of(t.skip(n as int), class, gap)
    }
}

/// The maximal runs of characters that are not white space, in order.
pub open spec fn words(s: Seq<char>) -> Seq<Seq<char>> {
    runs_of(s, Class::NonSpace, Class::Space)
}

/// The maximal runs of word characters, in order.
pub open spec fn word_runs(s: Seq<char>) -> Seq<Seq<char>> {
    runs_of(s, Class::Word, Class::NonWord)
}

pub fn split_runs(s: &[char], class: &CharClass, gap: &CharClass) -> (r: Vec<Vec<char>>)
    ensures
        rows(r@) == runs_of(s@, class@, gap@),
{
    let mut out: Vec<Vec<char>> = Vec::new();
    let mut rest: &[char] = s;
    proof {
        assert(rows(out@) =~= Seq::<Seq<char>>::empty());
        assert(rows(out@) + runs_of(rest@, class@, gap@) =~= runs_of(s@, class@, gap@));
    }
    loop
        invariant
            rows(out@) + runs_of(rest@, class@, gap@) == runs_of(s@, class@, gap@),
        decreases rest.len(),
    {
        let t = skip_leading(rest, gap);
        let n = count_leading(t, class);
        proof {
            lemma_run_len_bounds(rest@, gap@);
        }
        if n == 0 {
            proof {
                assert(runs_of(rest@, class@, gap@) =~= Seq::<Seq<char>>::empty());
                assert(rows(out@) + runs_of(rest@, class@, gap@) =~= rows(out@));
            }
            return out;
        }
        let word = copy_chars(&t[0..n]);
        let ghost before = out@;
        let ghost whole = rest@;
        out.push(word);
        rest = &t[n..t.len()];
        proof {
            lemma_rows_push(before, word);
            assert(runs_of(whole, class@, gap@) == seq![word@] + runs_of(rest@, class@, gap@));
            assert(rows(out@) + runs_of(rest@, class@, gap@) =~= rows(before) + (seq![word@]
                + runs_of(rest@, class@, gap@)));
        }
    }
}

pub fn split_whitespace(s: &[char]) -> (r: Vec<Vec<char>>)
    ensures
        rows(r@) == words(s@),
{
    split_runs(s, &CharClass::NonSpace, &CharClass::Space)
}

pub fn split_word_runs(s: &[char]) -> (r: Vec<Vec<char>>)
    ensures
        rows(r@) == word_runs(s@),
{
    split_runs(s, &CharClass::Word, &CharClass::NonWord)
}

// ---------------------------------------------------------------------------
// Lines
// ---------------------------------------------------------------------------

/// `l` without a carriage return at its end.
pub open spec fn without_cr(l: Seq<char>) -> Seq<char> {
    if l.len() > 0 && l.last() == '\r' {
        l.drop_last()
    } else {
        l
    }
}

/// The lines of `s`. A line ends at a line feed, or at a carriage return
/// followed by one; neither belongs to the line. Text after the last line
/// feed is a line of its own, unless there is none.
pub open spec fn line_seq(s: Seq<char>) -> Seq<Seq<char>>
    decreases s.len(),
{
    if s.len() == 0 {
        Seq::empty()
    } else {
        let k = run_len(s, Class::Except('\n'));
        if k >= s.len() {
            seq![s]
        } else {
            seq![without_cr(s.take(k as int))] + line_seq(s.skip(k as int + 1))
        }
    }
}

pub fn lines(s: &[char]) -> (r: Vec<Vec<char>>)
    ensures
        rows(r@) == line_seq(s@),
{
    let mut out: Vec<Vec<char>> = Vec::new();
    let mut rest: &[char] = s;
    proof {
        assert(rows(out@) =~= Seq::<Seq<char>>::empty());
        assert(rows(out@) + line_seq(rest@) =~= line_seq(s@));
    }
    while rest.len() > 0
        invariant
            rows(out@) + line_seq(rest@) == line_seq(s@),
        decreases rest.len(),
    {
        let k = count_leading(rest, &CharClass::Except('\n'));
        let ghost before = out@;
        let ghost whole = rest@;
        if k >= rest.len() {
            let line = copy_chars(rest);
            out.push(line);
            rest = &rest[rest.len()..rest.len()];
            proof {
                lemma_rows_push(before, line);
                assert(line_seq(whole) == seq![whole]);
                assert(line_seq(rest@) =~= Seq::<Seq<char>>::empty());
                assert(rows(out@) + line_seq(rest@) =~= rows(before) + seq![whole]);
            }
        } else {
            let end = if k > 0 && rest[k - 1] == '\r' {
                k - 1
            } else {
                k
            };
            let line = copy_chars(&rest[0..end]);
            out.push(line);
            rest = &rest[k + 1..rest.len()];
            proof {
                lemma_rows_push(before, line);
                assert(line@ =~= without_cr(whole.take(k as int)));
                assert(rest@ == whole.skip(k + 1));
                assert(rows(out@) + line_seq(rest@) =~= rows(before) + (seq![line@] + line_seq(
                    rest@,
                )));
            }
        }
    }
    proof {
        assert(line_seq(rest@) =~= Seq::<Seq<char>>::empty());
        assert(rows(out@) + line_seq(rest@) =~= rows(out@));
    }
    out
}

// ---------------------------------------------------------------------------
// Joining
// ---------------------------------------------------------------------------

/// The rows one after another, with `sep` between neighbours.
pub open spec fn joined(parts: Seq<Seq<char>>, sep: Seq<char>) -> Seq<char>
    decreases parts.len(),
{
    if parts.len() == 0 {
        Seq::empty()
    } else if parts.len() == 1 {
        parts[0]
    } else {
        joined(parts.drop_last(), sep) + sep + parts.last()
    }
}

/// Joins the rows `from..to` of `parts` with `sep` between neighbours.
pub fn join_range(parts: &Vec<Vec<char>>, from: usize, to: usize, sep: &[char]) -> (r: Vec<char>)
    requires
        from <= to <= parts.len(),
    ensures
        r@ == joined(rows(parts@).subrange(from as int, to as int), sep@),
{
    let mut out: Vec<char> = Vec::new();
    let mut i: usize = from;
    let ghost all = rows(parts@);
    while i < to
        invariant
            from <= i <= to <= parts.len(),
            all == rows(parts@),
            out@ == joined(all.subrange(from as int, i as int), sep@),
        decreases to - i,
    {
        if i > from {
            push_chars(&mut out, sep);
        }
        push_chars(&mut out, parts[i].as_slice());
        i += 1;
        proof {
            let cur = all.subrange(from as int, i as int);
            assert(cur.drop_last() =~= all.subrange(from as int, i - 1));
            assert(cur.last() == parts@[i - 1]@);
            if i - 1 == from {
                assert(out@ =~= cur[0]);
            }
        }
    }
    out
}

// ---------------------------------------------------------------------------
// Repeated prefixes
// ---------------------------------------------------------------------------

/// `s` with every leading repetition of `pat` removed.
pub open spec fn without_prefix_runs(s: Seq<char>, pat: Seq<char>) -> Seq<char>
    decreases s.len(),
{
    if pat.len() > 0 && has_prefix(s, pat) {
        without_prefix_runs(s.skip(pat.len() as int), pat)
    } else {
        s
    }
}

pub fn strip_prefix_runs<'b>(s: &'b [char], pat: &[char]) -> (r: &'b [char])
    ensures
        r@ == without_prefix_runs(s@, pat@),
{
    let mut rest: &[char] = s;
    while pat.len() > 0 && starts_with(rest, pat)
        invariant
            without_prefix_runs(rest@, pat@) == without_prefix_runs(s@, pat@),
        decreases rest.len(),
    {
        rest = &rest[pat.len()..rest.len()];
    }
    rest
}

/// `s` without `pat` at its start, if it starts with `pat`.
pub open spec fn after_prefix(s: Seq<char>, pat: Seq<char>) -> Option<Seq<char>> {
    if has_prefix(s, pat) {
        Some(s.skip(pat.len() as int))
    } else {
        None
    }
}

pub fn strip_prefix<'b>(s: &'b [char], pat: &[char]) -> (r: Option<&'b [char]>)
    ensures
        match r {
            Some(rest) => after_prefix(s@, pat@) == Some(rest@),
            None => after_prefix(s@, pat@) is None,
        },
{
    if starts_with(s, pat) {
        Some(&s[pat.len()..s.len()])
    } else {
        None
    }
}

/// `s` with every trailing repetition of `pat` removed.
pub open spec fn without_suffix_runs(s: Seq<char>, pat: Seq<char>) -> Seq<char>
    decreases s.len(),
{
    if pat.len() > 0 && has_suffix(s, pat) {
        without_suffix_runs(s.take(s.len() - pat.len()), pat)
    } else {
        s
    }
}

pub fn strip_suffix_runs<'b>(s: &'b [char], pat: &[char]) -> (r: &'b [char])
    ensures
        r@ == without_suffix_runs(s@, pat@),
{
    let mut rest: &[char] = s;
    while pat.len() > 0 && ends_with(rest, pat)
        invariant
            without_suffix_runs(rest@, pat@) == without_suffix_runs(s@, pat@),
        decreases rest.len(),
    {
        rest = &rest[0..rest.len() - pat.len()];
    }
    rest
}

} // verus!
