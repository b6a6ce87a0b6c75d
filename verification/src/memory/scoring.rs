//! How much an entry of the project memory has to do with one file.
//!
//! Scores are whole numbers of thousandths of a point: a defining file is
//! worth 1000, a matching import 600 to 800, a file nearby 150 to 400. The
//! score of a symbol is damped by the number of files that declare it: it
//! is divided by one plus the base-10 logarithm of that number.
//!
//! The logarithm is a fixed-point number with 30 binary places. Its whole
//! part is the number of digits less one. Its places come from the number
//! scaled to 18 digits, one after another: the number is squared, as a
//! fixed-point number with 17 decimal places, rounded down; the place is 1
//! if the square reaches 10, and the square is then divided by 10. Rounding
//! down at every step, the logarithm is never above the true one; it is
//! the true one at the powers of ten, and it grows with the number.

use crate::memory::paths::{dir_of, is_subdirectory, is_under, parent_dir, same_dir};
use crate::memory::types::{texts, GlobalModel, ItemModel, LinkModel};
use crate::split::rows;
use crate::text::{chars_of, same_chars};
use vstd::prelude::*;

verus! {

/// Entries that score less than this are left out.
pub const RELEVANCE_THRESHOLD: u128 = 300;

// ---------------------------------------------------------------------------
// The logarithm
// ---------------------------------------------------------------------------

/// The parts of one in which a logarithm is counted: 2^30.
pub const LOG_UNIT: u128 = 0x4000_0000;

/// The binary places of a logarithm.
pub const LOG_PLACES: u32 = 30;

/// The parts of one in which a number is held while it is squared: 10^17.
pub const SQUARE_UNIT: u128 = 100_000_000_000_000_000;

pub open spec fn pow10(e: nat) -> nat
    decreases e,
{
    if e == 0 {
        1
    } else {
        10 * pow10((e - 1) as nat)
    }
}

pub open spec fn pow2(e: nat) -> nat
    decreases e,
{
    if e == 0 {
        1
    } else {
        2 * pow2((e - 1) as nat)
    }
}

/// The whole part of the base-10 logarithm of `n`: the number of its
/// digits less one.
pub open spec fn whole_log(n: nat) -> nat
    decreases n,
{
    if n < 10 {
        0
    } else {
        1 + whole_log(n / 10)
    }
}

/// `n` scaled to a number from 1 up to 10, in parts of `SQUARE_UNIT`,
/// rounded down.
pub open spec fn mantissa(n: nat) -> nat {
    n * SQUARE_UNIT as nat / pow10(whole_log(n))
}

/// The square of `x`, both in parts of `SQUARE_UNIT`, rounded down.
pub open spec fn squared(x: nat) -> nat {
    x * x / SQUARE_UNIT as nat
}

/// The logarithm that begins with the places `acc` and goes on with
/// `places` places of the base-10 logarithm of `x`, a number from 1 up to
/// 10 in parts of `SQUARE_UNIT`.
pub open spec fn log_places(x: nat, places: nat, acc: nat) -> nat
    decreases places,
{
    if places == 0 {
        acc
    } else if squared(x) >= 10 * SQUARE_UNIT {
        log_places(squared(x) / 10, (places - 1) as nat, 2 * acc + 1)
    } else {
        log_places(squared(x), (places - 1) as nat, 2 * acc)
    }
}

/// The base-10 logarithm of `n` in parts of `LOG_UNIT`. For 0 it is 0.
pub open spec fn log10_fixed(n: nat) -> nat {
    if n == 0 {
        0
    } else {
        log_places(mantissa(n), LOG_PLACES as nat, whole_log(n))
    }
}

/// A score divided by one plus the base-10 logarithm of the number of
/// defining files, rounded down. A symbol that no file defines scores 0.
pub open spec fn damped(base: nat, definers: nat) -> nat {
    if definers == 0 {
        0
    } else {
        base * LOG_UNIT as nat / (LOG_UNIT as nat + log10_fixed(definers))
    }
}

/// A number lies between the power of ten of its whole logarithm and the
/// next.
pub proof fn lemma_whole_log(n: nat)
    requires
        n >= 1,
    ensures
        pow10(whole_log(n)) <= n < pow10(whole_log(n) + 1),
    decreases n,
{
    reveal_with_fuel(pow10, 2);
    if n >= 10 {
        lemma_whole_log(n / 10);
    }
}

/// The scaled number is a number from 1 up to 10.
pub proof fn lemma_mantissa(n: nat)
    requires
        n >= 1,
    ensures
        SQUARE_UNIT <= mantissa(n) < 10 * SQUARE_UNIT,
{
    lemma_whole_log(n);
    let p = pow10(whole_log(n));
    let s = SQUARE_UNIT as nat;
    assert(pow10(whole_log(n) + 1) == 10 * p);
    assert(n * s / p >= s) by (nonlinear_arith)
        requires
            p >= 1,
            n >= p,
    ;
    assert(n * s / p < 10 * s) by (nonlinear_arith)
        requires
            p >= 1,
            n < 10 * p,
            s > 0,
    ;
}

/// Squaring keeps a number from 1 up to 10 below 100, and dividing by 10
/// where it reaches 10 brings it back.
proof fn lemma_squared(x: nat)
    requires
        SQUARE_UNIT <= x < 10 * SQUARE_UNIT,
    ensures
        SQUARE_UNIT <= squared(x) < 100 * SQUARE_UNIT,
        x * x < 100 * SQUARE_UNIT * SQUARE_UNIT,
        squared(x) >= 10 * SQUARE_UNIT ==> SQUARE_UNIT <= squared(x) / 10 < 10 * SQUARE_UNIT,
{
    let s = SQUARE_UNIT as nat;
    assert(x * x >= s * s) by (nonlinear_arith)
        requires
            x >= s,
    ;
    assert(x * x < 100 * s * s) by (nonlinear_arith)
        requires
            x < 10 * s,
    ;
    assert(x * x / s >= s) by (nonlinear_arith)
        requires
            x * x >= s * s,
            s > 0,
    ;
    assert(x * x / s < 100 * s) by (nonlinear_arith)
        requires
            x * x < 100 * s * s,
            s > 0,
    ;
}

/// The places that follow change nothing of the places that stand: the
/// logarithm lies between `acc` and `acc + 1`, counted in its last place.
pub proof fn lemma_log_places_bounds(x: nat, places: nat, acc: nat)
    ensures
        acc * pow2(places) <= log_places(x, places, acc) < (acc + 1) * pow2(places),
    decreases places,
{
    if places == 0 {
        assert(acc * 1 == acc && (acc + 1) * 1 == acc + 1);
    } else {
        let h = pow2((places - 1) as nat);
        assert(pow2(places) == 2 * h);
        assert((2 * acc) * h == acc * (2 * h)) by (nonlinear_arith);
        assert((2 * acc + 1 + 1) * h == (acc + 1) * (2 * h)) by (nonlinear_arith);
        assert((2 * acc + 1) * h >= (2 * acc) * h) by (nonlinear_arith);
        assert((2 * acc + 1) * h <= (2 * acc + 1 + 1) * h) by (nonlinear_arith);
        if squared(x) >= 10 * SQUARE_UNIT {
            lemma_log_places_bounds(squared(x) / 10, (places - 1) as nat, 2 * acc + 1);
        } else {
            lemma_log_places_bounds(squared(x), (places - 1) as nat, 2 * acc);
        }
    }
}

proof fn lemma_unit_is_power()
    ensures
        pow2(LOG_PLACES as nat) == LOG_UNIT,
{
    reveal_with_fuel(pow2, 31);
}

/// The whole logarithm of a number of files.
fn whole_log_of(n: u128) -> (r: (u128, u128))
    requires
        1 <= n <= usize::MAX,
    ensures
        r.0 == whole_log(n as nat),
        r.1 == pow10(whole_log(n as nat)),
        r.0 <= 19,
        1 <= r.1 <= n,
{
    let mut m: u128 = n;
    let mut e: u128 = 0;
    let mut p: u128 = 1;
    proof {
        reveal_with_fuel(pow10, 2);
    }
    while m >= 10
        invariant
            m >= 1,
            p * m <= n,
            1 <= p <= n,
            e < p,
            p == pow10(e as nat),
            whole_log(n as nat) == e + whole_log(m as nat),
            pow10(whole_log(n as nat)) == p * pow10(whole_log(m as nat)),
            n <= usize::MAX,
        decreases m,
    {
        proof {
            let q = m / 10;
            assert(p * 10 * q <= p * m) by (nonlinear_arith)
                requires
                    10 * q <= m,
                    p >= 0,
            ;
            assert(pow10(whole_log(m as nat)) == 10 * pow10(whole_log(q as nat)));
            assert(p * (10 * pow10(whole_log(q as nat))) == (p * 10) * pow10(whole_log(q as nat)))
                by (nonlinear_arith);
            assert(pow10((e + 1) as nat) == 10 * pow10(e as nat));
            assert(p * 10 <= p * m) by (nonlinear_arith)
                requires
                    m >= 10,
                    p >= 0,
            ;
        }
        p = p * 10;
        m = m / 10;
        e += 1;
    }
    proof {
        assert(p * 1 <= p * m) by (nonlinear_arith)
            requires
                m >= 1,
                p >= 0,
        ;
        if e > 19 {
            if e > 20 {
                lemma_pow10_increasing(20, e as nat);
            }
            reveal_with_fuel(pow10, 21);
            assert(false);
        }
    }
    (e, p)
}

/// The logarithm of a number of files, in parts of `LOG_UNIT`. For no file
/// it is 0.
pub fn log10_fixed_of(n: usize) -> (r: u128)
    ensures
        r == log10_fixed(n as nat),
        r < 20 * LOG_UNIT,
{
    if n == 0 {
        return 0;
    }
    let (e, p) = whole_log_of(n as u128);
    proof {
        lemma_mantissa(n as nat);
        lemma_unit_is_power();
        lemma_log_places_bounds(mantissa(n as nat), LOG_PLACES as nat, e as nat);
        assert((e + 1) * LOG_UNIT <= 20 * LOG_UNIT) by (nonlinear_arith)
            requires
                e <= 19,
        ;
        assert((n as u128) * SQUARE_UNIT <= 0xffff_ffff_ffff_ffff * SQUARE_UNIT) by (nonlinear_arith)
            requires
                n <= 0xffff_ffff_ffff_ffff,
        ;
    }
    let mut x: u128 = (n as u128) * SQUARE_UNIT / p;
    let mut acc: u128 = e;
    let mut i: u32 = 0;
    assert(pow2(0) == 1 && (e + 1) * 1 == e + 1);
    while i < LOG_PLACES
        invariant
            i <= LOG_PLACES,
            SQUARE_UNIT <= x < 10 * SQUARE_UNIT,
            log10_fixed(n as nat) == log_places(x as nat, (LOG_PLACES - i) as nat, acc as nat),
            acc < (e + 1) * pow2(i as nat),
            e <= 19,
        decreases LOG_PLACES - i,
    {
        proof {
            lemma_squared(x as nat);
            assert(pow2((i + 1) as nat) == 2 * pow2(i as nat));
            assert((e + 1) * (2 * pow2(i as nat)) == 2 * ((e + 1) * pow2(i as nat))) by (nonlinear_arith);
            lemma_pow2_bound(i as nat);
            assert((e + 1) * pow2(i as nat) <= 20 * 0x4000_0000) by (nonlinear_arith)
                requires
                    e <= 19,
                    pow2(i as nat) <= 0x4000_0000,
            ;
        }
        let y: u128 = x * x / SQUARE_UNIT;
        if y >= 10 * SQUARE_UNIT {
            x = y / 10;
            acc = 2 * acc + 1;
        } else {
            x = y;
            acc = 2 * acc;
        }
        i += 1;
    }
    acc
}

proof fn lemma_pow2_bound(i: nat)
    requires
        i <= 30,
    ensures
        pow2(i) <= 0x4000_0000,
    decreases 30 - i,
{
    if i < 30 {
        lemma_pow2_bound(i + 1);
        assert(pow2(i + 1) == 2 * pow2(i));
    } else {
        reveal_with_fuel(pow2, 31);
    }
}

/// A score damped by the number of defining files.
pub fn damp(base: u128, definers: usize) -> (r: u128)
    requires
        base <= 0x1_0000_0000_0000_0000_0000,
    ensures
        r == damped(base as nat, definers as nat),
        r <= base,
{
    if definers == 0 {
        return 0;
    }
    let log = log10_fixed_of(definers);
    assert(base * LOG_UNIT <= 0x1_0000_0000_0000_0000_0000 * LOG_UNIT) by (nonlinear_arith)
        requires
            base <= 0x1_0000_0000_0000_0000_0000,
    ;
    let r = base * LOG_UNIT / (LOG_UNIT + log);
    assert(base * LOG_UNIT / (LOG_UNIT + log) <= base) by (nonlinear_arith)
        requires
            log >= 0,
            base >= 0,
            LOG_UNIT > 0,
    ;
    r
}

// ---------------------------------------------------------------------------
// Nearness
// ---------------------------------------------------------------------------

/// The points of one file for being near the target: `same` if it lies in
/// the target's directory, `below` if it lies below it.
pub open spec fn nearness(
    path: Seq<char>,
    target_dir: Seq<Seq<char>>,
    same: nat,
    below: nat,
) -> nat {
    if dir_of(path) == target_dir {
        same
    } else if is_under(dir_of(path), target_dir) {
        below
    } else {
        0
    }
}

/// The points of all files together.
pub open spec fn proximity(
    paths: Seq<Seq<char>>,
    target_dir: Seq<Seq<char>>,
    same: nat,
    below: nat,
) -> nat
    decreases paths.len(),
{
    if paths.len() == 0 {
        0
    } else {
        proximity(paths.drop_last(), target_dir, same, below) + nearness(
            paths.last(),
            target_dir,
            same,
            below,
        )
    }
}

pub proof fn lemma_proximity_bound(
    paths: Seq<Seq<char>>,
    target_dir: Seq<Seq<char>>,
    same: nat,
    below: nat,
)
    requires
        below <= same,
    ensures
        proximity(paths, target_dir, same, below) <= paths.len() * same,
    decreases paths.len(),
{
    if paths.len() > 0 {
        lemma_proximity_bound(paths.drop_last(), target_dir, same, below);
        assert((paths.len() - 1) * same + same == paths.len() * same) by (nonlinear_arith);
    } else {
        assert(0 * same == 0) by (nonlinear_arith);
    }
}

fn near(path: &str, target_dir: &Vec<Vec<char>>, same: u128, below: u128) -> (r: u128)
    ensures
        r == nearness(path@, rows(target_dir@), same as nat, below as nat),
{
    let dir = parent_dir(chars_of(path).as_slice());
    if same_dir(&dir, target_dir) {
        same
    } else if is_subdirectory(&dir, target_dir) {
        below
    } else {
        0
    }
}

fn near_all(paths: &Vec<String>, target_dir: &Vec<Vec<char>>, same: u128, below: u128) -> (r: u128)
    requires
        below <= same <= 1000,
    ensures
        r == proximity(texts(paths@), rows(target_dir@), same as nat, below as nat),
        r <= paths@.len() * same,
{
    let ghost all = texts(paths@);
    let mut total: u128 = 0;
    let mut i: usize = 0;
    assert(all.take(0) =~= Seq::<Seq<char>>::empty());
    while i < paths.len()
        invariant
            i <= paths.len(),
            below <= same <= 1000,
            all == texts(paths@),
            total == proximity(all.take(i as int), rows(target_dir@), same as nat, below as nat),
            total <= i * same,
        decreases paths.len() - i,
    {
        let points = near(paths[i].as_str(), target_dir, same, below);
        proof {
            assert(all.take(i + 1).drop_last() =~= all.take(i as int));
            assert(all.take(i + 1).last() == paths@[i as int]@);
            assert(i * same + same == (i + 1) * same) by (nonlinear_arith);
            assert(i * same <= 0x1_0000_0000_0000_0000 * 1000) by (nonlinear_arith)
                requires
                    i <= 0xffff_ffff_ffff_ffff,
                    same <= 1000,
            ;
        }
        total = total + points;
        i += 1;
    }
    proof {
        assert(all.take(paths.len() as int) =~= all);
    }
    total
}

fn holds_path(paths: &Vec<String>, target: &[char]) -> (r: bool)
    ensures
        r == texts(paths@).contains(target@),
{
    let mut i: usize = 0;
    while i < paths.len()
        invariant
            i <= paths.len(),
            forall|j: int| 0 <= j < i ==> texts(paths@)[j] != target@,
        decreases paths.len() - i,
    {
        if same_chars(chars_of(paths[i].as_str()).as_slice(), target) {
            assert(texts(paths@)[i as int] == target@);
            return true;
        }
        i += 1;
    }
    false
}

// ---------------------------------------------------------------------------
// Scores
// ---------------------------------------------------------------------------

/// The undamped score of a symbol: 1000 if the target declares it, 800 if
/// the target imports its name, and for each declaring file 300 if it lies
/// in the target's directory, 200 if below it.
pub open spec fn symbol_base(symbol: GlobalModel, target: Seq<char>, imported: bool) -> nat {
    (if symbol.defined_in.contains(target) {
        1000nat
    } else {
        0
    }) + (if imported {
        800nat
    } else {
        0
    }) + proximity(symbol.defined_in, dir_of(target), 300, 200)
}

pub open spec fn symbol_score(symbol: GlobalModel, target: Seq<char>, imported: bool) -> nat {
    damped(symbol_base(symbol, target, imported), symbol.defined_in.len())
}

/// The score of an open item: 1000 if it names the target, 600 if the
/// target imports its symbol, and for each of its files 400 if it lies in
/// the target's directory, 200 if below it.
pub open spec fn item_score(item: ItemModel, target: Seq<char>, imported: bool) -> nat {
    (if item.files.contains(target) {
        1000nat
    } else {
        0
    }) + (if imported {
        600nat
    } else {
        0
    }) + proximity(item.files, dir_of(target), 400, 200)
}

/// The score of a link: 1000 if the target is one of its ends, 700 if the
/// target imports its symbol, and 300 if one of its ends lies in the
/// target's directory, else 150 if one lies below it.
pub open spec fn link_score(link: LinkModel, target: Seq<char>, imported: bool) -> nat {
    let td = dir_of(target);
    (if link.from_file == target || link.to_file == target {
        1000nat
    } else {
        0
    }) + (if imported {
        700nat
    } else {
        0
    }) + (if dir_of(link.from_file) == td || dir_of(link.to_file) == td {
        300nat
    } else if is_under(dir_of(link.from_file), td) || is_under(dir_of(link.to_file), td) {
        150nat
    } else {
        0
    })
}

/// The score of a symbol with the given files.
pub(crate) fn score_symbol_paths(
    defined_in: &Vec<String>,
    target: &[char],
    target_dir: &Vec<Vec<char>>,
    imported: bool,
) -> (r: u128)
    requires
        rows(target_dir@) == dir_of(target@),
    ensures
        r == damped(
            ((if texts(defined_in@).contains(target@) {
                1000nat
            } else {
                0
            }) + (if imported {
                800nat
            } else {
                0
            }) + proximity(texts(defined_in@), dir_of(target@), 300, 200)) as nat,
            defined_in@.len(),
        ),
{
    let mut base: u128 = 0;
    if holds_path(defined_in, target) {
        base += 1000;
    }
    if imported {
        base += 800;
    }
    let n: usize = defined_in.len();
    let points = near_all(defined_in, target_dir, 300, 200);
    assert(n * 300 <= 0x1_0000_0000_0000_0000 * 300) by (nonlinear_arith)
        requires
            n <= 0xffff_ffff_ffff_ffff,
    ;
    base += points;
    damp(base, n)
}

/// The score of an open item with the given files.
pub(crate) fn score_item_paths(
    files: &Vec<String>,
    target: &[char],
    target_dir: &Vec<Vec<char>>,
    imported: bool,
) -> (r: u128)
    requires
        rows(target_dir@) == dir_of(target@),
    ensures
        r == (if texts(files@).contains(target@) {
            1000nat
        } else {
            0
        }) + (if imported {
            600nat
        } else {
            0
        }) + proximity(texts(files@), dir_of(target@), 400, 200),
{
    let mut score: u128 = 0;
    if holds_path(files, target) {
        score += 1000;
    }
    if imported {
        score += 600;
    }
    let n: usize = files.len();
    let points = near_all(files, target_dir, 400, 200);
    assert(n * 400 <= 0x1_0000_0000_0000_0000 * 400) by (nonlinear_arith)
        requires
            n <= 0xffff_ffff_ffff_ffff,
    ;
    score + points
}

/// The score of a link between the given files.
pub(crate) fn score_link_paths(
    from_file: &str,
    to_file: &str,
    target: &[char],
    target_dir: &Vec<Vec<char>>,
    imported: bool,
) -> (r: u128)
    requires
        rows(target_dir@) == dir_of(target@),
    ensures
        r == link_score(
            LinkModel {
                from_file: from_file@,
                to_file: to_file@,
                symbol: Seq::empty(),
                reason: Seq::empty(),
            },
            target@,
            imported,
        ),
{
    let from = chars_of(from_file);
    let to = chars_of(to_file);
    let mut score: u128 = 0;
    if same_chars(from.as_slice(), target) || same_chars(to.as_slice(), target) {
        score += 1000;
    }
    if imported {
        score += 700;
    }
    let from_dir = parent_dir(from.as_slice());
    let to_dir = parent_dir(to.as_slice());
    if same_dir(&from_dir, target_dir) || same_dir(&to_dir, target_dir) {
        score += 300;
    } else if is_subdirectory(&from_dir, target_dir) || is_subdirectory(&to_dir, target_dir) {
        score += 150;
    }
    score
}

// ---------------------------------------------------------------------------
// What holds of the scores
// ---------------------------------------------------------------------------

/// More points give at least as high a score, whatever the number of files.
pub proof fn lemma_damped_monotone(low: nat, high: nat, definers: nat)
    requires
        low <= high,
    ensures
        damped(low, definers) <= damped(high, definers),
{
    if definers > 0 {
        let d = LOG_UNIT as nat + log10_fixed(definers);
        let u = LOG_UNIT as nat;
        assert(low * u / d <= high * u / d) by (nonlinear_arith)
            requires
                low <= high,
                d > 0,
                u > 0,
        ;
    }
}

proof fn lemma_pow10_increasing(a: nat, b: nat)
    requires
        a < b,
    ensures
        pow10(a) < pow10(b),
        pow10(a) >= 1,
    decreases b,
{
    if a > 0 {
        lemma_pow10_increasing((a - 1) as nat, (b - 1) as nat);
    } else if b > 1 {
        lemma_pow10_increasing(0, (b - 1) as nat);
    }
}

/// The logarithm of a number of files that a machine can hold is below 20.
pub proof fn lemma_log10_fixed_bound(n: nat)
    requires
        n <= usize::MAX,
    ensures
        log10_fixed(n) < 20 * LOG_UNIT,
{
    if n >= 1 {
        lemma_whole_log(n);
        let e = whole_log(n);
        if e > 19 {
            if e > 20 {
                lemma_pow10_increasing(20, e);
            }
            reveal_with_fuel(pow10, 21);
            assert(false);
        }
        lemma_unit_is_power();
        lemma_log_places_bounds(mantissa(n), LOG_PLACES as nat, e);
        assert((e + 1) * LOG_UNIT <= 20 * LOG_UNIT) by (nonlinear_arith)
            requires
                e <= 19,
        ;
    }
}

/// The logarithm of a power of ten is its exponent, with no places.
pub proof fn lemma_log10_fixed_of_power(e: nat)
    ensures
        log10_fixed(pow10(e)) == e * LOG_UNIT,
{
    lemma_whole_log_of_power(e);
    let s = SQUARE_UNIT as nat;
    let p = pow10(e);
    assert(p * s / p == s) by (nonlinear_arith)
        requires
            p >= 1,
    ;
    lemma_log_places_of_one(LOG_PLACES as nat, e);
    lemma_unit_is_power();
}

proof fn lemma_whole_log_of_power(e: nat)
    ensures
        whole_log(pow10(e)) == e,
        pow10(e) >= 1,
    decreases e,
{
    if e > 0 {
        lemma_whole_log_of_power((e - 1) as nat);
        let q = pow10((e - 1) as nat);
        assert(10 * q / 10 == q);
    }
}

proof fn lemma_log_places_of_one(places: nat, acc: nat)
    ensures
        log_places(SQUARE_UNIT as nat, places, acc) == acc * pow2(places),
    decreases places,
{
    let s = SQUARE_UNIT as nat;
    if places == 0 {
        assert(acc * 1 == acc);
    } else {
        assert(s * s / s == s) by (nonlinear_arith)
            requires
                s > 0,
        ;
        lemma_log_places_of_one((places - 1) as nat, 2 * acc);
        let h = pow2((places - 1) as nat);
        assert((2 * acc) * h == acc * (2 * h)) by (nonlinear_arith);
    }
}

proof fn lemma_whole_log_monotone(a: nat, b: nat)
    requires
        a <= b,
    ensures
        whole_log(a) <= whole_log(b),
    decreases b,
{
    if a >= 10 {
        lemma_whole_log_monotone(a / 10, b / 10);
    }
}

proof fn lemma_log_places_monotone(x: nat, y: nat, places: nat, acc: nat)
    requires
        x <= y,
    ensures
        log_places(x, places, acc) <= log_places(y, places, acc),
    decreases places,
{
    if places > 0 {
        let s = SQUARE_UNIT as nat;
        assert(x * x / s <= y * y / s) by (nonlinear_arith)
            requires
                x <= y,
                s > 0,
        ;
        let rest = (places - 1) as nat;
        if squared(x) >= 10 * SQUARE_UNIT {
            lemma_log_places_monotone(squared(x) / 10, squared(y) / 10, rest, 2 * acc + 1);
        } else if squared(y) >= 10 * SQUARE_UNIT {
            lemma_log_places_bounds(squared(x), rest, 2 * acc);
            lemma_log_places_bounds(squared(y) / 10, rest, 2 * acc + 1);
        } else {
            lemma_log_places_monotone(squared(x), squared(y), rest, 2 * acc);
        }
    }
}

/// The more files, the greater the logarithm.
pub proof fn lemma_log10_fixed_monotone(a: nat, b: nat)
    requires
        a <= b,
    ensures
        log10_fixed(a) <= log10_fixed(b),
{
    if a >= 1 {
        lemma_whole_log_monotone(a, b);
        let places = LOG_PLACES as nat;
        if whole_log(a) < whole_log(b) {
            lemma_log_places_bounds(mantissa(a), places, whole_log(a));
            lemma_log_places_bounds(mantissa(b), places, whole_log(b));
            let u = pow2(places);
            assert((whole_log(a) + 1) * u <= whole_log(b) * u) by (nonlinear_arith)
                requires
                    whole_log(a) + 1 <= whole_log(b),
                    u >= 0,
            ;
        } else {
            let s = SQUARE_UNIT as nat;
            let p = pow10(whole_log(a));
            lemma_whole_log(a);
            assert(a * s / p <= b * s / p) by (nonlinear_arith)
                requires
                    a <= b,
                    p >= 1,
                    s > 0,
            ;
            lemma_log_places_monotone(mantissa(a), mantissa(b), places, whole_log(a));
        }
    }
}

/// `v` squared `times` times: `v` to the power of 2 to the power of
/// `times`.
pub open spec fn raised(v: nat, times: nat) -> nat
    decreases times,
{
    if times == 0 {
        v
    } else {
        raised(v * v, (times - 1) as nat)
    }
}

proof fn lemma_pow10_adds(a: nat, b: nat)
    ensures
        pow10(a + b) == pow10(a) * pow10(b),
    decreases a,
{
    if a == 0 {
        assert(1 * pow10(b) == pow10(b));
    } else {
        lemma_pow10_adds((a - 1) as nat, b);
        let x = pow10((a - 1) as nat);
        let y = pow10(b);
        assert(pow10(a + b) == 10 * pow10((a - 1 + b) as nat));
        assert(10 * (x * y) == (10 * x) * y) by (nonlinear_arith);
    }
}

proof fn lemma_raised_product(a: nat, b: nat, times: nat)
    ensures
        raised(a * b, times) == raised(a, times) * raised(b, times),
    decreases times,
{
    if times > 0 {
        assert((a * b) * (a * b) == (a * a) * (b * b)) by (nonlinear_arith);
        lemma_raised_product(a * a, b * b, (times - 1) as nat);
    }
}

proof fn lemma_raised_power(e: nat, times: nat)
    ensures
        raised(pow10(e), times) == pow10(e * pow2(times)),
    decreases times,
{
    if times == 0 {
        assert(e * 1 == e);
    } else {
        lemma_pow10_adds(e, e);
        lemma_raised_power(e + e, (times - 1) as nat);
        let h = pow2((times - 1) as nat);
        assert((e + e) * h == e * (2 * h)) by (nonlinear_arith);
    }
}

/// The places found for a number that is no greater than a fraction are
/// no more than the logarithm of the fraction has: ten to the power of the
/// places, times the denominator raised, is at most the numerator raised.
proof fn lemma_log_places_below(x: nat, places: nat, acc: nat, numerator: nat, denominator: nat)
    requires
        SQUARE_UNIT <= x < 10 * SQUARE_UNIT,
        denominator >= 1,
        x * denominator <= numerator * SQUARE_UNIT,
    ensures
        log_places(x, places, acc) >= acc * pow2(places),
        pow10((log_places(x, places, acc) - acc * pow2(places)) as nat) * raised(
            denominator,
            places,
        ) <= raised(numerator, places),
    decreases places,
{
    let s = SQUARE_UNIT as nat;
    let n = numerator;
    let d = denominator;
    lemma_log_places_bounds(x, places, acc);
    if places == 0 {
        assert(acc * 1 == acc);
        assert(d <= n) by (nonlinear_arith)
            requires
                x * d <= n * s,
                x >= s,
                s > 0,
        ;
        assert(1 * d == d);
    } else {
        let rest = (places - 1) as nat;
        let h = pow2(rest);
        let y = squared(x);
        lemma_squared(x);
        assert(y * s <= x * x) by (nonlinear_arith)
            requires
                y == x * x / s,
                s > 0,
        ;
        assert((x * d) * (x * d) <= (n * s) * (n * s)) by (nonlinear_arith)
            requires
                x * d <= n * s,
        ;
        assert((x * d) * (x * d) == (x * x) * (d * d)) by (nonlinear_arith);
        assert((n * s) * (n * s) == ((n * n) * s) * s) by (nonlinear_arith);
        assert((y * s) * (d * d) <= (x * x) * (d * d)) by (nonlinear_arith)
            requires
                y * s <= x * x,
        ;
        assert((y * s) * (d * d) == (y * (d * d)) * s) by (nonlinear_arith);
        assert(y * (d * d) <= (n * n) * s) by (nonlinear_arith)
            requires
                (y * (d * d)) * s <= ((n * n) * s) * s,
                s > 0,
        ;
        assert(d * d >= 1) by (nonlinear_arith)
            requires
                d >= 1,
        ;
        assert(acc * (2 * h) == (2 * acc) * h) by (nonlinear_arith);
        if y >= 10 * s {
            let z = y / 10;
            assert(z * (10 * (d * d)) <= y * (d * d)) by (nonlinear_arith)
                requires
                    z * 10 <= y,
            ;
            lemma_log_places_below(z, rest, 2 * acc + 1, n * n, 10 * (d * d));
            let r = log_places(z, rest, 2 * acc + 1);
            let over = (r - (2 * acc + 1) * h) as nat;
            lemma_raised_product(10, d * d, rest);
            assert(pow10(1) == 10) by {
                reveal_with_fuel(pow10, 2);
            }
            lemma_raised_power(1, rest);
            assert(1 * h == h);
            lemma_pow10_adds(over, h);
            assert((2 * acc + 1) * h == (2 * acc) * h + h) by (nonlinear_arith);
            assert(over + h == r - acc * (2 * h));
            assert(pow10(over) * (pow10(h) * raised(d * d, rest)) == (pow10(over) * pow10(h))
                * raised(d * d, rest)) by (nonlinear_arith);
        } else {
            lemma_log_places_below(y, rest, 2 * acc, n * n, d * d);
        }
    }
}

/// The logarithm is never above the true one: ten to the power of the
/// logarithm, counted in its parts, is at most the number to the power of
/// `LOG_UNIT`.
pub proof fn lemma_log10_fixed_below(n: nat)
    requires
        n >= 1,
    ensures
        pow10(log10_fixed(n)) <= raised(n, LOG_PLACES as nat),
{
    let s = SQUARE_UNIT as nat;
    let e = whole_log(n);
    let p = pow10(e);
    let places = LOG_PLACES as nat;
    lemma_whole_log(n);
    lemma_mantissa(n);
    assert((n * s / p) * p <= n * s) by (nonlinear_arith)
        requires
            p >= 1,
    ;
    lemma_log_places_below(mantissa(n), places, e, n, p);
    let r = log10_fixed(n);
    let over = (r - e * pow2(places)) as nat;
    lemma_raised_power(e, places);
    lemma_pow10_adds(over, e * pow2(places));
}

/// A symbol that the target file declares and whose name it imports scores
/// higher than a symbol that scores by nearness only, if the second is
/// declared in no fewer files than the first and is no nearer to the
/// target.
pub proof fn lemma_own_symbol_outscores_neighbour(
    own: GlobalModel,
    other: GlobalModel,
    target: Seq<char>,
)
    requires
        own.defined_in.contains(target),
        !other.defined_in.contains(target),
        own.defined_in.len() <= other.defined_in.len() <= usize::MAX,
        proximity(other.defined_in, dir_of(target), 300, 200) <= proximity(
            own.defined_in,
            dir_of(target),
            300,
            200,
        ),
    ensures
        symbol_score(own, target, true) > symbol_score(other, target, false),
{
    let n = own.defined_in.len();
    let m = other.defined_in.len();
    assert(n >= 1) by {
        let i = choose|i: int| 0 <= i < own.defined_in.len() && own.defined_in[i] == target;
    }
    let a = symbol_base(own, target, true);
    let b = symbol_base(other, target, false);
    assert(a >= b + 1800);
    lemma_log10_fixed_bound(n);
    lemma_log10_fixed_monotone(n, m);
    let u = LOG_UNIT as nat;
    let d = u + log10_fixed(n);
    let e = u + log10_fixed(m);
    assert(a * u / d > b * u / d) by (nonlinear_arith)
        requires
            a >= b + 1800,
            0 < d <= 21 * u,
            u > 0,
            b >= 0,
    ;
    assert(b * u / e <= b * u / d) by (nonlinear_arith)
        requires
            0 < d <= e,
            b >= 0,
            u >= 0,
    ;
}

} // verus!
