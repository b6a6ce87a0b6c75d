//! Text as sequences of characters.
//!
//! Everything in the library that looks at source text works on `[char]`
//! slices, whose view is a `Seq<char>`. This module holds the vocabulary the
//! other modules are written in: character classes, searching, trimming,
//! splitting, and the lexicographic order on strings.

use vstd::prelude::*;

verus! {

// ---------------------------------------------------------------------------
// Character classes
// ---------------------------------------------------------------------------

/// The characters with the Unicode `White_Space` property.
pub open spec fn is_white_space(c: char) -> bool {
    let u = c as u32;
    ||| 0x09 <= u <= 0x0D
    ||| u == 0x20
    ||| u == 0x85
    ||| u == 0xA0
    ||| u == 0x1680
    ||| 0x2000 <= u <= 0x200A
    ||| u == 0x2028
    ||| u == 0x2029
    ||| u == 0x202F
    ||| u == 0x205F
    ||| u == 0x3000
}

pub open spec fn is_ascii_digit(c: char) -> bool {
    '0' <= c <= '9'
}

pub open spec fn is_ascii_letter(c: char) -> bool {
    ('a' <= c <= 'z') || ('A' <= c <= 'Z')
}

/// A character that may occur inside an identifier.
pub open spec fn is_word_char(c: char) -> bool {
    is_ascii_letter(c) || is_ascii_digit(c) || c == '_'
}

pub fn white_space(c: char) -> (b: bool)
    ensures
        b == is_white_space(c),
{
    let u: u32 = c as u32;
    (0x09 <= u && u <= 0x0D) || u == 0x20 || u == 0x85 || u == 0xA0 || u == 0x1680 || (0x2000 <= u
        && u <= 0x200A) || u == 0x2028 || u == 0x2029 || u == 0x202F || u == 0x205F || u == 0x3000
}

pub fn ascii_digit(c: char) -> (b: bool)
    ensures
        b == is_ascii_digit(c),
{
    '0' <= c && c <= '9'
}

pub fn ascii_letter(c: char) -> (b: bool)
    ensures
        b == is_ascii_letter(c),
{
    ('a' <= c && c <= 'z') || ('A' <= c && c <= 'Z')
}

pub fn word_char(c: char) -> (b: bool)
    ensures
        b == is_word_char(c),
{
    ascii_letter(c) || ascii_digit(c) || c == '_'
}

/// ASCII upper-case letters mapped to lower case, every other character kept.
pub open spec fn ascii_lower_char(c: char) -> char {
    if 'A' <= c <= 'Z' {
        ((c as u32 + 32) as u8) as char
    } else {
        c
    }
}

pub open spec fn ascii_lower(s: Seq<char>) -> Seq<char> {
    Seq::new(s.len(), |i: int| ascii_lower_char(s[i]))
}

pub fn to_ascii_lower_char(c: char) -> (r: char)
    ensures
        r == ascii_lower_char(c),
{
    if 'A' <= c && c <= 'Z' {
        let u: u32 = c as u32;
        let b: u8 = (u + 32) as u8;
        b as char
    } else {
        c
    }
}

pub fn to_ascii_lower(s: &[char]) -> (r: Vec<char>)
    ensures
        r@ == ascii_lower(s@),
{
    let mut r: Vec<char> = Vec::new();
    let mut i: usize = 0;
    while i < s.len()
        invariant
            i <= s.len(),
            r@ == ascii_lower(s@).take(i as int),
        decreases s.len() - i,
    {
        r.push(to_ascii_lower_char(s[i]));
        i += 1;
        assert(r@ =~= ascii_lower(s@).take(i as int));
    }
    assert(r@ =~= ascii_lower(s@));
    r
}

// ---------------------------------------------------------------------------
// Conversions
// ---------------------------------------------------------------------------

/// The characters of `s`, in order.
pub fn chars_of(s: &str) -> (v: Vec<char>)
    ensures
        v@ == s@,
{
    let mut v: Vec<char> = Vec::new();
    for c in it: s.chars()
        invariant
            it.seq() == s@,
            v@ == it.seq().take(it.index() as int),
    {
        v.push(c);
    }
    v
}

/// Collects characters into a `String` with `String::from_iter`: the string
/// holds exactly the given characters, in the given order.
#[verifier::external_body]
pub(crate) fn string_of(chars: &[char]) -> (s: String)
    ensures
        s@ == chars@,
{
    String::from_iter(chars.iter())
}

/// A copy of a slice of characters.
pub fn copy_chars(s: &[char]) -> (v: Vec<char>)
    ensures
        v@ == s@,
{
    let mut v: Vec<char> = Vec::new();
    let mut i: usize = 0;
    while i < s.len()
        invariant
            i <= s.len(),
            v@ == s@.take(i as int),
        decreases s.len() - i,
    {
        v.push(s[i]);
        i += 1;
    }
    assert(s@.take(s.len() as int) =~= s@);
    v
}

/// Appends `tail` to `out`.
pub fn push_chars(out: &mut Vec<char>, tail: &[char])
    ensures
        final(out)@ == old(out)@ + tail@,
{
    let mut i: usize = 0;
    while i < tail.len()
        invariant
            i <= tail.len(),
            out@ == old(out)@ + tail@.take(i as int),
        decreases tail.len() - i,
    {
        out.push(tail[i]);
        i += 1;
        assert(out@ =~= old(out)@ + tail@.take(i as int));
    }
    assert(tail@.take(tail.len() as int) =~= tail@);
}

/// Whether two slices hold the same characters.
pub fn same_chars(a: &[char], b: &[char]) -> (r: bool)
    ensures
        r == (a@ == b@),
{
    if a.len() != b.len() {
        return false;
    }
    let mut i: usize = 0;
    while i < a.len()
        invariant
            i <= a.len(),
            a.len() == b.len(),
            a@.take(i as int) == b@.take(i as int),
        decreases a.len() - i,
    {
        if a[i] != b[i] {
            return false;
        }
        i += 1;
        assert(a@.take(i as int) =~= a@.take(i - 1).push(a@[i - 1]));
        assert(b@.take(i as int) =~= b@.take(i - 1).push(b@[i - 1]));
    }
    assert(a@.take(a.len() as int) =~= a@);
    assert(b@.take(b.len() as int) =~= b@);
    true
}

/// Whether two strings hold the same text.
pub fn same_text(a: &str, b: &str) -> (r: bool)
    ensures
        r == (a@ == b@),
{
    let x = chars_of(a);
    let y = chars_of(b);
    same_chars(x.as_slice(), y.as_slice())
}

// ---------------------------------------------------------------------------
// Searching
// ---------------------------------------------------------------------------

/// `pat` occurs in `s` at index `i`.
pub open spec fn occurs_at(s: Seq<char>, pat: Seq<char>, i: int) -> bool {
    &&& 0 <= i
    &&& i + pat.len() <= s.len()
    &&& s.subrange(i, i + pat.len()) == pat
}

/// The first index at or after `from` where `pat` occurs in `s`.
pub open spec fn position_from(s: Seq<char>, pat: Seq<char>, from: int) -> Option<int>
    decreases s.len() - from,
{
    if from < 0 || from + pat.len() > s.len() {
        None
    } else if occurs_at(s, pat, from) {
        Some(from)
    } else if from + pat.len() == s.len() {
        None
    } else {
        position_from(s, pat, from + 1)
    }
}

/// The first index where `pat` occurs in `s`.
pub open spec fn position(s: Seq<char>, pat: Seq<char>) -> Option<int> {
    position_from(s, pat, 0)
}

pub open spec fn occurs(s: Seq<char>, pat: Seq<char>) -> bool {
    position(s, pat) is Some
}

pub open spec fn has_prefix(s: Seq<char>, pat: Seq<char>) -> bool {
    occurs_at(s, pat, 0)
}

pub open spec fn has_suffix(s: Seq<char>, pat: Seq<char>) -> bool {
    occurs_at(s, pat, s.len() - pat.len())
}

/// `position_from` finds the least occurrence at or after `from`, and finds
/// one whenever there is one.
pub proof fn lemma_position_from(s: Seq<char>, pat: Seq<char>, from: int)
    requires
        0 <= from,
    ensures
        match position_from(s, pat, from) {
            Some(i) => from <= i && occurs_at(s, pat, i) && forall|j: int|
                from <= j < i ==> !occurs_at(s, pat, j),
            None => forall|j: int| from <= j ==> !occurs_at(s, pat, j),
        },
    decreases s.len() - from,
{
    if from + pat.len() > s.len() {
    } else if occurs_at(s, pat, from) {
    } else if from + pat.len() == s.len() {
    } else {
        lemma_position_from(s, pat, from + 1);
    }
}

/// The first occurrence of `pat` in `s` is an occurrence, and none comes
/// before it; there is none exactly if `pat` occurs nowhere.
pub proof fn lemma_position(s: Seq<char>, pat: Seq<char>)
    ensures
        match position(s, pat) {
            Some(i) => occurs_at(s, pat, i) && forall|j: int| 0 <= j < i ==> !occurs_at(s, pat, j),
            None => forall|j: int| !occurs_at(s, pat, j),
        },
{
    lemma_position_from(s, pat, 0);
}

pub fn matches_at(s: &[char], pat: &[char], i: usize) -> (r: bool)
    ensures
        r == occurs_at(s@, pat@, i as int),
{
    if pat.len() > s.len() || i > s.len() - pat.len() {
        return false;
    }
    let mut k: usize = 0;
    while k < pat.len()
        invariant
            k <= pat.len(),
            i + pat.len() <= s.len(),
            s@.subrange(i as int, i + k) == pat@.take(k as int),
        decreases pat.len() - k,
    {
        if s[i + k] != pat[k] {
            assert(s@.subrange(i as int, i + pat.len())[k as int] != pat@[k as int]);
            return false;
        }
        k += 1;
        assert(s@.subrange(i as int, i + k) =~= s@.subrange(i as int, i + k - 1).push(
            s@[i + k - 1],
        ));
        assert(pat@.take(k as int) =~= pat@.take(k - 1).push(pat@[k - 1]));
    }
    assert(pat@.take(pat.len() as int) =~= pat@);
    true
}

pub fn find(s: &[char], pat: &[char]) -> (r: Option<usize>)
    ensures
        match r {
            Some(i) => position(s@, pat@) == Some(i as int),
            None => position(s@, pat@) is None,
        },
{
    if pat.len() > s.len() {
        return None;
    }
    let last: usize = s.len() - pat.len();
    let mut i: usize = 0;
    loop
        invariant
            i <= last,
            last == s.len() - pat.len(),
            position(s@, pat@) == position_from(s@, pat@, i as int),
        decreases last - i,
    {
        if matches_at(s, pat, i) {
            return Some(i);
        }
        if i == last {
            return None;
        }
        i += 1;
    }
}

pub fn starts_with(s: &[char], pat: &[char]) -> (r: bool)
    ensures
        r == has_prefix(s@, pat@),
{
    matches_at(s, pat, 0)
}

pub fn ends_with(s: &[char], pat: &[char]) -> (r: bool)
    ensures
        r == has_suffix(s@, pat@),
{
    if pat.len() > s.len() {
        return false;
    }
    matches_at(s, pat, s.len() - pat.len())
}

pub fn contains(s: &[char], pat: &[char]) -> (r: bool)
    ensures
        r == occurs(s@, pat@),
{
    find(s, pat).is_some()
}

pub fn contains_char(s: &[char], c: char) -> (r: bool)
    ensures
        r == s@.contains(c),
{
    let mut i: usize = 0;
    while i < s.len()
        invariant
            i <= s.len(),
            forall|j: int| 0 <= j < i ==> s@[j] != c,
        decreases s.len() - i,
    {
        if s[i] == c {
            return true;
        }
        i += 1;
    }
    false
}

// ---------------------------------------------------------------------------
// Trimming
// ---------------------------------------------------------------------------

/// A class of characters, as specifications speak of it.
pub enum Class {
    /// Unicode white space.
    Space,
    /// Anything but Unicode white space.
    NonSpace,
    /// ASCII letters, ASCII digits and the underscore.
    Word,
    /// Anything but a letter, a digit or the underscore.
    NonWord,
    /// The listed characters.
    AnyOf(Seq<char>),
    /// Every character but the given one.
    Except(char),
}

impl Class {
    pub open spec fn holds(self, c: char) -> bool {
        match self {
            Class::Space => is_white_space(c),
            Class::NonSpace => !is_white_space(c),
            Class::Word => is_word_char(c),
            Class::NonWord => !is_word_char(c),
            Class::AnyOf(set) => set.contains(c),
            Class::Except(x) => c != x,
        }
    }
}

/// A class of characters, as executable code holds it.
pub enum CharClass<'a> {
    Space,
    NonSpace,
    Word,
    NonWord,
    AnyOf(&'a [char]),
    Except(char),
}

impl<'a> View for CharClass<'a> {
    type V = Class;

    open spec fn view(&self) -> Class {
        match self {
            CharClass::Space => Class::Space,
            CharClass::NonSpace => Class::NonSpace,
            CharClass::Word => Class::Word,
            CharClass::NonWord => Class::NonWord,
            CharClass::AnyOf(set) => Class::AnyOf(set@),
            CharClass::Except(x) => Class::Except(*x),
        }
    }
}

impl<'a> CharClass<'a> {
    pub fn has(&self, c: char) -> (b: bool)
        ensures
            b == self@.holds(c),
    {
        match self {
            CharClass::Space => white_space(c),
            CharClass::NonSpace => !white_space(c),
            CharClass::Word => word_char(c),
            CharClass::NonWord => !word_char(c),
            CharClass::AnyOf(set) => contains_char(set, c),
            CharClass::Except(x) => c != *x,
        }
    }
}

/// How many characters at the start of `s` belong to `class`.
pub open spec fn run_len(s: Seq<char>, class: Class) -> nat
    decreases s.len(),
{
    if s.len() > 0 && class.holds(s[0]) {
        1 + run_len(s.drop_first(), class)
    } else {
        0
    }
}

/// How many characters at the end of `s` belong to `class`.
pub open spec fn run_len_end(s: Seq<char>, class: Class) -> nat
    decreases s.len(),
{
    if s.len() > 0 && class.holds(s.last()) {
        1 + run_len_end(s.drop_last(), class)
    } else {
        0
    }
}

/// The longest prefix of `s` made of characters of `class`.
pub open spec fn leading(s: Seq<char>, class: Class) -> Seq<char> {
    s.take(run_len(s, class) as int)
}

/// `s` without its longest prefix of characters of `class`.
pub open spec fn without_leading(s: Seq<char>, class: Class) -> Seq<char> {
    s.skip(run_len(s, class) as int)
}

/// `s` without its longest suffix of characters of `class`.
pub open spec fn without_trailing(s: Seq<char>, class: Class) -> Seq<char> {
    s.take(s.len() - run_len_end(s, class))
}

pub open spec fn trimmed_start(s: Seq<char>) -> Seq<char> {
    without_leading(s, Class::Space)
}

pub open spec fn trimmed_end(s: Seq<char>) -> Seq<char> {
    without_trailing(s, Class::Space)
}

pub open spec fn trimmed(s: Seq<char>) -> Seq<char> {
    trimmed_end(trimmed_start(s))
}

/// A run of `k` class characters that ends at the end of `s` or at a
/// character outside the class is the leading run.
pub proof fn lemma_run_len(s: Seq<char>, class: Class, k: int)
    requires
        0 <= k <= s.len(),
        forall|j: int| 0 <= j < k ==> class.holds(s[j]),
        k == s.len() || !class.holds(s[k]),
    ensures
        run_len(s, class) == k,
    decreases k,
{
    if k > 0 {
        let t = s.drop_first();
        assert forall|j: int| 0 <= j < k - 1 implies class.holds(t[j]) by {
            assert(t[j] == s[j + 1]);
        }
        lemma_run_len(t, class, k - 1);
    }
}

pub proof fn lemma_run_len_end(s: Seq<char>, class: Class, k: int)
    requires
        0 <= k <= s.len(),
        forall|j: int| s.len() - k <= j < s.len() ==> class.holds(s[j]),
        k == s.len() || !class.holds(s[s.len() - k - 1]),
    ensures
        run_len_end(s, class) == k,
    decreases k,
{
    if k > 0 {
        let t = s.drop_last();
        assert forall|j: int| t.len() - (k - 1) <= j < t.len() implies class.holds(t[j]) by {
            assert(t[j] == s[j]);
        }
        lemma_run_len_end(t, class, k - 1);
    }
}

/// The leading run lies inside `s`, is made of class characters, and is
/// followed by none.
pub proof fn lemma_run_len_bounds(s: Seq<char>, class: Class)
    ensures
        run_len(s, class) <= s.len(),
        forall|j: int| 0 <= j < run_len(s, class) ==> class.holds(s[j]),
        run_len(s, class) < s.len() ==> !class.holds(s[run_len(s, class) as int]),
    decreases s.len(),
{
    if s.len() > 0 && class.holds(s[0]) {
        let t = s.drop_first();
        lemma_run_len_bounds(t, class);
        assert forall|j: int| 0 <= j < run_len(s, class) implies class.holds(s[j]) by {
            if j > 0 {
                assert(s[j] == t[j - 1]);
            }
        }
        if run_len(s, class) < s.len() {
            assert(s[run_len(s, class) as int] == t[run_len(t, class) as int]);
        }
    }
}

pub proof fn lemma_run_len_end_bounds(s: Seq<char>, class: Class)
    ensures
        run_len_end(s, class) <= s.len(),
        forall|j: int| s.len() - run_len_end(s, class) <= j < s.len() ==> class.holds(s[j]),
        run_len_end(s, class) < s.len() ==> !class.holds(
            s[s.len() - run_len_end(s, class) - 1],
        ),
    decreases s.len(),
{
    if s.len() > 0 && class.holds(s.last()) {
        let t = s.drop_last();
        lemma_run_len_end_bounds(t, class);
        assert forall|j: int| s.len() - run_len_end(s, class) <= j < s.len() implies class.holds(
            s[j],
        ) by {
            if j < s.len() - 1 {
                assert(s[j] == t[j]);
            }
        }
        if run_len_end(s, class) < s.len() {
            assert(s[s.len() - run_len_end(s, class) - 1] == t[t.len() - run_len_end(t, class)
                - 1]);
        }
    }
}

/// The length of the leading run of `class` characters.
pub fn count_leading(s: &[char], class: &CharClass) -> (k: usize)
    ensures
        k == run_len(s@, class@),
        k <= s.len(),
{
    let mut k: usize = 0;
    while k < s.len() && class.has(s[k])
        invariant
            k <= s.len(),
            forall|j: int| 0 <= j < k ==> class@.holds(s@[j]),
        decreases s.len() - k,
    {
        k += 1;
    }
    proof {
        lemma_run_len(s@, class@, k as int);
    }
    k
}

/// The length of the trailing run of `class` characters.
pub fn count_trailing(s: &[char], class: &CharClass) -> (k: usize)
    ensures
        k == run_len_end(s@, class@),
        k <= s.len(),
{
    let n: usize = s.len();
    let mut k: usize = 0;
    while k < n && class.has(s[n - k - 1])
        invariant
            k <= n,
            n == s.len(),
            forall|j: int| n - k <= j < n ==> class@.holds(s@[j]),
        decreases n - k,
    {
        k += 1;
    }
    proof {
        lemma_run_len_end(s@, class@, k as int);
    }
    k
}

pub fn skip_leading<'b>(s: &'b [char], class: &CharClass) -> (r: &'b [char])
    ensures
        r@ == without_leading(s@, class@),
{
    let k = count_leading(s, class);
    &s[k..s.len()]
}

pub fn take_leading<'b>(s: &'b [char], class: &CharClass) -> (r: &'b [char])
    ensures
        r@ == leading(s@, class@),
{
    let k = count_leading(s, class);
    &s[0..k]
}

pub fn drop_trailing<'b>(s: &'b [char], class: &CharClass) -> (r: &'b [char])
    ensures
        r@ == without_trailing(s@, class@),
{
    let k = count_trailing(s, class);
    &s[0..s.len() - k]
}

pub fn trim_start(s: &[char]) -> (r: &[char])
    ensures
        r@ == trimmed_start(s@),
{
    skip_leading(s, &CharClass::Space)
}

pub fn trim_end(s: &[char]) -> (r: &[char])
    ensures
        r@ == trimmed_end(s@),
{
    drop_trailing(s, &CharClass::Space)
}

pub fn trim(s: &[char]) -> (r: &[char])
    ensures
        r@ == trimmed(s@),
{
    trim_end(trim_start(s))
}

/// `s` with the characters of `class` removed from both ends.
pub open spec fn stripped(s: Seq<char>, class: Class) -> Seq<char> {
    without_trailing(without_leading(s, class), class)
}

pub fn strip<'b>(s: &'b [char], class: &CharClass) -> (r: &'b [char])
    ensures
        r@ == stripped(s@, class@),
{
    drop_trailing(skip_leading(s, class), class)
}

// ---------------------------------------------------------------------------
// Numbers
// ---------------------------------------------------------------------------

/// The character of a decimal digit.
pub open spec fn digit_char(d: nat) -> char {
    if d == 0 {
        '0'
    } else if d == 1 {
        '1'
    } else if d == 2 {
        '2'
    } else if d == 3 {
        '3'
    } else if d == 4 {
        '4'
    } else if d == 5 {
        '5'
    } else if d == 6 {
        '6'
    } else if d == 7 {
        '7'
    } else if d == 8 {
        '8'
    } else {
        '9'
    }
}

/// A number written in decimal digits.
pub open spec fn decimal(n: nat) -> Seq<char>
    decreases n,
{
    if n < 10 {
        seq![digit_char(n)]
    } else {
        decimal(n / 10).push(digit_char(n % 10))
    }
}

fn digit(d: u64) -> (c: char)
    requires
        d < 10,
    ensures
        c == digit_char(d as nat),
{
    if d == 0 {
        '0'
    } else if d == 1 {
        '1'
    } else if d == 2 {
        '2'
    } else if d == 3 {
        '3'
    } else if d == 4 {
        '4'
    } else if d == 5 {
        '5'
    } else if d == 6 {
        '6'
    } else if d == 7 {
        '7'
    } else if d == 8 {
        '8'
    } else {
        '9'
    }
}

/// The decimal digits of a number.
pub fn to_decimal(n: u64) -> (r: Vec<char>)
    ensures
        r@ == decimal(n as nat),
    decreases n,
{
    if n < 10 {
        let mut out: Vec<char> = Vec::new();
        out.push(digit(n));
        assert(out@ =~= seq![digit_char(n as nat)]);
        out
    } else {
        let mut out = to_decimal(n / 10);
        out.push(digit(n % 10));
        out
    }
}

/// The character of a hexadecimal digit, in lower case.
pub open spec fn hex_char(d: nat) -> char {
    if d < 10 {
        digit_char(d)
    } else if d == 10 {
        'a'
    } else if d == 11 {
        'b'
    } else if d == 12 {
        'c'
    } else if d == 13 {
        'd'
    } else if d == 14 {
        'e'
    } else {
        'f'
    }
}

/// A number written in hexadecimal digits, in lower case.
pub open spec fn hexadecimal(n: nat) -> Seq<char>
    decreases n,
{
    if n < 16 {
        seq![hex_char(n)]
    } else {
        hexadecimal(n / 16).push(hex_char(n % 16))
    }
}

fn hex_digit(d: u64) -> (c: char)
    requires
        d < 16,
    ensures
        c == hex_char(d as nat),
{
    if d < 10 {
        digit(d)
    } else if d == 10 {
        'a'
    } else if d == 11 {
        'b'
    } else if d == 12 {
        'c'
    } else if d == 13 {
        'd'
    } else if d == 14 {
        'e'
    } else {
        'f'
    }
}

/// The hexadecimal digits of a number.
pub fn to_hexadecimal(n: u64) -> (r: Vec<char>)
    ensures
        r@ == hexadecimal(n as nat),
    decreases n,
{
    if n < 16 {
        let mut out: Vec<char> = Vec::new();
        out.push(hex_digit(n));
        assert(out@ =~= seq![hex_char(n as nat)]);
        out
    } else {
        let mut out = to_hexadecimal(n / 16);
        out.push(hex_digit(n % 16));
        out
    }
}

} // verus!
