//! The names an import statement may bring in.
//!
//! An import is taken apart by the habits of its language family: path
//! segments, aliases, lists in braces. What comes out are candidates only:
//! tokens that look like names and are no keywords of an import.

use crate::language::{is_text, Language};
use crate::memory::file_memory::{is_valid_identifier, lits, text_in, valid_identifier};
use crate::split::{
    after_prefix, halves, last_piece, lemma_rows_push, pieces, rows, split, split_once,
    split_whitespace, split_word_runs, strip_prefix, strip_prefix_runs, without_prefix_runs,
    word_runs, words,
};
use crate::text::{
    ascii_lower, chars_of, contains, copy_chars, drop_trailing, ends_with, find, has_prefix,
    has_suffix, lemma_position, occurs, occurs_at, position, skip_leading, starts_with, strip,
    stripped, to_ascii_lower, trim, trimmed, without_leading, without_trailing, CharClass, Class,
};
use vstd::prelude::*;

verus! {

/// Words of import statements that are never the name of a symbol.
pub open spec fn import_noise() -> Seq<Seq<char>> {
    seq![
        "use"@,
        "import"@,
        "from"@,
        "require"@,
        "as"@,
        "self"@,
        "super"@,
        "crate"@,
        "mod"@,
        "pub"@,
        "const"@,
        "static"@,
        "class"@,
        "interface"@,
        "enum"@,
        "type"@,
        "struct"@,
        "trait"@,
        "include"@,
        "include_next"@,
    ]
}

/// A token that may name a symbol: at least three characters, a valid
/// identifier, and in lower case none of the words of `import_noise`.
pub open spec fn is_candidate(token: Seq<char>) -> bool {
    &&& token.len() >= 3
    &&& valid_identifier(token)
    &&& !import_noise().contains(ascii_lower(token))
}

pub open spec fn with_candidate(out: Seq<Seq<char>>, token: Seq<char>) -> Seq<Seq<char>> {
    if is_candidate(token) {
        out.push(token)
    } else {
        out
    }
}

/// Appends `token` to `out` if it is a candidate.
pub fn push_candidate(out: &mut Vec<Vec<char>>, token: &[char])
    ensures
        rows(final(out)@) == with_candidate(rows(old(out)@), token@),
{
    if token.len() < 3 {
        return ;
    }
    if !is_valid_identifier(token) {
        return ;
    }
    let lowered = to_ascii_lower(token);
    let noise: Vec<&'static str> = vec![
        "use",
        "import",
        "from",
        "require",
        "as",
        "self",
        "super",
        "crate",
        "mod",
        "pub",
        "const",
        "static",
        "class",
        "interface",
        "enum",
        "type",
        "struct",
        "trait",
        "include",
        "include_next",
    ];
    assert(lits(noise@) =~= import_noise());
    if text_in(lowered.as_slice(), &noise) {
        return ;
    }
    let ghost before = out@;
    let t = copy_chars(token);
    out.push(t);
    proof {
        lemma_rows_push(before, t);
    }
}

/// The candidates among `tokens`, after those of `out`.
pub open spec fn with_candidates(out: Seq<Seq<char>>, tokens: Seq<Seq<char>>) -> Seq<Seq<char>>
    decreases tokens.len(),
{
    if tokens.len() == 0 {
        out
    } else {
        with_candidate(with_candidates(out, tokens.drop_last()), tokens.last())
    }
}

/// The candidates among the trimmed `tokens`, after those of `out`.
pub open spec fn with_trimmed_candidates(out: Seq<Seq<char>>, tokens: Seq<Seq<char>>) -> Seq<
    Seq<char>,
>
    decreases tokens.len(),
{
    if tokens.len() == 0 {
        out
    } else {
        with_candidate(
            with_trimmed_candidates(out, tokens.drop_last()),
            trimmed(tokens.last()),
        )
    }
}

// ---------------------------------------------------------------------------
// Any language: every run of word characters
// ---------------------------------------------------------------------------

pub open spec fn generic_candidates(import: Seq<char>) -> Seq<Seq<char>> {
    with_candidates(Seq::empty(), word_runs(import))
}

pub fn generic_import_candidates(import: &[char]) -> (r: Vec<Vec<char>>)
    ensures
        rows(r@) == generic_candidates(import@),
{
    let tokens = split_word_runs(import);
    let ghost all = rows(tokens@);
    let mut out: Vec<Vec<char>> = Vec::new();
    let mut i: usize = 0;
    assert(rows(out@) =~= with_candidates(Seq::empty(), all.take(0)));
    while i < tokens.len()
        invariant
            i <= tokens.len(),
            all == rows(tokens@),
            rows(out@) == with_candidates(Seq::empty(), all.take(i as int)),
        decreases tokens.len() - i,
    {
        push_candidate(&mut out, tokens[i].as_slice());
        i += 1;
        proof {
            assert(all.take(i as int).drop_last() =~= all.take(i - 1));
            assert(all.take(i as int).last() == tokens@[i - 1]@);
        }
    }
    assert(all.take(tokens.len() as int) =~= all);
    out
}

// ---------------------------------------------------------------------------
// Rust
// ---------------------------------------------------------------------------

/// The characters that stand around the names of a list in braces.
pub open spec fn list_marks() -> Seq<char> {
    seq!['{', '}', ',']
}

/// `list_marks` and the space.
pub open spec fn list_marks_and_space() -> Seq<char> {
    seq!['{', '}', ',', ' ']
}

/// What one segment of a `use` path adds: the first name of a list that
/// opens in it; then its alias if it has one, else its last name.
pub open spec fn rust_segment(out: Seq<Seq<char>>, segment: Seq<char>) -> Seq<Seq<char>> {
    let cleaned = without_trailing(trimmed(segment), Class::AnyOf(seq![';']));
    if cleaned == "*"@ {
        out
    } else {
        let opened = match after_prefix(cleaned, seq!['{']) {
            Some(rest) => if words(rest).len() > 0 {
                with_candidate(out, stripped(words(rest)[0], Class::AnyOf(list_marks())))
            } else {
                out
            },
            None => out,
        };
        match position(cleaned, " as "@) {
            Some(i) => with_candidate(
                opened,
                stripped(trimmed(cleaned.skip(i + 4)), Class::AnyOf(list_marks())),
            ),
            None => with_candidate(
                opened,
                trimmed(
                    last_piece(stripped(cleaned, Class::AnyOf(list_marks_and_space())), seq![',']),
                ),
            ),
        }
    }
}

pub open spec fn rust_segments(out: Seq<Seq<char>>, segments: Seq<Seq<char>>) -> Seq<Seq<char>>
    decreases segments.len(),
{
    if segments.len() == 0 {
        out
    } else {
        rust_segment(rust_segments(out, segments.drop_last()), segments.last())
    }
}

pub open spec fn rust_candidates(import: Seq<char>) -> Seq<Seq<char>> {
    rust_segments(Seq::empty(), pieces(import, "::"@))
}

fn add_rust_segment(out: &mut Vec<Vec<char>>, segment: &[char])
    ensures
        rows(final(out)@) == rust_segment(rows(old(out)@), segment@),
{
    let semicolon: Vec<char> = vec![';'];
    assert(semicolon@ =~= seq![';']);
    let marks: Vec<char> = vec!['{', '}', ','];
    assert(marks@ =~= list_marks());
    let wide: Vec<char> = vec!['{', '}', ',', ' '];
    assert(wide@ =~= list_marks_and_space());
    let brace: Vec<char> = vec!['{'];
    assert(brace@ =~= seq!['{']);
    let comma: Vec<char> = vec![','];
    assert(comma@ =~= seq![',']);
    let cleaned = drop_trailing(trim(segment), &CharClass::AnyOf(semicolon.as_slice()));
    if is_text(cleaned, "*") {
        return ;
    }
    match strip_prefix(cleaned, brace.as_slice()) {
        Some(rest) => {
            let ws = split_whitespace(rest);
            assert(rows(ws@).len() == ws@.len());
            if ws.len() > 0 {
                assert(rows(ws@)[0] == ws@[0]@);
                push_candidate(out, strip(ws[0].as_slice(), &CharClass::AnyOf(marks.as_slice())));
            }
        },
        None => {},
    }
    let sep = chars_of(" as ");
    proof {
        reveal_strlit(" as ");
        assert(sep@.len() == 4);
    }
    match find(cleaned, sep.as_slice()) {
        Some(i) => {
            proof {
                lemma_position(cleaned@, sep@);
                assert(occurs_at(cleaned@, sep@, i as int));
            }
            let n: usize = cleaned.len();
            let alias = strip(trim(&cleaned[i + 4..n]), &CharClass::AnyOf(marks.as_slice()));
            push_candidate(out, alias);
        },
        None => {
            let parts = split(
                strip(cleaned, &CharClass::AnyOf(wide.as_slice())),
                comma.as_slice(),
            );
            assert(rows(parts@).len() == parts@.len());
            assert(rows(parts@).last() == parts@[parts.len() - 1]@);
            push_candidate(out, trim(parts[parts.len() - 1].as_slice()));
        },
    }
}

pub fn rust_import_candidates(import: &[char]) -> (r: Vec<Vec<char>>)
    ensures
        rows(r@) == rust_candidates(import@),
{
    let sep = chars_of("::");
    let segments = split(import, sep.as_slice());
    let ghost all = rows(segments@);
    let mut out: Vec<Vec<char>> = Vec::new();
    let mut i: usize = 0;
    assert(rows(out@) =~= rust_segments(Seq::empty(), all.take(0)));
    while i < segments.len()
        invariant
            i <= segments.len(),
            all == rows(segments@),
            rows(out@) == rust_segments(Seq::empty(), all.take(i as int)),
        decreases segments.len() - i,
    {
        add_rust_segment(&mut out, segments[i].as_slice());
        i += 1;
        proof {
            assert(all.take(i as int).drop_last() =~= all.take(i - 1));
            assert(all.take(i as int).last() == segments@[i - 1]@);
        }
    }
    assert(all.take(segments.len() as int) =~= all);
    out
}

// ---------------------------------------------------------------------------
// Python
// ---------------------------------------------------------------------------

/// What one item of an import list adds: its alias, if it has one, and the
/// last name of its dotted path.
pub open spec fn python_item(out: Seq<Seq<char>>, item: Seq<char>) -> Seq<Seq<char>> {
    let p = trimmed(item);
    match halves(p, " as "@) {
        Some((left, alias)) => with_candidate(
            with_candidate(out, trimmed(alias)),
            trimmed(last_piece(left, seq!['.'])),
        ),
        None => with_candidate(out, trimmed(last_piece(p, seq!['.']))),
    }
}

pub open spec fn python_items(out: Seq<Seq<char>>, items: Seq<Seq<char>>) -> Seq<Seq<char>>
    decreases items.len(),
{
    if items.len() == 0 {
        out
    } else {
        python_item(python_items(out, items.drop_last()), items.last())
    }
}

pub open spec fn python_candidates(import: Seq<char>) -> Seq<Seq<char>> {
    let line = trimmed(import);
    if has_prefix(line, "from "@) && occurs(line, " import "@) {
        match halves(line, " import "@) {
            Some((_, rhs)) => python_items(Seq::empty(), pieces(rhs, seq![','])),
            None => Seq::empty(),
        }
    } else {
        match after_prefix(line, "import "@) {
            Some(rest) => python_items(Seq::empty(), pieces(rest, seq![','])),
            None => Seq::empty(),
        }
    }
}

fn last_name(path: &[char]) -> (r: Vec<char>)
    ensures
        r@ == trimmed(last_piece(path@, seq!['.'])),
{
    let dot: Vec<char> = vec!['.'];
    assert(dot@ =~= seq!['.']);
    let parts = split(path, dot.as_slice());
    assert(rows(parts@).len() == parts@.len());
    assert(rows(parts@).last() == parts@[parts.len() - 1]@);
    copy_chars(trim(parts[parts.len() - 1].as_slice()))
}

fn add_python_item(out: &mut Vec<Vec<char>>, item: &[char])
    ensures
        rows(final(out)@) == python_item(rows(old(out)@), item@),
{
    let p = trim(item);
    let sep = chars_of(" as ");
    match split_once(p, sep.as_slice()) {
        Some((left, alias)) => {
            push_candidate(out, trim(alias));
            let leaf = last_name(left);
            push_candidate(out, leaf.as_slice());
        },
        None => {
            let leaf = last_name(p);
            push_candidate(out, leaf.as_slice());
        },
    }
}

fn python_list(list: &[char]) -> (r: Vec<Vec<char>>)
    ensures
        rows(r@) == python_items(Seq::empty(), pieces(list@, seq![','])),
{
    let comma: Vec<char> = vec![','];
    assert(comma@ =~= seq![',']);
    let items = split(list, comma.as_slice());
    let ghost all = rows(items@);
    let mut out: Vec<Vec<char>> = Vec::new();
    let mut i: usize = 0;
    assert(rows(out@) =~= python_items(Seq::empty(), all.take(0)));
    while i < items.len()
        invariant
            i <= items.len(),
            all == rows(items@),
            rows(out@) == python_items(Seq::empty(), all.take(i as int)),
        decreases items.len() - i,
    {
        add_python_item(&mut out, items[i].as_slice());
        i += 1;
        proof {
            assert(all.take(i as int).drop_last() =~= all.take(i - 1));
            assert(all.take(i as int).last() == items@[i - 1]@);
        }
    }
    assert(all.take(items.len() as int) =~= all);
    out
}

pub fn python_import_candidates(import: &[char]) -> (r: Vec<Vec<char>>)
    ensures
        rows(r@) == python_candidates(import@),
{
    let line = trim(import);
    let from = chars_of("from ");
    let import_mid = chars_of(" import ");
    let import_head = chars_of("import ");
    if starts_with(line, from.as_slice()) && contains(line, import_mid.as_slice()) {
        match split_once(line, import_mid.as_slice()) {
            Some((_, rhs)) => python_list(rhs),
            None => {
                let out: Vec<Vec<char>> = Vec::new();
                assert(rows(out@) =~= Seq::<Seq<char>>::empty());
                out
            },
        }
    } else {
        match strip_prefix(line, import_head.as_slice()) {
            Some(rest) => python_list(rest),
            None => {
                let out: Vec<Vec<char>> = Vec::new();
                assert(rows(out@) =~= Seq::<Seq<char>>::empty());
                out
            },
        }
    }
}

// ---------------------------------------------------------------------------
// JavaScript and TypeScript
// ---------------------------------------------------------------------------

/// What one item of a list in braces adds: its alias and its own name.
pub open spec fn js_named_item(out: Seq<Seq<char>>, item: Seq<char>) -> Seq<Seq<char>> {
    let p = trimmed(item);
    match halves(p, " as "@) {
        Some((orig, alias)) => with_candidate(with_candidate(out, trimmed(alias)), trimmed(orig)),
        None => with_candidate(out, p),
    }
}

pub open spec fn js_named_items(out: Seq<Seq<char>>, items: Seq<Seq<char>>) -> Seq<Seq<char>>
    decreases items.len(),
{
    if items.len() == 0 {
        out
    } else {
        js_named_item(js_named_items(out, items.drop_last()), items.last())
    }
}

/// The name a `require` is bound to: what stands before `= require(`,
/// without the keyword of its declaration.
pub open spec fn js_binding(lhs: Seq<char>) -> Seq<char> {
    trimmed(
        without_prefix_runs(
            without_prefix_runs(without_prefix_runs(trimmed(lhs), "const "@), "let "@),
            "var "@,
        ),
    )
}

pub open spec fn js_ts_candidates(import: Seq<char>) -> Seq<Seq<char>> {
    let line = trimmed(import);
    if has_prefix(line, "import "@) {
        match halves(line, " from "@) {
            Some((lhs, _)) => {
                let left = trimmed(without_prefix_runs(lhs, "import "@));
                if has_prefix(left, seq!['{']) && has_suffix(left, seq!['}']) {
                    let inner = without_trailing(
                        without_leading(left, Class::AnyOf(seq!['{'])),
                        Class::AnyOf(seq!['}']),
                    );
                    js_named_items(Seq::empty(), pieces(inner, seq![',']))
                } else {
                    with_trimmed_candidates(Seq::empty(), pieces(left, seq![',']))
                }
            },
            None => Seq::empty(),
        }
    } else {
        match halves(line, "= require("@) {
            Some((lhs, _)) => with_candidate(Seq::empty(), js_binding(lhs)),
            None => Seq::empty(),
        }
    }
}

fn add_js_named_item(out: &mut Vec<Vec<char>>, item: &[char])
    ensures
        rows(final(out)@) == js_named_item(rows(old(out)@), item@),
{
    let p = trim(item);
    let sep = chars_of(" as ");
    match split_once(p, sep.as_slice()) {
        Some((orig, alias)) => {
            push_candidate(out, trim(alias));
            push_candidate(out, trim(orig));
        },
        None => {
            push_candidate(out, p);
        },
    }
}

fn js_named_list(inner: &[char]) -> (r: Vec<Vec<char>>)
    ensures
        rows(r@) == js_named_items(Seq::empty(), pieces(inner@, seq![','])),
{
    let comma: Vec<char> = vec![','];
    assert(comma@ =~= seq![',']);
    let items = split(inner, comma.as_slice());
    let ghost all = rows(items@);
    let mut out: Vec<Vec<char>> = Vec::new();
    let mut i: usize = 0;
    assert(rows(out@) =~= js_named_items(Seq::empty(), all.take(0)));
    while i < items.len()
        invariant
            i <= items.len(),
            all == rows(items@),
            rows(out@) == js_named_items(Seq::empty(), all.take(i as int)),
        decreases items.len() - i,
    {
        add_js_named_item(&mut out, items[i].as_slice());
        i += 1;
        proof {
            assert(all.take(i as int).drop_last() =~= all.take(i - 1));
            assert(all.take(i as int).last() == items@[i - 1]@);
        }
    }
    assert(all.take(items.len() as int) =~= all);
    out
}

fn trimmed_list(list: &[char]) -> (r: Vec<Vec<char>>)
    ensures
        rows(r@) == with_trimmed_candidates(Seq::empty(), pieces(list@, seq![','])),
{
    let comma: Vec<char> = vec![','];
    assert(comma@ =~= seq![',']);
    let items = split(list, comma.as_slice());
    let ghost all = rows(items@);
    let mut out: Vec<Vec<char>> = Vec::new();
    let mut i: usize = 0;
    assert(rows(out@) =~= with_trimmed_candidates(Seq::empty(), all.take(0)));
    while i < items.len()
        invariant
            i <= items.len(),
            all == rows(items@),
            rows(out@) == with_trimmed_candidates(Seq::empty(), all.take(i as int)),
        decreases items.len() - i,
    {
        push_candidate(&mut out, trim(items[i].as_slice()));
        i += 1;
        proof {
            assert(all.take(i as int).drop_last() =~= all.take(i - 1));
            assert(all.take(i as int).last() == items@[i - 1]@);
        }
    }
    assert(all.take(items.len() as int) =~= all);
    out
}

pub fn js_ts_import_candidates(import: &[char]) -> (r: Vec<Vec<char>>)
    ensures
        rows(r@) == js_ts_candidates(import@),
{
    let line = trim(import);
    let import_head = chars_of("import ");
    let mut out: Vec<Vec<char>> = Vec::new();
    assert(rows(out@) =~= Seq::<Seq<char>>::empty());
    if starts_with(line, import_head.as_slice()) {
        let from = chars_of(" from ");
        match split_once(line, from.as_slice()) {
            Some((lhs, _)) => {
                let left = trim(strip_prefix_runs(lhs, import_head.as_slice()));
                let open: Vec<char> = vec!['{'];
                assert(open@ =~= seq!['{']);
                let close: Vec<char> = vec!['}'];
                assert(close@ =~= seq!['}']);
                if starts_with(left, open.as_slice()) && ends_with(left, close.as_slice()) {
                    let inner = drop_trailing(
                        skip_leading(left, &CharClass::AnyOf(open.as_slice())),
                        &CharClass::AnyOf(close.as_slice()),
                    );
                    js_named_list(inner)
                } else {
                    trimmed_list(left)
                }
            },
            None => out,
        }
    } else {
        let require = chars_of("= require(");
        match split_once(line, require.as_slice()) {
            Some((lhs, _)) => {
                let k_const = chars_of("const ");
                let k_let = chars_of("let ");
                let k_var = chars_of("var ");
                let left = trim(
                    strip_prefix_runs(
                        strip_prefix_runs(
                            strip_prefix_runs(trim(lhs), k_const.as_slice()),
                            k_let.as_slice(),
                        ),
                        k_var.as_slice(),
                    ),
                );
                push_candidate(&mut out, left);
                out
            },
            None => out,
        }
    }
}

// ---------------------------------------------------------------------------
// Java, Kotlin and C#
// ---------------------------------------------------------------------------

/// The last name of the dotted path that is imported.
pub open spec fn dotted_candidates(import: Seq<char>) -> Seq<Seq<char>> {
    let line = trimmed(
        without_trailing(
            without_prefix_runs(without_prefix_runs(trimmed(import), "import "@), "using "@),
            Class::AnyOf(seq![';']),
        ),
    );
    with_candidate(Seq::empty(), trimmed(last_piece(line, seq!['.'])))
}

pub fn dotted_import_candidates(import: &[char]) -> (r: Vec<Vec<char>>)
    ensures
        rows(r@) == dotted_candidates(import@),
{
    let import_head = chars_of("import ");
    let using_head = chars_of("using ");
    let semicolon: Vec<char> = vec![';'];
    assert(semicolon@ =~= seq![';']);
    let line = trim(
        drop_trailing(
            strip_prefix_runs(
                strip_prefix_runs(trim(import), import_head.as_slice()),
                using_head.as_slice(),
            ),
            &CharClass::AnyOf(semicolon.as_slice()),
        ),
    );
    let leaf = last_name(line);
    let mut out: Vec<Vec<char>> = Vec::new();
    assert(rows(out@) =~= Seq::<Seq<char>>::empty());
    push_candidate(&mut out, leaf.as_slice());
    out
}

// ---------------------------------------------------------------------------
// Go
// ---------------------------------------------------------------------------

/// The alias of the imported package, if the import names one.
pub open spec fn go_candidates(import: Seq<char>) -> Seq<Seq<char>> {
    let line = trimmed(import);
    if !has_prefix(line, "import "@) {
        Seq::empty()
    } else {
        let ws = words(trimmed(without_prefix_runs(line, "import "@)));
        if ws.len() > 0 && !has_prefix(ws[0], seq!['"']) && ws[0] != "."@ && ws[0] != "_"@ {
            with_candidate(Seq::empty(), ws[0])
        } else {
            Seq::empty()
        }
    }
}

pub fn go_import_candidates(import: &[char]) -> (r: Vec<Vec<char>>)
    ensures
        rows(r@) == go_candidates(import@),
{
    let line = trim(import);
    let import_head = chars_of("import ");
    let mut out: Vec<Vec<char>> = Vec::new();
    assert(rows(out@) =~= Seq::<Seq<char>>::empty());
    if !starts_with(line, import_head.as_slice()) {
        return out;
    }
    let ws = split_whitespace(trim(strip_prefix_runs(line, import_head.as_slice())));
    assert(rows(ws@).len() == ws@.len());
    if ws.len() > 0 {
        assert(rows(ws@)[0] == ws@[0]@);
        let alias = ws[0].as_slice();
        let quote: Vec<char> = vec!['"'];
        assert(quote@ =~= seq!['"']);
        if !starts_with(alias, quote.as_slice()) && !is_text(alias, ".") && !is_text(alias, "_") {
            push_candidate(&mut out, alias);
        }
    }
    out
}

// ---------------------------------------------------------------------------
// By language
// ---------------------------------------------------------------------------

/// The candidates of an import of the given language family.
pub open spec fn candidates(import: Seq<char>, language: Language) -> Seq<Seq<char>> {
    match language {
        Language::Rust => rust_candidates(import),
        Language::Python => python_candidates(import),
        Language::JavaScript | Language::TypeScript => js_ts_candidates(import),
        Language::Java | Language::Kotlin | Language::CSharp => dotted_candidates(import),
        Language::Go => go_candidates(import),
        _ => generic_candidates(import),
    }
}

pub fn import_symbol_candidates(import: &[char], language: Language) -> (r: Vec<Vec<char>>)
    ensures
        rows(r@) == candidates(import@, language),
{
    match language {
        Language::Rust => rust_import_candidates(import),
        Language::Python => python_import_candidates(import),
        Language::JavaScript | Language::TypeScript => js_ts_import_candidates(import),
        Language::Java | Language::Kotlin | Language::CSharp => dotted_import_candidates(import),
        Language::Go => go_import_candidates(import),
        _ => generic_import_candidates(import),
    }
}

/// A list of candidates to which a token is offered stays a list of
/// candidates: valid identifiers of at least three characters that are no
/// noise.
pub proof fn lemma_with_candidates_valid(out: Seq<Seq<char>>, token: Seq<char>)
    requires
        forall|i: int| 0 <= i < out.len() ==> is_candidate(#[trigger] out[i]),
    ensures
        forall|i: int|
            0 <= i < with_candidate(out, token).len() ==> is_candidate(
                #[trigger] with_candidate(out, token)[i],
            ),
{
}

} // verus!
