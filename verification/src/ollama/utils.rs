//! Putting the generator's answers into shape.

use crate::error::{concat, glued};
use crate::memory::file_memory::lits;
use crate::ollama::task::Task;
use crate::split::{
    join_range, joined, line_seq, lines, rows, strip_prefix_runs, strip_suffix_runs,
    without_prefix_runs, without_suffix_runs,
};
use crate::text::{
    chars_of, contains, ends_with, find, has_prefix, has_suffix, lemma_position, occurs, occurs_at,
    position, push_chars, starts_with, string_of, trim, trim_start, trimmed, trimmed_start,
};
use vstd::prelude::*;

verus! {

// ---------------------------------------------------------------------------
// What the standard library knows of characters
// ---------------------------------------------------------------------------

/// The text that `str::to_lowercase` makes of a text.
pub uninterp spec fn lowercase(s: Seq<char>) -> Seq<char>;

/// Whether `char::is_alphabetic` holds of a character.
pub uninterp spec fn is_alphabetic(c: char) -> bool;

/// Calls `str::to_lowercase`, which maps each character to its lower case
/// by the Unicode tables; the result is what `lowercase` names.
#[verifier::external_body]
fn to_lowercase(s: &str) -> (r: String)
    ensures
        r@ == lowercase(s@),
{
    s.to_lowercase()
}

/// Calls `char::is_alphabetic`, which says whether the character has the
/// Unicode property `Alphabetic`; the result is what `is_alphabetic` names.
#[verifier::external_body]
fn alphabetic(c: char) -> (b: bool)
    ensures
        b == is_alphabetic(c),
{
    c.is_alphabetic()
}

// ---------------------------------------------------------------------------
// Empty answers
// ---------------------------------------------------------------------------

pub open spec fn empty_output_message(task: Task, model_name: Seq<char>) -> Seq<char> {
    "ollama returned empty output for task "@ + task.label() + " ("@ + model_name + ")"@
}

/// The answer, unless it is empty or white space only.
pub fn ensure_non_empty(task: Task, model_name: &str, output: String) -> (r: Result<String, String>)
    ensures
        match r {
            Ok(text) => trimmed(output@).len() > 0 && text@ == output@,
            Err(message) => trimmed(output@).len() == 0 && message@ == empty_output_message(
                task,
                model_name@,
            ),
        },
{
    let text = chars_of(output.as_str());
    if trim(text.as_slice()).len() == 0 {
        proof {
            reveal_with_fuel(glued, 6);
        }
        let parts: Vec<&str> = vec![
            "ollama returned empty output for task ",
            task.name(),
            " (",
            model_name,
            ")",
        ];
        let message = concat(&parts);
        assert(message@ =~= empty_output_message(task, model_name@));
        return Err(message);
    }
    Ok(output)
}

// ---------------------------------------------------------------------------
// Refusals
// ---------------------------------------------------------------------------

/// Turns of phrase by which a generator declines to answer, in lower case.
pub open spec fn refusal_phrases() -> Seq<Seq<char>> {
    seq![
        "i cannot"@,
        "i can't"@,
        "i'm unable"@,
        "as an ai"@,
        "i don't have"@,
        "i do not have"@,
        "i am not able"@,
        "unable to"@,
        "cannot help"@,
        "can't help"@,
        "not allowed"@,
        "not permitted"@,
        "against my"@,
        "ethical"@,
        "policy"@,
        "guidelines"@,
    ]
}

/// One of the refusal phrases occurs in `lower`.
pub open spec fn has_refusal(lower: Seq<char>) -> bool {
    exists|i: int| 0 <= i < refusal_phrases().len() && occurs(lower, #[trigger] refusal_phrases()[i])
}

/// Whether a text in lower case holds a refusal.
pub fn is_refusal_text(lower: &[char]) -> (r: bool)
    ensures
        r == has_refusal(lower@),
{
    let phrases: Vec<&'static str> = vec![
        "i cannot",
        "i can't",
        "i'm unable",
        "as an ai",
        "i don't have",
        "i do not have",
        "i am not able",
        "unable to",
        "cannot help",
        "can't help",
        "not allowed",
        "not permitted",
        "against my",
        "ethical",
        "policy",
        "guidelines",
    ];
    assert(lits(phrases@) =~= refusal_phrases());
    let mut i: usize = 0;
    while i < phrases.len()
        invariant
            i <= phrases.len(),
            lits(phrases@) == refusal_phrases(),
            forall|j: int| 0 <= j < i ==> !occurs(lower@, #[trigger] refusal_phrases()[j]),
        decreases phrases.len() - i,
    {
        assert(refusal_phrases()[i as int] == phrases@[i as int]@);
        if contains(lower, chars_of(phrases[i]).as_slice()) {
            assert(occurs(lower@, refusal_phrases()[i as int]));
            return true;
        }
        i += 1;
    }
    false
}

/// Whether an answer, taken in lower case, holds a refusal.
pub fn is_refusal_output(output: &str) -> (r: bool)
    ensures
        r == has_refusal(lowercase(output@)),
{
    let lower = to_lowercase(output);
    is_refusal_text(chars_of(lower.as_str()).as_slice())
}

// ---------------------------------------------------------------------------
// Code fences
// ---------------------------------------------------------------------------

/// Every character of the text is alphabetic.
pub open spec fn all_alphabetic(s: Seq<char>) -> bool {
    forall|i: int| 0 <= i < s.len() ==> is_alphabetic(#[trigger] s[i])
}

/// The lines joined and trimmed, without the first line if that is a tag.
pub open spec fn fence_body(ls: Seq<Seq<char>>, tagged: bool) -> Seq<char> {
    if tagged && ls.len() > 0 {
        trimmed(joined(ls.skip(1), "\n"@))
    } else {
        trimmed(joined(ls, "\n"@))
    }
}

/// An answer without the code fence around it: trimmed; and if it begins
/// and ends with three backticks, without the backticks at both ends and
/// without the language tag on the first line.
pub open spec fn unfenced(output: Seq<char>) -> Seq<char> {
    let t = trimmed(output);
    if has_prefix(t, "```"@) && has_suffix(t, "```"@) {
        let inner = without_suffix_runs(without_prefix_runs(t, "```"@), "```"@);
        let ls = line_seq(inner);
        fence_body(ls, ls.len() > 0 && all_alphabetic(trimmed(ls[0])))
    } else {
        t
    }
}

/// The lines of a fenced block as one text.
pub fn join_fence_lines(ls: &Vec<Vec<char>>, tagged: bool) -> (r: Vec<char>)
    ensures
        r@ == fence_body(rows(ls@), tagged),
{
    let newline = chars_of("\n");
    assert(rows(ls@).len() == ls@.len());
    let from: usize = if tagged && ls.len() > 0 {
        1
    } else {
        0
    };
    let body = join_range(ls, from, ls.len(), newline.as_slice());
    proof {
        assert(rows(ls@).subrange(from as int, ls@.len() as int) =~= rows(ls@).skip(from as int));
        assert(rows(ls@).skip(0) =~= rows(ls@));
    }
    crate::text::copy_chars(trim(body.as_slice()))
}

fn is_tag(line: &[char]) -> (r: bool)
    ensures
        r == all_alphabetic(line@),
{
    let mut i: usize = 0;
    while i < line.len()
        invariant
            i <= line.len(),
            forall|j: int| 0 <= j < i ==> is_alphabetic(#[trigger] line@[j]),
        decreases line.len() - i,
    {
        if !alphabetic(line[i]) {
            return false;
        }
        i += 1;
    }
    true
}

pub fn strip_wrapping_code_fence(output: String) -> (r: String)
    ensures
        r@ == unfenced(output@),
{
    let text = chars_of(output.as_str());
    let t = trim(text.as_slice());
    let fence = chars_of("```");
    if starts_with(t, fence.as_slice()) && ends_with(t, fence.as_slice()) {
        let inner = strip_suffix_runs(strip_prefix_runs(t, fence.as_slice()), fence.as_slice());
        let ls = lines(inner);
        assert(rows(ls@).len() == ls@.len());
        let tagged = if ls.len() > 0 {
            assert(rows(ls@)[0] == ls@[0]@);
            is_tag(trim(ls[0].as_slice()))
        } else {
            false
        };
        string_of(join_fence_lines(&ls, tagged).as_slice())
    } else {
        string_of(t)
    }
}

// ---------------------------------------------------------------------------
// Headings
// ---------------------------------------------------------------------------

/// The answer from the task's heading on, trimmed; the whole answer,
/// trimmed, if the heading does not occur.
pub open spec fn from_heading(task: Task, output: Seq<char>) -> Seq<char> {
    match position(output, task.heading()) {
        Some(i) => trimmed(output.skip(i)),
        None => trimmed(output),
    }
}

pub fn expected_headings(task: Task) -> (r: Vec<&'static str>)
    ensures
        lits(r@) == seq![task.heading()],
{
    let r: Vec<&'static str> = match task {
        Task::Summarize => vec!["## Purpose"],
        Task::Documentation => vec!["## Overview"],
        Task::ProjectSummary => vec!["## Overview"],
        Task::Architecture => vec!["## System Context"],
    };
    assert(lits(r@) =~= seq![task.heading()]);
    r
}

pub fn trim_to_expected_heading(task: Task, output: String) -> (r: String)
    ensures
        r@ == from_heading(task, output@),
{
    let text = chars_of(output.as_str());
    let headings = expected_headings(task);
    assert(lits(headings@).len() == headings@.len());
    assert(lits(headings@)[0] == headings@[0]@);
    let heading = chars_of(headings[0]);
    match find(text.as_slice(), heading.as_slice()) {
        Some(i) => {
            proof {
                lemma_position(text@, heading@);
                assert(occurs_at(text@, heading@, i as int));
            }
            let n: usize = text.len();
            string_of(trim(&text.as_slice()[i..n]))
        },
        None => string_of(trim(text.as_slice())),
    }
}

// ---------------------------------------------------------------------------
// JSON in place of Markdown
// ---------------------------------------------------------------------------

/// The answer looks like JSON: its first character that is no white space
/// opens an object or a list.
pub open spec fn looks_like_json(output: Seq<char>) -> bool {
    has_prefix(trimmed_start(output), "{"@) || has_prefix(trimmed_start(output), "["@)
}

pub fn reject_json_payload(output: String) -> (r: Result<String, String>)
    ensures
        match r {
            Ok(text) => !looks_like_json(output@) && text@ == output@,
            Err(message) => looks_like_json(output@) && message@
                == "ollama returned JSON payload instead of markdown"@,
        },
{
    let text = chars_of(output.as_str());
    let t = trim_start(text.as_slice());
    if starts_with(t, chars_of("{").as_slice()) || starts_with(t, chars_of("[").as_slice()) {
        return Err(
            string_of(chars_of("ollama returned JSON payload instead of markdown").as_slice()),
        );
    }
    Ok(output)
}

// ---------------------------------------------------------------------------
// The disclaimer
// ---------------------------------------------------------------------------

pub open spec fn disclaimer() -> Seq<char> {
    "> **AI-generated content:** May contain inaccuracies. Verify against source code."@
}

/// A text in lower case begins as a disclaimer does.
pub open spec fn begins_with_disclaimer(lower: Seq<char>) -> bool {
    ||| has_prefix(lower, "> **ai-generated content:**"@)
    ||| has_prefix(lower, "**ai-generated content:**"@)
    ||| has_prefix(lower, "<!-- generated by ai"@)
}

/// The answer with the disclaimer before it, unless it has one already.
/// `lower` is the trimmed answer in lower case.
pub open spec fn with_disclaimer(output: Seq<char>, lower: Seq<char>) -> Seq<char> {
    let t = trimmed(output);
    if begins_with_disclaimer(lower) || has_prefix(t, disclaimer()) {
        output
    } else if t.len() == 0 {
        disclaimer()
    } else {
        disclaimer() + "\n\n"@ + t
    }
}

/// Puts the disclaimer before an answer that lacks one. `lower` is the
/// trimmed answer in lower case.
pub fn add_disclaimer(output: String, lower: &[char]) -> (r: String)
    ensures
        r@ == with_disclaimer(output@, lower@),
{
    let text = chars_of(output.as_str());
    let t = trim(text.as_slice());
    let note = chars_of(
        "> **AI-generated content:** May contain inaccuracies. Verify against source code.",
    );
    if starts_with(lower, chars_of("> **ai-generated content:**").as_slice()) || starts_with(
        lower,
        chars_of("**ai-generated content:**").as_slice(),
    ) || starts_with(lower, chars_of("<!-- generated by ai").as_slice()) {
        return output;
    }
    if starts_with(t, note.as_slice()) {
        return output;
    }
    if t.len() == 0 {
        string_of(note.as_slice())
    } else {
        let mut out = note;
        push_chars(&mut out, chars_of("\n\n").as_slice());
        push_chars(&mut out, t);
        string_of(out.as_slice())
    }
}

pub fn ensure_ai_disclaimer(output: String) -> (r: String)
    ensures
        r@ == with_disclaimer(output@, lowercase(trimmed(output@))),
{
    let text = chars_of(output.as_str());
    let t = string_of(trim(text.as_slice()));
    let lower = to_lowercase(t.as_str());
    add_disclaimer(output, chars_of(lower.as_str()).as_slice())
}

} // verus!
