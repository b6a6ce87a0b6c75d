//! Deciding, answer by answer, how the documents of a file come about.
//!
//! The program asks the generator and reads and writes files; what it
//! does next is decided here. A file whose documents are up to date is not
//! asked for. A request is first made with the standard context; when the
//! generator fails in a passing way or declines to answer, it is made once
//! more with the compact context; when that fails in a passing way or is
//! declined too, the file is skipped.

use crate::error::{message_of, ErrorModel, PlainSightError};
use crate::memory::file_memory::{capped, lits};
use crate::memory::types::{fact_models, texts, FileMemory, FileModel};
use crate::ollama::utils::{has_refusal, is_refusal_output, lowercase};
use crate::source_indexer::{chunk_models, ChunkModel, SourceChunk};
use crate::text::{
    ascii_lower, chars_of, contains, decimal, occurs, push_chars, string_of, to_ascii_lower,
    to_decimal, trim, trimmed,
};
use crate::workflow::types::PromptProfile;
use vstd::prelude::*;

verus! {

// ---------------------------------------------------------------------------
// Errors that pass
// ---------------------------------------------------------------------------

/// Words in the message of an error that is likely to pass when less is
/// asked for, in lower case.
pub open spec fn transient_phrases() -> Seq<Seq<char>> {
    seq![
        "request timeout"@,
        "timed out"@,
        "stopping"@,
        "killed"@,
        "connection"@,
        "json payload instead of markdown"@,
    ]
}

/// One of the transient phrases occurs in the message, whatever the case
/// of its ASCII letters.
pub open spec fn is_transient(message: Seq<char>) -> bool {
    exists|i: int|
        0 <= i < transient_phrases().len() && occurs(
            ascii_lower(message),
            #[trigger] transient_phrases()[i],
        )
}

/// Whether a request that failed with this message is worth making again
/// with less context.
pub fn is_transient_message(message: &str) -> (r: bool)
    ensures
        r == is_transient(message@),
{
    let lower = to_ascii_lower(chars_of(message).as_slice());
    let phrases: Vec<&'static str> = vec![
        "request timeout",
        "timed out",
        "stopping",
        "killed",
        "connection",
        "json payload instead of markdown",
    ];
    assert(lits(phrases@) =~= transient_phrases());
    let mut i: usize = 0;
    while i < phrases.len()
        invariant
            i <= phrases.len(),
            lits(phrases@) == transient_phrases(),
            lower@ == ascii_lower(message@),
            forall|j: int| 0 <= j < i ==> !occurs(lower@, #[trigger] transient_phrases()[j]),
        decreases phrases.len() - i,
    {
        assert(transient_phrases()[i as int] == phrases@[i as int]@);
        if contains(lower.as_slice(), chars_of(phrases[i]).as_slice()) {
            assert(occurs(ascii_lower(message@), transient_phrases()[i as int]));
            return true;
        }
        i += 1;
    }
    false
}

pub fn should_retry_compact_ollama_error(error: &PlainSightError) -> (r: bool)
    ensures
        r == is_transient(message_of(error@)),
{
    is_transient_message(error.message().as_str())
}

// ---------------------------------------------------------------------------
// One file, step by step
// ---------------------------------------------------------------------------

/// What came back from the generator, or from reading an earlier document.
#[derive(Clone, Copy, PartialEq, Eq, Structural, Debug)]
pub enum Outcome {
    /// A text that can be used.
    Text,
    /// A text that declines to answer.
    Refusal,
    /// No text, or the empty one.
    Empty,
    /// An error that may pass.
    Transient,
    /// Any other error.
    Fatal,
}

/// Where the work on a file stands.
#[derive(Clone, Copy, PartialEq, Eq, Structural, Debug)]
pub enum Step {
    /// The earlier document is being read.
    ReadingExisting,
    /// The generator was asked with the standard context.
    AskedStandard,
    /// The generator was asked with the compact context.
    AskedCompact,
    /// Nothing is left to do.
    Done,
}

/// What the program is to do next.
#[derive(Clone, Copy, PartialEq, Eq, Structural, Debug)]
pub enum Action {
    /// Read the document that exists.
    ReadExisting,
    /// Ask the generator with the given context.
    Ask(PromptProfile),
    /// Keep the document that exists.
    Reuse,
    /// Write the text that came back.
    Write,
    /// Leave the file without a document.
    Skip,
    /// Give up with the error that came back.
    Fail,
}

/// How the work on a file begins. The document of a file that does not
/// have to be made again is kept; for a summary it is read first, because
/// the project's summary is made of the summaries.
pub open spec fn first_step(regenerate: bool, read_existing: bool) -> (Step, Action) {
    if regenerate {
        (Step::AskedStandard, Action::Ask(PromptProfile::Standard))
    } else if read_existing {
        (Step::ReadingExisting, Action::ReadExisting)
    } else {
        (Step::Done, Action::Reuse)
    }
}

/// How the work on a file goes on after an outcome.
pub open spec fn next_step(step: Step, outcome: Outcome) -> (Step, Action) {
    match step {
        Step::ReadingExisting => match outcome {
            Outcome::Text | Outcome::Refusal => (Step::Done, Action::Reuse),
            _ => (Step::AskedStandard, Action::Ask(PromptProfile::Standard)),
        },
        Step::AskedStandard => match outcome {
            Outcome::Text => (Step::Done, Action::Write),
            Outcome::Empty => (Step::Done, Action::Skip),
            Outcome::Refusal | Outcome::Transient => (
                Step::AskedCompact,
                Action::Ask(PromptProfile::Compact),
            ),
            Outcome::Fatal => (Step::Done, Action::Fail),
        },
        Step::AskedCompact => match outcome {
            Outcome::Text => (Step::Done, Action::Write),
            Outcome::Fatal => (Step::Done, Action::Fail),
            _ => (Step::Done, Action::Skip),
        },
        Step::Done => (Step::Done, Action::Skip),
    }
}

pub fn begin(regenerate: bool, read_existing: bool) -> (r: (Step, Action))
    ensures
        r == first_step(regenerate, read_existing),
{
    if regenerate {
        (Step::AskedStandard, Action::Ask(PromptProfile::Standard))
    } else if read_existing {
        (Step::ReadingExisting, Action::ReadExisting)
    } else {
        (Step::Done, Action::Reuse)
    }
}

pub fn advance(step: Step, outcome: Outcome) -> (r: (Step, Action))
    ensures
        r == next_step(step, outcome),
{
    match step {
        Step::ReadingExisting => match outcome {
            Outcome::Text | Outcome::Refusal => (Step::Done, Action::Reuse),
            _ => (Step::AskedStandard, Action::Ask(PromptProfile::Standard)),
        },
        Step::AskedStandard => match outcome {
            Outcome::Text => (Step::Done, Action::Write),
            Outcome::Empty => (Step::Done, Action::Skip),
            Outcome::Refusal | Outcome::Transient => (
                Step::AskedCompact,
                Action::Ask(PromptProfile::Compact),
            ),
            Outcome::Fatal => (Step::Done, Action::Fail),
        },
        Step::AskedCompact => match outcome {
            Outcome::Text => (Step::Done, Action::Write),
            Outcome::Fatal => (Step::Done, Action::Fail),
            _ => (Step::Done, Action::Skip),
        },
        Step::Done => (Step::Done, Action::Skip),
    }
}

/// The outcome that an answer of the generator is, given whether its text
/// declines to answer.
pub open spec fn outcome_of_answer(answer: Result<Seq<char>, ErrorModel>, refusal: bool) -> Outcome {
    match answer {
        Ok(text) => if text.len() == 0 {
            Outcome::Empty
        } else if refusal {
            Outcome::Refusal
        } else {
            Outcome::Text
        },
        Err(error) => if is_transient(message_of(error)) {
            Outcome::Transient
        } else {
            Outcome::Fatal
        },
    }
}

/// The answer as specifications speak of it.
pub open spec fn answer_model(answer: &Result<String, PlainSightError>) -> Result<
    Seq<char>,
    ErrorModel,
> {
    match answer {
        Ok(text) => Ok(text@),
        Err(error) => Err(error@),
    }
}

/// What an answer of the generator is, given whether its text declines.
pub fn judge_answer(answer: &Result<String, PlainSightError>, refusal: bool) -> (outcome: Outcome)
    ensures
        outcome == outcome_of_answer(answer_model(answer), refusal),
{
    match answer {
        Ok(text) => {
            if chars_of(text.as_str()).len() == 0 {
                Outcome::Empty
            } else if refusal {
                Outcome::Refusal
            } else {
                Outcome::Text
            }
        },
        Err(error) => {
            if should_retry_compact_ollama_error(error) {
                Outcome::Transient
            } else {
                Outcome::Fatal
            }
        },
    }
}

/// What an answer of the generator is.
pub fn classify_answer(answer: &Result<String, PlainSightError>) -> (outcome: Outcome)
    ensures
        outcome == outcome_of_answer(
            answer_model(answer),
            answer matches Ok(text) && has_refusal(lowercase(text@)),
        ),
{
    let refusal = match answer {
        Ok(text) => is_refusal_output(text.as_str()),
        Err(_) => false,
    };
    judge_answer(answer, refusal)
}

/// What an earlier document is: a text if it could be read and is not
/// white space only.
pub fn classify_existing(existing: &Option<String>) -> (outcome: Outcome)
    ensures
        outcome == (match existing {
            Some(text) => if trimmed(text@).len() > 0 {
                Outcome::Text
            } else {
                Outcome::Empty
            },
            None => Outcome::Empty,
        }),
{
    match existing {
        Some(text) => {
            if trim(chars_of(text.as_str()).as_slice()).len() > 0 {
                Outcome::Text
            } else {
                Outcome::Empty
            }
        },
        None => Outcome::Empty,
    }
}

/// The work on a file ends after four outcomes at most, whatever they are,
/// and the generator is asked twice at most.
pub proof fn lemma_work_ends(start: (Step, Action), a: Outcome, b: Outcome, c: Outcome)
    requires
        start == first_step(true, false) || start == first_step(false, true) || start
            == first_step(false, false),
    ensures
        next_step(next_step(next_step(start.0, a).0, b).0, c).0 == Step::Done,
        start.0 == Step::AskedStandard ==> next_step(next_step(start.0, a).0, b).0 == Step::Done,
{
}

/// A text is written only if the generator gave one that does not decline,
/// and a fatal error always ends the work with that error.
pub proof fn lemma_only_texts_are_written(step: Step, outcome: Outcome)
    ensures
        next_step(step, outcome).1 == Action::Write ==> outcome == Outcome::Text && (step
            == Step::AskedStandard || step == Step::AskedCompact),
        outcome == Outcome::Fatal && (step == Step::AskedStandard || step == Step::AskedCompact)
            ==> next_step(step, outcome).1 == Action::Fail,
{
}

// ---------------------------------------------------------------------------
// The context of a request
// ---------------------------------------------------------------------------

/// How much of a file goes into a request.
#[derive(Clone, Copy, PartialEq, Eq, Structural, Debug)]
pub struct PromptBudget {
    pub max_chunks: usize,
    pub max_chunk_chars: usize,
    pub max_file_symbols: usize,
    pub max_file_imports: usize,
}

pub open spec fn at_least(n: int, low: int) -> int {
    if n < low {
        low
    } else {
        n
    }
}

pub open spec fn less(n: int, by: int) -> int {
    if n < by {
        0
    } else {
        n - by
    }
}

/// The budget of a profile under a memory pressure: the number of facts
/// that the request carries besides the source. Above 200 facts, and again
/// above 350, fewer and shorter chunks are sent.
pub open spec fn budget_for(profile: PromptProfile, pressure: nat) -> PromptBudget {
    let (chunks, chars, symbols, imports) = match profile {
        PromptProfile::Standard => (8int, 1600int, 70usize, 50usize),
        PromptProfile::Compact => (4int, 900int, 30usize, 20usize),
    };
    let (chunks1, chars1) = if pressure > 200 {
        (at_least(less(chunks, 2), 3), at_least(less(chars, 250), 800))
    } else {
        (chunks, chars)
    };
    let (chunks2, chars2) = if pressure > 350 {
        (at_least(less(chunks1, 1), 2), at_least(less(chars1, 150), 650))
    } else {
        (chunks1, chars1)
    };
    PromptBudget {
        max_chunks: chunks2 as usize,
        max_chunk_chars: chars2 as usize,
        max_file_symbols: symbols,
        max_file_imports: imports,
    }
}

fn lower_bound(n: usize, low: usize) -> (r: usize)
    ensures
        r == at_least(n as int, low as int),
{
    if n < low {
        low
    } else {
        n
    }
}

fn reduced(n: usize, by: usize) -> (r: usize)
    ensures
        r == less(n as int, by as int),
{
    if n < by {
        0
    } else {
        n - by
    }
}

pub fn prompt_budget(profile: PromptProfile, pressure: usize) -> (budget: PromptBudget)
    ensures
        budget == budget_for(profile, pressure as nat),
{
    let mut budget = match profile {
        PromptProfile::Standard => PromptBudget {
            max_chunks: 8,
            max_chunk_chars: 1600,
            max_file_symbols: 70,
            max_file_imports: 50,
        },
        PromptProfile::Compact => PromptBudget {
            max_chunks: 4,
            max_chunk_chars: 900,
            max_file_symbols: 30,
            max_file_imports: 20,
        },
    };
    if pressure > 200 {
        budget.max_chunks = lower_bound(reduced(budget.max_chunks, 2), 3);
        budget.max_chunk_chars = lower_bound(reduced(budget.max_chunk_chars, 250), 800);
    }
    if pressure > 350 {
        budget.max_chunks = lower_bound(reduced(budget.max_chunks, 1), 2);
        budget.max_chunk_chars = lower_bound(reduced(budget.max_chunk_chars, 150), 650);
    }
    budget
}

/// The number of facts that a request carries besides the source. It
/// stays within what a machine can count.
pub fn memory_pressure(
    symbols: usize,
    imports: usize,
    global_symbols: usize,
    open_items: usize,
    links: usize,
) -> (r: usize)
    ensures
        r == (if symbols + imports + global_symbols + open_items + links <= usize::MAX {
            symbols + imports + global_symbols + open_items + links
        } else {
            usize::MAX as int
        }),
{
    let total: u128 = symbols as u128 + imports as u128 + global_symbols as u128
        + open_items as u128 + links as u128;
    if total > usize::MAX as u128 {
        usize::MAX
    } else {
        total as usize
    }
}

/// A text cut to `max_chars` characters, with three dots in place of what
/// was cut.
pub open spec fn clipped(text: Seq<char>, max_chars: int) -> Seq<char> {
    if text.len() > max_chars {
        text.take(max_chars) + "..."@
    } else {
        text
    }
}

pub fn clip_text(text: &str, max_chars: usize) -> (r: String)
    ensures
        r@ == clipped(text@, max_chars as int),
{
    let chars = chars_of(text);
    if chars.len() > max_chars {
        let mut out = crate::text::copy_chars(&chars.as_slice()[0..max_chars]);
        push_chars(&mut out, chars_of("...").as_slice());
        string_of(out.as_slice())
    } else {
        string_of(chars.as_slice())
    }
}

/// A chunk with its content cut.
pub open spec fn clipped_chunk(chunk: ChunkModel, max_chars: int) -> ChunkModel {
    ChunkModel {
        chunk_id: chunk.chunk_id,
        start_line: chunk.start_line,
        end_line: chunk.end_line,
        content: clipped(chunk.content, max_chars),
    }
}

/// The first chunks of a file, each cut to the budget.
pub open spec fn clipped_chunks(chunks: Seq<ChunkModel>, max_chunks: int, max_chars: int) -> Seq<
    ChunkModel,
> {
    Seq::new(
        capped(chunks, max_chunks).len(),
        |i: int| clipped_chunk(capped(chunks, max_chunks)[i], max_chars),
    )
}

pub fn clip_chunks(chunks: &Vec<SourceChunk>, max_chunks: usize, max_chunk_chars: usize) -> (r: Vec<
    SourceChunk,
>)
    ensures
        chunk_models(r@) == clipped_chunks(
            chunk_models(chunks@),
            max_chunks as int,
            max_chunk_chars as int,
        ),
{
    let n: usize = if chunks.len() > max_chunks {
        max_chunks
    } else {
        chunks.len()
    };
    let ghost all = chunk_models(chunks@);
    let ghost kept = capped(all, max_chunks as int);
    let mut out: Vec<SourceChunk> = Vec::new();
    let mut i: usize = 0;
    while i < n
        invariant
            i <= n <= chunks.len(),
            n == kept.len(),
            all == chunk_models(chunks@),
            kept == capped(all, max_chunks as int),
            out@.len() == i,
            forall|j: int|
                0 <= j < i ==> (#[trigger] out@[j])@ == clipped_chunk(
                    kept[j],
                    max_chunk_chars as int,
                ),
        decreases n - i,
    {
        let chunk = &chunks[i];
        assert(kept[i as int] == chunk@);
        out.push(
            SourceChunk {
                chunk_id: chunk.chunk_id,
                start_line: chunk.start_line,
                end_line: chunk.end_line,
                content: clip_text(chunk.content.as_str(), max_chunk_chars),
            },
        );
        i += 1;
    }
    assert(chunk_models(out@) =~= clipped_chunks(all, max_chunks as int, max_chunk_chars as int));
    out
}

/// What a request shows of the source: the first chunk, cut to 350 characters.
pub open spec fn preview_of(chunks: Seq<ChunkModel>) -> Seq<char> {
    if chunks.len() == 0 {
        Seq::empty()
    } else {
        clipped(chunks[0].content, 350)
    }
}

pub fn source_preview(chunks: &Vec<SourceChunk>) -> (r: String)
    ensures
        r@ == preview_of(chunk_models(chunks@)),
{
    if chunks.len() == 0 {
        String::new()
    } else {
        assert(chunk_models(chunks@)[0] == chunks@[0]@);
        clip_text(chunks[0].content.as_str(), 350)
    }
}

/// The memory of a file with its lists cut and its counts set to match.
pub open spec fn clipped_memory(memory: FileModel, max_symbols: int, max_imports: int) -> FileModel {
    let symbols = capped(memory.symbols, max_symbols);
    let imports = capped(memory.imports, max_imports);
    FileModel {
        path: memory.path,
        language: memory.language,
        symbol_count: symbols.len(),
        import_count: imports.len(),
        symbols,
        imports,
    }
}

pub fn clip_file_memory(memory: &FileMemory, max_symbols: usize, max_imports: usize) -> (r:
    FileMemory)
    ensures
        r@ == clipped_memory(memory@, max_symbols as int, max_imports as int),
        r.counts_agree(),
{
    let mut clipped = memory.clone();
    if clipped.symbols.len() > max_symbols {
        let ghost before = clipped.symbols@;
        clipped.symbols.truncate(max_symbols);
        assert(fact_models(clipped.symbols@) =~= fact_models(before).take(max_symbols as int));
    }
    if clipped.imports.len() > max_imports {
        let ghost before = clipped.imports@;
        clipped.imports.truncate(max_imports);
        assert(texts(clipped.imports@) =~= texts(before).take(max_imports as int));
    }
    clipped.symbol_count = clipped.symbols.len();
    clipped.import_count = clipped.imports.len();
    clipped
}

/// A number kept between `low` and `high`.
pub fn clamp_count(n: usize, low: usize, high: usize) -> (r: usize)
    requires
        low <= high,
    ensures
        r == (if n < low {
            low
        } else if n > high {
            high
        } else {
            n
        }),
{
    if n < low {
        low
    } else if n > high {
        high
    } else {
        n
    }
}

// ---------------------------------------------------------------------------
// The summaries of the files, put together
// ---------------------------------------------------------------------------

/// The summaries of the files one after another, each under its path.
pub open spec fn summary_context(summaries: Seq<(Seq<char>, Seq<char>)>) -> Seq<char>
    decreases summaries.len(),
{
    if summaries.len() == 0 {
        "# File Summaries\n\n"@
    } else {
        summary_context(summaries.drop_last()) + "## "@ + summaries.last().0 + "\n"@ + trimmed(
            summaries.last().1,
        ) + "\n\n"@
    }
}

pub open spec fn summary_pairs(v: Seq<(String, String)>) -> Seq<(Seq<char>, Seq<char>)> {
    Seq::new(v.len(), |i: int| (v[i].0@, v[i].1@))
}

pub fn build_project_summary_context(file_summaries: &Vec<(String, String)>) -> (r: String)
    ensures
        r@ == summary_context(summary_pairs(file_summaries@)),
{
    let ghost all = summary_pairs(file_summaries@);
    let mut out = chars_of("# File Summaries\n\n");
    let mut i: usize = 0;
    assert(all.take(0) =~= Seq::<(Seq<char>, Seq<char>)>::empty());
    while i < file_summaries.len()
        invariant
            i <= file_summaries.len(),
            all == summary_pairs(file_summaries@),
            out@ == summary_context(all.take(i as int)),
        decreases file_summaries.len() - i,
    {
        let path = chars_of(file_summaries[i].0.as_str());
        let summary = chars_of(file_summaries[i].1.as_str());
        proof {
            assert(all.take(i + 1).drop_last() =~= all.take(i as int));
            assert(all.take(i + 1).last() == (path@, summary@));
        }
        push_chars(&mut out, chars_of("## ").as_slice());
        push_chars(&mut out, path.as_slice());
        push_chars(&mut out, chars_of("\n").as_slice());
        push_chars(&mut out, trim(summary.as_slice()));
        push_chars(&mut out, chars_of("\n\n").as_slice());
        i += 1;
    }
    assert(all.take(file_summaries.len() as int) =~= all);
    string_of(out.as_slice())
}

// ---------------------------------------------------------------------------
// How long it took
// ---------------------------------------------------------------------------

/// A length of time of so many whole seconds and so many milliseconds
/// beyond them, in minutes, seconds and milliseconds.
pub open spec fn duration_text(total_secs: nat, millis: nat) -> Seq<char> {
    let mins = total_secs / 60;
    let secs = total_secs % 60;
    if mins > 0 {
        decimal(mins) + "m "@ + decimal(secs) + "s "@ + decimal(millis) + "ms"@
    } else if secs > 0 {
        decimal(secs) + "s "@ + decimal(millis) + "ms"@
    } else {
        decimal(millis) + "ms"@
    }
}

pub fn format_duration(total_secs: u64, millis: u32) -> (r: String)
    ensures
        r@ == duration_text(total_secs as nat, millis as nat),
{
    let mins: u64 = total_secs / 60;
    let secs: u64 = total_secs % 60;
    let mut out: Vec<char> = Vec::new();
    if mins > 0 {
        push_chars(&mut out, to_decimal(mins).as_slice());
        push_chars(&mut out, chars_of("m ").as_slice());
    }
    if mins > 0 || secs > 0 {
        push_chars(&mut out, to_decimal(secs).as_slice());
        push_chars(&mut out, chars_of("s ").as_slice());
    }
    push_chars(&mut out, to_decimal(millis as u64).as_slice());
    push_chars(&mut out, chars_of("ms").as_slice());
    proof {
        assert(out@ =~= duration_text(total_secs as nat, millis as nat));
    }
    string_of(out.as_slice())
}

} // verus!
