//! Cutting a source file into overlapping chunks of bounded size.
//!
//! A chunk is a window of consecutive lines. A window is opened at its first
//! line with as many lines as the language's profile allows, and then loses
//! its last line for as long as it holds too many characters or too many
//! estimated tokens; its first line always stays. The next window begins
//! `overlap_lines` before the end of the last one, but always at least one
//! line further on than the last one began.

use crate::language::{language_from_tag, language_of, Language};
use crate::split::{join_range, joined, line_seq, lines, rows, split_whitespace, words};
use crate::text::{chars_of, string_of};
use vstd::prelude::*;

verus! {

/// The size limits of a chunk.
#[derive(Clone, Copy, Debug)]
pub struct ChunkConfig {
    pub max_lines: usize,
    pub overlap_lines: usize,
    pub max_chars: usize,
    pub max_tokens: usize,
}

pub struct SourceChunk {
    pub chunk_id: usize,
    pub start_line: usize,
    pub end_line: usize,
    pub content: String,
}

pub struct SourceIndex {
    pub language: String,
    pub line_count: usize,
    pub chunk_count: usize,
    pub chunks: Vec<SourceChunk>,
}

/// A chunk as specifications speak of it. Lines are numbered from 1, and
/// `end_line` is the number of the chunk's last line.
pub struct ChunkModel {
    pub chunk_id: int,
    pub start_line: int,
    pub end_line: int,
    pub content: Seq<char>,
}

impl View for SourceChunk {
    type V = ChunkModel;

    open spec fn view(&self) -> ChunkModel {
        ChunkModel {
            chunk_id: self.chunk_id as int,
            start_line: self.start_line as int,
            end_line: self.end_line as int,
            content: self.content@,
        }
    }
}

pub open spec fn chunk_models(v: Seq<SourceChunk>) -> Seq<ChunkModel> {
    Seq::new(v.len(), |i: int| v[i]@)
}

// ---------------------------------------------------------------------------
// Profiles
// ---------------------------------------------------------------------------

/// The limits for each language family.
pub open spec fn profile(language: Language) -> ChunkConfig {
    match language {
        Language::Python => ChunkConfig {
            max_lines: 100,
            overlap_lines: 14,
            max_chars: 5200,
            max_tokens: 1100,
        },
        Language::JavaScript | Language::TypeScript => ChunkConfig {
            max_lines: 110,
            overlap_lines: 18,
            max_chars: 5600,
            max_tokens: 1200,
        },
        Language::Java | Language::Kotlin | Language::CSharp => ChunkConfig {
            max_lines: 95,
            overlap_lines: 16,
            max_chars: 5400,
            max_tokens: 1150,
        },
        Language::C | Language::Cpp => ChunkConfig {
            max_lines: 105,
            overlap_lines: 18,
            max_chars: 5600,
            max_tokens: 1200,
        },
        _ => ChunkConfig { max_lines: 120, overlap_lines: 20, max_chars: 6000, max_tokens: 1300 },
    }
}

pub fn chunk_config(language: &str) -> (config: ChunkConfig)
    ensures
        config == profile(language_of(language@)),
{
    match language_from_tag(language) {
        Language::Python => ChunkConfig {
            max_lines: 100,
            overlap_lines: 14,
            max_chars: 5200,
            max_tokens: 1100,
        },
        Language::JavaScript | Language::TypeScript => ChunkConfig {
            max_lines: 110,
            overlap_lines: 18,
            max_chars: 5600,
            max_tokens: 1200,
        },
        Language::Java | Language::Kotlin | Language::CSharp => ChunkConfig {
            max_lines: 95,
            overlap_lines: 16,
            max_chars: 5400,
            max_tokens: 1150,
        },
        Language::C | Language::Cpp => ChunkConfig {
            max_lines: 105,
            overlap_lines: 18,
            max_chars: 5600,
            max_tokens: 1200,
        },
        _ => ChunkConfig { max_lines: 120, overlap_lines: 20, max_chars: 6000, max_tokens: 1300 },
    }
}

// ---------------------------------------------------------------------------
// Sizes
// ---------------------------------------------------------------------------

/// The estimated tokens of one line: a quarter of its characters, rounded
/// up, or half of its words plus one, whichever is more.
pub open spec fn line_tokens(line: Seq<char>) -> nat {
    let by_chars = (line.len() + 3) / 4;
    let by_words = words(line).len() / 2 + 1;
    if by_chars >= by_words {
        by_chars as nat
    } else {
        by_words as nat
    }
}

/// The estimated tokens of some lines: the sum of their estimates.
pub open spec fn token_estimate(ls: Seq<Seq<char>>) -> nat
    decreases ls.len(),
{
    if ls.len() == 0 {
        0
    } else {
        token_estimate(ls.drop_last()) + line_tokens(ls.last())
    }
}

/// The characters of some lines, each counted with its line end.
pub open spec fn char_load(ls: Seq<Seq<char>>) -> nat
    decreases ls.len(),
{
    if ls.len() == 0 {
        0
    } else {
        char_load(ls.drop_last()) + ls.last().len() + 1
    }
}

/// The lines `start..end` are within both budgets.
pub open spec fn fits(ls: Seq<Seq<char>>, config: ChunkConfig, start: int, end: int) -> bool {
    &&& char_load(ls.subrange(start, end)) <= config.max_chars
    &&& token_estimate(ls.subrange(start, end)) <= config.max_tokens
}

fn tokens_of_line(line: &Vec<char>) -> (t: usize)
    ensures
        t == line_tokens(line@),
{
    let n: usize = line.len();
    let by_chars: usize = n / 4 + (if n % 4 != 0 {
        1
    } else {
        0
    });
    let w = split_whitespace(line.as_slice());
    assert(rows(w@).len() == w@.len());
    let by_words: usize = w.len() / 2 + 1;
    if by_chars >= by_words {
        by_chars
    } else {
        by_words
    }
}

/// The estimated tokens of the lines `from..to`.
pub fn estimate_tokens(ls: &Vec<Vec<char>>, from: usize, to: usize) -> (total: u128)
    requires
        from <= to <= ls.len(),
    ensures
        total == token_estimate(rows(ls@).subrange(from as int, to as int)),
{
    let mut total: u128 = 0;
    let mut i: usize = from;
    let ghost all = rows(ls@);
    while i < to
        invariant
            from <= i <= to <= ls.len(),
            all == rows(ls@),
            total == token_estimate(all.subrange(from as int, i as int)),
            total <= (i - from) * 0x1_0000_0000_0000_0000,
        decreases to - i,
    {
        let t = tokens_of_line(&ls[i]);
        proof {
            let next = all.subrange(from as int, i + 1);
            assert(next.drop_last() =~= all.subrange(from as int, i as int));
            assert(next.last() == ls@[i as int]@);
        }
        total = total + t as u128;
        i += 1;
    }
    total
}

/// The characters of the lines `from..to`, each counted with its line end.
fn measure_chars(ls: &Vec<Vec<char>>, from: usize, to: usize) -> (total: u128)
    requires
        from <= to <= ls.len(),
    ensures
        total == char_load(rows(ls@).subrange(from as int, to as int)),
{
    let mut total: u128 = 0;
    let mut i: usize = from;
    let ghost all = rows(ls@);
    while i < to
        invariant
            from <= i <= to <= ls.len(),
            all == rows(ls@),
            total == char_load(all.subrange(from as int, i as int)),
            total <= (i - from) * 0x1_0000_0000_0000_0000,
        decreases to - i,
    {
        let n: usize = ls[i].len();
        proof {
            let next = all.subrange(from as int, i + 1);
            assert(next.drop_last() =~= all.subrange(from as int, i as int));
            assert(next.last() == ls@[i as int]@);
        }
        total = total + n as u128 + 1;
        i += 1;
    }
    total
}

fn window_fits(ls: &Vec<Vec<char>>, config: &ChunkConfig, start: usize, end: usize) -> (r: bool)
    requires
        start <= end <= ls.len(),
    ensures
        r == fits(rows(ls@), *config, start as int, end as int),
{
    measure_chars(ls, start, end) <= config.max_chars as u128 && estimate_tokens(ls, start, end)
        <= config.max_tokens as u128
}

// ---------------------------------------------------------------------------
// Windows
// ---------------------------------------------------------------------------

/// The window `start..end` after it has lost its last line for as long as
/// it does not fit: the largest fitting end, or `start` if there is none.
pub open spec fn shrunk(ls: Seq<Seq<char>>, config: ChunkConfig, start: int, end: int) -> int
    decreases end - start,
{
    if end <= start {
        start
    } else if fits(ls, config, start, end) {
        end
    } else {
        shrunk(ls, config, start, end - 1)
    }
}

/// Where the window that begins at line index `start` ends (exclusive).
pub open spec fn window_end(ls: Seq<Seq<char>>, config: ChunkConfig, start: int) -> int {
    let top = if start + config.max_lines <= ls.len() {
        start + config.max_lines
    } else {
        ls.len() as int
    };
    let end = shrunk(ls, config, start, top);
    if end <= start {
        start + 1
    } else {
        end
    }
}

/// Where the window after `start..end` begins.
pub open spec fn next_start(config: ChunkConfig, start: int, end: int) -> int {
    if config.overlap_lines <= end - start - 1 {
        end - config.overlap_lines
    } else {
        start + 1
    }
}

pub proof fn lemma_shrunk_bounds(ls: Seq<Seq<char>>, config: ChunkConfig, start: int, end: int)
    requires
        start <= end,
    ensures
        start <= shrunk(ls, config, start, end) <= end,
    decreases end - start,
{
    if end > start && !fits(ls, config, start, end) {
        lemma_shrunk_bounds(ls, config, start, end - 1);
    }
}

/// A window holds at least its first line and ends inside the file.
pub proof fn lemma_window_bounds(ls: Seq<Seq<char>>, config: ChunkConfig, start: int)
    requires
        0 <= start < ls.len(),
    ensures
        start < window_end(ls, config, start) <= ls.len(),
        start < next_start(config, start, window_end(ls, config, start)) <= window_end(
            ls,
            config,
            start,
        ),
{
    let top = if start + config.max_lines <= ls.len() {
        start + config.max_lines
    } else {
        ls.len() as int
    };
    lemma_shrunk_bounds(ls, config, start, top);
}

/// The chunks of the lines from index `start` on, numbered from `id`.
pub open spec fn chunks_from(ls: Seq<Seq<char>>, config: ChunkConfig, start: int, id: int) -> Seq<
    ChunkModel,
>
    decreases ls.len() - start,
{
    if start < 0 || start >= ls.len() {
        Seq::empty()
    } else {
        let end = window_end(ls, config, start);
        let chunk = ChunkModel {
            chunk_id: id,
            start_line: start + 1,
            end_line: end,
            content: joined(ls.subrange(start, end), seq!['\n']),
        };
        if end >= ls.len() {
            seq![chunk]
        } else {
            proof {
                lemma_window_bounds(ls, config, start);
            }
            seq![chunk] + chunks_from(ls, config, next_start(config, start, end), id + 1)
        }
    }
}

/// The chunks of a file's lines.
pub open spec fn chunks_of(ls: Seq<Seq<char>>, config: ChunkConfig) -> Seq<ChunkModel> {
    chunks_from(ls, config, 0, 0)
}

// ---------------------------------------------------------------------------
// What holds of every chunking
// ---------------------------------------------------------------------------

/// What the chunks from `start` on look like: they are numbered in sequence,
/// the first begins at line `start + 1`, the last ends at the last line,
/// each holds at least one line, each begins after the one before it began,
/// and none leaves a line out between itself and the one before it.
pub proof fn lemma_chunks_from(ls: Seq<Seq<char>>, config: ChunkConfig, start: int, id: int)
    requires
        0 <= start < ls.len(),
    ensures
        ({
            let cs = chunks_from(ls, config, start, id);
            &&& cs.len() >= 1
            &&& cs[0].start_line == start + 1
            &&& cs.last().end_line == ls.len()
            &&& forall|i: int| 0 <= i < cs.len() ==> (#[trigger] cs[i]).chunk_id == id + i
            &&& forall|i: int|
                0 <= i < cs.len() ==> start + 1 <= (#[trigger] cs[i]).start_line <= cs[i].end_line
                    <= ls.len()
            &&& forall|i: int|
                0 <= i < cs.len() - 1 ==> (#[trigger] cs[i]).start_line < cs[i + 1].start_line
                    <= cs[i].end_line + 1
            &&& forall|i: int|
                0 <= i < cs.len() - 1 ==> (#[trigger] cs[i]).end_line <= cs[i + 1].end_line
            &&& forall|i: int|
                0 <= i < cs.len() - 1 && config.overlap_lines >= 1 && (#[trigger] cs[i]).end_line
                    > cs[i].start_line ==> cs[i + 1].start_line <= cs[i].end_line
            &&& forall|i: int|
                0 <= i < cs.len() ==> (#[trigger] cs[i]).content == joined(
                    ls.subrange(cs[i].start_line - 1, cs[i].end_line),
                    seq!['\n'],
                )
        }),
    decreases ls.len() - start,
{
    lemma_window_bounds(ls, config, start);
    let end = window_end(ls, config, start);
    let cs = chunks_from(ls, config, start, id);
    if end < ls.len() {
        let ns = next_start(config, start, end);
        lemma_chunks_from(ls, config, ns, id + 1);
        lemma_window_bounds(ls, config, ns);
        let rest = chunks_from(ls, config, ns, id + 1);
        assert(cs.len() == rest.len() + 1);
        assert(forall|i: int| 1 <= i < cs.len() ==> cs[i] == rest[i - 1]);
        assert(cs.last() == rest.last());
        assert forall|i: int| 0 <= i < cs.len() - 1 implies (#[trigger] cs[i]).end_line <= cs[i
            + 1].end_line by {
            if i == 0 {
                assert(cs[1] == rest[0]);
                assert(rest[0].end_line == window_end(ls, config, ns));
                lemma_window_end_monotone(ls, config, start, ns);
            } else {
                assert(cs[i] == rest[i - 1]);
                assert(cs[i + 1] == rest[i]);
            }
        }
        assert forall|i: int| 0 <= i < cs.len() - 1 implies (#[trigger] cs[i]).start_line < cs[i
            + 1].start_line <= cs[i].end_line + 1 by {
            if i > 0 {
                assert(cs[i] == rest[i - 1]);
                assert(cs[i + 1] == rest[i]);
            }
        }
        assert forall|i: int|
            0 <= i < cs.len() - 1 && config.overlap_lines >= 1 && (#[trigger] cs[i]).end_line
                > cs[i].start_line implies cs[i + 1].start_line <= cs[i].end_line by {
            if i > 0 {
                assert(cs[i] == rest[i - 1]);
                assert(cs[i + 1] == rest[i]);
            }
        }
    }
}

/// A window that begins later does not end earlier: the chunks' ends never
/// go back.
pub proof fn lemma_window_end_monotone(
    ls: Seq<Seq<char>>,
    config: ChunkConfig,
    start: int,
    later: int,
)
    requires
        0 <= start < ls.len(),
        start < later <= window_end(ls, config, start),
        later < ls.len(),
    ensures
        window_end(ls, config, start) <= window_end(ls, config, later),
{
    let end = window_end(ls, config, start);
    let top0 = if start + config.max_lines <= ls.len() {
        start + config.max_lines
    } else {
        ls.len() as int
    };
    let top1 = if later + config.max_lines <= ls.len() {
        later + config.max_lines
    } else {
        ls.len() as int
    };
    lemma_shrunk_bounds(ls, config, start, top0);
    lemma_shrunk_bounds(ls, config, later, top1);
    if later < end {
        // The first window fits as far as `end`, so its tail from `later` fits too.
        lemma_shrunk_fits(ls, config, start, top0);
        assert(fits(ls, config, start, end));
        lemma_load_tail(ls, start, later, end);
        assert(fits(ls, config, later, end));
        lemma_shrunk_reaches(ls, config, later, top1, end);
    }
}

/// What `shrunk` returns fits, unless it is the empty window.
pub proof fn lemma_shrunk_fits(ls: Seq<Seq<char>>, config: ChunkConfig, start: int, end: int)
    requires
        start <= end,
    ensures
        shrunk(ls, config, start, end) > start ==> fits(
            ls,
            config,
            start,
            shrunk(ls, config, start, end),
        ),
    decreases end - start,
{
    if end > start && !fits(ls, config, start, end) {
        lemma_shrunk_fits(ls, config, start, end - 1);
    }
}

/// `shrunk` stops at or above every fitting end below its top.
pub proof fn lemma_shrunk_reaches(
    ls: Seq<Seq<char>>,
    config: ChunkConfig,
    start: int,
    top: int,
    end: int,
)
    requires
        start < end <= top,
        fits(ls, config, start, end),
    ensures
        shrunk(ls, config, start, top) >= end,
    decreases top - end,
{
    if top > end && !fits(ls, config, start, top) {
        lemma_shrunk_reaches(ls, config, start, top - 1, end);
    }
}

/// The sizes of `from..to` are the sizes of `from..mid` and `mid..to` together.
pub proof fn lemma_load_split(ls: Seq<Seq<char>>, from: int, mid: int, to: int)
    requires
        0 <= from <= mid <= to <= ls.len(),
    ensures
        char_load(ls.subrange(from, to)) == char_load(ls.subrange(from, mid)) + char_load(
            ls.subrange(mid, to),
        ),
        token_estimate(ls.subrange(from, to)) == token_estimate(ls.subrange(from, mid))
            + token_estimate(ls.subrange(mid, to)),
    decreases to - mid,
{
    if to > mid {
        lemma_load_split(ls, from, mid, to - 1);
        assert(ls.subrange(from, to).drop_last() =~= ls.subrange(from, to - 1));
        assert(ls.subrange(mid, to).drop_last() =~= ls.subrange(mid, to - 1));
        assert(ls.subrange(from, to).last() == ls.subrange(mid, to).last());
    } else {
        assert(ls.subrange(mid, to) =~= Seq::<Seq<char>>::empty());
    }
}

/// Lines that fit still fit without some of their first lines.
pub proof fn lemma_load_tail(ls: Seq<Seq<char>>, from: int, mid: int, to: int)
    requires
        0 <= from <= mid <= to <= ls.len(),
    ensures
        char_load(ls.subrange(mid, to)) <= char_load(ls.subrange(from, to)),
        token_estimate(ls.subrange(mid, to)) <= token_estimate(ls.subrange(from, to)),
{
    lemma_load_split(ls, from, mid, to);
}

/// The chunks of a file that has lines cover it: the first begins at line
/// 1, the last ends at the last line, every chunk begins no later than it
/// ends, and each begins at most one line after the one before it ended, so
/// that no line is left out.
pub proof fn lemma_chunks_cover(ls: Seq<Seq<char>>, config: ChunkConfig)
    requires
        ls.len() > 0,
    ensures
        ({
            let cs = chunks_of(ls, config);
            &&& cs.len() >= 1
            &&& cs[0].start_line == 1
            &&& cs.last().end_line == ls.len()
            &&& forall|i: int|
                0 <= i < cs.len() ==> 1 <= (#[trigger] cs[i]).start_line <= cs[i].end_line
                    <= ls.len()
            &&& forall|i: int|
                0 <= i < cs.len() - 1 ==> (#[trigger] cs[i]).start_line < cs[i + 1].start_line
                    <= cs[i].end_line + 1
        }),
{
    lemma_chunks_from(ls, config, 0, 0);
}

/// Every line of a file that has lines lies in some chunk.
pub proof fn lemma_every_line_chunked(ls: Seq<Seq<char>>, config: ChunkConfig, line: int)
    requires
        1 <= line <= ls.len(),
    ensures
        exists|i: int|
            0 <= i < chunks_of(ls, config).len() && (#[trigger] chunks_of(ls, config)[i]).start_line
                <= line <= chunks_of(ls, config)[i].end_line,
{
    let cs = chunks_of(ls, config);
    lemma_chunks_from(ls, config, 0, 0);
    lemma_line_in_prefix(cs, line, cs.len() - 1);
}

/// Among chunks that begin at line 1 and leave no gaps, a line up to the end
/// of chunk `k` lies in one of the chunks up to `k`.
proof fn lemma_line_in_prefix(cs: Seq<ChunkModel>, line: int, k: int)
    requires
        0 <= k < cs.len(),
        cs[0].start_line == 1,
        1 <= line <= cs[k].end_line,
        forall|i: int| 0 <= i < cs.len() - 1 ==> (#[trigger] cs[i]).start_line < cs[i + 1].start_line
            <= cs[i].end_line + 1,
    ensures
        exists|i: int| 0 <= i <= k && (#[trigger] cs[i]).start_line <= line <= cs[i].end_line,
    decreases k,
{
    if cs[k].start_line <= line {
        assert(cs[k].start_line <= line <= cs[k].end_line);
    } else {
        assert(k > 0);
        assert(cs[k - 1].start_line < cs[k].start_line <= cs[k - 1].end_line + 1);
        lemma_line_in_prefix(cs, line, k - 1);
    }
}

/// Two chunks in a row share a line whenever the profile asks for an overlap
/// and the first of them holds more than one line. A chunk of a single line
/// is followed by the line after it.
pub proof fn lemma_chunks_overlap(ls: Seq<Seq<char>>, config: ChunkConfig, i: int)
    requires
        0 <= i < chunks_of(ls, config).len() - 1,
    ensures
        ({
            let cs = chunks_of(ls, config);
            &&& config.overlap_lines >= 1 && cs[i].end_line > cs[i].start_line ==> cs[i
                + 1].start_line <= cs[i].end_line
            &&& cs[i].end_line == cs[i].start_line ==> cs[i + 1].start_line == cs[i].end_line + 1
        }),
{
    if ls.len() > 0 {
        lemma_chunks_from(ls, config, 0, 0);
        let cs = chunks_of(ls, config);
        assert(cs[i].start_line < cs[i + 1].start_line <= cs[i].end_line + 1);
    }
}

// ---------------------------------------------------------------------------
// Building the index
// ---------------------------------------------------------------------------

/// Where the window that begins at `start` ends.
fn find_window_end(ls: &Vec<Vec<char>>, config: &ChunkConfig, start: usize) -> (end: usize)
    requires
        start < ls.len(),
    ensures
        end == window_end(rows(ls@), *config, start as int),
        start < end <= ls.len(),
{
    let n: usize = ls.len();
    let top: usize = if config.max_lines <= n - start {
        start + config.max_lines
    } else {
        n
    };
    let mut end: usize = top;
    let ghost all = rows(ls@);
    while end > start && !window_fits(ls, config, start, end)
        invariant
            start <= end <= top <= ls.len(),
            all == rows(ls@),
            shrunk(all, *config, start as int, top as int) == shrunk(
                all,
                *config,
                start as int,
                end as int,
            ),
        decreases end - start,
    {
        end -= 1;
    }
    if end == start {
        start + 1
    } else {
        end
    }
}

/// The chunks of `source`, cut with the profile of `language`.
pub fn build_source_index(source: &str, language: &str) -> (index: SourceIndex)
    ensures
        index.language@ == language@,
        index.line_count == line_seq(source@).len(),
        index.chunk_count == index.chunks.len(),
        chunk_models(index.chunks@) == chunks_of(
            line_seq(source@),
            profile(language_of(language@)),
        ),
{
    let config = chunk_config(language);
    let text = chars_of(source);
    let ls = lines(text.as_slice());
    let n: usize = ls.len();
    let ghost all = rows(ls@);
    let mut chunks: Vec<SourceChunk> = Vec::new();
    let mut start: usize = 0;
    let newline: Vec<char> = vec!['\n'];
    proof {
        assert(newline@ =~= seq!['\n']);
        assert(chunk_models(chunks@) =~= Seq::<ChunkModel>::empty());
        assert(chunk_models(chunks@) + chunks_from(all, config, 0, 0) =~= chunks_of(all, config));
    }
    while start < n
        invariant
            n == ls.len(),
            all == rows(ls@),
            start <= n,
            newline@ == seq!['\n'],
            chunk_models(chunks@) + chunks_from(all, config, start as int, chunks.len() as int)
                == chunks_of(all, config),
            chunks.len() <= start,
        decreases n - start,
    {
        let end = find_window_end(&ls, &config, start);
        let content = join_range(&ls, start, end, newline.as_slice());
        let chunk = SourceChunk {
            chunk_id: chunks.len(),
            start_line: start + 1,
            end_line: end,
            content: string_of(content.as_slice()),
        };
        let ghost before = chunks@;
        let ghost rest = chunks_from(all, config, start as int, before.len() as int);
        chunks.push(chunk);
        proof {
            lemma_window_bounds(all, config, start as int);
            assert(chunk_models(chunks@) =~= chunk_models(before).push(chunk@));
            assert(rest[0] == chunk@);
        }
        if end >= n {
            proof {
                assert(rest =~= seq![chunk@]);
                assert(chunks_from(all, config, n as int, chunks.len() as int)
                    =~= Seq::<ChunkModel>::empty());
                assert(chunk_models(chunks@) + chunks_from(all, config, n as int, chunks.len() as int)
                    =~= chunk_models(before) + rest);
            }
            start = n;
        } else {
            let keep: usize = if config.overlap_lines <= end - start - 1 {
                config.overlap_lines
            } else {
                end - start - 1
            };
            let ghost next = next_start(config, start as int, end as int);
            proof {
                assert(end - keep == next);
                assert(rest =~= seq![chunk@] + chunks_from(all, config, next, before.len() as int + 1));
                assert(chunk_models(chunks@) + chunks_from(all, config, next, chunks.len() as int)
                    =~= chunk_models(before) + rest);
            }
            start = end - keep;
        }
    }
    proof {
        assert(chunks_from(all, config, start as int, chunks.len() as int)
            =~= Seq::<ChunkModel>::empty());
        assert(chunk_models(chunks@) + Seq::<ChunkModel>::empty() =~= chunk_models(chunks@));
    }
    SourceIndex {
        language: string_of(chars_of(language).as_slice()),
        line_count: n,
        chunk_count: chunks.len(),
        chunks,
    }
}

} // verus!
