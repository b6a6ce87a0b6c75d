//! What the generator's tools hand out of the stored index and memory.
//!
//! The tools themselves read files and speak JSON; here is what they
//! decide: which chunks of a file are handed out and how much of them, and
//! how much of the relevant memory.

use crate::json::{field_models, render_json, rendered, Json, JsonModel};
use crate::memory::file_memory::capped;
use crate::memory::relevance::{RelevantMemory, RelevantModel};
use crate::memory::types::{global_models, item_models, link_models};
use crate::source_indexer::{chunk_models, ChunkModel, SourceChunk};
use crate::text::{chars_of, ends_with, has_suffix, same_text};
use crate::workflow::context::{
    chunk_values, chunks_json, key, number, number_of, object, text, text_of,
};
use crate::workflow::generate::{clip_text, clipped_chunk};
use vstd::prelude::*;

verus! {

/// The fewest characters of source that a tool hands out at most.
pub const MIN_SOURCE_CHARS: usize = 400;

/// The most characters of source that a tool hands out.
pub const MAX_SOURCE_CHARS: usize = 12000;

/// The characters of source handed out when no number is asked for.
pub const DEFAULT_SOURCE_CHARS: usize = 3500;

/// The path names a stored project memory.
pub fn is_memory_file(path: &str) -> (r: bool)
    ensures
        r == has_suffix(path@, ".memory.json"@),
{
    ends_with(chars_of(path).as_slice(), chars_of(".memory.json").as_slice())
}

/// The path names a stored source index.
pub fn is_source_index_file(path: &str) -> (r: bool)
    ensures
        r == has_suffix(path@, ".source_index.json"@),
{
    ends_with(chars_of(path).as_slice(), chars_of(".source_index.json").as_slice())
}

/// How many characters of source are handed out at most: what is asked
/// for, but no fewer than 400 and no more than 12000; 3500 if nothing is
/// asked for.
pub open spec fn cap_of(max_chars: Option<usize>) -> usize {
    match max_chars {
        Some(n) => if n < MIN_SOURCE_CHARS {
            MIN_SOURCE_CHARS
        } else if n > MAX_SOURCE_CHARS {
            MAX_SOURCE_CHARS
        } else {
            n
        },
        None => DEFAULT_SOURCE_CHARS,
    }
}

pub fn source_cap(max_chars: Option<usize>) -> (cap: usize)
    ensures
        cap == cap_of(max_chars),
{
    match max_chars {
        Some(n) => {
            if n < MIN_SOURCE_CHARS {
                MIN_SOURCE_CHARS
            } else if n > MAX_SOURCE_CHARS {
                MAX_SOURCE_CHARS
            } else {
                n
            }
        },
        None => DEFAULT_SOURCE_CHARS,
    }
}

/// The chunks that are handed out when none are asked for: the first two.
pub fn default_chunk_ids() -> (ids: Vec<usize>)
    ensures
        ids@ == seq![0usize, 1usize],
{
    vec![0, 1]
}

/// The first chunk with the given number, looked for from `from` on.
pub open spec fn chunk_with_id(chunks: Seq<ChunkModel>, id: int, from: int) -> Option<ChunkModel>
    decreases chunks.len() - from,
{
    if from < 0 || from >= chunks.len() {
        None
    } else if chunks[from].chunk_id == id {
        Some(chunks[from])
    } else {
        chunk_with_id(chunks, id, from + 1)
    }
}

/// The chunks that are handed out for the numbers asked for, in the order
/// asked, when `total` characters have been handed out already. A number
/// that no chunk has is passed over. A chunk is cut to what is left of
/// `cap`, and once nothing is left no chunk follows.
pub open spec fn selection(chunks: Seq<ChunkModel>, wanted: Seq<usize>, cap: nat, total: nat) -> Seq<
    ChunkModel,
>
    decreases wanted.len(),
{
    if wanted.len() == 0 {
        Seq::empty()
    } else {
        match chunk_with_id(chunks, wanted[0] as int, 0) {
            None => selection(chunks, wanted.drop_first(), cap, total),
            Some(chunk) => if total >= cap {
                Seq::empty()
            } else {
                let cut = clipped_chunk(chunk, cap - total);
                seq![cut] + selection(
                    chunks,
                    wanted.drop_first(),
                    cap,
                    total + cut.content.len(),
                )
            },
        }
    }
}

/// The characters of the chunks together.
pub open spec fn content_chars(chunks: Seq<ChunkModel>) -> nat
    decreases chunks.len(),
{
    if chunks.len() == 0 {
        0
    } else {
        content_chars(chunks.drop_last()) + chunks.last().content.len()
    }
}

fn find_chunk(chunks: &Vec<SourceChunk>, id: usize) -> (r: Option<usize>)
    ensures
        match r {
            Some(i) => i < chunks@.len() && chunk_with_id(chunk_models(chunks@), id as int, 0)
                == Some(chunks@[i as int]@),
            None => chunk_with_id(chunk_models(chunks@), id as int, 0) is None,
        },
{
    let ghost all = chunk_models(chunks@);
    let mut i: usize = 0;
    while i < chunks.len()
        invariant
            i <= chunks.len(),
            all == chunk_models(chunks@),
            chunk_with_id(all, id as int, 0) == chunk_with_id(all, id as int, i as int),
        decreases chunks.len() - i,
    {
        assert(all[i as int] == chunks@[i as int]@);
        if chunks[i].chunk_id == id {
            return Some(i);
        }
        i += 1;
    }
    None
}

/// The chunks of a file that are handed out, and how many characters they
/// hold together.
pub fn select_chunks(chunks: &Vec<SourceChunk>, wanted: &Vec<usize>, cap: usize) -> (r: (
    Vec<SourceChunk>,
    usize,
))
    requires
        cap + 3 <= usize::MAX,
    ensures
        chunk_models(r.0@) == selection(chunk_models(chunks@), wanted@, cap as nat, 0),
        r.1 == content_chars(chunk_models(r.0@)),
        r.1 <= cap + 3,
{
    let ghost all = chunk_models(chunks@);
    let mut out: Vec<SourceChunk> = Vec::new();
    let mut total: usize = 0;
    let mut i: usize = 0;
    proof {
        assert(wanted@.skip(0) =~= wanted@);
        assert(chunk_models(out@) =~= Seq::<ChunkModel>::empty());
        assert(chunk_models(out@) + selection(all, wanted@.skip(0), cap as nat, 0) =~= selection(
            all,
            wanted@,
            cap as nat,
            0,
        ));
        reveal_strlit("...");
    }
    while i < wanted.len()
        invariant
            i <= wanted.len(),
            all == chunk_models(chunks@),
            total == content_chars(chunk_models(out@)),
            total <= cap + 3,
            cap + 3 <= usize::MAX,
            "..."@.len() == 3,
            chunk_models(out@) + selection(all, wanted@.skip(i as int), cap as nat, total as nat)
                == selection(all, wanted@, cap as nat, 0),
        decreases wanted.len() - i,
    {
        let ghost rest = wanted@.skip(i as int);
        proof {
            assert(rest[0] == wanted@[i as int]);
            assert(rest.drop_first() =~= wanted@.skip(i + 1));
        }
        match find_chunk(chunks, wanted[i]) {
            None => {},
            Some(at) => {
                if total >= cap {
                    proof {
                        assert(selection(all, rest, cap as nat, total as nat)
                            =~= Seq::<ChunkModel>::empty());
                        assert(chunk_models(out@) + Seq::<ChunkModel>::empty() =~= chunk_models(
                            out@,
                        ));
                    }
                    return (out, total);
                }
                let chunk = &chunks[at];
                let remaining: usize = cap - total;
                let content = clip_text(chunk.content.as_str(), remaining);
                let n: usize = chars_of(content.as_str()).len();
                let cut = SourceChunk {
                    chunk_id: chunk.chunk_id,
                    start_line: chunk.start_line,
                    end_line: chunk.end_line,
                    content,
                };
                let ghost before = out@;
                out.push(cut);
                proof {
                    assert(cut@ == clipped_chunk(chunk@, remaining as int));
                    assert(chunk_models(out@) =~= chunk_models(before).push(cut@));
                    assert(chunk_models(out@).drop_last() =~= chunk_models(before));
                    assert(n <= remaining + 3);
                    assert(chunk_models(out@) + selection(
                        all,
                        wanted@.skip(i + 1),
                        cap as nat,
                        (total + n) as nat,
                    ) =~= chunk_models(before) + (seq![cut@] + selection(
                        all,
                        wanted@.skip(i + 1),
                        cap as nat,
                        (total + n) as nat,
                    )));
                }
                total = total + n;
            },
        }
        i += 1;
    }
    proof {
        assert(selection(all, wanted@.skip(wanted@.len() as int), cap as nat, total as nat)
            =~= Seq::<ChunkModel>::empty());
        assert(chunk_models(out@) + Seq::<ChunkModel>::empty() =~= chunk_models(out@));
    }
    (out, total)
}

/// The most symbols, open items and links that a tool hands out.
pub const MAX_TOOL_SYMBOLS: usize = 200;

pub const MAX_TOOL_ITEMS: usize = 100;

pub const MAX_TOOL_LINKS: usize = 200;

/// A cap that is asked for, held below the tool's own cap.
pub open spec fn tool_cap(asked: Option<usize>, most: usize) -> Option<int> {
    match asked {
        Some(n) => Some(if n < most {
            n as int
        } else {
            most as int
        }),
        None => None,
    }
}

pub open spec fn capped_by<T>(s: Seq<T>, cap: Option<int>) -> Seq<T> {
    match cap {
        Some(n) => capped(s, n),
        None => s,
    }
}

/// The relevant memory cut to the caps that are asked for.
pub fn clip_relevant(
    relevant: RelevantMemory,
    max_global_symbols: Option<usize>,
    max_open_items: Option<usize>,
    max_links: Option<usize>,
) -> (r: RelevantMemory)
    ensures
        r@ == (RelevantModel {
            file_count: relevant@.file_count,
            unique_symbol_count: relevant@.unique_symbol_count,
            global_symbols: capped_by(
                relevant@.global_symbols,
                tool_cap(max_global_symbols, MAX_TOOL_SYMBOLS),
            ),
            open_items: capped_by(relevant@.open_items, tool_cap(max_open_items, MAX_TOOL_ITEMS)),
            links: capped_by(relevant@.links, tool_cap(max_links, MAX_TOOL_LINKS)),
        }),
{
    let mut r = relevant;
    match max_global_symbols {
        Some(limit) => {
            let n: usize = if limit < MAX_TOOL_SYMBOLS {
                limit
            } else {
                MAX_TOOL_SYMBOLS
            };
            if r.global_symbols.len() > n {
                let ghost before = r.global_symbols@;
                r.global_symbols.truncate(n);
                assert(global_models(r.global_symbols@) =~= global_models(before).take(n as int));
            }
        },
        None => {},
    }
    match max_open_items {
        Some(limit) => {
            let n: usize = if limit < MAX_TOOL_ITEMS {
                limit
            } else {
                MAX_TOOL_ITEMS
            };
            if r.open_items.len() > n {
                let ghost before = r.open_items@;
                r.open_items.truncate(n);
                assert(item_models(r.open_items@) =~= item_models(before).take(n as int));
            }
        },
        None => {},
    }
    match max_links {
        Some(limit) => {
            let n: usize = if limit < MAX_TOOL_LINKS {
                limit
            } else {
                MAX_TOOL_LINKS
            };
            if r.links.len() > n {
                let ghost before = r.links@;
                r.links.truncate(n);
                assert(link_models(r.links@) =~= link_models(before).take(n as int));
            }
        },
        None => {},
    }
    r
}

// ---------------------------------------------------------------------------
// Answers
// ---------------------------------------------------------------------------

/// The text of a value; if it cannot be written, what stands in the way.
pub open spec fn shown(value: JsonModel) -> Seq<char> {
    match rendered(value) {
        Ok(text) => text,
        Err(problem) => problem,
    }
}

fn show(value: &Json) -> (r: String)
    ensures
        r@ == shown(value.model()),
{
    match render_json(value) {
        Ok(text) => text,
        Err(problem) => problem,
    }
}

/// The answer of a tool that could not do what it was asked for.
pub open spec fn error_value(message: Seq<char>) -> JsonModel {
    JsonModel::Object(seq![("error"@, text_of(message))])
}

pub fn tool_error(message: &str) -> (r: String)
    ensures
        r@ == shown(error_value(message@)),
{
    let mut fields: Vec<(String, Json)> = Vec::new();
    fields.push((key("error"), text(message)));
    let value = object(fields);
    assert(field_models(fields@) =~= error_value(message@)->Object_0);
    show(&value)
}

/// The answer for a file that the source index does not hold.
pub open spec fn missing_file_value(file_path: Seq<char>) -> JsonModel {
    JsonModel::Object(
        seq![
            ("error"@, text_of("file not found in source index"@)),
            ("file_path"@, text_of(file_path)),
        ],
    )
}

pub fn missing_file_answer(file_path: &str) -> (r: String)
    ensures
        r@ == shown(missing_file_value(file_path@)),
{
    let mut fields: Vec<(String, Json)> = Vec::new();
    fields.push((key("error"), text("file not found in source index")));
    fields.push((key("file_path"), text(file_path)));
    let value = object(fields);
    assert(field_models(fields@) =~= missing_file_value(file_path@)->Object_0);
    show(&value)
}

/// A file as the source index holds it.
pub struct StoredSource {
    pub path: String,
    pub language: String,
    pub line_count: usize,
    pub chunk_count: usize,
    pub chunks: Vec<SourceChunk>,
}

/// The index of the first file with the path; the number of files where
/// there is none.
pub open spec fn stored_at(files: Seq<StoredSource>, path: Seq<char>, from: int) -> int
    decreases files.len() - from,
{
    if from < 0 || from >= files.len() {
        files.len() as int
    } else if files[from].path@ == path {
        from
    } else {
        stored_at(files, path, from + 1)
    }
}

pub fn find_stored(files: &Vec<StoredSource>, file_path: &str) -> (r: Option<usize>)
    ensures
        match r {
            Some(i) => i < files.len() && i == stored_at(files@, file_path@, 0),
            None => stored_at(files@, file_path@, 0) == files.len(),
        },
{
    let mut i: usize = 0;
    while i < files.len()
        invariant
            i <= files.len(),
            stored_at(files@, file_path@, 0) == stored_at(files@, file_path@, i as int),
        decreases files.len() - i,
    {
        if same_text(files[i].path.as_str(), file_path) {
            return Some(i);
        }
        i += 1;
    }
    None
}

/// What is handed out of a file: what the index says of it, and of the
/// chunks asked for as much as the cap allows.
pub open spec fn source_value(file: StoredSource, wanted: Seq<usize>, cap: nat) -> JsonModel {
    let chosen = selection(chunk_models(file.chunks@), wanted, cap, 0);
    JsonModel::Object(
        seq![
            ("path"@, text_of(file.path@)),
            ("language"@, text_of(file.language@)),
            ("line_count"@, number_of(file.line_count as int)),
            ("chunk_count"@, number_of(file.chunk_count as int)),
            ("returned_chunk_count"@, number_of(chosen.len() as int)),
            ("returned_chars"@, number_of(content_chars(chosen) as int)),
            ("chunks"@, chunk_values(chosen)),
        ],
    )
}

/// The answer of the tool that hands out the source of a file.
pub fn file_source_answer(
    file: &StoredSource,
    chunk_ids: Option<Vec<usize>>,
    max_chars: Option<usize>,
) -> (r: String)
    ensures
        r@ == shown(
            source_value(
                *file,
                match chunk_ids {
                    Some(ids) => ids@,
                    None => seq![0usize, 1usize],
                },
                cap_of(max_chars) as nat,
            ),
        ),
{
    let wanted = match chunk_ids {
        Some(ids) => ids,
        None => default_chunk_ids(),
    };
    let cap = source_cap(max_chars);
    let (chosen, total) = select_chunks(&file.chunks, &wanted, cap);
    let mut fields: Vec<(String, Json)> = Vec::new();
    fields.push((key("path"), text(file.path.as_str())));
    fields.push((key("language"), text(file.language.as_str())));
    fields.push((key("line_count"), number(file.line_count)));
    fields.push((key("chunk_count"), number(file.chunk_count)));
    fields.push((key("returned_chunk_count"), number(chosen.len())));
    fields.push((key("returned_chars"), number(total)));
    fields.push((key("chunks"), chunks_json(&chosen)));
    let value = object(fields);
    assert(field_models(fields@) =~= source_value(*file, wanted@, cap as nat)->Object_0);
    show(&value)
}

} // verus!
