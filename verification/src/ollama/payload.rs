//! What is sent to the generator, and what comes back in place of Markdown.
//!
//! The context of a request is a JSON text. Before it is sent, its lists
//! are cut to what the task can take in. An answer that is JSON in place of
//! Markdown is searched for the Markdown it may hold.

use crate::json::{
    field_index, field_models, models, parse_json, parsed_json, render_json, rendered, Json,
    JsonModel,
};
use crate::memory::file_memory::capped;
use crate::ollama::task::Task;
use crate::text::{chars_of, contains, occurs, same_text, string_of, to_decimal, trim, trimmed};
use crate::text::decimal;
use crate::workflow::generate::{clip_text, clipped};
use vstd::prelude::*;

verus! {

// ---------------------------------------------------------------------------
// Fields
// ---------------------------------------------------------------------------

/// The object with the value of a field replaced. An object without the
/// field, and what is no object, stays as it is.
pub open spec fn with_field(value: JsonModel, key: Seq<char>, new: JsonModel) -> JsonModel {
    match value {
        JsonModel::Object(fields) => match field_index(fields, key, fields.len() as int) {
            Some(i) => JsonModel::Object(fields.update(i, (key, new))),
            None => value,
        },
        _ => value,
    }
}

/// Where the field with the key stands among the fields.
#[verifier::loop_isolation(false)]
fn find_field(fields: &Vec<(String, Json)>, key: &str) -> (r: Option<usize>)
    ensures
        match r {
            Some(i) => i < fields@.len() && fields@[i as int].0@ == key@ && field_index(
                field_models(fields@),
                key@,
                fields@.len() as int,
            ) == Some(i as int),
            None => field_index(field_models(fields@), key@, fields@.len() as int) is None,
        },
{
    let ghost fm = field_models(fields@);
    let mut i: usize = fields.len();
    while i > 0
        invariant
            i <= fields.len(),
            field_index(fm, key@, fields@.len() as int) == field_index(fm, key@, i as int),
        decreases i,
    {
        i -= 1;
        assert(fm[i as int] == (fields@[i as int].0@, fields@[i as int].1.model()));
        if same_text(fields[i].0.as_str(), key) {
            return Some(i);
        }
    }
    None
}

/// Puts a value in the place of the value of a field.
pub fn set_field(value: Json, key: &str, new: Json) -> (r: Json)
    ensures
        r.model() == with_field(value.model(), key@, new.model()),
{
    match value {
        Json::Object(fields) => {
            proof {
                Json::lemma_object_model(fields);
            }
            match find_field(&fields, key) {
                Some(i) => {
                    let mut fields = fields;
                    let ghost before = fields@;
                    let name = fields[i].0.clone();
                    fields.set(i, (name, new));
                    proof {
                        Json::lemma_object_model(fields);
                        assert(field_models(fields@) =~= field_models(before).update(
                            i as int,
                            (key@, new.model()),
                        ));
                    }
                    Json::Object(fields)
                },
                None => Json::Object(fields),
            }
        },
        other => other,
    }
}

/// The text of a field, or `otherwise` if the field is missing or no text.
pub open spec fn text_field(value: JsonModel, key: Seq<char>, otherwise: Seq<char>) -> Seq<char> {
    match value.field(key) {
        Some(field) => match field.text() {
            Some(text) => text,
            None => otherwise,
        },
        None => otherwise,
    }
}

/// The number of a field, or 0 if the field is missing or no count.
pub open spec fn count_field(value: JsonModel, key: Seq<char>) -> nat {
    match value.field(key) {
        Some(field) => match field.count() {
            Some(n) => n,
            None => 0,
        },
        None => 0,
    }
}

fn get_text(value: &Json, key: &str, otherwise: &str) -> (r: Vec<char>)
    ensures
        r@ == text_field(value.model(), key@, otherwise@),
{
    match value.get(key) {
        Some(field) => match field.as_str() {
            Some(text) => chars_of(text),
            None => chars_of(otherwise),
        },
        None => chars_of(otherwise),
    }
}

fn get_count(value: &Json, key: &str) -> (r: u64)
    ensures
        r == count_field(value.model(), key@),
{
    match value.get(key) {
        Some(field) => match field.as_u64() {
            Some(n) => n,
            None => 0,
        },
        None => 0,
    }
}

// ---------------------------------------------------------------------------
// The digest of a project index
// ---------------------------------------------------------------------------

/// The content of the first chunk of a source index, trimmed and cut.
pub open spec fn preview_text(index: JsonModel, max_chars: int) -> Seq<char> {
    let first = match index.field("chunks"@) {
        Some(chunks) => match chunks.list() {
            Some(items) => if items.len() > 0 {
                items[0]
            } else {
                JsonModel::Null
            },
            None => JsonModel::Null,
        },
        None => JsonModel::Null,
    };
    clipped(trimmed(text_field(first, "content"@, Seq::empty())), max_chars)
}

pub fn chunk_preview(index: &Json, max_chars: usize) -> (r: String)
    ensures
        r@ == preview_text(index.model(), max_chars as int),
{
    let null = Json::Null;
    let first: &Json = match index.get("chunks") {
        Some(chunks) => match chunks.as_array() {
            Some(items) => {
                if items.len() > 0 {
                    assert(models(items@)[0] == items@[0].model());
                    &items[0]
                } else {
                    &null
                }
            },
            None => &null,
        },
        None => &null,
    };
    let content = get_text(first, "content", "");
    proof {
        reveal_strlit("");
        assert(""@ =~= Seq::<char>::empty());
    }
    let bare = string_of(trim(content.as_slice()));
    clip_text(bare.as_str(), max_chars)
}

/// What the digest says of one file of the index.
pub open spec fn digest_entry(file: JsonModel, include_preview: bool) -> JsonModel {
    let index = match file.field("symbols"@) {
        Some(index) => index,
        None => JsonModel::Null,
    };
    let base = seq![
        ("path"@, JsonModel::Text(text_field(file, "path"@, "unknown"@))),
        ("line_count"@, JsonModel::Number(decimal(count_field(index, "line_count"@)))),
        ("chunk_count"@, JsonModel::Number(decimal(count_field(index, "chunk_count"@)))),
    ];
    if include_preview {
        JsonModel::Object(base.push(("preview"@, JsonModel::Text(preview_text(index, 200)))))
    } else {
        JsonModel::Object(base)
    }
}

pub open spec fn digest_entries(files: Seq<JsonModel>, include_preview: bool) -> Seq<JsonModel> {
    Seq::new(files.len(), |i: int| digest_entry(files[i], include_preview))
}

/// The digest of a project index: for each file its path, the number of
/// its lines and chunks, and the beginning of its source. An index without
/// a list of files has none.
pub open spec fn digest_of(index: JsonModel, include_preview: bool) -> Option<JsonModel> {
    match index.field("files"@) {
        Some(files) => match files.list() {
            Some(items) => Some(
                JsonModel::Object(
                    seq![
                        ("project"@, match index.field("project"@) {
                            Some(project) => project,
                            None => JsonModel::Text("unknown"@),
                        }),
                        ("file_count"@, match index.field("file_count"@) {
                            Some(count) => count,
                            None => JsonModel::Number(decimal(items.len())),
                        }),
                        ("files"@, JsonModel::List(digest_entries(items, include_preview))),
                    ],
                ),
            ),
            None => None,
        },
        None => None,
    }
}

fn entry_of(file: &Json, include_preview: bool) -> (r: Json)
    ensures
        r.model() == digest_entry(file.model(), include_preview),
{
    let null = Json::Null;
    let index: &Json = match file.get("symbols") {
        Some(index) => index,
        None => &null,
    };
    let path = get_text(file, "path", "unknown");
    let mut fields: Vec<(String, Json)> = Vec::new();
    fields.push((string_of(chars_of("path").as_slice()), Json::Text(string_of(path.as_slice()))));
    fields.push(
        (
            string_of(chars_of("line_count").as_slice()),
            Json::Number(string_of(to_decimal(get_count(index, "line_count")).as_slice())),
        ),
    );
    fields.push(
        (
            string_of(chars_of("chunk_count").as_slice()),
            Json::Number(string_of(to_decimal(get_count(index, "chunk_count")).as_slice())),
        ),
    );
    if include_preview {
        fields.push(
            (string_of(chars_of("preview").as_slice()), Json::Text(chunk_preview(index, 200))),
        );
    }
    proof {
        Json::lemma_object_model(fields);
        assert(field_models(fields@) =~= digest_entry(file.model(), include_preview)->Object_0);
    }
    Json::Object(fields)
}

/// The digest of a project index.
pub fn project_digest(index: &Json, include_preview: bool) -> (r: Option<Json>)
    ensures
        match r {
            Some(digest) => digest_of(index.model(), include_preview) == Some(digest.model()),
            None => digest_of(index.model(), include_preview) is None,
        },
{
    let files = match index.get("files") {
        Some(files) => match files.as_array() {
            Some(items) => items,
            None => {
                return None;
            },
        },
        None => {
            return None;
        },
    };
    let ghost items = models(files@);
    let mut entries: Vec<Json> = Vec::new();
    let mut i: usize = 0;
    while i < files.len()
        invariant
            i <= files.len(),
            items == models(files@),
            entries@.len() == i,
            forall|j: int|
                0 <= j < i ==> (#[trigger] entries@[j]).model() == digest_entry(
                    items[j],
                    include_preview,
                ),
        decreases files.len() - i,
    {
        assert(items[i as int] == files@[i as int].model());
        entries.push(entry_of(&files[i], include_preview));
        i += 1;
    }
    let project = match index.get("project") {
        Some(project) => project.copy(),
        None => Json::Text(string_of(chars_of("unknown").as_slice())),
    };
    let file_count = match index.get("file_count") {
        Some(count) => count.copy(),
        None => Json::Number(string_of(to_decimal(files.len() as u64).as_slice())),
    };
    let mut fields: Vec<(String, Json)> = Vec::new();
    fields.push((string_of(chars_of("project").as_slice()), project));
    fields.push((string_of(chars_of("file_count").as_slice()), file_count));
    proof {
        Json::lemma_list_model(entries);
        assert(models(entries@) =~= digest_entries(items, include_preview));
    }
    fields.push((string_of(chars_of("files").as_slice()), Json::List(entries)));
    proof {
        Json::lemma_object_model(fields);
        assert(field_models(fields@) =~= digest_of(index.model(), include_preview)->0->Object_0);
    }
    Some(Json::Object(fields))
}

/// The digest of a project index that is given as JSON text, as JSON text.
pub fn build_project_digest(context_payload: &str, include_chunk_preview: bool) -> (r: Result<
    String,
    String,
>)
    ensures
        match parsed_json(context_payload@) {
            Ok(index) => match digest_of(index, include_chunk_preview) {
                Some(digest) => match r {
                    Ok(text) => rendered(digest) == Ok::<Seq<char>, Seq<char>>(text@),
                    Err(message) => rendered(digest) == Err::<Seq<char>, Seq<char>>(message@),
                },
                None => r matches Err(message) && message@
                    == "project index input missing 'files' array"@,
            },
            Err(problem) => r matches Err(message) && message@ == problem,
        },
{
    match parse_json(context_payload) {
        Ok(index) => match project_digest(&index, include_chunk_preview) {
            Some(digest) => render_json(&digest),
            None => Err(string_of(chars_of("project index input missing 'files' array").as_slice())),
        },
        Err(message) => Err(message),
    }
}

pub fn prepare_architecture_input(context_payload: &str) -> (r: Result<String, String>)
    ensures
        match parsed_json(context_payload@) {
            Ok(index) => match digest_of(index, true) {
                Some(digest) => match r {
                    Ok(text) => rendered(digest) == Ok::<Seq<char>, Seq<char>>(text@),
                    Err(message) => rendered(digest) == Err::<Seq<char>, Seq<char>>(message@),
                },
                None => r matches Err(message) && message@
                    == "project index input missing 'files' array"@,
            },
            Err(problem) => r matches Err(message) && message@ == problem,
        },
{
    build_project_digest(context_payload, true)
}

// ---------------------------------------------------------------------------
// Cutting the context of a file
// ---------------------------------------------------------------------------

/// A chunk with its content cut, if it has a content that is text.
pub open spec fn clamped_chunk(chunk: JsonModel, max_chars: int) -> JsonModel {
    match chunk.field("content"@) {
        Some(JsonModel::Text(content)) => with_field(
            chunk,
            "content"@,
            JsonModel::Text(clipped(content, max_chars)),
        ),
        _ => chunk,
    }
}

pub open spec fn clamped_chunk_list(chunks: Seq<JsonModel>, max_chunks: int, max_chars: int) -> Seq<
    JsonModel,
> {
    Seq::new(
        capped(chunks, max_chunks).len(),
        |i: int| clamped_chunk(capped(chunks, max_chunks)[i], max_chars),
    )
}

/// A source index with its list of chunks cut to `max_chunks` chunks of
/// `max_chars` characters. What has no list of chunks stays as it is.
pub open spec fn clamped_index(index: JsonModel, max_chunks: int, max_chars: int) -> JsonModel {
    match index.field("chunks"@) {
        Some(JsonModel::List(chunks)) => with_field(
            index,
            "chunks"@,
            JsonModel::List(clamped_chunk_list(chunks, max_chunks, max_chars)),
        ),
        _ => index,
    }
}

/// A payload with the chunks of its source index cut. The source index is
/// the field `source_index` if that is an object, else the payload itself.
pub open spec fn clamped_payload(root: JsonModel, max_chunks: int, max_chars: int) -> JsonModel {
    match root.field("source_index"@) {
        Some(JsonModel::Object(fields)) => with_field(
            root,
            "source_index"@,
            clamped_index(JsonModel::Object(fields), max_chunks, max_chars),
        ),
        _ => clamped_index(root, max_chunks, max_chars),
    }
}

fn clamp_chunk(chunk: &Json, max_chars: usize) -> (r: Json)
    ensures
        r.model() == clamped_chunk(chunk.model(), max_chars as int),
{
    match chunk.get("content") {
        Some(content) => match content.as_str() {
            Some(text) => {
                let cut = Json::Text(clip_text(text, max_chars));
                set_field(chunk.copy(), "content", cut)
            },
            None => chunk.copy(),
        },
        None => chunk.copy(),
    }
}

fn clamp_index(index: Json, max_chunks: usize, max_chars: usize) -> (r: Json)
    ensures
        r.model() == clamped_index(index.model(), max_chunks as int, max_chars as int),
{
    let cut: Option<Vec<Json>> = match index.get("chunks") {
        Some(list) => match list.as_array() {
            Some(chunks) => {
                let n: usize = if chunks.len() > max_chunks {
                    max_chunks
                } else {
                    chunks.len()
                };
                let ghost all = models(chunks@);
                let ghost kept = capped(all, max_chunks as int);
                let mut out: Vec<Json> = Vec::new();
                let mut i: usize = 0;
                while i < n
                    invariant
                        i <= n <= chunks.len(),
                        n == kept.len(),
                        all == models(chunks@),
                        kept == capped(all, max_chunks as int),
                        out@.len() == i,
                        forall|j: int|
                            0 <= j < i ==> (#[trigger] out@[j]).model() == clamped_chunk(
                                kept[j],
                                max_chars as int,
                            ),
                    decreases n - i,
                {
                    assert(kept[i as int] == chunks@[i as int].model());
                    out.push(clamp_chunk(&chunks[i], max_chars));
                    i += 1;
                }
                proof {
                    assert(models(out@) =~= clamped_chunk_list(
                        all,
                        max_chunks as int,
                        max_chars as int,
                    ));
                }
                Some(out)
            },
            None => None,
        },
        None => None,
    };
    match cut {
        Some(chunks) => {
            proof {
                Json::lemma_list_model(chunks);
            }
            set_field(index, "chunks", Json::List(chunks))
        },
        None => index,
    }
}

/// Cuts the chunks of the source index of a payload.
pub fn clamp_chunks_in_payload(root: Json, max_chunks: usize, max_chars_per_chunk: usize) -> (r:
    Json)
    ensures
        r.model() == clamped_payload(
            root.model(),
            max_chunks as int,
            max_chars_per_chunk as int,
        ),
{
    let inner: Option<Json> = match root.get("source_index") {
        Some(index) => {
            if index.is_object() {
                Some(clamp_index(index.copy(), max_chunks, max_chars_per_chunk))
            } else {
                None
            }
        },
        None => None,
    };
    match inner {
        Some(index) => set_field(root, "source_index", index),
        None => clamp_index(root, max_chunks, max_chars_per_chunk),
    }
}

/// A payload with one of the lists of its project memory cut. A payload
/// without an object `project_memory` that holds such a list stays as it is.
pub open spec fn clamped_memory_list(root: JsonModel, key: Seq<char>, max: int) -> JsonModel {
    match root.field("project_memory"@) {
        Some(JsonModel::Object(fields)) => match JsonModel::Object(fields).field(key) {
            Some(JsonModel::List(items)) => with_field(
                root,
                "project_memory"@,
                with_field(JsonModel::Object(fields), key, JsonModel::List(capped(items, max))),
            ),
            _ => root,
        },
        _ => root,
    }
}

fn clamp_memory_list(root: Json, key: &str, max: usize) -> (r: Json)
    ensures
        r.model() == clamped_memory_list(root.model(), key@, max as int),
{
    let inner: Option<Json> = match root.get("project_memory") {
        Some(memory) => {
            if memory.is_object() {
                match memory.get(key) {
                    Some(list) => match list.as_array() {
                        Some(items) => {
                            let n: usize = if items.len() > max {
                                max
                            } else {
                                items.len()
                            };
                            let ghost all = models(items@);
                            let mut out: Vec<Json> = Vec::new();
                            let mut i: usize = 0;
                            while i < n
                                invariant
                                    i <= n <= items.len(),
                                    all == models(items@),
                                    out@.len() == i,
                                    forall|j: int|
                                        0 <= j < i ==> (#[trigger] out@[j]).model() == all[j],
                                decreases n - i,
                            {
                                out.push(items[i].copy());
                                i += 1;
                            }
                            proof {
                                Json::lemma_list_model(out);
                                assert(models(out@) =~= capped(all, max as int));
                            }
                            Some(set_field(memory.copy(), key, Json::List(out)))
                        },
                        None => None,
                    },
                    None => None,
                }
            } else {
                None
            }
        },
        None => None,
    };
    match inner {
        Some(memory) => set_field(root, "project_memory", memory),
        None => root,
    }
}

pub fn clamp_global_symbols(root: Json, max_symbols: usize) -> (r: Json)
    ensures
        r.model() == clamped_memory_list(root.model(), "global_symbols"@, max_symbols as int),
{
    clamp_memory_list(root, "global_symbols", max_symbols)
}

pub fn clamp_open_items(root: Json, max_items: usize) -> (r: Json)
    ensures
        r.model() == clamped_memory_list(root.model(), "open_items"@, max_items as int),
{
    clamp_memory_list(root, "open_items", max_items)
}

pub fn clamp_links(root: Json, max_links: usize) -> (r: Json)
    ensures
        r.model() == clamped_memory_list(root.model(), "links"@, max_links as int),
{
    clamp_memory_list(root, "links", max_links)
}

/// How much of a context a task takes in: chunks, characters of a chunk,
/// symbols, open items and links.
pub struct ContextCaps {
    pub chunks: usize,
    pub chunk_chars: usize,
    pub symbols: usize,
    pub open_items: usize,
    pub links: usize,
}

/// A context cut to the caps.
pub open spec fn clamped_context(root: JsonModel, caps: ContextCaps) -> JsonModel {
    clamped_memory_list(
        clamped_memory_list(
            clamped_memory_list(
                clamped_payload(root, caps.chunks as int, caps.chunk_chars as int),
                "global_symbols"@,
                caps.symbols as int,
            ),
            "open_items"@,
            caps.open_items as int,
        ),
        "links"@,
        caps.links as int,
    )
}

pub fn clamp_context(root: Json, caps: &ContextCaps) -> (r: Json)
    ensures
        r.model() == clamped_context(root.model(), *caps),
{
    let root = clamp_chunks_in_payload(root, caps.chunks, caps.chunk_chars);
    let root = clamp_global_symbols(root, caps.symbols);
    let root = clamp_open_items(root, caps.open_items);
    clamp_links(root, caps.links)
}

/// What a summary takes in.
pub open spec fn summary_caps() -> ContextCaps {
    ContextCaps { chunks: 4, chunk_chars: 900, symbols: 60, open_items: 24, links: 40 }
}

/// What a documentation takes in.
pub open spec fn docs_caps() -> ContextCaps {
    ContextCaps { chunks: 6, chunk_chars: 1200, symbols: 80, open_items: 30, links: 70 }
}

fn prepare_input(context_payload: &str, caps: &ContextCaps) -> (r: Result<String, String>)
    ensures
        match parsed_json(context_payload@) {
            Ok(root) => match r {
                Ok(text) => rendered(clamped_context(root, *caps)) == Ok::<Seq<char>, Seq<char>>(
                    text@,
                ),
                Err(message) => rendered(clamped_context(root, *caps)) == Err::<
                    Seq<char>,
                    Seq<char>,
                >(message@),
            },
            Err(problem) => r matches Err(message) && message@ == problem,
        },
{
    match parse_json(context_payload) {
        Ok(root) => render_json(&clamp_context(root, caps)),
        Err(message) => Err(message),
    }
}

/// The context of a file, cut to what a summary takes in.
pub fn prepare_file_summary_input(context_payload: &str) -> (r: Result<String, String>)
    ensures
        match parsed_json(context_payload@) {
            Ok(root) => match r {
                Ok(text) => rendered(clamped_context(root, summary_caps())) == Ok::<
                    Seq<char>,
                    Seq<char>,
                >(text@),
                Err(message) => rendered(clamped_context(root, summary_caps())) == Err::<
                    Seq<char>,
                    Seq<char>,
                >(message@),
            },
            Err(problem) => r matches Err(message) && message@ == problem,
        },
{
    prepare_input(
        context_payload,
        &ContextCaps { chunks: 4, chunk_chars: 900, symbols: 60, open_items: 24, links: 40 },
    )
}

/// The context of a file, cut to what a documentation takes in.
pub fn prepare_file_docs_input(context_payload: &str) -> (r: Result<String, String>)
    ensures
        match parsed_json(context_payload@) {
            Ok(root) => match r {
                Ok(text) => rendered(clamped_context(root, docs_caps())) == Ok::<
                    Seq<char>,
                    Seq<char>,
                >(text@),
                Err(message) => rendered(clamped_context(root, docs_caps())) == Err::<
                    Seq<char>,
                    Seq<char>,
                >(message@),
            },
            Err(problem) => r matches Err(message) && message@ == problem,
        },
{
    prepare_input(
        context_payload,
        &ContextCaps { chunks: 6, chunk_chars: 1200, symbols: 80, open_items: 30, links: 70 },
    )
}

// ---------------------------------------------------------------------------
// Markdown wrapped in JSON
// ---------------------------------------------------------------------------

/// The text holds one of the headings, or any heading of the second level.
pub open spec fn names_heading(text: Seq<char>, headings: Seq<Seq<char>>) -> bool {
    occurs(text, "## "@) || exists|i: int|
        0 <= i < headings.len() && occurs(text, #[trigger] headings[i])
}

/// The first text in a value, in the order of its elements and fields,
/// that names a heading.
pub open spec fn markdown_in(value: JsonModel, headings: Seq<Seq<char>>) -> Option<Seq<char>>
    decreases value, 0nat,
{
    match value {
        JsonModel::Text(text) => if names_heading(text, headings) {
            Some(text)
        } else {
            None
        },
        JsonModel::List(items) => markdown_in_list(items, headings, 0),
        JsonModel::Object(fields) => markdown_in_fields(fields, headings, 0),
        _ => None,
    }
}

pub open spec fn markdown_in_list(items: Seq<JsonModel>, headings: Seq<Seq<char>>, from: nat) -> Option<
    Seq<char>,
>
    decreases items, items.len() - from,
{
    if from >= items.len() {
        None
    } else {
        match markdown_in(items[from as int], headings) {
            Some(text) => Some(text),
            None => markdown_in_list(items, headings, from + 1),
        }
    }
}

pub open spec fn markdown_in_fields(
    fields: Seq<(Seq<char>, JsonModel)>,
    headings: Seq<Seq<char>>,
    from: nat,
) -> Option<Seq<char>>
    decreases fields, fields.len() - from,
{
    if from >= fields.len() {
        None
    } else {
        match markdown_in(fields[from as int].1, headings) {
            Some(text) => Some(text),
            None => markdown_in_fields(fields, headings, from + 1),
        }
    }
}

fn has_heading(text: &[char], headings: &Vec<&'static str>) -> (r: bool)
    ensures
        r == names_heading(text@, crate::memory::file_memory::lits(headings@)),
{
    if contains(text, chars_of("## ").as_slice()) {
        return true;
    }
    let ghost hs = crate::memory::file_memory::lits(headings@);
    let mut i: usize = 0;
    while i < headings.len()
        invariant
            i <= headings.len(),
            hs == crate::memory::file_memory::lits(headings@),
            forall|j: int| 0 <= j < i ==> !occurs(text@, #[trigger] hs[j]),
        decreases headings.len() - i,
    {
        assert(hs[i as int] == headings@[i as int]@);
        if contains(text, chars_of(headings[i]).as_slice()) {
            assert(occurs(text@, hs[i as int]));
            return true;
        }
        i += 1;
    }
    false
}

/// The first text in a value that names a heading.
#[verifier::loop_isolation(false)]
pub fn find_markdown_string(value: &Json, expected_headings: &Vec<&'static str>) -> (r: Option<
    String,
>)
    ensures
        match r {
            Some(text) => markdown_in(
                value.model(),
                crate::memory::file_memory::lits(expected_headings@),
            ) == Some(text@),
            None => markdown_in(
                value.model(),
                crate::memory::file_memory::lits(expected_headings@),
            ) is None,
        },
    decreases value,
{
    let ghost hs = crate::memory::file_memory::lits(expected_headings@);
    match value {
        Json::Text(text) => {
            if has_heading(chars_of(text.as_str()).as_slice(), expected_headings) {
                Some(text.clone())
            } else {
                None
            }
        },
        Json::List(items) => {
            proof {
                Json::lemma_list_model(*items);
            }
            let ghost ms = models(items@);
            let mut i: usize = 0;
            while i < items.len()
                invariant
                    i <= items.len(),
                    markdown_in_list(ms, hs, 0) == markdown_in_list(ms, hs, i as nat),
                decreases items.len() - i,
            {
                proof {
                    vstd::std_specs::vec::axiom_vec_index_decreases(*items, i as int);
                    assert(decreases_to!(*items => items[i as int]));
                    assert(decreases_to!(*value => *items));
                    assert(ms[i as int] == items@[i as int].model());
                }
                match find_markdown_string(&items[i], expected_headings) {
                    Some(found) => {
                        return Some(found);
                    },
                    None => {},
                }
                i += 1;
            }
            None
        },
        Json::Object(fields) => {
            proof {
                Json::lemma_object_model(*fields);
            }
            let ghost ms = field_models(fields@);
            let mut i: usize = 0;
            while i < fields.len()
                invariant
                    i <= fields.len(),
                    markdown_in_fields(ms, hs, 0) == markdown_in_fields(ms, hs, i as nat),
                decreases fields.len() - i,
            {
                proof {
                    vstd::std_specs::vec::axiom_vec_index_decreases(*fields, i as int);
                    assert(decreases_to!(*fields => fields[i as int]));
                    assert(decreases_to!(*value => *fields));
                    assert(ms[i as int].1 == fields@[i as int].1.model());
                }
                match find_markdown_string(&fields[i].1, expected_headings) {
                    Some(found) => {
                        return Some(found);
                    },
                    None => {},
                }
                i += 1;
            }
            None
        },
        _ => None,
    }
}

/// The text of the field `inner` of the field `outer`.
pub open spec fn nested_text(value: JsonModel, outer: Seq<char>, inner: Seq<char>) -> Option<
    Seq<char>,
> {
    match value.field(outer) {
        Some(object) => match object.field(inner) {
            Some(field) => field.text(),
            None => None,
        },
        None => None,
    }
}

pub open spec fn own_text(value: JsonModel, key: Seq<char>) -> Option<Seq<char>> {
    match value.field(key) {
        Some(field) => field.text(),
        None => None,
    }
}

/// The first of two that is there.
pub open spec fn or_else(a: Option<Seq<char>>, b: Option<Seq<char>>) -> Option<Seq<char>> {
    match a {
        Some(text) => Some(text),
        None => b,
    }
}

/// The Markdown that a JSON answer holds: under `result` or at the top,
/// in a field named for the kind of document; failing that, the first
/// text that names a heading.
pub open spec fn wrapped_markdown(task: Task, value: JsonModel) -> Option<Seq<char>> {
    or_else(
        nested_text(value, "result"@, "summary_markdown"@),
        or_else(
            nested_text(value, "result"@, "docs_markdown"@),
            or_else(
                nested_text(value, "result"@, "project_summary_markdown"@),
                or_else(
                    nested_text(value, "result"@, "architecture_markdown"@),
                    or_else(
                        own_text(value, "summary_markdown"@),
                        or_else(
                            own_text(value, "docs_markdown"@),
                            markdown_in(value, seq![task.heading()]),
                        ),
                    ),
                ),
            ),
        ),
    )
}

fn get_nested(value: &Json, outer: &str, inner: &str) -> (r: Option<String>)
    ensures
        match r {
            Some(text) => nested_text(value.model(), outer@, inner@) == Some(text@),
            None => nested_text(value.model(), outer@, inner@) is None,
        },
{
    match value.get(outer) {
        Some(object) => match object.get(inner) {
            Some(field) => match field.as_str() {
                Some(text) => Some(string_of(chars_of(text).as_slice())),
                None => None,
            },
            None => None,
        },
        None => None,
    }
}

fn get_own(value: &Json, key: &str) -> (r: Option<String>)
    ensures
        match r {
            Some(text) => own_text(value.model(), key@) == Some(text@),
            None => own_text(value.model(), key@) is None,
        },
{
    match value.get(key) {
        Some(field) => match field.as_str() {
            Some(text) => Some(string_of(chars_of(text).as_slice())),
            None => None,
        },
        None => None,
    }
}

/// The Markdown that a JSON answer holds.
pub fn markdown_of(task: Task, value: &Json) -> (r: Option<String>)
    ensures
        match r {
            Some(text) => wrapped_markdown(task, value.model()) == Some(text@),
            None => wrapped_markdown(task, value.model()) is None,
        },
{
    match get_nested(value, "result", "summary_markdown") {
        Some(text) => {
            return Some(text);
        },
        None => {},
    }
    match get_nested(value, "result", "docs_markdown") {
        Some(text) => {
            return Some(text);
        },
        None => {},
    }
    match get_nested(value, "result", "project_summary_markdown") {
        Some(text) => {
            return Some(text);
        },
        None => {},
    }
    match get_nested(value, "result", "architecture_markdown") {
        Some(text) => {
            return Some(text);
        },
        None => {},
    }
    match get_own(value, "summary_markdown") {
        Some(text) => {
            return Some(text);
        },
        None => {},
    }
    match get_own(value, "docs_markdown") {
        Some(text) => {
            return Some(text);
        },
        None => {},
    }
    let headings = crate::ollama::utils::expected_headings(task);
    find_markdown_string(value, &headings)
}

/// An answer, or the Markdown it holds if it is JSON that holds some.
pub open spec fn unwrapped(task: Task, output: Seq<char>, read: Result<JsonModel, Seq<char>>) -> Seq<
    char,
> {
    match read {
        Ok(value) => match wrapped_markdown(task, value) {
            Some(text) => trimmed(text),
            None => output,
        },
        Err(_) => output,
    }
}

pub fn unwrap_json_markdown(task: Task, output: String) -> (r: String)
    ensures
        r@ == unwrapped(task, output@, parsed_json(trimmed(output@))),
{
    let bare = string_of(trim(chars_of(output.as_str()).as_slice()));
    match parse_json(bare.as_str()) {
        Ok(value) => match markdown_of(task, &value) {
            Some(text) => string_of(trim(chars_of(text.as_str()).as_slice())),
            None => output,
        },
        Err(_) => output,
    }
}

} // verus!
