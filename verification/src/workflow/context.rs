//! The JSON texts that a run writes: the context of a request about one
//! file, the index of a project, and the index of its sources.

use crate::error::{concat, glued, ErrorModel, PlainSightError};
use crate::json::{
    field_models, models, parse_json, parsed_json, render_json, render_json_pretty, rendered,
    rendered_pretty, Json, JsonModel,
};
use crate::memory::file_memory::capped;
use crate::memory::relevance::{get_relevant_memory_for_file, relevant_model, RelevantModel};
use crate::memory::types::{fact_models, FactModel, FileModel, ProjectMemory, SymbolFact};
use crate::source_indexer::{chunk_models, ChunkModel, SourceChunk, SourceIndex};
use crate::text::{chars_of, decimal, string_of, to_decimal};
use crate::workflow::generate::{
    budget_for, clamp_count, clip_chunks, clip_file_memory, clipped_chunks, clipped_memory,
    memory_pressure, preview_of, prompt_budget, source_preview,
};
use crate::workflow::types::{ParsedFile, PromptProfile};
use vstd::prelude::*;

verus! {

// ---------------------------------------------------------------------------
// Building values
// ---------------------------------------------------------------------------

pub open spec fn text_of(s: Seq<char>) -> JsonModel {
    JsonModel::Text(s)
}

pub open spec fn number_of(n: int) -> JsonModel {
    JsonModel::Number(decimal(n as nat))
}

pub(crate) fn key(name: &str) -> (r: String)
    ensures
        r@ == name@,
{
    string_of(chars_of(name).as_slice())
}

pub(crate) fn text(s: &str) -> (r: Json)
    ensures
        r.model() == text_of(s@),
{
    Json::Text(key(s))
}

pub(crate) fn number(n: usize) -> (r: Json)
    ensures
        r.model() == number_of(n as int),
{
    Json::Number(string_of(to_decimal(n as u64).as_slice()))
}

pub(crate) fn object(fields: Vec<(String, Json)>) -> (r: Json)
    ensures
        r.model() == JsonModel::Object(field_models(fields@)),
{
    proof {
        Json::lemma_object_model(fields);
    }
    Json::Object(fields)
}

pub(crate) fn list(items: Vec<Json>) -> (r: Json)
    ensures
        r.model() == JsonModel::List(models(items@)),
{
    proof {
        Json::lemma_list_model(items);
    }
    Json::List(items)
}

fn serializing_error(what: &str, problem: &str) -> (e: PlainSightError)
    ensures
        e@ == ErrorModel::InvalidState("serializing "@ + what@ + ": "@ + problem@),
{
    proof {
        reveal_with_fuel(glued, 5);
    }
    let parts: Vec<&str> = vec!["serializing ", what, ": ", problem];
    let message = concat(&parts);
    assert(message@ =~= "serializing "@ + what@ + ": "@ + problem@);
    PlainSightError::InvalidState(message)
}

/// What becomes of a value that is written under the name `what`: its
/// text, or the error that says what could not be written.
pub open spec fn written(text: Result<Seq<char>, Seq<char>>, what: Seq<char>) -> Result<
    Seq<char>,
    ErrorModel,
> {
    match text {
        Ok(t) => Ok(t),
        Err(problem) => Err(ErrorModel::InvalidState("serializing "@ + what + ": "@ + problem)),
    }
}

/// The result of a function that writes, as specifications speak of it.
pub open spec fn outcome(r: Result<String, PlainSightError>) -> Result<Seq<char>, ErrorModel> {
    match r {
        Ok(t) => Ok(t@),
        Err(e) => Err(e@),
    }
}

fn finish(text: Result<String, String>, what: &str) -> (r: Result<String, PlainSightError>)
    ensures
        outcome(r) == written(
            match text {
                Ok(t) => Ok(t@),
                Err(p) => Err(p@),
            },
            what@,
        ),
{
    match text {
        Ok(t) => Ok(t),
        Err(problem) => Err(serializing_error(what, problem.as_str())),
    }
}

// ---------------------------------------------------------------------------
// The context of a request about one file
// ---------------------------------------------------------------------------

/// What a request says of one symbol of the file.
pub open spec fn symbol_hint(fact: FactModel) -> JsonModel {
    JsonModel::Object(
        seq![
            ("name"@, text_of(fact.name)),
            ("kind"@, text_of(fact.kind)),
            ("line"@, number_of(fact.line as int)),
        ],
    )
}

pub open spec fn symbol_hints(facts: Seq<FactModel>) -> Seq<JsonModel> {
    Seq::new(facts.len(), |i: int| symbol_hint(facts[i]))
}

/// A number kept between `low` and `high`.
pub open spec fn clamped(n: int, low: int, high: int) -> int {
    if n < low {
        low
    } else if n > high {
        high
    } else {
        n
    }
}

/// The number of facts that a request about a file carries besides its
/// source, as far as a machine can count.
pub open spec fn pressure_of(memory: FileModel, relevant: RelevantModel) -> nat {
    let total = memory.symbols.len() + memory.imports.len() + relevant.global_symbols.len()
        + relevant.open_items.len() + relevant.links.len();
    if total <= usize::MAX {
        total
    } else {
        usize::MAX as nat
    }
}

/// The context of a request about one file: where it is and what it is
/// written in, how its source begins, its first symbols, where the memory
/// and the sources of the project are kept, and what to ask them for.
pub open spec fn file_context(
    relative_path: Seq<char>,
    language: Seq<char>,
    chunks: Seq<ChunkModel>,
    memory: FileModel,
    relevant: RelevantModel,
    profile: PromptProfile,
    memory_file_path: Seq<char>,
    source_index_file_path: Seq<char>,
) -> JsonModel {
    let budget = budget_for(profile, pressure_of(memory, relevant));
    let sent = clipped_chunks(chunks, budget.max_chunks as int, budget.max_chunk_chars as int);
    let hint = clipped_memory(
        memory,
        budget.max_file_symbols as int,
        budget.max_file_imports as int,
    );
    JsonModel::Object(
        seq![
            ("path"@, text_of(relative_path)),
            ("language"@, text_of(language)),
            ("source_preview"@, text_of(preview_of(sent))),
            (
                "file_memory_hint"@,
                JsonModel::Object(
                    seq![
                        ("symbol_count"@, number_of(hint.symbol_count as int)),
                        ("import_count"@, number_of(hint.import_count as int)),
                        ("top_symbols"@, JsonModel::List(symbol_hints(capped(hint.symbols, 8)))),
                    ],
                ),
            ),
            ("memory_file_path"@, text_of(memory_file_path)),
            ("source_index_file_path"@, text_of(source_index_file_path)),
            (
                "source_query"@,
                JsonModel::Object(
                    seq![
                        ("file_path"@, text_of(relative_path)),
                        ("chunk_ids"@, JsonModel::List(seq![number_of(0), number_of(1)])),
                        ("max_chars"@, number_of(
                            match profile {
                                PromptProfile::Standard => 3500,
                                PromptProfile::Compact => 1800,
                            },
                        )),
                    ],
                ),
            ),
            (
                "memory_query"@,
                JsonModel::Object(
                    seq![
                        ("file_path"@, text_of(relative_path)),
                        ("max_global_symbols"@, number_of(
                            clamped(relevant.global_symbols.len() as int, 8, 20),
                        )),
                        ("max_open_items"@, number_of(
                            clamped(relevant.open_items.len() as int, 4, 10),
                        )),
                        ("max_links"@, number_of(clamped(relevant.links.len() as int, 4, 14))),
                    ],
                ),
            ),
            (
                "project_memory_stats"@,
                JsonModel::Object(
                    seq![
                        ("file_count"@, number_of(relevant.file_count as int)),
                        ("unique_symbol_count"@, number_of(relevant.unique_symbol_count as int)),
                    ],
                ),
            ),
        ],
    )
}

fn hint_of(fact: &SymbolFact) -> (r: Json)
    ensures
        r.model() == symbol_hint(fact@),
{
    let mut fields: Vec<(String, Json)> = Vec::new();
    fields.push((key("name"), text(fact.name.as_str())));
    fields.push((key("kind"), text(fact.kind.as_str())));
    fields.push((key("line"), number(fact.line)));
    let r = object(fields);
    assert(field_models(fields@) =~= symbol_hint(fact@)->Object_0);
    r
}

fn hints_of(facts: &Vec<SymbolFact>, most: usize) -> (r: Json)
    ensures
        r.model() == JsonModel::List(symbol_hints(capped(fact_models(facts@), most as int))),
{
    let n: usize = if facts.len() > most {
        most
    } else {
        facts.len()
    };
    let ghost kept = capped(fact_models(facts@), most as int);
    let mut items: Vec<Json> = Vec::new();
    let mut i: usize = 0;
    while i < n
        invariant
            i <= n <= facts.len(),
            n == kept.len(),
            kept == capped(fact_models(facts@), most as int),
            items@.len() == i,
            forall|j: int| 0 <= j < i ==> (#[trigger] items@[j]).model() == symbol_hint(kept[j]),
        decreases n - i,
    {
        assert(kept[i as int] == facts@[i as int]@);
        items.push(hint_of(&facts[i]));
        i += 1;
    }
    let r = list(items);
    assert(models(items@) =~= symbol_hints(kept));
    r
}

/// The context of a request about a file of a project, as JSON text.
pub fn build_file_prompt_input(
    parsed: &ParsedFile,
    project_memory: &ProjectMemory,
    profile: PromptProfile,
    memory_file_path: &str,
    source_index_file_path: &str,
) -> (r: Result<String, PlainSightError>)
    ensures
        outcome(r) == written(
            rendered(
                file_context(
                    parsed.relative_path@,
                    parsed.language@,
                    chunk_models(parsed.source_index.chunks@),
                    parsed.memory@,
                    relevant_model(project_memory@, parsed.path@),
                    profile,
                    memory_file_path@,
                    source_index_file_path@,
                ),
            ),
            "file prompt input"@,
        ),
{
    let relevant = get_relevant_memory_for_file(project_memory, parsed.path.as_str());
    let pressure = memory_pressure(
        parsed.memory.symbols.len(),
        parsed.memory.imports.len(),
        relevant.global_symbols.len(),
        relevant.open_items.len(),
        relevant.links.len(),
    );
    let budget = prompt_budget(profile, pressure);
    let sent = clip_chunks(&parsed.source_index.chunks, budget.max_chunks, budget.max_chunk_chars);
    let preview = source_preview(&sent);
    let hint = clip_file_memory(&parsed.memory, budget.max_file_symbols, budget.max_file_imports);
    let path = parsed.relative_path.as_str();

    let mut memory_hint: Vec<(String, Json)> = Vec::new();
    memory_hint.push((key("symbol_count"), number(hint.symbol_count)));
    memory_hint.push((key("import_count"), number(hint.import_count)));
    memory_hint.push((key("top_symbols"), hints_of(&hint.symbols, 8)));

    let mut ids: Vec<Json> = Vec::new();
    ids.push(number(0));
    ids.push(number(1));
    let mut source_query: Vec<(String, Json)> = Vec::new();
    source_query.push((key("file_path"), text(path)));
    source_query.push((key("chunk_ids"), list(ids)));
    source_query.push(
        (
            key("max_chars"),
            number(
                match profile {
                    PromptProfile::Standard => 3500,
                    PromptProfile::Compact => 1800,
                },
            ),
        ),
    );

    let mut memory_query: Vec<(String, Json)> = Vec::new();
    memory_query.push((key("file_path"), text(path)));
    memory_query.push(
        (key("max_global_symbols"), number(clamp_count(relevant.global_symbols.len(), 8, 20))),
    );
    memory_query.push(
        (key("max_open_items"), number(clamp_count(relevant.open_items.len(), 4, 10))),
    );
    memory_query.push((key("max_links"), number(clamp_count(relevant.links.len(), 4, 14))));

    let mut stats: Vec<(String, Json)> = Vec::new();
    stats.push((key("file_count"), number(relevant.file_count)));
    stats.push((key("unique_symbol_count"), number(relevant.unique_symbol_count)));

    let mut fields: Vec<(String, Json)> = Vec::new();
    fields.push((key("path"), text(path)));
    fields.push((key("language"), text(parsed.language.as_str())));
    fields.push((key("source_preview"), text(preview.as_str())));
    fields.push((key("file_memory_hint"), object(memory_hint)));
    fields.push((key("memory_file_path"), text(memory_file_path)));
    fields.push((key("source_index_file_path"), text(source_index_file_path)));
    fields.push((key("source_query"), object(source_query)));
    fields.push((key("memory_query"), object(memory_query)));
    fields.push((key("project_memory_stats"), object(stats)));
    let context = object(fields);
    proof {
        let model = file_context(
            parsed.relative_path@,
            parsed.language@,
            chunk_models(parsed.source_index.chunks@),
            parsed.memory@,
            relevant_model(project_memory@, parsed.path@),
            profile,
            memory_file_path@,
            source_index_file_path@,
        );
        assert(models(ids@) =~= seq![number_of(0), number_of(1)]);
        assert(field_models(memory_hint@) =~= model->Object_0[3].1->Object_0);
        assert(field_models(source_query@) =~= model->Object_0[6].1->Object_0);
        assert(field_models(memory_query@) =~= model->Object_0[7].1->Object_0);
        assert(field_models(stats@) =~= model->Object_0[8].1->Object_0);
        assert(field_models(fields@) =~= model->Object_0);
    }
    finish(render_json(&context), "file prompt input")
}

// ---------------------------------------------------------------------------
// The indexes of a project
// ---------------------------------------------------------------------------

pub open spec fn chunk_value(chunk: ChunkModel) -> JsonModel {
    JsonModel::Object(
        seq![
            ("chunk_id"@, number_of(chunk.chunk_id)),
            ("start_line"@, number_of(chunk.start_line)),
            ("end_line"@, number_of(chunk.end_line)),
            ("content"@, text_of(chunk.content)),
        ],
    )
}

pub open spec fn chunk_values(chunks: Seq<ChunkModel>) -> JsonModel {
    JsonModel::List(Seq::new(chunks.len(), |i: int| chunk_value(chunks[i])))
}

/// The index of one source as a value.
pub open spec fn index_value(index: SourceIndex) -> JsonModel {
    JsonModel::Object(
        seq![
            ("language"@, text_of(index.language@)),
            ("line_count"@, number_of(index.line_count as int)),
            ("chunk_count"@, number_of(index.chunk_count as int)),
            ("chunks"@, chunk_values(chunk_models(index.chunks@))),
        ],
    )
}

fn chunk_json(chunk: &SourceChunk) -> (r: Json)
    ensures
        r.model() == chunk_value(chunk@),
{
    let mut fields: Vec<(String, Json)> = Vec::new();
    fields.push((key("chunk_id"), number(chunk.chunk_id)));
    fields.push((key("start_line"), number(chunk.start_line)));
    fields.push((key("end_line"), number(chunk.end_line)));
    fields.push((key("content"), text(chunk.content.as_str())));
    let r = object(fields);
    assert(field_models(fields@) =~= chunk_value(chunk@)->Object_0);
    r
}

pub(crate) fn chunks_json(chunks: &Vec<SourceChunk>) -> (r: Json)
    ensures
        r.model() == chunk_values(chunk_models(chunks@)),
{
    let mut items: Vec<Json> = Vec::new();
    let mut i: usize = 0;
    while i < chunks.len()
        invariant
            i <= chunks.len(),
            items@.len() == i,
            forall|j: int|
                0 <= j < i ==> (#[trigger] items@[j]).model() == chunk_value(chunks@[j]@),
        decreases chunks.len() - i,
    {
        items.push(chunk_json(&chunks[i]));
        i += 1;
    }
    let r = list(items);
    assert(models(items@) =~= chunk_values(chunk_models(chunks@))->List_0);
    r
}

fn index_json(index: &SourceIndex) -> (r: Json)
    ensures
        r.model() == index_value(*index),
{
    let mut fields: Vec<(String, Json)> = Vec::new();
    fields.push((key("language"), text(index.language.as_str())));
    fields.push((key("line_count"), number(index.line_count)));
    fields.push((key("chunk_count"), number(index.chunk_count)));
    fields.push((key("chunks"), chunks_json(&index.chunks)));
    let r = object(fields);
    assert(field_models(fields@) =~= index_value(*index)->Object_0);
    r
}

/// What the index of a project says of one file: its path and the index
/// of its source.
pub open spec fn project_entry(parsed: ParsedFile) -> JsonModel {
    JsonModel::Object(
        seq![
            ("path"@, text_of(parsed.relative_path@)),
            ("symbols"@, index_value(parsed.source_index)),
        ],
    )
}

/// The index of a project: its name, the number of its files, and the
/// files.
pub open spec fn project_index(project_name: Seq<char>, files: Seq<ParsedFile>) -> JsonModel {
    JsonModel::Object(
        seq![
            ("project"@, text_of(project_name)),
            ("file_count"@, number_of(files.len() as int)),
            ("files"@, JsonModel::List(Seq::new(files.len(), |i: int| project_entry(files[i])))),
        ],
    )
}

pub fn build_project_index(project_name: &str, parsed_files: &Vec<ParsedFile>) -> (r: Result<
    String,
    PlainSightError,
>)
    ensures
        outcome(r) == written(
            rendered_pretty(project_index(project_name@, parsed_files@)),
            "project index"@,
        ),
{
    let mut files: Vec<Json> = Vec::new();
    let mut i: usize = 0;
    while i < parsed_files.len()
        invariant
            i <= parsed_files.len(),
            files@.len() == i,
            forall|j: int|
                0 <= j < i ==> (#[trigger] files@[j]).model() == project_entry(parsed_files@[j]),
        decreases parsed_files.len() - i,
    {
        let parsed = &parsed_files[i];
        let mut entry: Vec<(String, Json)> = Vec::new();
        entry.push((key("path"), text(parsed.relative_path.as_str())));
        entry.push((key("symbols"), index_json(&parsed.source_index)));
        let e = object(entry);
        assert(field_models(entry@) =~= project_entry(*parsed)->Object_0);
        files.push(e);
        i += 1;
    }
    let mut fields: Vec<(String, Json)> = Vec::new();
    fields.push((key("project"), text(project_name)));
    fields.push((key("file_count"), number(parsed_files.len())));
    let listed = list(files);
    assert(models(files@) =~= Seq::new(
        parsed_files@.len(),
        |i: int| project_entry(parsed_files@[i]),
    ));
    fields.push((key("files"), listed));
    let index = object(fields);
    assert(field_models(fields@) =~= project_index(project_name@, parsed_files@)->Object_0);
    finish(render_json_pretty(&index), "project index")
}

/// What the index of the sources says of one file.
pub open spec fn source_entry(parsed: ParsedFile) -> JsonModel {
    JsonModel::Object(
        seq![
            ("path"@, text_of(parsed.relative_path@)),
            ("language"@, text_of(parsed.language@)),
            ("line_count"@, number_of(parsed.source_index.line_count as int)),
            ("chunk_count"@, number_of(parsed.source_index.chunk_count as int)),
            ("chunks"@, chunk_values(chunk_models(parsed.source_index.chunks@))),
        ],
    )
}

/// The index of the sources of a project: every file with its chunks.
pub open spec fn source_index_value(files: Seq<ParsedFile>) -> JsonModel {
    JsonModel::Object(
        seq![("files"@, JsonModel::List(Seq::new(files.len(), |i: int| source_entry(files[i]))))],
    )
}

/// The index of the sources as JSON text, to be kept beside the
/// documents.
pub fn source_index_text(parsed_files: &Vec<ParsedFile>) -> (r: Result<String, PlainSightError>)
    ensures
        outcome(r) == written(
            rendered_pretty(source_index_value(parsed_files@)),
            "source index"@,
        ),
{
    let mut files: Vec<Json> = Vec::new();
    let mut i: usize = 0;
    while i < parsed_files.len()
        invariant
            i <= parsed_files.len(),
            files@.len() == i,
            forall|j: int|
                0 <= j < i ==> (#[trigger] files@[j]).model() == source_entry(parsed_files@[j]),
        decreases parsed_files.len() - i,
    {
        let parsed = &parsed_files[i];
        let mut entry: Vec<(String, Json)> = Vec::new();
        entry.push((key("path"), text(parsed.relative_path.as_str())));
        entry.push((key("language"), text(parsed.language.as_str())));
        entry.push((key("line_count"), number(parsed.source_index.line_count)));
        entry.push((key("chunk_count"), number(parsed.source_index.chunk_count)));
        entry.push((key("chunks"), chunks_json(&parsed.source_index.chunks)));
        let e = object(entry);
        assert(field_models(entry@) =~= source_entry(*parsed)->Object_0);
        files.push(e);
        i += 1;
    }
    let listed = list(files);
    assert(models(files@) =~= Seq::new(
        parsed_files@.len(),
        |i: int| source_entry(parsed_files@[i]),
    ));
    let mut fields: Vec<(String, Json)> = Vec::new();
    fields.push((key("files"), listed));
    let index = object(fields);
    assert(field_models(fields@) =~= source_index_value(parsed_files@)->Object_0);
    finish(render_json_pretty(&index), "source index")
}

// ---------------------------------------------------------------------------
// The index of a project whose files were searched for symbols
// ---------------------------------------------------------------------------

/// A file with what was found in it, as JSON text.
pub struct SearchedFile {
    pub relative_path: String,
    pub json: String,
}

/// The first file whose text is no JSON; the number of files where every
/// text is.
pub open spec fn first_unreadable(files: Seq<SearchedFile>, from: int) -> int
    decreases files.len() - from,
{
    if from < 0 || from >= files.len() {
        files.len() as int
    } else if parsed_json(files[from].json@) is Err {
        from
    } else {
        first_unreadable(files, from + 1)
    }
}

pub open spec fn searched_entry(file: SearchedFile) -> JsonModel {
    JsonModel::Object(
        seq![
            ("path"@, text_of(file.relative_path@)),
            ("symbols"@, match parsed_json(file.json@) {
                Ok(symbols) => symbols,
                Err(_) => JsonModel::Null,
            }),
        ],
    )
}

/// The index of a project by what was found in its files.
pub open spec fn searched_index(project_name: Seq<char>, files: Seq<SearchedFile>) -> JsonModel {
    JsonModel::Object(
        seq![
            ("project"@, text_of(project_name)),
            ("file_count"@, number_of(files.len() as int)),
            ("files"@, JsonModel::List(Seq::new(files.len(), |i: int| searched_entry(files[i])))),
        ],
    )
}

/// What is said of a file whose text is no JSON.
pub open spec fn unreadable_text(file: SearchedFile) -> Seq<char> {
    "deserializing parsed json for '"@ + file.relative_path@ + "' failed: "@ + match parsed_json(
        file.json@,
    ) {
        Ok(_) => Seq::empty(),
        Err(problem) => problem,
    }
}

/// The index of a project as JSON text. The first file whose text is no
/// JSON ends the work with an error.
pub fn build_project_index_json(project_name: &str, parsed_files: &Vec<SearchedFile>) -> (r: Result<
    String,
    PlainSightError,
>)
    ensures
        outcome(r) == (if first_unreadable(parsed_files@, 0) < parsed_files.len() {
            Err(
                ErrorModel::InvalidState(
                    unreadable_text(parsed_files@[first_unreadable(parsed_files@, 0)]),
                ),
            )
        } else {
            written(
                rendered_pretty(searched_index(project_name@, parsed_files@)),
                "project index"@,
            )
        }),
{
    let mut files: Vec<Json> = Vec::new();
    let mut i: usize = 0;
    while i < parsed_files.len()
        invariant
            i <= parsed_files.len(),
            files@.len() == i,
            first_unreadable(parsed_files@, 0) == first_unreadable(parsed_files@, i as int),
            forall|j: int|
                0 <= j < i ==> (#[trigger] files@[j]).model() == searched_entry(parsed_files@[j]),
        decreases parsed_files.len() - i,
    {
        let parsed = &parsed_files[i];
        match parse_json(parsed.json.as_str()) {
            Ok(symbols) => {
                let mut entry: Vec<(String, Json)> = Vec::new();
                entry.push((key("path"), text(parsed.relative_path.as_str())));
                entry.push((key("symbols"), symbols));
                let e = object(entry);
                assert(field_models(entry@) =~= searched_entry(*parsed)->Object_0);
                files.push(e);
            },
            Err(problem) => {
                proof {
                    reveal_with_fuel(glued, 5);
                }
                let parts: Vec<&str> = vec![
                    "deserializing parsed json for '",
                    parsed.relative_path.as_str(),
                    "' failed: ",
                    problem.as_str(),
                ];
                let message = concat(&parts);
                assert(message@ =~= unreadable_text(*parsed));
                return Err(PlainSightError::InvalidState(message));
            },
        }
        i += 1;
    }
    let mut fields: Vec<(String, Json)> = Vec::new();
    fields.push((key("project"), text(project_name)));
    fields.push((key("file_count"), number(parsed_files.len())));
    let listed = list(files);
    assert(models(files@) =~= Seq::new(
        parsed_files@.len(),
        |i: int| searched_entry(parsed_files@[i]),
    ));
    fields.push((key("files"), listed));
    let index = object(fields);
    assert(field_models(fields@) =~= searched_index(project_name@, parsed_files@)->Object_0);
    finish(render_json_pretty(&index), "project index")
}

} // verus!
