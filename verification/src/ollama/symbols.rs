//! A project index in which each file lists its symbols by kind, and the
//! digest of it by the names of the symbols.

use crate::json::{
    field_index, field_models, models, parse_json, parsed_json, render_json_pretty,
    rendered_pretty, Json, JsonModel,
};
use crate::memory::file_memory::capped;
use crate::ollama::payload::text_field;
use crate::text::{chars_of, decimal, same_text, string_of, to_decimal};
use vstd::prelude::*;

verus! {

// ---------------------------------------------------------------------------
// Names
// ---------------------------------------------------------------------------

/// The name of a symbol: the text of its field `name`.
pub open spec fn name_in(item: JsonModel) -> Option<Seq<char>> {
    match item.field("name"@) {
        Some(name) => name.text(),
        None => None,
    }
}

/// The names of the items that have one, in the order of the items.
pub open spec fn names_in(items: Seq<JsonModel>) -> Seq<Seq<char>>
    decreases items.len(),
{
    if items.len() == 0 {
        Seq::empty()
    } else {
        let init = names_in(items.drop_last());
        match name_in(items.last()) {
            Some(name) => init.push(name),
            None => init,
        }
    }
}

/// The first `max` names of the symbols listed under `key`; none where
/// there is no such list.
pub open spec fn symbol_names(root: JsonModel, key: Seq<char>, max: int) -> Seq<Seq<char>> {
    match root.field(key) {
        Some(listed) => match listed.list() {
            Some(items) => capped(names_in(items), max),
            None => Seq::empty(),
        },
        None => Seq::empty(),
    }
}

proof fn lemma_names_grow(items: Seq<JsonModel>, i: int)
    requires
        0 <= i <= items.len(),
    ensures
        names_in(items.take(i)).len() <= names_in(items).len(),
        names_in(items.take(i)) == names_in(items).take(names_in(items.take(i)).len() as int),
    decreases items.len() - i,
{
    if i < items.len() {
        lemma_names_grow(items, i + 1);
        assert(items.take(i + 1).drop_last() =~= items.take(i));
        let next = names_in(items.take(i + 1));
        let now = names_in(items.take(i));
        assert(now =~= next.take(now.len() as int));
        assert(now =~= names_in(items).take(now.len() as int));
    } else {
        assert(items.take(i) =~= items);
        assert(names_in(items) =~= names_in(items).take(names_in(items).len() as int));
    }
}

pub fn collect_symbol_names(root: &Json, key: &str, max: usize) -> (r: Vec<Vec<char>>)
    ensures
        crate::split::rows(r@) == symbol_names(root.model(), key@, max as int),
{
    let mut out: Vec<Vec<char>> = Vec::new();
    assert(crate::split::rows(out@) =~= Seq::<Seq<char>>::empty());
    let items = match root.get(key) {
        Some(listed) => match listed.as_array() {
            Some(items) => items,
            None => {
                return out;
            },
        },
        None => {
            return out;
        },
    };
    let ghost all = models(items@);
    let mut i: usize = 0;
    assert(all.take(0) =~= Seq::<JsonModel>::empty());
    while i < items.len() && out.len() < max
        invariant
            i <= items.len(),
            all == models(items@),
            out.len() <= max,
            crate::split::rows(out@) == names_in(all.take(i as int)),
        decreases items.len() - i,
    {
        proof {
            assert(all.take(i + 1).drop_last() =~= all.take(i as int));
            assert(all.take(i + 1).last() == items@[i as int].model());
        }
        match items[i].get("name") {
            Some(name) => match name.as_str() {
                Some(text) => {
                    let ghost before = out@;
                    let t = chars_of(text);
                    out.push(t);
                    proof {
                        crate::split::lemma_rows_push(before, t);
                    }
                },
                None => {},
            },
            None => {},
        }
        i += 1;
    }
    proof {
        lemma_names_grow(all, i as int);
        let found = names_in(all.take(i as int));
        assert(found.len() == out.len());
        if i == items.len() {
            assert(all.take(i as int) =~= all);
        } else {
            assert(found.len() == max);
            assert(found =~= names_in(all).take(max as int));
            if names_in(all).len() == max {
                assert(names_in(all).take(max as int) =~= names_in(all));
            }
        }
    }
    out
}

// ---------------------------------------------------------------------------
// The digest
// ---------------------------------------------------------------------------

pub open spec fn text_list(names: Seq<Seq<char>>) -> JsonModel {
    JsonModel::List(Seq::new(names.len(), |i: int| JsonModel::Text(names[i])))
}

/// What the digest says of one file: its path, how many functions, types,
/// imports and variables are named, and the names themselves.
pub open spec fn symbol_entry(file: JsonModel, include_import_names: bool) -> JsonModel {
    let symbols = match file.field("symbols"@) {
        Some(symbols) => symbols,
        None => JsonModel::Null,
    };
    let functions = symbol_names(symbols, "functions"@, 10);
    let types = symbol_names(symbols, "types"@, 10);
    let imports = symbol_names(symbols, "imports"@, 8);
    let variables = symbol_names(symbols, "variables"@, 8);
    let base = seq![
        ("path"@, JsonModel::Text(text_field(file, "path"@, "unknown"@))),
        ("function_count"@, JsonModel::Number(decimal(functions.len()))),
        ("type_count"@, JsonModel::Number(decimal(types.len()))),
        ("import_count"@, JsonModel::Number(decimal(imports.len()))),
        ("variable_count"@, JsonModel::Number(decimal(variables.len()))),
        ("top_functions"@, text_list(functions)),
        ("top_types"@, text_list(types)),
    ];
    if include_import_names {
        JsonModel::Object(base.push(("top_imports"@, text_list(imports))))
    } else {
        JsonModel::Object(base)
    }
}

pub open spec fn symbol_entries(files: Seq<JsonModel>, include_import_names: bool) -> Seq<
    JsonModel,
> {
    Seq::new(files.len(), |i: int| symbol_entry(files[i], include_import_names))
}

/// The digest of a project index by names. An index without a list of
/// files has none.
pub open spec fn symbol_digest_of(index: JsonModel, include_import_names: bool) -> Option<
    JsonModel,
> {
    match index.field("files"@) {
        Some(files) => match files.list() {
            Some(items) => Some(
                JsonModel::Object(
                    seq![
                        ("project"@, match index.field("project"@) {
                            Some(project) => project,
                            None => JsonModel::Text("unknown"@),
                        }),
                        ("file_count"@, match index.field("file_count"@) {
                            Some(count) => count,
                            None => JsonModel::Number(decimal(items.len())),
                        }),
                        ("files"@, JsonModel::List(symbol_entries(items, include_import_names))),
                    ],
                ),
            ),
            None => None,
        },
        None => None,
    }
}

fn key_of(key: &str) -> (r: String)
    ensures
        r@ == key@,
{
    string_of(chars_of(key).as_slice())
}

fn count_of(n: usize) -> (r: Json)
    ensures
        r.model() == JsonModel::Number(decimal(n as nat)),
{
    Json::Number(string_of(to_decimal(n as u64).as_slice()))
}

fn list_of(names: &Vec<Vec<char>>) -> (r: Json)
    ensures
        r.model() == text_list(crate::split::rows(names@)),
{
    let mut items: Vec<Json> = Vec::new();
    let mut i: usize = 0;
    while i < names.len()
        invariant
            i <= names.len(),
            items@.len() == i,
            forall|j: int|
                0 <= j < i ==> (#[trigger] items@[j]).model() == JsonModel::Text(names@[j]@),
        decreases names.len() - i,
    {
        items.push(Json::Text(string_of(names[i].as_slice())));
        i += 1;
    }
    proof {
        Json::lemma_list_model(items);
        assert(models(items@) =~= Seq::new(
            names@.len(),
            |i: int| JsonModel::Text(crate::split::rows(names@)[i]),
        ));
    }
    Json::List(items)
}

fn entry_of(file: &Json, include_import_names: bool) -> (r: Json)
    ensures
        r.model() == symbol_entry(file.model(), include_import_names),
{
    let null = Json::Null;
    let symbols: &Json = match file.get("symbols") {
        Some(symbols) => symbols,
        None => &null,
    };
    let path = match file.get("path") {
        Some(field) => match field.as_str() {
            Some(text) => key_of(text),
            None => key_of("unknown"),
        },
        None => key_of("unknown"),
    };
    let functions = collect_symbol_names(symbols, "functions", 10);
    let types = collect_symbol_names(symbols, "types", 10);
    let imports = collect_symbol_names(symbols, "imports", 8);
    let variables = collect_symbol_names(symbols, "variables", 8);
    let mut fields: Vec<(String, Json)> = Vec::new();
    fields.push((key_of("path"), Json::Text(path)));
    fields.push((key_of("function_count"), count_of(functions.len())));
    fields.push((key_of("type_count"), count_of(types.len())));
    fields.push((key_of("import_count"), count_of(imports.len())));
    fields.push((key_of("variable_count"), count_of(variables.len())));
    fields.push((key_of("top_functions"), list_of(&functions)));
    fields.push((key_of("top_types"), list_of(&types)));
    if include_import_names {
        fields.push((key_of("top_imports"), list_of(&imports)));
    }
    proof {
        Json::lemma_object_model(fields);
        assert(field_models(fields@) =~= symbol_entry(
            file.model(),
            include_import_names,
        )->Object_0);
    }
    Json::Object(fields)
}

pub fn symbol_digest(index: &Json, include_import_names: bool) -> (r: Option<Json>)
    ensures
        match r {
            Some(digest) => symbol_digest_of(index.model(), include_import_names) == Some(
                digest.model(),
            ),
            None => symbol_digest_of(index.model(), include_import_names) is None,
        },
{
    let files = match index.get("files") {
        Some(files) => match files.as_array() {
            Some(items) => items,
            None => {
                return None;
            },
        },
        None => {
            return None;
        },
    };
    let ghost items = models(files@);
    let mut entries: Vec<Json> = Vec::new();
    let mut i: usize = 0;
    while i < files.len()
        invariant
            i <= files.len(),
            items == models(files@),
            entries@.len() == i,
            forall|j: int|
                0 <= j < i ==> (#[trigger] entries@[j]).model() == symbol_entry(
                    items[j],
                    include_import_names,
                ),
        decreases files.len() - i,
    {
        assert(items[i as int] == files@[i as int].model());
        entries.push(entry_of(&files[i], include_import_names));
        i += 1;
    }
    let project = match index.get("project") {
        Some(project) => project.copy(),
        None => Json::Text(key_of("unknown")),
    };
    let file_count = match index.get("file_count") {
        Some(count) => count.copy(),
        None => count_of(files.len()),
    };
    let mut fields: Vec<(String, Json)> = Vec::new();
    fields.push((key_of("project"), project));
    fields.push((key_of("file_count"), file_count));
    proof {
        Json::lemma_list_model(entries);
        assert(models(entries@) =~= symbol_entries(items, include_import_names));
    }
    fields.push((key_of("files"), Json::List(entries)));
    proof {
        Json::lemma_object_model(fields);
        assert(field_models(fields@) =~= symbol_digest_of(
            index.model(),
            include_import_names,
        )->0->Object_0);
    }
    Some(Json::Object(fields))
}

/// The digest of the project index in a JSON text, written on several
/// lines.
pub fn build_symbol_digest(json: &str, include_import_names: bool) -> (r: Result<String, String>)
    ensures
        match parsed_json(json@) {
            Ok(index) => match symbol_digest_of(index, include_import_names) {
                Some(digest) => match r {
                    Ok(text) => rendered_pretty(digest) == Ok::<Seq<char>, Seq<char>>(text@),
                    Err(message) => rendered_pretty(digest) == Err::<Seq<char>, Seq<char>>(
                        message@,
                    ),
                },
                None => r matches Err(message) && message@
                    == "project index input missing 'files' array"@,
            },
            Err(problem) => r matches Err(message) && message@ == problem,
        },
{
    match parse_json(json) {
        Ok(index) => match symbol_digest(&index, include_import_names) {
            Some(digest) => render_json_pretty(&digest),
            None => Err(key_of("project index input missing 'files' array")),
        },
        Err(message) => Err(message),
    }
}

// ---------------------------------------------------------------------------
// Leaving fields out
// ---------------------------------------------------------------------------

/// The fields without the one at `i`: the last field takes its place.
pub open spec fn swap_removed<T>(fields: Seq<T>, i: int) -> Seq<T> {
    if i == fields.len() - 1 {
        fields.drop_last()
    } else {
        fields.drop_last().update(i, fields.last())
    }
}

/// The object without the field of a key, the last field in its place. An
/// object without the field, and what is no object, stays as it is.
pub open spec fn without_field(value: JsonModel, key: Seq<char>) -> JsonModel {
    match value {
        JsonModel::Object(fields) => match field_index(fields, key, fields.len() as int) {
            Some(i) => JsonModel::Object(swap_removed(fields, i)),
            None => value,
        },
        _ => value,
    }
}

#[verifier::loop_isolation(false)]
pub fn remove_field(value: Json, key: &str) -> (r: Json)
    ensures
        r.model() == without_field(value.model(), key@),
{
    match value {
        Json::Object(fields) => {
            let mut fields = fields;
            let ghost before = fields;
            let ghost fm = field_models(before@);
            proof {
                Json::lemma_object_model(before);
            }
            let mut i: usize = fields.len();
            while i > 0
                invariant
                    i <= fields.len(),
                    fields == before,
                    field_index(fm, key@, before@.len() as int) == field_index(fm, key@, i as int),
                decreases i,
            {
                i -= 1;
                assert(fm[i as int] == (before@[i as int].0@, before@[i as int].1.model()));
                if same_text(fields[i].0.as_str(), key) {
                    let last = fields.pop().unwrap();
                    if i < fields.len() {
                        fields.set(i, last);
                    }
                    proof {
                        Json::lemma_object_model(fields);
                        assert(field_models(fields@) =~= swap_removed(fm, i as int));
                    }
                    return Json::Object(fields);
                }
            }
            Json::Object(fields)
        },
        other => other,
    }
}

/// A file's symbols as a summary takes them in: without imports and
/// variables.
pub open spec fn summary_symbols(value: JsonModel) -> JsonModel {
    without_field(without_field(value, "imports"@), "variables"@)
}

fn pretty_without(json: &str, first: Option<&str>, second: &str) -> (r: Result<String, String>)
    ensures
        match parsed_json(json@) {
            Ok(value) => {
                let kept = without_field(
                    match first {
                        Some(key) => without_field(value, key@),
                        None => value,
                    },
                    second@,
                );
                match r {
                    Ok(text) => rendered_pretty(kept) == Ok::<Seq<char>, Seq<char>>(text@),
                    Err(message) => rendered_pretty(kept) == Err::<Seq<char>, Seq<char>>(
                        message@,
                    ),
                }
            },
            Err(problem) => r matches Err(message) && message@ == problem,
        },
{
    match parse_json(json) {
        Ok(value) => {
            let value = match first {
                Some(key) => remove_field(value, key),
                None => value,
            };
            render_json_pretty(&remove_field(value, second))
        },
        Err(message) => Err(message),
    }
}

/// The symbols of a file as a summary takes them in, written on several
/// lines.
pub fn summary_symbols_input(json: &str) -> (r: Result<String, String>)
    ensures
        match parsed_json(json@) {
            Ok(value) => match r {
                Ok(text) => rendered_pretty(summary_symbols(value)) == Ok::<
                    Seq<char>,
                    Seq<char>,
                >(text@),
                Err(message) => rendered_pretty(summary_symbols(value)) == Err::<
                    Seq<char>,
                    Seq<char>,
                >(message@),
            },
            Err(problem) => r matches Err(message) && message@ == problem,
        },
{
    pretty_without(json, Some("imports"), "variables")
}

/// The symbols of a file as a documentation takes them in, without
/// variables, written on several lines.
pub fn docs_symbols_input(json: &str) -> (r: Result<String, String>)
    ensures
        match parsed_json(json@) {
            Ok(value) => match r {
                Ok(text) => rendered_pretty(without_field(value, "variables"@)) == Ok::<
                    Seq<char>,
                    Seq<char>,
                >(text@),
                Err(message) => rendered_pretty(without_field(value, "variables"@)) == Err::<
                    Seq<char>,
                    Seq<char>,
                >(message@),
            },
            Err(problem) => r matches Err(message) && message@ == problem,
        },
{
    pretty_without(json, None, "variables")
}

} // verus!
