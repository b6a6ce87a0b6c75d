use plainsight::ollama::tools::{missing_file_answer, tool_error};
use plainsight::ollama::tools::file_source_answer;
use plainsight::ollama::tools::find_stored;
use plainsight::ollama::client::models_to_unload;
use plainsight::workflow::context::{build_project_index_json, SearchedFile};
use plainsight::error::PlainSightError;
use plainsight::json::Json;
use plainsight::memory::{build_file_memory, build_project_memory};
use plainsight::ollama::client::{
    architecture_prompt, document_prompt, generation_result, list_models_error,
    postprocess_output, summarize_prompt, unload_result, Reply, Unload,
};
use plainsight::ollama::config::{default_task_config, DEFAULT_MODEL};
use plainsight::ollama::payload::{
    prepare_architecture_input, prepare_file_docs_input, prepare_file_summary_input,
};
use plainsight::ollama::prompts::{
    build_architecture_prompt, build_doc_prompt, build_summary_prompt,
};
use plainsight::ollama::symbols::{
    build_symbol_digest, collect_symbol_names, docs_symbols_input, remove_field,
    summary_symbols_input, symbol_digest,
};
use plainsight::ollama::{OllamaConfig, Task, TaskProfiles};
use plainsight::source_indexer::build_source_index;
use plainsight::workflow::context::{
    build_file_prompt_input, build_project_index, source_index_text,
};
use plainsight::workflow::types::{ParsedFile, PromptProfile};

const TASKS: [Task; 4] =
    [Task::Documentation, Task::ProjectSummary, Task::Architecture, Task::Summarize];

fn value(text: &str) -> serde_json::Value {
    serde_json::from_str(text).unwrap()
}

fn json(text: &str) -> Json {
    fn from(v: &serde_json::Value) -> Json {
        match v {
            serde_json::Value::Null => Json::Null,
            serde_json::Value::Bool(b) => Json::Bool(*b),
            serde_json::Value::Number(n) => Json::Number(n.to_string()),
            serde_json::Value::String(s) => Json::Text(s.clone()),
            serde_json::Value::Array(a) => Json::List(a.iter().map(from).collect()),
            serde_json::Value::Object(m) => {
                Json::Object(m.iter().map(|(k, v)| (k.clone(), from(v))).collect())
            }
        }
    }
    from(&value(text))
}

fn keys(j: &Json) -> Vec<String> {
    match j {
        Json::Object(fields) => fields.iter().map(|(k, _)| k.clone()).collect(),
        _ => vec![],
    }
}

// ---------------------------------------------------------------------
// Settings
// ---------------------------------------------------------------------

#[test]
fn settings_before_anything_is_configured() {
    let config = OllamaConfig::default();
    assert_eq!(config.lock_timeout, 30);
    assert_eq!(config.unload_timeout, 30);
    assert_eq!(config.keep_alive_minutes, 30);
    let expected = [
        (Task::Documentation, 10, 4096, 900),
        (Task::ProjectSummary, 10, 4096, 700),
        (Task::Architecture, 10, 6144, 1000),
        (Task::Summarize, 20, 4096, 300),
    ];
    for (task, temperature, num_ctx, num_predict) in expected {
        let t = config.tasks.for_task(task);
        assert_eq!(t.model, "phi4-mini:3.8b");
        assert_eq!(t.model, DEFAULT_MODEL);
        assert_eq!(t.temperature, temperature);
        assert_eq!(t.num_ctx, num_ctx);
        assert_eq!(t.num_predict, num_predict);
        assert_eq!(t.generate_timeout, None);
        let alone = default_task_config(task);
        assert_eq!((alone.temperature, alone.num_ctx, alone.num_predict), (temperature, num_ctx, num_predict));
    }
}

#[test]
fn one_model_for_every_task() {
    let mut profiles = TaskProfiles::default();
    profiles.summarize.generate_timeout = Some(90);
    profiles.set_model_for_all("llama3.1:8b".to_string());
    for task in TASKS {
        assert_eq!(profiles.for_task(task).model, "llama3.1:8b");
    }
    assert_eq!(profiles.summarize.generate_timeout, Some(90));
    assert_eq!(profiles.architecture.num_ctx, 6144);
    assert_eq!(profiles.summarize.temperature, 20);

    let config = OllamaConfig { lock_timeout: 5, ..OllamaConfig::default() };
    let config = config.with_model("tiny".to_string());
    assert_eq!(config.lock_timeout, 5);
    assert_eq!(config.keep_alive_minutes, 30);
    for task in TASKS {
        assert_eq!(config.tasks.for_task(task).model, "tiny");
    }
    assert_eq!(config.tasks.documentation.num_predict, 900);
    let copy = config.clone();
    assert_eq!(copy.tasks.summarize.model, "tiny");
    assert_eq!(copy.lock_timeout, 5);
}

#[test]
fn models_and_names_of_tasks() {
    assert_eq!(Task::Documentation.model(), "qwen2.5-coder:7b");
    assert_eq!(Task::ProjectSummary.model(), "llama3.1:8b");
    assert_eq!(Task::Architecture.model(), "qwen2.5-coder:7b");
    assert_eq!(Task::Summarize.model(), "llama3.1:8b");
    assert_eq!(Task::Summarize.name(), "Summarize");
    assert_eq!(
        TASKS.map(|task| task.temperature()),
        [10, 20, 10, 30]
    );
}

// ---------------------------------------------------------------------
// Prompts and answers
// ---------------------------------------------------------------------

const CONTEXT: &str = r#"{"path":"src/a.rs","language":"rust","source_index":{"chunks":[{"chunk_id":0,"content":"fn a() {}"}]}}"#;

#[test]
fn prompts_are_built_from_the_prepared_context() {
    let prepared = prepare_file_summary_input(CONTEXT).unwrap();
    assert_eq!(summarize_prompt(CONTEXT).unwrap(), build_summary_prompt(&prepared));
    let prepared = prepare_file_docs_input(CONTEXT).unwrap();
    assert_eq!(document_prompt(CONTEXT).unwrap(), build_doc_prompt(&prepared));
    let index = r#"{"project":"p","files":[{"path":"a.rs","symbols":{"line_count":3}}]}"#;
    let prepared = prepare_architecture_input(index).unwrap();
    assert_eq!(
        architecture_prompt("p", index).unwrap(),
        build_architecture_prompt("p", &prepared)
    );
}

#[test]
fn a_context_that_cannot_be_read_gives_no_prompt() {
    let problem = serde_json::from_str::<serde_json::Value>("{not json").unwrap_err().to_string();
    assert_eq!(summarize_prompt("{not json").unwrap_err(), problem);
    assert_eq!(document_prompt("{not json").unwrap_err(), problem);
    assert_eq!(architecture_prompt("p", "{not json").unwrap_err(), problem);
    assert_eq!(
        architecture_prompt("p", r#"{"project":"p"}"#).unwrap_err(),
        "project index input missing 'files' array"
    );
}

#[test]
fn an_answer_is_unfenced_and_gets_its_note() {
    let out = postprocess_output(
        Task::Summarize,
        "m",
        "```markdown\n# Summary\nIt adds numbers.\n```".to_string(),
    )
    .unwrap();
    assert!(out.ends_with("# Summary\nIt adds numbers."), "{:?}", out);
    assert!(out.len() > "# Summary\nIt adds numbers.".len());
    assert!(!out.contains("```"));
    // Once the note is there it is not added again.
    let again = postprocess_output(Task::Summarize, "m", out.clone()).unwrap();
    assert_eq!(again, out);
}

#[test]
fn the_turn_and_the_answer() {
    assert_eq!(generation_result("m", Reply::Answer("text".to_string())), Ok("text".to_string()));
    assert_eq!(generation_result("m", Reply::Answer(String::new())), Ok(String::new()));
    assert_eq!(
        generation_result("m", Reply::LockClosed("semaphore closed".to_string())),
        Err("failed to acquire lock: semaphore closed".to_string())
    );
    assert_eq!(
        generation_result("phi4", Reply::LockTimeout),
        Err("timeout acquiring lock for model phi4".to_string())
    );
    assert_eq!(
        generation_result("phi4", Reply::Failure("connection refused".to_string())),
        Err("ollama error (phi4): connection refused".to_string())
    );
    assert_eq!(
        generation_result("phi4", Reply::Timeout(120)),
        Err("ollama error (phi4): request timeout after 120 seconds - model may have been killed or is in 'Stopping...' state".to_string())
    );
}

#[test]
fn asking_a_model_to_leave() {
    assert_eq!(unload_result("m", Unload::Done), Ok(()));
    assert_eq!(unload_result("m", Unload::Timeout), Ok(()));
    assert_eq!(
        unload_result("m", Unload::LockClosed("closed".to_string())),
        Err("failed to acquire lock for unload: closed".to_string())
    );
    assert_eq!(
        unload_result("m", Unload::LockTimeout),
        Err("timeout acquiring lock to unload model m".to_string())
    );
    assert_eq!(
        unload_result("m", Unload::Failure("gone".to_string())),
        Err("failed to unload model (m): gone".to_string())
    );
    assert_eq!(list_models_error("no route"), "failed to list models: no route");
}

// ---------------------------------------------------------------------
// Digest by names
// ---------------------------------------------------------------------

const SYMBOL_INDEX: &str = r#"{
  "project": "demo",
  "file_count": 7,
  "files": [
    {"path": "src/a.rs", "symbols": {
      "functions": [{"name": "f1"}, {"nameless": true}, {"name": 3}, {"name": "f2"}],
      "types": [{"name": "T"}],
      "imports": [{"name": "i1"}, {"name": "i2"}, {"name": "i3"}, {"name": "i4"}, {"name": "i5"},
                  {"name": "i6"}, {"name": "i7"}, {"name": "i8"}, {"name": "i9"}],
      "variables": "none"
    }},
    {"symbols": null},
    {"path": 5}
  ]
}"#;

#[test]
fn names_of_symbols() {
    let symbols = json(r#"{"functions":[{"name":"a"},{"x":1},{"name":"b"},{"name":"c"}],"types":{}}"#);
    let names = |key: &str, max: usize| -> Vec<String> {
        collect_symbol_names(&symbols, key, max).iter().map(|n| n.iter().collect()).collect()
    };
    assert_eq!(names("functions", 10), vec!["a", "b", "c"]);
    assert_eq!(names("functions", 2), vec!["a", "b"]);
    assert_eq!(names("functions", 0), Vec::<String>::new());
    assert_eq!(names("types", 10), Vec::<String>::new());
    assert_eq!(names("missing", 10), Vec::<String>::new());
}

#[test]
fn the_digest_counts_and_names() {
    let text = build_symbol_digest(SYMBOL_INDEX, true).unwrap();
    let expected = value(
        r#"{
      "project": "demo",
      "file_count": 7,
      "files": [
        {"path": "src/a.rs", "function_count": 2, "type_count": 1, "import_count": 8,
         "variable_count": 0, "top_functions": ["f1", "f2"], "top_types": ["T"],
         "top_imports": ["i1", "i2", "i3", "i4", "i5", "i6", "i7", "i8"]},
        {"path": "unknown", "function_count": 0, "type_count": 0, "import_count": 0,
         "variable_count": 0, "top_functions": [], "top_types": [], "top_imports": []},
        {"path": "unknown", "function_count": 0, "type_count": 0, "import_count": 0,
         "variable_count": 0, "top_functions": [], "top_types": [], "top_imports": []}
      ]
    }"#,
    );
    assert_eq!(text, serde_json::to_string_pretty(&expected).unwrap());

    let without = value(&build_symbol_digest(SYMBOL_INDEX, false).unwrap());
    assert!(without["files"][0].get("top_imports").is_none());
    assert_eq!(without["files"][0]["import_count"], value("8"));
}

#[test]
fn a_digest_needs_a_list_of_files() {
    assert_eq!(
        build_symbol_digest(r#"{"files": {}}"#, true).unwrap_err(),
        "project index input missing 'files' array"
    );
    assert!(symbol_digest(&json("[1, 2]"), true).is_none());
    let problem = serde_json::from_str::<serde_json::Value>("nope").unwrap_err().to_string();
    assert_eq!(build_symbol_digest("nope", true).unwrap_err(), problem);
    // Without a name and a count the digest says `unknown` and counts the files.
    let d = value(&build_symbol_digest(r#"{"files": [{}, {}]}"#, false).unwrap());
    assert_eq!(d["project"], value("\"unknown\""));
    assert_eq!(d["file_count"], value("2"));
}

#[test]
fn leaving_fields_out() {
    let v = json(r#"{"a":1,"b":2,"c":3,"d":4}"#);
    assert_eq!(keys(&remove_field(v.copy(), "b")), vec!["a", "d", "c"]);
    assert_eq!(keys(&remove_field(v.copy(), "d")), vec!["a", "b", "c"]);
    assert_eq!(keys(&remove_field(v.copy(), "x")), vec!["a", "b", "c", "d"]);
    assert_eq!(keys(&remove_field(json(r#"{"a":1}"#), "a")), Vec::<String>::new());
    assert!(matches!(remove_field(json("[1]"), "a"), Json::List(_)));

    let symbols = r#"{"functions":[],"imports":["x"],"types":[],"variables":["v"]}"#;
    let mut expected = value(symbols);
    expected.as_object_mut().unwrap().remove("imports");
    expected.as_object_mut().unwrap().remove("variables");
    assert_eq!(
        summary_symbols_input(symbols).unwrap(),
        serde_json::to_string_pretty(&expected).unwrap()
    );
    let mut expected = value(symbols);
    expected.as_object_mut().unwrap().remove("variables");
    assert_eq!(
        docs_symbols_input(symbols).unwrap(),
        serde_json::to_string_pretty(&expected).unwrap()
    );
    assert_eq!(docs_symbols_input("[1,2]").unwrap(), serde_json::to_string_pretty(&value("[1,2]")).unwrap());
    assert!(summary_symbols_input("{").is_err());
}

// ---------------------------------------------------------------------
// Contexts and indexes
// ---------------------------------------------------------------------

fn parsed(path: &str, relative: &str, language: &str, source: &str) -> ParsedFile {
    ParsedFile {
        path: path.to_string(),
        relative_path: relative.to_string(),
        language: language.to_string(),
        hash: "0".to_string(),
        source_index: build_source_index(source, language),
        memory: build_file_memory(relative, language, source),
    }
}

#[test]
fn the_context_of_a_file() {
    let foo = parsed("a/foo.rs", "a/foo.rs", "rust", "pub struct Config {\n    pub n: u8,\n}\n\nfn load() {}\n");
    let bar = parsed("a/bar.rs", "a/bar.rs", "rust", "use foo::Config;\n\nfn main() {}\n");
    let memory = build_project_memory(&vec![foo.memory.clone(), bar.memory.clone()]);
    let text = build_file_prompt_input(
        &foo,
        &memory,
        PromptProfile::Standard,
        "docs/.memory.json",
        "docs/.source_index.json",
    )
    .unwrap();
    let v = value(&text);
    assert_eq!(v["path"], value("\"a/foo.rs\""));
    assert_eq!(v["language"], value("\"rust\""));
    assert_eq!(v["source_preview"].as_str().unwrap(), foo.source_index.chunks[0].content);
    assert_eq!(v["file_memory_hint"]["symbol_count"].as_u64(), Some(foo.memory.symbols.len() as u64));
    assert_eq!(v["file_memory_hint"]["import_count"].as_u64(), Some(0));
    let top = v["file_memory_hint"]["top_symbols"].as_array().unwrap();
    assert_eq!(top.len(), foo.memory.symbols.len());
    assert_eq!(top[0], value(r#"{"name":"Config","kind":"struct","line":1}"#));
    assert_eq!(v["memory_file_path"], value("\"docs/.memory.json\""));
    assert_eq!(v["source_index_file_path"], value("\"docs/.source_index.json\""));
    assert_eq!(v["source_query"], value(r#"{"file_path":"a/foo.rs","chunk_ids":[0,1],"max_chars":3500}"#));
    assert_eq!(
        v["memory_query"],
        value(r#"{"file_path":"a/foo.rs","max_global_symbols":8,"max_open_items":4,"max_links":4}"#)
    );
    assert_eq!(
        v["project_memory_stats"],
        value(&format!(r#"{{"file_count":2,"unique_symbol_count":{}}}"#, memory.unique_symbol_count))
    );
    let order: Vec<&str> = v.as_object().unwrap().keys().map(|k| k.as_str()).collect();
    assert_eq!(
        order,
        vec![
            "path", "language", "source_preview", "file_memory_hint", "memory_file_path",
            "source_index_file_path", "source_query", "memory_query", "project_memory_stats"
        ]
    );
    // The text is written on one line.
    assert_eq!(text, serde_json::to_string(&v).unwrap());

    let compact = value(
        &build_file_prompt_input(&foo, &memory, PromptProfile::Compact, "m", "s").unwrap(),
    );
    assert_eq!(compact["source_query"]["max_chars"].as_u64(), Some(1800));
}

#[test]
fn a_long_file_is_previewed_and_its_symbols_capped() {
    let mut source = String::new();
    for i in 0..40 {
        source.push_str(&format!("fn function_number_{i}() {{}}\n"));
    }
    let file = parsed("big.rs", "big.rs", "rust", &source);
    let memory = build_project_memory(&vec![file.memory.clone()]);
    let v = value(&build_file_prompt_input(&file, &memory, PromptProfile::Compact, "m", "s").unwrap());
    let preview = v["source_preview"].as_str().unwrap();
    assert_eq!(preview.chars().count(), 353);
    assert!(preview.ends_with("..."));
    assert!(source.starts_with(&preview[..350]));
    // The compact profile keeps 30 symbols, of which the first 8 are shown.
    assert_eq!(v["file_memory_hint"]["symbol_count"].as_u64(), Some(30));
    assert_eq!(v["file_memory_hint"]["top_symbols"].as_array().unwrap().len(), 8);
    assert_eq!(v["memory_query"]["max_global_symbols"].as_u64(), Some(20));
}

#[test]
fn the_index_of_a_project() {
    let a = parsed("/p/a.rs", "a.rs", "rust", "fn a() {}\nfn b() {}\n");
    let b = parsed("/p/b.py", "b.py", "python", "");
    let text = build_project_index("demo", &vec![a, b]).unwrap();
    let expected = value(
        r#"{
      "project": "demo",
      "file_count": 2,
      "files": [
        {"path": "a.rs", "symbols": {"language": "rust", "line_count": 2, "chunk_count": 1,
          "chunks": [{"chunk_id": 0, "start_line": 1, "end_line": 2, "content": "fn a() {}\nfn b() {}"}]}},
        {"path": "b.py", "symbols": {"language": "python", "line_count": 0, "chunk_count": 0, "chunks": []}}
      ]
    }"#,
    );
    assert_eq!(text, serde_json::to_string_pretty(&expected).unwrap());
    let none = value(&build_project_index("empty", &vec![]).unwrap());
    assert_eq!(none, value(r#"{"project":"empty","file_count":0,"files":[]}"#));
}

#[test]
fn the_index_of_the_sources() {
    let a = parsed("/p/a.rs", "a.rs", "rust", "fn a() {}\n");
    let text = source_index_text(&vec![a]).unwrap();
    let expected = value(
        r#"{"files": [{"path": "a.rs", "language": "rust", "line_count": 1, "chunk_count": 1,
          "chunks": [{"chunk_id": 0, "start_line": 1, "end_line": 1, "content": "fn a() {}"}]}]}"#,
    );
    assert_eq!(text, serde_json::to_string_pretty(&expected).unwrap());
}

#[test]
fn errors_say_what_could_not_be_written() {
    let e = PlainSightError::InvalidState("serializing project index: x".to_string());
    assert_eq!(e.message(), "invalid state: serializing project index: x");
}

// ---------------------------------------------------------------------
// What the tools answer
// ---------------------------------------------------------------------

fn stored() -> plainsight::ollama::tools::StoredSource {
    let chunk = |id: usize, content: &str| plainsight::source_indexer::SourceChunk {
        chunk_id: id,
        start_line: id * 10 + 1,
        end_line: id * 10 + 10,
        content: content.to_string(),
    };
    plainsight::ollama::tools::StoredSource {
        path: "src/a.rs".to_string(),
        language: "rust".to_string(),
        line_count: 30,
        chunk_count: 3,
        chunks: vec![chunk(0, "zero"), chunk(1, &"x".repeat(500)), chunk(2, "two")],
    }
}

#[test]
fn a_tool_says_what_went_wrong() {
    assert_eq!(
        value(&tool_error("memory_file_path must target a .memory.json file")),
        value(r#"{"error":"memory_file_path must target a .memory.json file"}"#)
    );
    assert_eq!(tool_error("a \"b\""), r#"{"error":"a \"b\""}"#);
    assert_eq!(
        missing_file_answer("src/x.rs"),
        r#"{"error":"file not found in source index","file_path":"src/x.rs"}"#
    );
}

#[test]
fn the_source_of_a_file_is_handed_out() {
    let file = stored();
    let v = value(&file_source_answer(&file, None, None));
    assert_eq!(v["path"], value("\"src/a.rs\""));
    assert_eq!(v["language"], value("\"rust\""));
    assert_eq!(v["line_count"].as_u64(), Some(30));
    assert_eq!(v["chunk_count"].as_u64(), Some(3));
    assert_eq!(v["returned_chunk_count"].as_u64(), Some(2));
    assert_eq!(v["returned_chars"].as_u64(), Some(504));
    assert_eq!(v["chunks"][0], value(r#"{"chunk_id":0,"start_line":1,"end_line":10,"content":"zero"}"#));
    assert_eq!(v["chunks"][1]["content"].as_str().unwrap().len(), 500);

    // The cap is no lower than 400 characters: the second chunk is cut.
    let v = value(&file_source_answer(&file, Some(vec![2, 1, 7, 0]), Some(10)));
    assert_eq!(v["returned_chunk_count"].as_u64(), Some(2));
    assert_eq!(v["chunks"][0]["chunk_id"].as_u64(), Some(2));
    let cut = v["chunks"][1]["content"].as_str().unwrap();
    assert_eq!(cut.len(), 397 + 3);
    assert!(cut.ends_with("..."));
    assert_eq!(v["returned_chars"].as_u64(), Some(3 + 400));

    let v = value(&file_source_answer(&file, Some(vec![]), None));
    assert_eq!(v["returned_chunk_count"].as_u64(), Some(0));
    assert_eq!(v["chunks"], value("[]"));
}

#[test]
fn files_are_found_by_their_path() {
    let mut other = stored();
    other.path = "src/b.rs".to_string();
    let files = vec![stored(), other, stored()];
    assert_eq!(find_stored(&files, "src/a.rs"), Some(0));
    assert_eq!(find_stored(&files, "src/b.rs"), Some(1));
    assert_eq!(find_stored(&files, "src/c.rs"), None);
    assert_eq!(find_stored(&vec![], "src/a.rs"), None);
}

#[test]
fn each_model_is_sent_away_once() {
    let mut profiles = TaskProfiles::default();
    assert_eq!(
        models_to_unload(&profiles, &vec![Task::Summarize, Task::ProjectSummary]),
        vec!["phi4-mini:3.8b"]
    );
    profiles.documentation.model = "docs".to_string();
    profiles.architecture.model = "arch".to_string();
    assert_eq!(
        models_to_unload(
            &profiles,
            &vec![Task::Architecture, Task::Summarize, Task::Documentation, Task::Architecture]
        ),
        vec!["arch", "phi4-mini:3.8b", "docs"]
    );
    assert!(models_to_unload(&profiles, &vec![]).is_empty());
}

#[test]
fn the_index_of_searched_files() {
    let file = |path: &str, json: &str| SearchedFile {
        relative_path: path.to_string(),
        json: json.to_string(),
    };
    let files = vec![file("a.rs", r#"{"functions":[{"name":"f"}]}"#), file("b.rs", "[]")];
    let text = build_project_index_json("demo", &files).unwrap();
    let expected = value(
        r#"{"project":"demo","file_count":2,"files":[
            {"path":"a.rs","symbols":{"functions":[{"name":"f"}]}},
            {"path":"b.rs","symbols":[]}]}"#,
    );
    assert_eq!(text, serde_json::to_string_pretty(&expected).unwrap());
    // The digest by names reads such an index.
    let digest = value(&build_symbol_digest(&text, false).unwrap());
    assert_eq!(digest["files"][0]["top_functions"], value(r#"["f"]"#));

    let broken = vec![file("a.rs", "{}"), file("b.rs", "{oops"), file("c.rs", "also bad")];
    let problem = serde_json::from_str::<serde_json::Value>("{oops").unwrap_err();
    match build_project_index_json("demo", &broken) {
        Err(PlainSightError::InvalidState(message)) => assert_eq!(
            message,
            format!("deserializing parsed json for 'b.rs' failed: {problem}")
        ),
        other => panic!("{other:?}"),
    }
}

#[test]
fn the_settings_of_a_run() {
    let config = plainsight::config::PlainSightConfig::default();
    assert_eq!(config.source_discovery.extensions.len(), 15);
    assert_eq!(config.source_discovery.exclude_directories, vec![".git", "target", "docs"]);
    assert_eq!(config.ollama.keep_alive_minutes, 30);
    assert_eq!(config.ollama.tasks.architecture.num_ctx, 6144);
}
