use plainsight::json::Json;
use plainsight::ollama::payload::{
    build_project_digest, chunk_preview, clamp_chunks_in_payload, clamp_global_symbols,
    clamp_links, clamp_open_items, find_markdown_string, markdown_of, prepare_architecture_input,
    prepare_file_docs_input, prepare_file_summary_input, project_digest, set_field,
    unwrap_json_markdown,
};
use plainsight::ollama::prompts::{
    build_architecture_prompt, build_doc_prompt, build_project_summary_prompt, build_prompt,
    build_summary_prompt, text_value, ARCHITECTURE_INSTRUCTIONS, DOCS_INSTRUCTIONS,
    PROJECT_SUMMARY_INSTRUCTIONS, SUMMARY_INSTRUCTIONS,
};
use plainsight::ollama::Task;

fn value(text: &str) -> serde_json::Value {
    serde_json::from_str(text).unwrap()
}

fn text(s: &str) -> Json {
    Json::Text(s.to_string())
}

fn number(n: u64) -> Json {
    Json::Number(n.to_string())
}

fn object(fields: Vec<(&str, Json)>) -> Json {
    Json::Object(fields.into_iter().map(|(k, v)| (k.to_string(), v)).collect())
}

fn describe(j: &Json) -> String {
    match j {
        Json::Null => "null".to_string(),
        Json::Bool(b) => b.to_string(),
        Json::Number(n) => n.clone(),
        Json::Text(t) => format!("{:?}", t),
        Json::List(items) => {
            format!("[{}]", items.iter().map(describe).collect::<Vec<_>>().join(","))
        }
        Json::Object(fields) => format!(
            "{{{}}}",
            fields.iter().map(|(k, v)| format!("{:?}:{}", k, describe(v))).collect::<Vec<_>>().join(",")
        ),
    }
}

#[test]
fn looking_into_values() {
    let v = object(vec![
        ("a", number(1)),
        ("b", text("x")),
        ("a", number(2)),
        ("list", Json::List(vec![Json::Null, Json::Bool(true)])),
    ]);
    // Of fields with the same key the last one counts.
    assert_eq!(v.get("a").unwrap().as_u64(), Some(2));
    assert_eq!(v.get("b").unwrap().as_str(), Some("x"));
    assert!(v.get("c").is_none());
    assert_eq!(v.get("list").unwrap().as_array().unwrap().len(), 2);
    assert!(v.is_object());
    assert!(!text("x").is_object());
    assert!(text("x").get("a").is_none());
    assert_eq!(number(0).as_u64(), Some(0));
    assert_eq!(number(u64::MAX).as_u64(), Some(u64::MAX));
    for odd in ["", "-1", "1.5", "1e3", "18446744073709551616", "99999999999999999999999", "12a", " 1"] {
        assert_eq!(Json::Number(odd.to_string()).as_u64(), None, "{:?}", odd);
    }
    assert_eq!(text("7").as_u64(), None);
    assert_eq!(describe(&v.copy()), describe(&v));
    let changed = set_field(v, "a", text("new"));
    assert_eq!(
        describe(&changed),
        "{\"a\":1,\"b\":\"x\",\"a\":\"new\",\"list\":[null,true]}"
    );
    assert_eq!(describe(&set_field(text("x"), "a", Json::Null)), "\"x\"");
    assert_eq!(describe(&set_field(object(vec![("b", Json::Null)]), "a", Json::Null)), "{\"b\":null}");
}

#[test]
fn the_digest_of_a_project_index() {
    let input = "{\"project\":\"demo\",\"file_count\":7,\"files\":[{\"path\":\"a.rs\",\"symbols\":{\"line_count\":3,\"chunk_count\":1,\"chunks\":[{\"content\":\"  fn a() {}  \"},{\"content\":\"later\"}]}},{\"symbols\":{\"line_count\":-1,\"chunk_count\":\"2\"}},{\"path\":5}]}";
    let digest = prepare_architecture_input(input).unwrap();
    assert_eq!(
        value(&digest),
        value("{\"project\":\"demo\",\"file_count\":7,\"files\":[{\"path\":\"a.rs\",\"line_count\":3,\"chunk_count\":1,\"preview\":\"fn a() {}\"},{\"path\":\"unknown\",\"line_count\":0,\"chunk_count\":0,\"preview\":\"\"},{\"path\":\"unknown\",\"line_count\":0,\"chunk_count\":0,\"preview\":\"\"}]}")
    );
    let plain = build_project_digest(input, false).unwrap();
    assert_eq!(
        value(&plain)["files"][0],
        value("{\"path\":\"a.rs\",\"line_count\":3,\"chunk_count\":1}")
    );
    // Without a project and a count of files.
    let digest = prepare_architecture_input("{\"files\":[{},{}]}").unwrap();
    assert_eq!(value(&digest)["project"], value("\"unknown\""));
    assert_eq!(value(&digest)["file_count"], value("2"));
    // A long content is cut to 200 characters.
    let long = format!("{{\"files\":[{{\"symbols\":{{\"chunks\":[{{\"content\":\"{}\"}}]}}}}]}}", "x".repeat(300));
    let digest = prepare_architecture_input(&long).unwrap();
    assert_eq!(value(&digest)["files"][0]["preview"], value(&format!("\"{}...\"", "x".repeat(200))));
}

#[test]
fn an_index_without_files_is_refused() {
    for input in ["{}", "{\"files\":3}", "[]", "\"files\"", "{\"files\":{\"a\":[]}}"] {
        assert_eq!(
            prepare_architecture_input(input),
            Err("project index input missing 'files' array".to_string()),
            "{:?}",
            input
        );
    }
}

#[test]
fn what_is_no_json_is_refused_with_the_parser_s_words() {
    for input in ["", "{", "{\"a\":}", "not json", "{\"a\":1} trailing"] {
        let expected = serde_json::from_str::<serde_json::Value>(input).unwrap_err().to_string();
        assert_eq!(prepare_architecture_input(input), Err(expected.clone()), "{:?}", input);
        assert_eq!(prepare_file_summary_input(input), Err(expected.clone()), "{:?}", input);
        assert_eq!(prepare_file_docs_input(input), Err(expected), "{:?}", input);
    }
}

#[test]
fn the_digest_of_a_value() {
    let index = object(vec![(
        "files",
        Json::List(vec![object(vec![
            ("path", text("a.rs")),
            ("symbols", object(vec![("line_count", number(12)), ("chunks", Json::List(vec![object(vec![("content", text(" body "))])]))])),
        ])]),
    )]);
    let digest = project_digest(&index, true).unwrap();
    assert_eq!(
        describe(&digest),
        "{\"project\":\"unknown\",\"file_count\":1,\"files\":[{\"path\":\"a.rs\",\"line_count\":12,\"chunk_count\":0,\"preview\":\"body\"}]}"
    );
    assert!(project_digest(&object(vec![]), true).is_none());
    assert_eq!(chunk_preview(&object(vec![]), 10), "");
    assert_eq!(chunk_preview(&object(vec![("chunks", Json::List(vec![]))]), 10), "");
    assert_eq!(
        chunk_preview(&object(vec![("chunks", Json::List(vec![object(vec![("content", text("  abcdef  "))])]))]), 3),
        "abc..."
    );
}

fn payload(chunks: usize, symbols: usize, items: usize, links: usize, nested: bool) -> String {
    let chunk_list: Vec<String> = (0..chunks)
        .map(|i| format!("{{\"chunk_id\":{},\"content\":\"{}\"}}", i, "c".repeat(1500)))
        .collect();
    let list = |n: usize| (0..n).map(|i| i.to_string()).collect::<Vec<_>>().join(",");
    let memory = format!(
        "\"project_memory\":{{\"global_symbols\":[{}],\"open_items\":[{}],\"links\":[{}],\"other\":[1,2,3]}}",
        list(symbols),
        list(items),
        list(links)
    );
    if nested {
        format!("{{\"path\":\"a.rs\",\"source_index\":{{\"chunks\":[{}]}},{}}}", chunk_list.join(","), memory)
    } else {
        format!("{{\"path\":\"a.rs\",\"chunks\":[{}],{}}}", chunk_list.join(","), memory)
    }
}

#[test]
fn the_context_of_a_file_is_cut_for_a_summary() {
    for nested in [true, false] {
        let out = value(&prepare_file_summary_input(&payload(10, 100, 100, 100, nested)).unwrap());
        let chunks = if nested { &out["source_index"]["chunks"] } else { &out["chunks"] };
        assert_eq!(chunks.as_array().unwrap().len(), 4);
        assert_eq!(chunks[0]["content"].as_str().unwrap(), format!("{}...", "c".repeat(900)));
        assert_eq!(chunks[3]["chunk_id"], value("3"));
        assert_eq!(out["project_memory"]["global_symbols"].as_array().unwrap().len(), 60);
        assert_eq!(out["project_memory"]["open_items"].as_array().unwrap().len(), 24);
        assert_eq!(out["project_memory"]["links"].as_array().unwrap().len(), 40);
        assert_eq!(out["project_memory"]["other"].as_array().unwrap().len(), 3);
        assert_eq!(out["path"], value("\"a.rs\""));
    }
}

#[test]
fn the_context_of_a_file_is_cut_for_a_documentation() {
    let out = value(&prepare_file_docs_input(&payload(10, 100, 100, 100, true)).unwrap());
    assert_eq!(out["source_index"]["chunks"].as_array().unwrap().len(), 6);
    assert_eq!(
        out["source_index"]["chunks"][5]["content"].as_str().unwrap(),
        format!("{}...", "c".repeat(1200))
    );
    assert_eq!(out["project_memory"]["global_symbols"].as_array().unwrap().len(), 80);
    assert_eq!(out["project_memory"]["open_items"].as_array().unwrap().len(), 30);
    assert_eq!(out["project_memory"]["links"].as_array().unwrap().len(), 70);
    // What is short enough stays as it is.
    let small = payload(2, 3, 4, 5, true).replace(&"c".repeat(1500), "short");
    assert_eq!(value(&prepare_file_docs_input(&small).unwrap()), value(&small));
    assert_eq!(value(&prepare_file_docs_input("[1,2]").unwrap()), value("[1,2]"));
    assert_eq!(value(&prepare_file_docs_input("{\"chunks\":3,\"project_memory\":[]}").unwrap()), value("{\"chunks\":3,\"project_memory\":[]}"));
}

#[test]
fn cutting_values() {
    let root = object(vec![
        ("chunks", Json::List(vec![object(vec![("content", text("abcdef"))]), text("odd"), object(vec![("content", number(1))]), Json::Null])),
        ("project_memory", object(vec![("links", Json::List(vec![number(1), number(2), number(3)]))])),
    ]);
    let cut = clamp_chunks_in_payload(root.copy(), 3, 4);
    assert_eq!(
        describe(&cut),
        "{\"chunks\":[{\"content\":\"abcd...\"},\"odd\",{\"content\":1}],\"project_memory\":{\"links\":[1,2,3]}}"
    );
    assert_eq!(
        describe(&clamp_links(root.copy(), 2)),
        "{\"chunks\":[{\"content\":\"abcdef\"},\"odd\",{\"content\":1},null],\"project_memory\":{\"links\":[1,2]}}"
    );
    assert_eq!(describe(&clamp_links(root.copy(), 0)).contains("\"links\":[]"), true);
    assert_eq!(describe(&clamp_global_symbols(root.copy(), 1)), describe(&root));
    assert_eq!(describe(&clamp_open_items(root.copy(), 1)), describe(&root));
}

#[test]
fn markdown_wrapped_in_json() {
    let out = |task: Task, s: &str| unwrap_json_markdown(task, s.to_string());
    assert_eq!(out(Task::Summarize, "## Purpose\ntext"), "## Purpose\ntext");
    assert_eq!(out(Task::Summarize, " {\"result\":{\"summary_markdown\":\"  ## Purpose\\nx \"}} "), "## Purpose\nx");
    assert_eq!(out(Task::Documentation, "{\"result\":{\"docs_markdown\":\"docs\"}}"), "docs");
    assert_eq!(out(Task::ProjectSummary, "{\"result\":{\"project_summary_markdown\":\"ps\"}}"), "ps");
    assert_eq!(out(Task::Architecture, "{\"result\":{\"architecture_markdown\":\"arch\"}}"), "arch");
    assert_eq!(out(Task::Summarize, "{\"summary_markdown\":\"top\"}"), "top");
    assert_eq!(out(Task::Summarize, "{\"docs_markdown\":\"top docs\"}"), "top docs");
    // The fields under `result` come first, in their order.
    assert_eq!(
        out(Task::Summarize, "{\"summary_markdown\":\"top\",\"result\":{\"docs_markdown\":\"d\",\"summary_markdown\":\"s\"}}"),
        "s"
    );
    // Failing that, the first text that names a heading.
    assert_eq!(
        out(Task::Architecture, "{\"a\":[1,\"no heading\",{\"b\":\"x\\n## System Context\\ny\"}],\"c\":\"## Other\"}"),
        "x\n## System Context\ny"
    );
    assert_eq!(out(Task::Summarize, "[\"plain\", \"  ## Any heading  \"]"), "## Any heading");
    // JSON that holds no Markdown, and what is no JSON, stay as they are.
    assert_eq!(out(Task::Summarize, " {\"a\":\"plain\",\"result\":{\"summary_markdown\":3}} "), " {\"a\":\"plain\",\"result\":{\"summary_markdown\":3}} ");
    assert_eq!(out(Task::Summarize, " 12 "), " 12 ");
    assert_eq!(out(Task::Summarize, " {broken "), " {broken ");
}

#[test]
fn markdown_in_values() {
    let headings = vec!["## Purpose"];
    let v = Json::List(vec![text("none"), object(vec![("k", text("has ## Purpose"))]), text("## Later")]);
    assert_eq!(find_markdown_string(&v, &headings), Some("has ## Purpose".to_string()));
    assert_eq!(find_markdown_string(&text("##Purpose"), &headings), None);
    assert_eq!(find_markdown_string(&text("a ## b"), &vec![]), Some("a ## b".to_string()));
    assert_eq!(find_markdown_string(&number(1), &headings), None);
    assert_eq!(find_markdown_string(&Json::List(vec![]), &headings), None);
    let answer = object(vec![("result", object(vec![("docs_markdown", text("d"))])), ("summary_markdown", text("s"))]);
    assert_eq!(markdown_of(Task::Documentation, &answer), Some("d".to_string()));
    assert_eq!(markdown_of(Task::Documentation, &object(vec![("x", text("## Overview"))])), Some("## Overview".to_string()));
    assert_eq!(markdown_of(Task::Documentation, &object(vec![("x", text("Overview"))])), None);
}

#[test]
fn requests() {
    let prompt = value(&build_summary_prompt("the context"));
    assert_eq!(prompt["context"], value("\"the context\""));
    assert_eq!(prompt["task"], value("\"summarize\""));
    assert_eq!(prompt["instructions"].as_str().unwrap(), SUMMARY_INSTRUCTIONS);
    assert_eq!(prompt.as_object().unwrap().len(), 3);
    assert!(SUMMARY_INSTRUCTIONS.starts_with("Generate a final summary markdown for one source file.\nUse `query_file_source` first."));
    assert!(SUMMARY_INSTRUCTIONS.ends_with("Hard limit: 150 words total."));

    let prompt = value(&build_doc_prompt("c"));
    assert_eq!(prompt["task"], value("\"documentation\""));
    assert_eq!(prompt["instructions"].as_str().unwrap(), DOCS_INSTRUCTIONS);
    assert!(DOCS_INSTRUCTIONS.contains("Start the first non-comment line with exactly `## Overview`."));

    let prompt = value(&build_project_summary_prompt("demo", "# File Summaries"));
    assert_eq!(prompt["task"], value("\"project_summary\""));
    assert_eq!(prompt["project_name"], value("\"demo\""));
    assert_eq!(prompt["file_summaries"], value("\"# File Summaries\""));
    assert_eq!(prompt["instructions"].as_str().unwrap(), PROJECT_SUMMARY_INSTRUCTIONS);
    assert!(PROJECT_SUMMARY_INSTRUCTIONS.ends_with("Keep it factual, concrete, and under 350 words."));

    let prompt = value(&build_architecture_prompt("demo", "{\"files\":[]}"));
    assert_eq!(prompt["task"], value("\"architecture\""));
    assert_eq!(prompt["context"], value("\"{\\\"files\\\":[]}\""));
    assert_eq!(prompt["instructions"].as_str().unwrap(), ARCHITECTURE_INSTRUCTIONS);
    assert!(ARCHITECTURE_INSTRUCTIONS.ends_with("Keep it under 500 words."));

    // Written on several lines; a field named like the task gives way to it.
    let text = build_prompt("t", "i", vec![("task".to_string(), text_value("mine")), ("n".to_string(), Json::Number("5".to_string()))]);
    assert!(text.contains('\n'));
    assert_eq!(value(&text), value("{\"task\":\"t\",\"n\":5,\"instructions\":\"i\"}"));
}
