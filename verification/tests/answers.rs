use plainsight::ollama::utils::{
    add_disclaimer, ensure_ai_disclaimer, ensure_non_empty, expected_headings, is_refusal_output,
    is_refusal_text, join_fence_lines, reject_json_payload, strip_wrapping_code_fence,
    trim_to_expected_heading,
};
use plainsight::ollama::Task;
use plainsight::text::chars_of;

const DISCLAIMER: &str =
    "> **AI-generated content:** May contain inaccuracies. Verify against source code.";

#[test]
fn empty_answers_are_refused() {
    assert_eq!(ensure_non_empty(Task::Summarize, "m", "text".to_string()), Ok("text".to_string()));
    assert_eq!(ensure_non_empty(Task::Summarize, "m", " x ".to_string()), Ok(" x ".to_string()));
    assert_eq!(
        ensure_non_empty(Task::Summarize, "phi4-mini:3.8b", "".to_string()),
        Err("ollama returned empty output for task Summarize (phi4-mini:3.8b)".to_string())
    );
    assert_eq!(
        ensure_non_empty(Task::ProjectSummary, "m", " \n\t ".to_string()),
        Err("ollama returned empty output for task ProjectSummary (m)".to_string())
    );
    assert_eq!(
        ensure_non_empty(Task::Documentation, "", "\u{a0}".to_string()),
        Err("ollama returned empty output for task Documentation ()".to_string())
    );
    assert_eq!(
        ensure_non_empty(Task::Architecture, "a", String::new()),
        Err("ollama returned empty output for task Architecture (a)".to_string())
    );
}

#[test]
fn refusals_are_found_in_any_case() {
    assert!(is_refusal_output("I cannot help with that."));
    assert!(is_refusal_output("Sorry, I CAN'T do this"));
    assert!(is_refusal_output("As An AI model"));
    // The lower case of U+0130 is an `i` with a dot above it, in two characters.
    assert!(!is_refusal_output("\u{130} DO NOT HAVE access"));
    assert!(is_refusal_output("\u{c9}THICAL? NOT PERMITTED"));
    assert!(is_refusal_output("this is against company POLICY"));
    assert!(!is_refusal_output("## Purpose\nParses files."));
    assert!(!is_refusal_output(""));
    for phrase in [
        "i cannot", "i can't", "i'm unable", "as an ai", "i don't have", "i do not have",
        "i am not able", "unable to", "cannot help", "can't help", "not allowed", "not permitted",
        "against my", "ethical", "policy", "guidelines",
    ] {
        assert!(is_refusal_text(&chars_of(&format!("x {} y", phrase))), "{}", phrase);
        assert!(is_refusal_output(&phrase.to_uppercase()), "{}", phrase);
        // The text is expected in lower case.
        assert!(!is_refusal_text(&chars_of(&phrase.to_uppercase())), "{}", phrase);
    }
}

#[test]
fn code_fences_are_taken_off() {
    assert_eq!(strip_wrapping_code_fence("  plain text \n".to_string()), "plain text");
    assert_eq!(strip_wrapping_code_fence("```\nbody\n```".to_string()), "body");
    assert_eq!(strip_wrapping_code_fence("```md\n## Purpose\ntext\n```\n".to_string()), "## Purpose\ntext");
    assert_eq!(strip_wrapping_code_fence("```markdown\r\nline\r\n```".to_string()), "line");
    // A first line that is not a tag stays.
    assert_eq!(strip_wrapping_code_fence("```c++\nbody\n```".to_string()), "c++\nbody");
    assert_eq!(strip_wrapping_code_fence("```x1\nbody\n```".to_string()), "x1\nbody");
    assert_eq!(strip_wrapping_code_fence("```\u{e9}t\u{e9}\nbody\n```".to_string()), "body");
    // Only one of the fences: nothing but trimming.
    assert_eq!(strip_wrapping_code_fence("```md\nbody".to_string()), "```md\nbody");
    assert_eq!(strip_wrapping_code_fence("``````".to_string()), "");
    assert_eq!(strip_wrapping_code_fence("```".to_string()), "");
    assert_eq!(strip_wrapping_code_fence("``````\nbody\n``````".to_string()), "body");
}

#[test]
fn fence_lines_are_joined() {
    let lines = vec![chars_of("md"), chars_of(" a "), chars_of("b")];
    let joined: String = join_fence_lines(&lines, true).iter().collect();
    assert_eq!(joined, "a \nb");
    let joined: String = join_fence_lines(&lines, false).iter().collect();
    assert_eq!(joined, "md\n a \nb");
    let joined: String = join_fence_lines(&vec![], true).iter().collect();
    assert_eq!(joined, "");
}

#[test]
fn answers_begin_at_their_heading() {
    assert_eq!(expected_headings(Task::Summarize), vec!["## Purpose"]);
    assert_eq!(expected_headings(Task::Documentation), vec!["## Overview"]);
    assert_eq!(expected_headings(Task::ProjectSummary), vec!["## Overview"]);
    assert_eq!(expected_headings(Task::Architecture), vec!["## System Context"]);
    assert_eq!(
        trim_to_expected_heading(Task::Summarize, "Sure! Here it is:\n## Purpose\nIt parses.\n".to_string()),
        "## Purpose\nIt parses."
    );
    assert_eq!(
        trim_to_expected_heading(Task::Architecture, "x ## System Context y ## System Context z ".to_string()),
        "## System Context y ## System Context z"
    );
    assert_eq!(trim_to_expected_heading(Task::Documentation, "  no heading  ".to_string()), "no heading");
    assert_eq!(trim_to_expected_heading(Task::Documentation, "## Purpose\n".to_string()), "## Purpose");
}

#[test]
fn json_in_place_of_markdown_is_refused() {
    let message = "ollama returned JSON payload instead of markdown".to_string();
    assert_eq!(reject_json_payload("{\"a\": 1}".to_string()), Err(message.clone()));
    assert_eq!(reject_json_payload("  \n[1, 2]".to_string()), Err(message.clone()));
    assert_eq!(reject_json_payload("text {".to_string()), Ok("text {".to_string()));
    assert_eq!(reject_json_payload("".to_string()), Ok("".to_string()));
    assert_eq!(reject_json_payload(" ## Purpose ".to_string()), Ok(" ## Purpose ".to_string()));
}

#[test]
fn the_disclaimer_is_put_before_an_answer_once() {
    assert_eq!(ensure_ai_disclaimer("".to_string()), DISCLAIMER);
    assert_eq!(ensure_ai_disclaimer("  \n".to_string()), DISCLAIMER);
    assert_eq!(ensure_ai_disclaimer(" text \n".to_string()), format!("{}\n\ntext", DISCLAIMER));
    let has = format!("{}\n\nbody", DISCLAIMER);
    assert_eq!(ensure_ai_disclaimer(has.clone()), has);
    // Any case of the opening words counts; the answer is handed back as it came.
    for opening in [
        "  > **AI-GENERATED CONTENT:** old note\nbody ",
        "**ai-generated content:** note",
        "<!-- Generated by AI -->\nbody",
    ] {
        assert_eq!(ensure_ai_disclaimer(opening.to_string()), opening);
    }
    assert_eq!(
        ensure_ai_disclaimer("> AI-generated content".to_string()),
        format!("{}\n\n> AI-generated content", DISCLAIMER)
    );
    // With the lower case handed in.
    assert_eq!(add_disclaimer("Body".to_string(), &chars_of("body")), format!("{}\n\nBody", DISCLAIMER));
    assert_eq!(add_disclaimer("Body".to_string(), &chars_of("<!-- generated by ai")), "Body");
}
