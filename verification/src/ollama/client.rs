//! What is sent to the language model for a task, and what becomes of what
//! comes back.
//!
//! Speaking to the model is left to the caller: it asks for the prompt,
//! waits for its turn and for the answer, and hands in what happened.

use crate::error::{concat, glued};
use crate::json::{parsed_json, rendered, JsonModel};
use crate::ollama::payload::{
    clamped_context, digest_of, docs_caps, prepare_architecture_input, prepare_file_docs_input,
    prepare_file_summary_input, summary_caps,
};
use crate::ollama::prompts::{build_architecture_prompt, build_doc_prompt, build_summary_prompt, prompt_model, prompt_text, ARCHITECTURE_INSTRUCTIONS, DOCS_INSTRUCTIONS, SUMMARY_INSTRUCTIONS};
use crate::memory::file_memory::{dedup_imports, first_seen};
use crate::memory::types::{lemma_texts_push, texts};
use crate::ollama::config::TaskProfiles;
use crate::ollama::task::Task;
use crate::ollama::utils::{
    empty_output_message, ensure_ai_disclaimer, ensure_non_empty, lowercase,
    strip_wrapping_code_fence, unfenced, with_disclaimer,
};
use crate::text::{decimal, string_of, to_decimal, trimmed};
use vstd::prelude::*;

verus! {

// ---------------------------------------------------------------------------
// Prompts
// ---------------------------------------------------------------------------

/// The prompt for the summary of a file, or why its context cannot be used.
pub fn summarize_prompt(context_payload: &str) -> (r: Result<String, String>)
    ensures
        match parsed_json(context_payload@) {
            Ok(root) => match rendered(clamped_context(root, summary_caps())) {
                Ok(context) => r matches Ok(prompt) && prompt@ == prompt_text(
                    prompt_model(
                        "summarize"@,
                        SUMMARY_INSTRUCTIONS@,
                        seq![("context"@, JsonModel::Text(context))],
                    ),
                ),
                Err(problem) => r matches Err(message) && message@ == problem,
            },
            Err(problem) => r matches Err(message) && message@ == problem,
        },
{
    match prepare_file_summary_input(context_payload) {
        Ok(context) => Ok(build_summary_prompt(context.as_str())),
        Err(message) => Err(message),
    }
}

/// The prompt for the documentation of a file, or why its context cannot
/// be used.
pub fn document_prompt(context_payload: &str) -> (r: Result<String, String>)
    ensures
        match parsed_json(context_payload@) {
            Ok(root) => match rendered(clamped_context(root, docs_caps())) {
                Ok(context) => r matches Ok(prompt) && prompt@ == prompt_text(
                    prompt_model(
                        "documentation"@,
                        DOCS_INSTRUCTIONS@,
                        seq![("context"@, JsonModel::Text(context))],
                    ),
                ),
                Err(problem) => r matches Err(message) && message@ == problem,
            },
            Err(problem) => r matches Err(message) && message@ == problem,
        },
{
    match prepare_file_docs_input(context_payload) {
        Ok(context) => Ok(build_doc_prompt(context.as_str())),
        Err(message) => Err(message),
    }
}

/// The prompt for the architecture of a project, or why its index cannot
/// be used.
pub fn architecture_prompt(project_name: &str, context_payload: &str) -> (r: Result<
    String,
    String,
>)
    ensures
        match parsed_json(context_payload@) {
            Ok(index) => match digest_of(index, true) {
                Some(digest) => match rendered(digest) {
                    Ok(context) => r matches Ok(prompt) && prompt@ == prompt_text(
                        prompt_model(
                            "architecture"@,
                            ARCHITECTURE_INSTRUCTIONS@,
                            seq![
                                ("project_name"@, JsonModel::Text(project_name@)),
                                ("context"@, JsonModel::Text(context)),
                            ],
                        ),
                    ),
                    Err(problem) => r matches Err(message) && message@ == problem,
                },
                None => r matches Err(message) && message@
                    == "project index input missing 'files' array"@,
            },
            Err(problem) => r matches Err(message) && message@ == problem,
        },
{
    match prepare_architecture_input(context_payload) {
        Ok(context) => Ok(build_architecture_prompt(project_name, context.as_str())),
        Err(message) => Err(message),
    }
}

// ---------------------------------------------------------------------------
// Answers
// ---------------------------------------------------------------------------

/// An answer without the fence around it and with the note before it.
pub open spec fn dressed(out: Seq<char>) -> Seq<char> {
    with_disclaimer(unfenced(out), lowercase(trimmed(unfenced(out))))
}

/// Takes the fence from around an answer and puts the note before it; an
/// answer that is then empty is an error.
pub fn postprocess_output(task: Task, model_name: &str, out: String) -> (r: Result<String, String>)
    ensures
        match r {
            Ok(text) => trimmed(dressed(out@)).len() > 0 && text@ == dressed(out@),
            Err(message) => trimmed(dressed(out@)).len() == 0 && message@
                == empty_output_message(task, model_name@),
        },
{
    let out = strip_wrapping_code_fence(out);
    let out = ensure_ai_disclaimer(out);
    ensure_non_empty(task, model_name, out)
}

// ---------------------------------------------------------------------------
// What happened
// ---------------------------------------------------------------------------

/// What happened when the model was asked.
pub enum Reply {
    /// The turn to speak was refused.
    LockClosed(String),
    /// The turn to speak did not come in time.
    LockTimeout,
    /// The model answered.
    Answer(String),
    /// The model failed.
    Failure(String),
    /// No answer came within so many seconds.
    Timeout(u64),
}

pub enum ReplyModel {
    LockClosed(Seq<char>),
    LockTimeout,
    Answer(Seq<char>),
    Failure(Seq<char>),
    Timeout(u64),
}

impl View for Reply {
    type V = ReplyModel;

    open spec fn view(&self) -> ReplyModel {
        match self {
            Reply::LockClosed(e) => ReplyModel::LockClosed(e@),
            Reply::LockTimeout => ReplyModel::LockTimeout,
            Reply::Answer(a) => ReplyModel::Answer(a@),
            Reply::Failure(e) => ReplyModel::Failure(e@),
            Reply::Timeout(s) => ReplyModel::Timeout(*s),
        }
    }
}

/// What the caller of the model gets after a reply.
pub open spec fn generated(model: Seq<char>, reply: ReplyModel) -> Result<Seq<char>, Seq<char>> {
    match reply {
        ReplyModel::LockClosed(e) => Err("failed to acquire lock: "@ + e),
        ReplyModel::LockTimeout => Err("timeout acquiring lock for model "@ + model),
        ReplyModel::Answer(a) => Ok(a),
        ReplyModel::Failure(e) => Err("ollama error ("@ + model + "): "@ + e),
        ReplyModel::Timeout(s) => Err(
            "ollama error ("@ + model + "): request timeout after "@ + decimal(s as nat)
                + " seconds - model may have been killed or is in 'Stopping...' state"@,
        ),
    }
}

pub fn generation_result(model: &str, reply: Reply) -> (r: Result<String, String>)
    ensures
        match r {
            Ok(text) => generated(model@, reply@) == Ok::<Seq<char>, Seq<char>>(text@),
            Err(message) => generated(model@, reply@) == Err::<Seq<char>, Seq<char>>(message@),
        },
{
    proof {
        reveal_with_fuel(glued, 6);
    }
    match reply {
        Reply::LockClosed(e) => {
            let parts: Vec<&str> = vec!["failed to acquire lock: ", e.as_str()];
            let message = concat(&parts);
            assert(message@ =~= "failed to acquire lock: "@ + e@);
            Err(message)
        },
        Reply::LockTimeout => {
            let parts: Vec<&str> = vec!["timeout acquiring lock for model ", model];
            let message = concat(&parts);
            assert(message@ =~= "timeout acquiring lock for model "@ + model@);
            Err(message)
        },
        Reply::Answer(a) => Ok(a),
        Reply::Failure(e) => {
            let parts: Vec<&str> = vec!["ollama error (", model, "): ", e.as_str()];
            let message = concat(&parts);
            assert(message@ =~= "ollama error ("@ + model@ + "): "@ + e@);
            Err(message)
        },
        Reply::Timeout(s) => {
            let secs = string_of(to_decimal(s).as_slice());
            let parts: Vec<&str> = vec![
                "ollama error (",
                model,
                "): request timeout after ",
                secs.as_str(),
                " seconds - model may have been killed or is in 'Stopping...' state",
            ];
            let message = concat(&parts);
            assert(message@ =~= "ollama error ("@ + model@ + "): request timeout after "@
                + decimal(s as nat)
                + " seconds - model may have been killed or is in 'Stopping...' state"@);
            Err(message)
        },
    }
}

/// What happened when a model was asked to leave memory.
pub enum Unload {
    /// The turn to speak was refused.
    LockClosed(String),
    /// The turn to speak did not come in time.
    LockTimeout,
    /// The model left.
    Done,
    /// The model failed.
    Failure(String),
    /// Nothing came back in time.
    Timeout,
}

pub enum UnloadModel {
    LockClosed(Seq<char>),
    LockTimeout,
    Done,
    Failure(Seq<char>),
    Timeout,
}

impl View for Unload {
    type V = UnloadModel;

    open spec fn view(&self) -> UnloadModel {
        match self {
            Unload::LockClosed(e) => UnloadModel::LockClosed(e@),
            Unload::LockTimeout => UnloadModel::LockTimeout,
            Unload::Done => UnloadModel::Done,
            Unload::Failure(e) => UnloadModel::Failure(e@),
            Unload::Timeout => UnloadModel::Timeout,
        }
    }
}

/// What the caller gets after asking a model to leave: no answer in time
/// counts as done.
pub open spec fn unloaded(model: Seq<char>, event: UnloadModel) -> Option<Seq<char>> {
    match event {
        UnloadModel::LockClosed(e) => Some("failed to acquire lock for unload: "@ + e),
        UnloadModel::LockTimeout => Some("timeout acquiring lock to unload model "@ + model),
        UnloadModel::Done => None,
        UnloadModel::Failure(e) => Some("failed to unload model ("@ + model + "): "@ + e),
        UnloadModel::Timeout => None,
    }
}

pub fn unload_result(model: &str, event: Unload) -> (r: Result<(), String>)
    ensures
        match r {
            Ok(_) => unloaded(model@, event@) is None,
            Err(message) => unloaded(model@, event@) == Some(message@),
        },
{
    proof {
        reveal_with_fuel(glued, 6);
    }
    match event {
        Unload::LockClosed(e) => {
            let parts: Vec<&str> = vec!["failed to acquire lock for unload: ", e.as_str()];
            let message = concat(&parts);
            assert(message@ =~= "failed to acquire lock for unload: "@ + e@);
            Err(message)
        },
        Unload::LockTimeout => {
            let parts: Vec<&str> = vec!["timeout acquiring lock to unload model ", model];
            let message = concat(&parts);
            assert(message@ =~= "timeout acquiring lock to unload model "@ + model@);
            Err(message)
        },
        Unload::Done => Ok(()),
        Unload::Failure(e) => {
            let parts: Vec<&str> = vec!["failed to unload model (", model, "): ", e.as_str()];
            let message = concat(&parts);
            assert(message@ =~= "failed to unload model ("@ + model@ + "): "@ + e@);
            Err(message)
        },
        Unload::Timeout => Ok(()),
    }
}

/// The message for models that could not be listed.
pub fn list_models_error(problem: &str) -> (r: String)
    ensures
        r@ == "failed to list models: "@ + problem@,
{
    proof {
        reveal_with_fuel(glued, 3);
    }
    let parts: Vec<&str> = vec!["failed to list models: ", problem];
    let message = concat(&parts);
    assert(message@ =~= "failed to list models: "@ + problem@);
    message
}

// ---------------------------------------------------------------------------
// Models to send away
// ---------------------------------------------------------------------------

/// The models of the tasks, each once, in the order of the tasks.
pub open spec fn distinct_models(profiles: TaskProfiles, tasks: Seq<Task>) -> Seq<Seq<char>> {
    first_seen(Seq::new(tasks.len(), |i: int| profiles.of(tasks[i]).model@))
}

/// The models that are asked to leave after the tasks are done.
pub fn models_to_unload(profiles: &TaskProfiles, tasks: &Vec<Task>) -> (r: Vec<String>)
    ensures
        texts(r@) == distinct_models(*profiles, tasks@),
{
    let mut names: Vec<String> = Vec::new();
    let mut i: usize = 0;
    while i < tasks.len()
        invariant
            i <= tasks.len(),
            texts(names@).len() == i,
            forall|j: int| 0 <= j < i ==> texts(names@)[j] == profiles.of(tasks@[j]).model@,
        decreases tasks.len() - i,
    {
        let name = profiles.for_task(tasks[i]).model.clone();
        proof {
            lemma_texts_push(names@, name);
        }
        names.push(name);
        i += 1;
    }
    assert(texts(names@) =~= Seq::new(tasks@.len(), |i: int| profiles.of(tasks@[i]).model@));
    dedup_imports(&mut names);
    names
}

} // verus!
