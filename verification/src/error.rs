//! What can go wrong.

use crate::text::{chars_of, push_chars, string_of};
use vstd::prelude::*;

verus! {

/// An error of the library or of the program around it. Paths and the
/// errors of the operating system are held as text.
#[derive(Debug)]
pub enum PlainSightError {
    Io { context: String, source: String },
    Parse(String),
    QueryLoad { path: String, source: String },
    QueryCompile { kind: String, detail: String },
    Ollama(String),
    PathOutsideProject { path: String, project_root: String },
    InvalidState(String),
}

/// An error as specifications speak of it.
pub enum ErrorModel {
    Io { context: Seq<char>, source: Seq<char> },
    Parse(Seq<char>),
    QueryLoad { path: Seq<char>, source: Seq<char> },
    QueryCompile { kind: Seq<char>, detail: Seq<char> },
    Ollama(Seq<char>),
    PathOutsideProject { path: Seq<char>, project_root: Seq<char> },
    InvalidState(Seq<char>),
}

impl View for PlainSightError {
    type V = ErrorModel;

    open spec fn view(&self) -> ErrorModel {
        match self {
            PlainSightError::Io { context, source } => ErrorModel::Io {
                context: context@,
                source: source@,
            },
            PlainSightError::Parse(s) => ErrorModel::Parse(s@),
            PlainSightError::QueryLoad { path, source } => ErrorModel::QueryLoad {
                path: path@,
                source: source@,
            },
            PlainSightError::QueryCompile { kind, detail } => ErrorModel::QueryCompile {
                kind: kind@,
                detail: detail@,
            },
            PlainSightError::Ollama(s) => ErrorModel::Ollama(s@),
            PlainSightError::PathOutsideProject { path, project_root } => {
                ErrorModel::PathOutsideProject { path: path@, project_root: project_root@ }
            },
            PlainSightError::InvalidState(s) => ErrorModel::InvalidState(s@),
        }
    }
}

/// The message of an error.
pub open spec fn message_of(error: ErrorModel) -> Seq<char> {
    match error {
        ErrorModel::Io { context, source } => "I/O error while "@ + context + ": "@ + source,
        ErrorModel::Parse(s) => "parse error: "@ + s,
        ErrorModel::QueryLoad { path, source } => "failed to load query file '"@ + path + "': "@
            + source,
        ErrorModel::QueryCompile { kind, detail } => "failed to compile '"@ + kind + "' query: "@
            + detail,
        ErrorModel::Ollama(s) => "ollama error: "@ + s,
        ErrorModel::PathOutsideProject { path, project_root } => "file path '"@ + path
            + "' is outside project root '"@ + project_root + "'"@,
        ErrorModel::InvalidState(s) => "invalid state: "@ + s,
    }
}

fn glue(parts: &Vec<&str>) -> (r: Vec<char>)
    ensures
        r@ == glued(parts@),
{
    let mut out: Vec<char> = Vec::new();
    let mut i: usize = 0;
    assert(parts@.take(0) =~= Seq::<&str>::empty());
    while i < parts.len()
        invariant
            i <= parts.len(),
            out@ == glued(parts@.take(i as int)),
        decreases parts.len() - i,
    {
        push_chars(&mut out, chars_of(parts[i]).as_slice());
        proof {
            assert(parts@.take(i + 1).drop_last() =~= parts@.take(i as int));
        }
        i += 1;
    }
    assert(parts@.take(parts.len() as int) =~= parts@);
    out
}

/// The texts one after another.
pub open spec fn glued(parts: Seq<&str>) -> Seq<char>
    decreases parts.len(),
{
    if parts.len() == 0 {
        Seq::empty()
    } else {
        glued(parts.drop_last()) + parts.last()@
    }
}

/// The texts joined into one string.
pub fn concat(parts: &Vec<&str>) -> (s: String)
    ensures
        s@ == glued(parts@),
{
    string_of(glue(parts).as_slice())
}

impl PlainSightError {
    /// An error of the operating system, met while doing `context`.
    pub fn io(context: String, source: String) -> (error: PlainSightError)
        ensures
            error@ == (ErrorModel::Io { context: context@, source: source@ }),
    {
        PlainSightError::Io { context, source }
    }

    /// The message of the error.
    pub fn message(&self) -> (s: String)
        ensures
            s@ == message_of(self@),
    {
        proof {
            reveal_with_fuel(glued, 6);
        }
        let parts: Vec<&str> = match self {
            PlainSightError::Io { context, source } => vec![
                "I/O error while ",
                context.as_str(),
                ": ",
                source.as_str(),
            ],
            PlainSightError::Parse(s) => vec!["parse error: ", s.as_str()],
            PlainSightError::QueryLoad { path, source } => vec![
                "failed to load query file '",
                path.as_str(),
                "': ",
                source.as_str(),
            ],
            PlainSightError::QueryCompile { kind, detail } => vec![
                "failed to compile '",
                kind.as_str(),
                "' query: ",
                detail.as_str(),
            ],
            PlainSightError::Ollama(s) => vec!["ollama error: ", s.as_str()],
            PlainSightError::PathOutsideProject { path, project_root } => vec![
                "file path '",
                path.as_str(),
                "' is outside project root '",
                project_root.as_str(),
                "'",
            ],
            PlainSightError::InvalidState(s) => vec!["invalid state: ", s.as_str()],
        };
        let s = concat(&parts);
        proof {
            assert(s@ =~= message_of(self@));
        }
        s
    }
}

} // verus!
