//! The kinds of text that the generator is asked for.

use vstd::prelude::*;

verus! {

#[derive(Clone, Copy, PartialEq, Eq, Structural, Debug)]
pub enum Task {
    Documentation,
    ProjectSummary,
    Architecture,
    Summarize,
}

impl Task {
    /// The name of the task.
    pub open spec fn label(self) -> Seq<char> {
        match self {
            Task::Documentation => "Documentation"@,
            Task::ProjectSummary => "ProjectSummary"@,
            Task::Architecture => "Architecture"@,
            Task::Summarize => "Summarize"@,
        }
    }

    pub fn name(self) -> (s: &'static str)
        ensures
            s@ == self.label(),
    {
        match self {
            Task::Documentation => "Documentation",
            Task::ProjectSummary => "ProjectSummary",
            Task::Architecture => "Architecture",
            Task::Summarize => "Summarize",
        }
    }

    /// The model that does the task unless another is configured.
    pub open spec fn default_model(self) -> Seq<char> {
        match self {
            Task::Documentation => "qwen2.5-coder:7b"@,
            Task::ProjectSummary => "llama3.1:8b"@,
            Task::Architecture => "qwen2.5-coder:7b"@,
            Task::Summarize => "llama3.1:8b"@,
        }
    }

    pub fn model(self) -> (s: &'static str)
        ensures
            s@ == self.default_model(),
    {
        match self {
            Task::Documentation => "qwen2.5-coder:7b",
            Task::ProjectSummary => "llama3.1:8b",
            Task::Architecture => "qwen2.5-coder:7b",
            Task::Summarize => "llama3.1:8b",
        }
    }

    /// The temperature at which the task is done unless another is
    /// configured, in hundredths.
    pub fn temperature(self) -> (t: u32)
        ensures
            t == (match self {
                Task::Documentation => 10u32,
                Task::ProjectSummary => 20u32,
                Task::Architecture => 10u32,
                Task::Summarize => 30u32,
            }),
    {
        match self {
            Task::Documentation => 10,
            Task::ProjectSummary => 20,
            Task::Architecture => 10,
            Task::Summarize => 30,
        }
    }

    /// The heading with which the text for the task has to begin.
    pub open spec fn heading(self) -> Seq<char> {
        match self {
            Task::Summarize => "## Purpose"@,
            Task::Documentation => "## Overview"@,
            Task::ProjectSummary => "## Overview"@,
            Task::Architecture => "## System Context"@,
        }
    }
}

} // verus!
