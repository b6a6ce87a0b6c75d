//! The settings of the language model, task by task.
//!
//! A temperature is held in hundredths, a time in whole seconds.

use crate::ollama::task::Task;
use crate::text::{chars_of, string_of};
use vstd::prelude::*;

verus! {

/// The model that does every task unless another is configured.
pub const DEFAULT_MODEL: &'static str = "phi4-mini:3.8b";

#[derive(Debug)]
pub struct TaskConfig {
    pub model: String,
    /// The temperature, in hundredths.
    pub temperature: u32,
    pub num_ctx: u64,
    pub num_predict: i32,
    /// The seconds after which an answer is no longer waited for.
    pub generate_timeout: Option<u64>,
}

pub struct TaskModel {
    pub model: Seq<char>,
    pub temperature: u32,
    pub num_ctx: u64,
    pub num_predict: i32,
    pub generate_timeout: Option<u64>,
}

impl View for TaskConfig {
    type V = TaskModel;

    open spec fn view(&self) -> TaskModel {
        TaskModel {
            model: self.model@,
            temperature: self.temperature,
            num_ctx: self.num_ctx,
            num_predict: self.num_predict,
            generate_timeout: self.generate_timeout,
        }
    }
}

impl Clone for TaskConfig {
    fn clone(&self) -> (r: Self)
        ensures
            r@ == self@,
    {
        TaskConfig {
            model: self.model.clone(),
            temperature: self.temperature,
            num_ctx: self.num_ctx,
            num_predict: self.num_predict,
            generate_timeout: self.generate_timeout,
        }
    }
}

/// The settings of a task before anything is configured.
pub open spec fn default_task(task: Task) -> TaskModel {
    TaskModel {
        model: DEFAULT_MODEL@,
        temperature: match task {
            Task::Summarize => 20,
            _ => 10,
        },
        num_ctx: match task {
            Task::Architecture => 6144,
            _ => 4096,
        },
        num_predict: match task {
            Task::Documentation => 900,
            Task::ProjectSummary => 700,
            Task::Architecture => 1000,
            Task::Summarize => 300,
        },
        generate_timeout: None,
    }
}

pub fn default_task_config(task: Task) -> (r: TaskConfig)
    ensures
        r@ == default_task(task),
{
    TaskConfig {
        model: string_of(chars_of(DEFAULT_MODEL).as_slice()),
        temperature: match task {
            Task::Summarize => 20,
            _ => 10,
        },
        num_ctx: match task {
            Task::Architecture => 6144,
            _ => 4096,
        },
        num_predict: match task {
            Task::Documentation => 900,
            Task::ProjectSummary => 700,
            Task::Architecture => 1000,
            Task::Summarize => 300,
        },
        generate_timeout: None,
    }
}

#[derive(Debug)]
pub struct TaskProfiles {
    pub documentation: TaskConfig,
    pub project_summary: TaskConfig,
    pub architecture: TaskConfig,
    pub summarize: TaskConfig,
}

impl TaskProfiles {
    /// The settings of a task.
    pub open spec fn of(&self, task: Task) -> TaskConfig {
        match task {
            Task::Documentation => self.documentation,
            Task::ProjectSummary => self.project_summary,
            Task::Architecture => self.architecture,
            Task::Summarize => self.summarize,
        }
    }

    pub fn for_task(&self, task: Task) -> (r: &TaskConfig)
        ensures
            *r == self.of(task),
    {
        match task {
            Task::Documentation => &self.documentation,
            Task::ProjectSummary => &self.project_summary,
            Task::Architecture => &self.architecture,
            Task::Summarize => &self.summarize,
        }
    }

    /// Gives every task the same model and leaves the rest as it is.
    pub fn set_model_for_all(&mut self, model: String)
        ensures
            forall|task: Task| #[trigger]
                final(self).of(task)@ == (TaskModel { model: model@, ..old(self).of(task)@ }),
    {
        self.documentation.model = model.clone();
        self.project_summary.model = model.clone();
        self.architecture.model = model.clone();
        self.summarize.model = model;
    }
}

impl Clone for TaskProfiles {
    fn clone(&self) -> (r: Self)
        ensures
            forall|task: Task| #[trigger] r.of(task)@ == self.of(task)@,
    {
        TaskProfiles {
            documentation: self.documentation.clone(),
            project_summary: self.project_summary.clone(),
            architecture: self.architecture.clone(),
            summarize: self.summarize.clone(),
        }
    }
}

impl Default for TaskProfiles {
    fn default() -> (r: Self)
        ensures
            forall|task: Task| #[trigger] r.of(task)@ == default_task(task),
    {
        TaskProfiles {
            documentation: default_task_config(Task::Documentation),
            project_summary: default_task_config(Task::ProjectSummary),
            architecture: default_task_config(Task::Architecture),
            summarize: default_task_config(Task::Summarize),
        }
    }
}

#[derive(Debug)]
pub struct OllamaConfig {
    /// The seconds to wait for the turn to speak to the model.
    pub lock_timeout: u64,
    /// The seconds to wait for a model to leave memory.
    pub unload_timeout: u64,
    pub keep_alive_minutes: u64,
    pub tasks: TaskProfiles,
}

impl OllamaConfig {
    /// The same settings with one model for every task.
    pub fn with_model(self, model: String) -> (r: Self)
        ensures
            r.lock_timeout == self.lock_timeout,
            r.unload_timeout == self.unload_timeout,
            r.keep_alive_minutes == self.keep_alive_minutes,
            forall|task: Task| #[trigger]
                r.tasks.of(task)@ == (TaskModel { model: model@, ..self.tasks.of(task)@ }),
    {
        let mut config = self;
        config.tasks.set_model_for_all(model);
        config
    }
}

impl Clone for OllamaConfig {
    fn clone(&self) -> (r: Self)
        ensures
            r.lock_timeout == self.lock_timeout,
            r.unload_timeout == self.unload_timeout,
            r.keep_alive_minutes == self.keep_alive_minutes,
            forall|task: Task| #[trigger] r.tasks.of(task)@ == self.tasks.of(task)@,
    {
        OllamaConfig {
            lock_timeout: self.lock_timeout,
            unload_timeout: self.unload_timeout,
            keep_alive_minutes: self.keep_alive_minutes,
            tasks: self.tasks.clone(),
        }
    }
}

impl Default for OllamaConfig {
    fn default() -> (r: Self)
        ensures
            r.lock_timeout == 30,
            r.unload_timeout == 30,
            r.keep_alive_minutes == 30,
            forall|task: Task| #[trigger] r.tasks.of(task)@ == default_task(task),
    {
        OllamaConfig {
            lock_timeout: 30,
            unload_timeout: 30,
            keep_alive_minutes: 30,
            tasks: TaskProfiles::default(),
        }
    }
}

} // verus!
