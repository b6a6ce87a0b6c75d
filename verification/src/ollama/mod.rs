//! What is sent to the language model and what becomes of its answers.

pub mod client;
pub mod config;
pub mod payload;
pub mod prompts;
pub mod symbols;
pub mod task;
pub mod tools;
pub mod utils;

pub use config::{OllamaConfig, TaskConfig, TaskProfiles};
pub use task::Task;
pub use utils::is_refusal_output;
