//! What a project's sources are made of, held as a memory that a generator
//! of documents can be given in small parts.
//!
//! A source is cut into chunks of bounded size (`source_indexer`), its
//! declarations and imports are read line by line (`memory::file_memory`),
//! the facts of all files are put together into a table of symbols, a list
//! of names with several kinds, and links between files
//! (`memory::project_memory`), and for one file at a time the entries that
//! matter most to it are chosen (`memory::relevance`). What is known of a
//! file is kept under the hash of its content (`project_manager`), so that
//! only what changed is read again.
//!
//! Around this stand the texts that are sent to the generator and what
//! becomes of its answers (`ollama`, `workflow`), and parsers that search a
//! source for its functions, types, imports and variables (`parser`).
//! Texts are sequences of characters throughout; `text`, `split` and
//! `order` hold what is needed to search, cut and compare them.

pub mod config;
pub mod core_ir;
pub mod error;
pub mod file_walker;
pub mod json;
pub mod language;
pub mod memory;
pub mod ollama;
pub mod order;
pub mod parser;
pub mod project_manager;
pub mod source_indexer;
pub mod split;
pub mod text;
pub mod workflow;
