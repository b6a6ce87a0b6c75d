//! Parsers: adapters that read single files word by word, and the search
//! of Rust sources with queries over their syntax trees.

pub mod captures;
pub mod framework;
pub mod languages;
pub mod parser;
pub mod registry;
pub mod specs;
pub mod tree;
pub mod types;

pub use parser::Parser;
pub use registry::{default_registry, Registry};
pub use specs::{LanguageSpec, RustSpec};
pub use types::{ExtractKind, Function, Import, ParseResult, Type, Variable};
