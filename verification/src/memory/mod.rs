//! The memory of a project: the facts of each file, the index of all
//! files, and what of it matters to one file.

pub mod candidates;
pub mod file_memory;
pub mod paths;
pub mod project_memory;
pub mod relevance;
pub mod scoring;
pub mod types;

pub use file_memory::build_file_memory;
pub use project_memory::build_project_memory;
pub use relevance::{get_relevant_memory_for_file, RelevantMemory, SmartMemory};
pub use types::{
    ConfidenceLevel, CrossFileLink, FieldInfo, FileMemory, GlobalSymbol, OpenItem, ParameterInfo,
    ProjectMemory, SymbolDetails, SymbolFact, VariantInfo,
};
