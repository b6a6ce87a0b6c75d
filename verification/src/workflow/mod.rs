//! The steps of a run, as far as they decide and compute.

pub mod context;
pub mod generate;
pub mod ingest;
pub mod types;
