//! Explains why Turborepo tasks missed the cache, by comparing two run
//! summaries.
pub mod causes;
pub mod cli;
pub mod diagnosis;
pub mod discovery;
pub mod error;
pub mod git;
pub mod graph;
pub mod hints;
pub mod map;
pub mod model;
pub mod order;
pub mod parser;
pub mod render;
pub mod text;
