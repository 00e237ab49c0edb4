//! Study-progress logic of the computer-organization study assistant: the
//! question bank, answers, self-assessments and progress tallies, kept as an
//! in-memory model of the application's tables.

pub mod errors;
pub mod text;
pub mod models;
pub mod sorting;
pub mod store;
pub mod queries;
pub mod practice;
pub mod stats;
pub mod import;
pub mod laws;
pub mod tally_laws;
pub mod listing_laws;
pub mod query_laws;
pub mod paths;
