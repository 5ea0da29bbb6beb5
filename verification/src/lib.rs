//! Typed bindings for a LanguageTool server: requests, responses, and the
//! pipeline that splits long texts, merges the partial results and maps
//! each match to its line and column.

pub mod api;
pub mod cli;
pub mod docker;
pub mod error;
pub mod parsers;
pub mod text;
