//! Values exchanged with the LanguageTool HTTP API.

pub mod check;
pub mod config;
pub mod languages;
pub mod server;
pub mod words;
