//! Structures for `languages` requests and responses.

use vstd::prelude::*;

verus! {

/// LanguageTool GET languages request.
#[derive(Clone, Copy, Debug, PartialEq, Eq)]
pub struct Request;

/// Language information
#[derive(Clone, Debug, PartialEq, Eq)]
pub struct Language {
    /// Language name, e.g., `"Ukrainian"`.
    pub name: String,
    /// Language (short) code, e.g., `"uk"`.
    pub code: String,
    /// Language long code, e.g., `"uk-UA"`.
    pub long_code: String,
}

/// LanguageTool GET languages response.
///
/// List of all supported languages.
pub type Response = Vec<Language>;

} // verus!
