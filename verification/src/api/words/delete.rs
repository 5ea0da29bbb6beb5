//! Structures for `words` requests and responses related to deleting.

use super::LoginArgs;
use vstd::prelude::*;

verus! {

/// LanguageTool POST words delete request.
///
/// Remove a word from one of the user's personal dictionaries.
#[derive(Clone, Debug, Default, PartialEq, Eq, Hash)]
pub struct Request {
    /// The word to be removed.
    pub word: String,
    /// Login arguments.
    pub login: LoginArgs,
    /// Name of the dictionary to remove the word from; if unset, removes from
    /// special default dictionary.
    pub dict: Option<String>,
}

/// LanguageTool POST word delete response.
#[derive(Clone, Copy, Debug, Default, PartialEq, Eq)]
pub struct Response {
    /// `true` if word was correctly removed.
    pub deleted: bool,
}

} // verus!
