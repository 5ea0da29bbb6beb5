//! Structures for `words` requests and responses related to adding.

use super::LoginArgs;
use vstd::prelude::*;

verus! {

/// LanguageTool POST words add request.
///
/// Add a word to one of the user's personal dictionaries. Please note that
/// this feature is considered to be used for personal dictionaries
/// which must not contain more than 500 words. If this is an issue for
/// you, please contact us.
#[derive(Clone, Debug, Default, PartialEq, Eq, Hash)]
pub struct Request {
    /// The word to be added. Must not be a phrase, i.e., cannot contain
    /// white space. The word is added to a global dictionary that
    /// applies to all languages.
    pub word: String,
    /// Login arguments.
    pub login: LoginArgs,
    /// Name of the dictionary to add the word to; non-existent dictionaries
    /// are created after calling this; if unset, adds to special
    /// default dictionary.
    pub dict: Option<String>,
}

/// LanguageTool POST word add response.
#[derive(Clone, Copy, Debug, Default, PartialEq, Eq)]
pub struct Response {
    /// `true` if word was correctly added.
    pub added: bool,
}

} // verus!
