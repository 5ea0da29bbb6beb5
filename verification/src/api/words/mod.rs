//! Structures for `words` requests and responses.

pub mod add;
pub mod delete;

use crate::error::{Error, Result};
use crate::text::chars_of;
use vstd::prelude::*;

verus! {

/// Parse `v` if valid word.
///
/// A valid word is any string slice that does not contain any whitespace
pub fn parse_word(v: &str) -> (res: Result<String>)
    ensures
        !v@.contains(' ') ==> (res matches Ok(word) && word@ == v@),
        v@.contains(' ') ==> (res matches Err(Error::InvalidValue(why)) && why@
            == "The value should be a word that does not contain any whitespace"@),
{
    let chars = chars_of(v);
    let mut i: usize = 0;
    while i < chars.len()
        invariant
            i <= chars.len(),
            chars@ == v@,
            forall|k: int| 0 <= k < i ==> chars@[k] != ' ',
        decreases chars.len() - i,
    {
        if chars[i] == ' ' {
            return Err(
                Error::InvalidValue(
                    "The value should be a word that does not contain any whitespace".to_owned(),
                ),
            );
        }
        i += 1;
    }
    Ok(v.to_owned())
}

/// Login arguments required by the API.
#[derive(Clone, Debug, Default, PartialEq, Eq, Hash)]
pub struct LoginArgs {
    /// Your username as used to log in at languagetool.org.
    pub username: String,
    /// Your API key.
    pub api_key: String,
}

/// LanguageTool GET words request.
///
/// List words in the user's personal dictionaries.
#[derive(Clone, Debug, Default, PartialEq, Eq, Hash)]
pub struct Request {
    /// Offset of where to start in the list of words.
    ///
    /// Defaults to 0.
    pub offset: Option<isize>,
    /// Maximum number of words to return.
    ///
    /// Defaults to 10.
    pub limit: Option<isize>,
    /// Login arguments.
    pub login: LoginArgs,
    /// List of dictionaries to include words from; uses special default
    /// dictionary if this is unset.
    pub dicts: Option<Vec<String>>,
}

/// Copy of [`Request`], but used to build the request from arguments that
/// may lack the login.
#[derive(Clone, Debug, PartialEq, Eq)]
pub struct RequestArgs {
    /// Offset of where to start in the list of words.
    pub offset: isize,
    /// Maximum number of words to return.
    pub limit: isize,
    /// Login arguments.
    pub login: Option<LoginArgs>,
    /// List of dictionaries to include words from; uses special default
    /// dictionary if this is unset.
    pub dicts: Option<Vec<String>>,
}

impl Default for RequestArgs {
    fn default() -> (args: Self)
        ensures
            args.offset == 0,
            args.limit == 10,
            args.login is None,
            args.dicts is None,
    {
        Self { offset: 0, limit: 10, login: None, dicts: None }
    }
}

impl RequestArgs {
    /// The request that the arguments ask for, or `None` where the login is
    /// missing.
    pub fn into_request(self) -> (res: Option<Request>)
        ensures
            self.login is None ==> res is None,
            self.login is Some ==> res == Some(
                Request {
                    offset: Some(self.offset),
                    limit: Some(self.limit),
                    login: self.login->0,
                    dicts: self.dicts,
                },
            ),
    {
        match self.login {
            Some(login) => Some(
                Request {
                    offset: Some(self.offset),
                    limit: Some(self.limit),
                    login,
                    dicts: self.dicts,
                },
            ),
            None => None,
        }
    }
}

/// Words' optional subcommand.
#[derive(Clone, Debug, PartialEq, Eq)]
pub enum WordsSubcommand {
    /// Add a word to some user's list.
    Add(add::Request),
    /// Remove a word from some user's list.
    Delete(delete::Request),
}

/// Retrieve some user's words list, or add / delete word from it.
#[derive(Clone, Debug, PartialEq, Eq)]
pub struct WordsCommand {
    /// Actual GET request.
    pub request: RequestArgs,
    /// Optional subcommand.
    pub subcommand: Option<WordsSubcommand>,
}

/// LanguageTool GET words response.
#[derive(Clone, Debug, Default, PartialEq, Eq)]
pub struct Response {
    /// List of words.
    pub words: Vec<String>,
}

} // verus!
