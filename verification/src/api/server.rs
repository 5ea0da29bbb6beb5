//! Structure to communicate with some `LanguageTool` server through the API.
//!
//! This module holds what is decided before a request is sent and after a
//! response has come: addresses, and the trimming of long lists of
//! suggestions. Sending and receiving is left to the caller.

use crate::api::check::responses::{Match, Replacement, Response, ResponseWithContext};
use crate::cli::same_text;
use crate::error::{Error, Result};
use crate::text::{chars_of, decimal, decimal_string};
use vstd::prelude::*;
use vstd::string::StringExecFns;

verus! {

/// Whether `char::is_numeric` of std holds of a character: whether Unicode
/// puts it in one of its general categories for numbers.
pub uninterp spec fn is_numeric_char(c: char) -> bool;

/// `char::is_numeric` of std tells whether a character has one of the
/// general categories for numbers.
pub assume_specification[ char::is_numeric ](c: char) -> (b: bool)
    ensures
        b == is_numeric_char(c),
;

/// `c` can stand in a port: within ASCII it is one of the digits `0` to
/// `9`, beyond ASCII it is a numeric character.
pub open spec fn is_port_char(c: char) -> bool {
    if c <= '\u{7f}' {
        '0' <= c && c <= '9'
    } else {
        is_numeric_char(c)
    }
}

/// `v` can stand for a port: it is empty, or it takes four bytes in UTF-8
/// and is made of characters that can stand in a port.
pub open spec fn is_port_text(v: Seq<char>) -> bool {
    v.len() == 0 || (vstd::utf8::encode_utf8(v).len() == 4 && forall|i: int|
        0 <= i < v.len() ==> is_port_char(#[trigger] v[i]))
}

/// Of the texts in ASCII, the ports are the empty text and the texts of
/// exactly four digits.
pub proof fn law_ascii_ports(v: Seq<char>)
    requires
        vstd::utf8::is_ascii_chars(v),
    ensures
        is_port_text(v) <==> (v.len() == 0 || (v.len() == 4 && forall|i: int|
            0 <= i < v.len() ==> '0' <= #[trigger] v[i] <= '9')),
{
    vstd::utf8::is_ascii_chars_encode_utf8(v);
    if is_port_text(v) && v.len() > 0 {
        assert forall|i: int| 0 <= i < v.len() implies '0' <= #[trigger] v[i] <= '9' by {
            assert(is_port_char(v[i]));
        }
    }
    if v.len() == 4 && (forall|i: int| 0 <= i < v.len() ==> '0' <= #[trigger] v[i] <= '9') {
        assert forall|i: int| 0 <= i < v.len() implies is_port_char(#[trigger] v[i]) by {
            assert('0' <= v[i] <= '9');
        }
    }
}

/// Tells whether `c` can stand in a port.
fn port_char(c: char) -> (b: bool)
    ensures
        b == is_port_char(c),
{
    if c <= '\u{7f}' {
        '0' <= c && c <= '9'
    } else {
        c.is_numeric()
    }
}

/// Tells whether `v` can stand for a port.
fn port_ok(v: &str) -> (b: bool)
    ensures
        b == is_port_text(v@),
{
    let chars = chars_of(v);
    if chars.len() == 0 {
        return true;
    }
    if v.as_bytes().len() != 4 {
        return false;
    }
    let mut i: usize = 0;
    while i < chars.len()
        invariant
            i <= chars.len(),
            chars@ == v@,
            forall|k: int| 0 <= k < i ==> is_port_char(#[trigger] chars@[k]),
        decreases chars.len() - i,
    {
        if !port_char(chars[i]) {
            return false;
        }
        i += 1;
    }
    true
}

/// Parse `v` if valid port.
///
/// A valid port is either
/// - an empty string
/// - a string of four bytes in UTF-8, in which every ASCII character is one
///   of the digits `0` to `9` and every other character is numeric as
///   Unicode has it. Of the strings in ASCII, these are the strings of
///   exactly four digits, such as `8081`.
pub fn parse_port(v: &str) -> (res: Result<String>)
    ensures
        is_port_text(v@) ==> (res matches Ok(port) && port@ == v@),
        !is_port_text(v@) ==> (res matches Err(Error::InvalidValue(why)) && why@
            == "The value should be a 4 characters long string with digits only"@),
{
    if port_ok(v) {
        return Ok(v.to_owned());
    }
    Err(
        Error::InvalidValue(
            "The value should be a 4 characters long string with digits only".to_owned(),
        ),
    )
}

/// Check if `v` is a valid port.
///
/// A valid port is either
/// - an empty string
/// - a string of four bytes in UTF-8, in which every ASCII character is one
///   of the digits `0` to `9` and every other character is numeric as
///   Unicode has it. Of the strings in ASCII, these are the strings of
///   exactly four digits, such as `8081`.
pub fn is_port(v: &str) -> (res: Result<()>)
    ensures
        is_port_text(v@) ==> res is Ok,
        !is_port_text(v@) ==> (res matches Err(Error::InvalidValue(why)) && why@
            == "The value should be a 4 characters long string with digits only"@),
{
    if port_ok(v) {
        return Ok(());
    }
    Err(
        Error::InvalidValue(
            "The value should be a 4 characters long string with digits only".to_owned(),
        ),
    )
}

/// Server parameters that are to be used when instantiating a `LanguageTool`
/// server.
#[derive(Clone, Debug, PartialEq, Eq)]
pub struct ServerParameters {
    /// A Java property file (one `key = value` entry per line) with values
    /// listed in [`ConfigFile`].
    pub config: Option<String>,
    /// Port to bind to, defaults to 8081 if not specified.
    pub port: String,
    /// Allow this server process to be connected from anywhere; if not set, it
    /// can only be connected from the computer it was started on.
    pub public: bool,
    /// Set the Access-Control-Allow-Origin header in the HTTP response, used
    /// for direct (non-proxy) JavaScript-based access from browsers.
    pub allow_origin: Option<String>,
    /// In case of exceptions, log the input text (up to 500 characters).
    pub verbose: bool,
    /// A directory with '1grams', '2grams', '3grams' sub directories (per
    /// language) which contain a Lucene index (optional, overwrites
    /// 'languageModel' parameter in properties files).
    pub language_model: Option<String>,
    /// A directory with word2vec data (optional).
    pub word2vec_model: Option<String>,
    /// Activate the premium rules even when user has no username/password -
    /// useful for API servers.
    pub premium_always: bool,
}

impl Default for ServerParameters {
    fn default() -> (res: Self)
        ensures
            res.port@ == "8081"@,
            res.config is None,
            !res.public,
            res.allow_origin is None,
            !res.verbose,
            res.language_model is None,
            res.word2vec_model is None,
            !res.premium_always,
    {
        Self {
            config: None,
            port: "8081".to_owned(),
            public: false,
            allow_origin: None,
            verbose: false,
            language_model: None,
            word2vec_model: None,
            premium_always: false,
        }
    }
}

/// Hostname and (optional) port to connect to a `LanguageTool` server.
///
/// To use your local server instead of online api, set:
/// * `hostname` to "http://localhost"
/// * `port` to "8081"
///
/// if you used the default configuration to start the server.
#[derive(Clone, Debug, PartialEq, Eq)]
pub struct ServerCli {
    /// Server's hostname.
    pub hostname: String,
    /// Server's port number, with the empty string referring to no specific
    /// port.
    pub port: String,
}

impl Default for ServerCli {
    fn default() -> (res: Self)
        ensures
            res.hostname@ == "https://api.languagetoolplus.com"@,
            res.port@ == Seq::<char>::empty(),
    {
        Self { hostname: "https://api.languagetoolplus.com".to_owned(), port: String::new() }
    }
}

impl ServerCli {
    /// Create a new [`ServerCli`] instance from the values of the two
    /// variables `LANGUAGETOOL_HOSTNAME` and `LANGUAGETOOL_PORT`, or the
    /// default instance where one of them is not set.
    #[must_use]
    pub fn from_values_or_default(hostname: Option<String>, port: Option<String>) -> (res: Self)
        ensures
            hostname is Some && port is Some ==> res.hostname == hostname->0 && res.port == port->0,
            hostname is None || port is None ==> res.hostname@
                == "https://api.languagetoolplus.com"@ && res.port@ == Seq::<char>::empty(),
    {
        match (hostname, port) {
            (Some(hostname), Some(port)) => Self { hostname, port },
            _ => ServerCli::default(),
        }
    }
}

/// What the server answers when it has too much to do.
pub const OVERLOADED: &'static str = "Error: Server overloaded, please try again later";

/// The error says that the server had too much to do: the same request
/// may succeed later.
pub open spec fn is_overload(error: Error) -> bool {
    error matches Error::InvalidRequest(body) && body@ == OVERLOADED@
}

/// Tells whether an error says that the server had too much to do.
pub fn is_overloaded(error: &Error) -> (b: bool)
    ensures
        b == is_overload(*error),
{
    match error {
        Error::InvalidRequest(body) => same_text(body.as_str(), OVERLOADED),
        _ => false,
    }
}

/// When to send a request again that failed.
#[derive(Clone, Copy, Debug, PartialEq, Eq)]
pub struct RetryPolicy {
    /// How often a request is sent again at most; `None` sets no limit.
    pub max_retries: Option<usize>,
}

impl RetryPolicy {
    /// A request that failed with `error` after it was sent again `retries`
    /// times is sent once more: the error says that the server had too much
    /// to do, and the limit is not reached.
    pub open spec fn retries(self, error: Error, retries: usize) -> bool {
        is_overload(error) && match self.max_retries {
            Some(max) => retries < max,
            None => true,
        }
    }

    /// The policy that never sends a request again.
    pub fn never() -> (policy: Self)
        ensures
            policy.max_retries == Some(0usize),
    {
        Self { max_retries: Some(0) }
    }

    /// Tells whether a request that failed with `error` after it was sent
    /// again `retries` times is to be sent once more.
    pub fn should_retry(&self, error: &Error, retries: usize) -> (again: bool)
        ensures
            again == self.retries(*error, retries),
    {
        is_overloaded(error) && match self.max_retries {
            Some(max) => retries < max,
            None => true,
        }
    }
}

/// Why the answers to the requests for the fragments of one text cannot be
/// put together.
#[derive(Debug)]
pub enum GatherError<E> {
    /// There was no request.
    NoRequest,
    /// A request held no text.
    MissingText,
    /// A request failed.
    Failed(E),
}

impl<E> GatherError<E> {
    /// The error of this library that stands for a reason that is not the
    /// failure of a request.
    pub fn into_error(self) -> (res: core::result::Result<Error, E>)
        ensures
            match self {
                GatherError::NoRequest => res matches Ok(Error::InvalidRequest(text)) && text@
                    == "no request; cannot join zero request"@,
                GatherError::MissingText => res matches Ok(Error::InvalidRequest(text)) && text@
                    == "missing text field; cannot join requests with data annotations"@,
                GatherError::Failed(e) => res == Err::<Error, E>(e),
            },
    {
        match self {
            GatherError::NoRequest => Ok(
                Error::InvalidRequest("no request; cannot join zero request".to_owned()),
            ),
            GatherError::MissingText => Ok(
                Error::InvalidRequest(
                    "missing text field; cannot join requests with data annotations".to_owned(),
                ),
            ),
            GatherError::Failed(e) => Err(e),
        }
    }
}

/// The answers before index `k` are all responses to requests with text.
pub open spec fn all_answered<E>(
    answers: Seq<(Option<String>, core::result::Result<Response, E>)>,
    k: int,
) -> bool {
    forall|i: int| 0 <= i < k ==> (#[trigger] answers[i]).0 is Some && answers[i].1 is Ok
}

/// `result` is the answer `answer` of the server to one request: its
/// response, with the text of the request.
pub open spec fn is_gathered<E>(
    result: ResponseWithContext,
    answer: (Option<String>, core::result::Result<Response, E>),
) -> bool {
    &&& answer.0 == Some(result.text)
    &&& answer.1 == Ok::<Response, E>(result.response)
    &&& result.wf()
}

/// Puts the answers to the requests for the fragments of one text together,
/// in the order of the requests, whatever the order in which they came.
/// Each answer comes with the text of its request. All requests must have
/// succeeded: where one failed, its error is returned and nothing else, and
/// of several errors the one of the earliest request.
///
/// # Errors
///
/// If there is no answer at all, if a request failed, or if a request that
/// succeeded had no text.
pub fn gather<E>(answers: Vec<(Option<String>, core::result::Result<Response, E>)>) -> (res:
    core::result::Result<Vec<ResponseWithContext>, GatherError<E>>)
    ensures
        answers@.len() == 0 ==> res matches Err(GatherError::NoRequest),
        answers@.len() > 0 && all_answered(answers@, answers@.len() as int) ==> (res matches Ok(
            results,
        ) && results@.len() == answers@.len() && forall|i: int|
            0 <= i < results@.len() ==> is_gathered(#[trigger] results@[i], answers@[i])),
        !all_answered(answers@, answers@.len() as int) ==> exists|i: int|
            0 <= i < answers@.len() && all_answered(answers@, i) && match (#[trigger] answers@[i]).1 {
                Err(e) => res matches Err(GatherError::Failed(failure)) && failure == e,
                Ok(_) => answers@[i].0 is None && res matches Err(GatherError::MissingText),
            },
{
    let ghost given = answers@;
    if answers.len() == 0 {
        return Err(GatherError::NoRequest);
    }
    let mut results: Vec<ResponseWithContext> = Vec::new();
    for answer in it: answers
        invariant
            it.seq() == given,
            given.len() > 0,
            all_answered(given, it.index()),
            results@.len() == it.index(),
            forall|i: int| 0 <= i < it.index() ==> is_gathered(#[trigger] results@[i], given[i]),
    {
        let ghost at = it.index();
        proof {
            assert(given[at] == answer);
        }
        let (text, outcome) = answer;
        match outcome {
            Ok(response) => match text {
                Some(text) => {
                    results.push(ResponseWithContext::new(text, response));
                },
                None => {
                    proof {
                        assert(!all_answered(given, given.len() as int));
                    }
                    return Err(GatherError::MissingText);
                },
            },
            Err(e) => {
                proof {
                    assert(!all_answered(given, given.len() as int));
                }
                return Err(GatherError::Failed(e));
            },
        }
    }
    Ok(results)
}

/// The address of the API of the server at `hostname` and `port`.
pub open spec fn api_address(hostname: Seq<char>, port: Seq<char>) -> Seq<char> {
    if port.len() == 0 {
        hostname + "/v2"@
    } else {
        hostname + ":"@ + port + "/v2"@
    }
}

/// What stands in the place of the suggestions that are not shown.
pub open spec fn not_shown(hidden: nat) -> Seq<char> {
    "... ("@ + decimal(hidden) + " not shown)"@
}

/// The match `limited` is `m` with no more than `max` of its suggestions,
/// followed, where there were more, by a note that says how many are not
/// shown.
pub open spec fn is_limited(limited: Match, m: Match, max: int) -> bool {
    let given = m.replacements@;
    let kept = limited.replacements@;
    &&& limited == (Match { replacements: limited.replacements, ..m })
    &&& given.len() <= max ==> kept == given
    &&& given.len() > max ==> {
        &&& kept.len() == max + 1
        &&& kept.take(max) == given.take(max)
        &&& kept[max].value@ == not_shown((given.len() - max) as nat)
    }
}

/// What a client needs to know of a `LanguageTool` server to send it
/// requests and to trim its responses.
#[derive(Clone, Debug, PartialEq, Eq)]
pub struct ServerClient {
    /// API string: hostname and, optionally, port number (see [`ServerCli`]).
    pub api: String,
    /// Maximum number of suggestions kept for each match; a negative number
    /// or zero keeps them all.
    pub max_suggestions: isize,
}

impl ServerClient {
    /// Construct a new server client using hostname and (optional) port
    ///
    /// An empty string is accepted as empty port.
    /// For port validation, please use [`parse_port`] as this constructor does
    /// not check anything.
    #[must_use]
    pub fn new(hostname: &str, port: &str) -> (client: Self)
        ensures
            client.api@ == api_address(hostname@, port@),
            client.max_suggestions == -1,
    {
        let mut api: String = hostname.to_owned();
        if port.unicode_len() != 0 {
            api.append(":");
            api.append(port);
        }
        api.append("/v2");
        Self { api, max_suggestions: -1 }
    }

    /// Set the maximum number of suggestions (defaults to -1), a negative
    /// number will keep all replacement suggestions.
    #[must_use]
    pub fn with_max_suggestions(self, max_suggestions: isize) -> (client: Self)
        ensures
            client.api == self.api,
            client.max_suggestions == max_suggestions,
    {
        let mut client = self;
        client.max_suggestions = max_suggestions;
        client
    }

    /// Convert a [`ServerCli`] into a proper (usable) client.
    #[must_use]
    pub fn from_cli(cli: ServerCli) -> (client: Self)
        ensures
            client.api@ == api_address(cli.hostname@, cli.port@),
            client.max_suggestions == -1,
    {
        Self::new(cli.hostname.as_str(), cli.port.as_str())
    }

    /// The address of the part `name` of the API, such as `check` or
    /// `languages`.
    pub fn endpoint(&self, name: &str) -> (address: String)
        ensures
            address@ == self.api@ + "/"@ + name@,
    {
        let mut address: String = self.api.clone();
        address.append("/");
        address.append(name);
        address
    }

    /// Keeps of each match of a response no more suggestions than this
    /// client is set to keep, see [`ServerClient::with_max_suggestions`].
    #[must_use]
    pub fn limit_suggestions(&self, response: Response) -> (res: Response)
        ensures
            res.language == response.language,
            res.sentence_ranges == response.sentence_ranges,
            res.software == response.software,
            res.warnings == response.warnings,
            self.max_suggestions <= 0 ==> res.matches@ == response.matches@,
            self.max_suggestions > 0 ==> res.matches@.len() == response.matches@.len()
                && forall|i: int|
                0 <= i < res.matches@.len() ==> is_limited(
                    #[trigger] res.matches@[i],
                    response.matches@[i],
                    self.max_suggestions as int,
                ),
    {
        if self.max_suggestions <= 0 {
            return response;
        }
        let max: usize = self.max_suggestions as usize;
        let ghost given = response.matches@;
        let mut res = response;
        let matches = res.matches;
        let mut limited: Vec<Match> = Vec::new();
        for m in it: matches
            invariant
                it.seq() == given,
                max > 0,
                limited.len() == it.index(),
                forall|i: int|
                    0 <= i < it.index() ==> is_limited(#[trigger] limited@[i], given[i], max as int),
        {
            limited.push(limit_match(m, max));
        }
        res.matches = limited;
        res
    }
}

/// Keeps no more than `max` suggestions of a match.
fn limit_match(m: Match, max: usize) -> (limited: Match)
    requires
        max > 0,
    ensures
        is_limited(limited, m, max as int),
{
    let mut limited = m;
    let len: usize = limited.replacements.len();
    if max < len {
        let mut note: String = "... (".to_owned();
        let count = decimal_string(len - max);
        note.append(count.as_str());
        note.append(" not shown)");
        let mut replacements = limited.replacements;
        replacements.set(max, Replacement::new(note));
        replacements.truncate(max + 1);
        proof {
            assert(replacements@.take(max as int) =~= m.replacements@.take(max as int));
        }
        limited.replacements = replacements;
    }
    limited
}

} // verus!
