//! Structures for `check` requests.

use super::data_annotations::{
    clone_opt, document_views, opt_view, split_documents, AnnotationView, Data,
};
use crate::error::{Error, Result};
use crate::text::{
    chars_of, find_segment_ends, is_cutting, fragment_ends, fragments, group_segments,
    lemma_fragment_ends_cut, lemma_segment_ends_cut, piece, piece_start, positions, segment_ends,
};
use vstd::pervasive::unreached;
use vstd::prelude::*;
use vstd::string::StringExecFns;

verus! {

/// Possible levels for additional rules.
///
/// Currently, `Level::Picky` adds additional rules
/// with respect to `Level::Default`.
#[derive(Clone, Copy, Debug, PartialEq, Eq, Hash, Structural)]
pub enum Level {
    /// Default level.
    Default,
    /// Picky level.
    Picky,
}

impl Default for Level {
    fn default() -> (level: Self)
        ensures
            level == Level::Default,
    {
        Level::Default
    }
}

impl Level {
    /// Return `true` if current level is the default one.
    #[must_use]
    pub fn is_default(&self) -> (b: bool)
        ensures
            b == (*self == Level::Default),
    {
        *self == Level::default()
    }
}

/// The views of a sequence of string slices.
pub open spec fn str_views(parts: Seq<&str>) -> Seq<Seq<char>> {
    parts.map_values(|p: &str| p@)
}

/// Split a string into as few fragments as possible, where each fragment
/// is (if possible) shorter than `n`. Pattern str `pat` is used for
/// splitting.
///
/// The length of a fragment is measured as `str::len` measures it, in
/// bytes of UTF-8. The string is cut behind occurrences of `pat` only, so
/// a fragment can reach or pass `n` where no occurrence allows a cut, and
/// no character is ever divided. The fragments are slices of `s` and, one
/// after the other, make up `s` again.
#[must_use]
pub fn split_len<'source>(s: &'source str, n: usize, pat: &str) -> (res: Vec<&'source str>)
    ensures
        str_views(res@) == fragments(s@, n as int, pat@),
{
    let text = chars_of(s);
    let pattern = chars_of(pat);
    let ends = find_segment_ends(&text, &pattern);
    proof {
        lemma_segment_ends_cut(s@, pat@);
        assert forall|j: int, k: int| 0 <= j <= k < ends@.len() implies ends@[j] <= ends@[k] by {
            assert(positions(ends@)[j] == ends@[j]);
            assert(positions(ends@)[k] == ends@[k]);
        }
    }
    proof {
        assert forall|k: int| 0 <= k < ends@.len() implies #[trigger] ends@[k] <= text@.len() by {
            assert(positions(ends@)[k] == ends@[k]);
        }
    }
    let cuts = group_segments(&text, &ends, n);
    let ghost marks = fragment_ends(s@, segment_ends(s@, pat@), n as int);
    proof {
        lemma_fragment_ends_cut(s@, segment_ends(s@, pat@), n as int, s@.len() as int);
    }
    let mut res: Vec<&'source str> = Vec::new();
    let mut start: usize = 0;
    let mut k: usize = 0;
    while k < cuts.len()
        invariant
            k <= cuts.len(),
            marks == positions(cuts@),
            is_cutting(marks, s@.len() as int),
            start == piece_start(marks, k as int),
            start <= s@.len(),
            res.len() == k,
            forall|j: int| 0 <= j < k ==> (#[trigger] res@[j])@ == piece(s@, marks, j),
        decreases cuts.len() - k,
    {
        let end: usize = cuts[k];
        proof {
            assert(marks[k as int] == end);
            if k > 0 {
                assert(marks[k - 1] <= marks[k as int]);
            }
        }
        let part: &'source str = s.substring_char(start, end);
        res.push(part);
        start = end;
        k += 1;
    }
    proof {
        assert(str_views(res@) =~= fragments(s@, n as int, pat@));
    }
    res
}

/// Default value for [`Request::language`].
pub const DEFAULT_LANGUAGE: &'static str = "auto";

/// The views of a sequence of strings.
pub open spec fn string_views(items: Seq<String>) -> Seq<Seq<char>> {
    items.map_values(|s: String| s@)
}

/// The views of an optional list of strings.
pub open spec fn opt_list_view(list: Option<Vec<String>>) -> Option<Seq<Seq<char>>> {
    match list {
        Some(v) => Some(string_views(v@)),
        None => None,
    }
}

/// The view of optional data.
pub open spec fn opt_data_view(data: Option<Data>) -> Option<Seq<AnnotationView>> {
    match data {
        Some(d) => Some(d@),
        None => None,
    }
}

/// A copy of a list of strings.
pub fn clone_list(list: &Vec<String>) -> (res: Vec<String>)
    ensures
        string_views(res@) == string_views(list@),
{
    let mut res: Vec<String> = Vec::new();
    let mut i: usize = 0;
    while i < list.len()
        invariant
            i <= list.len(),
            res.len() == i,
            forall|k: int| 0 <= k < i ==> (#[trigger] res@[k])@ == list@[k]@,
        decreases list.len() - i,
    {
        res.push(list[i].clone());
        i += 1;
    }
    proof {
        assert(string_views(res@) =~= string_views(list@));
    }
    res
}

/// A copy of an optional list of strings.
pub fn clone_opt_list(list: &Option<Vec<String>>) -> (res: Option<Vec<String>>)
    ensures
        opt_list_view(res) == opt_list_view(*list),
{
    match list {
        Some(v) => Some(clone_list(v)),
        None => None,
    }
}

/// LanguageTool POST check request.
///
/// The main feature - check a text with LanguageTool for possible style and
/// grammar issues.
///
/// The structure below tries to follow as closely as possible the JSON API
/// of the server.
#[derive(Debug, PartialEq, Eq, Hash)]
pub struct Request {
    /// The text to be checked. This or 'data' is required.
    pub text: Option<String>,
    /// The text to be checked, given as a document that specifies what's
    /// text and what's markup. This or 'text' is required.
    ///
    /// Markup will be ignored when looking for errors.
    pub data: Option<Data>,
    /// A language code like `en-US`, `de-DE`, `fr`, or `auto` to guess the
    /// language automatically (see `preferred_variants` below).
    ///
    /// For languages with variants (English, German, Portuguese) spell checking
    /// will only be activated when you specify the variant, e.g. `en-GB`
    /// instead of just `en`.
    pub language: String,
    /// Set to get Premium API access: Your username/email as used to log in at
    /// languagetool.org.
    pub username: Option<String>,
    /// Set to get Premium API access: your API key.
    pub api_key: Option<String>,
    /// List of dictionaries to include words from; uses special default
    /// dictionary if this is unset.
    pub dicts: Option<Vec<String>>,
    /// A language code of the user's native language, enabling false friends
    /// checks for some language pairs.
    pub mother_tongue: Option<String>,
    /// List of preferred language variants.
    ///
    /// The language detector used with `language=auto` can detect e.g. English,
    /// but it cannot decide whether British English or American English is
    /// used. Thus this parameter can be used to specify the preferred variants
    /// like `en-GB` and `de-AT`. Only available with `language=auto`.
    pub preferred_variants: Option<Vec<String>>,
    /// IDs of rules to be enabled.
    pub enabled_rules: Option<Vec<String>>,
    /// IDs of rules to be disabled.
    pub disabled_rules: Option<Vec<String>>,
    /// IDs of categories to be enabled.
    pub enabled_categories: Option<Vec<String>>,
    /// IDs of categories to be disabled.
    pub disabled_categories: Option<Vec<String>>,
    /// If true, only the rules and categories whose IDs are specified with
    /// `enabled_rules` or `enabled_categories` are enabled.
    pub enabled_only: bool,
    /// If set to `picky`, additional rules will be activated, i.e. rules that
    /// you might only find useful when checking formal text.
    pub level: Level,
}

/// What a [`Request`] holds, as sequences of characters.
pub struct RequestView {
    pub text: Option<Seq<char>>,
    pub data: Option<Seq<AnnotationView>>,
    pub language: Seq<char>,
    pub username: Option<Seq<char>>,
    pub api_key: Option<Seq<char>>,
    pub dicts: Option<Seq<Seq<char>>>,
    pub mother_tongue: Option<Seq<char>>,
    pub preferred_variants: Option<Seq<Seq<char>>>,
    pub enabled_rules: Option<Seq<Seq<char>>>,
    pub disabled_rules: Option<Seq<Seq<char>>>,
    pub enabled_categories: Option<Seq<Seq<char>>>,
    pub disabled_categories: Option<Seq<Seq<char>>>,
    pub enabled_only: bool,
    pub level: Level,
}

/// The text that a sequence of annotations stands for: their texts or
/// markups one after the other, or `None` where an annotation has neither.
pub open spec fn data_text(units: Seq<AnnotationView>) -> Option<Seq<char>>
    decreases units.len(),
{
    if units.len() == 0 {
        Some(Seq::empty())
    } else {
        match (data_text(units.drop_last()), units.last().effective_text()) {
            (Some(front), Some(last)) => Some(front + last),
            _ => None,
        }
    }
}

impl RequestView {
    /// A request without text, data or options, in the language `language`.
    pub open spec fn empty(language: Seq<char>) -> RequestView {
        RequestView {
            text: None,
            data: None,
            language,
            username: None,
            api_key: None,
            dicts: None,
            mother_tongue: None,
            preferred_variants: None,
            enabled_rules: None,
            disabled_rules: None,
            enabled_categories: None,
            disabled_categories: None,
            enabled_only: false,
            level: Level::Default,
        }
    }

    /// The request with `text` to check, and no data.
    pub open spec fn with_text(self, text: Seq<char>) -> RequestView {
        RequestView { text: Some(text), data: None, ..self }
    }

    /// The request with `data` to check, and no text.
    pub open spec fn with_data(self, data: Seq<AnnotationView>) -> RequestView {
        RequestView { text: None, data: Some(data), ..self }
    }

    /// The text that the request asks to check: its text or, without text,
    /// what its data stands for.
    pub open spec fn checked_text(self) -> Option<Seq<char>> {
        match (self.text, self.data) {
            (Some(t), _) => Some(t),
            (None, Some(units)) => data_text(units),
            (None, None) => None,
        }
    }

    /// The requests into which this one is split: one for each document of
    /// its data or, without data, one for each fragment of its text.
    pub open spec fn split(self, n: int, pat: Seq<char>) -> Option<Seq<RequestView>> {
        match (self.data, self.text) {
            (Some(units), _) => Some(
                split_documents(units, n, pat).map_values(
                    |d: Seq<AnnotationView>| self.with_data(d),
                ),
            ),
            (None, Some(t)) => Some(
                fragments(t, n, pat).map_values(|f: Seq<char>| self.with_text(f)),
            ),
            (None, None) => None,
        }
    }
}

impl View for Request {
    type V = RequestView;

    open spec fn view(&self) -> RequestView {
        RequestView {
            text: opt_view(self.text),
            data: opt_data_view(self.data),
            language: self.language@,
            username: opt_view(self.username),
            api_key: opt_view(self.api_key),
            dicts: opt_list_view(self.dicts),
            mother_tongue: opt_view(self.mother_tongue),
            preferred_variants: opt_list_view(self.preferred_variants),
            enabled_rules: opt_list_view(self.enabled_rules),
            disabled_rules: opt_list_view(self.disabled_rules),
            enabled_categories: opt_list_view(self.enabled_categories),
            disabled_categories: opt_list_view(self.disabled_categories),
            enabled_only: self.enabled_only,
            level: self.level,
        }
    }
}

/// The views of a sequence of requests.
pub open spec fn request_views(requests: Seq<Request>) -> Seq<RequestView> {
    requests.map_values(|r: Request| r@)
}

impl Default for Request {
    fn default() -> (req: Self)
        ensures
            req@ == RequestView::empty(Seq::empty()),
    {
        Self {
            text: None,
            data: None,
            language: String::new(),
            username: None,
            api_key: None,
            dicts: None,
            mother_tongue: None,
            preferred_variants: None,
            enabled_rules: None,
            disabled_rules: None,
            enabled_categories: None,
            disabled_categories: None,
            enabled_only: false,
            level: Level::Default,
        }
    }
}

impl Clone for Request {
    fn clone(&self) -> (res: Self)
        ensures
            res@ == self@,
    {
        Self {
            text: clone_opt(&self.text),
            data: match &self.data {
                Some(d) => Some(d.clone()),
                None => None,
            },
            language: self.language.clone(),
            username: clone_opt(&self.username),
            api_key: clone_opt(&self.api_key),
            dicts: clone_opt_list(&self.dicts),
            mother_tongue: clone_opt(&self.mother_tongue),
            preferred_variants: clone_opt_list(&self.preferred_variants),
            enabled_rules: clone_opt_list(&self.enabled_rules),
            disabled_rules: clone_opt_list(&self.disabled_rules),
            enabled_categories: clone_opt_list(&self.enabled_categories),
            disabled_categories: clone_opt_list(&self.disabled_categories),
            enabled_only: self.enabled_only,
            level: self.level,
        }
    }
}

impl Request {
    /// Create a new empty request with language set to `"auto"`.
    #[must_use]
    pub fn new() -> (req: Self)
        ensures
            req@ == RequestView::empty(DEFAULT_LANGUAGE@),
    {
        let mut req = Request::default();
        req.language = DEFAULT_LANGUAGE.to_owned();
        req
    }

    /// Set the text to be checked and remove potential data field.
    #[must_use]
    pub fn with_text(self, text: &str) -> (req: Self)
        ensures
            req@ == self@.with_text(text@),
    {
        let mut req = self;
        req.text = Some(text.to_owned());
        req.data = None;
        req
    }

    /// Set the data to be checked and remove potential text field.
    #[must_use]
    pub fn with_data(self, data: Data) -> (req: Self)
        ensures
            req@ == self@.with_data(data@),
    {
        let mut req = self;
        req.data = Some(data);
        req.text = None;
        req
    }

    /// The language that the server is asked for: the language of the
    /// request or, where none is set, `auto`.
    pub fn language_to_send(&self) -> (language: &str)
        ensures
            language@ == if self.language@.len() == 0 {
                DEFAULT_LANGUAGE@
            } else {
                self.language@
            },
    {
        if self.language.as_str().unicode_len() == 0 {
            DEFAULT_LANGUAGE
        } else {
            self.language.as_str()
        }
    }

    /// Set the language of the text / data.
    #[must_use]
    pub fn with_language(self, language: String) -> (req: Self)
        ensures
            req@ == (RequestView { language: language@, ..self@ }),
    {
        let mut req = self;
        req.language = language;
        req
    }

    /// Return the text within the request.
    ///
    /// # Errors
    ///
    /// If both `self.text` and `self.data` are [`None`].
    /// If any data annotation does not contain text or markup.
    pub fn try_get_text(&self) -> (res: Result<String>)
        ensures
            match self@.checked_text() {
                Some(t) => res matches Ok(s) && s@ == t,
                None => if self.text is None && self.data is None {
                    res matches Err(Error::InvalidRequest(why)) && why@
                        == "missing either text or data field"@
                } else {
                    res matches Err(Error::InvalidDataAnnotation(_))
                },
            },
    {
        if let Some(text) = &self.text {
            Ok(text.clone())
        } else if let Some(data) = &self.data {
            let mut text = String::new();
            let mut i: usize = 0;
            while i < data.annotation.len()
                invariant
                    i <= data.annotation.len(),
                    self.text is None,
                    self.data == Some(*data),
                    data_text(data@.take(i as int)) == Some(text@),
                decreases data.annotation.len() - i,
            {
                proof {
                    assert(data@.take(i + 1).drop_last() =~= data@.take(i as int));
                    assert(data@.take(i + 1).last() == data@[i as int]);
                }
                match data.annotation[i].try_get_text() {
                    Ok(part) => {
                        text.append(part.as_str());
                    },
                    Err(e) => {
                        proof {
                            assert(data@[i as int] == data.annotation@[i as int]@);
                            lemma_data_text_none(data@, i as int);
                        }
                        return Err(e);
                    },
                }
                i += 1;
            }
            proof {
                assert(data@.take(i as int) =~= data@);
            }
            Ok(text)
        } else {
            Err(Error::InvalidRequest("missing either text or data field".to_owned()))
        }
    }

    /// Return a copy of the text within the request.
    ///
    /// The request must hold text, or data of which every annotation holds
    /// text or markup: see [`Request::try_get_text`] for a request of which
    /// this is not known.
    #[must_use]
    pub fn get_text(&self) -> (text: String)
        requires
            self@.checked_text() is Some,
        ensures
            Some(text@) == self@.checked_text(),
    {
        match self.try_get_text() {
            Ok(text) => text,
            Err(_) => unreached(),
        }
    }

    /// Split this request into multiple, using [`split_len`] function to split
    /// text, or [`Data::split`] where the request holds data.
    ///
    /// # Errors
    ///
    /// If `self.text` is [`None`] and `self.data` is [`None`].
    pub fn try_split(self, n: usize, pat: &str) -> (res: Result<Vec<Self>>)
        ensures
            match self@.split(n as int, pat@) {
                Some(parts) => res matches Ok(v) && request_views(v@) == parts,
                None => res matches Err(Error::InvalidRequest(why)) && why@
                    == "missing text or data field"@,
            },
    {
        let ghost whole = self@;
        let mut base = self;
        let data = base.data;
        base.data = None;
        let text = base.text;
        base.text = None;
        // DATA ANNOTATIONS
        if let Some(data) = data {
            let ghost parts = split_documents(data@, n as int, pat@);
            let documents = data.split(n, pat);
            let mut requests: Vec<Request> = Vec::new();
            for document in it: documents
                invariant
                    it.seq() == documents@,
                    document_views(documents@) == parts,
                    (RequestView { text: None, data: None, ..whole }) == base@,
                    requests.len() == it.index(),
                    forall|k: int|
                        0 <= k < it.index() ==> (#[trigger] requests@[k])@ == whole.with_data(
                            parts[k],
                        ),
            {
                proof {
                    assert(document_views(documents@)[it.index()] == documents@[it.index()]@);
                }
                requests.push(base.clone().with_data(document));
            }
            proof {
                assert(request_views(requests@) =~= whole.split(n as int, pat@).unwrap());
            }
            return Ok(requests);
        }
        // TEXT
        match text {
            Some(text) => {
                let ghost parts = fragments(text@, n as int, pat@);
                let pieces = split_len(text.as_str(), n, pat);
                let mut requests: Vec<Request> = Vec::new();
                let mut k: usize = 0;
                while k < pieces.len()
                    invariant
                        k <= pieces.len(),
                        str_views(pieces@) == parts,
                        (RequestView { text: None, data: None, ..whole }) == base@,
                        requests.len() == k,
                        forall|j: int|
                            0 <= j < k ==> (#[trigger] requests@[j])@ == whole.with_text(parts[j]),
                    decreases pieces.len() - k,
                {
                    proof {
                        assert(str_views(pieces@)[k as int] == pieces@[k as int]@);
                    }
                    requests.push(base.clone().with_text(pieces[k]));
                    k += 1;
                }
                proof {
                    assert(request_views(requests@) =~= whole.split(n as int, pat@).unwrap());
                }
                Ok(requests)
            },
            None => Err(Error::InvalidRequest("missing text or data field".to_owned())),
        }
    }

    /// Split this request into multiple, using [`split_len`] function to split
    /// text.
    ///
    /// The request must hold text or data: see [`Request::try_split`] for a
    /// request of which this is not known.
    #[must_use]
    pub fn split(self, n: usize, pat: &str) -> (res: Vec<Self>)
        requires
            self.text is Some || self.data is Some,
        ensures
            Some(request_views(res@)) == self@.split(n as int, pat@),
    {
        match self.try_split(n, pat) {
            Ok(requests) => requests,
            Err(_) => unreached(),
        }
    }
}

/// A document with an annotation that holds neither text nor markup stands
/// for no text.
proof fn lemma_data_text_none(units: Seq<AnnotationView>, i: int)
    requires
        0 <= i < units.len(),
        units[i].effective_text() is None,
    ensures
        data_text(units) is None,
    decreases units.len(),
{
    if i < units.len() - 1 {
        assert(units.drop_last()[i] == units[i]);
        lemma_data_text_none(units.drop_last(), i);
    }
}

} // verus!
