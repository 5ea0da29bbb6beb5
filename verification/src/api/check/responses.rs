//! Structures for `check` responses.

use crate::error::{Error, Result};
use crate::text::chars_of;
use vstd::prelude::*;
use vstd::string::StringExecFns;

verus! {

/// Detected language from check request.
#[derive(Clone, Debug, PartialEq, Eq)]
pub struct DetectedLanguage {
    /// Language code, e.g., `"sk-SK"` for Slovak.
    pub code: String,
    /// Language name, e.g., `"Slovak"`.
    pub name: String,
}

/// Language information in check response.
#[derive(Clone, Debug, PartialEq, Eq)]
pub struct LanguageResponse {
    /// Language code, e.g., `"sk-SK"` for Slovak.
    pub code: String,
    /// Detected language from provided request.
    pub detected_language: DetectedLanguage,
    /// Language name, e.g., `"Slovak"`.
    pub name: String,
}

/// Match context in check response.
#[derive(Clone, Debug, PartialEq, Eq)]
pub struct Context {
    /// Length of the match.
    pub length: usize,
    /// Char index at which the match starts.
    pub offset: usize,
    /// Contextual text around the match.
    pub text: String,
}

/// More context, post-processed in check response.
#[derive(Clone, Copy, Debug, PartialEq, Eq)]
pub struct MoreContext {
    /// Line number where match occurred.
    pub line_number: usize,
    /// Char index at which the match starts on the current line.
    pub line_offset: usize,
}

/// Possible replacement for a given match in check response.
#[derive(Clone, Debug, PartialEq, Eq)]
pub struct Replacement {
    /// Possible replacement value.
    pub value: String,
}

impl Replacement {
    /// The replacement by `value`.
    pub fn new(value: String) -> (r: Self)
        ensures
            r.value == value,
    {
        Self { value }
    }
}

impl From<String> for Replacement {
    fn from(value: String) -> (r: Self) {
        Self { value }
    }
}

impl vstd::std_specs::convert::FromSpecImpl<String> for Replacement {
    open spec fn obeys_from_spec() -> bool {
        true
    }

    open spec fn from_spec(value: String) -> Self {
        Replacement { value }
    }
}

/// A rule category.
#[derive(Clone, Debug, PartialEq, Eq)]
pub struct Category {
    /// Category id.
    pub id: String,
    /// Category name.
    pub name: String,
}

/// A possible url of a rule in a check response.
#[derive(Clone, Debug, PartialEq, Eq)]
pub struct Url {
    /// Url value.
    pub value: String,
}

/// The rule that was not satisfied in a given match.
#[derive(Clone, Debug, PartialEq, Eq)]
pub struct Rule {
    /// Rule category.
    pub category: Category,
    /// Rule description.
    pub description: String,
    /// Rule id.
    pub id: String,
    /// Issue type.
    pub issue_type: String,
    /// Rule sub id.
    pub sub_id: Option<String>,
    /// Rule list of urls.
    pub urls: Option<Vec<Url>>,
}

/// Type of given match.
#[derive(Clone, Debug, PartialEq, Eq)]
pub struct Type {
    /// Type name.
    pub name: String,
}

/// Grammatical error match.
#[derive(Clone, Debug, PartialEq, Eq)]
pub struct Match {
    /// Match context.
    pub context: Context,
    /// Match length.
    pub length: usize,
    /// Error message.
    pub message: String,
    /// Line and column of the match, told from the text that was checked.
    pub more_context: Option<MoreContext>,
    /// Char index at which the match starts.
    pub offset: usize,
    /// List of possible replacements (if applies).
    pub replacements: Vec<Replacement>,
    /// Match rule that was not satisfied.
    pub rule: Rule,
    /// Sentence in which the error was found.
    pub sentence: String,
    /// Short message about the error.
    pub short_message: String,
    /// Match type, where the server sends one.
    pub type_: Option<Type>,
}

/// LanguageTool software details.
#[derive(Clone, Debug, PartialEq, Eq)]
pub struct Software {
    /// LanguageTool API version.
    pub api_version: usize,
    /// Some information about build date.
    pub build_date: String,
    /// Name (should be `"LanguageTool"`).
    pub name: String,
    /// Tell whether the server uses premium API or not.
    pub premium: bool,
    /// Status of the software.
    pub status: String,
    /// LanguageTool version.
    pub version: String,
}

/// Warnings about check response.
#[derive(Clone, Copy, Debug, PartialEq, Eq)]
pub struct Warnings {
    /// Indicate if results are incomplete.
    pub incomplete_results: bool,
}

/// LanguageTool POST check response.
#[derive(Clone, Debug, PartialEq, Eq)]
pub struct Response {
    /// Language information.
    pub language: LanguageResponse,
    /// List of error matches.
    pub matches: Vec<Match>,
    /// Ranges (start, end) of sentences, where the server sends them.
    pub sentence_ranges: Option<Vec<(usize, usize)>>,
    /// LanguageTool software information.
    pub software: Software,
    /// Possible warnings.
    pub warnings: Option<Warnings>,
}

/// The match `m` moved `by` characters further into the text.
pub open spec fn shifted_match(m: Match, by: int) -> Match {
    Match { offset: (m.offset + by) as usize, ..m }
}

/// The matches `ms`, each moved `by` characters further into the text.
pub open spec fn shifted_matches(ms: Seq<Match>, by: int) -> Seq<Match> {
    ms.map_values(|m: Match| shifted_match(m, by))
}

/// The sentence range `r` moved `by` characters further into the text.
pub open spec fn shifted_range(r: (usize, usize), by: int) -> (usize, usize) {
    ((r.0 + by) as usize, (r.1 + by) as usize)
}

/// The sentence ranges `rs`, each moved `by` characters further into the
/// text.
pub open spec fn shifted_ranges(rs: Seq<(usize, usize)>, by: int) -> Seq<(usize, usize)> {
    rs.map_values(|r: (usize, usize)| shifted_range(r, by))
}

/// The ranges of an optional list.
pub open spec fn opt_ranges(rs: Option<Vec<(usize, usize)>>) -> Option<Seq<(usize, usize)>> {
    match rs {
        Some(v) => Some(v@),
        None => None,
    }
}

/// Sentence ranges of two results, joined: those of the first, then those
/// of the second; where only one side has ranges, they are the result.
pub open spec fn joined_ranges(
    a: Option<Seq<(usize, usize)>>,
    b: Option<Seq<(usize, usize)>>,
) -> Option<Seq<(usize, usize)>> {
    match (a, b) {
        (Some(x), Some(y)) => Some(x + y),
        (None, Some(y)) => Some(y),
        (a, None) => a,
    }
}

/// The matches of `parts[0]`, ..., `parts[k - 1]` in this order.
pub open spec fn all_matches(parts: Seq<Response>, k: int) -> Seq<Match>
    decreases k,
{
    if k <= 0 {
        Seq::empty()
    } else {
        all_matches(parts, k - 1) + parts[k - 1].matches@
    }
}

/// The sentence ranges of `parts[0]`, ..., `parts[k - 1]` in this order.
pub open spec fn all_ranges(parts: Seq<Response>, k: int) -> Option<Seq<(usize, usize)>>
    decreases k,
{
    if k <= 0 {
        None
    } else if k == 1 {
        opt_ranges(parts[0].sentence_ranges)
    } else {
        joined_ranges(all_ranges(parts, k - 1), opt_ranges(parts[k - 1].sentence_ranges))
    }
}

/// Joins two optional lists of sentence ranges.
fn join_ranges(a: Option<Vec<(usize, usize)>>, b: Option<Vec<(usize, usize)>>) -> (res: Option<
    Vec<(usize, usize)>,
>)
    ensures
        opt_ranges(res) == joined_ranges(opt_ranges(a), opt_ranges(b)),
{
    match b {
        Some(mut y) => match a {
            Some(mut x) => {
                x.append(&mut y);
                Some(x)
            },
            None => Some(y),
        },
        None => a,
    }
}

impl Response {
    /// The matches of the response, in the order in which the server sent
    /// them.
    pub fn iter_matches(&self) -> (matches: &Vec<Match>)
        ensures
            matches == &self.matches,
    {
        &self.matches
    }

    /// Joins the responses to the fragments of one text, given in the order
    /// of the fragments, into one response: the first response, to which each
    /// of the others is appended in turn. Without any response there is
    /// nothing to return.
    pub fn join(responses: Vec<Response>) -> (res: Option<Response>)
        ensures
            responses@.len() == 0 ==> res is None,
            responses@.len() > 0 ==> (res matches Some(r) && r.matches@ == all_matches(
                responses@,
                responses@.len() as int,
            ) && opt_ranges(r.sentence_ranges) == all_ranges(responses@, responses@.len() as int)
                && r.language == responses@[0].language && r.software == responses@[0].software
                && r.warnings == responses@[0].warnings),
    {
        let ghost parts = responses@;
        let mut joined: Option<Response> = None;
        for response in it: responses
            invariant
                it.seq() == parts,
                it.index() == 0 ==> joined is None,
                it.index() > 0 ==> (joined matches Some(r) && r.matches@ == all_matches(
                    parts,
                    it.index(),
                ) && opt_ranges(r.sentence_ranges) == all_ranges(parts, it.index()) && r.language
                    == parts[0].language && r.software == parts[0].software && r.warnings
                    == parts[0].warnings),
        {
            proof {
                reveal_with_fuel(all_matches, 2);
                reveal_with_fuel(all_ranges, 2);
                assert(Seq::<Match>::empty() + response.matches@ =~= response.matches@);
            }
            joined = Some(
                match joined {
                    Some(earlier) => earlier.append(response),
                    None => response,
                },
            );
        }
        joined
    }

    /// Joins the given response to the current one.
    ///
    /// This is especially useful when a request was split into multiple
    /// requests. The matches of `other` follow those of `self`, with their
    /// offsets as they are; language, software and warnings are those of
    /// `self`.
    #[must_use]
    pub fn append(self, other: Self) -> (res: Self)
        ensures
            res.matches@ == self.matches@ + other.matches@,
            opt_ranges(res.sentence_ranges) == joined_ranges(
                opt_ranges(self.sentence_ranges),
                opt_ranges(other.sentence_ranges),
            ),
            res.language == self.language,
            res.software == self.software,
            res.warnings == self.warnings,
    {
        let mut res = self;
        let mut other = other;
        let ranges = res.sentence_ranges;
        res.sentence_ranges = join_ranges(ranges, other.sentence_ranges);
        res.matches.append(&mut other.matches);
        res
    }
}

/// The offsets of a sequence of matches.
pub open spec fn offsets_of(ms: Seq<Match>) -> Seq<int> {
    ms.map_values(|m: Match| m.offset as int)
}

/// A text with the places at which something was found in it: what the
/// merging of results is about.
pub struct Findings {
    /// The text that was checked.
    pub text: Seq<char>,
    /// Where in the text each match begins, in the order of the matches.
    pub offsets: Seq<int>,
}

impl Findings {
    /// The findings of `self` followed by those of `other`, which speak of
    /// the text that follows: their offsets move by the length of the
    /// first text.
    pub open spec fn append(self, other: Findings) -> Findings {
        Findings {
            text: self.text + other.text,
            offsets: self.offsets + other.offsets.map_values(|o: int| o + self.text.len()),
        }
    }

    /// The findings of `parts[0]`, ..., `parts[k - 1]` appended from left
    /// to right.
    pub open spec fn fold(parts: Seq<Findings>, k: int) -> Findings
        decreases k,
    {
        if k <= 1 {
            parts[0]
        } else {
            Findings::fold(parts, k - 1).append(parts[k - 1])
        }
    }
}

/// Appending is associative: how three results in a row are bracketed
/// changes neither the text nor any offset.
pub proof fn law_append_associative(a: Findings, b: Findings, c: Findings)
    ensures
        a.append(b).append(c) == a.append(b.append(c)),
{
    let left = a.append(b).append(c);
    let right = a.append(b.append(c));
    assert(left.text =~= right.text);
    assert(left.offsets =~= right.offsets);
}

/// Folding three results from left to right is appending the third to the
/// first two.
pub proof fn law_fold_is_left_to_right(a: Findings, b: Findings, c: Findings)
    ensures
        Findings::fold(seq![a, b, c], 3) == a.append(b).append(c),
        Findings::fold(seq![a], 1) == a,
{
    reveal_with_fuel(Findings::fold, 4);
}

/// After appending, the offsets of the first result are unchanged and each
/// offset of the second has grown by exactly the length of the first text.
pub proof fn law_append_shifts(a: Findings, b: Findings, i: int)
    requires
        0 <= i < a.offsets.len() + b.offsets.len(),
    ensures
        a.append(b).offsets.len() == a.offsets.len() + b.offsets.len(),
        i < a.offsets.len() ==> a.append(b).offsets[i] == a.offsets[i],
        i >= a.offsets.len() ==> a.append(b).offsets[i] == b.offsets[i - a.offsets.len()]
            + a.text.len(),
{
}

/// Appending is not commutative: the order of the two results decides
/// which offsets move.
pub proof fn law_append_order_matters()
    ensures
        exists|a: Findings, b: Findings| a.append(b).offsets != b.append(a).offsets,
{
    let a = Findings { text: seq!['a'], offsets: seq![0int] };
    let b = Findings { text: seq!['b', 'c'], offsets: seq![1int] };
    assert(a.append(b).offsets[1] == 2);
    assert(b.append(a).offsets[1] == 2);
    assert(a.append(b).offsets[0] == 0);
    assert(b.append(a).offsets[0] == 1);
}

/// A text has no more characters than its UTF-8 encoding has bytes.
proof fn lemma_chars_fit_in_bytes(chars: Seq<char>)
    ensures
        chars.len() <= vstd::utf8::encode_utf8(chars).len(),
    decreases chars.len(),
{
    if chars.len() > 0 {
        lemma_chars_fit_in_bytes(chars.drop_first());
    }
}

/// Check response with additional context.
///
/// This structure exists to keep a link between a check response
/// and the text that was checked.
#[derive(Clone, Debug, PartialEq, Eq)]
pub struct ResponseWithContext {
    /// The text that was checked by LT.
    pub text: String,
    /// Check response.
    pub response: Response,
    /// Text's length, in characters.
    pub text_length: usize,
}

impl Response {
    /// Every offset of the response can be moved `by` characters further
    /// without leaving the range of `usize`.
    pub open spec fn can_shift(&self, by: int) -> bool {
        &&& forall|i: int|
            0 <= i < self.matches@.len() ==> (#[trigger] self.matches@[i]).offset + by
                <= usize::MAX
        &&& self.sentence_ranges matches Some(rs) ==> forall|i: int|
            0 <= i < rs@.len() ==> (#[trigger] rs@[i]).0 + by <= usize::MAX && rs@[i].1 + by
                <= usize::MAX
    }

    /// The response has neither a match nor a sentence range.
    pub open spec fn no_offsets(&self) -> bool {
        &&& self.matches@.len() == 0
        &&& self.sentence_ranges matches Some(rs) ==> rs@.len() == 0
    }

    /// Tells whether the response has neither a match nor a sentence range.
    pub fn has_no_offsets(&self) -> (b: bool)
        ensures
            b == self.no_offsets(),
    {
        self.matches.len() == 0 && match &self.sentence_ranges {
            Some(rs) => rs.len() == 0,
            None => true,
        }
    }

    /// Tells whether every offset of the response can be moved `by`
    /// characters further without leaving the range of `usize`.
    pub fn fits_shifted(&self, by: usize) -> (b: bool)
        ensures
            b == self.can_shift(by as int),
    {
        let mut i: usize = 0;
        while i < self.matches.len()
            invariant
                i <= self.matches.len(),
                forall|k: int|
                    0 <= k < i ==> (#[trigger] self.matches@[k]).offset + by <= usize::MAX,
            decreases self.matches.len() - i,
        {
            if self.matches[i].offset > usize::MAX - by {
                return false;
            }
            i += 1;
        }
        match &self.sentence_ranges {
            Some(rs) => {
                let mut j: usize = 0;
                while j < rs.len()
                    invariant
                        j <= rs.len(),
                        self.sentence_ranges == Some(*rs),
                        forall|k: int|
                            0 <= k < self.matches@.len() ==> (#[trigger] self.matches@[k]).offset
                                + by <= usize::MAX,
                        forall|k: int|
                            0 <= k < j ==> (#[trigger] rs@[k]).0 + by <= usize::MAX && rs@[k].1
                                + by <= usize::MAX,
                    decreases rs.len() - j,
                {
                    if rs[j].0 > usize::MAX - by || rs[j].1 > usize::MAX - by {
                        proof {
                            let bad = self.sentence_ranges->0@[j as int];
                            assert(bad.0 + by > usize::MAX || bad.1 + by > usize::MAX);
                        }
                        return false;
                    }
                    j += 1;
                }
                true
            },
            None => true,
        }
    }
}

impl ResponseWithContext {
    /// The recorded length is the number of characters of the text.
    pub open spec fn wf(&self) -> bool {
        self.text_length == self.text@.len()
    }

    /// Tells whether the recorded length is the number of characters of the
    /// text.
    pub fn has_right_length(&self) -> (b: bool)
        ensures
            b == self.wf(),
    {
        self.text.as_str().unicode_len() == self.text_length
    }

    /// The text and the offsets of the matches.
    pub open spec fn findings(&self) -> Findings {
        Findings { text: self.text@, offsets: offsets_of(self.response.matches@) }
    }

    /// Bind a check response with the text that was checked.
    #[must_use]
    pub fn new(text: String, response: Response) -> (res: Self)
        ensures
            res.wf(),
            res.text == text,
            res.response == response,
    {
        let text_length = text.as_str().unicode_len();
        Self { text, response, text_length }
    }

    /// The matches of the response, in the order in which the server sent
    /// them.
    pub fn iter_matches(&self) -> (matches: &Vec<Match>)
        ensures
            matches == &self.response.matches,
    {
        self.response.iter_matches()
    }

    /// Append a check response to the current while
    /// adjusting the matches' offsets.
    ///
    /// This is especially useful when a text was split in multiple requests.
    /// `other` is the result for the text that follows the text of `self`:
    /// its matches and its sentence ranges move by the length of the text
    /// of `self`, and follow those of `self`. Language, software and
    /// warnings are those of `self`.
    #[must_use]
    pub fn append(self, other: Self) -> (res: Self)
        requires
            self.wf(),
            other.wf(),
            other.response.can_shift(self.text_length as int),
        ensures
            res.wf(),
            res.text@ == self.text@ + other.text@,
            res.text_length == self.text_length + other.text_length,
            res.response.matches@ == self.response.matches@ + shifted_matches(
                other.response.matches@,
                self.text_length as int,
            ),
            opt_ranges(res.response.sentence_ranges) == joined_ranges(
                opt_ranges(self.response.sentence_ranges),
                match opt_ranges(other.response.sentence_ranges) {
                    Some(rs) => Some(shifted_ranges(rs, self.text_length as int)),
                    None => None,
                },
            ),
            res.response.language == self.response.language,
            res.response.software == self.response.software,
            res.response.warnings == self.response.warnings,
            res.findings() == self.findings().append(other.findings()),
    {
        let ghost first = self;
        let ghost second = other;
        let offset: usize = self.text_length;
        let mut res = self;
        let other_text = other.text;
        let other_matches = other.response.matches;
        let other_ranges = other.response.sentence_ranges;

        let mut matches = res.response.matches;
        for m in it: other_matches
            invariant
                it.seq() == second.response.matches@,
                second.response.can_shift(offset as int),
                matches@ == first.response.matches@ + shifted_matches(
                    second.response.matches@.take(it.index()),
                    offset as int,
                ),
        {
            let ghost before = matches@;
            let ghost done = second.response.matches@.take(it.index());
            let mut moved = m;
            moved.offset = moved.offset + offset;
            matches.push(moved);
            proof {
                let next = second.response.matches@.take(it.index() + 1);
                assert(next =~= done.push(m));
                assert(shifted_matches(next, offset as int) =~= shifted_matches(
                    done,
                    offset as int,
                ).push(shifted_match(m, offset as int)));
                assert(moved == shifted_match(m, offset as int));
                assert(matches@ =~= first.response.matches@ + shifted_matches(
                    next,
                    offset as int,
                ));
            }
        }
        proof {
            assert(second.response.matches@.take(second.response.matches@.len() as int)
                =~= second.response.matches@);
        }
        res.response.matches = matches;

        let moved_ranges: Option<Vec<(usize, usize)>> = match other_ranges {
            Some(ranges) => {
                let mut moved: Vec<(usize, usize)> = Vec::new();
                let mut j: usize = 0;
                while j < ranges.len()
                    invariant
                        j <= ranges.len(),
                        forall|i: int|
                            0 <= i < ranges@.len() ==> (#[trigger] ranges@[i]).0 + offset
                                <= usize::MAX && ranges@[i].1 + offset <= usize::MAX,
                        moved@ == shifted_ranges(ranges@.take(j as int), offset as int),
                    decreases ranges.len() - j,
                {
                    let range = ranges[j];
                    moved.push((range.0 + offset, range.1 + offset));
                    proof {
                        assert(ranges@.take(j + 1) =~= ranges@.take(j as int).push(range));
                        assert(moved@ =~= shifted_ranges(ranges@.take(j + 1), offset as int));
                    }
                    j += 1;
                }
                proof {
                    assert(ranges@.take(ranges@.len() as int) =~= ranges@);
                }
                Some(moved)
            },
            None => None,
        };
        let own_ranges = res.response.sentence_ranges;
        res.response.sentence_ranges = join_ranges(own_ranges, moved_ranges);

        res.text.append(other_text.as_str());
        proof {
            lemma_chars_fit_in_bytes(res.text@);
        }
        let bytes: usize = res.text.as_str().as_bytes().len();
        res.text_length = res.text_length + other.text_length;
        proof {
            assert(res.findings().offsets =~= first.findings().append(second.findings()).offsets);
        }
        res
    }
}

/// Number of line feeds among the first `k` characters of `text`.
pub open spec fn newlines(text: Seq<char>, k: int) -> int
    decreases k,
{
    if k <= 0 {
        0
    } else if text[k - 1] == '\n' {
        newlines(text, k - 1) + 1
    } else {
        newlines(text, k - 1)
    }
}

/// Number of characters between position `k` of `text` and the beginning
/// of its line.
pub open spec fn column(text: Seq<char>, k: int) -> int
    decreases k,
{
    if k <= 0 || text[k - 1] == '\n' {
        0
    } else {
        column(text, k - 1) + 1
    }
}

/// The line of position `k` of `text`, the first line being `first_line`.
pub open spec fn line_of(text: Seq<char>, k: int, first_line: int) -> int {
    first_line + newlines(text, k)
}

proof fn lemma_position_bounds(text: Seq<char>, k: int)
    ensures
        0 <= newlines(text, k),
        0 <= column(text, k),
        k >= 0 ==> newlines(text, k) <= k && column(text, k) <= k,
    decreases k,
{
    if k > 0 {
        lemma_position_bounds(text, k - 1);
    }
}

/// Positions grow with offsets: of two offsets into one text, the later
/// one is on the same line or on a later line, and on the same line it is
/// in the same column or further right.
pub proof fn law_positions_monotone(text: Seq<char>, first_line: int, j: int, k: int)
    requires
        0 <= j <= k,
    ensures
        line_of(text, j, first_line) <= line_of(text, k, first_line),
        line_of(text, j, first_line) == line_of(text, k, first_line) ==> column(text, j) <= column(
            text,
            k,
        ),
    decreases k - j,
{
    if j < k {
        law_positions_monotone(text, first_line, j, k - 1);
    }
}

/// Reads `text` from `from` up to `to` and returns the line and the column
/// of `to`, given those of `from`.
fn advance(text: &Vec<char>, from: usize, to: usize, line: usize, col: usize) -> (res: (
    usize,
    usize,
))
    requires
        from <= to <= text.len(),
        col == column(text@, from as int),
        line + (newlines(text@, to as int) - newlines(text@, from as int)) <= usize::MAX,
    ensures
        res.0 == line + (newlines(text@, to as int) - newlines(text@, from as int)),
        res.1 == column(text@, to as int),
{
    let mut line_number: usize = line;
    let mut line_offset: usize = col;
    let mut at: usize = from;
    while at < to
        invariant
            from <= at <= to <= text.len(),
            line_number == line + (newlines(text@, at as int) - newlines(text@, from as int)),
            line_offset == column(text@, at as int),
            line + (newlines(text@, to as int) - newlines(text@, from as int)) <= usize::MAX,
        decreases to - at,
    {
        proof {
            law_positions_monotone(text@, 0, at + 1, to as int);
            lemma_position_bounds(text@, at as int);
        }
        if text[at] == '\n' {
            line_number = line_number + 1;
            line_offset = 0;
        } else {
            line_offset = line_offset + 1;
        }
        at += 1;
    }
    (line_number, line_offset)
}

/// Walks over matches and their corresponding line number and line offset.
///
/// The text is read once, forwards: the matches have to come in the order
/// of their offsets.
#[derive(Clone, Debug)]
pub struct MatchPositions<'response> {
    /// The characters of the text that was checked.
    pub text: Vec<char>,
    /// The matches to walk over.
    pub matches: &'response Vec<Match>,
    /// Index of the match that comes next.
    pub index: usize,
    /// Line of the place up to which the text was read.
    pub line_number: usize,
    /// Column of the place up to which the text was read.
    pub line_offset: usize,
    /// The place up to which the text was read.
    pub offset: usize,
}

impl<'response> MatchPositions<'response> {
    /// The walk can go on to its end: the matches that are left come in the
    /// order of their offsets, none before the place that was reached and
    /// none behind the end of the text, and no line number leaves the
    /// range of `usize`.
    pub open spec fn wf(&self) -> bool {
        &&& self.index <= self.matches@.len()
        &&& self.offset <= self.text@.len()
        &&& self.line_offset == column(self.text@, self.offset as int)
        &&& self.line_number + (self.text@.len() - self.offset) <= usize::MAX
        &&& forall|i: int|
            self.index <= i < self.matches@.len() ==> self.offset <= (
            #[trigger] self.matches@[i]).offset <= self.text@.len()
        &&& forall|i: int, j: int|
            self.index <= i <= j < self.matches@.len() ==> self.matches@[i].offset
                <= self.matches@[j].offset
    }

    /// The line number that the first line of the text has in this walk.
    pub open spec fn first_line(&self) -> int {
        self.line_number - newlines(self.text@, self.offset as int)
    }

    /// Set the line number to a given value.
    ///
    /// By default, the first line number is 1.
    pub fn set_line_number(self, line_number: usize) -> (res: Self)
        ensures
            res == (MatchPositions { line_number, ..self }),
    {
        let mut res = self;
        res.line_number = line_number;
        res
    }

    /// The next match with its line number and its line offset, or `None`
    /// after the last match.
    pub fn next(&mut self) -> (res: Option<(usize, usize, &'response Match)>)
        requires
            old(self).wf(),
        ensures
            final(self).wf(),
            final(self).text == old(self).text,
            final(self).matches == old(self).matches,
            final(self).first_line() == old(self).first_line(),
            old(self).index == old(self).matches@.len() ==> res is None && *final(self) == *old(
                self,
            ),
            old(self).index < old(self).matches@.len() ==> {
                let m = old(self).matches@[old(self).index as int];
                &&& res == Some((final(self).line_number, final(self).line_offset, &m))
                &&& final(self).index == old(self).index + 1
                &&& final(self).offset == m.offset
                &&& final(self).line_number == line_of(
                    old(self).text@,
                    m.offset as int,
                    old(self).first_line(),
                )
                &&& final(self).line_offset == column(old(self).text@, m.offset as int)
            },
    {
        if self.index >= self.matches.len() {
            return None;
        }
        let m: &'response Match = &self.matches[self.index];
        proof {
            lemma_line_room(self.text@, self.offset as int, m.offset as int);
        }
        let (line_number, line_offset) = advance(
            &self.text,
            self.offset,
            m.offset,
            self.line_number,
            self.line_offset,
        );
        proof {
            lemma_line_room(self.text@, m.offset as int, self.text@.len() as int);
        }
        self.line_number = line_number;
        self.line_offset = line_offset;
        self.offset = m.offset;
        self.index = self.index + 1;
        Some((line_number, line_offset, m))
    }
}

/// Between two places of a text there are no more line feeds than
/// characters.
proof fn lemma_line_room(text: Seq<char>, j: int, k: int)
    requires
        0 <= j <= k,
    ensures
        0 <= newlines(text, k) - newlines(text, j) <= k - j,
    decreases k - j,
{
    if j < k {
        lemma_line_room(text, j, k - 1);
    }
}

impl ResponseWithContext {
    /// The position of every match can be told: the recorded length is
    /// that of the text, the matches come in the order of their offsets,
    /// none lies behind the end of the text, and counting lines from
    /// `first_line` stays within the range of `usize`.
    pub open spec fn maps_positions(&self, first_line: int) -> bool {
        &&& self.wf()
        &&& first_line + self.text@.len() <= usize::MAX
        &&& forall|i: int|
            0 <= i < self.response.matches@.len() ==> (#[trigger] self.response.matches@[i]).offset
                <= self.text@.len()
        &&& forall|i: int, j: int|
            0 <= i <= j < self.response.matches@.len() ==> self.response.matches@[i].offset
                <= self.response.matches@[j].offset
    }

    /// Tells whether the position of every match can be told, counting
    /// lines from `first_line`.
    pub fn can_map_positions(&self, first_line: usize) -> (b: bool)
        requires
            self.wf(),
        ensures
            b == self.maps_positions(first_line as int),
    {
        if first_line > usize::MAX - self.text_length {
            return false;
        }
        let matches = &self.response.matches;
        let mut last: usize = 0;
        let mut i: usize = 0;
        while i < matches.len()
            invariant
                i <= matches.len(),
                matches == &self.response.matches,
                last <= self.text_length,
                i == 0 ==> last == 0,
                i > 0 ==> last == matches@[i - 1].offset,
                forall|k: int| 0 <= k < i ==> (#[trigger] matches@[k]).offset <= last,
                forall|j: int, k: int| 0 <= j <= k < i ==> matches@[j].offset <= matches@[k].offset,
            decreases matches.len() - i,
        {
            let offset: usize = matches[i].offset;
            if offset < last || offset > self.text_length {
                proof {
                    if offset < last {
                        assert(matches@[i - 1].offset > matches@[i as int].offset);
                    }
                }
                return false;
            }
            last = offset;
            i += 1;
        }
        true
    }

    /// Walk over the matches and their corresponding line number and line
    /// offset, the first line being line 1.
    #[must_use]
    pub fn iter_match_positions(&self) -> (walk: MatchPositions<'_>)
        ensures
            walk.text@ == self.text@,
            walk.matches == &self.response.matches,
            walk.index == 0,
            walk.line_number == 1,
            walk.line_offset == 0,
            walk.offset == 0,
            self.maps_positions(1) ==> walk.wf(),
    {
        MatchPositions {
            text: chars_of(self.text.as_str()),
            matches: &self.response.matches,
            index: 0,
            line_number: 1,
            line_offset: 0,
            offset: 0,
        }
    }
}

/// The match `m` with its line and column in `text`, the first line being
/// `first_line`.
pub open spec fn positioned_match(m: Match, text: Seq<char>, first_line: int) -> Match {
    Match {
        more_context: Some(
            MoreContext {
                line_number: line_of(text, m.offset as int, first_line) as usize,
                line_offset: column(text, m.offset as int) as usize,
            },
        ),
        ..m
    }
}

/// The matches `ms`, each with its line and column in `text`.
pub open spec fn positioned_matches(ms: Seq<Match>, text: Seq<char>, first_line: int) -> Seq<
    Match,
> {
    ms.map_values(|m: Match| positioned_match(m, text, first_line))
}

/// Mapped positions grow with the matches: where the matches come in the
/// order of their offsets and within the text, the line numbers they get do
/// not decrease, and neither do the line offsets of matches that share a
/// line.
pub proof fn law_mapped_positions_monotone(
    ms: Seq<Match>,
    text: Seq<char>,
    first_line: int,
    i: int,
    j: int,
)
    requires
        0 <= i <= j < ms.len(),
        0 <= first_line,
        first_line + text.len() <= usize::MAX,
        forall|k: int| 0 <= k < ms.len() ==> (#[trigger] ms[k]).offset <= text.len(),
        forall|k: int, l: int| 0 <= k <= l < ms.len() ==> ms[k].offset <= ms[l].offset,
    ensures
        ({
            let earlier = positioned_matches(ms, text, first_line)[i].more_context->0;
            let later = positioned_matches(ms, text, first_line)[j].more_context->0;
            &&& earlier.line_number <= later.line_number
            &&& earlier.line_number == later.line_number ==> earlier.line_offset
                <= later.line_offset
        }),
{
    law_positions_monotone(text, first_line, ms[i].offset as int, ms[j].offset as int);
    lemma_position_bounds(text, ms[i].offset as int);
    lemma_position_bounds(text, ms[j].offset as int);
}

/// The findings of a sequence of results.
pub open spec fn findings_of(parts: Seq<ResponseWithContext>) -> Seq<Findings> {
    parts.map_values(|r: ResponseWithContext| r.findings())
}

/// Number of characters of the texts of `parts[0]`, ..., `parts[k - 1]`
/// together.
pub open spec fn joined_length(parts: Seq<ResponseWithContext>, k: int) -> int
    decreases k,
{
    if k <= 0 {
        0
    } else {
        joined_length(parts, k - 1) + parts[k - 1].text@.len()
    }
}

/// The matches of `parts[0]`, ..., `parts[k - 1]` in this order, those of
/// each result moved by the length of the texts before it.
pub open spec fn joined_matches(parts: Seq<ResponseWithContext>, k: int) -> Seq<Match>
    decreases k,
{
    if k <= 0 {
        Seq::empty()
    } else {
        joined_matches(parts, k - 1) + shifted_matches(
            parts[k - 1].response.matches@,
            joined_length(parts, k - 1),
        )
    }
}

/// The sentence ranges of `parts[0]`, ..., `parts[k - 1]` in this order,
/// those of each result moved by the length of the texts before it.
pub open spec fn joined_sentence_ranges(parts: Seq<ResponseWithContext>, k: int) -> Option<
    Seq<(usize, usize)>,
>
    decreases k,
{
    if k <= 0 {
        None
    } else if k == 1 {
        opt_ranges(parts[0].response.sentence_ranges)
    } else {
        joined_ranges(
            joined_sentence_ranges(parts, k - 1),
            match opt_ranges(parts[k - 1].response.sentence_ranges) {
                Some(rs) => Some(shifted_ranges(rs, joined_length(parts, k - 1))),
                None => None,
            },
        )
    }
}

/// `r` is what joining `parts[0]`, ..., `parts[k - 1]` gives: their texts
/// one after the other, their matches and sentence ranges in this order and
/// moved into the joined text, and the language, software and warnings of
/// the first.
pub open spec fn is_joined(r: ResponseWithContext, parts: Seq<ResponseWithContext>, k: int) -> bool {
    &&& r.wf()
    &&& r.findings() == Findings::fold(findings_of(parts), k)
    &&& r.text_length == joined_length(parts, k)
    &&& r.response.matches@ == joined_matches(parts, k)
    &&& opt_ranges(r.response.sentence_ranges) == joined_sentence_ranges(parts, k)
    &&& r.response.language == parts[0].response.language
    &&& r.response.software == parts[0].response.software
    &&& r.response.warnings == parts[0].response.warnings
}

/// The results can be joined: each records the length of its text, and
/// the offsets of each can be moved by the length of the texts before it.
pub open spec fn joinable(parts: Seq<ResponseWithContext>) -> bool {
    forall|i: int|
        0 <= i < parts.len() ==> (#[trigger] parts[i]).wf() && parts[i].response.can_shift(
            joined_length(parts, i),
        )
}

impl ResponseWithContext {
    /// Tells whether the results can be joined by [`ResponseWithContext::join`].
    pub fn can_join(results: &Vec<ResponseWithContext>) -> (b: bool)
        requires
            forall|i: int| 0 <= i < results@.len() ==> (#[trigger] results@[i]).wf(),
        ensures
            b == joinable(results@),
    {
        // Length of the texts so far, as long as a `usize` holds it.
        let mut before: Option<usize> = Some(0);
        let mut i: usize = 0;
        while i < results.len()
            invariant
                i <= results.len(),
                match before {
                    Some(len) => len == joined_length(results@, i as int),
                    None => joined_length(results@, i as int) > usize::MAX,
                },
                forall|k: int| 0 <= k < results@.len() ==> (#[trigger] results@[k]).wf(),
                forall|k: int|
                    0 <= k < i ==> (#[trigger] results@[k]).response.can_shift(
                        joined_length(results@, k),
                    ),
            decreases results.len() - i,
        {
            let response = &results[i].response;
            let fits: bool = match before {
                Some(len) => response.fits_shifted(len),
                None => {
                    proof {
                        lemma_no_shift_out_of_range(*response, joined_length(results@, i as int));
                    }
                    response.has_no_offsets()
                },
            };
            if !fits {
                return false;
            }
            before = match before {
                Some(len) => len.checked_add(results[i].text_length),
                None => None,
            };
            i += 1;
        }
        true
    }

    /// Joins the results of the fragments of one text, given in the order of
    /// the fragments, into the result for the whole text: the first result,
    /// to which each of the others is appended in turn.
    ///
    /// # Errors
    ///
    /// If there is no result to join.
    pub fn join(results: Vec<ResponseWithContext>) -> (res: Result<ResponseWithContext>)
        requires
            joinable(results@),
        ensures
            results@.len() == 0 ==> res matches Err(Error::InvalidRequest(_)),
            results@.len() > 0 ==> (res matches Ok(r) && is_joined(
                r,
                results@,
                results@.len() as int,
            )),
    {
        let ghost parts = results@;
        let mut joined: Option<ResponseWithContext> = None;
        for result in it: results
            invariant
                it.seq() == parts,
                joinable(parts),
                it.index() == 0 ==> joined is None,
                it.index() > 0 ==> (joined matches Some(r) && is_joined(r, parts, it.index())),
        {
            let ghost count = it.index();
            proof {
                assert(parts[count].wf());
                assert(findings_of(parts)[count] == parts[count].findings());
                reveal_with_fuel(joined_matches, 2);
                reveal_with_fuel(joined_length, 2);
                reveal_with_fuel(joined_sentence_ranges, 2);
            }
            joined = Some(
                match joined {
                    Some(earlier) => earlier.append(result),
                    None => {
                        proof {
                            let ms = result.response.matches@;
                            assert(shifted_matches(ms, 0) =~= ms) by {
                                assert forall|k: int| 0 <= k < ms.len() implies shifted_match(
                                    ms[k],
                                    0,
                                ) == ms[k] by {}
                            }
                            assert(Seq::<Match>::empty() + ms =~= ms);
                        }
                        result
                    },
                },
            );
        }
        match joined {
            Some(r) => Ok(r),
            None => Err(Error::InvalidRequest("no request; cannot join zero request".to_owned())),
        }
    }

    /// The response, each match of which has got its line number and its
    /// line offset in the text, the first line being line 1.
    ///
    /// The matches have to come in the order of their offsets and within
    /// the text, see [`ResponseWithContext::can_map_positions`].
    #[must_use]
    pub fn into_response(self) -> (res: Response)
        requires
            self.maps_positions(1),
        ensures
            res.matches@ == positioned_matches(self.response.matches@, self.text@, 1),
            res.language == self.response.language,
            res.sentence_ranges == self.response.sentence_ranges,
            res.software == self.response.software,
            res.warnings == self.response.warnings,
    {
        let ghost given = self.response.matches@;
        let ghost chars = self.text@;
        let text = chars_of(self.text.as_str());
        let mut response = self.response;
        let matches = response.matches;
        let mut positioned: Vec<Match> = Vec::new();
        let mut line_number: usize = 1;
        let mut line_offset: usize = 0;
        let mut offset: usize = 0;
        for m in it: matches
            invariant
                it.seq() == given,
                text@ == chars,
                1 + chars.len() <= usize::MAX,
                forall|i: int| 0 <= i < given.len() ==> (#[trigger] given[i]).offset <= chars.len(),
                forall|i: int, j: int| 0 <= i <= j < given.len() ==> given[i].offset <= given[j].offset,
                offset <= chars.len(),
                forall|i: int| it.index() <= i < given.len() ==> offset <= (#[trigger] given[i]).offset,
                line_number == 1 + newlines(chars, offset as int),
                line_offset == column(chars, offset as int),
                positioned@ == positioned_matches(given.take(it.index()), chars, 1),
        {
            let ghost done = given.take(it.index());
            proof {
                assert(given[it.index()] == m);
                lemma_position_bounds(chars, m.offset as int);
            }
            let (line, col) = advance(&text, offset, m.offset, line_number, line_offset);
            line_number = line;
            line_offset = col;
            offset = m.offset;
            let mut with_position = m;
            with_position.more_context = Some(MoreContext { line_number, line_offset });
            positioned.push(with_position);
            proof {
                let next = given.take(it.index() + 1);
                assert(next =~= done.push(m));
                assert(with_position == positioned_match(m, chars, 1));
                assert(positioned@ =~= positioned_matches(next, chars, 1));
            }
        }
        proof {
            assert(given.take(given.len() as int) =~= given);
        }
        response.matches = positioned;
        response
    }
}

/// Offsets cannot be moved by more than `usize` holds: only a response
/// without offsets can then be moved.
proof fn lemma_no_shift_out_of_range(response: Response, by: int)
    requires
        by > usize::MAX,
    ensures
        response.can_shift(by) == response.no_offsets(),
{
    if response.matches@.len() > 0 {
        assert(response.matches@[0].offset + by > usize::MAX);
    }
    if let Some(rs) = response.sentence_ranges {
        if rs@.len() > 0 {
            assert(rs@[0].0 + by > usize::MAX);
        }
    }
}

} // verus!
