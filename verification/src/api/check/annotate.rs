//! Human-readable rendering of check responses.
//!
//! Each match becomes one snippet, drawn by the `annotate_snippets` crate:
//! the message and the rule as title, the context of the match as source,
//! and under the flagged words the description of the rule and the
//! suggestions.

use super::responses::{newlines, Match, Replacement, Response};
use crate::text::chars_of;
use annotate_snippets::display_list::{DisplayList, FormatOptions};
use annotate_snippets::snippet::{Annotation, AnnotationType, Slice, Snippet, SourceAnnotation};
use vstd::prelude::*;
use vstd::string::StringExecFns;

verus! {

/// What is returned for a response without matches.
pub open spec fn no_errors() -> Seq<char> {
    "No errors were found in provided text"@
}

/// The texts `parts` in a row; where something stands already, `sep`
/// comes before the next part.
pub open spec fn chained(parts: Seq<Seq<char>>, sep: Seq<char>) -> Seq<char>
    decreases parts.len(),
{
    if parts.len() == 0 {
        Seq::empty()
    } else {
        let front = chained(parts.drop_last(), sep);
        if front.len() > 0 {
            front + sep + parts.last()
        } else {
            parts.last()
        }
    }
}

/// The values of a sequence of replacements.
pub open spec fn replacement_values(replacements: Seq<Replacement>) -> Seq<Seq<char>> {
    replacements.map_values(|r: Replacement| r.value@)
}

/// The suggestions of a match in one line, divided by commas.
pub open spec fn suggestion_line(replacements: Seq<Replacement>) -> Seq<char> {
    chained(replacement_values(replacements), ", "@)
}

/// The line of `text` in which the character at `offset` stands, or the
/// last line where the text ends before; the first line is line 1.
pub open spec fn line_start(text: Seq<char>, offset: int) -> int {
    1 + newlines(
        text,
        if offset < text.len() {
            offset
        } else {
            text.len() as int
        },
    )
}

/// What `annotate_snippets` draws, as `DisplayList` shown by `Display`, for
/// a snippet with one title and one slice: the title is an error with the
/// label `message` and the id `rule_id`; the slice holds `source`, begins
/// at line `line` of `origin`, is folded, and marks the characters from
/// `start` to `end` twice, as an error with the label `description` and as
/// a help with the label `suggestions`; colors are used if `color` is set.
pub uninterp spec fn rendered_snippet(
    message: Seq<char>,
    rule_id: Seq<char>,
    source: Seq<char>,
    line: int,
    origin: Option<Seq<char>>,
    description: Seq<char>,
    suggestions: Seq<char>,
    start: int,
    end: int,
    color: bool,
) -> Seq<char>;

/// The view of an optional string slice.
pub open spec fn opt_str_view(s: Option<&str>) -> Option<Seq<char>> {
    match s {
        Some(s) => Some(s@),
        None => None,
    }
}

/// Builds the snippet described at [`rendered_snippet`] and has
/// `annotate_snippets` draw it (`DisplayList::from`, then `to_string`).
/// The crate refuses a range that ends behind the source, and counts the
/// lines of the source from `line` on: both are asked of the caller.
#[verifier::external_body]
fn render_snippet(
    message: &str,
    rule_id: &str,
    source: &str,
    line: usize,
    origin: Option<&str>,
    description: &str,
    suggestions: &str,
    range: (usize, usize),
    color: bool,
) -> (out: String)
    requires
        range.0 <= range.1 <= source@.len(),
        line + source@.len() < usize::MAX,
    ensures
        out@ == rendered_snippet(
            message@,
            rule_id@,
            source@,
            line as int,
            opt_str_view(origin),
            description@,
            suggestions@,
            range.0 as int,
            range.1 as int,
            color,
        ),
{
    let error = AnnotationType::Error;
    let title = Annotation { label: Some(message), id: Some(rule_id), annotation_type: error };
    let marks = vec![
        SourceAnnotation { label: description, annotation_type: error, range },
        SourceAnnotation { label: suggestions, annotation_type: AnnotationType::Help, range },
    ];
    let slice = Slice { source, line_start: line, origin, fold: true, annotations: marks };
    let opt = FormatOptions { color, ..Default::default() };
    let snippet = Snippet { title: Some(title), footer: vec![], slices: vec![slice], opt };
    DisplayList::from(snippet).to_string()
}

/// The snippet for the match `m` of a response to `text`.
pub open spec fn match_snippet(
    m: Match,
    text: Seq<char>,
    origin: Option<Seq<char>>,
    color: bool,
) -> Seq<char> {
    rendered_snippet(
        m.message@,
        m.rule.id@,
        m.context.text@,
        line_start(text, m.offset as int),
        origin,
        m.rule.description@,
        suggestion_line(m.replacements@),
        m.context.offset as int,
        m.context.offset + m.context.length,
        color,
    )
}

/// The snippets for the matches `ms` of a response to `text`.
pub open spec fn match_snippets(
    ms: Seq<Match>,
    text: Seq<char>,
    origin: Option<Seq<char>>,
    color: bool,
) -> Seq<Seq<char>> {
    ms.map_values(|m: Match| match_snippet(m, text, origin, color))
}

/// The match `m` of a response to `text` can be drawn: the place that its
/// context marks lies within the text of the context, and the lines of
/// the context can be numbered.
pub open spec fn can_draw(m: Match, text: Seq<char>) -> bool {
    &&& m.context.offset + m.context.length <= m.context.text@.len()
    &&& line_start(text, m.offset as int) + m.context.text@.len() < usize::MAX
}

/// Puts the suggestions of a match in one line, divided by commas.
pub fn suggestions_of(replacements: &Vec<Replacement>) -> (line: String)
    ensures
        line@ == suggestion_line(replacements@),
{
    let ghost values = replacement_values(replacements@);
    let mut line = String::new();
    let mut i: usize = 0;
    while i < replacements.len()
        invariant
            i <= replacements.len(),
            values == replacement_values(replacements@),
            line@ == chained(values.take(i as int), ", "@),
        decreases replacements.len() - i,
    {
        proof {
            assert(values.take(i + 1).drop_last() =~= values.take(i as int));
            assert(values.take(i + 1).last() == replacements@[i as int].value@);
        }
        if line.as_str().unicode_len() != 0 {
            line.append(", ");
        }
        line.append(replacements[i].value.as_str());
        i += 1;
    }
    proof {
        assert(values.take(i as int) =~= values);
    }
    line
}

/// The views of a sequence of strings.
pub open spec fn snippet_views(snippets: Seq<String>) -> Seq<Seq<char>> {
    snippets.map_values(|s: String| s@)
}

/// Puts the snippets of a response together, one under the other, or says
/// that there is none.
pub fn join_snippets(snippets: &Vec<String>) -> (annotation: String)
    ensures
        snippets@.len() == 0 ==> annotation@ == no_errors(),
        snippets@.len() > 0 ==> annotation@ == chained(snippet_views(snippets@), "\n"@),
{
    if snippets.len() == 0 {
        return "No errors were found in provided text".to_owned();
    }
    let ghost views = snippet_views(snippets@);
    let mut annotation = String::new();
    let mut i: usize = 0;
    while i < snippets.len()
        invariant
            i <= snippets.len(),
            views == snippet_views(snippets@),
            annotation@ == chained(views.take(i as int), "\n"@),
        decreases snippets.len() - i,
    {
        proof {
            assert(views.take(i + 1).drop_last() =~= views.take(i as int));
            assert(views.take(i + 1).last() == snippets@[i as int]@);
        }
        if annotation.as_str().unicode_len() != 0 {
            annotation.append("\n");
        }
        annotation.append(snippets[i].as_str());
        i += 1;
    }
    proof {
        assert(views.take(i as int) =~= views);
    }
    annotation
}

/// Counts the line feeds before the character at `offset`.
fn newlines_before(text: &Vec<char>, offset: usize) -> (count: usize)
    ensures
        count + 1 == line_start(text@, offset as int),
{
    let upto: usize = if offset < text.len() {
        offset
    } else {
        text.len()
    };
    let mut count: usize = 0;
    let mut i: usize = 0;
    while i < upto
        invariant
            i <= upto <= text.len(),
            count == newlines(text@, i as int),
            count <= i,
        decreases upto - i,
    {
        if text[i] == '\n' {
            count = count + 1;
        }
        i += 1;
    }
    count
}

impl Response {
    /// Every match of the response can be drawn for `text`, see
    /// [`Response::annotate`].
    pub open spec fn can_annotate(&self, text: Seq<char>) -> bool {
        forall|i: int| 0 <= i < self.matches@.len() ==> can_draw(#[trigger] self.matches@[i], text)
    }

    /// Tells whether every match of the response can be drawn for `text`.
    pub fn is_drawable(&self, text: &str) -> (b: bool)
        ensures
            b == self.can_annotate(text@),
    {
        let chars = chars_of(text);
        let mut i: usize = 0;
        while i < self.matches.len()
            invariant
                i <= self.matches.len(),
                chars@ == text@,
                forall|k: int| 0 <= k < i ==> can_draw(#[trigger] self.matches@[k], text@),
            decreases self.matches.len() - i,
        {
            let m = &self.matches[i];
            let room: usize = m.context.text.as_str().unicode_len();
            let fits: bool = m.context.offset <= room && m.context.length <= room
                - m.context.offset;
            let before: usize = newlines_before(&chars, m.offset);
            if !fits || before as u128 + 1 + room as u128 >= usize::MAX as u128 {
                return false;
            }
            i += 1;
        }
        true
    }

    /// Creates an annotated string from current response.
    ///
    /// `text` is the text that was checked, `origin` the name of where it
    /// comes from, if there is one. Every match must be drawable, see
    /// [`Response::is_drawable`].
    #[must_use]
    pub fn annotate(&self, text: &str, origin: Option<&str>, color: bool) -> (annotation: String)
        requires
            self.can_annotate(text@),
        ensures
            self.matches@.len() == 0 ==> annotation@ == no_errors(),
            self.matches@.len() > 0 ==> annotation@ == chained(
                match_snippets(self.matches@, text@, opt_str_view(origin), color),
                "\n"@,
            ),
    {
        let chars = chars_of(text);
        let ghost drawn = match_snippets(self.matches@, text@, opt_str_view(origin), color);
        let mut snippets: Vec<String> = Vec::new();
        let mut i: usize = 0;
        while i < self.matches.len()
            invariant
                i <= self.matches.len(),
                chars@ == text@,
                self.can_annotate(text@),
                drawn == match_snippets(self.matches@, text@, opt_str_view(origin), color),
                snippets.len() == i,
                forall|k: int| 0 <= k < i ==> (#[trigger] snippets@[k])@ == drawn[k],
            decreases self.matches.len() - i,
        {
            let m = &self.matches[i];
            proof {
                assert(can_draw(self.matches@[i as int], text@));
                lemma_newlines_nonnegative(
                    text@,
                    if m.offset < text@.len() {
                        m.offset as int
                    } else {
                        text@.len() as int
                    },
                );
            }
            let suggestions = suggestions_of(&m.replacements);
            let line: usize = newlines_before(&chars, m.offset) + 1;
            let range = (m.context.offset, m.context.offset + m.context.length);
            let snippet = render_snippet(
                m.message.as_str(),
                m.rule.id.as_str(),
                m.context.text.as_str(),
                line,
                origin,
                m.rule.description.as_str(),
                suggestions.as_str(),
                range,
                color,
            );
            snippets.push(snippet);
            i += 1;
        }
        proof {
            assert(snippet_views(snippets@) =~= drawn);
        }
        join_snippets(&snippets)
    }
}

proof fn lemma_newlines_nonnegative(text: Seq<char>, k: int)
    ensures
        0 <= newlines(text, k),
    decreases k,
{
    if k > 0 {
        lemma_newlines_nonnegative(text, k - 1);
    }
}

} // verus!
