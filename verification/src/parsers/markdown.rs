//! Turn the events of a Markdown document into annotated data.

use super::html::{annotate_nodes, enclose, nodes_annotations, HtmlNode};
use super::{interpreted, lemma_views_push, text_of, views, IGNORE};
use crate::api::check::data_annotations::{AnnotationView, Data, DataAnnotation};
use crate::text::chars_of;
use vstd::prelude::*;
use vstd::string::StringExecFns;

verus! {

/// What a tag of a Markdown document is about.
#[derive(Clone, Copy, Debug, PartialEq, Eq, Structural)]
pub enum MarkdownTag {
    /// A paragraph.
    Paragraph,
    /// A heading, with its level from 1 to 6.
    Heading(usize),
    /// A block quote.
    BlockQuote,
    /// A block of code.
    CodeBlock,
    /// A block of HTML.
    HtmlBlock,
    /// A list, which is ordered or not.
    List(bool),
    /// An item of a list.
    Item,
    /// The definition of a footnote.
    FootnoteDefinition,
    /// A table.
    Table,
    /// The head of a table.
    TableHead,
    /// A row of a table.
    TableRow,
    /// A cell of a table.
    TableCell,
    /// Emphasized text.
    Emphasis,
    /// Strongly emphasized text.
    Strong,
    /// Text that is struck through.
    Strikethrough,
    /// A link.
    Link,
    /// An image.
    Image,
    /// A block of metadata, in one of two styles.
    MetadataBlock(bool),
}

/// What a parser meets when it reads a Markdown document from beginning to
/// end.
#[derive(Debug)]
pub enum MarkdownEvent {
    /// The beginning of what a tag is about.
    Start(MarkdownTag),
    /// The end of what a tag is about.
    End(MarkdownTag),
    /// A text.
    Text(String),
    /// A piece of code within a line.
    Code(String),
    /// A piece of HTML, as the nodes that it is made of.
    Html(Vec<HtmlNode>),
    /// A line break that a reader sees as a space.
    SoftBreak,
    /// A line break that stays one.
    HardBreak,
    /// Anything else: the reference to a footnote, the marker of a task, a
    /// rule.
    Other,
}

/// The annotations made so far, and the tags that are open.
pub struct MarkdownState {
    /// The annotations, in the order of the document.
    pub annotations: Seq<AnnotationView>,
    /// The tags that began and did not end yet, the innermost last.
    pub tags: Seq<MarkdownTag>,
}

/// `c` is one of the white-space characters of ASCII: space, tab, line
/// feed, form feed, carriage return.
pub open spec fn is_ascii_space(c: char) -> bool {
    c == ' ' || c == '\t' || c == '\n' || c == '\x0C' || c == '\r'
}

/// `s` ends with a white-space character of ASCII.
pub open spec fn ends_with_space(s: Option<Seq<char>>) -> bool {
    s matches Some(t) && t.len() > 0 && is_ascii_space(t.last())
}

/// The text `s`, followed by a space where it ends a sentence.
pub open spec fn sentence(s: Seq<char>) -> Seq<char> {
    if s.len() > 0 && (s.last() == '.' || s.last() == '!' || s.last() == '?') {
        s + " "@
    } else {
        s
    }
}

/// The character `#`, `n` times.
pub open spec fn hashes(n: nat) -> Seq<char> {
    Seq::new(n, |i: int| '#')
}

/// The annotations for a text within `tag`, or not within any.
pub open spec fn text_annotations(s: Seq<char>, tag: Option<MarkdownTag>) -> Seq<AnnotationView> {
    match tag {
        None => seq![text_of(s)],
        Some(MarkdownTag::Heading(level)) => seq![
            text_of(hashes(level as nat) + " "@ + s + "\n"@ + "\n"@),
        ],
        Some(MarkdownTag::Emphasis) => seq![interpreted("_"@ + s + "_"@, s)],
        Some(MarkdownTag::Strong) => seq![interpreted("**"@ + s + "**"@, s)],
        Some(MarkdownTag::Strikethrough) => seq![interpreted("~"@ + s + "~"@, s)],
        Some(MarkdownTag::Paragraph) | Some(MarkdownTag::List(_)) | Some(MarkdownTag::Item) | Some(
            MarkdownTag::BlockQuote,
        ) | Some(MarkdownTag::TableCell) => seq![text_of(s)],
        Some(MarkdownTag::CodeBlock) | Some(MarkdownTag::Link) | Some(MarkdownTag::Image) => seq![
            interpreted(s, IGNORE@),
        ],
        Some(_) => Seq::empty(),
    }
}

/// The innermost open tag.
pub open spec fn innermost(tags: Seq<MarkdownTag>) -> Option<MarkdownTag> {
    if tags.len() > 0 {
        Some(tags.last())
    } else {
        None
    }
}

/// The state after `event`: lists and their items begin with a dash and end
/// with a line feed, as the rows of a table do; the cells of a table are
/// divided by bars; text is annotated according to the innermost open
/// tag; code is markup to pass over; a soft break is a space unless the
/// last annotation ends with white space already.
pub open spec fn step(state: MarkdownState, event: MarkdownEvent) -> MarkdownState {
    match event {
        MarkdownEvent::Start(tag) => MarkdownState {
            annotations: match tag {
                MarkdownTag::List(_) | MarkdownTag::Item => state.annotations.push(text_of("- "@)),
                _ => state.annotations,
            },
            tags: state.tags.push(tag),
        },
        MarkdownEvent::End(tag) => MarkdownState {
            annotations: match tag {
                MarkdownTag::List(_) | MarkdownTag::Item | MarkdownTag::TableRow
                | MarkdownTag::TableHead => state.annotations.push(text_of("\n"@)),
                MarkdownTag::TableCell => state.annotations.push(text_of(" | "@)),
                _ => state.annotations,
            },
            tags: if innermost(state.tags) == Some(tag) {
                state.tags.drop_last()
            } else {
                state.tags
            },
        },
        MarkdownEvent::Html(nodes) => MarkdownState {
            annotations: state.annotations + nodes_annotations(nodes, nodes@.len()),
            tags: state.tags,
        },
        MarkdownEvent::Text(s) => MarkdownState {
            annotations: state.annotations + text_annotations(
                sentence(s@),
                innermost(state.tags),
            ),
            tags: state.tags,
        },
        MarkdownEvent::Code(s) => MarkdownState {
            annotations: state.annotations.push(interpreted(s@, IGNORE@)),
            tags: state.tags,
        },
        MarkdownEvent::HardBreak => MarkdownState {
            annotations: state.annotations.push(text_of("\n\n"@)),
            tags: state.tags,
        },
        MarkdownEvent::SoftBreak => MarkdownState {
            annotations: if state.annotations.len() > 0 && (ends_with_space(
                state.annotations.last().text,
            ) || ends_with_space(state.annotations.last().interpret_as)) {
                state.annotations
            } else {
                state.annotations.push(text_of(" "@))
            },
            tags: state.tags,
        },
        MarkdownEvent::Other => state,
    }
}

/// The state after the first `k` of the events `events`.
pub open spec fn run(events: Seq<MarkdownEvent>, k: int) -> MarkdownState
    decreases k,
{
    if k <= 0 {
        MarkdownState { annotations: Seq::empty(), tags: Seq::empty() }
    } else {
        step(run(events, k - 1), events[k - 1])
    }
}

/// Tells whether an optional text ends with a white-space character of
/// ASCII.
fn ends_in_space(s: &Option<String>) -> (b: bool)
    ensures
        b == ends_with_space(
            match *s {
                Some(t) => Some(t@),
                None => None,
            },
        ),
{
    match s {
        Some(t) => {
            let chars = chars_of(t.as_str());
            if chars.len() == 0 {
                return false;
            }
            let c: char = chars[chars.len() - 1];
            c == ' ' || c == '\t' || c == '\n' || c == '\x0C' || c == '\r'
        },
        None => false,
    }
}

/// The text `s`, followed by a space where it ends a sentence.
fn end_sentence(s: &str) -> (text: String)
    ensures
        text@ == sentence(s@),
{
    let chars = chars_of(s);
    let mut text: String = s.to_owned();
    if chars.len() > 0 {
        let c: char = chars[chars.len() - 1];
        if c == '.' || c == '!' || c == '?' {
            text.append(" ");
        }
    }
    text
}

/// The line of a heading of level `level` with the text `s`, and the empty
/// line after it.
fn heading_line(level: usize, s: &str) -> (text: String)
    ensures
        text@ == hashes(level as nat) + " "@ + s@ + "\n"@ + "\n"@,
{
    let mut text = String::new();
    let mut i: usize = 0;
    while i < level
        invariant
            i <= level,
            text@ == hashes(i as nat),
        decreases level - i,
    {
        text.push('#');
        proof {
            assert(text@ =~= hashes((i + 1) as nat));
        }
        i += 1;
    }
    text.append(" ");
    text.append(s);
    text.append("\n");
    text.append("\n");
    text
}

/// Adds the annotations for the text `s` within `tag` to `annotations`.
fn annotate_text(s: &str, tag: Option<MarkdownTag>, annotations: &mut Vec<DataAnnotation>)
    ensures
        views(final(annotations)@) == views(old(annotations)@) + text_annotations(s@, tag),
{
    let ghost before = annotations@;
    let annotation: Option<DataAnnotation> = match tag {
        None => Some(DataAnnotation::new_text(s)),
        Some(MarkdownTag::Heading(level)) => Some(
            DataAnnotation::new_text(heading_line(level, s).as_str()),
        ),
        Some(MarkdownTag::Emphasis) => Some(
            DataAnnotation::new_interpreted_markup(enclose("_", s, "_").as_str(), s),
        ),
        Some(MarkdownTag::Strong) => Some(
            DataAnnotation::new_interpreted_markup(enclose("**", s, "**").as_str(), s),
        ),
        Some(MarkdownTag::Strikethrough) => Some(
            DataAnnotation::new_interpreted_markup(enclose("~", s, "~").as_str(), s),
        ),
        Some(MarkdownTag::Paragraph) | Some(MarkdownTag::List(_)) | Some(MarkdownTag::Item) | Some(
            MarkdownTag::BlockQuote,
        ) | Some(MarkdownTag::TableCell) => Some(DataAnnotation::new_text(s)),
        Some(MarkdownTag::CodeBlock) | Some(MarkdownTag::Link) | Some(MarkdownTag::Image) => Some(
            DataAnnotation::new_interpreted_markup(s, IGNORE),
        ),
        Some(_) => None,
    };
    match annotation {
        Some(a) => {
            annotations.push(a);
            proof {
                lemma_views_push(before, a);
                assert(views(before).push(a@) =~= views(before) + seq![a@]);
            }
        },
        None => {
            proof {
                assert(views(before) + Seq::<AnnotationView>::empty() =~= views(before));
            }
        },
    }
}

/// Adds the text `s` as an annotation to `annotations`.
fn push_text(s: &str, annotations: &mut Vec<DataAnnotation>)
    ensures
        views(final(annotations)@) == views(old(annotations)@).push(text_of(s@)),
{
    let ghost before = annotations@;
    let a = DataAnnotation::new_text(s);
    annotations.push(a);
    proof {
        lemma_views_push(before, a);
    }
}

/// Goes on by one event: see [`step`].
pub fn markdown_step(
    annotations: &mut Vec<DataAnnotation>,
    tags: &mut Vec<MarkdownTag>,
    event: &MarkdownEvent,
)
    ensures
        (MarkdownState { annotations: views(final(annotations)@), tags: final(tags)@ }) == step(
            MarkdownState { annotations: views(old(annotations)@), tags: old(tags)@ },
            *event,
        ),
{
    let ghost before = annotations@;
    match event {
        MarkdownEvent::Start(tag) => {
            match tag {
                MarkdownTag::List(_) | MarkdownTag::Item => {
                    push_text("- ", annotations);
                },
                _ => {},
            }
            tags.push(*tag);
        },
        MarkdownEvent::End(tag) => {
            match tag {
                MarkdownTag::List(_) | MarkdownTag::Item | MarkdownTag::TableRow
                | MarkdownTag::TableHead => {
                    push_text("\n", annotations);
                },
                MarkdownTag::TableCell => {
                    push_text(" | ", annotations);
                },
                _ => {},
            }
            if tags.len() > 0 && tags[tags.len() - 1] == *tag {
                let ghost open = tags@;
                tags.pop();
                proof {
                    assert(tags@ =~= open.drop_last());
                }
            }
        },
        MarkdownEvent::Html(nodes) => {
            annotate_nodes(nodes, annotations);
        },
        MarkdownEvent::Text(s) => {
            let text = end_sentence(s.as_str());
            let tag: Option<MarkdownTag> = if tags.len() > 0 {
                Some(tags[tags.len() - 1])
            } else {
                None
            };
            annotate_text(text.as_str(), tag, annotations);
        },
        MarkdownEvent::Code(s) => {
            let a = DataAnnotation::new_interpreted_markup(s.as_str(), IGNORE);
            annotations.push(a);
            proof {
                lemma_views_push(before, a);
            }
        },
        MarkdownEvent::HardBreak => {
            push_text("\n\n", annotations);
        },
        MarkdownEvent::SoftBreak => {
            let spaced: bool = if annotations.len() > 0 {
                let last = &annotations[annotations.len() - 1];
                proof {
                    assert(views(before).last() == last@);
                }
                ends_in_space(&last.text) || ends_in_space(&last.interpret_as)
            } else {
                false
            };
            if !spaced {
                push_text(" ", annotations);
            }
        },
        MarkdownEvent::Other => {},
    }
}

/// Turn the events of a Markdown document into annotated data to be sent to
/// the LanguageTool API.
#[must_use]
pub fn markdown_data(events: &Vec<MarkdownEvent>) -> (data: Data)
    ensures
        data@ == run(events@, events@.len() as int).annotations,
{
    let mut annotations: Vec<DataAnnotation> = Vec::new();
    let mut tags: Vec<MarkdownTag> = Vec::new();
    let mut i: usize = 0;
    proof {
        assert(views(annotations@) =~= Seq::<AnnotationView>::empty());
    }
    while i < events.len()
        invariant
            i <= events.len(),
            (MarkdownState { annotations: views(annotations@), tags: tags@ }) == run(
                events@,
                i as int,
            ),
        decreases events.len() - i,
    {
        markdown_step(&mut annotations, &mut tags, &events[i]);
        i += 1;
    }
    Data { annotation: annotations }
}

} // verus!
