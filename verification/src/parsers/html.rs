//! Turn the nodes of an HTML document into annotated data.

use super::{interpreted, lemma_views_push, markup_of, text_of, views, IGNORE};
use crate::api::check::data_annotations::{AnnotationView, Data, DataAnnotation};
use crate::cli::same_text;
use crate::text::chars_of;
use vstd::prelude::*;
use vstd::string::StringExecFns;

verus! {

/// Whether `char::is_whitespace` of std holds of a character: whether
/// Unicode gives it the property `White_Space`.
pub uninterp spec fn is_whitespace_char(c: char) -> bool;

/// `char::is_whitespace` of std tells whether a character has the property
/// `White_Space`.
pub assume_specification[ char::is_whitespace ](c: char) -> (b: bool)
    ensures
        b == is_whitespace_char(c),
;

/// A node of an HTML document.
#[derive(Debug)]
pub enum HtmlNode {
    /// An element with its name, such as `p`, and what it holds.
    Element { name: String, children: Vec<HtmlNode> },
    /// A text.
    Text(String),
    /// A comment, without its delimiters.
    Comment(String),
    /// Anything else: a doctype, a processing instruction.
    Other,
}

/// Number of white-space characters at the beginning of `s`.
pub open spec fn leading_space(s: Seq<char>) -> nat
    decreases s.len(),
{
    if s.len() > 0 && is_whitespace_char(s[0]) {
        1 + leading_space(s.drop_first())
    } else {
        0
    }
}

/// Number of white-space characters at the end of `s`.
pub open spec fn trailing_space(s: Seq<char>) -> nat
    decreases s.len(),
{
    if s.len() > 0 && is_whitespace_char(s.last()) {
        1 + trailing_space(s.drop_last())
    } else {
        0
    }
}

/// `s` without the white space at its beginning and at its end.
pub open spec fn trimmed(s: Seq<char>) -> Seq<char> {
    if leading_space(s) == s.len() {
        Seq::empty()
    } else {
        s.subrange(leading_space(s) as int, s.len() - trailing_space(s))
    }
}

/// The text of a text node as it is checked: without the white space
/// around it but for one space where there was some, or a paragraph break
/// for a text of nothing but white space.
pub open spec fn spaced_text(t: Seq<char>) -> Seq<char> {
    let core = trimmed(t);
    if core.len() == 0 {
        "\n\n"@
    } else {
        (if is_whitespace_char(t[0]) {
            " "@
        } else {
            Seq::empty()
        }) + core + (if is_whitespace_char(t.last()) {
            " "@
        } else {
            Seq::empty()
        })
    }
}

/// The elements named `name` begin and end a block of text.
pub open spec fn is_block(name: Seq<char>) -> bool {
    name == "p"@ || name == "h1"@ || name == "h2"@ || name == "h3"@ || name == "h4"@ || name
        == "h5"@ || name == "h6"@ || name == "li"@ || name == "td"@ || name == "th"@ || name
        == "div"@
}

/// The elements named `name` hold nothing to check.
pub open spec fn is_skipped(name: Seq<char>) -> bool {
    name == "head"@ || name == "script"@ || name == "style"@
}

/// The annotations for one node: text for a text; for an element its tags
/// as markup around the annotations of what it holds, the tags of a block
/// read as paragraph breaks; code and images as markup to pass over; a
/// comment as markup read as a paragraph of its own.
pub open spec fn node_annotations(node: HtmlNode) -> Seq<AnnotationView>
    decreases node, 0nat,
{
    match node {
        HtmlNode::Element { name, children } => {
            if is_skipped(name@) {
                Seq::empty()
            } else if name@ == "code"@ {
                seq![interpreted("<code>...</code>"@, IGNORE@)]
            } else if name@ == "img"@ {
                seq![interpreted("<img />"@, IGNORE@)]
            } else if is_block(name@) {
                seq![interpreted("<"@ + name@ + ">"@, "\n\n"@)] + nodes_annotations(
                    children,
                    children@.len(),
                ) + seq![interpreted("</"@ + name@ + ">"@, "\n\n"@)]
            } else {
                seq![markup_of("<"@ + name@ + ">"@)] + nodes_annotations(
                    children,
                    children@.len(),
                ) + seq![markup_of("</"@ + name@ + ">"@)]
            }
        },
        HtmlNode::Text(t) => seq![text_of(spaced_text(t@))],
        HtmlNode::Comment(c) => seq![
            interpreted("<!-- "@ + c@ + " -->"@, "\n\n"@ + c@ + "\n\n"@),
        ],
        HtmlNode::Other => Seq::empty(),
    }
}

/// The annotations for the first `k` of the nodes `nodes`, in their order.
pub open spec fn nodes_annotations(nodes: Vec<HtmlNode>, k: nat) -> Seq<AnnotationView>
    decreases nodes, k,
{
    if k == 0 || k > nodes@.len() {
        Seq::empty()
    } else {
        nodes_annotations(nodes, (k - 1) as nat) + node_annotations(nodes@[k - 1])
    }
}

/// The text of a text node as it is checked.
pub fn space_text(t: &str) -> (text: String)
    ensures
        text@ == spaced_text(t@),
{
    let chars = chars_of(t);
    let len: usize = chars.len();
    let mut low: usize = 0;
    proof {
        assert(chars@.subrange(0, len as int) =~= chars@);
    }
    while low < len && chars[low].is_whitespace()
        invariant
            low <= len,
            len == chars.len(),
            leading_space(chars@) == low + leading_space(chars@.subrange(low as int, len as int)),
        decreases len - low,
    {
        proof {
            assert(chars@.subrange(low as int, len as int).drop_first() =~= chars@.subrange(
                low + 1,
                len as int,
            ));
        }
        low += 1;
    }
    proof {
        if low == len {
            assert(chars@.subrange(low as int, len as int).len() == 0);
        }
    }
    if low == len {
        return "\n\n".to_owned();
    }
    let mut high: usize = len;
    proof {
        assert(chars@.subrange(0, len as int) =~= chars@);
    }
    while high > low && chars[high - 1].is_whitespace()
        invariant
            low < high <= len,
            len == chars.len(),
            !is_whitespace_char(chars@[low as int]),
            trailing_space(chars@) == (len - high) + trailing_space(chars@.subrange(0, high as int)),
        decreases high,
    {
        proof {
            assert(chars@.subrange(0, high as int).drop_last() =~= chars@.subrange(0, high - 1));
        }
        high -= 1;
    }
    proof {
        assert(chars@.subrange(0, len as int) =~= chars@);
        assert(high > low);
        assert(chars@.subrange(0, high as int).last() == chars@[high - 1]);
        assert(trimmed(chars@) == chars@.subrange(low as int, high as int));
    }
    let mut text = String::new();
    if chars[0].is_whitespace() {
        text.append(" ");
    }
    let ghost before = text@;
    let mut i: usize = low;
    while i < high
        invariant
            low <= i <= high <= len,
            len == chars.len(),
            text@ == before + chars@.subrange(low as int, i as int),
        decreases high - i,
    {
        text.push(chars[i]);
        proof {
            assert(chars@.subrange(low as int, i + 1) =~= chars@.subrange(low as int, i as int).push(
                chars@[i as int],
            ));
        }
        i += 1;
    }
    if chars[len - 1].is_whitespace() {
        text.append(" ");
    }
    proof {
        reveal_strlit(" ");
        assert(text@ =~= spaced_text(t@));
    }
    text
}

/// The text `before`, then `middle`, then `after`.
pub fn enclose(before: &str, middle: &str, after: &str) -> (text: String)
    ensures
        text@ == before@ + middle@ + after@,
{
    let mut text: String = before.to_owned();
    text.append(middle);
    text.append(after);
    text
}

/// Tells whether the elements named `name` begin and end a block of text.
fn names_block(name: &str) -> (b: bool)
    ensures
        b == is_block(name@),
{
    same_text(name, "p") || same_text(name, "h1") || same_text(name, "h2") || same_text(name, "h3")
        || same_text(name, "h4") || same_text(name, "h5") || same_text(name, "h6") || same_text(
        name,
        "li",
    ) || same_text(name, "td") || same_text(name, "th") || same_text(name, "div")
}

/// Adds the annotations for `node` to `annotations`.
pub fn annotate_node(node: &HtmlNode, annotations: &mut Vec<DataAnnotation>)
    ensures
        views(final(annotations)@) == views(old(annotations)@) + node_annotations(*node),
    decreases node, 0nat,
{
    let ghost before = annotations@;
    match node {
        HtmlNode::Element { name, children } => {
            let name: &str = name.as_str();
            if same_text(name, "head") || same_text(name, "script") || same_text(name, "style") {
                proof {
                    assert(views(before) + Seq::<AnnotationView>::empty() =~= views(before));
                }
            } else if same_text(name, "code") {
                let a = DataAnnotation::new_interpreted_markup("<code>...</code>", IGNORE);
                annotations.push(a);
                proof {
                    lemma_views_push(before, a);
                    assert(views(before).push(a@) =~= views(before) + seq![a@]);
                }
            } else if same_text(name, "img") {
                let a = DataAnnotation::new_interpreted_markup("<img />", IGNORE);
                annotations.push(a);
                proof {
                    lemma_views_push(before, a);
                    assert(views(before).push(a@) =~= views(before) + seq![a@]);
                }
            } else {
                let block: bool = names_block(name);
                let open = enclose("<", name, ">");
                let close = enclose("</", name, ">");
                let first = if block {
                    DataAnnotation::new_interpreted_markup(open.as_str(), "\n\n")
                } else {
                    DataAnnotation::new_markup(open.as_str())
                };
                let last = if block {
                    DataAnnotation::new_interpreted_markup(close.as_str(), "\n\n")
                } else {
                    DataAnnotation::new_markup(close.as_str())
                };
                annotations.push(first);
                proof {
                    lemma_views_push(before, first);
                }
                let ghost opened = annotations@;
                annotate_nodes(children, annotations);
                let ghost filled = annotations@;
                annotations.push(last);
                proof {
                    lemma_views_push(filled, last);
                    let inner = nodes_annotations(*children, children@.len());
                    assert(views(annotations@) =~= views(before) + (seq![first@] + inner + seq![
                        last@,
                    ]));
                }
            }
        },
        HtmlNode::Text(t) => {
            let text = space_text(t.as_str());
            let a = DataAnnotation::new_text(text.as_str());
            annotations.push(a);
            proof {
                lemma_views_push(before, a);
                assert(views(before).push(a@) =~= views(before) + seq![a@]);
            }
        },
        HtmlNode::Comment(c) => {
            let markup = enclose("<!-- ", c.as_str(), " -->");
            let read_as = enclose("\n\n", c.as_str(), "\n\n");
            let a = DataAnnotation::new_interpreted_markup(markup.as_str(), read_as.as_str());
            annotations.push(a);
            proof {
                lemma_views_push(before, a);
                assert(views(before).push(a@) =~= views(before) + seq![a@]);
            }
        },
        HtmlNode::Other => {
            proof {
                assert(views(before) + Seq::<AnnotationView>::empty() =~= views(before));
            }
        },
    }
}

/// Adds the annotations for the nodes `nodes`, in their order, to
/// `annotations`.
pub fn annotate_nodes(nodes: &Vec<HtmlNode>, annotations: &mut Vec<DataAnnotation>)
    ensures
        views(final(annotations)@) == views(old(annotations)@) + nodes_annotations(
            *nodes,
            nodes@.len(),
        ),
    decreases nodes, nodes@.len(),
{
    let ghost before = annotations@;
    let mut i: usize = 0;
    proof {
        assert(views(before) + nodes_annotations(*nodes, 0) =~= views(before));
    }
    while i < nodes.len()
        invariant
            i <= nodes.len(),
            views(annotations@) == views(before) + nodes_annotations(*nodes, i as nat),
        decreases nodes.len() - i,
    {
        let ghost so_far = annotations@;
        annotate_node(&nodes[i], annotations);
        proof {
            assert(views(annotations@) =~= views(before) + nodes_annotations(
                *nodes,
                (i + 1) as nat,
            ));
        }
        i += 1;
    }
}

/// Turn the nodes of an HTML document, or of a part of one, into annotated
/// data to be sent to the LanguageTool API.
#[must_use]
pub fn html_data(nodes: &Vec<HtmlNode>) -> (data: Data)
    ensures
        data@ == nodes_annotations(*nodes, nodes@.len()),
{
    let mut annotations: Vec<DataAnnotation> = Vec::new();
    annotate_nodes(nodes, &mut annotations);
    proof {
        assert(views(Seq::<DataAnnotation>::empty()) + nodes_annotations(*nodes, nodes@.len())
            =~= nodes_annotations(*nodes, nodes@.len()));
    }
    Data { annotation: annotations }
}

} // verus!
