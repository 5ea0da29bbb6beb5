//! Turn the nodes of a Typst document into annotated data.

use super::{interpreted, lemma_views_push, text_of, views, IGNORE};
use crate::api::check::data_annotations::{AnnotationView, Data, DataAnnotation};
use vstd::prelude::*;
use vstd::string::StringExecFns;

verus! {

/// The kinds of nodes of a Typst document that are told apart.
#[derive(Clone, Copy, Debug, PartialEq, Eq, Structural)]
pub enum TypstKind {
    SetRule,
    Ident,
    ShowRule,
    Raw,
    Code,
    CodeBlock,
    Math,
    Equation,
    Ref,
    LetBinding,
    FieldAccess,
    FuncCall,
    Args,
    Heading,
    Markup,
    EnumItem,
    ListItem,
    Emph,
    Strong,
    Text,
    SmartQuote,
    BlockComment,
    LineComment,
    Space,
    Parbreak,
    /// Any other kind.
    Other,
}

/// A node of a Typst document: a leaf with its text, or an inner node,
/// whose text is empty, with its children.
#[derive(Debug)]
pub struct TypstNode {
    /// The kind of the node.
    pub kind: TypstKind,
    /// The text of a leaf.
    pub text: String,
    /// The children of an inner node.
    pub children: Vec<TypstNode>,
}

impl TypstKind {
    /// Nodes of this kind are markup and nothing else.
    pub open spec fn is_markup(self) -> bool {
        self == TypstKind::SetRule || self == TypstKind::Ident || self == TypstKind::ShowRule
            || self == TypstKind::Raw || self == TypstKind::Code || self == TypstKind::CodeBlock
            || self == TypstKind::Math || self == TypstKind::Equation || self == TypstKind::Ref
            || self == TypstKind::LetBinding || self == TypstKind::FieldAccess || self
            == TypstKind::FuncCall || self == TypstKind::Args
    }

    /// Nodes of this kind are markup around text that can be read.
    pub open spec fn is_styled(self) -> bool {
        self == TypstKind::Heading || self == TypstKind::Markup || self == TypstKind::EnumItem
            || self == TypstKind::ListItem || self == TypstKind::Emph || self == TypstKind::Strong
    }

    /// Leaves of this kind are text.
    pub open spec fn is_text(self) -> bool {
        self == TypstKind::Text || self == TypstKind::SmartQuote || self == TypstKind::BlockComment
            || self == TypstKind::LineComment || self == TypstKind::Space || self
            == TypstKind::Parbreak
    }

    /// Leaves of this kind are words or the space between them.
    pub open spec fn is_words(self) -> bool {
        self == TypstKind::Text || self == TypstKind::Space
    }

    /// Tells whether nodes of this kind are markup and nothing else.
    pub fn markup(self) -> (b: bool)
        ensures
            b == self.is_markup(),
    {
        match self {
            TypstKind::SetRule
            | TypstKind::Ident
            | TypstKind::ShowRule
            | TypstKind::Raw
            | TypstKind::Code
            | TypstKind::CodeBlock
            | TypstKind::Math
            | TypstKind::Equation
            | TypstKind::Ref
            | TypstKind::LetBinding
            | TypstKind::FieldAccess
            | TypstKind::FuncCall
            | TypstKind::Args => true,
            _ => false,
        }
    }

    /// Tells whether nodes of this kind are markup around text that can be
    /// read.
    pub fn styled(self) -> (b: bool)
        ensures
            b == self.is_styled(),
    {
        match self {
            TypstKind::Heading
            | TypstKind::Markup
            | TypstKind::EnumItem
            | TypstKind::ListItem
            | TypstKind::Emph
            | TypstKind::Strong => true,
            _ => false,
        }
    }

    /// Tells whether leaves of this kind are text.
    pub fn text(self) -> (b: bool)
        ensures
            b == self.is_text(),
    {
        match self {
            TypstKind::Text
            | TypstKind::SmartQuote
            | TypstKind::BlockComment
            | TypstKind::LineComment
            | TypstKind::Space
            | TypstKind::Parbreak => true,
            _ => false,
        }
    }

    /// Tells whether leaves of this kind are words or the space between
    /// them.
    pub fn words(self) -> (b: bool)
        ensures
            b == self.is_words(),
    {
        match self {
            TypstKind::Text | TypstKind::Space => true,
            _ => false,
        }
    }
}

/// The texts of the leaves of `node` one after the other, of all of them
/// or of the words and spaces only.
pub open spec fn leaf_text(node: TypstNode, words_only: bool) -> Seq<char>
    decreases node, 0nat,
{
    if node.text@.len() > 0 {
        if !words_only || node.kind.is_words() {
            node.text@
        } else {
            Seq::empty()
        }
    } else {
        leaves_text(node.children, node.children@.len(), words_only)
    }
}

/// The texts of the leaves of the first `k` of the nodes `nodes`.
pub open spec fn leaves_text(nodes: Vec<TypstNode>, k: nat, words_only: bool) -> Seq<char>
    decreases nodes, k,
{
    if k == 0 || k > nodes@.len() {
        Seq::empty()
    } else {
        leaves_text(nodes, (k - 1) as nat, words_only) + leaf_text(nodes@[k - 1], words_only)
    }
}

/// The annotations for one node: what is markup and nothing else is markup
/// to pass over; what is markup around text is markup read as its words;
/// a leaf that is text is text; into any other node one descends.
pub open spec fn node_annotations(node: TypstNode) -> Seq<AnnotationView>
    decreases node, 0nat,
{
    if node.kind.is_markup() {
        seq![interpreted(leaf_text(node, false), IGNORE@)]
    } else if node.kind.is_styled() {
        seq![
            interpreted(
                leaves_text(node.children, node.children@.len(), false),
                leaves_text(node.children, node.children@.len(), true),
            ),
        ]
    } else if node.children@.len() > 0 {
        nodes_annotations(node.children, node.children@.len())
    } else if node.kind.is_text() {
        seq![text_of(node.text@)]
    } else {
        Seq::empty()
    }
}

/// The annotations for the first `k` of the nodes `nodes`, in their order.
pub open spec fn nodes_annotations(nodes: Vec<TypstNode>, k: nat) -> Seq<AnnotationView>
    decreases nodes, k,
{
    if k == 0 || k > nodes@.len() {
        Seq::empty()
    } else {
        nodes_annotations(nodes, (k - 1) as nat) + node_annotations(nodes@[k - 1])
    }
}

/// Adds the texts of the leaves of `node` to `out`.
fn collect_leaf(node: &TypstNode, words_only: bool, out: &mut String)
    ensures
        final(out)@ == old(out)@ + leaf_text(*node, words_only),
    decreases node, 0nat,
{
    let ghost before = out@;
    if node.text.as_str().unicode_len() != 0 {
        if !words_only || node.kind.words() {
            out.append(node.text.as_str());
        } else {
            proof {
                assert(before + Seq::<char>::empty() =~= before);
            }
        }
    } else {
        collect_leaves(&node.children, words_only, out);
    }
}

/// Adds the texts of the leaves of the nodes `nodes` to `out`.
fn collect_leaves(nodes: &Vec<TypstNode>, words_only: bool, out: &mut String)
    ensures
        final(out)@ == old(out)@ + leaves_text(*nodes, nodes@.len(), words_only),
    decreases nodes, nodes@.len(),
{
    let ghost before = out@;
    let mut i: usize = 0;
    proof {
        assert(before + leaves_text(*nodes, 0, words_only) =~= before);
    }
    while i < nodes.len()
        invariant
            i <= nodes.len(),
            out@ == before + leaves_text(*nodes, i as nat, words_only),
        decreases nodes.len() - i,
    {
        collect_leaf(&nodes[i], words_only, out);
        proof {
            assert(out@ =~= before + leaves_text(*nodes, (i + 1) as nat, words_only));
        }
        i += 1;
    }
}

/// Adds the annotations for `node` to `annotations`.
pub fn annotate_node(node: &TypstNode, annotations: &mut Vec<DataAnnotation>)
    ensures
        views(final(annotations)@) == views(old(annotations)@) + node_annotations(*node),
    decreases node, 0nat,
{
    let ghost before = annotations@;
    if node.kind.markup() {
        let mut markup = String::new();
        collect_leaf(node, false, &mut markup);
        proof {
            assert(Seq::<char>::empty() + leaf_text(*node, false) =~= leaf_text(*node, false));
        }
        let a = DataAnnotation::new_interpreted_markup(markup.as_str(), IGNORE);
        annotations.push(a);
        proof {
            lemma_views_push(before, a);
            assert(views(before).push(a@) =~= views(before) + seq![a@]);
        }
    } else if node.kind.styled() {
        let mut full_text = String::new();
        let mut interpreted_as = String::new();
        collect_leaves(&node.children, false, &mut full_text);
        collect_leaves(&node.children, true, &mut interpreted_as);
        proof {
            let all = leaves_text(node.children, node.children@.len(), false);
            let words = leaves_text(node.children, node.children@.len(), true);
            assert(Seq::<char>::empty() + all =~= all);
            assert(Seq::<char>::empty() + words =~= words);
        }
        let a = DataAnnotation::new_interpreted_markup(
            full_text.as_str(),
            interpreted_as.as_str(),
        );
        annotations.push(a);
        proof {
            lemma_views_push(before, a);
            assert(views(before).push(a@) =~= views(before) + seq![a@]);
        }
    } else if node.children.len() > 0 {
        annotate_nodes(&node.children, annotations);
    } else if node.kind.text() {
        let a = DataAnnotation::new_text(node.text.as_str());
        annotations.push(a);
        proof {
            lemma_views_push(before, a);
            assert(views(before).push(a@) =~= views(before) + seq![a@]);
        }
    } else {
        proof {
            assert(views(before) + Seq::<AnnotationView>::empty() =~= views(before));
        }
    }
}

/// Adds the annotations for the nodes `nodes`, in their order, to
/// `annotations`.
pub fn annotate_nodes(nodes: &Vec<TypstNode>, annotations: &mut Vec<DataAnnotation>)
    ensures
        views(final(annotations)@) == views(old(annotations)@) + nodes_annotations(
            *nodes,
            nodes@.len(),
        ),
    decreases nodes, nodes@.len(),
{
    let ghost before = annotations@;
    let mut i: usize = 0;
    proof {
        assert(views(before) + nodes_annotations(*nodes, 0) =~= views(before));
    }
    while i < nodes.len()
        invariant
            i <= nodes.len(),
            views(annotations@) == views(before) + nodes_annotations(*nodes, i as nat),
        decreases nodes.len() - i,
    {
        annotate_node(&nodes[i], annotations);
        proof {
            assert(views(annotations@) =~= views(before) + nodes_annotations(
                *nodes,
                (i + 1) as nat,
            ));
        }
        i += 1;
    }
}

/// Turn the nodes of a Typst document, the children of its root, into
/// annotated data to be sent to the LanguageTool API.
#[must_use]
pub fn typst_data(nodes: &Vec<TypstNode>) -> (data: Data)
    ensures
        data@ == nodes_annotations(*nodes, nodes@.len()),
{
    let mut annotations: Vec<DataAnnotation> = Vec::new();
    annotate_nodes(nodes, &mut annotations);
    proof {
        assert(views(Seq::<DataAnnotation>::empty()) + nodes_annotations(*nodes, nodes@.len())
            =~= nodes_annotations(*nodes, nodes@.len()));
    }
    Data { annotation: annotations }
}

} // verus!
