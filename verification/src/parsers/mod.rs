//! Utilities to turn the contents of different file types into annotated
//! data: what is text to check and what is markup.
//!
//! Each of these works on a description of a document that was parsed
//! already: the nodes of an HTML or Typst document, the events of a
//! Markdown document.

pub mod html;
pub mod markdown;
pub mod typst;

use crate::api::check::data_annotations::{AnnotationView, DataAnnotation};
use vstd::prelude::*;

verus! {

/// What markup is interpreted as that the server shall pass over.
pub const IGNORE: &'static str = "_ignore_";

/// The annotation that holds `text` as text.
pub open spec fn text_of(text: Seq<char>) -> AnnotationView {
    AnnotationView { text: Some(text), markup: None, interpret_as: None }
}

/// The annotation that holds `markup` as markup.
pub open spec fn markup_of(markup: Seq<char>) -> AnnotationView {
    AnnotationView { text: None, markup: Some(markup), interpret_as: None }
}

/// The annotation that holds `markup` as markup to be read as
/// `interpret_as`.
pub open spec fn interpreted(markup: Seq<char>, interpret_as: Seq<char>) -> AnnotationView {
    AnnotationView { text: None, markup: Some(markup), interpret_as: Some(interpret_as) }
}

/// The views of a sequence of annotations.
pub open spec fn views(annotations: Seq<DataAnnotation>) -> Seq<AnnotationView> {
    annotations.map_values(|a: DataAnnotation| a@)
}

/// `self.push(a)` seen through the views.
pub proof fn lemma_views_push(annotations: Seq<DataAnnotation>, a: DataAnnotation)
    ensures
        views(annotations.push(a)) == views(annotations).push(a@),
{
    assert(views(annotations.push(a)) =~= views(annotations).push(a@));
}

} // verus!
