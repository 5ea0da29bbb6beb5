//! What the command line tools decide before they read or send anything.

use crate::text::chars_of;
use vstd::prelude::*;

verus! {

/// Tells whether two string slices hold the same text.
pub fn same_text(a: &str, b: &str) -> (same: bool)
    ensures
        same == (a@ == b@),
{
    let left = chars_of(a);
    let right = chars_of(b);
    if left.len() != right.len() {
        return false;
    }
    let mut i: usize = 0;
    while i < left.len()
        invariant
            i <= left.len(),
            left.len() == right.len(),
            left@ == a@,
            right@ == b@,
            forall|k: int| 0 <= k < i ==> left@[k] == right@[k],
        decreases left.len() - i,
    {
        if left[i] != right[i] {
            return false;
        }
        i += 1;
    }
    proof {
        assert(left@ =~= right@);
    }
    true
}

/// Support file types.
#[derive(Clone, Copy, Debug, PartialEq, Eq, Structural)]
pub enum FileType {
    /// Auto.
    Auto,
    /// Raw text.
    Raw,
    /// Markdown.
    Markdown,
    /// HTML.
    Html,
    /// Typst.
    Typst,
}

impl Default for FileType {
    fn default() -> (file_type: Self)
        ensures
            file_type == FileType::Auto,
    {
        FileType::Auto
    }
}

/// The type of the files whose names end in `extension`.
pub open spec fn type_of_extension(extension: Option<Seq<char>>) -> FileType {
    match extension {
        Some(ext) => if ext == "typ"@ {
            FileType::Typst
        } else if ext == "md"@ || ext == "markdown"@ || ext == "mdown"@ || ext == "mdwn"@ || ext
            == "mkd"@ || ext == "mkdn"@ || ext == "mdx"@ {
            FileType::Markdown
        } else if ext == "html"@ || ext == "htm"@ {
            FileType::Html
        } else {
            FileType::Raw
        },
        None => FileType::Raw,
    }
}

/// The view of an optional string slice.
pub open spec fn extension_view(extension: Option<&str>) -> Option<Seq<char>> {
    match extension {
        Some(ext) => Some(ext@),
        None => None,
    }
}

impl FileType {
    /// Guess the type of a file from the extension of its name. A file
    /// without extension, or with one that is not known, is raw text.
    pub fn from_extension(extension: Option<&str>) -> (file_type: Self)
        ensures
            file_type == type_of_extension(extension_view(extension)),
    {
        match extension {
            Some(ext) => {
                if same_text(ext, "typ") {
                    FileType::Typst
                } else if same_text(ext, "md") || same_text(ext, "markdown") || same_text(
                    ext,
                    "mdown",
                ) || same_text(ext, "mdwn") || same_text(ext, "mkd") || same_text(ext, "mkdn")
                    || same_text(ext, "mdx") {
                    FileType::Markdown
                } else if same_text(ext, "html") || same_text(ext, "htm") {
                    FileType::Html
                } else {
                    FileType::Raw
                }
            },
            None => FileType::Raw,
        }
    }

    /// The type to read a file as: this type or, for [`FileType::Auto`], the
    /// type that the extension of the file name stands for.
    pub fn resolve(self, extension: Option<&str>) -> (file_type: Self)
        ensures
            file_type == if self == FileType::Auto {
                type_of_extension(extension_view(extension))
            } else {
                self
            },
            file_type != FileType::Auto,
    {
        match self {
            FileType::Auto => FileType::from_extension(extension),
            other => other,
        }
    }
}

} // verus!
