//! Structures for handling data annotations.

use crate::error::{debug_quoted, quote, Error, Result};
use crate::text::{
    chars_of, concat, contains, contains_pattern, is_cutting, lemma_concat_pieces, piece,
    piece_start, pieces, positions,
};
use vstd::prelude::*;
use vstd::string::StringExecFns;

verus! {

/// A portion of text to be checked.
#[derive(Debug, Default, PartialEq, Eq, Hash)]
pub struct DataAnnotation {
    /// Text that should be treated as normal text.
    ///
    /// This or `markup` is required.
    pub text: Option<String>,
    /// Text that should be treated as markup.
    ///
    /// This or `text` is required.
    pub markup: Option<String>,
    /// If set, the markup will be interpreted as this.
    pub interpret_as: Option<String>,
}

/// What a [`DataAnnotation`] holds, as sequences of characters.
pub struct AnnotationView {
    pub text: Option<Seq<char>>,
    pub markup: Option<Seq<char>>,
    pub interpret_as: Option<Seq<char>>,
}

impl AnnotationView {
    /// The text of the annotation or, without text, its markup.
    pub open spec fn effective_text(self) -> Option<Seq<char>> {
        if self.text is Some {
            self.text
        } else {
            self.markup
        }
    }

    /// Number of characters of the text and of the markup together.
    pub open spec fn len(self) -> nat {
        (match self.text {
            Some(t) => t.len(),
            None => 0,
        }) + (match self.markup {
            Some(m) => m.len(),
            None => 0,
        })
    }

    /// The annotation carries text in which `pat` occurs: a document may
    /// be cut behind it.
    pub open spec fn is_breakpoint(self, pat: Seq<char>) -> bool {
        self.text matches Some(t) && contains_pattern(t, pat)
    }
}

/// The characters of an optional string.
pub open spec fn opt_view(s: Option<String>) -> Option<Seq<char>> {
    match s {
        Some(s) => Some(s@),
        None => None,
    }
}

impl View for DataAnnotation {
    type V = AnnotationView;

    open spec fn view(&self) -> AnnotationView {
        AnnotationView {
            text: opt_view(self.text),
            markup: opt_view(self.markup),
            interpret_as: opt_view(self.interpret_as),
        }
    }
}

/// A copy of an optional string.
pub fn clone_opt(s: &Option<String>) -> (res: Option<String>)
    ensures
        opt_view(res) == opt_view(*s),
{
    match s {
        Some(s) => Some(s.clone()),
        None => None,
    }
}

impl Clone for DataAnnotation {
    fn clone(&self) -> (res: Self)
        ensures
            res@ == self@,
    {
        Self {
            text: clone_opt(&self.text),
            markup: clone_opt(&self.markup),
            interpret_as: clone_opt(&self.interpret_as),
        }
    }
}

impl Clone for Data {
    fn clone(&self) -> (res: Self)
        ensures
            res@ == self@,
    {
        let mut annotation: Vec<DataAnnotation> = Vec::new();
        let mut i: usize = 0;
        while i < self.annotation.len()
            invariant
                i <= self.annotation.len(),
                annotation.len() == i,
                forall|k: int| 0 <= k < i ==> (#[trigger] annotation@[k])@ == self.annotation@[k]@,
            decreases self.annotation.len() - i,
        {
            annotation.push(self.annotation[i].clone());
            i += 1;
        }
        let res = Self { annotation };
        proof {
            assert(res@ =~= self@);
        }
        res
    }
}

/// What is said of an annotation that holds neither text nor markup, and
/// is to be read as `interpret_as`.
pub open spec fn missing_text(interpret_as: Option<Seq<char>>) -> Seq<char> {
    "missing either text or markup field in DataAnnotation { text: None, markup: None, interpret_as: "@
        + (match interpret_as {
        Some(s) => "Some("@ + debug_quoted(s) + ")"@,
        None => "None"@,
    }) + " }"@
}

/// Says of an annotation that it holds neither text nor markup.
fn describe_missing_text(interpret_as: &Option<String>) -> (message: String)
    ensures
        message@ == missing_text(opt_view(*interpret_as)),
{
    let mut message: String =
        "missing either text or markup field in DataAnnotation { text: None, markup: None, interpret_as: ".to_owned();
    match interpret_as {
        Some(s) => {
            message.append("Some(");
            message.append(quote(s.as_str()).as_str());
            message.append(")");
        },
        None => {
            message.append("None");
        },
    }
    message.append(" }");
    message
}

impl DataAnnotation {
    /// Instantiate a new `DataAnnotation` with text only.
    #[must_use]
    pub fn new_text(text: &str) -> (da: Self)
        ensures
            da@ == (AnnotationView { text: Some(text@), markup: None, interpret_as: None }),
    {
        Self { text: Some(text.to_owned()), markup: None, interpret_as: None }
    }

    /// Instantiate a new `DataAnnotation` with markup only.
    #[must_use]
    pub fn new_markup(markup: &str) -> (da: Self)
        ensures
            da@ == (AnnotationView { text: None, markup: Some(markup@), interpret_as: None }),
    {
        Self { text: None, markup: Some(markup.to_owned()), interpret_as: None }
    }

    /// Instantiate a new `DataAnnotation` with markup and its interpretation.
    #[must_use]
    pub fn new_interpreted_markup(markup: &str, interpret_as: &str) -> (da: Self)
        ensures
            da@ == (AnnotationView {
                text: None,
                markup: Some(markup@),
                interpret_as: Some(interpret_as@),
            }),
    {
        Self {
            interpret_as: Some(interpret_as.to_owned()),
            markup: Some(markup.to_owned()),
            text: None,
        }
    }

    /// Return the text or markup within the data annotation.
    ///
    /// # Errors
    ///
    /// If this data annotation does not contain text or markup.
    pub fn try_get_text(&self) -> (res: Result<String>)
        ensures
            match self@.effective_text() {
                Some(t) => res matches Ok(s) && s@ == t,
                None => res matches Err(Error::InvalidDataAnnotation(why)) && why@ == missing_text(
                    self@.interpret_as,
                ),
            },
    {
        if let Some(text) = &self.text {
            Ok(text.clone())
        } else if let Some(markup) = &self.markup {
            Ok(markup.clone())
        } else {
            Err(Error::InvalidDataAnnotation(describe_missing_text(&self.interpret_as)))
        }
    }

    /// Number of characters of the text and of the markup together.
    pub fn char_count(&self) -> (count: u128)
        ensures
            count == self@.len(),
    {
        let text_len: usize = match &self.text {
            Some(t) => t.as_str().unicode_len(),
            None => 0,
        };
        let markup_len: usize = match &self.markup {
            Some(m) => m.as_str().unicode_len(),
            None => 0,
        };
        text_len as u128 + markup_len as u128
    }

    /// Tells whether the annotation carries text in which `pat` occurs.
    pub fn is_breakpoint(&self, pat: &Vec<char>) -> (b: bool)
        ensures
            b == self@.is_breakpoint(pat@),
    {
        match &self.text {
            Some(t) => {
                let chars = chars_of(t.as_str());
                contains(&chars, pat)
            },
            None => false,
        }
    }
}

/// Alternative text to be checked.
#[derive(Debug, Default, PartialEq, Eq, Hash)]
pub struct Data {
    /// Vector of markup text, see [`DataAnnotation`].
    pub annotation: Vec<DataAnnotation>,
}

impl View for Data {
    type V = Seq<AnnotationView>;

    open spec fn view(&self) -> Seq<AnnotationView> {
        self.annotation@.map_values(|a: DataAnnotation| a@)
    }
}

impl From<Vec<DataAnnotation>> for Data {
    fn from(annotation: Vec<DataAnnotation>) -> (data: Self) {
        Data { annotation }
    }
}

impl vstd::std_specs::convert::FromSpecImpl<Vec<DataAnnotation>> for Data {
    open spec fn obeys_from_spec() -> bool {
        true
    }

    open spec fn from_spec(annotation: Vec<DataAnnotation>) -> Self {
        Data { annotation }
    }
}

impl Data {
    /// Split data into as few fragments as possible, where each fragment
    /// contains (if possible) a maximum of `n` characters in its
    /// annotations' markup and text fields.
    ///
    /// Pattern str `pat` is used for splitting: the data is only ever cut
    /// behind an annotation whose text holds `pat`, so that no annotation is
    /// divided. Fragments are filled greedily: a cut is made behind such an
    /// annotation when going on to the next one would take the fragment
    /// over `n` characters. Data of no more than `n` characters, and data
    /// with fewer than two such annotations, comes back whole.
    #[must_use]
    pub fn split(self, n: usize, pat: &str) -> (res: Vec<Self>)
        ensures
            document_views(res@) == split_documents(self@, n as int, pat@),
    {
        let ghost units = self@;
        let pattern = chars_of(pat);
        let count: usize = self.annotation.len();
        // Breakpoints, and how many characters lie between each of them and
        // the one before it.
        let mut points: Vec<usize> = Vec::new();
        let mut gaps: Vec<u128> = Vec::new();
        let mut gap: u128 = 0;
        let ghost mut last: int = 0;
        let mut i: usize = 0;
        while i < count
            invariant
                units == self@,
                pattern@ == pat@,
                count == self.annotation.len(),
                i <= count,
                0 <= last <= i,
                gap == capped(total_len(units, i as int) - total_len(units, last)),
                positions(points@) == breakpoints(units, pat@, i as int),
                points.len() > 0 ==> last == points@[points.len() - 1] + 1,
                points.len() == 0 ==> last == 0,
                gaps.len() == points.len(),
                forall|k: int|
                    0 <= k < points.len() ==> #[trigger] gaps@[k] == capped(
                        total_len(units, points@[k] + 1) - total_len(
                            units,
                            piece_start(positions(points@).map_values(|p: int| p + 1), k),
                        ),
                    ),
            decreases count - i,
        {
            proof {
                lemma_total_len_monotone(units, last, i as int);
                lemma_total_len_monotone(units, i as int, i + 1);
            }
            gap = gap.saturating_add(self.annotation[i].char_count());
            if self.annotation[i].is_breakpoint(&pattern) {
                let ghost before = positions(points@);
                let ghost ends_before = before.map_values(|p: int| p + 1);
                points.push(i);
                gaps.push(gap);
                proof {
                    assert(positions(points@) =~= before.push(i as int));
                    let ends = positions(points@).map_values(|p: int| p + 1);
                    assert(piece_start(ends, points.len() - 1) == last) by {
                        if points.len() > 1 {
                            assert(ends[points.len() - 2] == before[points.len() - 2] + 1);
                        }
                    }
                    assert forall|k: int| 0 <= k < points.len() implies #[trigger] gaps@[k]
                        == capped(
                        total_len(units, points@[k] + 1) - total_len(units, piece_start(ends, k)),
                    ) by {
                        if k < points.len() - 1 {
                            assert(piece_start(ends, k) == piece_start(ends_before, k)) by {
                                if k > 0 {
                                    assert(ends[k - 1] == ends_before[k - 1]);
                                }
                            }
                        }
                    }
                    last = i + 1;
                }
                gap = 0;
            }
            i += 1;
        }
        proof {
            lemma_breakpoints(units, pat@, count as int);
            assert forall|k: int| 0 <= k < points.len() implies 0 <= #[trigger] points@[k]
                < units.len() by {
                assert(positions(points@)[k] == points@[k]);
            }
            assert forall|j: int, k: int| 0 <= j < k < points.len() implies points@[j]
                < points@[k] by {
                assert(positions(points@)[j] == points@[j]);
                assert(positions(points@)[k] == points@[k]);
            }
            assert forall|k: int| 0 <= k < points.len() implies #[trigger] gaps@[k] == capped(
                total_len(units, points@[k] + 1) - total_len(
                    units,
                    if k == 0 {
                        0
                    } else {
                        points@[k - 1] + 1
                    },
                ),
            ) by {
                let ends = positions(points@).map_values(|p: int| p + 1);
                if k > 0 {
                    assert(ends[k - 1] == points@[k - 1] + 1);
                }
            }
        }
        // Decide behind which breakpoints to cut.
        let cuts = choose_cuts(&points, &gaps, n, Ghost(units));
        proof {
            lemma_document_ends_cut(units, n as int, pat@);
        }
        // Hand the annotations out, document by document.
        let mut split: Vec<Data> = Vec::new();
        let mut rest: Vec<DataAnnotation> = self.annotation;
        let mut taken: usize = 0;
        let ghost all = rest@;
        let ghost ends = document_ends(units, n as int, pat@);
        let mut k: usize = 0;
        while k < cuts.len()
            invariant
                k <= cuts.len(),
                all.len() == units.len(),
                units == all.map_values(|a: DataAnnotation| a@),
                ends == positions(cuts@).push(units.len() as int),
                is_cutting(ends, units.len() as int),
                taken == piece_start(ends, k as int),
                taken <= all.len(),
                rest@ == all.subrange(taken as int, all.len() as int),
                split.len() == k,
                forall|j: int| 0 <= j < k ==> (#[trigger] split@[j])@ == piece(units, ends, j),
            decreases cuts.len() - k,
        {
            let end: usize = cuts[k];
            proof {
                assert(ends[k as int] == end);
                if k > 0 {
                    assert(ends[k - 1] <= ends[k as int]);
                }
            }
            let tail: Vec<DataAnnotation> = rest.split_off(end - taken);
            let document = Data { annotation: rest };
            proof {
                assert(document.annotation@ =~= all.subrange(taken as int, end as int));
                assert(document@ =~= piece(units, ends, k as int));
                assert(tail@ =~= all.subrange(end as int, all.len() as int));
            }
            split.push(document);
            rest = tail;
            taken = end;
            k += 1;
        }
        let document = Data { annotation: rest };
        proof {
            let last = cuts.len() as int;
            assert(ends[last] == units.len());
            assert(document@ =~= piece(units, ends, last));
        }
        split.push(document);
        proof {
            assert(document_views(split@) =~= split_documents(units, n as int, pat@));
        }
        split
    }
}

/// A number of characters as far as a `u128` holds it.
pub open spec fn capped(count: int) -> int {
    if count > u128::MAX {
        u128::MAX as int
    } else {
        count
    }
}

/// Walks the breakpoints and returns the cuts, each as the number of
/// annotations before it. `gaps` holds, for each breakpoint, how many
/// characters lie between the breakpoint before it and the cut that could
/// be made behind it, as far as a `u128` holds that number.
fn choose_cuts(
    points: &Vec<usize>,
    gaps: &Vec<u128>,
    n: usize,
    Ghost(units): Ghost<Seq<AnnotationView>>,
) -> (cuts: Vec<usize>)
    requires
        gaps.len() == points.len(),
        forall|k: int| 0 <= k < points.len() ==> 0 <= #[trigger] points@[k] < units.len(),
        forall|j: int, k: int| 0 <= j < k < points.len() ==> points@[j] < points@[k],
        forall|k: int|
            0 <= k < points.len() ==> #[trigger] gaps@[k] == capped(
                total_len(units, points@[k] + 1) - total_len(
                    units,
                    if k == 0 {
                        0
                    } else {
                        points@[k - 1] + 1
                    },
                ),
            ),
    ensures
        positions(cuts@) == cuts_from(units, positions(points@), n as int, 0, 0),
{
    let mut cuts: Vec<usize> = Vec::new();
    if points.len() < 2 {
        proof {
            assert(positions(cuts@) =~= cuts_from(units, positions(points@), n as int, 0, 0));
        }
        return cuts;
    }
    // Characters between the last cut and the breakpoint that is looked at.
    let mut reach: u128 = gaps[0];
    let ghost mut base: int = 0;
    let mut i: usize = 0;
    proof {
        lemma_total_len_monotone(units, 0, points@[0] + 1);
    }
    while i + 1 < points.len()
        invariant
            i + 1 <= points.len(),
            gaps.len() == points.len(),
            forall|k: int| 0 <= k < points.len() ==> 0 <= #[trigger] points@[k] < units.len(),
            forall|j: int, k: int| 0 <= j < k < points.len() ==> points@[j] < points@[k],
            forall|k: int|
                0 <= k < points.len() ==> #[trigger] gaps@[k] == capped(
                    total_len(units, points@[k] + 1) - total_len(
                        units,
                        if k == 0 {
                            0
                        } else {
                            points@[k - 1] + 1
                        },
                    ),
                ),
            0 <= base <= total_len(units, points@[i as int] + 1),
            reach == capped(total_len(units, points@[i as int] + 1) - base),
            cuts_from(units, positions(points@), n as int, 0, 0) == positions(cuts@) + cuts_from(
                units,
                positions(points@),
                n as int,
                i as int,
                base,
            ),
        decreases points.len() - i,
    {
        let ghost here = total_len(units, points@[i as int] + 1);
        let ghost next = total_len(units, points@[i + 1] + 1);
        proof {
            assert(points@[i as int] < points@[i + 1]);
            lemma_total_len_monotone(units, points@[i as int] + 1, points@[i + 1] + 1);
            assert(positions(points@)[i as int] == points@[i as int]);
            assert(positions(points@)[i + 1] == points@[i + 1]);
            assert(gaps@[i + 1] == capped(next - here));
        }
        let gap: u128 = gaps[i + 1];
        let further: u128 = reach.saturating_add(gap);
        proof {
            assert(further == capped(next - base));
        }
        let ghost before = positions(cuts@);
        if further > n as u128 {
            let cut: usize = points[i] + 1;
            cuts.push(cut);
            proof {
                let rest = cuts_from(units, positions(points@), n as int, i + 1, here);
                assert(positions(cuts@) =~= before + seq![cut as int]);
                assert(before + (seq![cut as int] + rest) =~= positions(cuts@) + rest);
                base = here;
            }
            reach = gap;
        } else {
            reach = further;
        }
        i += 1;
    }
    proof {
        assert(positions(cuts@) + Seq::<int>::empty() =~= positions(cuts@));
    }
    cuts
}

/// Number of characters, text and markup together, of the first `k`
/// annotations.
pub open spec fn total_len(units: Seq<AnnotationView>, k: int) -> int
    decreases k,
{
    if k <= 0 {
        0
    } else {
        total_len(units, k - 1) + units[k - 1].len()
    }
}

/// Indices, in increasing order, of those of the first `k` annotations
/// behind which a document may be cut.
pub open spec fn breakpoints(units: Seq<AnnotationView>, pat: Seq<char>, k: int) -> Seq<int>
    decreases k,
{
    if k <= 0 {
        Seq::empty()
    } else if units[k - 1].is_breakpoint(pat) {
        breakpoints(units, pat, k - 1).push(k - 1)
    } else {
        breakpoints(units, pat, k - 1)
    }
}

/// The cuts that are still to come when the breakpoints before index `i`
/// have been looked at and the last cut left `base` characters before it.
///
/// Documents are filled greedily. Breakpoint `i` is weighed with the one
/// that follows it: where the document that began at the last cut would
/// have more than `n` characters if it went on to the following
/// breakpoint, it is cut behind breakpoint `i`. The last breakpoint is
/// never a cut. A cut is given as the number of annotations before it.
pub open spec fn cuts_from(
    units: Seq<AnnotationView>,
    points: Seq<int>,
    n: int,
    i: int,
    base: int,
) -> Seq<int>
    decreases points.len() - i,
{
    if i < 0 || i + 1 >= points.len() {
        Seq::empty()
    } else if total_len(units, points[i + 1] + 1) - base > n {
        seq![points[i] + 1] + cuts_from(
            units,
            points,
            n,
            i + 1,
            total_len(units, points[i] + 1),
        )
    } else {
        cuts_from(units, points, n, i + 1, base)
    }
}

/// Where the documents end into which a sequence of annotations is split:
/// the cuts, and the end of the sequence.
pub open spec fn document_ends(units: Seq<AnnotationView>, n: int, pat: Seq<char>) -> Seq<int> {
    cuts_from(units, breakpoints(units, pat, units.len() as int), n, 0, 0).push(
        units.len() as int,
    )
}

/// The documents into which a sequence of annotations is split. No
/// annotation is divided: a document is a run of whole annotations.
pub open spec fn split_documents(units: Seq<AnnotationView>, n: int, pat: Seq<char>) -> Seq<
    Seq<AnnotationView>,
> {
    pieces(units, document_ends(units, n, pat))
}

/// The views of a sequence of documents.
pub open spec fn document_views(docs: Seq<Data>) -> Seq<Seq<AnnotationView>> {
    docs.map_values(|d: Data| d@)
}

proof fn lemma_total_len_monotone(units: Seq<AnnotationView>, j: int, k: int)
    requires
        j <= k,
    ensures
        total_len(units, j) <= total_len(units, k),
        0 <= total_len(units, j),
    decreases k - j,
{
    lemma_total_len_nonnegative(units, j);
    if j < k {
        lemma_total_len_monotone(units, j, k - 1);
        lemma_total_len_nonnegative(units, k - 1);
    }
}

proof fn lemma_total_len_nonnegative(units: Seq<AnnotationView>, k: int)
    ensures
        0 <= total_len(units, k),
    decreases k,
{
    if k > 0 {
        lemma_total_len_nonnegative(units, k - 1);
    }
}

proof fn lemma_breakpoints(units: Seq<AnnotationView>, pat: Seq<char>, k: int)
    requires
        0 <= k <= units.len(),
    ensures
        ({
            let b = breakpoints(units, pat, k);
            &&& b.len() <= k
            &&& forall|i: int| 0 <= i < b.len() ==> 0 <= #[trigger] b[i] < k
            &&& forall|i: int, j: int| 0 <= i < j < b.len() ==> b[i] < b[j]
        }),
    decreases k,
{
    if k > 0 {
        lemma_breakpoints(units, pat, k - 1);
    }
}

proof fn lemma_cuts_from(
    units: Seq<AnnotationView>,
    points: Seq<int>,
    n: int,
    i: int,
    base: int,
    low: int,
)
    requires
        0 <= i,
        forall|k: int| 0 <= k < points.len() ==> 0 <= #[trigger] points[k] < units.len(),
        forall|j: int, k: int| 0 <= j < k < points.len() ==> points[j] < points[k],
        i < points.len() ==> low <= points[i] + 1,
    ensures
        ({
            let c = cuts_from(units, points, n, i, base);
            &&& forall|k: int| 0 <= k < c.len() ==> low <= #[trigger] c[k] < units.len()
            &&& forall|j: int, k: int| 0 <= j <= k < c.len() ==> c[j] <= c[k]
        }),
    decreases points.len() - i,
{
    let c = cuts_from(units, points, n, i, base);
    if i + 1 < points.len() {
        assert(points[i] < points[i + 1]);
        let here = total_len(units, points[i] + 1);
        if total_len(units, points[i + 1] + 1) - base > n {
            let rest = cuts_from(units, points, n, i + 1, here);
            lemma_cuts_from(units, points, n, i + 1, here, points[i] + 1);
            assert(c == seq![points[i] + 1] + rest);
            assert forall|k: int| 0 <= k < c.len() implies low <= #[trigger] c[k]
                < units.len() by {
                if k > 0 {
                    assert(c[k] == rest[k - 1]);
                }
            }
            assert forall|j: int, k: int| 0 <= j <= k < c.len() implies c[j] <= c[k] by {
                if j > 0 {
                    assert(c[j] == rest[j - 1]);
                }
                if k > 0 {
                    assert(c[k] == rest[k - 1]);
                }
            }
        } else {
            lemma_cuts_from(units, points, n, i + 1, base, low);
            assert(c == cuts_from(units, points, n, i + 1, base));
        }
    } else {
        assert(c.len() == 0);
    }
}

/// Nothing is cut where everything fits: as long as no breakpoint lies more
/// than `n` characters behind the last cut, there is no cut.
proof fn lemma_no_cut_within_limit(
    units: Seq<AnnotationView>,
    points: Seq<int>,
    n: int,
    i: int,
    base: int,
)
    requires
        0 <= i,
        0 <= base,
        forall|k: int| 0 <= k < points.len() ==> 0 <= #[trigger] points[k] < units.len(),
        total_len(units, units.len() as int) <= n,
    ensures
        cuts_from(units, points, n, i, base) == Seq::<int>::empty(),
    decreases points.len() - i,
{
    if i + 1 < points.len() {
        lemma_total_len_monotone(units, points[i + 1] + 1, units.len() as int);
        lemma_no_cut_within_limit(units, points, n, i + 1, base);
    }
}

/// The ends of the documents cut the whole sequence of annotations.
pub proof fn lemma_document_ends_cut(units: Seq<AnnotationView>, n: int, pat: Seq<char>)
    ensures
        is_cutting(document_ends(units, n, pat), units.len() as int),
{
    let points = breakpoints(units, pat, units.len() as int);
    lemma_breakpoints(units, pat, units.len() as int);
    lemma_cuts_from(units, points, n, 0, 0, 0);
    let c = cuts_from(units, points, n, 0, 0);
    let e = document_ends(units, n, pat);
    assert forall|j: int, k: int| 0 <= j <= k < e.len() implies e[j] <= e[k] by {
        if k < c.len() {
            assert(e[j] == c[j] && e[k] == c[k]);
        } else if j < c.len() {
            assert(e[j] == c[j]);
        }
    }
    assert forall|k: int| 0 <= k < e.len() implies 0 <= #[trigger] e[k] <= units.len() by {
        if k < c.len() {
            assert(e[k] == c[k]);
        }
    }
}

/// No annotation is divided or lost: for every document, limit and
/// pattern, the annotations of the outputs, one output after the other,
/// are the annotations of the document, each whole and in its place.
pub proof fn law_split_keeps_annotations(units: Seq<AnnotationView>, n: int, pat: Seq<char>)
    ensures
        concat(split_documents(units, n, pat)) == units,
        split_documents(units, n, pat).len() >= 1,
{
    lemma_document_ends_cut(units, n, pat);
    lemma_concat_pieces(units, document_ends(units, n, pat));
}

proof fn lemma_breakpoints_complete(units: Seq<AnnotationView>, pat: Seq<char>, k: int, u: int)
    requires
        0 <= u < k <= units.len(),
        units[u].is_breakpoint(pat),
    ensures
        exists|i: int|
            0 <= i < breakpoints(units, pat, k).len() && #[trigger] breakpoints(units, pat, k)[i]
                == u,
    decreases k,
{
    let b = breakpoints(units, pat, k);
    if u == k - 1 {
        assert(b[b.len() - 1] == u);
    } else {
        lemma_breakpoints_complete(units, pat, k - 1, u);
        let before = breakpoints(units, pat, k - 1);
        let i = choose|i: int| 0 <= i < before.len() && #[trigger] before[i] == u;
        assert(b[i] == u);
    }
}

proof fn lemma_cut_bound(
    units: Seq<AnnotationView>,
    pat: Seq<char>,
    n: int,
    i: int,
    base: int,
    begin: int,
    j: int,
)
    requires
        0 <= i,
        0 <= begin,
        base == total_len(units, begin),
        i < breakpoints(units, pat, units.len() as int).len() ==> begin <= breakpoints(
            units,
            pat,
            units.len() as int,
        )[i],
        (forall|k: int| 0 <= k < i ==> #[trigger] breakpoints(units, pat, units.len() as int)[k]
            < begin) || (i < breakpoints(units, pat, units.len() as int).len() && total_len(
            units,
            breakpoints(units, pat, units.len() as int)[i] + 1,
        ) - base <= n),
        0 <= j < cuts_from(units, breakpoints(units, pat, units.len() as int), n, i, base).len(),
    ensures
        ({
            let c = cuts_from(units, breakpoints(units, pat, units.len() as int), n, i, base);
            let from = if j == 0 {
                begin
            } else {
                c[j - 1]
            };
            ||| total_len(units, c[j]) - total_len(units, from) <= n
            ||| forall|u: int| from <= u < c[j] - 1 ==> !(#[trigger] units[u]).is_breakpoint(pat)
        }),
    decreases breakpoints(units, pat, units.len() as int).len() - i,
{
    let points = breakpoints(units, pat, units.len() as int);
    lemma_breakpoints(units, pat, units.len() as int);
    let c = cuts_from(units, points, n, i, base);
    assert(i + 1 < points.len());
    assert(points[i] < points[i + 1]);
    let here = total_len(units, points[i] + 1);
    if total_len(units, points[i + 1] + 1) - base > n {
        let rest = cuts_from(units, points, n, i + 1, here);
        assert(c == seq![points[i] + 1] + rest);
        if j == 0 {
            if !(here - base <= n) {
                assert forall|u: int| begin <= u < points[i] implies !(
                #[trigger] units[u]).is_breakpoint(pat) by {
                    if units[u].is_breakpoint(pat) {
                        lemma_breakpoints_complete(units, pat, units.len() as int, u);
                        let k = choose|k: int| 0 <= k < points.len() && #[trigger] points[k] == u;
                        if k >= i {
                            if k > i {
                                assert(points[i] < points[k]);
                            }
                        }
                    }
                }
            }
        } else {
            assert forall|k: int| 0 <= k < i + 1 implies #[trigger] points[k] < points[i]
                + 1 by {
                if k < i {
                    assert(points[k] < points[i]);
                }
            }
            lemma_cut_bound(units, pat, n, i + 1, here, points[i] + 1, j - 1);
            assert(c[j] == rest[j - 1]);
            if j > 1 {
                assert(c[j - 1] == rest[j - 2]);
            }
        }
    } else {
        lemma_cut_bound(units, pat, n, i + 1, base, begin, j);
    }
}

/// The limit is soft in one way only: every document but the last has no
/// more than `n` characters, or reaches from a cut up to and including the
/// first annotation behind which it could be cut at all.
pub proof fn law_document_bound(units: Seq<AnnotationView>, n: int, pat: Seq<char>, j: int)
    requires
        0 <= j < split_documents(units, n, pat).len() - 1,
    ensures
        ({
            let ends = document_ends(units, n, pat);
            let begin = piece_start(ends, j);
            ||| total_len(units, ends[j]) - total_len(units, begin) <= n
            ||| forall|u: int| begin <= u < ends[j] - 1 ==> !(#[trigger] units[u]).is_breakpoint(pat)
        }),
{
    let points = breakpoints(units, pat, units.len() as int);
    lemma_breakpoints(units, pat, units.len() as int);
    let c = cuts_from(units, points, n, 0, 0);
    let ends = document_ends(units, n, pat);
    lemma_cut_bound(units, pat, n, 0, 0, 0, j);
    assert(ends[j] == c[j]);
    if j > 0 {
        assert(ends[j - 1] == c[j - 1]);
    }
}

/// A document that is no longer than the limit is not split, however many
/// of its annotations hold the pattern.
pub proof fn law_split_within_limit(units: Seq<AnnotationView>, n: int, pat: Seq<char>)
    requires
        total_len(units, units.len() as int) <= n,
    ensures
        split_documents(units, n, pat) == seq![units],
{
    let points = breakpoints(units, pat, units.len() as int);
    lemma_breakpoints(units, pat, units.len() as int);
    lemma_no_cut_within_limit(units, points, n, 0, 0);
    let e = document_ends(units, n, pat);
    assert(e =~= seq![units.len() as int]);
    assert(units.subrange(0, units.len() as int) =~= units);
    assert(split_documents(units, n, pat) =~= seq![units]);
}

/// With fewer than two annotations behind which it may be cut, a document
/// is returned whole, as the only output.
pub proof fn law_split_sparse(units: Seq<AnnotationView>, n: int, pat: Seq<char>)
    requires
        breakpoints(units, pat, units.len() as int).len() <= 1,
    ensures
        split_documents(units, n, pat) == seq![units],
{
    let e = document_ends(units, n, pat);
    assert(e =~= seq![units.len() as int]);
    assert(units.subrange(0, units.len() as int) =~= units);
    assert(split_documents(units, n, pat) =~= seq![units]);
}

} // verus!
