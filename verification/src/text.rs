//! Mathematical model of texts: pattern occurrences, pattern-delimited
//! segments and the greedy grouping of segments into fragments.
//!
//! A text is a sequence of characters, and a position in it is a number of
//! characters. A way of cutting a text is described by the increasing
//! sequence of the positions at which its pieces end. The size of a
//! fragment is measured as `str::len` measures it: in bytes of UTF-8.

use vstd::prelude::*;

verus! {

/// `pat` occurs in `s` at index `i`.
pub open spec fn matches_at(s: Seq<char>, pat: Seq<char>, i: int) -> bool {
    &&& 0 <= i
    &&& i + pat.len() <= s.len()
    &&& s.subrange(i, i + pat.len()) == pat
}

/// `pat` occurs somewhere in `s`.
pub open spec fn contains_pattern(s: Seq<char>, pat: Seq<char>) -> bool {
    exists|i: int| matches_at(s, pat, i)
}

/// End positions of the pattern-delimited segments of `s` that are still to
/// come when the current segment began at `start` and the text has been
/// searched up to `pos`. The search is leftmost and occurrences do not
/// overlap: after an occurrence it goes on behind it.
pub open spec fn segment_ends_from(s: Seq<char>, pat: Seq<char>, start: int, pos: int) -> Seq<int>
    decreases s.len() - pos,
{
    if pat.len() == 0 || pos < 0 {
        Seq::empty()
    } else if pos + pat.len() > s.len() {
        if start < s.len() {
            seq![s.len() as int]
        } else {
            Seq::empty()
        }
    } else if matches_at(s, pat, pos) {
        let end = pos + pat.len();
        seq![end] + segment_ends_from(s, pat, end, end)
    } else {
        segment_ends_from(s, pat, start, pos + 1)
    }
}

/// End positions of the segments obtained by cutting `s` behind every
/// occurrence of `pat`, the pattern staying at the end of the segment it
/// closes. What follows the last occurrence is a segment of its own unless
/// it is empty. An empty pattern occurs before every character and at the
/// end of the text: it yields one empty segment and then every character
/// alone.
pub open spec fn segment_ends(s: Seq<char>, pat: Seq<char>) -> Seq<int> {
    if pat.len() == 0 {
        Seq::new(s.len() + 1, |i: int| i)
    } else {
        segment_ends_from(s, pat, 0, 0)
    }
}

/// Number of bytes that the text `s` takes in UTF-8.
pub open spec fn byte_len(s: Seq<char>) -> nat {
    vstd::utf8::encode_utf8(s).len()
}

/// Number of bytes that the characters of `s` from position `from` up to
/// position `to` take in UTF-8.
pub open spec fn bytes_between(s: Seq<char>, from: int, to: int) -> nat {
    byte_len(s.subrange(from, to))
}

/// End positions of the fragments of `s` that are still to come when the
/// segments before index `k` have been looked at, the current fragment
/// began at `start` and reaches `cur` so far.
pub open spec fn group_from(s: Seq<char>, ends: Seq<int>, n: int, k: int, start: int, cur: int) -> Seq<
    int,
>
    decreases ends.len() - k,
{
    if k < 0 || k >= ends.len() {
        seq![cur]
    } else if bytes_between(s, start, ends[k]) < n {
        group_from(s, ends, n, k + 1, start, ends[k])
    } else {
        seq![cur] + group_from(s, ends, n, k + 1, cur, ends[k])
    }
}

/// Greedy grouping of consecutive segments of `s`: a segment joins the
/// current fragment as long as the fragment then takes fewer than `n`
/// bytes; otherwise the fragment is closed and the segment opens the next
/// one.
pub open spec fn fragment_ends(s: Seq<char>, ends: Seq<int>, n: int) -> Seq<int> {
    if ends.len() == 0 {
        Seq::empty()
    } else {
        group_from(s, ends, n, 1, 0, ends[0])
    }
}

/// Where piece `k` of a cutting begins.
pub open spec fn piece_start(ends: Seq<int>, k: int) -> int {
    if k <= 0 {
        0
    } else {
        ends[k - 1]
    }
}

/// Piece `k` of the sequence `s` cut at `ends`.
pub open spec fn piece<A>(s: Seq<A>, ends: Seq<int>, k: int) -> Seq<A> {
    s.subrange(piece_start(ends, k), ends[k])
}

/// The pieces of the sequence `s` cut at `ends`.
pub open spec fn pieces<A>(s: Seq<A>, ends: Seq<int>) -> Seq<Seq<A>> {
    Seq::new(ends.len(), |k: int| piece(s, ends, k))
}

/// The pattern-delimited segments of `s`.
pub open spec fn segments(s: Seq<char>, pat: Seq<char>) -> Seq<Seq<char>> {
    pieces(s, segment_ends(s, pat))
}

/// The fragments of `s` for the limit `n` and the pattern `pat`.
pub open spec fn fragments(s: Seq<char>, n: int, pat: Seq<char>) -> Seq<Seq<char>> {
    pieces(s, fragment_ends(s, segment_ends(s, pat), n))
}

/// `ends` cuts a text of length `len` into consecutive pieces: the
/// positions do not decrease, stay within the text, and the last one is
/// the end of the text.
pub open spec fn is_cutting(ends: Seq<int>, len: int) -> bool {
    &&& forall|k: int| 0 <= k < ends.len() ==> 0 <= #[trigger] ends[k] <= len
    &&& forall|j: int, k: int| 0 <= j <= k < ends.len() ==> ends[j] <= ends[k]
    &&& ends.len() > 0 ==> ends.last() == len
    &&& ends.len() == 0 ==> len == 0
}

/// Concatenation of a sequence of sequences.
pub open spec fn concat<A>(parts: Seq<Seq<A>>) -> Seq<A>
    decreases parts.len(),
{
    if parts.len() == 0 {
        Seq::empty()
    } else {
        concat(parts.drop_last()) + parts.last()
    }
}

/// The positions of a vector of indices as mathematical integers.
pub open spec fn positions(v: Seq<usize>) -> Seq<int> {
    v.map_values(|e: usize| e as int)
}

/// The characters of a string slice, in order.
pub fn chars_of(s: &str) -> (v: Vec<char>)
    ensures
        v@ == s@,
{
    let mut v: Vec<char> = Vec::new();
    for c in it: s.chars()
        invariant
            it.seq() == s@,
            v@ == it.seq().take(it.index()),
    {
        v.push(c);
    }
    v
}

/// Tells whether `pat` occurs in `text` at index `i`.
pub fn occurs_at(text: &Vec<char>, pat: &Vec<char>, i: usize) -> (b: bool)
    ensures
        b == matches_at(text@, pat@, i as int),
{
    if pat.len() > text.len() || i > text.len() - pat.len() {
        return false;
    }
    let mut j: usize = 0;
    while j < pat.len()
        invariant
            j <= pat.len(),
            i + pat.len() <= text.len(),
            forall|t: int| 0 <= t < j ==> text@[i + t] == pat@[t],
        decreases pat.len() - j,
    {
        if text[i + j] != pat[j] {
            proof {
                assert(text@.subrange(i as int, i + pat.len())[j as int] == text@[i + j]);
            }
            return false;
        }
        j += 1;
    }
    proof {
        assert(text@.subrange(i as int, i + pat.len()) =~= pat@);
    }
    true
}

/// Tells whether `pat` occurs somewhere in `text`.
pub fn contains(text: &Vec<char>, pat: &Vec<char>) -> (b: bool)
    ensures
        b == contains_pattern(text@, pat@),
{
    if pat.len() > text.len() {
        return false;
    }
    let last: usize = text.len() - pat.len();
    let mut i: usize = 0;
    loop
        invariant
            last == text.len() - pat.len(),
            i <= last,
            forall|t: int| 0 <= t < i ==> !matches_at(text@, pat@, t),
        decreases last - i,
    {
        if occurs_at(text, pat, i) {
            return true;
        }
        if i == last {
            return false;
        }
        i += 1;
    }
}

/// Cuts `text` behind every occurrence of `pat` and returns where the
/// segments end.
pub fn find_segment_ends(text: &Vec<char>, pat: &Vec<char>) -> (ends: Vec<usize>)
    ensures
        positions(ends@) == segment_ends(text@, pat@),
{
    let mut ends: Vec<usize> = Vec::new();
    let len: usize = text.len();
    let m: usize = pat.len();
    if m == 0 {
        let mut i: usize = 0;
        while i < len
            invariant
                i <= len,
                ends@.len() == i,
                forall|k: int| 0 <= k < i ==> ends@[k] == k,
            decreases len - i,
        {
            ends.push(i);
            i += 1;
        }
        ends.push(len);
        proof {
            assert(positions(ends@) =~= segment_ends(text@, pat@));
        }
        return ends;
    }
    let mut start: usize = 0;
    let mut pos: usize = 0;
    while m <= len - pos
        invariant
            m == pat.len(),
            m > 0,
            len == text.len(),
            start <= pos <= len,
            segment_ends(text@, pat@) == positions(ends@) + segment_ends_from(
                text@,
                pat@,
                start as int,
                pos as int,
            ),
        decreases len - pos,
    {
        let ghost before = positions(ends@);
        if occurs_at(text, pat, pos) {
            pos = pos + m;
            start = pos;
            ends.push(pos);
            proof {
                assert(positions(ends@) =~= before + seq![pos as int]);
                assert(before + (seq![pos as int] + segment_ends_from(
                    text@,
                    pat@,
                    pos as int,
                    pos as int,
                )) =~= positions(ends@) + segment_ends_from(text@, pat@, pos as int, pos as int));
            }
        } else {
            pos = pos + 1;
        }
    }
    if start < len {
        let ghost before = positions(ends@);
        ends.push(len);
        proof {
            assert(positions(ends@) =~= before + seq![len as int]);
        }
    } else {
        proof {
            assert(positions(ends@) + Seq::<int>::empty() =~= positions(ends@));
        }
    }
    ends
}

/// Number of bytes that a character takes in UTF-8.
pub fn utf8_width(c: char) -> (width: u128)
    ensures
        width == vstd::utf8::encode_scalar(c as u32).len(),
        1 <= width <= 4,
{
    proof {
        vstd::utf8::char_is_scalar(c);
    }
    let v: u32 = c as u32;
    if v <= 0x7F {
        1
    } else if v <= 0x7FF {
        2
    } else if v <= 0xFFFF {
        3
    } else {
        4
    }
}

/// A text that is longer by one character takes the bytes of that character
/// more.
pub proof fn lemma_byte_len_push(t: Seq<char>, c: char)
    ensures
        byte_len(t.push(c)) == byte_len(t) + vstd::utf8::encode_scalar(c as u32).len(),
    decreases t.len(),
{
    if t.len() == 0 {
        assert(t.push(c).drop_first() =~= t);
    } else {
        assert(t.push(c).drop_first() =~= t.drop_first().push(c));
        lemma_byte_len_push(t.drop_first(), c);
    }
}

/// Counts the bytes of the characters of `text` from `from` up to `to`,
/// given the count `before` of those from `start` up to `from`, and
/// returns the count from `start` up to `to`.
fn count_bytes(text: &Vec<char>, start: usize, from: usize, to: usize, before: u128) -> (count:
    u128)
    requires
        start <= from <= to <= text.len(),
        before == bytes_between(text@, start as int, from as int),
        before <= 4 * (from - start),
    ensures
        count == bytes_between(text@, start as int, to as int),
        count <= 4 * (to - start),
{
    let mut count: u128 = before;
    let mut pos: usize = from;
    while pos < to
        invariant
            start <= from <= pos <= to <= text.len(),
            count == bytes_between(text@, start as int, pos as int),
            count <= 4 * (pos - start),
        decreases to - pos,
    {
        proof {
            lemma_byte_len_push(text@.subrange(start as int, pos as int), text@[pos as int]);
            assert(text@.subrange(start as int, pos + 1) =~= text@.subrange(
                start as int,
                pos as int,
            ).push(text@[pos as int]));
        }
        count = count + utf8_width(text[pos]);
        pos += 1;
    }
    count
}

/// Groups consecutive segments of `text`, given by their ends, into
/// fragments of fewer than `n` bytes where that can be, and returns where
/// the fragments end.
pub fn group_segments(text: &Vec<char>, ends: &Vec<usize>, n: usize) -> (cuts: Vec<usize>)
    requires
        forall|j: int, k: int| 0 <= j <= k < ends@.len() ==> ends@[j] <= ends@[k],
        forall|k: int| 0 <= k < ends@.len() ==> #[trigger] ends@[k] <= text@.len(),
    ensures
        positions(cuts@) == fragment_ends(text@, positions(ends@), n as int),
{
    let mut cuts: Vec<usize> = Vec::new();
    if ends.len() == 0 {
        proof {
            assert(positions(cuts@) =~= fragment_ends(text@, positions(ends@), n as int));
        }
        return cuts;
    }
    let mut start: usize = 0;
    let mut cur: usize = ends[0];
    proof {
        assert(text@.subrange(0, 0) =~= Seq::<char>::empty());
    }
    // Bytes of the current fragment.
    let mut size: u128 = count_bytes(text, 0, 0, cur, 0);
    let mut k: usize = 1;
    while k < ends.len()
        invariant
            1 <= k <= ends.len(),
            start <= cur,
            cur == ends@[k - 1],
            size == bytes_between(text@, start as int, cur as int),
            size <= 4 * (cur - start),
            forall|j: int, k: int| 0 <= j <= k < ends@.len() ==> ends@[j] <= ends@[k],
            forall|k: int| 0 <= k < ends@.len() ==> #[trigger] ends@[k] <= text@.len(),
            fragment_ends(text@, positions(ends@), n as int) == positions(cuts@) + group_from(
                text@,
                positions(ends@),
                n as int,
                k as int,
                start as int,
                cur as int,
            ),
        decreases ends.len() - k,
    {
        let e: usize = ends[k];
        proof {
            assert(ends@[k - 1] <= ends@[k as int]);
            assert(positions(ends@)[k as int] == e);
        }
        let ghost before = positions(cuts@);
        let joined: u128 = count_bytes(text, start, cur, e, size);
        if joined < n as u128 {
            size = joined;
            cur = e;
        } else {
            cuts.push(cur);
            proof {
                let rest = group_from(text@, positions(ends@), n as int, k + 1, cur as int, e as int);
                assert(positions(cuts@) =~= before + seq![cur as int]);
                assert(before + (seq![cur as int] + rest) =~= positions(cuts@) + rest);
                assert(text@.subrange(cur as int, cur as int) =~= Seq::<char>::empty());
            }
            size = count_bytes(text, cur, cur, e, 0);
            start = cur;
            cur = e;
        }
        k += 1;
    }
    let ghost before = positions(cuts@);
    cuts.push(cur);
    proof {
        assert(positions(cuts@) =~= before + seq![cur as int]);
    }
    cuts
}

/// Where piece `j` begins in a cutting that goes on from `first`.
pub open spec fn start_after(first: int, ends: Seq<int>, j: int) -> int {
    if j <= 0 {
        first
    } else {
        ends[j - 1]
    }
}

/// The positions in `ends` do not decrease and lie between `low` and `high`.
pub open spec fn is_ordered(ends: Seq<int>, low: int, high: int) -> bool {
    &&& forall|k: int| 0 <= k < ends.len() ==> low <= #[trigger] ends[k] <= high
    &&& forall|j: int, k: int| 0 <= j <= k < ends.len() ==> ends[j] <= ends[k]
}

proof fn lemma_segment_ends_from(s: Seq<char>, pat: Seq<char>, start: int, pos: int)
    requires
        pat.len() > 0,
        0 <= start <= pos <= s.len(),
    ensures
        ({
            let r = segment_ends_from(s, pat, start, pos);
            &&& forall|k: int| 0 <= k < r.len() ==> start < #[trigger] r[k] <= s.len() && pos <= r[k]
            &&& forall|j: int, k: int| 0 <= j < k < r.len() ==> r[j] < r[k]
            &&& r.len() > 0 ==> r.last() == s.len()
            &&& start < s.len() ==> r.len() > 0
        }),
    decreases s.len() - pos,
{
    let r = segment_ends_from(s, pat, start, pos);
    if pos + pat.len() > s.len() {
    } else if matches_at(s, pat, pos) {
        let end = pos + pat.len();
        let rest = segment_ends_from(s, pat, end, end);
        lemma_segment_ends_from(s, pat, end, end);
        assert(r == seq![end] + rest);
        assert forall|j: int, k: int| 0 <= j < k < r.len() implies r[j] < r[k] by {
            if j > 0 {
                assert(r[j] == rest[j - 1]);
            }
            assert(r[k] == rest[k - 1]);
        }
        assert forall|k: int| 0 <= k < r.len() implies start < #[trigger] r[k] <= s.len() && pos
            <= r[k] by {
            if k > 0 {
                assert(r[k] == rest[k - 1]);
            }
        }
        if rest.len() > 0 {
            assert(r.last() == rest.last());
        }
    } else {
        lemma_segment_ends_from(s, pat, start, pos + 1);
    }
}

proof fn lemma_segment_ends_from_meaning(
    s: Seq<char>,
    pat: Seq<char>,
    start: int,
    pos: int,
    k: int,
)
    requires
        pat.len() > 0,
        0 <= start <= pos <= s.len(),
        forall|j: int| start <= j < pos ==> !matches_at(s, pat, j),
        0 <= k < segment_ends_from(s, pat, start, pos).len(),
    ensures
        ({
            let r = segment_ends_from(s, pat, start, pos);
            let begin = start_after(start, r, k);
            let end = r[k];
            &&& begin + pat.len() <= end ==> forall|j: int|
                begin <= j < end - pat.len() ==> !matches_at(s, pat, j)
            &&& matches_at(s, pat, end - pat.len()) && begin + pat.len() <= end || (k == r.len() - 1
                && end == s.len() && forall|j: int| begin <= j ==> !matches_at(s, pat, j))
        }),
    decreases s.len() - pos,
{
    let r = segment_ends_from(s, pat, start, pos);
    if pos + pat.len() > s.len() {
    } else if matches_at(s, pat, pos) {
        let end = pos + pat.len();
        let rest = segment_ends_from(s, pat, end, end);
        assert(r == seq![end] + rest);
        if k > 0 {
            lemma_segment_ends_from_meaning(s, pat, end, end, k - 1);
            assert(r[k] == rest[k - 1]);
            assert(start_after(start, r, k) == start_after(end, rest, k - 1)) by {
                if k > 1 {
                    assert(r[k - 1] == rest[k - 2]);
                }
            }
        }
    } else {
        lemma_segment_ends_from_meaning(s, pat, start, pos + 1, k);
    }
}

/// What the segments are: behind a pattern that is not empty, every segment
/// ends with the first occurrence of the pattern that begins in it, and
/// holds no other occurrence before; only the last segment may be without
/// any occurrence, and then it reaches the end of the text.
pub proof fn law_segments_end_with_pattern(s: Seq<char>, pat: Seq<char>, k: int)
    requires
        pat.len() > 0,
        0 <= k < segment_ends(s, pat).len(),
    ensures
        ({
            let ends = segment_ends(s, pat);
            let begin = piece_start(ends, k);
            let end = ends[k];
            ||| {
                &&& begin + pat.len() <= end
                &&& matches_at(s, pat, end - pat.len())
                &&& forall|j: int| begin <= j < end - pat.len() ==> !matches_at(s, pat, j)
            }
            ||| {
                &&& k == ends.len() - 1
                &&& end == s.len()
                &&& forall|j: int| begin <= j ==> !matches_at(s, pat, j)
            }
        }),
{
    lemma_segment_ends_from_meaning(s, pat, 0, 0, k);
    let ends = segment_ends(s, pat);
    assert(piece_start(ends, k) == start_after(0, ends, k));
}

/// The segment ends cut the whole text, and behind a pattern that is not
/// empty no segment is empty.
pub proof fn lemma_segment_ends_cut(s: Seq<char>, pat: Seq<char>)
    ensures
        is_cutting(segment_ends(s, pat), s.len() as int),
        pat.len() > 0 ==> forall|k: int|
            0 <= k < segment_ends(s, pat).len() ==> piece_start(segment_ends(s, pat), k)
                < #[trigger] segment_ends(s, pat)[k],
{
    let r = segment_ends(s, pat);
    if pat.len() > 0 {
        lemma_segment_ends_from(s, pat, 0, 0);
        assert forall|j: int, k: int| 0 <= j <= k < r.len() implies r[j] <= r[k] by {
            if j < k {
            }
        }
    }
}

proof fn lemma_group_from(s: Seq<char>, ends: Seq<int>, n: int, k: int, start: int, cur: int)
    requires
        1 <= k <= ends.len(),
        forall|i: int, j: int| 0 <= i <= j < ends.len() ==> ends[i] <= ends[j],
        cur == ends[k - 1],
        start <= cur,
        bytes_between(s, start, cur) < n || start == piece_start(ends, k - 1),
    ensures
        ({
            let g = group_from(s, ends, n, k, start, cur);
            &&& g.len() > 0
            &&& g.last() == ends.last()
            &&& is_ordered(g, cur, ends.last())
            &&& forall|j: int|
                0 <= j < g.len() ==> {
                    ||| bytes_between(s, start_after(start, g, j), #[trigger] g[j]) < n
                    ||| exists|i: int|
                        0 <= i < ends.len() && piece_start(ends, i) == start_after(start, g, j)
                            && ends[i] == g[j]
                }
        }),
    decreases ends.len() - k,
{
    let g = group_from(s, ends, n, k, start, cur);
    if k >= ends.len() {
        assert(g == seq![cur]);
        if !(bytes_between(s, start, cur) < n) {
            assert(piece_start(ends, k - 1) == start_after(start, g, 0) && ends[k - 1] == g[0]);
        }
    } else if bytes_between(s, start, ends[k]) < n {
        lemma_group_from(s, ends, n, k + 1, start, ends[k]);
    } else {
        let rest = group_from(s, ends, n, k + 1, cur, ends[k]);
        lemma_group_from(s, ends, n, k + 1, cur, ends[k]);
        assert(g == seq![cur] + rest);
        assert(g.last() == rest.last());
        assert forall|j: int| 0 <= j < g.len() implies cur <= #[trigger] g[j] <= ends.last() by {
            if j > 0 {
                assert(g[j] == rest[j - 1]);
            }
        }
        assert forall|i: int, j: int| 0 <= i <= j < g.len() implies g[i] <= g[j] by {
            if i > 0 {
                assert(g[i] == rest[i - 1]);
            }
            if j > 0 {
                assert(g[j] == rest[j - 1]);
            }
        }
        assert forall|j: int| 0 <= j < g.len() implies {
            ||| bytes_between(s, start_after(start, g, j), #[trigger] g[j]) < n
            ||| exists|i: int|
                0 <= i < ends.len() && piece_start(ends, i) == start_after(start, g, j) && ends[i]
                    == g[j]
        } by {
            if j == 0 {
                if !(bytes_between(s, start, cur) < n) {
                    assert(piece_start(ends, k - 1) == start_after(start, g, 0) && ends[k - 1]
                        == g[0]);
                }
            } else {
                assert(g[j] == rest[j - 1]);
                assert(start_after(start, g, j) == start_after(cur, rest, j - 1)) by {
                    if j > 1 {
                        assert(g[j - 1] == rest[j - 2]);
                    }
                }
                assert(bytes_between(s, start_after(cur, rest, j - 1), rest[j - 1]) < n
                    || exists|i: int|
                    0 <= i < ends.len() && piece_start(ends, i) == start_after(cur, rest, j - 1)
                        && ends[i] == rest[j - 1]);
            }
        }
    }
}

/// Grouping keeps a cutting a cutting, and a fragment that reaches the
/// limit is one single segment.
pub proof fn lemma_fragment_ends_cut(s: Seq<char>, ends: Seq<int>, n: int, len: int)
    requires
        is_cutting(ends, len),
    ensures
        is_cutting(fragment_ends(s, ends, n), len),
        forall|j: int|
            0 <= j < fragment_ends(s, ends, n).len() ==> {
                ||| bytes_between(
                    s,
                    piece_start(fragment_ends(s, ends, n), j),
                    #[trigger] fragment_ends(s, ends, n)[j],
                ) < n
                ||| exists|i: int|
                    0 <= i < ends.len() && piece_start(ends, i) == piece_start(
                        fragment_ends(s, ends, n),
                        j,
                    ) && ends[i] == fragment_ends(s, ends, n)[j]
            },
{
    let g = fragment_ends(s, ends, n);
    if ends.len() > 0 {
        lemma_group_from(s, ends, n, 1, 0, ends[0]);
        assert forall|j: int| 0 <= j < g.len() implies {
            ||| bytes_between(s, piece_start(g, j), #[trigger] g[j]) < n
            ||| exists|i: int|
                0 <= i < ends.len() && piece_start(ends, i) == piece_start(g, j) && ends[i] == g[j]
        } by {
            assert(piece_start(g, j) == start_after(0, g, j));
            assert(bytes_between(s, start_after(0, g, j), g[j]) < n || exists|i: int|
                0 <= i < ends.len() && piece_start(ends, i) == start_after(0, g, j) && ends[i]
                    == g[j]);
        }
    }
}

proof fn lemma_concat_pieces_prefix<A>(s: Seq<A>, ends: Seq<int>)
    requires
        is_ordered(ends, 0, s.len() as int),
    ensures
        concat(pieces(s, ends)) == s.subrange(
            0,
            if ends.len() == 0 {
                0
            } else {
                ends.last()
            },
        ),
    decreases ends.len(),
{
    let p = pieces(s, ends);
    if ends.len() == 0 {
        assert(concat(p) =~= s.subrange(0, 0));
    } else {
        let front = ends.drop_last();
        lemma_concat_pieces_prefix(s, front);
        assert(p.drop_last() =~= pieces(s, front)) by {
            assert forall|k: int| 0 <= k < front.len() implies piece(s, ends, k) == piece(
                s,
                front,
                k,
            ) by {
                assert(front[k] == ends[k]);
                if k > 0 {
                    assert(front[k - 1] == ends[k - 1]);
                }
            }
        }
        let last = ends.len() - 1;
        assert(p.last() == piece(s, ends, last));
        if front.len() > 0 {
            assert(front.last() == ends[last - 1]);
        }
        assert(concat(p) =~= s.subrange(0, ends.last()));
    }
}

/// The pieces of a cutting, put together again, are the sequence.
pub proof fn lemma_concat_pieces<A>(s: Seq<A>, ends: Seq<int>)
    requires
        is_cutting(ends, s.len() as int),
    ensures
        concat(pieces(s, ends)) == s,
{
    lemma_concat_pieces_prefix(s, ends);
    assert(s.subrange(0, s.len() as int) =~= s);
}

/// `first` and `last` are the indices of the first and of the last of the
/// segments cut at `ends` of which the piece from `begin` to `end` is made.
pub open spec fn is_run(ends: Seq<int>, first: int, last: int, begin: int, end: int) -> bool {
    &&& 0 <= first <= last < ends.len()
    &&& piece_start(ends, first) == begin
    &&& ends[last] == end
}

proof fn lemma_group_from_runs(
    s: Seq<char>,
    ends: Seq<int>,
    n: int,
    k: int,
    start: int,
    cur: int,
    first: int,
    j: int,
)
    requires
        1 <= k <= ends.len(),
        cur == ends[k - 1],
        0 <= first <= k - 1,
        start == piece_start(ends, first),
        0 <= j < group_from(s, ends, n, k, start, cur).len(),
    ensures
        exists|a: int, b: int|
            first <= a && #[trigger] is_run(
                ends,
                a,
                b,
                start_after(start, group_from(s, ends, n, k, start, cur), j),
                group_from(s, ends, n, k, start, cur)[j],
            ),
    decreases ends.len() - k,
{
    let g = group_from(s, ends, n, k, start, cur);
    if k >= ends.len() {
        assert(is_run(ends, first, k - 1, start_after(start, g, j), g[j]));
    } else if bytes_between(s, start, ends[k]) < n {
        lemma_group_from_runs(s, ends, n, k + 1, start, ends[k], first, j);
    } else {
        let rest = group_from(s, ends, n, k + 1, cur, ends[k]);
        assert(g == seq![cur] + rest);
        if j == 0 {
            assert(is_run(ends, first, k - 1, start_after(start, g, j), g[j]));
        } else {
            lemma_group_from_runs(s, ends, n, k + 1, cur, ends[k], k, j - 1);
            assert(g[j] == rest[j - 1]);
            assert(start_after(start, g, j) == start_after(cur, rest, j - 1)) by {
                if j > 1 {
                    assert(g[j - 1] == rest[j - 2]);
                }
            }
            let (a, b) = choose|a: int, b: int|
                k <= a && #[trigger] is_run(
                    ends,
                    a,
                    b,
                    start_after(cur, rest, j - 1),
                    rest[j - 1],
                );
            assert(is_run(ends, a, b, start_after(start, g, j), g[j]));
        }
    }
}

/// Every fragment is a run of whole segments: it begins where one segment
/// begins and ends where that segment or a later one ends.
pub proof fn law_fragments_are_runs_of_segments(t: Seq<char>, n: int, pat: Seq<char>, k: int)
    requires
        0 <= k < fragments(t, n, pat).len(),
    ensures
        exists|a: int, b: int| #[trigger]
            is_run(
                segment_ends(t, pat),
                a,
                b,
                piece_start(fragment_ends(t, segment_ends(t, pat), n), k),
                fragment_ends(t, segment_ends(t, pat), n)[k],
            ),
{
    let se = segment_ends(t, pat);
    let fe = fragment_ends(t, se, n);
    lemma_group_from_runs(t, se, n, 1, 0, se[0], 0, k);
    assert(piece_start(fe, k) == start_after(0, fe, k));
}

/// `next` is the index of a segment, cut at `ends`, that begins at `end`
/// and with which the piece of `s` that begins at `begin` would take `n`
/// bytes or more.
pub open spec fn is_too_much(
    s: Seq<char>,
    ends: Seq<int>,
    n: int,
    next: int,
    begin: int,
    end: int,
) -> bool {
    &&& 0 < next < ends.len()
    &&& ends[next - 1] == end
    &&& bytes_between(s, begin, ends[next]) >= n
}

proof fn lemma_group_from_greedy(
    s: Seq<char>,
    ends: Seq<int>,
    n: int,
    k: int,
    start: int,
    cur: int,
    j: int,
)
    requires
        1 <= k <= ends.len(),
        cur == ends[k - 1],
        0 <= j < group_from(s, ends, n, k, start, cur).len() - 1,
    ensures
        exists|next: int| #[trigger]
            is_too_much(
                s,
                ends,
                n,
                next,
                start_after(start, group_from(s, ends, n, k, start, cur), j),
                group_from(s, ends, n, k, start, cur)[j],
            ),
    decreases ends.len() - k,
{
    let g = group_from(s, ends, n, k, start, cur);
    if k >= ends.len() {
    } else if bytes_between(s, start, ends[k]) < n {
        lemma_group_from_greedy(s, ends, n, k + 1, start, ends[k], j);
    } else {
        let rest = group_from(s, ends, n, k + 1, cur, ends[k]);
        assert(g == seq![cur] + rest);
        if j == 0 {
            assert(is_too_much(s, ends, n, k, start_after(start, g, j), g[j]));
        } else {
            lemma_group_from_greedy(s, ends, n, k + 1, cur, ends[k], j - 1);
            assert(g[j] == rest[j - 1]);
            assert(start_after(start, g, j) == start_after(cur, rest, j - 1)) by {
                if j > 1 {
                    assert(g[j - 1] == rest[j - 2]);
                }
            }
            let next = choose|next: int| #[trigger]
                is_too_much(s, ends, n, next, start_after(cur, rest, j - 1), rest[j - 1]);
            assert(is_too_much(s, ends, n, next, start_after(start, g, j), g[j]));
        }
    }
}

/// Fragments are filled greedily: a fragment is closed only where the
/// segment that follows it would bring it to `n` bytes or more.
pub proof fn law_fragments_are_greedy(t: Seq<char>, n: int, pat: Seq<char>, k: int)
    requires
        0 <= k < fragments(t, n, pat).len() - 1,
    ensures
        exists|next: int| #[trigger]
            is_too_much(
                t,
                segment_ends(t, pat),
                n,
                next,
                piece_start(fragment_ends(t, segment_ends(t, pat), n), k),
                fragment_ends(t, segment_ends(t, pat), n)[k],
            ),
{
    let se = segment_ends(t, pat);
    let fe = fragment_ends(t, se, n);
    lemma_group_from_greedy(t, se, n, 1, 0, se[0], k);
    assert(piece_start(fe, k) == start_after(0, fe, k));
}

/// Splitting loses nothing: for every text, limit and pattern, the
/// fragments concatenated in order are the text again.
pub proof fn law_split_round_trip(t: Seq<char>, n: int, pat: Seq<char>)
    ensures
        concat(fragments(t, n, pat)) == t,
{
    lemma_segment_ends_cut(t, pat);
    lemma_fragment_ends_cut(t, segment_ends(t, pat), n, t.len() as int);
    lemma_concat_pieces(t, fragment_ends(t, segment_ends(t, pat), n));
}

/// The limit is soft in one way only: every fragment takes fewer than `n`
/// bytes, or it is exactly one pattern-delimited segment of the text.
pub proof fn law_fragment_bound(t: Seq<char>, n: int, pat: Seq<char>, k: int)
    requires
        0 <= k < fragments(t, n, pat).len(),
    ensures
        byte_len(fragments(t, n, pat)[k]) < n || exists|i: int|
            0 <= i < segments(t, pat).len() && segments(t, pat)[i] == fragments(t, n, pat)[k],
{
    let se = segment_ends(t, pat);
    let fe = fragment_ends(t, se, n);
    lemma_segment_ends_cut(t, pat);
    lemma_fragment_ends_cut(t, se, n, t.len() as int);
    assert(fragments(t, n, pat)[k] == piece(t, fe, k));
    if !(bytes_between(t, piece_start(fe, k), fe[k]) < n) {
        let i = choose|i: int|
            0 <= i < se.len() && piece_start(se, i) == piece_start(fe, k) && se[i] == fe[k];
        assert(segments(t, pat)[i] == piece(t, se, i));
    }
}

/// On an empty text with a pattern that is not empty there is nothing to
/// split.
pub proof fn law_split_empty(n: int, pat: Seq<char>)
    requires
        pat.len() > 0,
    ensures
        fragments(Seq::<char>::empty(), n, pat) == Seq::<Seq<char>>::empty(),
{
    assert(fragments(Seq::<char>::empty(), n, pat) =~= Seq::<Seq<char>>::empty());
}

/// The character that stands for the digit `d`.
pub open spec fn digit_char(d: int) -> char {
    if d == 0 {
        '0'
    } else if d == 1 {
        '1'
    } else if d == 2 {
        '2'
    } else if d == 3 {
        '3'
    } else if d == 4 {
        '4'
    } else if d == 5 {
        '5'
    } else if d == 6 {
        '6'
    } else if d == 7 {
        '7'
    } else if d == 8 {
        '8'
    } else {
        '9'
    }
}

/// The decimal notation of `n`, without leading zeros.
pub open spec fn decimal(n: nat) -> Seq<char>
    decreases n,
{
    if n < 10 {
        seq![digit_char(n as int)]
    } else {
        decimal(n / 10).push(digit_char((n % 10) as int))
    }
}

/// The character that stands for the digit `d`.
pub fn digit_of(d: usize) -> (c: char)
    requires
        d < 10,
    ensures
        c == digit_char(d as int),
{
    if d == 0 {
        '0'
    } else if d == 1 {
        '1'
    } else if d == 2 {
        '2'
    } else if d == 3 {
        '3'
    } else if d == 4 {
        '4'
    } else if d == 5 {
        '5'
    } else if d == 6 {
        '6'
    } else if d == 7 {
        '7'
    } else if d == 8 {
        '8'
    } else {
        '9'
    }
}

/// The decimal notation of `n`, as characters.
pub fn decimal_digits(n: usize) -> (digits: Vec<char>)
    ensures
        digits@ == decimal(n as nat),
    decreases n,
{
    if n < 10 {
        let mut digits: Vec<char> = Vec::new();
        digits.push(digit_of(n));
        digits
    } else {
        let mut digits = decimal_digits(n / 10);
        digits.push(digit_of(n % 10));
        digits
    }
}

/// `String::push` of std appends one character to the string.
pub assume_specification[ String::push ](s: &mut String, c: char)
    ensures
        final(s)@ == old(s)@.push(c),
;

/// The string made of the characters `chars`.
pub fn string_of(chars: &Vec<char>) -> (s: String)
    ensures
        s@ == chars@,
{
    let mut s = String::new();
    let mut i: usize = 0;
    while i < chars.len()
        invariant
            i <= chars.len(),
            s@ == chars@.take(i as int),
        decreases chars.len() - i,
    {
        s.push(chars[i]);
        proof {
            assert(chars@.take(i + 1) =~= chars@.take(i as int).push(chars@[i as int]));
        }
        i += 1;
    }
    proof {
        assert(chars@.take(i as int) =~= chars@);
    }
    s
}

/// The decimal notation of `n`.
pub fn decimal_string(n: usize) -> (s: String)
    ensures
        s@ == decimal(n as nat),
{
    let digits = decimal_digits(n);
    string_of(&digits)
}

} // verus!
