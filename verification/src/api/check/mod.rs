//! Structures for `check` requests and responses.

pub mod annotate;
pub mod data_annotations;
pub mod requests;
pub mod responses;

pub use data_annotations::{AnnotationView, Data, DataAnnotation};
pub use requests::{split_len, Level, Request, RequestView, DEFAULT_LANGUAGE};
pub use responses::{
    Category, Context, DetectedLanguage, Findings, LanguageResponse, Match, MatchPositions,
    MoreContext, Replacement, Response, ResponseWithContext, Rule, Software, Type, Url, Warnings,
};

use crate::error::{Error, Result};
use crate::text::chars_of;
use requests::{opt_list_view, string_views};
use vstd::prelude::*;
use vstd::string::StringExecFns;

verus! {

/// `c` is one of the letters `a` to `z` or `A` to `Z`.
pub open spec fn is_ascii_letter(c: char) -> bool {
    ('a' <= c && c <= 'z') || ('A' <= c && c <= 'Z')
}

/// Every character of `s` is an ASCII letter.
pub open spec fn all_ascii_letters(s: Seq<char>) -> bool {
    forall|i: int| 0 <= i < s.len() ==> is_ascii_letter(#[trigger] s[i])
}

/// The parts into which the occurrences of `sep` divide `s`; there is one
/// part more than there are separators.
pub open spec fn split_on(s: Seq<char>, sep: char) -> Seq<Seq<char>>
    decreases s.len(),
{
    if s.len() == 0 {
        seq![Seq::empty()]
    } else {
        let front = split_on(s.drop_last(), sep);
        if s.last() == sep {
            front.push(Seq::empty())
        } else {
            front.drop_last().push(front.last().push(s.last()))
        }
    }
}

/// The subtags `parts` of a language code are well formed as far as they
/// are complete, that is but for the last one, which may still grow.
pub open spec fn subtags_complete(parts: Seq<Seq<char>>) -> bool {
    forall|k: int| 0 <= k < parts.len() - 1 ==> subtag_ok(#[trigger] parts[k], k)
}

/// `part` can stand as subtag number `k` of a language code: two or three
/// letters for the language, two letters for the region, and one letter
/// or more for each subtag after these.
pub open spec fn subtag_ok(part: Seq<char>, k: int) -> bool {
    &&& all_ascii_letters(part)
    &&& k == 0 ==> part.len() == 2 || part.len() == 3
    &&& k == 1 ==> part.len() == 2
    &&& k >= 2 ==> part.len() >= 1
}

/// `v` is the word `auto`, or has the form of a language code: subtags of
/// ASCII letters divided by `-`, of which the first has two or three
/// letters, the second two, and each further one at least one. In the
/// notation of regular expressions:
/// `[a-zA-Z]{2,3}(-[a-zA-Z]{2}(-[a-zA-Z]+)*)?`.
pub open spec fn is_language_code(v: Seq<char>) -> bool {
    v == "auto"@ || forall|k: int|
        0 <= k < split_on(v, '-').len() ==> subtag_ok(#[trigger] split_on(v, '-')[k], k)
}

/// Tells whether `c` is one of the letters `a` to `z` or `A` to `Z`.
pub fn is_letter(c: char) -> (b: bool)
    ensures
        b == is_ascii_letter(c),
{
    ('a' <= c && c <= 'z') || ('A' <= c && c <= 'Z')
}

/// Tells whether `v` is a valid language code.
///
/// A valid language code is usually
/// - a two character string matching pattern `[a-z]{2}`
/// - a five character string matching pattern `[a-z]{2}-[A-Z]{2}`
/// - or some more complex ascii string (see below)
///
/// Language code is case-insensitive.
///
/// Therefore, a valid language code must match the following:
///
/// - `[a-zA-Z]{2,3}(-[a-zA-Z]{2}(-[a-zA-Z]+)*)?`
///
/// or
///
/// - "auto"
///
/// > Note: a valid language code does not mean that it exists.
pub fn parse_language_code(v: &str) -> (res: Result<String>)
    ensures
        is_language_code(v@) ==> (res matches Ok(code) && code@ == v@),
        !is_language_code(v@) ==> (res matches Err(Error::InvalidValue(why)) && why@
            == "The value should be `\"auto\"` or match regex pattern: ^[a-zA-Z]{2,3}(-[a-zA-Z]{2}(-[a-zA-Z]+)*)?$"@),
{
    let chars = chars_of(v);
    proof {
        reveal_strlit("auto");
    }
    let is_auto: bool = chars.len() == 4 && chars[0] == 'a' && chars[1] == 'u' && chars[2] == 't'
        && chars[3] == 'o';
    proof {
        if is_auto {
            assert(v@ =~= "auto"@);
        }
    }
    if is_auto || has_subtags(&chars) {
        Ok(v.to_owned())
    } else {
        Err(
            Error::InvalidValue(
                "The value should be `\"auto\"` or match regex pattern: ^[a-zA-Z]{2,3}(-[a-zA-Z]{2}(-[a-zA-Z]+)*)?$".to_owned(),
            ),
        )
    }
}

/// Tells whether `chars` is made of well-formed subtags divided by `-`.
fn has_subtags(chars: &Vec<char>) -> (b: bool)
    ensures
        b == (forall|k: int|
            0 <= k < split_on(chars@, '-').len() ==> subtag_ok(
                #[trigger] split_on(chars@, '-')[k],
                k,
            )),
{
    // Number of the subtag that is being read, counted up to 2, and its length
    // so far, counted up to 4.
    let mut number: usize = 0;
    let mut length: usize = 0;
    let mut i: usize = 0;
    while i < chars.len()
        invariant
            i <= chars.len(),
            ({
                let parts = split_on(chars@.take(i as int), '-');
                &&& parts.len() >= 1
                &&& subtags_complete(parts)
                &&& all_ascii_letters(parts.last())
                &&& number == if parts.len() > 2 {
                    2
                } else {
                    parts.len() - 1
                }
                &&& length == if parts.last().len() > 3 {
                    4
                } else {
                    parts.last().len()
                }
            }),
        decreases chars.len() - i,
    {
        let ghost before = split_on(chars@.take(i as int), '-');
        let ghost after = split_on(chars@.take(i + 1), '-');
        proof {
            assert(chars@.take(i + 1).drop_last() =~= chars@.take(i as int));
            assert(chars@.take(i + 1).last() == chars@[i as int]);
        }
        let c: char = chars[i];
        if c == '-' {
            let complete: bool = if number == 0 {
                length == 2 || length == 3
            } else if number == 1 {
                length == 2
            } else {
                length >= 1
            };
            if !complete {
                proof {
                    lemma_subtag_stays(chars@, i + 1, before.len() - 1);
                    let parts = split_on(chars@, '-');
                    let k = before.len() - 1;
                    assert(after[k] == before[k]);
                    assert(!subtag_ok(parts[k], k));
                }
                return false;
            }
            proof {
                assert(after == before.push(Seq::empty()));
                assert forall|k: int| 0 <= k < after.len() - 1 implies subtag_ok(
                    #[trigger] after[k],
                    k,
                ) by {
                    assert(after[k] == before[k]);
                }
            }
            number = if number < 2 {
                number + 1
            } else {
                2
            };
            length = 0;
        } else if is_letter(c) {
            proof {
                assert(after == before.drop_last().push(before.last().push(c)));
                assert forall|k: int| 0 <= k < after.len() - 1 implies subtag_ok(
                    #[trigger] after[k],
                    k,
                ) by {
                    assert(after[k] == before[k]);
                }
            }
            length = if length < 4 {
                length + 1
            } else {
                4
            };
        } else {
            proof {
                let k = before.len() - 1;
                assert(after[k].last() == c);
                lemma_letters_stay(chars@, i + 1, k);
                let parts = split_on(chars@, '-');
                assert(!all_ascii_letters(parts[k])) by {
                    assert(parts[k][after[k].len() - 1] == c);
                }
            }
            return false;
        }
        i += 1;
    }
    proof {
        assert(chars@.take(i as int) =~= chars@);
    }
    let parts = Ghost(split_on(chars@, '-'));
    let complete: bool = if number == 0 {
        length == 2 || length == 3
    } else if number == 1 {
        length == 2
    } else {
        length >= 1
    };
    proof {
        let last = parts@.len() - 1;
        if complete {
            assert forall|k: int| 0 <= k < parts@.len() implies subtag_ok(
                #[trigger] parts@[k],
                k,
            ) by {}
        } else {
            assert(!subtag_ok(parts@[last], last));
        }
    }
    complete
}

/// The texts `items` in a row, with `sep` between each two of them.
pub open spec fn joined(items: Seq<Seq<char>>, sep: Seq<char>) -> Seq<char>
    decreases items.len(),
{
    if items.len() == 0 {
        Seq::empty()
    } else if items.len() == 1 {
        items[0]
    } else {
        joined(items.drop_last(), sep) + sep + items.last()
    }
}

/// What the server is sent for an optional list of strings: the strings
/// divided by commas, or nothing where there is no list or an empty one.
pub open spec fn comma_separated(list: Option<Seq<Seq<char>>>) -> Option<Seq<char>> {
    match list {
        Some(items) => if items.len() >= 1 {
            Some(joined(items, seq![',']))
        } else {
            None
        },
        None => None,
    }
}

/// Turns an optional vector of strings into a comma separated list of
/// strings, as the server expects it. There is nothing to send for a
/// missing or an empty vector.
pub fn join_option_vec_string(v: &Option<Vec<String>>) -> (res: Option<String>)
    ensures
        match comma_separated(opt_list_view(*v)) {
            Some(text) => res matches Some(s) && s@ == text,
            None => res is None,
        },
{
    match v {
        Some(items) => {
            if items.len() == 0 {
                return None;
            }
            let ghost views = string_views(items@);
            let mut string: String = items[0].clone();
            proof {
                assert(views.take(1) =~= seq![items@[0]@]);
                reveal_strlit(",");
                assert(","@ =~= seq![',']);
            }
            let mut i: usize = 1;
            while i < items.len()
                invariant
                    1 <= i <= items.len(),
                    views == string_views(items@),
                    ","@ == seq![','],
                    string@ == joined(views.take(i as int), seq![',']),
                decreases items.len() - i,
            {
                proof {
                    assert(views.take(i + 1).drop_last() =~= views.take(i as int));
                    assert(views.take(i + 1).last() == items@[i as int]@);
                }
                string.append(",");
                string.append(items[i].as_str());
                i += 1;
            }
            proof {
                assert(views.take(i as int) =~= views);
            }
            Some(string)
        },
        None => None,
    }
}

/// The parts of a prefix of `s`, but for the last one, are parts of `s`.
proof fn lemma_subtag_stays(s: Seq<char>, i: int, k: int)
    requires
        0 <= i <= s.len(),
        0 <= k < split_on(s.take(i), '-').len() - 1,
    ensures
        k < split_on(s, '-').len() - 1,
        split_on(s, '-')[k] == split_on(s.take(i), '-')[k],
    decreases s.len() - i,
{
    if i == s.len() {
        assert(s.take(i) =~= s);
    } else {
        assert(s.take(i + 1).drop_last() =~= s.take(i));
        lemma_subtag_stays(s, i + 1, k);
    }
}

/// The last part of a prefix of `s` begins the part of `s` with the same
/// number.
proof fn lemma_letters_stay(s: Seq<char>, i: int, k: int)
    requires
        0 <= i <= s.len(),
        k == split_on(s.take(i), '-').len() - 1,
    ensures
        0 <= k < split_on(s, '-').len(),
        split_on(s.take(i), '-')[k].len() <= split_on(s, '-')[k].len(),
        forall|j: int|
            0 <= j < split_on(s.take(i), '-')[k].len() ==> split_on(s, '-')[k][j] == split_on(
                s.take(i),
                '-',
            )[k][j],
    decreases s.len() - i,
{
    lemma_split_on_nonempty(s.take(i));
    if i == s.len() {
        assert(s.take(i) =~= s);
    } else {
        assert(s.take(i + 1).drop_last() =~= s.take(i));
        let before = split_on(s.take(i), '-');
        let after = split_on(s.take(i + 1), '-');
        if s[i] == '-' {
            assert(s.take(i + 1).last() == s[i]);
            assert(after == before.push(Seq::empty()));
            lemma_subtag_stays(s, i + 1, k);
        } else {
            assert(s.take(i + 1).last() == s[i]);
            assert(after == before.drop_last().push(before.last().push(s[i])));
            lemma_letters_stay(s, i + 1, k);
        }
    }
}

proof fn lemma_split_on_nonempty(s: Seq<char>)
    ensures
        split_on(s, '-').len() >= 1,
    decreases s.len(),
{
    if s.len() > 0 {
        lemma_split_on_nonempty(s.drop_last());
    }
}

} // verus!
