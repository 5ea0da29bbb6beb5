use languagetool_rust::api::check::{
    Category, Context, DetectedLanguage, LanguageResponse, Match, MoreContext, Replacement,
    Response, ResponseWithContext, Rule, Software,
};
use languagetool_rust::error::Error;

fn a_match(offset: usize, length: usize) -> Match {
    Match {
        context: Context {
            length,
            offset: 0,
            text: "context".to_string(),
        },
        length,
        message: "Possible spelling mistake found.".to_string(),
        more_context: None,
        offset,
        replacements: vec![Replacement::new("small".to_string())],
        rule: Rule {
            category: Category {
                id: "TYPOS".to_string(),
                name: "Possible Typo".to_string(),
            },
            description: "Possible spelling mistake".to_string(),
            id: "MORFOLOGIK_RULE_EN_US".to_string(),
            issue_type: "misspelling".to_string(),
            sub_id: None,
            urls: None,
        },
        sentence: "Some phrase with a smal mistake.".to_string(),
        short_message: "Spelling mistake".to_string(),
        type_: None,
    }
}

fn a_response(offsets: &[usize]) -> Response {
    Response {
        language: LanguageResponse {
            code: "en-US".to_string(),
            detected_language: DetectedLanguage {
                code: "en-US".to_string(),
                name: "English (US)".to_string(),
            },
            name: "English (US)".to_string(),
        },
        matches: offsets.iter().map(|o| a_match(*o, 4)).collect(),
        sentence_ranges: None,
        software: Software {
            api_version: 1,
            build_date: "2024-01-01".to_string(),
            name: "LanguageTool".to_string(),
            premium: false,
            status: "".to_string(),
            version: "6.4".to_string(),
        },
        warnings: None,
    }
}

fn with_context(text: &str, offsets: &[usize]) -> ResponseWithContext {
    ResponseWithContext::new(text.to_string(), a_response(offsets))
}

fn positions_of(text: &str, offsets: &[usize]) -> Vec<(usize, usize)> {
    let resp = with_context(text, offsets);
    assert!(resp.can_map_positions(1));
    let mut walk = resp.iter_match_positions();
    let mut got = Vec::new();
    while let Some((line_number, line_offset, m)) = walk.next() {
        assert_eq!(m.offset, offsets[got.len()]);
        got.push((line_number, line_offset));
    }
    got
}

#[test]
fn test_match_positions_1() {
    let got = positions_of(
        "Some phrase with a smal mistake.
i can drive a car",
        &[19, 33],
    );
    assert_eq!(got, vec![(1, 19), (2, 0)]);
}

#[test]
fn test_match_positions_2() {
    let got = positions_of(
        "Some phrase with
a smal mistake. i can
drive a car",
        &[19, 33],
    );
    assert_eq!(got, vec![(2, 2), (2, 16)]);
}

#[test]
fn test_match_positions_3() {
    let got = positions_of(
        "  Some phrase with a smal
mistake.

  i can drive a car",
        &[0, 21, 36, 38],
    );
    assert_eq!(got, vec![(1, 0), (1, 21), (4, 0), (4, 2)]);
}

#[test]
fn test_match_positions_4() {
    let got = positions_of(
        "Some phrase with a smal mistake.
i can drive a car
Some phrase with a smal mistake.",
        &[19, 33, 70],
    );
    assert_eq!(got, vec![(1, 19), (2, 0), (3, 19)]);
}

#[test]
fn match_positions_count_characters_not_bytes() {
    let got = positions_of("héllo wörld\nünïcode smal", &[6, 20]);
    assert_eq!(got, vec![(1, 6), (2, 8)]);
}

#[test]
fn match_positions_from_another_first_line() {
    let resp = with_context("one\ntwo\nthree", &[0, 4, 10]);
    let mut walk = resp.iter_match_positions().set_line_number(10);
    assert_eq!(walk.next().map(|p| (p.0, p.1)), Some((10, 0)));
    assert_eq!(walk.next().map(|p| (p.0, p.1)), Some((11, 0)));
    assert_eq!(walk.next().map(|p| (p.0, p.1)), Some((12, 2)));
    assert!(walk.next().is_none());
    assert!(walk.next().is_none());
}

#[test]
fn match_positions_are_monotone() {
    let text = "a\nbb\n\nccc\ndddd";
    let offsets: Vec<usize> = (0..=text.chars().count()).collect();
    let got = positions_of(text, &offsets);
    for pair in got.windows(2) {
        assert!(pair[0].0 <= pair[1].0);
        if pair[0].0 == pair[1].0 {
            assert!(pair[0].1 <= pair[1].1);
        }
    }
    assert_eq!(got[0], (1, 0));
    assert_eq!(got[got.len() - 1], (5, 4));
}

#[test]
fn positions_need_ordered_offsets_within_the_text() {
    assert!(with_context("some text", &[]).can_map_positions(1));
    assert!(with_context("some text", &[0, 0, 9]).can_map_positions(1));
    assert!(!with_context("some text", &[5, 2]).can_map_positions(1));
    assert!(!with_context("some text", &[10]).can_map_positions(1));
    assert!(!with_context("some text", &[1]).can_map_positions(usize::MAX));
}

#[test]
fn new_counts_characters() {
    let resp = with_context("héllo\n", &[]);
    assert_eq!(resp.text_length, 6);
    assert_eq!(resp.text, "héllo\n");
    assert_eq!(resp.iter_matches().len(), 0);
}

#[test]
fn append_shifts_the_second_result() {
    let a = with_context("Some phrase with a smal mistake.\n", &[19]);
    let b = with_context("i can drive a car", &[0]);
    assert_eq!(a.text_length, 33);
    assert_eq!(b.text_length, 17);
    assert!(b.response.fits_shifted(a.text_length));

    let joined = a.append(b);

    assert_eq!(
        joined.text,
        "Some phrase with a smal mistake.\ni can drive a car"
    );
    assert_eq!(joined.text_length, 50);
    let offsets: Vec<usize> = joined.iter_matches().iter().map(|m| m.offset).collect();
    assert_eq!(offsets, vec![19, 33]);

    let response = joined.into_response();
    assert_eq!(
        response.matches[0].more_context,
        Some(MoreContext {
            line_number: 1,
            line_offset: 19
        })
    );
    assert_eq!(
        response.matches[1].more_context,
        Some(MoreContext {
            line_number: 2,
            line_offset: 0
        })
    );
    assert_eq!(response.matches[1].offset, 33);
    assert_eq!(response.matches[1].message, a_match(0, 4).message);
}

#[test]
fn append_shifts_sentence_ranges() {
    let mut a = with_context("One. Two. ", &[]);
    a.response.sentence_ranges = Some(vec![(0, 4), (5, 9)]);
    let mut b = with_context("Three.", &[]);
    b.response.sentence_ranges = Some(vec![(0, 6)]);
    let mut c = with_context(" Four.", &[1]);
    c.response.sentence_ranges = None;

    let joined = a.append(b).append(c);

    assert_eq!(
        joined.response.sentence_ranges,
        Some(vec![(0, 4), (5, 9), (10, 16)])
    );
    assert_eq!(joined.response.matches[0].offset, 17);

    let mut d = with_context("ab", &[]);
    d.response.sentence_ranges = None;
    let mut e = with_context("cd", &[]);
    e.response.sentence_ranges = Some(vec![(0, 2)]);
    assert_eq!(d.append(e).response.sentence_ranges, Some(vec![(2, 4)]));
}

#[test]
fn append_is_associative_and_not_commutative() {
    let a = || with_context("first\n", &[1, 3]);
    let b = || with_context("second one\n", &[0, 7]);
    let c = || with_context("third", &[2]);

    let left = a().append(b()).append(c());
    let right = a().append(b().append(c()));
    assert_eq!(left, right);
    let offsets: Vec<usize> = left.iter_matches().iter().map(|m| m.offset).collect();
    assert_eq!(offsets, vec![1, 3, 6, 13, 19]);
    assert_eq!(left.text, "first\nsecond one\nthird");

    let swapped = b().append(a());
    let offsets: Vec<usize> = swapped.iter_matches().iter().map(|m| m.offset).collect();
    assert_eq!(offsets, vec![0, 7, 12, 14]);
}

#[test]
fn join_folds_from_left_to_right() {
    let parts = vec![
        with_context("first\n", &[1, 3]),
        with_context("second one\n", &[0, 7]),
        with_context("third", &[2]),
    ];
    assert!(ResponseWithContext::can_join(&parts));
    let by_hand = parts[0]
        .clone()
        .append(parts[1].clone())
        .append(parts[2].clone());

    let joined = ResponseWithContext::join(parts).unwrap();

    assert_eq!(joined, by_hand);
    assert_eq!(joined.text_length, 22);
}

#[test]
fn join_of_one_result_is_that_result() {
    let only = with_context("alone", &[2]);
    let joined = ResponseWithContext::join(vec![only.clone()]).unwrap();
    assert_eq!(joined, only);
}

#[test]
fn join_of_nothing_is_an_error() {
    let error = ResponseWithContext::join(Vec::new()).unwrap_err();
    assert!(matches!(error, Error::InvalidRequest(_)));
}

#[test]
fn offsets_that_would_overflow_cannot_be_shifted() {
    let far = with_context("x", &[usize::MAX - 2]);
    assert!(far.response.fits_shifted(2));
    assert!(!far.response.fits_shifted(3));
    let parts = vec![with_context("four", &[]), far];
    assert!(!ResponseWithContext::can_join(&parts));
}

#[test]
fn response_append_keeps_offsets() {
    let a = a_response(&[3]);
    let b = a_response(&[1, 4]);
    let joined = a.append(b);
    let offsets: Vec<usize> = joined.iter_matches().iter().map(|m| m.offset).collect();
    assert_eq!(offsets, vec![3, 1, 4]);
    assert_eq!(joined.sentence_ranges, None);
}

#[test]
fn recorded_length_is_checked() {
    let mut resp = with_context("héllo", &[]);
    assert!(resp.has_right_length());
    resp.text_length = 6;
    assert!(!resp.has_right_length());
}
