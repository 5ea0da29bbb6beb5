use languagetool_rust::api::check::{Data, DataAnnotation};

#[derive(Debug)]
enum Token<'source> {
    Text(&'source str),
    Skip(&'source str),
}

impl<'source> From<&'source str> for Token<'source> {
    fn from(s: &'source str) -> Self {
        if s.chars().all(|c| c.is_ascii_alphabetic()) {
            Token::Text(s)
        } else {
            Token::Skip(s)
        }
    }
}

impl<'source> From<Token<'source>> for DataAnnotation {
    fn from(token: Token<'source>) -> Self {
        match token {
            Token::Text(s) => DataAnnotation::new_text(s),
            Token::Skip(s) => DataAnnotation::new_markup(s),
        }
    }
}

fn data_of_words(sentence: &str) -> Data {
    let words: Vec<&str> = sentence.split(' ').collect();
    let annotation: Vec<DataAnnotation> = words
        .iter()
        .map(|w| DataAnnotation::from(Token::from(*w)))
        .collect();
    Data::from(annotation)
}

#[test]
fn check_test_text() {
    let da = DataAnnotation::new_text("Hello");

    assert_eq!(da.text.unwrap(), "Hello");
    assert!(da.markup.is_none());
    assert!(da.interpret_as.is_none());
}

#[test]
fn check_test_markup() {
    let da = DataAnnotation::new_markup("<a>Hello</a>");

    assert!(da.text.is_none());
    assert_eq!(da.markup.unwrap(), "<a>Hello</a>");
    assert!(da.interpret_as.is_none());
}

#[test]
fn check_test_interpreted_markup() {
    let da = DataAnnotation::new_interpreted_markup("<a>Hello</a>", "Hello");

    assert!(da.text.is_none());
    assert_eq!(da.markup.unwrap(), "<a>Hello</a>");
    assert_eq!(da.interpret_as.unwrap(), "Hello");
}

#[test]
fn data_annotations_test_text() {
    let da = DataAnnotation::new_text("Hello");

    assert_eq!(da.text.unwrap(), "Hello");
    assert!(da.markup.is_none());
    assert!(da.interpret_as.is_none());
}

#[test]
fn data_annotations_test_markup() {
    let da = DataAnnotation::new_markup("<a>Hello</a>");

    assert!(da.text.is_none());
    assert_eq!(da.markup.unwrap(), "<a>Hello</a>");
    assert!(da.interpret_as.is_none());
}

#[test]
fn data_annotations_test_interpreted_markup() {
    let da = DataAnnotation::new_interpreted_markup("<a>Hello</a>", "Hello");

    assert!(da.text.is_none());
    assert_eq!(da.markup.unwrap(), "<a>Hello</a>");
    assert_eq!(da.interpret_as.unwrap(), "Hello");
}

#[test]
fn check_test_data_annotation() {
    let data = data_of_words("My name is Q34XY");

    let expected_data = Data {
        annotation: vec![
            DataAnnotation::new_text("My"),
            DataAnnotation::new_text("name"),
            DataAnnotation::new_text("is"),
            DataAnnotation::new_markup("Q34XY"),
        ],
    };

    assert_eq!(data, expected_data);
}

#[test]
fn data_annotations_test_data_annotation() {
    let data = data_of_words("My name is Q34XY");

    let expected_data = Data {
        annotation: vec![
            DataAnnotation::new_text("My"),
            DataAnnotation::new_text("name"),
            DataAnnotation::new_text("is"),
            DataAnnotation::new_markup("Q34XY"),
        ],
    };

    assert_eq!(data, expected_data);
}

#[test]
fn test_try_get_text() {
    const TEXT: &str = "Lorem Ipsum";
    assert_eq!(
        DataAnnotation::new_text(TEXT).try_get_text().unwrap(),
        TEXT.to_string()
    );
    assert_eq!(
        DataAnnotation::new_markup(TEXT).try_get_text().unwrap(),
        TEXT.to_string()
    );
    assert!((DataAnnotation {
        text: None,
        markup: None,
        interpret_as: None
    })
    .try_get_text()
    .is_err());
}

fn document() -> Data {
    Data::from(vec![
        DataAnnotation::new_text("Hello.\n"),
        DataAnnotation::new_markup("<b>"),
        DataAnnotation::new_text("World.\n"),
        DataAnnotation::new_text("Again.\n"),
        DataAnnotation::new_text("End"),
    ])
}

fn lengths(split: &[Data]) -> Vec<usize> {
    split.iter().map(|d| d.annotation.len()).collect()
}

fn put_together(split: Vec<Data>) -> Data {
    Data::from(
        split
            .into_iter()
            .flat_map(|d| d.annotation)
            .collect::<Vec<DataAnnotation>>(),
    )
}

#[test]
fn data_split_cuts_behind_annotations_with_the_pattern() {
    let split = document().split(20, "\n");
    assert_eq!(lengths(&split), vec![3, 2]);
    assert_eq!(split[0].annotation[1], DataAnnotation::new_markup("<b>"));
    assert_eq!(split[1].annotation[1], DataAnnotation::new_text("End"));
    assert_eq!(put_together(split), document());
}

#[test]
fn data_split_fills_documents_up_to_the_limit() {
    // The breakpoints lie 7, 17 and 24 characters into the document.
    assert_eq!(lengths(&document().split(16, "\n")), vec![1, 2, 2]);
    assert_eq!(lengths(&document().split(17, "\n")), vec![3, 2]);
    assert_eq!(lengths(&document().split(23, "\n")), vec![3, 2]);
    assert_eq!(lengths(&document().split(24, "\n")), vec![5]);
    // A document that cannot be cut small enough is cut wherever it can.
    assert_eq!(lengths(&document().split(0, "\n")), vec![1, 2, 2]);
    for n in 0..30 {
        assert_eq!(put_together(document().split(n, "\n")), document());
    }
}

#[test]
fn data_split_keeps_a_document_within_the_limit_whole() {
    assert_eq!(document().split(27, "\n"), vec![document()]);
    assert_eq!(document().split(30, "\n"), vec![document()]);
    let lines = Data::from(vec![
        DataAnnotation::new_text("a\n"),
        DataAnnotation::new_text("b\n"),
        DataAnnotation::new_text("c\n"),
    ]);
    assert_eq!(lines.clone().split(7, "\n"), vec![lines.clone()]);
    assert_eq!(lines.clone().split(6, "\n"), vec![lines.clone()]);
    assert_eq!(lengths(&lines.clone().split(5, "\n")), vec![2, 1]);
    assert_eq!(lengths(&lines.split(3, "\n")), vec![1, 1, 1]);
    let two = Data::from(vec![
        DataAnnotation::new_text("\nabb"),
        DataAnnotation::new_text("a\n"),
    ]);
    assert_eq!(two.clone().split(9, "\n"), vec![two.clone()]);
    assert_eq!(lengths(&two.split(5, "\n")), vec![1, 1]);
}

#[test]
fn data_split_with_room_keeps_the_document_whole() {
    let split = document().split(100, "\n");
    assert_eq!(split, vec![document()]);
}

#[test]
fn data_split_without_breakpoints_keeps_the_document_whole() {
    assert_eq!(document().split(1, "\n\n"), vec![document()]);
    let one = Data::from(vec![
        DataAnnotation::new_text("Only one\n"),
        DataAnnotation::new_text("line feed"),
    ]);
    assert_eq!(one.clone().split(1, "\n"), vec![one]);
    let empty = Data::default();
    assert_eq!(empty.clone().split(1, "\n"), vec![empty]);
}

#[test]
fn data_split_ignores_the_pattern_in_markup() {
    let data = Data::from(vec![
        DataAnnotation::new_markup("<br>\n"),
        DataAnnotation::new_markup("<br>\n"),
        DataAnnotation::new_interpreted_markup("<p>\n", "\n\n"),
        DataAnnotation::new_text("text"),
    ]);
    assert_eq!(data.clone().split(1, "\n"), vec![data]);
}

#[test]
fn annotation_length_counts_text_and_markup() {
    assert_eq!(DataAnnotation::new_text("Hello.\n").char_count(), 7);
    assert_eq!(
        DataAnnotation::new_interpreted_markup("<é>", "e").char_count(),
        3
    );
    let both = DataAnnotation {
        text: Some("ab".to_string()),
        markup: Some("<c>".to_string()),
        interpret_as: None,
    };
    assert_eq!(both.char_count(), 5);
    assert_eq!(DataAnnotation::default().char_count(), 0);
}

#[test]
fn data_annotation_copies_are_equal() {
    let data = document();
    assert_eq!(data.clone(), data);
}

#[test]
fn try_get_text_says_what_is_missing() {
    let error = |interpret_as: Option<&str>| {
        DataAnnotation {
            text: None,
            markup: None,
            interpret_as: interpret_as.map(|s| s.to_string()),
        }
        .try_get_text()
        .unwrap_err()
        .message()
    };
    assert_eq!(
        error(None),
        "invalid request: missing either text or markup field in DataAnnotation { text: None, \
         markup: None, interpret_as: None }"
    );
    assert_eq!(
        error(Some("a \"b\"\n")),
        "invalid request: missing either text or markup field in DataAnnotation { text: None, \
         markup: None, interpret_as: Some(\"a \\\"b\\\"\\n\") }"
    );
}
