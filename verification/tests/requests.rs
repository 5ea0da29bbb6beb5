use languagetool_rust::api::check::{Data, DataAnnotation, Request};

#[test]
fn check_test_with_text() {
    let req = Request::default().with_text("hello");

    assert_eq!(req.text.unwrap(), "hello");
    assert!(req.data.is_none());
}

#[test]
fn check_test_with_data() {
    let req = Request::default().with_text("hello");

    assert_eq!(req.text.unwrap(), "hello");
    assert!(req.data.is_none());
}

#[test]
fn requests_test_with_text() {
    let req = Request::default().with_text("hello");

    assert_eq!(req.text.unwrap(), "hello");
    assert!(req.data.is_none());
}

#[test]
fn requests_test_with_data() {
    let req = Request::default().with_data(Data::from(vec![DataAnnotation::new_text("hello")]));

    assert_eq!(
        req.data.unwrap().annotation[0],
        DataAnnotation::new_text("hello")
    );
}

#[test]
fn test_with_language() {
    assert_eq!(
        Request::default().with_language("en-US".into()).language,
        "en-US".to_string()
    );
}

#[test]
fn new_request_asks_for_automatic_language() {
    let req = Request::new();
    assert_eq!(req.language, "auto");
    assert_eq!(Request::default().language, "");
    assert_eq!(Request::new().with_language("fr".to_string()), {
        let mut expected = Request::default();
        expected.language = "fr".to_string();
        expected
    });
}

#[test]
fn with_text_and_with_data_exclude_each_other() {
    let data = Data::from(vec![DataAnnotation::new_text("hello")]);
    let req = Request::default().with_text("hello").with_data(data.clone());
    assert!(req.text.is_none());
    assert_eq!(req.data, Some(data.clone()));
    let req = req.with_text("again");
    assert_eq!(req.text.unwrap(), "again");
    assert!(req.data.is_none());
}

#[test]
fn get_text_prefers_text_and_reads_data() {
    let data = Data::from(vec![
        DataAnnotation::new_text("A "),
        DataAnnotation::new_markup("<b>"),
        DataAnnotation::new_text("test"),
        DataAnnotation::new_interpreted_markup("</b>", ""),
    ]);
    let req = Request::default().with_data(data.clone());
    assert_eq!(req.try_get_text().unwrap(), "A <b>test</b>");
    assert_eq!(req.get_text(), "A <b>test</b>");
    assert_eq!(Request::default().with_data(Data::default()).get_text(), "");

    let mut both = Request::default().with_data(data);
    both.text = Some("text".to_string());
    assert_eq!(both.get_text(), "text");
}

#[test]
fn get_text_reports_an_annotation_without_text() {
    let data = Data::from(vec![
        DataAnnotation::new_text("fine"),
        DataAnnotation {
            text: None,
            markup: None,
            interpret_as: Some("nothing".to_string()),
        },
    ]);
    let error = Request::default()
        .with_data(data)
        .try_get_text()
        .unwrap_err();
    assert!(matches!(
        error,
        languagetool_rust::error::Error::InvalidDataAnnotation(_)
    ));
}

#[test]
fn try_split_splits_the_text() {
    let req = Request::new()
        .with_language("en-US".to_string())
        .with_text("One.\nTwo.\nThree.\n");
    let split = req.clone().try_split(8, "\n").unwrap();
    let texts: Vec<String> = split.iter().map(|r| r.get_text()).collect();
    assert_eq!(texts, vec!["One.\n", "Two.\n", "Three.\n"]);
    for part in split.iter() {
        assert_eq!(part.language, "en-US");
        assert!(part.data.is_none());
        assert_eq!(part.clone().with_text("One.\nTwo.\nThree.\n"), req);
    }
    assert_eq!(req.clone().split(11, "\n").len(), 2);
    assert_eq!(req.clone().with_text("").split(11, "\n").len(), 0);
}

#[test]
fn try_split_splits_the_data() {
    let data = Data::from(vec![
        DataAnnotation::new_text("Hello.\n"),
        DataAnnotation::new_markup("<b>"),
        DataAnnotation::new_text("World.\n"),
        DataAnnotation::new_text("Again.\n"),
        DataAnnotation::new_text("End"),
    ]);
    let mut req = Request::new().with_data(data);
    req.text = Some("ignored".to_string());
    let split = req.clone().try_split(16, "\n").unwrap();
    let texts: Vec<String> = split.iter().map(|r| r.get_text()).collect();
    assert_eq!(texts, vec!["Hello.\n", "<b>World.\n", "Again.\nEnd"]);
    let split = req.try_split(20, "\n").unwrap();
    assert_eq!(split.len(), 2);
    let texts: Vec<String> = split.iter().map(|r| r.get_text()).collect();
    assert_eq!(texts, vec!["Hello.\n<b>World.\n", "Again.\nEnd"]);
    for part in split.iter() {
        assert!(part.text.is_none());
        assert_eq!(part.language, "auto");
    }
}

#[test]
fn try_split_needs_text_or_data() {
    let error = Request::new().try_split(10, "\n").unwrap_err();
    assert!(matches!(
        error,
        languagetool_rust::error::Error::InvalidRequest(_)
    ));
}
