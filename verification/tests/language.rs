use languagetool_rust::api::check::{join_option_vec_string, parse_language_code, Level};
use languagetool_rust::error::Error;

#[test]
fn parse_language_code_accepts_codes() {
    assert_eq!(parse_language_code("en").unwrap(), "en");
    assert_eq!(parse_language_code("en-US").unwrap(), "en-US");
    assert_eq!(parse_language_code("en-us").unwrap(), "en-us");
    assert_eq!(parse_language_code("ca-ES-valencia").unwrap(), "ca-ES-valencia");
    assert_eq!(parse_language_code("ast").unwrap(), "ast");
    assert_eq!(parse_language_code("auto").unwrap(), "auto");
    assert_eq!(parse_language_code("de-DE-x-simple").unwrap(), "de-DE-x-simple");
}

#[test]
fn parse_language_code_refuses_other_texts() {
    for wrong in [
        "abcd",
        "en_US",
        "fr-french",
        "some random text",
        "",
        "e",
        "-",
        "en-",
        "en-U",
        "en-US-",
        "en--US",
        "e1",
        "en-U5",
        "en-US-val3ncia",
        "én",
        "autos",
        "Auto",
    ] {
        let error = parse_language_code(wrong).unwrap_err();
        assert!(matches!(error, Error::InvalidValue(_)), "{}", wrong);
    }
}

fn json_with_values(values: Option<Vec<&str>>) -> String {
    let values: Option<Vec<String>> = values.map(|v| v.iter().map(|s| s.to_string()).collect());
    let mut map = serde_json::Map::new();
    map.insert(
        "values".to_string(),
        match join_option_vec_string(&values) {
            Some(joined) => serde_json::Value::String(joined),
            None => serde_json::Value::Null,
        },
    );
    serde_json::to_string(&serde_json::Value::Object(map)).unwrap()
}

#[test]
fn check_test_serialize_option_vec_string() {
    let got = json_with_values(Some(vec!["en-US", "de-DE"]));
    assert_eq!(got, r#"{"values":"en-US,de-DE"}"#);

    let got = json_with_values(Some(vec!["en-US"]));
    assert_eq!(got, r#"{"values":"en-US"}"#);

    let got = json_with_values(Some(vec![]));
    assert_eq!(got, r#"{"values":null}"#);

    let got = json_with_values(None);
    assert_eq!(got, r#"{"values":null}"#);
}

#[test]
fn mod_test_serialize_option_vec_string() {
    let got = json_with_values(Some(vec!["en-US", "de-DE"]));
    assert_eq!(got, r#"{"values":"en-US,de-DE"}"#);

    let got = json_with_values(Some(vec!["en-US"]));
    assert_eq!(got, r#"{"values":"en-US"}"#);

    let got = json_with_values(Some(vec![]));
    assert_eq!(got, r#"{"values":null}"#);

    let got = json_with_values(None);
    assert_eq!(got, r#"{"values":null}"#);
}

#[test]
fn join_keeps_empty_strings() {
    let values = Some(vec!["".to_string(), "a".to_string(), "".to_string()]);
    assert_eq!(join_option_vec_string(&values), Some(",a,".to_string()));
}

#[test]
fn default_level_is_default() {
    let level: Level = Default::default();
    assert!(level.is_default());
    assert!(!Level::Picky.is_default());
}
