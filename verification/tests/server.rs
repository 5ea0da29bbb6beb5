use languagetool_rust::api::check::{
    Category, Context, DetectedLanguage, LanguageResponse, Match, Replacement, Response, Rule,
    Software,
};
use languagetool_rust::api::server::{
    gather, is_overloaded, GatherError, RetryPolicy, ServerCli, ServerClient, ServerParameters,
    OVERLOADED,
};
use languagetool_rust::error::Error;

fn a_match(replacements: &[&str]) -> Match {
    Match {
        context: Context {
            length: 4,
            offset: 19,
            text: "Some phrase with a smal mistake.".to_string(),
        },
        length: 4,
        message: "Possible spelling mistake found.".to_string(),
        more_context: None,
        offset: 19,
        replacements: replacements
            .iter()
            .map(|r| Replacement::new(r.to_string()))
            .collect(),
        rule: Rule {
            category: Category {
                id: "TYPOS".to_string(),
                name: "Possible Typo".to_string(),
            },
            description: "Possible spelling mistake".to_string(),
            id: "MORFOLOGIK_RULE_EN_US".to_string(),
            issue_type: "misspelling".to_string(),
            sub_id: None,
            urls: None,
        },
        sentence: "Some phrase with a smal mistake.".to_string(),
        short_message: "Spelling mistake".to_string(),
        type_: None,
    }
}

fn a_response(matches: Vec<Match>) -> Response {
    Response {
        language: LanguageResponse {
            code: "en-US".to_string(),
            detected_language: DetectedLanguage {
                code: "en-US".to_string(),
                name: "English (US)".to_string(),
            },
            name: "English (US)".to_string(),
        },
        matches,
        sentence_ranges: None,
        software: Software {
            api_version: 1,
            build_date: "2024-01-01".to_string(),
            name: "LanguageTool".to_string(),
            premium: false,
            status: "".to_string(),
            version: "6.4".to_string(),
        },
        warnings: None,
    }
}

fn values(m: &Match) -> Vec<&str> {
    m.replacements.iter().map(|r| r.value.as_str()).collect()
}

#[test]
fn client_address() {
    assert_eq!(
        ServerClient::new("http://localhost", "8081").api,
        "http://localhost:8081/v2"
    );
    assert_eq!(
        ServerClient::new("https://api.languagetoolplus.com", "").api,
        "https://api.languagetoolplus.com/v2"
    );
    let client = ServerClient::from_cli(ServerCli::default());
    assert_eq!(client.api, "https://api.languagetoolplus.com/v2");
    assert_eq!(client.max_suggestions, -1);
    assert_eq!(
        client.endpoint("check"),
        "https://api.languagetoolplus.com/v2/check"
    );
    assert_eq!(client.with_max_suggestions(5).max_suggestions, 5);
}

#[test]
fn server_cli_from_values() {
    let cli = ServerCli::from_values_or_default(
        Some("http://localhost".to_string()),
        Some("8081".to_string()),
    );
    assert_eq!(cli.hostname, "http://localhost");
    assert_eq!(cli.port, "8081");
    assert_eq!(
        ServerCli::from_values_or_default(Some("http://localhost".to_string()), None),
        ServerCli::default()
    );
    assert_eq!(ServerCli::default().port, "");
    assert_eq!(ServerParameters::default().port, "8081");
}

#[test]
fn limit_suggestions_says_how_many_are_not_shown() {
    let many = ["a", "b", "c", "d", "e", "f", "g", "h", "i", "j", "k", "l", "m"];
    let response = a_response(vec![a_match(&many), a_match(&["x", "y"]), a_match(&[])]);

    let client = ServerClient::new("http://localhost", "").with_max_suggestions(2);
    let limited = client.limit_suggestions(response.clone());
    assert_eq!(values(&limited.matches[0]), vec!["a", "b", "... (11 not shown)"]);
    assert_eq!(values(&limited.matches[1]), vec!["x", "y"]);
    assert_eq!(values(&limited.matches[2]), Vec::<&str>::new());
    assert_eq!(limited.matches[0].message, response.matches[0].message);

    let client = client.with_max_suggestions(1);
    let limited = client.limit_suggestions(response.clone());
    assert_eq!(values(&limited.matches[0]), vec!["a", "... (12 not shown)"]);
    assert_eq!(values(&limited.matches[1]), vec!["x", "... (1 not shown)"]);

    let client = client.with_max_suggestions(13);
    assert_eq!(client.limit_suggestions(response.clone()), response);
}

#[test]
fn limit_suggestions_keeps_all_without_a_limit() {
    let response = a_response(vec![a_match(&["a", "b", "c"])]);
    let client = ServerClient::new("http://localhost", "");
    assert_eq!(client.limit_suggestions(response.clone()), response);
    let client = client.with_max_suggestions(0);
    assert_eq!(client.limit_suggestions(response.clone()), response);
}

#[test]
fn annotate_without_matches() {
    let response = a_response(vec![]);
    assert!(response.is_drawable("Some text."));
    assert_eq!(
        response.annotate("Some text.", None, false),
        "No errors were found in provided text"
    );
}

#[test]
fn annotate_draws_each_match() {
    let text = "First line.\nSome phrase with a smal mistake.";
    let mut second = a_match(&["small", "smell"]);
    second.offset = 31;
    let response = a_response(vec![second.clone()]);
    assert!(response.is_drawable(text));

    let drawn = response.annotate(text, Some("letter.txt"), false);

    assert!(drawn.starts_with("error[MORFOLOGIK_RULE_EN_US]: Possible spelling mistake found."));
    assert!(drawn.contains("letter.txt:2:20"));
    assert!(drawn.contains("2 | Some phrase with a smal mistake."));
    assert!(drawn.contains("^^^^ Possible spelling mistake"));
    assert!(drawn.contains("---- help: small, smell"));

    let mut first = a_match(&[]);
    first.offset = 3;
    let both = a_response(vec![first.clone(), second]);
    let first_alone = a_response(vec![first]).annotate(text, Some("letter.txt"), false);
    assert!(first_alone.contains("1 | Some phrase with a smal mistake."));
    assert_eq!(
        both.annotate(text, Some("letter.txt"), false),
        format!("{}\n{}", first_alone, drawn)
    );
}

#[test]
fn annotate_needs_the_mark_within_the_context() {
    let mut wrong = a_match(&[]);
    wrong.context.offset = 30;
    assert!(!a_response(vec![wrong]).is_drawable("Some phrase with a smal mistake."));
}

#[test]
fn gather_keeps_the_order_of_the_requests() {
    let answers: Vec<(Option<String>, Result<Response, String>)> = vec![
        (Some("first\n".to_string()), Ok(a_response(vec![a_match(&["a"])]))),
        (Some("second".to_string()), Ok(a_response(vec![]))),
    ];
    let results = gather(answers).unwrap();
    assert_eq!(results.len(), 2);
    assert_eq!(results[0].text, "first\n");
    assert_eq!(results[0].text_length, 6);
    assert_eq!(results[0].response, a_response(vec![a_match(&["a"])]));
    assert_eq!(results[1].text, "second");
    assert_eq!(results[1].response, a_response(vec![]));
}

#[test]
fn gather_reports_the_first_failure() {
    let none: Vec<(Option<String>, Result<Response, String>)> = Vec::new();
    let reason = gather(none).unwrap_err();
    assert!(matches!(reason, GatherError::NoRequest));
    match reason.into_error() {
        Ok(Error::InvalidRequest(text)) => {
            assert_eq!(text, "no request; cannot join zero request")
        },
        _ => panic!("another error was expected"),
    }

    let answers: Vec<(Option<String>, Result<Response, String>)> = vec![
        (Some("first".to_string()), Ok(a_response(vec![]))),
        (None, Err("second failed".to_string())),
        (None, Ok(a_response(vec![]))),
        (Some("fourth".to_string()), Err("fourth failed".to_string())),
    ];
    match gather(answers) {
        Err(GatherError::Failed(e)) => assert_eq!(e, "second failed"),
        _ => panic!("another error was expected"),
    }

    let answers: Vec<(Option<String>, Result<Response, String>)> = vec![
        (Some("first".to_string()), Ok(a_response(vec![]))),
        (None, Ok(a_response(vec![]))),
        (Some("third".to_string()), Err("third failed".to_string())),
    ];
    let reason = gather(answers).unwrap_err();
    assert!(matches!(reason, GatherError::MissingText));
    match reason.into_error() {
        Ok(Error::InvalidRequest(text)) => assert_eq!(
            text,
            "missing text field; cannot join requests with data annotations"
        ),
        _ => panic!("another error was expected"),
    }
}

#[test]
fn only_an_overloaded_server_is_asked_again() {
    let overloaded = Error::InvalidRequest(OVERLOADED.to_string());
    let other = Error::InvalidRequest("Error: text too long".to_string());
    let another = Error::InvalidValue(OVERLOADED.to_string());
    assert!(is_overloaded(&overloaded));
    assert!(!is_overloaded(&other));
    assert!(!is_overloaded(&another));

    let twice = RetryPolicy {
        max_retries: Some(2),
    };
    assert!(twice.should_retry(&overloaded, 0));
    assert!(twice.should_retry(&overloaded, 1));
    assert!(!twice.should_retry(&overloaded, 2));
    assert!(!twice.should_retry(&other, 0));
    let always = RetryPolicy { max_retries: None };
    assert!(always.should_retry(&overloaded, usize::MAX));
    assert!(!always.should_retry(&other, 0));
    assert!(!RetryPolicy::never().should_retry(&overloaded, 0));
}
