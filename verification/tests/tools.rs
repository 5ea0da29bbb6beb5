use languagetool_rust::api::config::{write_properties, ConfigFile, ConfigValue};
use languagetool_rust::api::words::{LoginArgs, RequestArgs};
use languagetool_rust::cli::{same_text, FileType};
use languagetool_rust::docker::{Action, Docker};
use languagetool_rust::error::{exit_status_error, Error};

#[test]
fn file_type_from_extension() {
    assert_eq!(FileType::from_extension(Some("typ")), FileType::Typst);
    for ext in ["md", "markdown", "mdown", "mdwn", "mkd", "mkdn", "mdx"] {
        assert_eq!(FileType::from_extension(Some(ext)), FileType::Markdown);
    }
    assert_eq!(FileType::from_extension(Some("html")), FileType::Html);
    assert_eq!(FileType::from_extension(Some("htm")), FileType::Html);
    assert_eq!(FileType::from_extension(Some("txt")), FileType::Raw);
    assert_eq!(FileType::from_extension(Some("MD")), FileType::Raw);
    assert_eq!(FileType::from_extension(None), FileType::Raw);
    assert_eq!(FileType::default(), FileType::Auto);
    assert_eq!(FileType::Auto.resolve(Some("md")), FileType::Markdown);
    assert_eq!(FileType::Html.resolve(Some("md")), FileType::Html);
    assert!(same_text("é", "é"));
    assert!(!same_text("md", "mdx"));
}

#[test]
fn error_messages() {
    assert_eq!(
        Error::CommandNotFound("docker".to_string()).message(),
        "command not found: docker"
    );
    assert_eq!(
        Error::ExitStatus("by \"signal\"".to_string()).message(),
        "command failed: \"by \\\"signal\\\"\""
    );
    assert_eq!(
        Error::InvalidDataAnnotation("no text".to_string()).message(),
        "invalid request: no text"
    );
    assert_eq!(
        Error::InvalidFilename("a.txt".to_string()).message(),
        "invalid filename (got 'a.txt', does not exist or is not a file)"
    );
    assert_eq!(
        Error::InvalidRequest("no text".to_string()).message(),
        "invalid request: no text"
    );
    assert_eq!(
        Error::InvalidValue("a\nb".to_string()).message(),
        "invalid value: \"a\\nb\""
    );
    assert_eq!(
        Error::ParseAction("fly".to_string()).message(),
        "could not parse \"fly\" in a Docker action"
    );
}

fn status_text(success: bool, code: Option<i32>) -> Option<String> {
    match exit_status_error(success, code) {
        Ok(()) => None,
        Err(Error::ExitStatus(text)) => Some(text),
        Err(other) => panic!("{}", other.message()),
    }
}

#[test]
fn exit_status_messages() {
    assert_eq!(status_text(true, Some(0)), None);
    assert_eq!(status_text(true, None), None);
    assert_eq!(
        status_text(false, Some(1)),
        Some("Process terminated with exit code: 1".to_string())
    );
    assert_eq!(
        status_text(false, Some(0)),
        Some("Process terminated with exit code: 0".to_string())
    );
    assert_eq!(
        status_text(false, Some(-127)),
        Some("Process terminated with exit code: -127".to_string())
    );
    assert_eq!(
        status_text(false, Some(i32::MIN)),
        Some(format!("Process terminated with exit code: {}", i32::MIN))
    );
    assert_eq!(
        status_text(false, Some(i32::MAX)),
        Some(format!("Process terminated with exit code: {}", i32::MAX))
    );
    assert_eq!(
        status_text(false, None),
        Some("Process terminated by signal".to_string())
    );
}

#[test]
fn docker_commands() {
    let docker = Docker::default();
    assert_eq!(docker.action, Action::Pull);
    assert_eq!(docker.bin, "docker");
    assert_eq!(docker.pull_args(), vec!["pull", "erikvl87/languagetool"]);
    assert_eq!(
        docker.start_args(),
        vec![
            "run",
            "--rm",
            "--name",
            "languagetool",
            "-d",
            "-p",
            "8010:8010",
            "erikvl87/languagetool"
        ]
    );
    assert_eq!(
        docker.find_args(),
        vec!["ps", "-l", "-f", "name=languagetool", "-q"]
    );
    assert_eq!(Docker::container_id("0a1b2c3d4e5f\n"), "0a1b2c3d4e5f");
    assert_eq!(Docker::container_id(" é-1_٣ \r\n"), "é1٣");
    assert_eq!(Docker::kill_args("0a1b"), vec!["kill", "0a1b"]);
}

#[test]
fn property_file() {
    let entries = vec![
        ("blockedReferrers".to_string(), ConfigValue::List(vec![])),
        ("cacheSize".to_string(), ConfigValue::Number("0".to_string())),
        (
            "disableRuleIds".to_string(),
            ConfigValue::List(vec!["\"A\"".to_string(), "\"B\"".to_string()]),
        ),
        (
            "languageModel".to_string(),
            ConfigValue::Text("/data/ngrams".to_string()),
        ),
        ("maxTextLength".to_string(), ConfigValue::Null),
        ("premiumOnly".to_string(), ConfigValue::Bool(false)),
        (
            "spellcheckOnly".to_string(),
            ConfigValue::Table(vec![
                ("lang-tr".to_string(), "\"Turkish\"".to_string()),
                ("lang-tr-dictPath".to_string(), "\"/tr.dic\"".to_string()),
            ]),
        ),
        ("warmUp".to_string(), ConfigValue::Bool(true)),
    ];
    assert_eq!(
        write_properties(&entries),
        "blockedReferrers=\"\"\n\
         cacheSize=0\n\
         disableRuleIds=\"\"A\",\"B\"\"\n\
         languageModel=\"/data/ngrams\"\n\
         # maxTextLength=\n\
         premiumOnly=false\n\
         lang-tr=\"\"Turkish\"\"\n\
         lang-tr-dictPath=\"\"/tr.dic\"\"\n\
         warmUp=true\n"
    );
    assert_eq!(write_properties(&Vec::new()), "");
}

#[test]
fn default_configuration() {
    let config = ConfigFile::default();
    assert_eq!(config.cache_size, Some(0));
    assert_eq!(config.cache_ttl_seconds, Some(300));
    assert_eq!(config.max_text_length, None);
    assert_eq!(config.spellcheck_only, None);
}

#[test]
fn words_request_needs_a_login() {
    let args = RequestArgs::default();
    assert_eq!(args.offset, 0);
    assert_eq!(args.limit, 10);
    assert_eq!(args.clone().into_request(), None);
    let login = LoginArgs {
        username: "me".to_string(),
        api_key: "key".to_string(),
    };
    let request = RequestArgs {
        login: Some(login.clone()),
        ..args
    }
    .into_request()
    .unwrap();
    assert_eq!(request.offset, Some(0));
    assert_eq!(request.limit, Some(10));
    assert_eq!(request.login, login);
    assert_eq!(request.dicts, None);
}
