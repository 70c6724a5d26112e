use bottlerocket_tools::apply::{apply_requests, collect_changes, format_change, transaction_name, ApplyError};

#[test]
fn toml_settings_become_json() {
    let out = format_change("[settings]\nmotd = \"hi\"\n[settings.kernel]\nlockdown = \"integrity\"\n", "src").unwrap();
    assert_eq!(out, r#"{"kernel":{"lockdown":"integrity"},"motd":"hi"}"#);
}

#[test]
fn json_settings_become_compact_json() {
    let out = format_change(r#"{ "settings": { "motd": "hi", "n": [1, 2] } }"#, "src").unwrap();
    assert_eq!(out, r#"{"motd":"hi","n":[1,2]}"#);
}

#[test]
fn settings_errors() {
    match format_change("motd = \"hi\"\n", "src") {
        Err(ApplyError::MissingSettings { input_source }) => assert_eq!(input_source, "src"),
        r => panic!("unexpected {:?}", r),
    }
    assert!(matches!(format_change(r#"{"other": 1}"#, "src"), Err(ApplyError::MissingSettings { .. })));
    assert!(matches!(format_change("[1, 2]", "src"), Err(ApplyError::ModelType { .. })));
    match format_change("{ not either", "src") {
        Err(ApplyError::InputType { input_source, toml_message, json_message }) => {
            assert_eq!(input_source, "src");
            assert!(!toml_message.is_empty());
            assert!(!json_message.is_empty());
        }
        r => panic!("unexpected {:?}", r),
    }
}

#[test]
fn one_transaction_then_commit() {
    let tx = transaction_name("ab12");
    assert_eq!(tx, "apiclient-apply-ab12");
    let changes = vec![r#"{"motd":"a"}"#.to_string(), r#"{"motd":"b"}"#.to_string()];
    let reqs = apply_requests(&tx, &changes);
    assert_eq!(
        reqs,
        vec![
            ("PATCH".to_string(), "/settings?tx=apiclient-apply-ab12".to_string(), Some(changes[0].clone())),
            ("PATCH".to_string(), "/settings?tx=apiclient-apply-ab12".to_string(), Some(changes[1].clone())),
            ("POST".to_string(), "/tx/commit_and_apply?tx=apiclient-apply-ab12".to_string(), None),
        ]
    );
    assert_eq!(apply_requests("t", &Vec::new()), vec![("POST".to_string(), "/tx/commit_and_apply?tx=t".to_string(), None)]);
}

#[test]
fn first_failure_ends_the_apply() {
    let ok: Vec<Result<String, u8>> = vec![Ok("a".to_string()), Ok("b".to_string())];
    assert_eq!(collect_changes(ok).unwrap(), vec!["a".to_string(), "b".to_string()]);
    let bad: Vec<Result<String, u8>> = vec![Ok("a".to_string()), Err(1), Ok("c".to_string()), Err(2)];
    assert_eq!(collect_changes(bad).unwrap_err(), 1);
    assert_eq!(collect_changes(Vec::<Result<String, u8>>::new()).unwrap(), Vec::<String>::new());
}
