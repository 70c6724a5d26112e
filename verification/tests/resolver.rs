use bottlerocket_tools::cloud::{CloudError, S3Step, S3Uri, SecretsManagerArn, SecretsManagerUri, SsmArn, SsmUri};
use bottlerocket_tools::resolver::{
    select_resolver, ArnFormatReason, Base64DecodeError, Base64Uri, BoundedBody, FileUri, HttpUri, Resolver,
    ResolverError, SettingsInput, StdinUri, MAX_SIZE_BYTES,
};

#[test]
fn base64_uri_decodes_valid_data() {
    let base64_uri = Base64Uri { encoded_data: "SGVsbG8gV29ybGQ=".to_string() };
    let result = base64_uri.resolve().unwrap();
    assert_eq!(result, "Hello World");
}

#[test]
fn base64_uri_fails_on_invalid_base64() {
    let base64_uri = Base64Uri { encoded_data: "not!valid!base64!".to_string() };
    let result = base64_uri.resolve();
    assert!(result.is_err(), "invalid base64 should fail");
    match result {
        Err(ResolverError::Base64Decode { input_source, source }) => {
            assert_eq!(input_source, "base64:not!valid!base64!");
            assert_eq!(source, Base64DecodeError::InvalidByte { offset: 16, byte: b'!' });
        }
        _ => panic!("expected a decoding error"),
    }
}

#[test]
fn base64_uri_fails_on_non_utf8() {
    let base64_uri = Base64Uri { encoded_data: "/w==".to_string() };
    let result = base64_uri.resolve();
    assert!(result.is_err(), "non-UTF8 data should fail");
    match result {
        Err(ResolverError::Utf8Decode { uri }) => assert_eq!(uri, "base64:/w=="),
        _ => panic!("expected a UTF-8 error"),
    }
}

#[test]
fn decoded_text_handles_each_outcome() {
    let u = Base64Uri { encoded_data: "x".to_string() };
    assert_eq!(u.decoded_text(Ok(b"hi".to_vec())).unwrap(), "hi");
    assert!(matches!(u.decoded_text(Ok(vec![0xff])), Err(ResolverError::Utf8Decode { .. })));
    match u.decoded_text(Err(Base64DecodeError::InvalidPadding)) {
        Err(ResolverError::Base64Decode { input_source, source }) => {
            assert_eq!(input_source, "base64:x");
            assert_eq!(source, Base64DecodeError::InvalidPadding);
        }
        _ => panic!("expected a decoding error"),
    }
}

#[test]
fn parse_stdin() {
    assert!(StdinUri::try_from(&SettingsInput::new("-")).is_ok());
    for input in ["", " -", "--"] {
        assert!(StdinUri::try_from(&SettingsInput::new(input)).is_err(), "only `-` should parse as stdin");
    }
}

#[test]
fn parse_file() {
    let uri = FileUri::try_from(&SettingsInput::new("file:///tmp/foo")).expect("should parse file URI");
    assert_eq!(uri.path_text().unwrap(), "/tmp/foo");
    assert_eq!(uri.path, b"/tmp/foo".to_vec());
    for input in ["file_:/", "file://no/leading/slash"] {
        assert!(FileUri::try_from(&SettingsInput::new(input)).is_err(), "invalid file URI should fail");
    }
}

#[test]
fn parse_http() {
    for (input, expected) in [("http://example.com/foo", "http://example.com/foo"), ("https://example.com/bar", "https://example.com/bar")] {
        let uri = HttpUri::try_from(&SettingsInput::new(input)).expect("should parse HTTP URI");
        assert_eq!(uri.url, expected);
    }
    for input in ["ftp://example.com", "http://", "https:// "] {
        assert!(HttpUri::try_from(&SettingsInput::new(input)).is_err(), "invalid HTTP URI should fail");
    }
    // the scheme is compared after parsing, which lower-cases it
    assert!(HttpUri::try_from(&SettingsInput::new("HTTP://example.com/")).is_ok());
}

#[test]
fn parse_s3() {
    let uri = S3Uri::try_from(&SettingsInput::new("s3://bucket/key")).expect("should parse S3 URI");
    assert_eq!(uri.bucket, "bucket");
    assert_eq!(uri.key, "key");
    for input in ["s3://bucket", "s3:/bucket/key", "s3://"] {
        assert!(S3Uri::try_from(&SettingsInput::new(input)).is_err(), "invalid S3 URI should fail");
    }
    assert!(matches!(
        S3Uri::try_from(&SettingsInput::new("s3:/bucket/key")),
        Err(ResolverError::Cloud { source: CloudError::S3UriScheme { .. } })
    ));
    assert!(matches!(
        S3Uri::try_from(&SettingsInput::new("s3://bucket")),
        Err(ResolverError::Cloud { source: CloudError::S3UriMissingKey { .. } })
    ));
    let uri = S3Uri::try_from(&SettingsInput::new("s3://b/dir/sub/file.json")).unwrap();
    assert_eq!(uri.key, "dir/sub/file.json");
}

#[test]
fn parse_s3_special_keys() {
    for key in [
        "🚀⚡️.json",
        "#hashstart.json",
        "@atstart.json",
        "'singlequotes'.json",
        "$dollarstart.json",
        "doublejson.json.json",
        "file with spaces.json",
        "file@#$%^&*.json",
        "fileñ.json",
        "filepunc,;:`.json",
        "?question?marks?.json",
        "fileü漢字.json",
    ] {
        let input = format!("s3://testbucket/{}", key);
        let uri = S3Uri::try_from(&SettingsInput::new(&input)).expect("should parse S3 URI");
        assert_eq!(uri.bucket, "testbucket");
        assert_eq!(uri.key, key);
    }
}

#[test]
fn parse_secretsmanager_arn() {
    let input = "arn:aws:secretsmanager:us-east-1:111122223333:secret:mysecret";
    let uri = SecretsManagerArn::try_from(&SettingsInput::new(input)).expect("should parse SecretsManager ARN");
    assert_eq!(uri.region, "us-east-1");
    assert_eq!(uri.full_arn, input);
    assert!(SecretsManagerArn::try_from(&SettingsInput::new("arn:aws:ssm:us-west-2:123456789012:parameter/myparam")).is_err());
}

#[test]
fn parse_ssm_arn() {
    let input = "arn:aws:ssm:us-west-2:123456789012:parameter/myparam";
    let uri = SsmArn::try_from(&SettingsInput::new(input)).expect("should parse SSM ARN");
    assert_eq!(uri.region, "us-west-2");
    assert_eq!(uri.full_arn, input);
    assert!(SsmArn::try_from(&SettingsInput::new("arn:aws:secretsmanager:us-east-1:111122223333:secret:mysecret")).is_err());
}

#[test]
fn arn_errors() {
    match SsmArn::try_from(&SettingsInput::new("arn:aws:ssm:r:a")) {
        Err(ResolverError::InvalidArnFormat { input_source, reason }) => {
            assert_eq!(input_source, "arn:aws:ssm:r:a");
            assert_eq!(reason, ArnFormatReason::WrongPartCount { expected: 6, found: 5 });
            assert_eq!(reason.message(), "expected 5 ':' separators (6 parts), found 5");
        }
        _ => panic!("expected an ARN format error"),
    }
    match SsmArn::try_from(&SettingsInput::new("arn:aws:ssm")) {
        Err(ResolverError::InvalidArnFormat { reason, .. }) => {
            assert_eq!(reason, ArnFormatReason::TooFewParts { pieces: 3 });
            assert_eq!(reason.message(), "expected at least 4 ':' separators, found 3");
        }
        _ => panic!("expected an ARN format error"),
    }
    match SecretsManagerArn::try_from(&SettingsInput::new("aws:secretsmanager")) {
        Err(ResolverError::InvalidArnFormat { reason, .. }) => {
            assert_eq!(reason, ArnFormatReason::MissingPrefix);
            assert_eq!(reason.message(), "must start with 'arn:aws:'");
        }
        _ => panic!("expected an ARN format error"),
    }
    assert!(matches!(
        SecretsManagerArn::try_from(&SettingsInput::new("arn:aws:ssm:r:a:b:c")),
        Err(ResolverError::Cloud { source: CloudError::SecretsManagerArn { .. } })
    ));
    // the piece count is kept as an i8: 263 pieces count as 7
    let many = format!("arn:aws:secretsmanager:r{}", ":x".repeat(259));
    assert!(SecretsManagerArn::try_from(&SettingsInput::new(&many)).is_ok());
    let many = format!("arn:aws:ssm:r{}", ":x".repeat(196));
    match SsmArn::try_from(&SettingsInput::new(&many)) {
        Err(ResolverError::InvalidArnFormat { reason, .. }) => {
            assert_eq!(reason, ArnFormatReason::WrongPartCount { expected: 6, found: -56 });
            assert_eq!(reason.message(), "expected 5 ':' separators (6 parts), found -56");
        }
        _ => panic!("expected an ARN format error"),
    }
}

#[test]
fn parse_secrets() {
    let uri = SecretsManagerUri::try_from(&SettingsInput::new("secretsmanager://mysecret")).unwrap();
    assert_eq!(uri.secret_id, "mysecret");
    for input in [
        "secretsmanager:/mysecret",
        "secretsmanager://",
        "ssm://mysecret",
        "arn:aws:secretsmanager:us-east-1:111122223333:secret:foo",
    ] {
        assert!(SecretsManagerUri::try_from(&SettingsInput::new(input)).is_err());
    }
}

#[test]
fn parse_ssm() {
    let uri = SsmUri::try_from(&SettingsInput::new("ssm://parameter")).unwrap();
    assert_eq!(uri.parameter_name, "parameter");
    for input in ["ssm:/parameter", "ssm://", "secretsmanager://parameter", "arn:aws:ssm:us-west-2:123:parameter/myparam"] {
        assert!(SsmUri::try_from(&SettingsInput::new(input)).is_err());
    }
}

#[test]
fn parse_base64() {
    let uri = Base64Uri::try_from(&SettingsInput::new("base64:SGVsbG8gV29ybGQ=")).unwrap();
    assert_eq!(uri.encoded_data, "SGVsbG8gV29ybGQ=");
    for input in ["base64", "base64:", "file://data"] {
        assert!(Base64Uri::try_from(&SettingsInput::new(input)).is_err());
    }
}

#[test]
fn resolver_selection_order() {
    let pick = |s: &str| select_resolver(&SettingsInput::new(s));
    assert!(matches!(pick("-"), Ok(Resolver::Stdin(_))));
    assert!(matches!(pick("base64:AAAA"), Ok(Resolver::Base64(_))));
    assert!(matches!(pick("file:///etc/x"), Ok(Resolver::File(_))));
    assert!(matches!(pick("https://example.com/a"), Ok(Resolver::Http(_))));
    assert!(matches!(pick("s3://b/k"), Ok(Resolver::S3(_))));
    assert!(matches!(pick("arn:aws:secretsmanager:us-east-1:1:secret:s"), Ok(Resolver::SecretsManagerArn(_))));
    assert!(matches!(pick("secretsmanager://s"), Ok(Resolver::SecretsManagerUri(_))));
    assert!(matches!(pick("arn:aws:ssm:us-west-2:1:parameter/p"), Ok(Resolver::SsmArn(_))));
    assert!(matches!(pick("ssm://p"), Ok(Resolver::SsmUri(_))));
    match pick("nothing") {
        Err(ResolverError::NoResolver { input_source }) => assert_eq!(input_source, "nothing"),
        _ => panic!("expected no resolver"),
    }
    assert!(matches!(pick("file://host/x"), Err(ResolverError::NoResolver { .. })));
}

#[test]
fn bounded_body_limits() {
    assert!(matches!(
        BoundedBody::new(Some(11), 10, "u"),
        Err(ResolverError::HttpObjectTooLarge { size: 11, max_size: 10, .. })
    ));
    let mut body = BoundedBody::new(Some(10), 10, "u").unwrap();
    assert!(body.push_chunk(b"12345").is_ok());
    assert!(body.push_chunk(b"67890").is_ok());
    match body.push_chunk(b"x") {
        Err(ResolverError::HttpObjectTooLarge { size, max_size, uri }) => {
            assert_eq!(size, 11);
            assert_eq!(max_size, 10);
            assert_eq!(uri, "u");
        }
        _ => panic!("expected the limit to hold"),
    }
    assert_eq!(body.into_bytes(), b"1234567890".to_vec());
    assert_eq!(MAX_SIZE_BYTES, 2 * 1024 * 1024);
}

#[test]
fn s3_object_size_check() {
    let uri = S3Uri { bucket: "b".to_string(), key: "k".to_string() };
    assert_eq!(uri.check_object_size(Some(5)).unwrap(), 5);
    assert!(matches!(uri.check_object_size(None), Err(CloudError::S3MissingContentLength { .. })));
    assert_eq!(uri.check_object_size(Some(MAX_SIZE_BYTES as i64)).unwrap(), MAX_SIZE_BYTES);
    assert!(matches!(
        uri.check_object_size(Some(MAX_SIZE_BYTES as i64 + 1)),
        Err(CloudError::S3ObjectTooLarge { .. })
    ));
    assert!(matches!(uri.check_object_size(Some(-1)), Err(CloudError::S3ObjectTooLarge { size: u64::MAX, .. })));
}

#[test]
fn s3_body_as_text() {
    let uri = S3Uri { bucket: "b".to_string(), key: "dir/k".to_string() };
    assert_eq!(uri.decode_body(b"settings".to_vec()).unwrap(), "settings");
    match uri.decode_body(vec![0xff, 0xfe]) {
        Err(ResolverError::Utf8Decode { uri }) => assert_eq!(uri, "s3://b/dir/k"),
        r => panic!("unexpected {:?}", r),
    }
}

#[test]
fn file_uri_keeps_non_utf8_paths() {
    let uri = FileUri::try_from(&SettingsInput::new("file:///tmp/%FF")).expect("should parse file URI");
    assert_eq!(uri.path, b"/tmp/\xff".to_vec());
    assert!(uri.path_text().is_none());
}

#[test]
fn s3_fetches_only_after_the_size_check() {
    let uri = S3Uri { bucket: "b".to_string(), key: "k".to_string() };
    assert!(matches!(uri.after_head(Some(10)), S3Step::GetObject));
    assert!(matches!(uri.after_head(Some(MAX_SIZE_BYTES as i64)), S3Step::GetObject));
    assert!(matches!(
        uri.after_head(Some(MAX_SIZE_BYTES as i64 + 1)),
        S3Step::Fail(ResolverError::Cloud { source: CloudError::S3ObjectTooLarge { .. } })
    ));
    assert!(matches!(
        uri.after_head(None),
        S3Step::Fail(ResolverError::Cloud { source: CloudError::S3MissingContentLength { .. } })
    ));
}
