use bottlerocket_tools::brush::{allowed_program_path, filename, verify_args, ProgramSettings};
use bottlerocket_tools::cloud::{CloudError, S3Uri, SecretsManagerArn, SecretsManagerUri, SsmArn, SsmUri};
use bottlerocket_tools::infiniband::{hex_string_to_u32, CapabilityMask, PortGuid};
use bottlerocket_tools::resolver::{Base64Uri, FileUri, ResolverError, SettingsInput, StdinUri};
use bottlerocket_tools::schnauzer::query_uri;

#[test]
fn guid_and_mask_ignore_surrounding_white_space() {
    let g = "fe80:0000:0000:0000:e09d:7303:003f:3bf8";
    let padded = format!(" \t{}\n ", g);
    assert_eq!(PortGuid::from_str(&padded).unwrap().0, PortGuid::from_str(g).unwrap().0);
    assert_eq!(CapabilityMask::from_str("\n0x400 ").unwrap().0, CapabilityMask::from_str("0x400").unwrap().0);
    assert_eq!(*CapabilityMask::from_str("0x400").unwrap(), 0x400);
}

#[test]
fn hex_prefix_is_optional() {
    for d in ["a750e84a", "0", "ffffffff", "100000000", "xyz", ""] {
        assert_eq!(hex_string_to_u32(&format!("0x{}", d)), hex_string_to_u32(d));
    }
}

#[test]
fn text_sources_accept_disjoint_texts() {
    let texts = [
        "-",
        "base64:QQ==",
        "s3://b/k",
        "arn:aws:secretsmanager:r:a:secret:s",
        "secretsmanager://s",
        "arn:aws:ssm:r:a:parameter/p",
        "ssm://p",
    ];
    for t in texts {
        let input = SettingsInput::new(t);
        let accepted = [
            StdinUri::try_from(&input).is_ok(),
            Base64Uri::try_from(&input).is_ok(),
            S3Uri::try_from(&input).is_ok(),
            SecretsManagerArn::try_from(&input).is_ok(),
            SecretsManagerUri::try_from(&input).is_ok(),
            SsmArn::try_from(&input).is_ok(),
            SsmUri::try_from(&input).is_ok(),
        ];
        assert_eq!(accepted.iter().filter(|a| **a).count(), 1, "{}", t);
    }
}

#[test]
fn named_sources_read_back() {
    let u = SsmUri::try_from(&SettingsInput::new("ssm://a/b:c")).unwrap();
    assert_eq!(u.parameter_name, "a/b:c");
    let u = SecretsManagerUri::try_from(&SettingsInput::new("secretsmanager://x y")).unwrap();
    assert_eq!(u.secret_id, "x y");
    let u = S3Uri::try_from(&SettingsInput::new("s3:///k")).unwrap();
    assert_eq!(u.bucket, "");
    assert_eq!(u.key, "k");
}

#[test]
fn allowed_symlink_keeps_the_file_name() {
    for (dir, program) in [("/allowed", "/usr/sbin/chroot"), ("/allowed/", "true"), ("", "a/b/c")] {
        let (name, path) = allowed_program_path(dir, program).unwrap();
        assert_eq!(filename(&path).unwrap(), name);
    }
}

#[test]
fn required_arguments_in_place_pass() {
    let s = ProgramSettings {
        required_args: Some(vec!["a".to_string(), "b".to_string()]),
        blocked_args: Some(vec!["--z".to_string()]),
    };
    let args: Vec<String> = ["a", "b", "c"].iter().map(|s| s.to_string()).collect();
    assert!(verify_args(Some(&s), "p", &args).is_ok());
    assert!(verify_args(Some(&s), "p", &Vec::new()).is_err());
}

#[test]
fn encoded_query_has_no_unsafe_character() {
    let q = query_uri("/", Some(("k", " \"#<>\u{0}\u{7f}\u{1F600}")));
    let encoded = &q[2..];
    assert!(encoded.chars().all(|c| c.is_ascii_graphic() && !"\"#<>".contains(c)));
}

#[test]
fn cloud_errors_convert() {
    let e: ResolverError = CloudError::SsmUri { input_source: "x".to_string() }.into();
    assert!(matches!(e, ResolverError::Cloud { source: CloudError::SsmUri { .. } }));
}

#[test]
fn url_parsing_is_used() {
    let input = SettingsInput::new("HTTP://Example.com");
    assert_eq!(input.parsed_url.as_ref().unwrap().serialization, "http://example.com/");
    assert!(SettingsInput::new("not a url").parsed_url.is_none());
    let f = FileUri::try_from(&SettingsInput::new("file:///tmp/a%20b")).unwrap();
    assert_eq!(f.path_text().unwrap(), "/tmp/a b");
    let f = FileUri::try_from(&SettingsInput::new("file://localhost/etc/x")).unwrap();
    assert_eq!(f.path_text().unwrap(), "/etc/x");
}

#[test]
fn hex_formatting_reads_back() {
    for v in [0u32, 1, 0xf, 0x10, 0x400, 0xa750e84a, u32::MAX] {
        assert_eq!(hex_string_to_u32(&format!("{:#x}", v)).unwrap(), v);
        assert_eq!(hex_string_to_u32(&format!("{:x}", v)).unwrap(), v);
        assert_eq!(hex_string_to_u32(&format!("0x{:08x}", v)).unwrap(), v);
        assert_eq!(hex_string_to_u32(&format!("{:012x}", v)).unwrap(), v);
    }
}

#[test]
fn repeated_required_argument_needs_each_position() {
    let s = ProgramSettings { required_args: Some(vec!["a".to_string(), "a".to_string()]), blocked_args: None };
    assert!(verify_args(Some(&s), "p", &vec!["a".to_string(), "b".to_string()]).is_err());
    assert!(verify_args(Some(&s), "p", &vec!["a".to_string(), "a".to_string()]).is_ok());
}
