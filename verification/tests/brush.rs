use bottlerocket_tools::brush::{
    allowed_program_path, confirm_program, filename, parse_args, same_path, verify_args, BrushError, ProgramSettings,
};

// Helper to build input to parse_args()
fn args_from(s: &[&str]) -> Vec<String> {
    s.iter().map(|s| s.to_string()).collect()
}

// Helper to build return value from parse_args()
fn cmd_from(s: &[&str]) -> (String, Vec<String>) {
    let mut s = s.iter();
    let program = s.next().unwrap().to_string();
    let args = s.map(|s| s.to_string()).collect();
    (program, args)
}

#[test]
fn test_parse_args() {
    let good = args_from(&["sh", "-c", "qwerty --uiop asdf"]);
    let expected = cmd_from(&["qwerty", "--uiop", "asdf"]);
    assert_eq!(parse_args(good).unwrap(), expected);

    let bad = args_from(&["sh", "zxcvb"]);
    assert!(parse_args(bad).is_err());

    let bad = args_from(&["sh", "-c"]);
    assert!(parse_args(bad).is_err());

    let bad = args_from(&["sh", "-c", "querty", "--uiop", "asdf"]);
    assert!(parse_args(bad).is_err());
}

#[test]
fn parse_args_shell_rules() {
    let r = parse_args(args_from(&["sh", "-c", "prog 'a b' \"c\\\"d\" e\\ f # comment"])).unwrap();
    assert_eq!(r, cmd_from(&["prog", "a b", "c\"d", "e f"]));
    assert!(matches!(parse_args(args_from(&["bash", "-c", "x"])), Err(BrushError::FirstArg { .. })));
    assert!(matches!(parse_args(args_from(&["sh", "-x", "x"])), Err(BrushError::SecondArg { .. })));
    assert!(matches!(parse_args(args_from(&["sh", "-c", "   "])), Err(BrushError::NoProgram)));
    assert!(matches!(parse_args(args_from(&["sh"])), Err(BrushError::ArgCount { found: 1 })));
    // malformed shell input is refused
    match parse_args(args_from(&["sh", "-c", "true 'x"])) {
        Err(BrushError::ShellSyntax { input }) => assert_eq!(input, "true 'x"),
        r => panic!("unexpected {:?}", r),
    }
    assert!(matches!(parse_args(args_from(&["sh", "-c", "prog a\\"])), Err(BrushError::ShellSyntax { .. })));
    assert!(matches!(parse_args(args_from(&["sh", "-c", "prog \"a"])), Err(BrushError::ShellSyntax { .. })));
}

#[test]
fn test_filename() {
    assert_eq!(filename("/usr/bin").unwrap(), "bin");
    assert!(filename("/usr/bin/..").is_err());
    assert!(filename("").is_err());
}

#[test]
fn filename_components() {
    assert_eq!(filename("/usr/bin/").unwrap(), "bin");
    assert_eq!(filename("a/./").unwrap(), "a");
    assert_eq!(filename("true").unwrap(), "true");
    assert!(filename("/").is_err());
    assert!(filename(".").is_err());
    assert!(filename("./").is_err());
    assert_eq!(filename("..x").unwrap(), "..x");
}

#[test]
fn allowed_symlink_location() {
    assert_eq!(
        allowed_program_path("/usr/libexec/brush/allowed-programs", "/usr/bin/true").unwrap(),
        ("true".to_string(), "/usr/libexec/brush/allowed-programs/true".to_string())
    );
    assert_eq!(allowed_program_path("/dir/", "x").unwrap().1, "/dir/x");
    assert_eq!(allowed_program_path("", "x").unwrap().1, "x");
    assert!(matches!(allowed_program_path("/dir", ".."), Err(BrushError::FileName { .. })));
}

#[test]
fn program_confirmation() {
    assert_eq!(
        confirm_program("true", "/a/true", Some("/usr/bin/coreutils"), Some("/usr/bin/coreutils")).unwrap(),
        ("/usr/bin/coreutils".to_string(), "true".to_string())
    );
    assert!(confirm_program("true", "/a/true", Some("/usr/bin//coreutils/"), Some("/usr/bin/coreutils")).is_ok());
    assert!(matches!(
        confirm_program("x", "/a/x", None, Some("/b")),
        Err(BrushError::NotFound { .. })
    ));
    assert!(matches!(
        confirm_program("x", "/a/x", Some("/b"), None),
        Err(BrushError::NotAllowed { .. })
    ));
    assert!(matches!(
        confirm_program("cnitool", "/a/cnitool", Some("/usr/bin/cnitool"), Some("/opt/cni/bin/cnitool")),
        Err(BrushError::Mismatch { .. })
    ));
    assert!(same_path("/a/./b", "/a/b"));
    assert!(!same_path("a/b", "/a/b"));
    assert!(!same_path("./a", "a"));
    assert!(!same_path("/a/../b", "/b"));
}

fn settings(required: Option<&[&str]>, blocked: Option<&[&str]>) -> ProgramSettings {
    ProgramSettings { required_args: required.map(args_from), blocked_args: blocked.map(args_from) }
}

#[test]
fn test_verify_args() {
    let arg0 = filename("foo").unwrap();
    let args = args_from(&["bar", "--debug"]);

    // With no config file, any arguments are allowed.
    assert!(verify_args(None, &arg0, &args).is_ok());

    let config = settings(Some(&["baz"]), None);
    // The first argument is "bar", not "baz".
    assert!(verify_args(Some(&config), &arg0, &args).is_err());
    // No arguments are provided, and "bar" must be first.
    assert!(verify_args(Some(&config), &arg0, &Vec::new()).is_err());

    let config = settings(Some(&["bar"]), None);
    // The first argument is "bar", which is now required.
    assert!(verify_args(Some(&config), &arg0, &args).is_ok());

    let config = settings(Some(&["baz", "bar"]), None);
    // The first argument is "bar", but it must be the second argument.
    assert!(verify_args(Some(&config), &arg0, &args).is_err());

    let config = settings(None, Some(&["--debug"]));
    // The "--debug" argument must not be present.
    assert!(verify_args(Some(&config), &arg0, &args).is_err());
    // The same command works without that argument.
    assert!(verify_args(Some(&config), &arg0, &Vec::new()).is_ok());

    let config = settings(None, Some(&["--trace"]));
    // Other arguments are allowed, just not "--trace".
    assert!(verify_args(Some(&config), &arg0, &args).is_ok());
}

#[test]
fn verify_args_reports_each_argument_once() {
    let args = args_from(&["x", "--debug", "--debug"]);
    match verify_args(Some(&settings(Some(&["a", "a", "x", "x"]), Some(&["--debug"]))), "foo", &args) {
        Err(BrushError::MissingRequiredArgs { program, missing }) => {
            assert_eq!(program, "foo");
            assert_eq!(missing, vec!["a".to_string(), "x".to_string()]);
        }
        r => panic!("unexpected {:?}", r),
    }
    match verify_args(Some(&settings(Some(&["x"]), Some(&["--debug", "--debug"]))), "foo", &args) {
        Err(BrushError::BlockedArgs { program, found }) => {
            assert_eq!(program, "foo");
            assert_eq!(found, vec!["--debug".to_string()]);
        }
        r => panic!("unexpected {:?}", r),
    }
    // a repeated required argument must stand at each of its positions
    match verify_args(Some(&settings(Some(&["a", "a"]), None)), "foo", &args_from(&["a", "b"])) {
        Err(BrushError::MissingRequiredArgs { missing, .. }) => assert_eq!(missing, vec!["a".to_string()]),
        r => panic!("unexpected {:?}", r),
    }
    assert!(verify_args(Some(&settings(Some(&["a", "a"]), None)), "foo", &args_from(&["a", "a", "b"])).is_ok());
    // required arguments in the wrong order are missing
    assert!(verify_args(Some(&settings(Some(&["a", "b"]), None)), "foo", &args_from(&["b", "a"])).is_err());
}

#[test]
fn verify_program_decisions() {
    // allowed programs whose symlinks resolve to the program found
    for allowed in ["true", "false", "chroot"] {
        let (path, arg0) =
            confirm_program(allowed, "/allowed/x", Some("/usr/bin/coreutils"), Some("/usr/bin/coreutils")).unwrap();
        assert_eq!(path, "/usr/bin/coreutils");
        assert_eq!(arg0, allowed);
    }
    // found, but no allowing symlink
    for not_allowed in ["rm", "date"] {
        assert!(matches!(
            confirm_program(not_allowed, "/allowed/x", Some("/usr/bin/coreutils"), None),
            Err(BrushError::NotAllowed { .. })
        ));
    }
    // not in the search paths
    assert!(matches!(
        confirm_program("cnitool", "/allowed/cnitool", None, Some("/opt/cni/bin/cnitool")),
        Err(BrushError::NotFound { .. })
    ));
    assert!(confirm_program("cnitool", "/allowed/cnitool", Some("/opt/cni/bin/cnitool"), Some("/opt/cni/bin/cnitool")).is_ok());
    // found elsewhere than where the symlink points
    assert!(matches!(
        confirm_program("cnitool", "/allowed/cnitool", Some("/usr/bin/cnitool"), Some("/opt/cni/bin/cnitool")),
        Err(BrushError::Mismatch { .. })
    ));
}
