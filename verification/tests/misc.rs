use bottlerocket_tools::models::ConfigurationFile;
use bottlerocket_tools::whippet::{notify_systemd_ready, BrokerChildInitial, WhippetError};

fn config_file(path: &str, overwrite: Option<bool>) -> ConfigurationFile {
    ConfigurationFile {
        path: path.to_string(),
        template_path: "/mock/template.toml".to_string(),
        mode: None,
        overwrite_path_if_present: overwrite,
    }
}

#[test]
fn test_should_render_with_existing_file() {
    // the file exists
    assert!(!config_file("existing_file.conf", Some(false)).should_render(true));
    assert!(config_file("existing_file.conf", Some(true)).should_render(true));
    assert!(config_file("existing_file.conf", None).should_render(true));
}

#[test]
fn test_should_render_with_non_existing_file() {
    let non_existing_file_path = "fake_file.conf";
    let exists = std::path::Path::new(non_existing_file_path).exists();
    assert!(config_file(non_existing_file_path, Some(false)).should_render(exists));
    assert!(config_file(non_existing_file_path, Some(true)).should_render(exists));
    assert!(config_file(non_existing_file_path, None).should_render(exists));
}

#[test]
fn broker_invocation() {
    let child = BrokerChildInitial::new("/usr/bin/dbus-broker").unwrap();
    assert_eq!(child.broker_path, "/usr/bin/dbus-broker");
    let args = child.broker_args(3, 4, " 0123abcd\n");
    assert_eq!(
        args,
        vec![
            "--log", "3", "--controller", "4", "--machine-id", "0123abcd", "--max-bytes", "536870912", "--max-fds",
            "4096", "--max-matches", "16384"
        ]
    );
    assert_eq!(child.broker_args(-7, 0, "")[1], "-7");
}

#[test]
fn readiness_notification() {
    let sent = std::cell::RefCell::new(Vec::new());
    let r = notify_systemd_ready(|m: Vec<u8>| {
        sent.borrow_mut().push(m.clone());
        Ok(m.len())
    });
    assert!(r.is_ok());
    assert_eq!(sent.into_inner(), vec![b"READY=1".to_vec()]);
    match notify_systemd_ready(|_m: Vec<u8>| Err("refused".to_string())) {
        Err(WhippetError::SystemdNotification { message }) => assert_eq!(message, "refused"),
        _ => panic!("expected a notification error"),
    }
}
