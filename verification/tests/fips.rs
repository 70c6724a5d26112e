use bottlerocket_tools::fips::{
    CheckStatus, FIPS01000000Checker, FIPS01010000Checker, FIPS01020000Checker, Mode, SystemFiles,
    CRYPTO_FIPS_ENABLED, CRYPTO_FIPS_NAME, EXPECTED_FIPS_ENABLED, EXPECTED_FIPS_NAME, FIPS_KERNEL_CHECK_MARKER,
    FIPS_MODULE_CHECK_MARKER,
};

#[test]
pub fn test_fips01000000checker_missing_file() {
    let usac = SystemFiles::default();
    let checker = FIPS01000000Checker {};
    let result = checker.execute(&usac);
    // skip the test if /proc/sys/crypto/fips_enabled is missing
    assert_eq!(result.status, CheckStatus::SKIP);
}

#[test]
pub fn test_fips01000000checker_fips_disabled() {
    let mut usac = SystemFiles::default();
    usac.register_file(CRYPTO_FIPS_ENABLED, "0");
    let checker = FIPS01000000Checker {};
    let result = checker.execute(&usac);
    assert_eq!(result.status, CheckStatus::FAIL);
}

#[test]
pub fn test_fips01000000checker_fips_enabled() {
    let mut usac = SystemFiles::default();
    usac.register_file(CRYPTO_FIPS_ENABLED, EXPECTED_FIPS_ENABLED);
    let checker = FIPS01000000Checker {};
    let result = checker.execute(&usac);
    assert_eq!(result.status, CheckStatus::PASS);
}

#[test]
pub fn test_fips01010000checker_missing_fips_name() {
    let usac = SystemFiles::default();
    let checker = FIPS01010000Checker {};
    let result = checker.execute(&usac);
    assert_eq!(result.status, CheckStatus::SKIP);
}

#[test]
pub fn test_fips01010000checker_wrong_fips_name() {
    let mut usac = SystemFiles::default();
    usac.register_file(CRYPTO_FIPS_NAME, "some wrong name");
    let checker = FIPS01010000Checker {};
    let result = checker.execute(&usac);
    assert_eq!(result.status, CheckStatus::FAIL);
}

#[test]
pub fn test_fips01010000checker_passing() {
    let mut usac = SystemFiles::default();
    usac.register_file(CRYPTO_FIPS_NAME, EXPECTED_FIPS_NAME);
    let checker = FIPS01010000Checker {};
    let result = checker.execute(&usac);
    assert_eq!(result.status, CheckStatus::PASS);
}

#[test]
pub fn test_fips01020000checker_missing_module_check_marker() {
    let mut usac = SystemFiles::default();
    usac.register_file(FIPS_KERNEL_CHECK_MARKER, "1");
    let checker = FIPS01020000Checker {};
    let result = checker.execute(&usac);
    assert_eq!(result.status, CheckStatus::FAIL);
}

#[test]
pub fn test_fips01020000checker_missing_kernel_check_marker() {
    let mut usac = SystemFiles::default();
    usac.register_file(FIPS_MODULE_CHECK_MARKER, "1");
    let checker = FIPS01020000Checker {};
    let result = checker.execute(&usac);
    assert_eq!(result.status, CheckStatus::FAIL);
}

#[test]
pub fn test_fips01020000checker_passing() {
    let mut usac = SystemFiles::default();
    usac.register_file(FIPS_KERNEL_CHECK_MARKER, "1");
    usac.register_file(FIPS_MODULE_CHECK_MARKER, "1");
    let checker = FIPS01020000Checker {};
    let result = checker.execute(&usac);
    assert_eq!(result.status, CheckStatus::PASS);
}

#[test]
fn fips_error_messages() {
    let usac = SystemFiles::default();
    assert_eq!(FIPS01000000Checker {}.execute(&usac).error, "/proc/sys/crypto/fips_enabled not found");
    assert_eq!(FIPS01020000Checker {}.execute(&usac).error, "/etc/.fips-kernel-check-passed not found");
    let mut usac = SystemFiles::default();
    usac.register_file(CRYPTO_FIPS_ENABLED, "0\n");
    usac.register_file(CRYPTO_FIPS_NAME, "other");
    usac.register_file(FIPS_KERNEL_CHECK_MARKER, "");
    assert_eq!(FIPS01000000Checker {}.execute(&usac).error, "/proc/sys/crypto/fips_enabled != 1");
    assert_eq!(
        FIPS01010000Checker {}.execute(&usac).error,
        "/proc/sys/crypto/fips_name != 'Amazon Linux 2023 Kernel Cryptographic API'"
    );
    assert_eq!(FIPS01020000Checker {}.execute(&usac).error, "/etc/.fips-module-check-passed not found");
    let mut usac = SystemFiles::default();
    usac.register_file(CRYPTO_FIPS_ENABLED, "1\n");
    let r = FIPS01000000Checker {}.execute(&usac);
    assert_eq!(r.status, CheckStatus::PASS);
    assert_eq!(r.error, "");
}

#[test]
fn later_registration_wins() {
    let mut usac = SystemFiles::new();
    usac.register_file(CRYPTO_FIPS_ENABLED, "1");
    usac.register_file(CRYPTO_FIPS_ENABLED, "0");
    assert_eq!(usac.read_file(CRYPTO_FIPS_ENABLED).unwrap(), "0");
    assert!(usac.read_file("/other").is_none());
    assert!(usac.has_file(CRYPTO_FIPS_ENABLED));
    assert_eq!(FIPS01000000Checker {}.execute(&usac).status, CheckStatus::FAIL);
}

#[test]
fn fips_metadata() {
    let m = FIPS01000000Checker {}.metadata();
    assert_eq!(m.title, "FIPS mode is enabled.");
    assert_eq!(m.id, "1.0");
    assert_eq!(m.level, 0);
    assert_eq!(m.name, "fips01000000");
    assert_eq!(m.mode, Mode::Automatic);
    let m = FIPS01010000Checker {}.metadata();
    assert_eq!(m.title, "FIPS module is Amazon Linux 2023 Kernel Cryptographic API.");
    assert_eq!(m.id, "1.1");
    assert_eq!(m.name, "fips01010000");
    let m = FIPS01020000Checker {}.metadata();
    assert_eq!(m.title, "FIPS self-tests passed.");
    assert_eq!(m.id, "1.2");
    assert_eq!(m.name, "fips01020000");
}
