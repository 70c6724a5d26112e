use bottlerocket_tools::infiniband::{
    hex_string_to_u32, CapabilityMask, Error, InfinibandDevice, InfinibandPort, ParseIntError, PortGuid,
};

#[test]
fn test_hex_to_u32_valid_hex_with_prefix() {
    assert_eq!(hex_string_to_u32("0xa750e84a").unwrap(), 0xa750e84a);
    assert_eq!(hex_string_to_u32("0xffff").unwrap(), 0xffff);
    assert_eq!(hex_string_to_u32("abcdef12").unwrap(), 0xABCDEF12);
    assert_eq!(hex_string_to_u32("0x0").unwrap(), 0x0);
}

#[test]
fn test_hex_to_u32_valid_hex_without_prefix() {
    assert_eq!(hex_string_to_u32("a750e84a").unwrap(), 0xa750e84a);
    assert_eq!(hex_string_to_u32("ffff").unwrap(), 0xffff);
    assert_eq!(hex_string_to_u32("0").unwrap(), 0x0);
}

#[test]
fn test_hex_to_u32_invalid_hex() {
    assert!(hex_string_to_u32("invalid").is_err());
    assert!(hex_string_to_u32("0xgggg").is_err());
    assert!(hex_string_to_u32("").is_err());
}

#[test]
fn test_hex_to_u32_overflow() {
    // Value larger than u32::MAX
    assert!(hex_string_to_u32("0xffffffffff").is_err());
}

#[test]
fn hex_error_kinds() {
    assert_eq!(hex_string_to_u32(""), Err(ParseIntError::Empty));
    assert_eq!(hex_string_to_u32("0x"), Err(ParseIntError::Empty));
    assert_eq!(hex_string_to_u32("+"), Err(ParseIntError::InvalidDigit));
    assert_eq!(hex_string_to_u32("-1"), Err(ParseIntError::InvalidDigit));
    assert_eq!(hex_string_to_u32("0xfffffffff"), Err(ParseIntError::PosOverflow));
    // the first problem from the left decides
    assert_eq!(hex_string_to_u32("fffffffffg"), Err(ParseIntError::PosOverflow));
    assert_eq!(hex_string_to_u32("gfffffffff"), Err(ParseIntError::InvalidDigit));
    assert_eq!(hex_string_to_u32(" 1"), Err(ParseIntError::InvalidDigit));
}

#[test]
fn hex_edge_values() {
    assert_eq!(hex_string_to_u32("+ff"), Ok(0xff));
    assert_eq!(hex_string_to_u32("0x+ff"), Ok(0xff));
    assert_eq!(hex_string_to_u32("ffffffff"), Ok(u32::MAX));
    assert_eq!(hex_string_to_u32("0000000000000001"), Ok(1));
    assert_eq!(hex_string_to_u32("0X10"), Err(ParseIntError::InvalidDigit));
    assert_eq!(hex_string_to_u32("0x0x1"), Err(ParseIntError::InvalidDigit));
}

#[test]
fn test_valid_guid_creation() {
    let valid_guid = "fe80:0000:0000:0000:e09d:7303:003f:3bf8";
    let result = PortGuid::from_str(valid_guid);
    assert!(result.is_ok());
    assert_eq!(result.as_ref().unwrap().0, "0xe09d7303003f3bf8");
    assert_eq!(*result.unwrap(), "0xe09d7303003f3bf8");
}

#[test]
fn test_valid_guid_with_whitespace() {
    let valid_guid = "  fe80:0000:0000:0000:e09d:7303:003f:3bf8  ";
    let result = PortGuid::from_str(valid_guid);
    assert!(result.is_ok());
    assert_eq!(*result.unwrap(), "0xe09d7303003f3bf8");
}

#[test]
fn test_invalid_guid_prefix() {
    let invalid_guids = [
        "abcd:0000:0000:0000:e09d:7303:003f:3bf8",
        "fe81:0000:0000:0000:e09d:7303:003f:3bf8",
        "",
        "fe",
        "fe8",
    ];

    for invalid_guid in invalid_guids.iter() {
        let result = PortGuid::from_str(invalid_guid);
        assert!(result.is_err());

        match result {
            Err(e) => {
                assert!(matches!(e, Error::InvalidPortGuidString { .. }));
            }
            Ok(_) => panic!("Expected error for invalid GUID"),
        }
    }
}

#[test]
fn guid_group_rules() {
    // seven groups
    assert!(PortGuid::from_str("fe80:0000:0000:0000:e09d:7303:003f").is_err());
    // a group of three bytes
    assert!(PortGuid::from_str("fe80:0000:0000:0000:e09d:7303:003f:3bf").is_err());
    // groups are counted in bytes: two two-byte characters make a group
    assert_eq!(
        PortGuid::from_str("fe80:0000:0000:0000:\u{e9}\u{e9}:7303:003f:3bf8").unwrap().0,
        "0x\u{e9}\u{e9}7303003f3bf8"
    );
    // the error carries the trimmed text
    match PortGuid::from_str(" \tfe81\n") {
        Err(Error::InvalidPortGuidString { guid }) => assert_eq!(guid, "fe81"),
        _ => panic!("expected an invalid GUID"),
    }
    // unicode white space is trimmed too
    assert!(PortGuid::from_str("\u{3000}fe80:0000:0000:0000:e09d:7303:003f:3bf8\u{a0}").is_ok());
}

#[test]
fn test_guid_clone() {
    let guid = PortGuid::from_str("fe80:0000:0000:0000:e09d:7303:003f:3bf8").unwrap();
    let cloned_guid = guid.clone();
    assert_eq!(guid.0, cloned_guid.0);
}

#[test]
fn test_guid_debug() {
    let guid = PortGuid::from_str("fe80:0000:0000:0000:e09d:7303:003f:3bf8").unwrap();
    let debug_output = format!("{:?}", guid);
    assert!(debug_output.contains("0xe09d7303003f3bf8"));
}

#[test]
fn test_is_sm_enabled() {
    let test_cases = vec![
        // SM enabled cases (bit 10 is 0)
        ("0x00000000", true), // All bits 0
        ("0xa750e84a", true), // Expected mask that passes
        ("0xfffffbff", true), // Only bit 10 is 0
        ("0x00000001", true), // Only first bit set
        // SM disabled cases (bit 10 is 1)
        ("0x00000400", false), // Only bit 10 set
        ("0xffffffff", false), // All bits set
        ("0x00000401", false), // Bit 10 and first bit set
    ];

    for (capability_mask, expected) in test_cases {
        let port = InfinibandPort {
            capability_mask: CapabilityMask::from_str(capability_mask).unwrap(),
            port_guid: PortGuid::from_str("fe80:0000:0000:0000:e09d:7303:003f:3bf8").unwrap(),
        };

        assert_eq!(
            port.is_sm_enabled(),
            expected,
            "Failed for capability_mask: {}",
            capability_mask
        );
    }
}

#[test]
fn capability_mask_trims_and_reports_raw_text() {
    assert_eq!(CapabilityMask::from_str(" 0xa750e84a\n").unwrap().value(), 0xa750e84a);
    match CapabilityMask::from_str(" zz\n") {
        Err(Error::CapabilityCheck { mask, source }) => {
            assert_eq!(mask, " zz\n");
            assert_eq!(source, ParseIntError::InvalidDigit);
        }
        _ => panic!("expected a capability error"),
    }
}

#[test]
fn port_from_sysfs_texts() {
    let port = InfinibandPort::from_sysfs("0xa751e848\n", "fe80:0000:0000:0000:e09d:7303:003f:3bf8\n").unwrap();
    assert_eq!(port.capability_mask.value(), 0xa751e848);
    assert_eq!(port.port_guid.as_str(), "0xe09d7303003f3bf8");
    assert!(matches!(
        InfinibandPort::from_sysfs("zz", "bad"),
        Err(Error::CapabilityCheck { .. })
    ));
    assert!(matches!(
        InfinibandPort::from_sysfs("0x1", "bad"),
        Err(Error::InvalidPortGuidString { .. })
    ));
}

#[test]
fn software_managed_device() {
    let dev = InfinibandDevice { name: "mlx5_0".to_string(), ports: vec![] };
    assert!(dev.is_device_sw_mng(Some(b"xxSW_MNGyy")));
    assert!(dev.is_device_sw_mng(Some(b"SW_MNG")));
    assert!(!dev.is_device_sw_mng(Some(b"SW_MN")));
    assert!(!dev.is_device_sw_mng(Some(b"sw_mng")));
    assert!(!dev.is_device_sw_mng(None));
}

#[test]
fn devices_sorted_by_name() {
    let dev = |n: &str| bottlerocket_tools::infiniband::InfinibandDevice { name: n.to_string(), ports: vec![] };
    let sorted = bottlerocket_tools::infiniband::sort_devices(vec![dev("mlx5_1"), dev("ib0"), dev("mlx5_0"), dev("Z"), dev("mlx5_10")]);
    let names: Vec<&str> = sorted.iter().map(|d| d.name.as_str()).collect();
    assert_eq!(names, vec!["Z", "ib0", "mlx5_0", "mlx5_1", "mlx5_10"]);
    assert!(bottlerocket_tools::infiniband::sort_devices(vec![]).is_empty());
}
