use inventory_agent::collector::{
    build_check_in, format_ipv4, normalize_drive, select_primary_ipv4, NetIf, RawDrive, RawFacts,
};

fn iface(loopback: bool, v4: Option<(u8, u8, u8, u8)>) -> NetIf {
    NetIf { loopback, v4 }
}

#[test]
fn test_primary_address_first_match_in_order() {
    let ifs = vec![
        iface(true, Some((127, 0, 0, 1))),
        iface(false, Some((169, 254, 1, 1))),
        iface(false, Some((10, 0, 0, 5))),
        iface(false, Some((10, 0, 0, 9))),
    ];
    let picked = select_primary_ipv4(&ifs);
    assert_eq!(picked, Some((10, 0, 0, 5)));
    assert_eq!(format_ipv4(picked.unwrap()), "10.0.0.5");
}

#[test]
fn test_primary_address_none_qualifies() {
    let ifs = vec![
        iface(true, Some((127, 0, 0, 1))),
        iface(false, Some((169, 254, 9, 9))),
        iface(false, None),
    ];
    assert_eq!(select_primary_ipv4(&ifs), None);
}

#[test]
fn test_format_ipv4_digits() {
    assert_eq!(format_ipv4((0, 0, 0, 0)), "0.0.0.0");
    assert_eq!(format_ipv4((255, 254, 10, 1)), "255.254.10.1");
}

#[test]
fn test_normalize_drive_sentinels_and_trim() {
    let full = normalize_drive(RawDrive {
        model: Some("WD Blue".to_string()),
        serial_number: Some("  SN42  ".to_string()),
        device_id: Some("\\\\.\\PHYSICALDRIVE0".to_string()),
    });
    assert_eq!(full.model, "WD Blue");
    assert_eq!(full.serial_number, Some("SN42".to_string()));
    assert_eq!(full.device_id, "\\\\.\\PHYSICALDRIVE0");

    let bare = normalize_drive(RawDrive {
        model: None,
        serial_number: None,
        device_id: None,
    });
    assert_eq!(bare.model, "UNKNOWN");
    assert_eq!(bare.serial_number, None);
    assert_eq!(bare.device_id, "UNKNOWN");
}

#[test]
fn test_build_check_in_single_missing_fields_degrade_to_sentinels() {
    let no_host = build_check_in(
        RawFacts {
            hostname: None,
            logged_in_user: Some("user".to_string()),
            laptop_serial: Some("SER".to_string()),
            drives: vec![],
        },
        Some((10, 0, 0, 5)),
        "2025-12-18T10:00:00+00:00".to_string(),
    );
    assert_eq!(no_host.hostname, "UNKNOWN");
    assert_eq!(no_host.ip_address, "10.0.0.5");
    assert_eq!(no_host.logged_in_user, Some("user".to_string()));
    assert_eq!(no_host.laptop_serial, "SER");

    let no_addr = build_check_in(
        RawFacts {
            hostname: Some("HOST".to_string()),
            logged_in_user: None,
            laptop_serial: None,
            drives: vec![RawDrive {
                model: Some("M".to_string()),
                serial_number: None,
                device_id: None,
            }],
        },
        None,
        "2025-12-18T10:00:00+00:00".to_string(),
    );
    assert_eq!(no_addr.hostname, "HOST");
    assert_eq!(no_addr.ip_address, "0.0.0.0");
    assert_eq!(no_addr.logged_in_user, None);
    assert_eq!(no_addr.laptop_serial, "UNKNOWN");
    assert_eq!(no_addr.drives.len(), 1);
    assert_eq!(no_addr.drives[0].model, "M");
    assert_eq!(no_addr.drives[0].device_id, "UNKNOWN");
    assert_eq!(no_addr.timestamp_utc, "2025-12-18T10:00:00+00:00");
}
