use inventory_agent::json::{decode_check_in, encode_check_in};
use inventory_agent::models::{CheckIn, Drive};

fn sample_drive() -> Drive {
    Drive {
        model: "Test Drive".to_string(),
        serial_number: Some("SN123".to_string()),
        device_id: "DRIVE0".to_string(),
    }
}

#[test]
fn test_drive_clone() {
    let drive = sample_drive();

    let cloned = drive.clone();
    assert_eq!(drive.model, cloned.model);
    assert_eq!(drive.serial_number, cloned.serial_number);
}

#[test]
fn test_checkin_serialization() {
    let checkin = CheckIn {
        hostname: "TEST-HOST".to_string(),
        ip_address: "192.168.1.1".to_string(),
        logged_in_user: Some("testuser".to_string()),
        laptop_serial: "ABC123".to_string(),
        drives: vec![],
        timestamp_utc: "2025-12-18T10:00:00Z".to_string(),
    };

    let json = encode_check_in(&checkin);
    assert!(json.contains("TEST-HOST"));
    assert!(json.contains("ABC123"));
}

#[test]
fn test_checkin_roundtrip() {
    let original = CheckIn {
        hostname: "ROUNDTRIP".to_string(),
        ip_address: "10.0.0.1".to_string(),
        logged_in_user: None,
        laptop_serial: "SERIAL".to_string(),
        drives: vec![Drive {
            model: "TestDrive".to_string(),
            serial_number: None,
            device_id: "DEVICE0".to_string(),
        }],
        timestamp_utc: "2025-12-18T12:00:00Z".to_string(),
    };

    let json = encode_check_in(&original);
    let parsed: CheckIn = decode_check_in(&json).unwrap();

    assert_eq!(original.hostname, parsed.hostname);
    assert_eq!(original.drives.len(), parsed.drives.len());
}

#[test]
fn test_encode_exact_wire_form() {
    let checkin = CheckIn {
        hostname: "H".to_string(),
        ip_address: "0.0.0.0".to_string(),
        logged_in_user: None,
        laptop_serial: "S".to_string(),
        drives: vec![],
        timestamp_utc: "T".to_string(),
    };
    let json = encode_check_in(&checkin);
    assert_eq!(
        json,
        "{\"hostname\":\"H\",\"ip_address\":\"0.0.0.0\",\"logged_in_user\":null,\
         \"laptop_serial\":\"S\",\"drives\":[],\"timestamp_utc\":\"T\"}"
    );
}

#[test]
fn test_roundtrip_all_fields_and_escapes() {
    let original = CheckIn {
        hostname: "quote\" back\\slash".to_string(),
        ip_address: "10.0.0.5".to_string(),
        logged_in_user: Some("tab\there\nnewline\u{1}".to_string()),
        laptop_serial: "".to_string(),
        drives: vec![
            Drive {
                model: "A".to_string(),
                serial_number: Some("S1".to_string()),
                device_id: "D1".to_string(),
            },
            Drive {
                model: "B\"".to_string(),
                serial_number: None,
                device_id: "D2".to_string(),
            },
        ],
        timestamp_utc: "2025-12-18T12:00:00+00:00".to_string(),
    };
    let json = encode_check_in(&original);
    let parsed = decode_check_in(&json).unwrap();
    assert_eq!(parsed.hostname, original.hostname);
    assert_eq!(parsed.ip_address, original.ip_address);
    assert_eq!(parsed.logged_in_user, original.logged_in_user);
    assert_eq!(parsed.laptop_serial, original.laptop_serial);
    assert_eq!(parsed.timestamp_utc, original.timestamp_utc);
    assert_eq!(parsed.drives.len(), 2);
    assert_eq!(parsed.drives[0].model, "A");
    assert_eq!(parsed.drives[0].serial_number, Some("S1".to_string()));
    assert_eq!(parsed.drives[1].model, "B\"");
    assert_eq!(parsed.drives[1].serial_number, None);
    assert_eq!(parsed.drives[1].device_id, "D2");
}

#[test]
fn test_encoded_form_is_real_json() {
    let checkin = CheckIn {
        hostname: "host\"x".to_string(),
        ip_address: "10.0.0.9".to_string(),
        logged_in_user: Some("user\\1".to_string()),
        laptop_serial: "SER\u{2}".to_string(),
        drives: vec![Drive {
            model: "M".to_string(),
            serial_number: Some("SN".to_string()),
            device_id: "ID".to_string(),
        }],
        timestamp_utc: "2025-12-18T12:00:00Z".to_string(),
    };
    let json = encode_check_in(&checkin);
    let value: serde_json::Value = serde_json::from_str(&json).unwrap();
    assert_eq!(value["hostname"].as_str().unwrap(), "host\"x");
    assert_eq!(value["logged_in_user"].as_str().unwrap(), "user\\1");
    assert_eq!(value["laptop_serial"].as_str().unwrap(), "SER\u{2}");
    assert_eq!(value["drives"][0]["model"].as_str().unwrap(), "M");
    assert_eq!(value["drives"][0]["serial_number"].as_str().unwrap(), "SN");
    assert_eq!(value["ip_address"].as_str().unwrap(), "10.0.0.9");
}

#[test]
fn test_decode_rejects_malformed_input() {
    assert!(decode_check_in("").is_none());
    assert!(decode_check_in("{}").is_none());
    assert!(decode_check_in("{\"hostname\":\"H\"}").is_none());
    let good = "{\"hostname\":\"H\",\"ip_address\":\"I\",\"logged_in_user\":null,\
                \"laptop_serial\":\"S\",\"drives\":[],\"timestamp_utc\":\"T\"}";
    assert!(decode_check_in(good).is_some());
    let trailing = format!("{} ", good);
    assert!(decode_check_in(&trailing).is_none());
}
