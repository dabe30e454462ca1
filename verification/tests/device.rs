use fnirsi::device::{
    detect_device_type, dfu_usb_id, is_fnb58_variant, known_devices, type_by_product, DeviceInfo,
    DeviceType, UsbId,
};

#[test]
fn test_detect_fnb58() {
    assert_eq!(
        detect_device_type(0x2E3C, 0x5558, None),
        Some(DeviceType::Fnb58)
    );
}

#[test]
fn test_detect_fnb48() {
    assert_eq!(
        detect_device_type(0x0483, 0x003A, None),
        Some(DeviceType::Fnb48)
    );
}

#[test]
fn test_detect_c1_vs_fnac28() {
    assert_eq!(
        detect_device_type(0x0483, 0x003B, Some("FNIRSI C1")),
        Some(DeviceType::C1)
    );
    assert_eq!(
        detect_device_type(0x0483, 0x003B, Some("USB Tester")),
        Some(DeviceType::Fnac28)
    );
    // No product string defaults to C1 (first match in table)
    assert_eq!(
        detect_device_type(0x0483, 0x003B, None),
        Some(DeviceType::C1)
    );
}

#[test]
fn test_detect_unknown() {
    assert_eq!(detect_device_type(0x1234, 0x5678, None), None);
}

#[test]
fn test_is_fnb58_variant() {
    assert!(is_fnb58_variant(DeviceType::Fnb58));
    assert!(is_fnb58_variant(DeviceType::Fnb48s));
    assert!(!is_fnb58_variant(DeviceType::Fnb48));
    assert!(!is_fnb58_variant(DeviceType::C1));
}

#[test]
fn fnac28_is_of_the_fnb48_family() {
    assert!(!is_fnb58_variant(DeviceType::Fnac28));
}

#[test]
fn product_string_counts_for_the_shared_pair_alone() {
    assert_eq!(
        detect_device_type(0x0483, 0x003A, Some("C1")),
        Some(DeviceType::Fnb48)
    );
    assert_eq!(
        detect_device_type(0x2E3C, 0x0049, Some("anything")),
        Some(DeviceType::Fnb48s)
    );
    assert_eq!(detect_device_type(0x0483, 0x0038, Some("C1")), None);
}

#[test]
fn product_string_is_read_in_any_case() {
    // The Kelvin sign is lower-cased to an ordinary letter.
    assert_eq!(
        detect_device_type(0x0483, 0x003B, Some("\u{212A}IT-C1")),
        Some(DeviceType::C1)
    );
    assert_eq!(type_by_product("fnirsi c1"), DeviceType::C1);
    assert_eq!(type_by_product("FNIRSI C1"), DeviceType::Fnac28);
    assert_eq!(type_by_product(""), DeviceType::Fnac28);
}

#[test]
fn every_known_pair_is_detected_as_listed() {
    for (id, device_type) in known_devices() {
        assert_eq!(
            detect_device_type(id.vid, id.pid, None),
            Some(device_type)
        );
    }
    assert_eq!(
        dfu_usb_id(),
        UsbId {
            vid: 0x0483,
            pid: 0x0038
        }
    );
}

#[test]
fn description_names_what_is_known() {
    let mut info = DeviceInfo {
        device_type: DeviceType::Fnb48s,
        vid: 0x2E3C,
        pid: 0x0049,
        manufacturer: None,
        product: None,
        serial: None,
        path: None,
    };
    assert_eq!(info.describe(), "FNB48S (VID:2E3C PID:0049)");
    info.manufacturer = Some("FNIRSI".to_string());
    info.serial = Some("0001".to_string());
    assert_eq!(
        info.describe(),
        "FNB48S (VID:2E3C PID:0049) mfr=FNIRSI serial=0001"
    );
    info.product = Some("Meter".to_string());
    assert_eq!(
        info.describe(),
        "FNB48S (VID:2E3C PID:0049) mfr=FNIRSI product=Meter serial=0001"
    );
}

#[test]
fn models_have_names() {
    let names = [
        (DeviceType::Fnb48, "FNB48"),
        (DeviceType::Fnb48s, "FNB48S"),
        (DeviceType::Fnb58, "FNB58"),
        (DeviceType::C1, "C1"),
        (DeviceType::Fnac28, "FNAC28"),
    ];
    for (device_type, name) in names {
        assert_eq!(device_type.label(), name);
    }
}
