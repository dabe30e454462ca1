use fnirsi::ble::{
    ble_cmd_init, ble_cmd_start, decode_ble_aa07, find_address, find_characteristics,
    is_meter_name, sample_of, scan_devices, BleDeviceInfo, BleError, BleReading, Characteristic, ConnectStep,
    StepOutcome, NOTIFY_CHAR, WRITE_CHAR,
};
use fnirsi::float::F32;

fn volts(reading: &BleReading) -> f32 {
    f32::from(reading.voltage_raw) / 1000.0
}

fn amps(reading: &BleReading) -> f32 {
    f32::from(reading.current_raw) / 1000.0
}

#[test]
fn test_decode_ble_aa07() {
    // AA 07 04, voltage 5000 (5.0V), current 1500 (1.5A)
    let data: Vec<u8> = vec![0xAA, 0x07, 0x04, 0x88, 0x13, 0xDC, 0x05];
    let sample = decode_ble_aa07(&data).unwrap();
    assert!((volts(&sample) - 5.0).abs() < 0.01);
    assert!((amps(&sample) - 1.5).abs() < 0.01);
}

#[test]
fn test_decode_ble_aa07_in_middle() {
    // Prefix garbage + AA 07 04 + data
    let data: Vec<u8> = vec![0x00, 0xFF, 0xAA, 0x07, 0x04, 0xE8, 0x03, 0xF4, 0x01];
    let sample = decode_ble_aa07(&data).unwrap();
    assert!((volts(&sample) - 1.0).abs() < 0.01);
    assert!((amps(&sample) - 0.5).abs() < 0.01);
}

#[test]
fn test_decode_ble_aa07_too_short() {
    let data: Vec<u8> = vec![0xAA, 0x07, 0x04, 0xE8];
    assert!(decode_ble_aa07(&data).is_none());
}

#[test]
fn test_decode_ble_aa07_no_match() {
    let data: Vec<u8> = vec![0xBB, 0x07, 0x04, 0xE8, 0x03, 0xF4, 0x01];
    assert!(decode_ble_aa07(&data).is_none());
}

#[test]
fn first_of_two_frames_counts() {
    let mut data = vec![0xAA, 0x07, 0xAA, 0x07, 0x04, 1, 0, 2, 0];
    data.extend_from_slice(&[0xAA, 0x07, 0x04, 3, 0, 4, 0]);
    assert_eq!(
        decode_ble_aa07(&data),
        Some(BleReading {
            voltage_raw: 1,
            current_raw: 2
        })
    );
    assert_eq!(decode_ble_aa07(&[]), None);
}

fn advertiser(name: Option<&str>, address: &str) -> BleDeviceInfo {
    BleDeviceInfo {
        name: name.map(str::to_string),
        address: address.to_string(),
    }
}

#[test]
fn scan_keeps_meters_in_order() {
    let found = vec![
        advertiser(Some("Headphones"), "1"),
        advertiser(Some("FNB58"), "2"),
        advertiser(None, "3"),
        advertiser(Some("my Fnirsi meter"), "4"),
        advertiser(Some("FN"), "5"),
    ];
    let kept = scan_devices(found);
    let addresses: Vec<&str> = kept.iter().map(|d| d.address.as_str()).collect();
    assert_eq!(addresses, vec!["2", "4"]);
    assert!(is_meter_name("fnb"));
    assert!(!is_meter_name("FNB"));
}

#[test]
fn first_device_of_an_address_is_found() {
    let addresses = vec!["a".to_string(), "b".to_string(), "b".to_string()];
    assert_eq!(find_address(&addresses, "b"), Some(1));
    assert_eq!(find_address(&addresses, "c"), None);
}

#[test]
fn characteristics_are_located_by_uuid() {
    assert_eq!(
        find_characteristics(&vec![7, NOTIFY_CHAR, WRITE_CHAR, NOTIFY_CHAR]),
        Ok((2, 1))
    );
    assert_eq!(
        find_characteristics(&vec![NOTIFY_CHAR]),
        Err(BleError::CharacteristicNotFound(Characteristic::Write))
    );
    assert_eq!(
        find_characteristics(&vec![WRITE_CHAR]),
        Err(BleError::CharacteristicNotFound(Characteristic::Notify))
    );
    assert_eq!(
        find_characteristics(&vec![]),
        Err(BleError::CharacteristicNotFound(Characteristic::Write))
    );
}

#[test]
fn characteristic_uuids_are_in_the_bluetooth_base() {
    assert_eq!(
        uuid::Uuid::from_u128(NOTIFY_CHAR).to_string(),
        "0000ffe4-0000-1000-8000-00805f9b34fb"
    );
    assert_eq!(
        uuid::Uuid::from_u128(WRITE_CHAR).to_string(),
        "0000ffe9-0000-1000-8000-00805f9b34fb"
    );
}

#[test]
fn known_device_is_connected_without_a_scan() {
    let mut step = ConnectStep::LookUp;
    let mut said = Vec::new();
    while step != ConnectStep::Stream {
        said.extend(step.announce("x"));
        step = step.next(StepOutcome::Done).unwrap();
    }
    assert_eq!(
        said,
        vec![
            "Connecting... (takes time)",
            "Discovering services...",
            "Subscribing to notifications...",
            "Initializing device...",
        ]
    );
}

#[test]
fn unknown_device_is_scanned_for_once() {
    let step = ConnectStep::LookUp.next(StepOutcome::NotFound).unwrap();
    assert_eq!(step, ConnectStep::Scan);
    assert_eq!(step.announce("AB:CD").unwrap(), "Scanning for AB:CD...");
    assert_eq!(step.next(StepOutcome::Done), Ok(ConnectStep::Connect));
    assert_eq!(
        step.next(StepOutcome::NotFound),
        Err(BleError::DeviceNotFound)
    );
}

#[test]
fn commands_over_ble_are_short() {
    assert_eq!(ble_cmd_init(), [0xAA, 0x81, 0x00, 0xF4]);
    assert_eq!(ble_cmd_start(), [0xAA, 0x82, 0x00, 0xA7]);
}

#[test]
fn messages_of_ble_errors() {
    assert_eq!(
        BleError::DeviceNotFound.describe(),
        "no FNIRSI device found via BLE"
    );
    assert_eq!(
        BleError::CharacteristicNotFound(Characteristic::Write).describe(),
        "characteristic not found: write (FFE9)"
    );
    assert_eq!(
        BleError::CharacteristicNotFound(Characteristic::Notify).describe(),
        "characteristic not found: notify (FFE4)"
    );
    assert_eq!(BleError::NotConnected.describe(), "device not connected");
    assert_eq!(BleError::ScanTimeout.describe(), "scan timeout");
}

#[test]
fn ble_samples_are_zero_beside_what_is_measured() {
    let held = |v: f32| F32 { bits: v.to_bits() };
    let s = sample_of(held(5.0), held(1.5), held(7.5));
    assert_eq!((s.voltage_v, s.current_a, s.power_w), (held(5.0), held(1.5), held(7.5)));
    assert_eq!((s.dp_v, s.dn_v, s.temp_c), (held(0.0), held(0.0), held(0.0)));
    assert_eq!((s.timestamp_ms, s.raw_voltage, s.raw_current), (0, 0, 0));
}
