use fnirsi::crc::data_crc;
use fnirsi::device::{DeviceInfo, DeviceType};
use fnirsi::protocol::ProtocolError;
use fnirsi::usb::{
    frame_report, hid_timeout, report_written, HidEntry, OpenTarget, UsbDevice, UsbError,
};

fn entry(vid: u16, pid: u16, product: Option<&str>, path: &[u8]) -> HidEntry {
    HidEntry {
        vid,
        pid,
        manufacturer: Some("FNIRSI".to_string()),
        product: product.map(str::to_string),
        serial: None,
        path: path.to_vec(),
    }
}

fn bus() -> Vec<HidEntry> {
    vec![
        entry(0x046D, 0xC52B, Some("Receiver"), b"/dev/hidraw0"),
        entry(0x0483, 0x0038, None, b"/dev/hidraw1"),
        entry(0x0483, 0x003B, Some("USB Tester"), b"/dev/hidraw2"),
        entry(0x2E3C, 0x5558, Some("FNB-58"), b"/dev/hidraw3"),
    ]
}

#[test]
fn meters_are_listed_in_order() {
    let devices = UsbDevice::list_devices(&bus());
    let types: Vec<DeviceType> = devices.iter().map(|d| d.device_type).collect();
    assert_eq!(types, vec![DeviceType::Fnac28, DeviceType::Fnb58]);
    assert_eq!(devices[1].vid, 0x2E3C);
    assert_eq!(devices[1].pid, 0x5558);
    assert_eq!(devices[1].product.as_deref(), Some("FNB-58"));
    assert_eq!(devices[1].manufacturer.as_deref(), Some("FNIRSI"));
    assert!(devices[1].serial.is_none());
    assert_eq!(devices[1].path.as_deref(), Some(&b"/dev/hidraw3"[..]));
}

#[test]
fn dfu_devices_are_listed_apart() {
    let devices = UsbDevice::list_dfu_devices(&bus());
    assert_eq!(devices.len(), 1);
    assert_eq!(devices[0].device_type, DeviceType::Fnb58);
    assert_eq!(devices[0].path.as_deref(), Some(&b"/dev/hidraw1"[..]));
}

#[test]
fn first_meter_is_chosen() {
    let first = UsbDevice::connect_first(&bus()).unwrap();
    assert_eq!(first.device_type, DeviceType::Fnac28);
    let none = UsbDevice::connect_first(&vec![entry(1, 2, None, b"x")]);
    assert!(matches!(none, Err(UsbError::DeviceNotFound)));
}

fn info(device_type: DeviceType, path: Option<&[u8]>) -> DeviceInfo {
    DeviceInfo {
        device_type,
        vid: 0x0483,
        pid: 0x003A,
        manufacturer: None,
        product: None,
        serial: None,
        path: path.map(<[u8]>::to_vec),
    }
}

#[test]
fn devices_are_opened_by_path_or_pair() {
    let by_path = UsbDevice::open_target(&info(DeviceType::C1, Some(b"/dev/x")));
    assert!(matches!(by_path, Ok(OpenTarget::Path(p)) if p == b"/dev/x"));
    let by_pair = UsbDevice::open_target(&info(DeviceType::C1, None));
    assert!(matches!(by_pair, Ok(OpenTarget::Id(0x0483, 0x003A))));
    let broken = UsbDevice::open_target(&info(DeviceType::C1, Some(b"a\0b")));
    assert!(matches!(broken, Err(UsbError::DeviceNotFound)));
}

#[test]
fn variant_follows_the_model() {
    let fnb58 = UsbDevice::connect_device(info(DeviceType::Fnb58, None), 5);
    assert!(fnb58.is_fnb58_variant());
    assert_eq!(fnb58.keepalive_interval(), 1000);
    let fnb48 = UsbDevice::connect_device(info(DeviceType::Fnb48, None), 5);
    assert!(!fnb48.is_fnb58_variant());
    assert_eq!(fnb48.keepalive_interval(), 3);
    assert_eq!(fnb48.info().device_type, DeviceType::Fnb48);
}

#[test]
fn streaming_starts_with_three_reports() {
    let fnb48 = UsbDevice::connect_device(info(DeviceType::Fnb48, None), 0);
    let reports = fnb48.start_streaming();
    assert_eq!(reports.len(), 3);
    for (report, code) in reports.iter().zip([0x81u8, 0x82, 0x83]) {
        assert_eq!(report[..3], [0x00, 0xAA, code]);
    }
    let fnb58 = UsbDevice::connect_device(info(DeviceType::Fnb58, None), 0);
    assert_eq!(fnb58.start_streaming()[2][2], 0x82);
}

#[test]
fn keepalive_is_due_after_the_interval() {
    let mut device = UsbDevice::connect_device(info(DeviceType::Fnb48, None), 1_000);
    assert!(device.send_keepalive_if_needed(3_000_999).is_none());
    let report = device.send_keepalive_if_needed(3_001_000).unwrap();
    assert_eq!(report[..3], [0x00, 0xAA, 0x83]);
    assert_eq!(report[64], 0x9E);
    assert_eq!(report, device.send_keepalive());
    device.keepalive_sent(3_001_000);
    assert!(device.send_keepalive_if_needed(6_000_999).is_none());
    // A clock that went back is not past the interval.
    assert!(device.send_keepalive_if_needed(0).is_none());
}

#[test]
fn reports_stand_behind_a_zero() {
    let mut packet = [0u8; 64];
    for (i, b) in packet.iter_mut().enumerate() {
        *b = i as u8 + 1;
    }
    let report = frame_report(&packet);
    assert_eq!(report[0], 0);
    assert_eq!(report[1..], packet);
    let device = UsbDevice::connect_device(info(DeviceType::C1, None), 0);
    assert_eq!(device.write_report(&packet), report);
}

#[test]
fn nothing_written_is_a_failure() {
    assert_eq!(report_written(0), Err(UsbError::WriteFailed));
    assert_eq!(report_written(65), Ok(()));
}

#[test]
fn reads_give_packets_and_samples() {
    let mut packet = [0u8; 64];
    packet[0] = 0xAA;
    packet[1] = 0x04;
    packet[2] = 77;
    packet[63] = data_crc(&packet[1..63]);
    assert!(UsbDevice::read_packet(0, packet).is_none());
    assert_eq!(UsbDevice::read_packet(64, packet), Some(packet));
    assert!(UsbDevice::read_samples(0, packet, true).is_none());
    let samples = UsbDevice::read_samples(64, packet, true).unwrap();
    assert_eq!(samples[0].raw_voltage, 77);
    packet[63] ^= 1;
    assert!(UsbDevice::read_samples(64, packet, true).is_none());
    assert!(UsbDevice::read_samples(64, packet, false).is_some());
}

#[test]
fn timeouts_keep_their_low_bits() {
    assert_eq!(hid_timeout(5000), 5000);
    assert_eq!(hid_timeout(0x7FFF_FFFF), i32::MAX);
    assert_eq!(hid_timeout(0x8000_0000), i32::MIN);
    assert_eq!(hid_timeout(0x1_0000_0007), 7);
    assert_eq!(hid_timeout(u128::MAX), -1);
}

#[test]
fn messages_of_usb_errors() {
    assert_eq!(
        UsbError::DeviceNotFound.describe(),
        "no FNIRSI device found"
    );
    assert_eq!(UsbError::NotConnected.describe(), "device not connected");
    assert_eq!(
        UsbError::Protocol(ProtocolError::InvalidHeader(0xBB)).describe(),
        "protocol error: invalid header byte: expected 0xAA, got 0xBB"
    );
    assert_eq!(UsbError::WriteFailed.describe(), "write failed");
}
