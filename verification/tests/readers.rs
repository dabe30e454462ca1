use fnirsi::ble::BleDeviceInfo;
use fnirsi::device::DeviceType;
use fnirsi::float::F32;
use fnirsi::logging::Transport;
use fnirsi::readers::{
    ble_device_info, connecting_status, no_ble_device, reader_step, Failure, ReaderEvent,
    StreamClock,
};
use fnirsi::sample::Sample;

fn sample(raw_voltage: u32) -> Sample {
    let zero = F32 { bits: 0 };
    Sample {
        timestamp_ms: 99,
        voltage_v: zero,
        current_a: zero,
        power_w: zero,
        dp_v: zero,
        dn_v: zero,
        temp_c: zero,
        raw_voltage,
        raw_current: 0,
    }
}

#[test]
fn stream_times_run_on_across_packets() {
    let mut clock = StreamClock::new();
    let mut seen = Vec::new();
    for _ in 0..3 {
        let packet = clock.stamp([sample(1), sample(2), sample(3), sample(4)]);
        seen.extend(packet.iter().map(|s| (s.raw_voltage, s.timestamp_ms)));
    }
    assert_eq!(clock.sample_index, 12);
    for (i, (raw, time)) in seen.iter().enumerate() {
        assert_eq!(*time, i as u64 * 10);
        assert_eq!(*raw, i as u32 % 4 + 1);
    }
}

#[test]
fn failures_are_reported_with_their_cause() {
    let leads = [
        (Failure::Connect, "Connect failed: x", false),
        (Failure::Streaming, "Streaming failed: x", false),
        (Failure::Keepalive, "Keepalive error: x", true),
        (Failure::Read, "Read error: x", true),
        (Failure::Runtime, "Failed to create tokio runtime: x", false),
        (Failure::BleScan, "BLE Scan Error: x", false),
        (Failure::BleConnect, "BLE Connect Error: x", false),
    ];
    for (failure, report, ends) in leads {
        assert_eq!(failure.report("x"), report);
        assert_eq!(failure.ends_stream(), ends);
    }
    assert_eq!(no_ble_device(), "No FNIRSI BLE devices found. Try again");
}

#[test]
fn readers_go_on_until_the_stream_ends() {
    let step = |transport: Transport, event: ReaderEvent| {
        let step = reader_step(transport, event);
        (step.go_on, step.report, step.disconnected)
    };
    for transport in [Transport::Usb, Transport::Ble] {
        assert_eq!(step(transport, ReaderEvent::Idle), (true, None, false));
        assert_eq!(step(transport, ReaderEvent::Delivered), (true, None, false));
        assert_eq!(step(transport, ReaderEvent::Told), (false, None, true));
        assert_eq!(step(transport, ReaderEvent::Ended), (false, None, true));
    }
    assert_eq!(
        step(Transport::Usb, ReaderEvent::Unheard),
        (false, None, false)
    );
    assert_eq!(
        step(Transport::Ble, ReaderEvent::Unheard),
        (false, None, true)
    );
    assert_eq!(
        step(
            Transport::Usb,
            ReaderEvent::Failed(Failure::Read, "x".to_string())
        ),
        (false, Some("Read error: x".to_string()), true)
    );
    assert_eq!(
        step(
            Transport::Usb,
            ReaderEvent::Failed(Failure::Connect, "x".to_string())
        ),
        (false, Some("Connect failed: x".to_string()), false)
    );
}

#[test]
fn ble_devices_are_treated_alike() {
    let named = BleDeviceInfo {
        name: Some("FNB58".to_string()),
        address: "AB".to_string(),
    };
    assert_eq!(connecting_status(&named), "Connecting to FNB58...");
    let info = ble_device_info(&named);
    assert_eq!(info.device_type, DeviceType::Fnb58);
    assert_eq!((info.vid, info.pid), (0, 0));
    assert_eq!(info.product.as_deref(), Some("FNB58"));
    assert!(info.path.is_none());
    let nameless = BleDeviceInfo {
        name: None,
        address: "AB".to_string(),
    };
    assert_eq!(connecting_status(&nameless), "Connecting to device...");
}
