use fnirsi::duration::Span;
use fnirsi::float::F32;
use fnirsi::formats::{FormatError, OutputFormat};
use fnirsi::logging::{Emission, LogOutput, LogSession, Stop, Transport};
use fnirsi::sample::Sample;

fn sample(raw_voltage: u32) -> Sample {
    let zero = F32 { bits: 0 };
    Sample {
        timestamp_ms: 0,
        voltage_v: zero,
        current_a: zero,
        power_w: zero,
        dp_v: zero,
        dn_v: zero,
        temp_c: zero,
        raw_voltage,
        raw_current: 0,
    }
}

fn packet() -> [Sample; 4] {
    [sample(1), sample(2), sample(3), sample(4)]
}

#[test]
fn outputs_follow_the_file_or_the_mode() {
    let csv = LogOutput::new(Some(Some("csv")), true, true, true).unwrap();
    assert_eq!(csv.fmt, OutputFormat::Csv);
    let json = LogOutput::new(None, true, false, true).unwrap();
    assert_eq!(json.fmt, OutputFormat::JsonStdout);
    let tab = LogOutput::new(None, false, false, true).unwrap();
    assert_eq!(tab.fmt, OutputFormat::TabStdout);
    let no_extension = LogOutput::new(Some(None), false, true, true);
    assert!(matches!(no_extension, Err(FormatError::UnknownOutput(e)) if e.is_empty()));
    let disabled = LogOutput::new(Some(Some("parquet")), false, true, false);
    assert!(matches!(disabled, Err(FormatError::ParquetDisabled)));
}

#[test]
fn samples_are_written_or_held() {
    let expected = [
        (Some("csv"), Emission::CsvRow, false),
        (Some("jsonl"), Emission::JsonLine, false),
        (Some("xlsx"), Emission::Held, true),
        (Some("parquet"), Emission::Held, true),
    ];
    for (extension, emission, held) in expected {
        let mut out = LogOutput::new(Some(extension), false, true, true).unwrap();
        assert_eq!(out.write(&sample(7)), emission);
        assert_eq!(out.write(&sample(8)), emission);
        let kept: Vec<u32> = out.buffered_samples.iter().map(|s| s.raw_voltage).collect();
        assert_eq!(kept, if held { vec![7, 8] } else { vec![] });
        assert_eq!(out.flush(), held);
        assert!(out.header().is_none());
    }
}

#[test]
fn stdout_modes_print() {
    let mut json = LogOutput::new(None, true, true, true).unwrap();
    assert_eq!(json.write(&sample(1)), Emission::JsonPrint);
    assert!(json.header().is_none());
    let mut tab = LogOutput::new(None, false, true, true).unwrap();
    assert_eq!(tab.write(&sample(1)), Emission::TabPrint);
    assert_eq!(
        tab.header(),
        Some("time_s\tvoltage_V\tcurrent_A\tpower_W\tdp_V\tdn_V\ttemp_C")
    );
    let ble = LogOutput::new(None, false, false, true).unwrap();
    assert_eq!(ble.header(), Some("time_s\tvoltage_V\tcurrent_A\tpower_W"));
    assert!(!ble.flush());
}

#[test]
fn packet_samples_get_times_before_their_arrival() {
    let mut session = LogSession::new(Transport::Usb, 0, None, None);
    let (written, stop) = session.usb_packet(&packet(), &[true; 4], 1000);
    let times: Vec<u64> = written.iter().map(|s| s.timestamp_ms).collect();
    assert_eq!(times, vec![960, 970, 980, 990]);
    assert!(stop.is_none());
    assert_eq!(session.samples_written, 4);
    // Early packets do not reach back before the start.
    let (written, _) = session.usb_packet(&packet(), &[true; 4], 15);
    let times: Vec<u64> = written.iter().map(|s| s.timestamp_ms).collect();
    assert_eq!(times, vec![0, 10, 20, 30]);
}

#[test]
fn samples_that_are_not_admitted_are_dropped() {
    let mut session = LogSession::new(Transport::Usb, 0, None, None);
    let (written, _) = session.usb_packet(&packet(), &[false, true, false, true], 40);
    let kept: Vec<(u32, u64)> = written
        .iter()
        .map(|s| (s.raw_voltage, s.timestamp_ms))
        .collect();
    assert_eq!(kept, vec![(2, 10), (4, 30)]);
}

#[test]
fn logging_stops_at_the_largest_number() {
    let mut session = LogSession::new(Transport::Usb, 0, None, Some(6));
    let (first, stop) = session.usb_packet(&packet(), &[true; 4], 40);
    assert_eq!((first.len(), stop), (4, None));
    let (second, stop) = session.usb_packet(&packet(), &[true; 4], 80);
    assert_eq!((second.len(), stop), (2, Some(Stop::MaxSamples)));
    assert_eq!(session.samples_written, 6);
    let (third, stop) = session.usb_packet(&packet(), &[true; 4], 120);
    assert_eq!((third.len(), stop), (0, Some(Stop::MaxSamples)));
}

#[test]
fn limit_of_zero_writes_nothing() {
    let mut usb = LogSession::new(Transport::Usb, 0, None, Some(0));
    assert_eq!(usb.before_poll(0, false), Some(Stop::MaxSamples));
    let (written, stop) = usb.usb_packet(&packet(), &[true; 4], 40);
    assert_eq!((written.len(), stop), (0, Some(Stop::MaxSamples)));
    let mut ble = LogSession::new(Transport::Ble, 0, None, Some(0));
    assert_eq!(ble.before_poll(0, true), Some(Stop::MaxSamples));
    for admitted in [false, true] {
        assert_eq!(
            ble.ble_sample(&sample(1), admitted, 5),
            (None, Some(Stop::MaxSamples))
        );
    }
    assert_eq!((usb.samples_written, ble.samples_written), (0, 0));
}

#[test]
fn session_with_a_limit_writes_the_first_samples() {
    let admitted = [
        [true, false, true, true],
        [false, false, true, true],
        [true; 4],
    ];
    let run = |most: Option<u64>| {
        let mut session = LogSession::new(Transport::Usb, 0, None, most);
        let mut all = Vec::new();
        for (at, admitted) in (1..).zip(&admitted) {
            all.extend(session.usb_packet(&packet(), admitted, at * 40).0);
        }
        all
    };
    let free = run(None);
    assert_eq!(free.len(), 9);
    for most in 0..12 {
        assert_eq!(run(Some(most as u64)), free[..most.min(9)]);
    }
}

#[test]
fn ble_samples_are_taken_one_at_a_time() {
    let mut session = LogSession::new(Transport::Ble, 0, None, Some(2));
    assert_eq!(session.ble_sample(&sample(1), false, 5), (None, None));
    let (written, stop) = session.ble_sample(&sample(2), true, 6);
    assert_eq!(written.map(|s| (s.raw_voltage, s.timestamp_ms)), Some((2, 6)));
    assert!(stop.is_none());
    let (_, stop) = session.ble_sample(&sample(3), true, 7);
    assert_eq!(stop, Some(Stop::MaxSamples));
}

#[test]
fn ble_session_with_a_limit_writes_the_first_samples() {
    let admitted = [true, false, true, true, false, true];
    let run = |most: Option<u64>| {
        let mut session = LogSession::new(Transport::Ble, 0, None, most);
        let mut all = Vec::new();
        for (at, admitted) in (1u32..).zip(admitted) {
            all.extend(session.ble_sample(&sample(at), admitted, u64::from(at) * 100).0);
        }
        all
    };
    let free = run(None);
    let kept: Vec<(u32, u64)> = free
        .iter()
        .map(|s| (s.raw_voltage, s.timestamp_ms))
        .collect();
    assert_eq!(kept, vec![(1, 100), (3, 300), (4, 400), (6, 600)]);
    for most in 0..6 {
        assert_eq!(run(Some(most as u64)), free[..most.min(4)]);
    }
}

#[test]
fn deadline_comes_first() {
    let span = Span {
        secs: 2,
        nanos: 500,
    };
    let usb = LogSession::new(Transport::Usb, 1_000, Some(span), None);
    assert_eq!(usb.before_poll(2_000_001_499, true), None);
    assert_eq!(
        usb.before_poll(2_000_001_500, true),
        Some(Stop::DurationElapsed)
    );
    assert_eq!(usb.after_poll(true), Some(Stop::Interrupted));
    assert_eq!(usb.after_poll(false), None);
    let ble = LogSession::new(Transport::Ble, 0, None, None);
    assert_eq!(ble.before_poll(u64::MAX, false), None);
    assert_eq!(ble.before_poll(0, true), Some(Stop::Interrupted));
    assert_eq!(ble.after_poll(true), None);
}

#[test]
fn reasons_to_stop_are_told() {
    assert_eq!(
        Stop::DurationElapsed.describe(),
        "Duration elapsed, stopping."
    );
    assert_eq!(Stop::MaxSamples.describe(), "Max samples reached, stopping.");
    assert_eq!(Stop::Interrupted.describe(), "Interrupted, stopping.");
}
