use fnirsi::app::{
    buffer_preset, elapsed_text, interval_ms, rate_preset, rate_text, ConnectionControl,
    ConnectionMode, DeviceMessage, Energy, ExportFormat, FnirsiApp, FrameAction, FramePlan,
    Metered, Outline, Status,
};
use fnirsi::device::{DeviceInfo, DeviceType};
use fnirsi::duration::Span;
use fnirsi::float::{F32, F64};
use fnirsi::plots::Total;
use fnirsi::sample::{Sample, SamplePacket};

fn held(v: f32) -> F32 {
    F32 { bits: v.to_bits() }
}

fn plain(v: F32) -> f32 {
    f32::from_bits(v.bits)
}

fn wide(v: f64) -> F64 {
    F64 { bits: v.to_bits() }
}

fn total(v: f64) -> Total {
    Total {
        exact: wide(v),
        narrow: held(v as f32),
    }
}

fn sample(timestamp_ms: u64, voltage_v: f32, current_a: f32) -> Sample {
    Sample {
        timestamp_ms,
        voltage_v: held(voltage_v),
        current_a: held(current_a),
        power_w: held(voltage_v * current_a),
        dp_v: held(0.0),
        dn_v: held(0.0),
        temp_c: held(0.0),
        raw_voltage: 0,
        raw_current: 0,
    }
}

fn energy_ws(app: &FnirsiApp) -> f64 {
    f64::from_bits(app.energy.energy_ws.bits)
}

fn capacity_as(app: &FnirsiApp) -> f64 {
    f64::from_bits(app.energy.capacity_as.bits)
}

/// The running totals after `s`: power and current are averaged over the
/// interval since the sample before.
fn metered(energy: Energy, latest: Option<Sample>, s: &Sample) -> Metered {
    let mut energy_ws = f64::from_bits(energy.energy_ws.bits);
    let mut capacity_as = f64::from_bits(energy.capacity_as.bits);
    let dt = interval_ms(&latest, s) as f64 / 1000.0;
    if let Some(prev) = latest {
        if dt > 0.0 {
            let power = f64::midpoint(
                f64::from(plain(s.power_w)),
                f64::from(plain(prev.power_w)),
            );
            let current = f64::midpoint(
                f64::from(plain(s.current_a)),
                f64::from(plain(prev.current_a)),
            );
            energy_ws += power * dt;
            capacity_as += current * dt;
        }
    }
    Metered {
        energy: Energy {
            energy_ws: wide(energy_ws),
            capacity_as: wide(capacity_as),
        },
        energy_wh: total(energy_ws / 3600.0),
        capacity_mah: total(capacity_as / 3.6),
    }
}

fn process(app: &mut FnirsiApp, s: Sample, divider: usize) -> bool {
    let m = metered(app.energy, app.latest, &s);
    app.process_one_sample(s, divider, m)
}

fn metered_batch(app: &FnirsiApp, batch: &[Sample]) -> Vec<Metered> {
    let mut energy = app.energy;
    let mut latest = app.latest;
    let mut out = Vec::new();
    for s in batch {
        let m = metered(energy, latest, s);
        energy = m.energy;
        latest = Some(*s);
        out.push(m);
    }
    out
}

fn process_batch(app: &mut FnirsiApp, batch: &[Sample]) {
    let totals = metered_batch(app, batch);
    app.process_sample_batch(batch, &totals);
}

#[test]
fn device_message_size() {
    assert_eq!(std::mem::size_of::<Sample>(), 40);
    assert_eq!(std::mem::size_of::<SamplePacket>(), 160);
    assert_eq!(std::mem::size_of::<DeviceMessage>(), 168);
}

#[test]
fn process_one_sample_accumulates_energy_and_updates_latest() {
    let mut app = FnirsiApp::default_state();
    app.connected = true;

    assert!(process(&mut app, sample(0, 5.0, 1.0), 1));
    assert_eq!(app.latest.map(|s| s.timestamp_ms), Some(0));
    assert!(energy_ws(&app).abs() < 1e-9); // first sample has no preceding dt

    // 1000 ms later at the same power -> 5 W held for 1 s = 5 Ws of energy.
    assert!(process(&mut app, sample(1000, 5.0, 1.0), 1));
    assert!((energy_ws(&app) - 5.0).abs() < 1e-9);
    assert!((capacity_as(&app) - 1.0).abs() < 1e-9);
    assert_eq!(app.latest.map(|s| s.timestamp_ms), Some(1000));
    assert_eq!(app.recording_ms, 1000);
}

#[test]
fn process_one_sample_stops_batch_at_duration_limit() {
    let mut app = FnirsiApp::default_state();
    app.connected = true;
    app.duration_limit = Some(Span {
        secs: 0,
        nanos: 500_000_000,
    });
    app.duration_start_ms = 0;

    assert!(process(&mut app, sample(0, 5.0, 1.0), 1));
    assert!(!app.paused);

    // Past the 500 ms limit: should pause and tell the caller to stop.
    let keep_going = process(&mut app, sample(600, 5.0, 1.0), 1);
    assert!(!keep_going);
    assert!(app.paused);
}

#[test]
fn process_sample_batch_processes_every_sample_in_a_packet() {
    let mut app = FnirsiApp::default_state();
    app.connected = true;

    let packet: SamplePacket = [
        sample(0, 1.0, 1.0),
        sample(10, 1.0, 1.0),
        sample(20, 1.0, 1.0),
        sample(30, 1.0, 1.0),
    ];
    process_batch(&mut app, &packet);

    assert_eq!(app.recording_ms, 30);
    assert_eq!(app.sample_counter, 4);
}

#[test]
fn limit_leaves_a_gap_and_ignores_the_rest() {
    let mut app = FnirsiApp::default_state();
    app.connected = true;
    app.duration_input = " 20ms ".to_string();
    assert!(app.duration_edited());
    let packet = [
        sample(0, 1.0, 1.0),
        sample(10, 1.0, 1.0),
        sample(20, 1.0, 1.0),
        sample(30, 1.0, 1.0),
    ];
    process_batch(&mut app, &packet);
    assert!(app.paused);
    assert_eq!(app.sample_counter, 2);
    assert_eq!(app.recording_ms, 10);
    assert_eq!(app.latest.map(|s| s.timestamp_ms), Some(20));
    let stored = app.plots.export_samples();
    let times: Vec<u64> = stored.iter().map(|s| s.timestamp_ms).collect();
    assert_eq!(times, vec![0, 10, 21]);
    assert!(plain(stored[2].voltage_v).is_nan());
    assert!(plain(stored[2].temp_c).is_nan());
    assert_eq!(app.status.show(""), "Duration elapsed (20ms), paused.");
    // The gap is not exported.
    assert_eq!(app.export_samples().unwrap().len(), 2);
}

#[test]
fn progress_towards_a_limit_is_shown() {
    let mut app = FnirsiApp::default_state();
    app.connected = true;
    let limit = Span { secs: 5, nanos: 0 };
    app.duration_limit = Some(limit);
    app.duration_start_ms = 100;
    process_batch(&mut app, &[sample(1350, 1.0, 1.0)]);
    assert_eq!(app.status.progress(), Some((1250, limit)));
    assert_eq!(app.status.show("1.2s / 5.0s"), "Recording... 1.2s / 5.0s");
}

#[test]
fn paused_samples_are_not_stored() {
    let mut app = FnirsiApp::default_state();
    app.connected = true;
    process_batch(&mut app, &[sample(0, 1.0, 1.0)]);
    app.toggle_pause();
    let before = energy_ws(&app);
    process_batch(&mut app, &[sample(1000, 9.0, 1.0), sample(2000, 9.0, 1.0)]);
    assert_eq!(energy_ws(&app), before);
    assert_eq!(app.sample_counter, 1);
    assert_eq!(app.plots.sample_count(), 2); // the sample and the gap
    assert_eq!(app.recording_ms, 2000);
    assert_eq!(app.latest.map(|s| s.timestamp_ms), Some(2000));
}

#[test]
fn downsampling_stores_every_nth_sample() {
    let mut app = FnirsiApp::default_state();
    app.rate_preset_idx = 2;
    let batch: Vec<Sample> = (0..12).map(|i| sample(i * 10, 1.0, 1.0)).collect();
    process_batch(&mut app, &batch);
    let times: Vec<u64> = app
        .plots
        .export_samples()
        .iter()
        .map(|s| s.timestamp_ms)
        .collect();
    assert_eq!(times, vec![0, 50, 100]);
}

#[test]
fn full_buffer_stops_recording_unless_circular() {
    let mut app = FnirsiApp::default_state();
    app.plots.set_capacity(3);
    let batch: Vec<Sample> = (0..5).map(|i| sample(i * 10, 1.0, 1.0)).collect();
    process_batch(&mut app, &batch);
    assert_eq!(app.plots.sample_count(), 3);
    assert_eq!(app.plots.export_samples()[0].timestamp_ms, 0);
    app.circular_buffer = true;
    process_batch(&mut app, &[sample(50, 1.0, 1.0)]);
    assert_eq!(app.plots.sample_count(), 3);
    assert_eq!(app.plots.export_samples()[0].timestamp_ms, 10);
}

#[test]
fn pausing_tells_where_and_resuming_measures_anew() {
    let mut app = FnirsiApp::default_state();
    app.connected = true;
    let limit = Span { secs: 9, nanos: 0 };
    app.duration_limit = Some(limit);
    process_batch(&mut app, &[sample(700, 1.0, 1.0)]);
    app.toggle_pause();
    assert!(app.paused);
    assert_eq!(app.status.progress(), Some((700, limit)));
    assert_eq!(
        app.status.show("0.7s / 9.0s"),
        "Paused (at 0.7s / 9.0s)"
    );
    let stored = app.plots.export_samples();
    assert_eq!(stored[1].timestamp_ms, 701);
    assert!(plain(stored[1].current_a).is_nan());
    app.toggle_pause();
    assert!(!app.paused);
    assert_eq!(app.duration_start_ms, 700);
    assert_eq!(app.status.progress(), Some((0, limit)));
    app.duration_limit = None;
    app.toggle_pause();
    app.toggle_pause();
    assert_eq!(app.status.show(""), "Recording...");
    app.toggle_pause();
    assert_eq!(app.status.show(""), "Paused (at Recording...)");
}

#[test]
fn pausing_before_any_sample_stores_no_gap() {
    let mut app = FnirsiApp::default_state();
    app.toggle_pause();
    assert!(app.plots.is_empty());
    assert_eq!(app.status.show(""), "Paused (at Disconnected)");
}

fn info() -> DeviceInfo {
    DeviceInfo {
        device_type: DeviceType::Fnb58,
        vid: 1,
        pid: 2,
        manufacturer: None,
        product: None,
        serial: None,
        path: None,
    }
}

#[test]
fn messages_change_the_connection() {
    let mut app = FnirsiApp::default_state();
    app.process_message(DeviceMessage::Connected(info()), &[]);
    assert!(!app.connected, "no message is awaited yet");

    assert!(app.connect());
    assert_eq!(app.status.show(""), "Connecting...");
    app.process_message(DeviceMessage::Status("Scanning".to_string()), &[]);
    assert_eq!(app.status.show(""), "Scanning");
    app.process_message(DeviceMessage::Connected(info()), &[]);
    assert!(app.connected);
    assert_eq!(app.status.show(""), "Connected: FNB58");
    assert_eq!(app.device_info.as_ref().map(|i| i.vid), Some(1));

    let s = sample(10, 1.0, 2.0);
    let totals = metered_batch(&app, &[s]);
    app.process_message(DeviceMessage::Sample(s), &totals);
    assert_eq!(app.plots.sample_count(), 1);
    let packet = [s, s, s, s];
    let totals = metered_batch(&app, &packet);
    app.process_message(DeviceMessage::Packet(packet), &totals);
    assert_eq!(app.plots.sample_count(), 5);

    app.process_message(DeviceMessage::Error("lost".to_string()), &[]);
    assert!(!app.connected);
    assert_eq!(app.status.show(""), "Error: lost");
    app.process_message(DeviceMessage::Disconnected, &[]);
    assert_eq!(app.status.show(""), "Disconnected");
    assert!(app.listening);
}

#[test]
fn connecting_starts_afresh() {
    let mut app = FnirsiApp::default_state();
    process_batch(&mut app, &[sample(0, 1.0, 1.0), sample(1000, 1.0, 1.0)]);
    app.paused = true;
    app.duration_input = "1m".to_string();
    assert!(app.connect());
    assert!(app.plots.is_empty());
    assert!(!app.paused);
    assert_eq!(energy_ws(&app), 0.0);
    assert_eq!((app.recording_ms, app.duration_start_ms), (0, 0));
    assert_eq!(app.duration_limit, Some(Span { secs: 60, nanos: 0 }));
    assert!(app.listening);
    app.disconnect();
    assert!(!app.listening && !app.connected);
    assert_eq!(app.status.show(""), "Disconnected");
}

#[test]
fn duration_field_sets_the_limit() {
    let mut app = FnirsiApp::default_state();
    app.duration_input = "nonsense".to_string();
    assert!(app.duration_edited());
    assert_eq!(app.duration_limit, None);
    app.duration_input = "90".to_string();
    assert!(app.duration_edited());
    assert_eq!(app.duration_limit, Some(Span { secs: 90, nanos: 0 }));
    app.duration_input = "1h 30m 0.123456789s".to_string();
    assert!(app.duration_edited());
    assert_eq!(
        app.duration_limit,
        Some(Span {
            secs: 5400,
            nanos: 123_456_789
        })
    );
    app.duration_input = "600000000000s 1ms".to_string();
    assert!(app.duration_edited());
    assert_eq!(
        app.duration_limit,
        Some(Span {
            secs: 600_000_000_000,
            nanos: 1_000_000
        })
    );
    app.duration_input = "18446744073709551615s 1000ms".to_string();
    assert!(!app.duration_edited());
    assert_eq!(app.duration_limit, None);
}

#[test]
fn resetting_keeps_the_time_and_restores_the_capacity() {
    let mut app = FnirsiApp::default_state();
    process_batch(&mut app, &[sample(0, 1.0, 1.0), sample(800, 1.0, 1.0)]);
    app.plots.set_capacity(2);
    app.reset_accumulators();
    assert!(app.plots.is_empty());
    assert_eq!(app.plots.capacity(), 10_000_000 / 48);
    assert_eq!(app.duration_start_ms, 800);
    assert_eq!(energy_ws(&app), 0.0);
}

#[test]
fn imports_are_shown_whole() {
    let mut app = FnirsiApp::default_state();
    app.connected = true;
    app.buffer_preset_idx = 0;
    let samples: Vec<Sample> = (0..3000).map(|i| sample(i * 10, 5.0, 1.0)).collect();
    let totals: Vec<(Total, Total)> = (0..3000)
        .map(|i| (total(f64::from(i)), total(f64::from(i) * 2.0)))
        .collect();
    app.import(
        &samples,
        &totals,
        Energy {
            energy_ws: wide(7.0),
            capacity_as: wide(8.0),
        },
        Some("run.csv".to_string()),
        Some("run".to_string()),
        "/data/run.csv".to_string(),
    );
    assert!(!app.connected);
    assert_eq!(app.plots.sample_count(), 3000);
    assert_eq!(app.plots.capacity(), 100_000 / 48);
    assert_eq!(app.plots.export_samples(), samples);
    assert_eq!(plain(app.plots.energy_wh[2999]), 2999.0);
    assert_eq!(plain(app.plots.capacity_mah[2999]), 5998.0);
    assert_eq!(energy_ws(&app), 7.0);
    assert_eq!(app.plots.latest.voltage, Some(held(5.0)));
    assert_eq!(app.plots.latest.energy, Some(wide(2999.0)));
    assert_eq!(app.plots.latest.capacity, Some(wide(5998.0)));
    assert_eq!(app.plots.generation, 1);
    assert_eq!(app.status.show(""), "Imported: /data/run.csv");
    assert_eq!(app.window_title(), "FNIRSI Power Meter - run.csv");
    assert_eq!(
        app.sync_window_title().as_deref(),
        Some("FNIRSI Power Meter - run.csv")
    );
    assert_eq!(app.sync_window_title(), None);
    assert_eq!(app.export_default_filename(ExportFormat::Xlsx), "run.xlsx");
    // The buffer of an imported file keeps its size.
    app.choose_buffer_preset(1);
    assert_eq!(app.plots.capacity(), 100_000 / 48);
    app.import_failed("bad".to_string());
    assert_eq!(app.status.show(""), "Import error: bad");
    app.clear_imported_file();
    assert_eq!(
        app.export_default_filename(ExportFormat::Jsonl),
        "fnirsi_log.jsonl"
    );
    app.set_imported_file(None, Some(String::new()));
    assert_eq!(
        app.export_default_filename(ExportFormat::Csv),
        "fnirsi_log.csv"
    );
}

#[test]
fn exports_close_the_gaps_and_keep_the_rest() {
    let mut app = FnirsiApp::default_state();
    app.connected = true;
    let taken: Vec<Sample> = (0..6).map(|i| sample(i * 10, 5.0, i as f32)).collect();
    for (i, s) in taken.iter().enumerate() {
        if i == 3 {
            app.toggle_pause();
            app.toggle_pause();
        }
        let m = metered(app.energy, app.latest, s);
        assert!(app.process_one_sample(*s, 1, m));
    }
    assert_eq!(app.plots.sample_count(), 7);
    assert_eq!(app.export_samples(), Some(taken));
}

#[test]
fn nothing_stored_is_not_exported() {
    assert!(FnirsiApp::default_state().export_samples().is_none());
}

#[test]
fn buffer_presets_are_chosen() {
    let labels = [
        "100 KB", "500 KB", "1 MB", "10 MB", "50 MB", "100 MB", "500 MB", "1 GB",
    ];
    let bytes = [
        100_000,
        500_000,
        1_000_000,
        10_000_000,
        50_000_000,
        100_000_000,
        500_000_000,
        1_000_000_000,
    ];
    for idx in 0..8 {
        assert_eq!(buffer_preset(idx), (bytes[idx] / 48, labels[idx]));
    }
    let mut app = FnirsiApp::default_state();
    app.choose_buffer_preset(5);
    assert_eq!(app.plots.capacity(), 100_000_000 / 48);
    app.plots.set_capacity(9);
    app.choose_buffer_preset(5);
    assert_eq!(app.plots.capacity(), 9, "an unchanged choice resizes nothing");
    app.plots.set_capacity(3000);
    for i in 0..3000u32 {
        let at = f64::from(i);
        app.plots
            .push(&sample(u64::from(i), 5.0, 1.0), total(at), total(at * 2.0));
    }
    let latest = app.plots.latest;
    app.choose_buffer_preset(0);
    assert_eq!(app.plots.sample_count(), 2083);
    assert_eq!(app.plots.all_samples[0].timestamp_ms, 917);
    assert_eq!(plain(app.plots.energy_wh[0]), 917.0);
    assert_eq!(plain(app.plots.capacity_mah[0]), 1834.0);
    assert_eq!(app.plots.latest, latest);
    assert_eq!(app.plots.generation, 0);
    let dividers: Vec<usize> = (0..6).map(rate_preset).collect();
    assert_eq!(dividers, vec![1, 2, 5, 10, 50, 100]);
}

#[test]
fn bluetooth_shows_fewer_plots() {
    let mut app = FnirsiApp::default_state();
    app.plot_config.d_lines = true;
    assert!(app.shown_plots().temperature && app.shown_plots().d_lines);
    app.connection_mode = ConnectionMode::Bluetooth;
    assert!(!app.shown_plots().temperature && !app.shown_plots().d_lines);
    assert!(app.shown_plots().voltage);
    assert_eq!(ConnectionMode::Usb.label(), "USB");
    assert_eq!(ConnectionMode::Bluetooth.label(), "Bluetooth");
    assert_eq!(ConnectionMode::Usb.base_rate(), 100);
    assert_eq!(ConnectionMode::Bluetooth.base_rate(), 10);
}

#[test]
fn window_is_drawn_again_while_messages_may_arrive() {
    let mut app = FnirsiApp::default_state();
    assert_eq!(app.repaint_ms(), None);
    app.listening = true;
    assert_eq!(app.repaint_ms(), Some(50));
    app.paused = true;
    assert_eq!(app.repaint_ms(), Some(200));
}

#[test]
fn closing_waits_for_the_reader() {
    let mut app = FnirsiApp::default_state();
    app.connected = true;
    app.listening = true;
    let run = FramePlan {
        cancel_close: false,
        stop_reader: false,
        then_do: FrameAction::Run,
    };
    assert_eq!(app.begin_frame(false, true), run);
    assert_eq!(app.begin_frame(true, false), run);
    assert_eq!(
        app.begin_frame(true, true),
        FramePlan {
            cancel_close: true,
            stop_reader: true,
            then_do: FrameAction::Wait
        }
    );
    assert!(app.shutting_down && !app.connected && !app.listening);
    assert_eq!(
        app.begin_frame(true, true),
        FramePlan {
            cancel_close: true,
            stop_reader: false,
            then_do: FrameAction::Wait
        }
    );
    assert_eq!(
        app.begin_frame(false, false),
        FramePlan {
            cancel_close: false,
            stop_reader: false,
            then_do: FrameAction::Close
        }
    );
}

#[test]
fn export_formats_are_described() {
    let formats = [
        (ExportFormat::Csv, "CSV (.csv)", "csv", "fnirsi_log.csv"),
        (
            ExportFormat::Jsonl,
            "JSON Lines (.jsonl)",
            "jsonl",
            "fnirsi_log.jsonl",
        ),
        (
            ExportFormat::Xlsx,
            "Excel Spreadsheet (.xlsx)",
            "xlsx",
            "fnirsi_log.xlsx",
        ),
        (
            ExportFormat::Parquet,
            "Parquet (.parquet)",
            "parquet",
            "fnirsi_log.parquet",
        ),
    ];
    for (format, label, extension, filename) in formats {
        assert_eq!(format.label(), label);
        assert_eq!(format.extension(), extension);
        assert_eq!(format.default_filename(), filename);
    }
    assert_eq!(ExportFormat::default(), ExportFormat::Csv);
}

#[test]
fn intervals_do_not_go_back() {
    let later = sample(500, 0.0, 0.0);
    assert_eq!(interval_ms(&None, &later), 0);
    assert_eq!(interval_ms(&Some(sample(200, 0.0, 0.0)), &later), 300);
    assert_eq!(interval_ms(&Some(sample(900, 0.0, 0.0)), &later), 0);
}

#[test]
fn status_of_every_sort_is_shown() {
    assert_eq!(Status::RecordingFreely.show("x"), "Recording...");
    assert_eq!(Status::Failed("e".to_string()).show("x"), "Error: e");
    assert_eq!(
        Status::ImportFailed("e".to_string()).show("x"),
        "Import error: e"
    );
    assert_eq!(
        Status::Paused(Box::new(Status::Reported("Recording... now".to_string()))).show("x"),
        "Paused (at now)"
    );
}

/// How long has been recorded, by way of floating-point seconds.
fn formatted(ms: u64) -> String {
    let secs = ms as f64 / 1000.0;
    if secs < 60.0 {
        format!("{secs:.0}s")
    } else if secs < 3600.0 {
        format!("{}m {:.0}s", (secs / 60.0).floor(), secs % 60.0)
    } else if secs < 86400.0 {
        format!(
            "{}h {}m {:.0}s",
            (secs / 3600.0).floor(),
            ((secs % 3600.0) / 60.0).floor(),
            secs % 60.0
        )
    } else {
        format!(
            "{}d {}h",
            (secs / 86400.0).floor(),
            ((secs % 86400.0) / 3600.0).floor()
        )
    }
}

#[test]
fn elapsed_time_is_shown_as_the_formatter_does() {
    assert_eq!(elapsed_text(0), "0s");
    assert_eq!(elapsed_text(59_600), "60s");
    assert_eq!(elapsed_text(61_500), "1m 2s");
    assert_eq!(elapsed_text(62_500), "1m 2s");
    assert_eq!(elapsed_text(3_723_400), "1h 2m 3s");
    assert_eq!(elapsed_text(90_000_000), "1d 1h");
    for step in 0..4000u64 {
        for ms in [step * 250, step * 37_501, step * 86_399_999] {
            assert_eq!(elapsed_text(ms), formatted(ms), "{ms}");
        }
    }
}

#[test]
fn sample_rates_are_shown_as_the_formatter_does() {
    for (mode, base) in [
        (ConnectionMode::Usb, 100.0),
        (ConnectionMode::Bluetooth, 10.0),
    ] {
        for idx in 0..6 {
            let rate = base / (rate_preset(idx) as f64);
            let label = if rate >= 1.0 {
                format!("{rate:.0} Hz")
            } else {
                format!("{rate:.2} Hz")
            };
            assert_eq!(rate_text(mode, idx), label);
        }
    }
}

#[test]
fn buttons_follow_the_connection() {
    let mut app = FnirsiApp::default_state();
    assert_eq!(app.connection_control(), ConnectionControl::Connect);
    app.listening = true;
    assert_eq!(app.connection_control(), ConnectionControl::Cancel);
    app.connected = true;
    assert_eq!(
        app.connection_control(),
        ConnectionControl::Connected { resume: false }
    );
    app.paused = true;
    assert_eq!(
        app.connection_control(),
        ConnectionControl::Connected { resume: true }
    );
}

#[test]
fn duration_field_is_outlined_by_its_value() {
    let mut app = FnirsiApp::default_state();
    for (input, outline) in [
        ("  ", Outline::Plain),
        ("5m", Outline::Valid),
        ("5x", Outline::Invalid),
    ] {
        app.duration_input = input.to_string();
        app.duration_edited();
        assert_eq!(app.duration_outline(), outline);
    }
}

#[test]
fn export_dialog_is_answered_once() {
    let mut app = FnirsiApp::default_state();
    app.request_export();
    assert!(!app.show_export_dialog);
    process_batch(&mut app, &[sample(0, 1.0, 1.0)]);
    app.request_export();
    assert!(app.show_export_dialog);
    assert_eq!(app.answer_export(false, false), None);
    assert!(app.show_export_dialog);
    app.export_format = ExportFormat::Xlsx;
    assert_eq!(app.answer_export(true, false), Some(ExportFormat::Xlsx));
    assert!(!app.show_export_dialog);
    app.request_export();
    assert_eq!(app.answer_export(false, true), None);
    assert!(!app.show_export_dialog);
}
