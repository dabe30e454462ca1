use fnirsi::csv_utils::{
    columns, read_jsonl, read_parquet, read_xlsx, row_of, value_in, write_jsonl, BleSampleView,
    Cell, Column, Value,
};
use fnirsi::float::F32;
use fnirsi::sample::Sample;

fn held(v: f32) -> F32 {
    F32 { bits: v.to_bits() }
}

fn sample() -> Sample {
    Sample {
        timestamp_ms: 100,
        voltage_v: held(5.1),
        current_a: held(1.2),
        power_w: held(6.12),
        dp_v: held(0.8),
        dn_v: held(0.1),
        temp_c: held(31.5),
        raw_voltage: 510_000,
        raw_current: 120_000,
    }
}

/// A number as a spreadsheet holds it, converted to each type.
fn number(v: f64) -> Option<Cell> {
    Some(Cell {
        as_u64: v as u64,
        as_u32: v as u32,
        as_f32: held(v as f32),
    })
}

fn stored(value: Value) -> Option<Cell> {
    match value {
        Value::U64(v) => number(v as f64),
        Value::U32(v) => number(f64::from(v)),
        Value::F32(v) => number(f64::from(f32::from_bits(v.bits))),
    }
}

fn header(include_usb_fields: bool) -> Vec<Option<String>> {
    columns(include_usb_fields)
        .iter()
        .map(|c| Some(c.name().to_string()))
        .collect()
}

fn stored_row(include_usb_fields: bool) -> Vec<Option<Cell>> {
    row_of(&sample(), include_usb_fields)
        .into_iter()
        .map(stored)
        .collect()
}

#[test]
fn columns_have_the_names_of_the_fields() {
    let names: Vec<&str> = columns(true).iter().map(|c| c.name()).collect();
    assert_eq!(
        names,
        vec![
            "timestamp_ms",
            "voltage_v",
            "current_a",
            "power_w",
            "dp_v",
            "dn_v",
            "temp_c",
            "raw_voltage",
            "raw_current",
        ]
    );
    assert_eq!(columns(false), columns(true)[..4]);
}

#[test]
fn rows_hold_the_values_of_the_columns() {
    let row = row_of(&sample(), true);
    assert_eq!(row.len(), 9);
    assert_eq!(row[0], Value::U64(100));
    assert_eq!(row[3], Value::F32(held(6.12)));
    assert_eq!(row[8], Value::U32(120_000));
    assert_eq!(row_of(&sample(), false), row[..4]);
    assert_eq!(value_in(&sample(), Column::TempC), Value::F32(held(31.5)));
}

#[test]
fn tables_with_usb_columns_round_trip() {
    for read in [read_xlsx, read_parquet] {
        let samples = read(&header(true), &vec![stored_row(true), stored_row(true)]);
        assert_eq!(samples, vec![sample(), sample()]);
    }
}

#[test]
fn tables_without_usb_columns_give_zero_for_them() {
    for read in [read_xlsx, read_parquet] {
        let samples = read(&header(false), &vec![stored_row(false)]);
        assert_eq!(samples.len(), 1);
        let s = samples[0];
        assert_eq!(s.timestamp_ms, 100);
        assert_eq!(s.voltage_v, held(5.1));
        assert_eq!(s.power_w, held(6.12));
        assert_eq!(s.dp_v, held(0.0));
        assert_eq!(s.dn_v, held(0.0));
        assert_eq!(s.temp_c, held(0.0));
        assert_eq!(s.raw_voltage, 0);
        assert_eq!(s.raw_current, 0);
    }
}

#[test]
fn of_two_columns_of_a_name_one_counts() {
    let titles = vec![
        Some("voltage_v".to_string()),
        None,
        Some("other".to_string()),
        Some("voltage_v".to_string()),
    ];
    let row = vec![number(1.0), number(2.0), number(3.0), number(4.0)];
    let last = read_xlsx(&titles, &vec![row.clone()]);
    assert_eq!(last[0].voltage_v, held(4.0));
    let first = read_parquet(&titles, &vec![row]);
    assert_eq!(first[0].voltage_v, held(1.0));
}

#[test]
fn missing_cells_are_zero() {
    let titles = header(true);
    let rows = vec![vec![], vec![None, number(7.5)]];
    let samples = read_xlsx(&titles, &rows);
    assert_eq!(samples[0].timestamp_ms, 0);
    assert_eq!(samples[0].voltage_v, held(0.0));
    assert_eq!(samples[1].timestamp_ms, 0);
    assert_eq!(samples[1].voltage_v, held(7.5));
    assert_eq!(read_xlsx(&titles, &vec![]).len(), 0);
}

#[test]
fn ble_view_holds_the_measured_part() {
    assert_eq!(
        BleSampleView::of_sample(&sample()),
        BleSampleView {
            timestamp_ms: 100,
            voltage_v: held(5.1),
            current_a: held(1.2),
            power_w: held(6.12),
        }
    );
}

#[test]
fn objects_are_framed_on_lines() {
    let objects = vec!["{\"a\":1}".to_string(), "{}".to_string()];
    assert_eq!(write_jsonl(&objects), "{\"a\":1}\n{}\n");
    assert_eq!(write_jsonl(&vec![]), "");
}

#[test]
fn blank_lines_hold_no_object() {
    let file = "{\"a\":1}\n\n \t\r\n{}\n\u{A0}\n";
    assert_eq!(read_jsonl(file), vec!["{\"a\":1}", "{}"]);
    assert_eq!(read_jsonl("\n\r\n"), Vec::<String>::new());
}

#[test]
fn last_line_may_go_without_a_line_feed() {
    assert_eq!(read_jsonl("{}\r\n[1]"), vec!["{}", "[1]"]);
}

#[test]
fn framed_objects_are_read_back() {
    let objects = vec!["{\"x\": 5}".to_string(), "[1]".to_string()];
    assert_eq!(read_jsonl(&write_jsonl(&objects)), objects);
}
