//! State of the graphical application, and how messages and the user change it.
//!
//! Running totals are computed by the caller, who hands in the values after
//! each sample.

use vstd::prelude::*;
use vstd::string::StringExecFns;

use crate::device::{DeviceInfo, DeviceType};
use crate::duration;
use crate::duration::Span;
use crate::float::{F32, F64, NAN_BITS};
use crate::plots;
use crate::plots::{PlotConfig, PlotState, Total};
use crate::sample::{Sample, SamplePacket};
use crate::text;

verus! {

/// Bits of the quiet NaN of double precision.
pub const WIDE_NAN_BITS: u64 = 0x7ff8_0000_0000_0000;

/// Number of buffer size presets.
pub const BUFFER_PRESET_COUNT: usize = 8;

/// Number of sample rate presets.
pub const RATE_PRESET_COUNT: usize = 6;

/// Messages sent from the reader thread to the GUI.
///
/// BLE notifies one sample at a time, USB decodes four per report.
#[derive(Debug)]
pub enum DeviceMessage {
    Connected(DeviceInfo),
    Status(String),
    Sample(Sample),
    Packet(SamplePacket),
    Error(String),
    Disconnected,
}

/// How the meter is connected.
#[derive(Debug, Clone, Copy, PartialEq, Eq, Structural)]
pub enum ConnectionMode {
    Usb,
    Bluetooth,
}

impl ConnectionMode {
    /// How the mode is called.
    pub open spec fn name(self) -> Seq<char> {
        match self {
            ConnectionMode::Usb => "USB"@,
            ConnectionMode::Bluetooth => "Bluetooth"@,
        }
    }

    /// How the mode is called.
    pub fn label(self) -> (r: &'static str)
        ensures
            r@ == self.name(),
    {
        match self {
            ConnectionMode::Usb => "USB",
            ConnectionMode::Bluetooth => "Bluetooth",
        }
    }

    /// Samples per second that the meter sends.
    pub fn base_rate(self) -> (r: u32)
        ensures
            r == match self {
                ConnectionMode::Usb => 100u32,
                ConnectionMode::Bluetooth => 10u32,
            },
    {
        match self {
            ConnectionMode::Usb => 100,
            ConnectionMode::Bluetooth => 10,
        }
    }
}

/// The formats that the buffer can be exported in.
#[derive(Debug, Clone, Copy, PartialEq, Eq, Structural)]
pub enum ExportFormat {
    Csv,
    Jsonl,
    Xlsx,
    Parquet,
}

impl Default for ExportFormat {
    /// CSV.
    fn default() -> (r: ExportFormat)
        ensures
            r == ExportFormat::Csv,
    {
        ExportFormat::Csv
    }
}

impl ExportFormat {
    /// The format's description in a dialog.
    pub open spec fn title(self) -> Seq<char> {
        match self {
            ExportFormat::Csv => "CSV (.csv)"@,
            ExportFormat::Jsonl => "JSON Lines (.jsonl)"@,
            ExportFormat::Xlsx => "Excel Spreadsheet (.xlsx)"@,
            ExportFormat::Parquet => "Parquet (.parquet)"@,
        }
    }

    /// The extension of the format's files.
    pub open spec fn suffix(self) -> Seq<char> {
        match self {
            ExportFormat::Csv => "csv"@,
            ExportFormat::Jsonl => "jsonl"@,
            ExportFormat::Xlsx => "xlsx"@,
            ExportFormat::Parquet => "parquet"@,
        }
    }

    /// The name of a file that has no better one.
    pub open spec fn fallback_name(self) -> Seq<char> {
        match self {
            ExportFormat::Csv => "fnirsi_log.csv"@,
            ExportFormat::Jsonl => "fnirsi_log.jsonl"@,
            ExportFormat::Xlsx => "fnirsi_log.xlsx"@,
            ExportFormat::Parquet => "fnirsi_log.parquet"@,
        }
    }

    /// The format's description in a dialog.
    pub fn label(self) -> (r: &'static str)
        ensures
            r@ == self.title(),
    {
        match self {
            ExportFormat::Csv => "CSV (.csv)",
            ExportFormat::Jsonl => "JSON Lines (.jsonl)",
            ExportFormat::Xlsx => "Excel Spreadsheet (.xlsx)",
            ExportFormat::Parquet => "Parquet (.parquet)",
        }
    }

    /// The extension of the format's files.
    pub fn extension(self) -> (r: &'static str)
        ensures
            r@ == self.suffix(),
    {
        match self {
            ExportFormat::Csv => "csv",
            ExportFormat::Jsonl => "jsonl",
            ExportFormat::Xlsx => "xlsx",
            ExportFormat::Parquet => "parquet",
        }
    }

    /// The name of a file that has no better one.
    pub fn default_filename(self) -> (r: &'static str)
        ensures
            r@ == self.fallback_name(),
    {
        match self {
            ExportFormat::Csv => "fnirsi_log.csv",
            ExportFormat::Jsonl => "fnirsi_log.jsonl",
            ExportFormat::Xlsx => "fnirsi_log.xlsx",
            ExportFormat::Parquet => "fnirsi_log.parquet",
        }
    }
}

/// Bytes of a buffer size preset.
pub open spec fn preset_bytes(idx: int) -> int {
    if idx == 0 {
        100_000
    } else if idx == 1 {
        500_000
    } else if idx == 2 {
        1_000_000
    } else if idx == 3 {
        10_000_000
    } else if idx == 4 {
        50_000_000
    } else if idx == 5 {
        100_000_000
    } else if idx == 6 {
        500_000_000
    } else {
        1_000_000_000
    }
}

/// Label of a buffer size preset.
pub open spec fn preset_label(idx: int) -> Seq<char> {
    if idx == 0 {
        "100 KB"@
    } else if idx == 1 {
        "500 KB"@
    } else if idx == 2 {
        "1 MB"@
    } else if idx == 3 {
        "10 MB"@
    } else if idx == 4 {
        "50 MB"@
    } else if idx == 5 {
        "100 MB"@
    } else if idx == 6 {
        "500 MB"@
    } else {
        "1 GB"@
    }
}

/// A buffer size preset: the most samples, and the label. A sample takes 48
/// bytes in the buffer.
pub fn buffer_preset(idx: usize) -> (r: (usize, &'static str))
    requires
        idx < BUFFER_PRESET_COUNT,
    ensures
        r.0 == preset_bytes(idx as int) / 48,
        r.1@ == preset_label(idx as int),
{
    match idx {
        0 => (100_000 / plots::BYTES_PER_SAMPLE, "100 KB"),
        1 => (500_000 / plots::BYTES_PER_SAMPLE, "500 KB"),
        2 => (1_000_000 / plots::BYTES_PER_SAMPLE, "1 MB"),
        3 => (10_000_000 / plots::BYTES_PER_SAMPLE, "10 MB"),
        4 => (50_000_000 / plots::BYTES_PER_SAMPLE, "50 MB"),
        5 => (100_000_000 / plots::BYTES_PER_SAMPLE, "100 MB"),
        6 => (500_000_000 / plots::BYTES_PER_SAMPLE, "500 MB"),
        _ => (1_000_000_000 / plots::BYTES_PER_SAMPLE, "1 GB"),
    }
}

/// Divider of a sample rate preset.
pub open spec fn rate_divider(idx: int) -> usize {
    if idx == 0 {
        1
    } else if idx == 1 {
        2
    } else if idx == 2 {
        5
    } else if idx == 3 {
        10
    } else if idx == 4 {
        50
    } else {
        100
    }
}

/// A sample rate preset: the divider of the rate that the meter sends at.
pub fn rate_preset(idx: usize) -> (r: usize)
    requires
        idx < RATE_PRESET_COUNT,
    ensures
        r == rate_divider(idx as int),
{
    match idx {
        0 => 1,
        1 => 2,
        2 => 5,
        3 => 10,
        4 => 50,
        _ => 100,
    }
}

/// Text of the sample rate that a mode and a preset give.
pub open spec fn rate_label(mode: ConnectionMode, idx: int) -> Seq<char> {
    match mode {
        ConnectionMode::Usb => if idx == 0 {
            "100 Hz"@
        } else if idx == 1 {
            "50 Hz"@
        } else if idx == 2 {
            "20 Hz"@
        } else if idx == 3 {
            "10 Hz"@
        } else if idx == 4 {
            "2 Hz"@
        } else {
            "1 Hz"@
        },
        ConnectionMode::Bluetooth => if idx == 0 {
            "10 Hz"@
        } else if idx == 1 {
            "5 Hz"@
        } else if idx == 2 {
            "2 Hz"@
        } else if idx == 3 {
            "1 Hz"@
        } else if idx == 4 {
            "0.20 Hz"@
        } else {
            "0.10 Hz"@
        },
    }
}

/// Text of the sample rate that a mode and a preset give: the rate that the
/// meter sends at over the divider.
pub fn rate_text(mode: ConnectionMode, idx: usize) -> (r: &'static str)
    requires
        idx < RATE_PRESET_COUNT,
    ensures
        r@ == rate_label(mode, idx as int),
{
    match mode {
        ConnectionMode::Usb => match idx {
            0 => "100 Hz",
            1 => "50 Hz",
            2 => "20 Hz",
            3 => "10 Hz",
            4 => "2 Hz",
            _ => "1 Hz",
        },
        ConnectionMode::Bluetooth => match idx {
            0 => "10 Hz",
            1 => "5 Hz",
            2 => "2 Hz",
            3 => "1 Hz",
            4 => "0.20 Hz",
            _ => "0.10 Hz",
        },
    }
}

/// Milliseconds as whole seconds: the nearest, and of two as near the even one.
pub open spec fn rounded_seconds(ms: int) -> int {
    let whole = ms / 1000;
    let rest = ms % 1000;
    if rest < 500 || (rest == 500 && whole % 2 == 0) {
        whole
    } else {
        whole + 1
    }
}

/// A number and a unit.
pub open spec fn amount(n: int, unit: Seq<char>) -> Seq<char> {
    text::decimal_text(n as nat) + unit
}

/// How long has been recorded, by the two or three largest units.
pub open spec fn elapsed_label(ms: int) -> Seq<char> {
    if ms < 60_000 {
        amount(rounded_seconds(ms), "s"@)
    } else if ms < 3_600_000 {
        amount(ms / 60_000, "m "@) + amount(rounded_seconds(ms % 60_000), "s"@)
    } else if ms < 86_400_000 {
        amount(ms / 3_600_000, "h "@) + amount(ms % 3_600_000 / 60_000, "m "@) + amount(
            rounded_seconds(ms % 60_000),
            "s"@,
        )
    } else {
        amount(ms / 86_400_000, "d "@) + amount(ms % 86_400_000 / 3_600_000, "h"@)
    }
}

fn round_seconds(ms: u64) -> (r: u64)
    ensures
        r == rounded_seconds(ms as int),
{
    let whole: u64 = ms / 1000;
    let rest: u64 = ms % 1000;
    if rest < 500 || (rest == 500 && whole % 2 == 0) {
        whole
    } else {
        whole + 1
    }
}

fn push_amount(out: &mut String, n: u64, unit: &str)
    ensures
        final(out)@ == old(out)@ + amount(n as int, unit@),
{
    text::push_decimal(out, n);
    out.append(unit);
    assert(out@ =~= old(out)@ + amount(n as int, unit@));
}

/// How long has been recorded, by the two or three largest units.
pub fn elapsed_text(ms: u64) -> (r: String)
    ensures
        r@ == elapsed_label(ms as int),
{
    let mut out = String::new();
    if ms < 60_000 {
        push_amount(&mut out, round_seconds(ms), "s");
    } else if ms < 3_600_000 {
        push_amount(&mut out, ms / 60_000, "m ");
        push_amount(&mut out, round_seconds(ms % 60_000), "s");
    } else if ms < 86_400_000 {
        push_amount(&mut out, ms / 3_600_000, "h ");
        push_amount(&mut out, ms % 3_600_000 / 60_000, "m ");
        push_amount(&mut out, round_seconds(ms % 60_000), "s");
    } else {
        push_amount(&mut out, ms / 86_400_000, "d ");
        push_amount(&mut out, ms % 86_400_000 / 3_600_000, "h");
    }
    assert(out@ =~= elapsed_label(ms as int));
    out
}

/// What the status line says.
#[derive(Debug)]
pub enum Status {
    Disconnected,
    Connecting,
    Connected(DeviceType),
    /// A message of the reader.
    Reported(String),
    /// Recording against a limit.
    Recording { elapsed_ms: u64, limit: Span },
    /// Recording without a limit.
    RecordingFreely,
    /// The limit, given as text, was reached.
    DurationElapsed(String),
    /// Paused, with what was said before.
    Paused(Box<Status>),
    Imported(String),
    ImportFailed(String),
    Failed(String),
}

impl Status {
    /// The text of the status line. `progress` is the text of the elapsed time
    /// and the limit.
    pub open spec fn shown(self, progress: Seq<char>) -> Seq<char>
        decreases self,
    {
        match self {
            Status::Disconnected => "Disconnected"@,
            Status::Connecting => "Connecting..."@,
            Status::Connected(device_type) => "Connected: "@ + device_type.name(),
            Status::Reported(message) => message@,
            Status::Recording { elapsed_ms, limit } => "Recording... "@ + progress,
            Status::RecordingFreely => "Recording..."@,
            Status::DurationElapsed(limit) => "Duration elapsed ("@ + limit@ + "), paused."@,
            Status::Paused(before) => "Paused (at "@ + text::without(
                before.shown(progress),
                "Recording... "@,
            ) + ")"@,
            Status::Imported(path) => "Imported: "@ + path@,
            Status::ImportFailed(message) => "Import error: "@ + message@,
            Status::Failed(message) => "Error: "@ + message@,
        }
    }

    /// The elapsed time in milliseconds and the limit whose text
    /// [`Status::show`] needs, if it needs any.
    pub open spec fn measured(self) -> Option<(u64, Span)>
        decreases self,
    {
        match self {
            Status::Recording { elapsed_ms, limit } => Some((elapsed_ms, limit)),
            Status::Paused(before) => before.measured(),
            _ => None,
        }
    }

    /// The elapsed time in milliseconds and the limit whose text
    /// [`Status::show`] needs, if it needs any.
    pub fn progress(&self) -> (r: Option<(u64, Span)>)
        ensures
            r == self.measured(),
        decreases self,
    {
        match self {
            Status::Recording { elapsed_ms, limit } => Some((*elapsed_ms, *limit)),
            Status::Paused(before) => before.progress(),
            _ => None,
        }
    }

    /// The text of the status line.
    pub fn show(&self, progress: &str) -> (r: String)
        ensures
            r@ == self.shown(progress@),
        decreases self,
    {
        match self {
            Status::Disconnected => "Disconnected".to_owned(),
            Status::Connecting => "Connecting...".to_owned(),
            Status::Connected(device_type) => text::joined("Connected: ", device_type.label()),
            Status::Reported(message) => message.clone(),
            Status::Recording { elapsed_ms, limit } => text::joined("Recording... ", progress),
            Status::RecordingFreely => "Recording...".to_owned(),
            Status::DurationElapsed(limit) => {
                let mut out = text::joined("Duration elapsed (", limit.as_str());
                out.append("), paused.");
                out
            },
            Status::Paused(before) => {
                proof {
                    reveal_strlit("Recording... ");
                }
                let said = before.show(progress);
                let rest = text::remove_all(said.as_str(), "Recording... ");
                let mut out = text::joined("Paused (at ", rest.as_str());
                out.append(")");
                out
            },
            Status::Imported(path) => text::joined("Imported: ", path.as_str()),
            Status::ImportFailed(message) => text::joined("Import error: ", message.as_str()),
            Status::Failed(message) => text::joined("Error: ", message.as_str()),
        }
    }
}

/// The running totals.
#[derive(Debug, Clone, Copy, PartialEq, Eq, Structural)]
pub struct Energy {
    /// Energy in watt seconds.
    pub energy_ws: F64,
    /// Charge in ampere seconds.
    pub capacity_as: F64,
}

/// The running totals after a sample, and their plotted forms.
#[derive(Debug, Clone, Copy, PartialEq, Eq, Structural)]
pub struct Metered {
    pub energy: Energy,
    /// Energy in watt hours.
    pub energy_wh: Total,
    /// Charge in milliampere hours.
    pub capacity_mah: Total,
}

/// A sample that breaks the plotted lines: a millisecond later, and without a
/// value.
pub open spec fn gap_after(s: Sample) -> Sample {
    let nan = F32 { bits: NAN_BITS };
    Sample {
        timestamp_ms: (s.timestamp_ms + 1) as u64,
        voltage_v: nan,
        current_a: nan,
        power_w: nan,
        dp_v: nan,
        dn_v: nan,
        temp_c: nan,
        ..s
    }
}

/// What an export writes of the stored samples: those that have a value.
pub open spec fn exported(rows: Seq<Sample>) -> Seq<Sample> {
    rows.filter(|s: Sample| !s.voltage_v.nan())
}

/// A total without a value.
pub open spec fn no_total() -> Total {
    Total { exact: F64 { bits: WIDE_NAN_BITS }, narrow: F32 { bits: NAN_BITS } }
}

fn gap_sample(s: &Sample) -> (r: Sample)
    requires
        s.timestamp_ms < u64::MAX,
    ensures
        r == gap_after(*s),
{
    let nan = F32 { bits: NAN_BITS };
    Sample {
        timestamp_ms: s.timestamp_ms + 1,
        voltage_v: nan,
        current_a: nan,
        power_w: nan,
        dp_v: nan,
        dn_v: nan,
        temp_c: nan,
        raw_voltage: s.raw_voltage,
        raw_current: s.raw_current,
    }
}

fn gap_total() -> (r: Total)
    ensures
        r == no_total(),
{
    Total { exact: F64 { bits: WIDE_NAN_BITS }, narrow: F32 { bits: NAN_BITS } }
}

/// Milliseconds from the sample before to `s`: zero where there is none, or
/// the time went back.
pub fn interval_ms(prev: &Option<Sample>, s: &Sample) -> (r: u64)
    ensures
        r == match *prev {
            Some(p) => if s.timestamp_ms > p.timestamp_ms {
                s.timestamp_ms - p.timestamp_ms
            } else {
                0
            },
            None => 0,
        },
{
    match prev {
        Some(p) => s.timestamp_ms.saturating_sub(p.timestamp_ms),
        None => 0,
    }
}

/// Whether `b` stores what `a` does after one more sample.
pub open spec fn one_more_row(
    a: PlotState,
    b: PlotState,
    s: Sample,
    energy_wh: Total,
    capacity_mah: Total,
) -> bool {
    let most = a.sample_capacity as int;
    &&& b@ == plots::ring_pushed(a@, most, s)
    &&& b.energy_wh@ == plots::ring_pushed(a.energy_wh@, most, energy_wh.narrow)
    &&& b.capacity_mah@ == plots::ring_pushed(a.capacity_mah@, most, capacity_mah.narrow)
    &&& b.sample_capacity == a.sample_capacity
    &&& b.generation == a.generation
    &&& b.latest == a.latest.updated(s, energy_wh, capacity_mah)
}

/// Whether `b` stores nothing, and is of the given capacity.
pub open spec fn emptied(a: PlotState, b: PlotState, capacity: int) -> bool {
    &&& b@ == Seq::<Sample>::empty()
    &&& b.energy_wh@ == Seq::<F32>::empty()
    &&& b.capacity_mah@ == Seq::<F32>::empty()
    &&& b.sample_capacity == capacity
    &&& b.generation == (a.generation + 1) % 0x1_0000_0000_0000_0000
    &&& b.latest == plots::Latest::none()
}

/// What taking samples changes.
pub struct Track {
    pub paused: bool,
    pub latest: Option<Sample>,
    pub energy: Energy,
    pub sample_counter: usize,
    pub recording_ms: u64,
    pub rows: Seq<Sample>,
    pub energy_wh: Seq<F32>,
    pub capacity_mah: Seq<F32>,
    pub newest: plots::Latest,
}

/// What the window does in a frame, before anything is drawn.
#[derive(Debug, Clone, Copy, PartialEq, Eq, Structural)]
pub struct FramePlan {
    /// Whether a request to close is turned down for now.
    pub cancel_close: bool,
    /// Whether the reader is told to stop.
    pub stop_reader: bool,
    pub then_do: FrameAction,
}

/// What is drawn in a frame.
#[derive(Debug, Clone, Copy, PartialEq, Eq, Structural)]
pub enum FrameAction {
    /// The application as usual.
    Run,
    /// A notice that the reader is still stopping.
    Wait,
    /// Nothing: the window closes.
    Close,
}

/// The buttons that control the connection.
#[derive(Debug, Clone, Copy, PartialEq, Eq, Structural)]
pub enum ConnectionControl {
    /// Disconnect, and pause or resume.
    Connected { resume: bool },
    /// Cancel the attempt to connect.
    Cancel,
    /// Connect.
    Connect,
}

/// How the duration field is outlined.
#[derive(Debug, Clone, Copy, PartialEq, Eq, Structural)]
pub enum Outline {
    Plain,
    Valid,
    Invalid,
}

/// Main application state.
#[derive(Debug)]
pub struct FnirsiApp {
    pub connected: bool,
    pub device_info: Option<DeviceInfo>,
    /// Whether messages of a reader are awaited.
    pub listening: bool,
    pub plots: PlotState,
    pub latest: Option<Sample>,
    pub energy: Energy,
    pub status: Status,
    pub validate_crc: bool,
    /// Which buffer size preset is chosen.
    pub buffer_preset_idx: usize,
    /// Which sample rate preset is chosen.
    pub rate_preset_idx: usize,
    /// Native sample counter (used for downsampling).
    pub sample_counter: usize,
    pub plot_config: PlotConfig,
    pub lod_enabled: bool,
    pub circular_buffer: bool,
    pub paused: bool,
    pub connection_mode: ConnectionMode,
    /// Whether the export-format dialog is open.
    pub show_export_dialog: bool,
    /// Currently selected export format in the dialog.
    pub export_format: ExportFormat,
    /// Raw text the user types into the duration-limit field.
    pub duration_input: String,
    /// Parsed stop-after duration.
    pub duration_limit: Option<Span>,
    /// Timestamp (ms) of the latest sample received.
    pub recording_ms: u64,
    /// Timestamp (ms) when the current duration measurement started.
    pub duration_start_ms: u64,
    /// Imported file name shown in the native window title.
    pub imported_file_name: Option<String>,
    /// Imported file stem reused as the default export basename.
    pub imported_file_stem: Option<String>,
    /// Last native window title applied.
    pub last_window_title: String,
    /// Whether the GUI is shutting down and waits for the reader.
    pub shutting_down: bool,
}

impl FnirsiApp {
    /// The buffer is in order, and the presets exist.
    pub open spec fn inv(&self) -> bool {
        &&& self.plots.inv()
        &&& self.buffer_preset_idx < BUFFER_PRESET_COUNT
        &&& self.rate_preset_idx < RATE_PRESET_COUNT
    }

    /// The state that the application starts in.
    pub fn default_state() -> (r: FnirsiApp)
        ensures
            r.inv(),
            !r.connected && !r.listening && !r.paused && !r.shutting_down && !r.show_export_dialog,
            r.device_info is None && r.latest is None && r.duration_limit is None,
            r.imported_file_name is None && r.imported_file_stem is None,
            r.plots@ == Seq::<Sample>::empty(),
            r.plots.sample_capacity == preset_bytes(3) / 48,
            r.plots.latest == plots::Latest::none() && r.plots.generation == 0,
            r.energy == (Energy { energy_ws: F64 { bits: 0 }, capacity_as: F64 { bits: 0 } }),
            r.status == Status::Disconnected,
            r.validate_crc && r.lod_enabled && !r.circular_buffer,
            r.buffer_preset_idx == 3 && r.rate_preset_idx == 0,
            r.sample_counter == 0 && r.recording_ms == 0 && r.duration_start_ms == 0,
            r.plot_config == (PlotConfig {
                voltage: true,
                d_lines: false,
                current: true,
                power: true,
                temperature: true,
                energy: false,
                capacity: false,
            }),
            r.connection_mode == ConnectionMode::Usb,
            r.export_format == ExportFormat::Csv,
            r.duration_input@ == Seq::<char>::empty(),
            r.last_window_title@ == "FNIRSI Power Meter"@,
    {
        FnirsiApp {
            connected: false,
            device_info: None,
            listening: false,
            plots: PlotState::new(buffer_preset(3).0),
            latest: None,
            energy: Energy { energy_ws: F64 { bits: 0 }, capacity_as: F64 { bits: 0 } },
            status: Status::Disconnected,
            validate_crc: true,
            buffer_preset_idx: 3,
            rate_preset_idx: 0,
            sample_counter: 0,
            plot_config: PlotConfig {
                voltage: true,
                d_lines: false,
                current: true,
                power: true,
                temperature: true,
                energy: false,
                capacity: false,
            },
            lod_enabled: true,
            circular_buffer: false,
            paused: false,
            connection_mode: ConnectionMode::Usb,
            show_export_dialog: false,
            export_format: ExportFormat::Csv,
            duration_input: String::new(),
            duration_limit: None,
            recording_ms: 0,
            duration_start_ms: 0,
            imported_file_name: None,
            imported_file_stem: None,
            last_window_title: "FNIRSI Power Meter".to_owned(),
            shutting_down: false,
        }
    }

    /// The window's title, with the name of an imported file.
    pub open spec fn titled(&self) -> Seq<char> {
        match self.imported_file_name {
            Some(name) => "FNIRSI Power Meter"@ + " - "@ + name@,
            None => "FNIRSI Power Meter"@,
        }
    }

    /// The window's title.
    pub fn window_title(&self) -> (r: String)
        ensures
            r@ == self.titled(),
    {
        match &self.imported_file_name {
            Some(name) => {
                let mut title = text::joined("FNIRSI Power Meter", " - ");
                title.append(name.as_str());
                title
            },
            None => "FNIRSI Power Meter".to_owned(),
        }
    }

    /// The window's title, if it is not the one applied last.
    pub fn sync_window_title(&mut self) -> (r: Option<String>)
        ensures
            match r {
                Some(title) => title@ == old(self).titled() && old(self).last_window_title@ != old(
                    self,
                ).titled(),
                None => old(self).last_window_title@ == old(self).titled(),
            },
            final(self).last_window_title@ == old(self).titled(),
            *final(self) == (FnirsiApp {
                last_window_title: final(self).last_window_title,
                ..*old(self)
            }),
    {
        let title = self.window_title();
        if title == self.last_window_title {
            None
        } else {
            self.last_window_title = title.clone();
            Some(title)
        }
    }

    /// Forget the imported file.
    pub fn clear_imported_file(&mut self)
        ensures
            *final(self) == (FnirsiApp {
                imported_file_name: None,
                imported_file_stem: None,
                ..*old(self)
            }),
    {
        self.imported_file_name = None;
        self.imported_file_stem = None;
    }

    /// Remember the imported file by its name and its stem.
    pub fn set_imported_file(&mut self, name: Option<String>, stem: Option<String>)
        ensures
            *final(self) == (FnirsiApp {
                imported_file_name: name,
                imported_file_stem: stem,
                ..*old(self)
            }),
    {
        self.imported_file_name = name;
        self.imported_file_stem = stem;
    }

    /// The name that an export is offered under: that of the imported file with
    /// the format's extension, where there is one.
    pub fn export_default_filename(&self, fmt: ExportFormat) -> (r: String)
        ensures
            r@ == match self.imported_file_stem {
                Some(stem) if stem@.len() > 0 => stem@ + "."@ + fmt.suffix(),
                _ => fmt.fallback_name(),
            },
    {
        match &self.imported_file_stem {
            Some(stem) => if stem.as_str().is_empty() {
                fmt.default_filename().to_owned()
            } else {
                let mut name = text::joined(stem.as_str(), ".");
                name.append(fmt.extension());
                name
            },
            None => fmt.default_filename().to_owned(),
        }
    }

    /// Clear all plot data and the running totals.
    pub fn reset_accumulators(&mut self)
        requires
            old(self).inv(),
        ensures
            final(self).inv(),
            *final(self) == (FnirsiApp {
                energy: Energy { energy_ws: F64 { bits: 0 }, capacity_as: F64 { bits: 0 } },
                duration_start_ms: old(self).recording_ms,
                plots: final(self).plots,
                imported_file_name: None,
                imported_file_stem: None,
                ..*old(self)
            }),
            emptied(
                old(self).plots,
                final(self).plots,
                preset_bytes(old(self).buffer_preset_idx as int) / 48,
            ),
    {
        self.energy = Energy { energy_ws: F64 { bits: 0 }, capacity_as: F64 { bits: 0 } };
        self.duration_start_ms = self.recording_ms;
        self.plots.clear();
        let new_cap: usize = buffer_preset(self.buffer_preset_idx).0;
        self.plots.set_capacity(new_cap);
        assert(self.plots@ =~= Seq::<Sample>::empty());
        assert(self.plots.energy_wh@ =~= Seq::<F32>::empty());
        assert(self.plots.capacity_mah@ =~= Seq::<F32>::empty());
        self.clear_imported_file();
    }

    /// The limit that the duration field sets, where its text is one that is
    /// taken.
    pub open spec fn entered_limit(&self) -> Option<Span> {
        match duration::limit_text(self.duration_input@) {
            None => None,
            Some(input) => match duration::outcome(input) {
                Ok(span) => Some(span),
                Err(_) => None,
            },
        }
    }

    /// Whether the text in the duration field is one that is taken.
    pub open spec fn limit_is_taken(&self) -> bool {
        duration::limit_text(self.duration_input@) matches Some(input) ==> duration::moderate(input)
    }

    /// Set the limit from the duration field. Text that is not taken leaves no
    /// limit, and gives `false`.
    pub fn duration_edited(&mut self) -> (r: bool)
        ensures
            r == old(self).limit_is_taken(),
            *final(self) == (FnirsiApp {
                duration_limit: if r {
                    old(self).entered_limit()
                } else {
                    None
                },
                ..*old(self)
            }),
    {
        match duration::try_parse_duration_str(self.duration_input.as_str()) {
            Some(limit) => {
                self.duration_limit = limit;
                true
            },
            None => {
                self.duration_limit = None;
                false
            },
        }
    }

    /// Begin to connect: a reader is started by the caller. Tells whether the
    /// text in the duration field is one that is taken.
    pub fn connect(&mut self) -> (r: bool)
        requires
            old(self).inv(),
        ensures
            final(self).inv(),
            r == old(self).limit_is_taken(),
            *final(self) == (FnirsiApp {
                energy: Energy { energy_ws: F64 { bits: 0 }, capacity_as: F64 { bits: 0 } },
                plots: final(self).plots,
                imported_file_name: None,
                imported_file_stem: None,
                paused: false,
                recording_ms: 0,
                duration_start_ms: 0,
                duration_limit: if r {
                    old(self).entered_limit()
                } else {
                    None
                },
                listening: true,
                status: Status::Connecting,
                ..*old(self)
            }),
            emptied(
                old(self).plots,
                final(self).plots,
                preset_bytes(old(self).buffer_preset_idx as int) / 48,
            ),
    {
        self.reset_accumulators();
        self.paused = false;
        self.recording_ms = 0;
        self.duration_start_ms = 0;
        let taken = self.duration_edited();
        self.listening = true;
        self.status = Status::Connecting;
        taken
    }

    /// Stop listening, and mark the device as disconnected. The reader is
    /// stopped by the caller.
    pub fn disconnect(&mut self)
        ensures
            *final(self) == (FnirsiApp {
                listening: false,
                connected: false,
                device_info: None,
                status: Status::Disconnected,
                ..*old(self)
            }),
    {
        self.listening = false;
        self.connected = false;
        self.device_info = None;
        self.status = Status::Disconnected;
    }

    /// Whether a sample is at or past the duration limit.
    pub open spec fn over_limit(&self, s: Sample) -> bool {
        &&& self.connected
        &&& !self.paused
        &&& self.duration_limit is Some
        &&& (if s.timestamp_ms > self.duration_start_ms {
            s.timestamp_ms - self.duration_start_ms
        } else {
            0
        }) >= self.duration_limit->0.millis()
    }

    /// Whether a sample is stored: it is not skipped by the downsampling, and
    /// there is room, or the oldest makes room.
    pub open spec fn stores(&self, divider: usize) -> bool {
        &&& !self.paused
        &&& if divider == 0 {
            self.sample_counter == 0
        } else {
            self.sample_counter % divider == 0
        }
        &&& self.circular_buffer || self.plots@.len() < self.plots.sample_capacity
    }

    fn is_over_limit(&self, s: &Sample) -> (r: bool)
        ensures
            r == self.over_limit(*s),
    {
        if !self.connected || self.paused {
            return false;
        }
        match self.duration_limit {
            Some(limit) => s.timestamp_ms.saturating_sub(self.duration_start_ms)
                >= limit.as_millis(),
            None => false,
        }
    }

    fn pause_at_limit(&mut self, s: Sample)
        requires
            old(self).inv(),
            s.timestamp_ms < u64::MAX,
        ensures
            final(self).inv(),
            *final(self) == (FnirsiApp {
                status: final(self).status,
                paused: true,
                plots: final(self).plots,
                latest: Some(s),
                ..*old(self)
            }),
            final(self).status is DurationElapsed,
            final(self).status->DurationElapsed_0@ == text::trimmed(old(self).duration_input@),
            one_more_row(
                old(self).plots,
                final(self).plots,
                gap_after(s),
                no_total(),
                no_total(),
            ),
    {
        self.status = Status::DurationElapsed(
            text::trim(self.duration_input.as_str()).to_owned(),
        );
        self.paused = true;
        self.plots.push(&gap_sample(&s), gap_total(), gap_total());
        self.latest = Some(s);
    }

    fn store(&mut self, s: &Sample, divider: usize, metered: Metered)
        requires
            old(self).inv(),
            !old(self).paused,
        ensures
            final(self).inv(),
            *final(self) == (FnirsiApp { plots: final(self).plots, ..*old(self) }),
            if old(self).stores(divider) {
                one_more_row(
                    old(self).plots,
                    final(self).plots,
                    *s,
                    metered.energy_wh,
                    metered.capacity_mah,
                )
            } else {
                final(self).plots == old(self).plots
            },
    {
        if self.sample_counter.is_multiple_of(divider) && (self.circular_buffer
            || self.plots.sample_count() < self.plots.capacity()) {
            self.plots.push(s, metered.energy_wh, metered.capacity_mah);
        }
    }

    /// Take a single sample, with the running totals after it. Returns `false`
    /// if the duration limit was just reached: the recording is then paused, a
    /// gap breaks the lines, and no further samples of the batch are wanted.
    pub fn process_one_sample(&mut self, s: Sample, divider: usize, metered: Metered) -> (r: bool)
        requires
            old(self).inv(),
            old(self).over_limit(s) ==> s.timestamp_ms < u64::MAX,
        ensures
            final(self).inv(),
            r == !old(self).over_limit(s),
            !r ==> {
                &&& *final(self) == (FnirsiApp {
                    status: final(self).status,
                    paused: true,
                    plots: final(self).plots,
                    latest: Some(s),
                    ..*old(self)
                })
                &&& final(self).status is DurationElapsed
                &&& final(self).status->DurationElapsed_0@ == text::trimmed(
                    old(self).duration_input@,
                )
                &&& one_more_row(
                    old(self).plots,
                    final(self).plots,
                    gap_after(s),
                    no_total(),
                    no_total(),
                )
            },
            r ==> {
                &&& *final(self) == (FnirsiApp {
                    energy: if old(self).paused {
                        old(self).energy
                    } else {
                        metered.energy
                    },
                    sample_counter: final(self).sample_counter,
                    plots: final(self).plots,
                    latest: Some(s),
                    recording_ms: s.timestamp_ms,
                    ..*old(self)
                })
                &&& final(self).sample_counter == if old(self).paused {
                    old(self).sample_counter as int
                } else if old(self).sample_counter == usize::MAX {
                    0
                } else {
                    old(self).sample_counter + 1
                }
                &&& if old(self).stores(divider) {
                    one_more_row(
                        old(self).plots,
                        final(self).plots,
                        s,
                        metered.energy_wh,
                        metered.capacity_mah,
                    )
                } else {
                    final(self).plots == old(self).plots
                }
            },
    {
        if self.is_over_limit(&s) {
            self.pause_at_limit(s);
            return false;
        }
        if !self.paused {
            self.energy = metered.energy;
            self.store(&s, divider, metered);
            self.sample_counter = self.sample_counter.wrapping_add(1);
        }
        self.latest = Some(s);
        self.recording_ms = s.timestamp_ms;
        true
    }

    /// What taking samples changes, as it is now.
    pub open spec fn track(&self) -> Track {
        Track {
            paused: self.paused,
            latest: self.latest,
            energy: self.energy,
            sample_counter: self.sample_counter,
            recording_ms: self.recording_ms,
            rows: self.plots@,
            energy_wh: self.plots.energy_wh@,
            capacity_mah: self.plots.capacity_mah@,
            newest: self.plots.latest,
        }
    }

    /// `track` with one more row.
    pub open spec fn with_row(
        &self,
        track: Track,
        s: Sample,
        energy_wh: Total,
        capacity_mah: Total,
    ) -> Track {
        let most = self.plots.sample_capacity as int;
        Track {
            rows: plots::ring_pushed(track.rows, most, s),
            energy_wh: plots::ring_pushed(track.energy_wh, most, energy_wh.narrow),
            capacity_mah: plots::ring_pushed(track.capacity_mah, most, capacity_mah.narrow),
            newest: track.newest.updated(s, energy_wh, capacity_mah),
            ..track
        }
    }

    /// Whether a sample that comes upon `track` is at or past the limit.
    pub open spec fn limit_hit(&self, track: Track, s: Sample) -> bool {
        &&& self.connected
        &&& !track.paused
        &&& self.duration_limit is Some
        &&& (if s.timestamp_ms > self.duration_start_ms {
            s.timestamp_ms - self.duration_start_ms
        } else {
            0
        }) >= self.duration_limit->0.millis()
    }

    /// What `track` becomes with a sample: paused behind a gap where the limit
    /// is hit; otherwise, unless paused, counted and, where it is due and there
    /// is room, stored.
    pub open spec fn advanced(&self, track: Track, s: Sample, metered: Metered) -> Track {
        let divider = rate_divider(self.rate_preset_idx as int);
        if self.limit_hit(track, s) {
            let gap = self.with_row(track, gap_after(s), no_total(), no_total());
            Track { paused: true, latest: Some(s), ..gap }
        } else if track.paused {
            Track { latest: Some(s), recording_ms: s.timestamp_ms, ..track }
        } else {
            let due = track.sample_counter % divider == 0;
            let room = self.circular_buffer || track.rows.len() < self.plots.sample_capacity;
            let stored = if due && room {
                self.with_row(track, s, metered.energy_wh, metered.capacity_mah)
            } else {
                track
            };
            Track {
                latest: Some(s),
                recording_ms: s.timestamp_ms,
                energy: metered.energy,
                sample_counter: if track.sample_counter == usize::MAX {
                    0
                } else {
                    (track.sample_counter + 1) as usize
                },
                ..stored
            }
        }
    }

    /// What becomes of the first `upto` samples of a batch, and whether the
    /// limit was hit, behind which the rest is ignored.
    pub open spec fn after_batch(
        &self,
        batch: Seq<Sample>,
        metered: Seq<Metered>,
        upto: int,
    ) -> (Track, bool)
        decreases upto,
    {
        if upto <= 0 {
            (self.track(), false)
        } else {
            let (track, hit) = self.after_batch(batch, metered, upto - 1);
            if hit {
                (track, true)
            } else {
                (
                    self.advanced(track, batch[upto - 1], metered[upto - 1]),
                    self.limit_hit(track, batch[upto - 1]),
                )
            }
        }
    }

    /// Whether `after` differs from this state in what taking samples changes
    /// alone.
    pub open spec fn same_but_for_samples(&self, after: FnirsiApp) -> bool {
        &&& after == (FnirsiApp {
            paused: after.paused,
            latest: after.latest,
            energy: after.energy,
            sample_counter: after.sample_counter,
            recording_ms: after.recording_ms,
            plots: after.plots,
            status: after.status,
            ..*self
        })
        &&& after.plots.sample_capacity == self.plots.sample_capacity
        &&& after.plots.generation == self.plots.generation
    }

    /// What a batch of samples makes of this state: the samples are taken up to
    /// the one that hits the limit, and the status line tells either that, or
    /// the progress towards the limit.
    pub open spec fn after_samples(
        &self,
        batch: Seq<Sample>,
        metered: Seq<Metered>,
        after: FnirsiApp,
    ) -> bool {
        let (track, hit) = self.after_batch(batch, metered, batch.len() as int);
        &&& self.same_but_for_samples(after)
        &&& after.track() == track
        &&& if hit {
            after.status is DurationElapsed && after.status->DurationElapsed_0@ == text::trimmed(
                self.duration_input@,
            )
        } else if self.connected && !track.paused && self.duration_limit is Some {
            after.status == (Status::Recording {
                elapsed_ms: (if track.recording_ms > self.duration_start_ms {
                    track.recording_ms - self.duration_start_ms
                } else {
                    0
                }) as u64,
                limit: self.duration_limit->0,
            })
        } else {
            after.status == self.status
        }
    }

    /// Take one arrived batch of samples (a BLE notification or a USB packet),
    /// with the running totals after each. The status line shows the progress
    /// towards a limit.
    pub fn process_sample_batch(&mut self, batch: &[Sample], metered: &[Metered])
        requires
            old(self).inv(),
            metered@.len() == batch@.len(),
            old(self).duration_limit is Some ==> forall|i: int|
                0 <= i < batch@.len() ==> (#[trigger] batch@[i]).timestamp_ms < u64::MAX,
        ensures
            final(self).inv(),
            old(self).after_samples(batch@, metered@, *final(self)),
    {
        let divider: usize = rate_preset(self.rate_preset_idx);
        let mut hit: bool = false;
        let mut i: usize = 0;
        while i < batch.len() && !hit
            invariant
                self.inv(),
                i <= batch@.len(),
                metered@.len() == batch@.len(),
                divider == rate_divider(old(self).rate_preset_idx as int),
                old(self).duration_limit is Some ==> forall|j: int|
                    0 <= j < batch@.len() ==> (#[trigger] batch@[j]).timestamp_ms < u64::MAX,
                old(self).same_but_for_samples(*self),
                (self.track(), hit) == old(self).after_batch(batch@, metered@, i as int),
                hit ==> self.paused && self.status is DurationElapsed
                    && self.status->DurationElapsed_0@ == text::trimmed(old(self).duration_input@),
                !hit ==> self.status == old(self).status,
            decreases batch@.len() - i,
        {
            hit = self.take(batch[i], divider, metered[i], Ghost(*old(self)));
            i = i + 1;
        }
        proof {
            if hit {
                limit_ends_the_batch(
                    *old(self),
                    batch@,
                    metered@,
                    i as int,
                    batch@.len() as int,
                );
            }
        }
        if self.connected && !self.paused {
            if let Some(limit) = self.duration_limit {
                self.status = Status::Recording {
                    elapsed_ms: self.recording_ms.saturating_sub(self.duration_start_ms),
                    limit,
                };
            }
        }
    }

    fn take(
        &mut self,
        s: Sample,
        divider: usize,
        metered: Metered,
        Ghost(start): Ghost<FnirsiApp>,
    ) -> (hit: bool)
        requires
            old(self).inv(),
            start.duration_limit is Some ==> s.timestamp_ms < u64::MAX,
            start.same_but_for_samples(*old(self)),
            divider == rate_divider(start.rate_preset_idx as int),
        ensures
            final(self).inv(),
            start.same_but_for_samples(*final(self)),
            final(self).track() == start.advanced(old(self).track(), s, metered),
            hit == start.limit_hit(old(self).track(), s),
            hit ==> final(self).paused && final(self).status is DurationElapsed
                && final(self).status->DurationElapsed_0@ == text::trimmed(start.duration_input@),
            !hit ==> final(self).status == old(self).status,
    {
        !self.process_one_sample(s, divider, metered)
    }

    /// What a message makes of this state, with the running totals after each
    /// of its samples.
    pub open spec fn after_message(
        &self,
        msg: DeviceMessage,
        metered: Seq<Metered>,
        after: FnirsiApp,
    ) -> bool {
        match msg {
            DeviceMessage::Status(message) => after == (FnirsiApp {
                status: Status::Reported(message),
                ..*self
            }),
            DeviceMessage::Connected(info) => after == (FnirsiApp {
                status: Status::Connected(info.device_type),
                device_info: Some(info),
                connected: true,
                ..*self
            }),
            DeviceMessage::Sample(s) => self.after_samples(seq![s], metered, after),
            DeviceMessage::Packet(packet) => self.after_samples(packet@, metered, after),
            DeviceMessage::Error(message) => after == (FnirsiApp {
                status: Status::Failed(message),
                connected: false,
                ..*self
            }),
            DeviceMessage::Disconnected => after == (FnirsiApp {
                status: Status::Disconnected,
                connected: false,
                ..*self
            }),
        }
    }

    /// The samples of a message.
    pub open spec fn samples_of(msg: DeviceMessage) -> Seq<Sample> {
        match msg {
            DeviceMessage::Sample(s) => seq![s],
            DeviceMessage::Packet(packet) => packet@,
            _ => Seq::empty(),
        }
    }

    /// Take a message of the reader, with the running totals after each of its
    /// samples. A message is ignored where none is awaited.
    pub fn process_message(&mut self, msg: DeviceMessage, metered: &[Metered])
        requires
            old(self).inv(),
            metered@.len() == FnirsiApp::samples_of(msg).len(),
            old(self).duration_limit is Some ==> forall|i: int|
                0 <= i < FnirsiApp::samples_of(msg).len() ==> (#[trigger] FnirsiApp::samples_of(
                    msg,
                )[i]).timestamp_ms < u64::MAX,
        ensures
            final(self).inv(),
            !old(self).listening ==> *final(self) == *old(self),
            old(self).listening ==> old(self).after_message(msg, metered@, *final(self)),
    {
        if !self.listening {
            return;
        }
        let ghost all = FnirsiApp::samples_of(msg);
        match msg {
            DeviceMessage::Status(message) => self.reported(message),
            DeviceMessage::Connected(info) => self.now_connected(info),
            DeviceMessage::Sample(s) => {
                assert(all[0] == s);
                self.one_sample(s, metered);
            },
            DeviceMessage::Packet(packet) => self.process_sample_batch(packet.as_slice(), metered),
            DeviceMessage::Error(message) => self.failed(message),
            DeviceMessage::Disconnected => self.lost(),
        }
    }

    fn reported(&mut self, message: String)
        ensures
            *final(self) == (FnirsiApp { status: Status::Reported(message), ..*old(self) }),
    {
        self.status = Status::Reported(message);
    }

    fn now_connected(&mut self, info: DeviceInfo)
        ensures
            *final(self) == (FnirsiApp {
                status: Status::Connected(info.device_type),
                device_info: Some(info),
                connected: true,
                ..*old(self)
            }),
    {
        self.status = Status::Connected(info.device_type);
        self.device_info = Some(info);
        self.connected = true;
    }

    fn failed(&mut self, message: String)
        ensures
            *final(self) == (FnirsiApp {
                status: Status::Failed(message),
                connected: false,
                ..*old(self)
            }),
    {
        self.status = Status::Failed(message);
        self.connected = false;
    }

    fn lost(&mut self)
        ensures
            *final(self) == (FnirsiApp {
                status: Status::Disconnected,
                connected: false,
                ..*old(self)
            }),
    {
        self.status = Status::Disconnected;
        self.connected = false;
    }

    fn one_sample(&mut self, s: Sample, metered: &[Metered])
        requires
            old(self).inv(),
            metered@.len() == 1,
            old(self).duration_limit is Some ==> s.timestamp_ms < u64::MAX,
        ensures
            final(self).inv(),
            old(self).after_samples(seq![s], metered@, *final(self)),
    {
        let batch: [Sample; 1] = [s];
        assert(batch@ =~= seq![s]);
        self.process_sample_batch(batch.as_slice(), metered);
    }

    /// Pause or resume. Pausing breaks the plotted lines behind the latest
    /// sample; resuming measures the duration anew.
    pub fn toggle_pause(&mut self)
        requires
            old(self).inv(),
            !old(self).paused && old(self).latest is Some ==> old(self).latest->0.timestamp_ms
                < u64::MAX,
        ensures
            final(self).inv(),
            old(self).paused ==> *final(self) == (FnirsiApp {
                paused: false,
                duration_start_ms: old(self).recording_ms,
                status: match old(self).duration_limit {
                    Some(limit) => Status::Recording { elapsed_ms: 0, limit },
                    None => Status::RecordingFreely,
                },
                ..*old(self)
            }),
            !old(self).paused ==> {
                &&& *final(self) == (FnirsiApp {
                    paused: true,
                    status: Status::Paused(Box::new(old(self).status)),
                    plots: final(self).plots,
                    ..*old(self)
                })
                &&& match old(self).latest {
                    Some(s) => one_more_row(
                        old(self).plots,
                        final(self).plots,
                        gap_after(s),
                        no_total(),
                        no_total(),
                    ),
                    None => final(self).plots == old(self).plots,
                }
            },
    {
        if self.paused {
            self.paused = false;
            self.duration_start_ms = self.recording_ms;
            self.status = match self.duration_limit {
                Some(limit) => Status::Recording { elapsed_ms: 0, limit },
                None => Status::RecordingFreely,
            };
        } else {
            self.paused = true;
            let mut before = Status::Disconnected;
            core::mem::swap(&mut self.status, &mut before);
            self.status = Status::Paused(Box::new(before));
            if let Some(s) = self.latest {
                self.plots.push(&gap_sample(&s), gap_total(), gap_total());
            }
        }
    }

    /// The samples that an export writes: all that are stored but for those
    /// that only break the lines. Nothing stored is not exported.
    pub fn export_samples(&self) -> (r: Option<Vec<Sample>>)
        requires
            self.plots.inv(),
        ensures
            r is None <==> self.plots@.len() == 0,
            r matches Some(samples) ==> samples@ == exported(self.plots@),
    {
        let samples = self.plots.export_samples();
        if samples.len() == 0 {
            return None;
        }
        let ghost keep = |s: Sample| !s.voltage_v.nan();
        let mut kept: Vec<Sample> = Vec::new();
        let mut i: usize = 0;
        proof {
            reveal(Seq::filter);
        }
        while i < samples.len()
            invariant
                i <= samples@.len(),
                keep == (|s: Sample| !s.voltage_v.nan()),
                kept@ == samples@.subrange(0, i as int).filter(keep),
            decreases samples@.len() - i,
        {
            proof {
                reveal(Seq::filter);
                let next = samples@.subrange(0, i + 1);
                assert(next.drop_last() =~= samples@.subrange(0, i as int));
                assert(next.last() == samples@[i as int]);
            }
            let s = samples[i];
            if !s.voltage_v.is_nan() {
                kept.push(s);
            }
            i = i + 1;
        }
        assert(samples@.subrange(0, i as int) =~= samples@);
        Some(kept)
    }

    /// Show an imported file: its samples with the running totals before each,
    /// and those at the end. Any device is disconnected.
    pub fn import(
        &mut self,
        samples: &Vec<Sample>,
        totals: &Vec<(Total, Total)>,
        energy: Energy,
        name: Option<String>,
        stem: Option<String>,
        path: String,
    )
        requires
            old(self).inv(),
            totals@.len() == samples@.len(),
            samples@.len() * 32 <= isize::MAX,
        ensures
            final(self).inv(),
            *final(self) == (FnirsiApp {
                listening: false,
                connected: false,
                device_info: None,
                status: Status::Imported(path),
                energy,
                duration_start_ms: old(self).recording_ms,
                plots: final(self).plots,
                imported_file_name: name,
                imported_file_stem: stem,
                ..*old(self)
            }),
            final(self).plots@ == samples@,
            final(self).plots.energy_wh@ == totals@.map_values(|t: (Total, Total)| t.0.narrow),
            final(self).plots.capacity_mah@ == totals@.map_values(|t: (Total, Total)| t.1.narrow),
            final(self).plots.sample_capacity == preset_bytes(
                old(self).buffer_preset_idx as int,
            ) / 48,
            final(self).plots.latest == plots::latest_of(samples@, totals@),
            final(self).plots.generation == (old(self).plots.generation + 1)
                % 0x1_0000_0000_0000_0000,
    {
        self.disconnect();
        self.reset_accumulators();
        self.set_imported_file(name, stem);
        self.plots.reserve(samples.len());
        let ghost ready = *self;
        let mut i: usize = 0;
        while i < samples.len()
            invariant
                self.inv(),
                i <= samples@.len(),
                totals@.len() == samples@.len(),
                *self == (FnirsiApp { plots: self.plots, ..ready }),
                self.plots.sample_capacity == ready.plots.sample_capacity,
                self.plots.generation == ready.plots.generation,
                self.plots.latest == plots::latest_of(
                    samples@.subrange(0, i as int),
                    totals@.subrange(0, i as int),
                ),
                self.plots@ == samples@.subrange(0, i as int),
                self.plots.energy_wh@ == totals@.subrange(0, i as int).map_values(
                    |t: (Total, Total)| t.0.narrow,
                ),
                self.plots.capacity_mah@ == totals@.subrange(0, i as int).map_values(
                    |t: (Total, Total)| t.1.narrow,
                ),
            decreases samples@.len() - i,
        {
            proof {
                assert(samples@.subrange(0, i + 1).drop_last() =~= samples@.subrange(0, i as int));
                assert(totals@.subrange(0, i + 1).drop_last() =~= totals@.subrange(0, i as int));
            }
            let (energy_wh, capacity_mah) = totals[i];
            self.plots.push_unlimited(&samples[i], energy_wh, capacity_mah);
            i = i + 1;
            assert(self.plots@ =~= samples@.subrange(0, i as int));
            assert(self.plots.energy_wh@ =~= totals@.subrange(0, i as int).map_values(
                |t: (Total, Total)| t.0.narrow,
            ));
            assert(self.plots.capacity_mah@ =~= totals@.subrange(0, i as int).map_values(
                |t: (Total, Total)| t.1.narrow,
            ));
        }
        assert(samples@.subrange(0, i as int) =~= samples@);
        assert(totals@.subrange(0, i as int) =~= totals@);
        self.energy = energy;
        self.status = Status::Imported(path);
    }

    /// Note that a file could not be imported.
    pub fn import_failed(&mut self, message: String)
        ensures
            *final(self) == (FnirsiApp { status: Status::ImportFailed(message), ..*old(self) }),
    {
        self.status = Status::ImportFailed(message);
    }

    /// Choose a buffer size preset. The buffer is resized, unless it shows an
    /// imported file or the preset was chosen already.
    pub fn choose_buffer_preset(&mut self, idx: usize)
        requires
            old(self).inv(),
            idx < BUFFER_PRESET_COUNT,
        ensures
            final(self).inv(),
            *final(self) == (FnirsiApp {
                buffer_preset_idx: idx,
                plots: final(self).plots,
                ..*old(self)
            }),
            if idx != old(self).buffer_preset_idx && old(self).imported_file_name is None {
                let len = old(self).plots@.len() as int;
                let most = preset_bytes(idx as int) / 48;
                let gone = if len > most {
                    len - most
                } else {
                    0
                };
                &&& final(self).plots.sample_capacity == most
                &&& final(self).plots@ == old(self).plots@.subrange(gone, len)
                &&& final(self).plots.energy_wh@ == old(self).plots.energy_wh@.subrange(gone, len)
                &&& final(self).plots.capacity_mah@ == old(self).plots.capacity_mah@.subrange(
                    gone,
                    len,
                )
                &&& final(self).plots.latest == old(self).plots.latest
                &&& final(self).plots.generation == old(self).plots.generation
            } else {
                final(self).plots == old(self).plots
            },
    {
        let changed = idx != self.buffer_preset_idx;
        self.buffer_preset_idx = idx;
        if changed && self.imported_file_name.is_none() {
            let new_cap: usize = buffer_preset(idx).0;
            self.plots.set_capacity(new_cap);
        }
    }

    /// The plots that are drawn: over Bluetooth neither the data lines nor the
    /// temperature are measured.
    pub fn shown_plots(&self) -> (r: PlotConfig)
        ensures
            r == if self.connection_mode == ConnectionMode::Usb {
                self.plot_config
            } else {
                PlotConfig { d_lines: false, temperature: false, ..self.plot_config }
            },
    {
        let mut config = self.plot_config;
        match self.connection_mode {
            ConnectionMode::Usb => {},
            ConnectionMode::Bluetooth => {
                config.d_lines = false;
                config.temperature = false;
            },
        }
        config
    }

    /// The buttons that control the connection.
    pub fn connection_control(&self) -> (r: ConnectionControl)
        ensures
            r == if self.connected {
                ConnectionControl::Connected { resume: self.paused }
            } else if self.listening {
                ConnectionControl::Cancel
            } else {
                ConnectionControl::Connect
            },
    {
        if self.connected {
            ConnectionControl::Connected { resume: self.paused }
        } else if self.listening {
            ConnectionControl::Cancel
        } else {
            ConnectionControl::Connect
        }
    }

    /// How the duration field is outlined: plain where it is blank, and else by
    /// whether it sets a limit.
    pub fn duration_outline(&self) -> (r: Outline)
        ensures
            r == if text::blank(self.duration_input@) {
                Outline::Plain
            } else if self.duration_limit is Some {
                Outline::Valid
            } else {
                Outline::Invalid
            },
    {
        if text::is_blank(self.duration_input.as_str()) {
            Outline::Plain
        } else if self.duration_limit.is_some() {
            Outline::Valid
        } else {
            Outline::Invalid
        }
    }

    /// Open the export dialog, unless there is nothing to export.
    pub fn request_export(&mut self)
        ensures
            *final(self) == (FnirsiApp {
                show_export_dialog: old(self).show_export_dialog || old(self).plots@.len() > 0,
                ..*old(self)
            }),
    {
        if !self.plots.is_empty() {
            self.show_export_dialog = true;
        }
    }

    /// Take the outcome of the export dialog's buttons: the format to export
    /// in, if one was confirmed. Either button closes the dialog.
    pub fn answer_export(&mut self, confirmed: bool, cancelled: bool) -> (r: Option<ExportFormat>)
        ensures
            r == if confirmed {
                Some(old(self).export_format)
            } else {
                None
            },
            *final(self) == (FnirsiApp {
                show_export_dialog: old(self).show_export_dialog && !confirmed && !cancelled,
                ..*old(self)
            }),
    {
        if confirmed || cancelled {
            self.show_export_dialog = false;
        }
        if confirmed {
            Some(self.export_format)
        } else {
            None
        }
    }

    /// Milliseconds until the window is drawn again, where messages may arrive:
    /// slower while paused.
    pub fn repaint_ms(&self) -> (r: Option<u64>)
        ensures
            r == if !self.connected && !self.listening {
                None::<u64>
            } else if self.paused {
                Some(200u64)
            } else {
                Some(50u64)
            },
    {
        if self.connected || self.listening {
            Some(if self.paused { 200 } else { 50 })
        } else {
            None
        }
    }

    /// Begin a frame. A request to close while the reader runs is turned down,
    /// and the reader is told to stop once; the window closes when it has.
    pub fn begin_frame(&mut self, close_requested: bool, reader_running: bool) -> (r: FramePlan)
        ensures
            ({
                let held = close_requested && reader_running;
                let begins = held && !old(self).shutting_down;
                let ending = old(self).shutting_down || begins;
                &&& r == (FramePlan {
                    cancel_close: held,
                    stop_reader: begins,
                    then_do: if !ending {
                        FrameAction::Run
                    } else if reader_running {
                        FrameAction::Wait
                    } else {
                        FrameAction::Close
                    },
                })
                &&& *final(self) == if begins {
                    FnirsiApp {
                        shutting_down: true,
                        listening: false,
                        connected: false,
                        device_info: None,
                        ..*old(self)
                    }
                } else {
                    *old(self)
                }
            }),
    {
        let cancel_close = close_requested && reader_running;
        let stop_reader = cancel_close && !self.shutting_down;
        if stop_reader {
            self.shutting_down = true;
            self.listening = false;
            self.connected = false;
            self.device_info = None;
        }
        let then_do = if !self.shutting_down {
            FrameAction::Run
        } else if reader_running {
            FrameAction::Wait
        } else {
            FrameAction::Close
        };
        FramePlan { cancel_close, stop_reader, then_do }
    }
}

/// Recording law: while paused, samples change nothing but the latest one and
/// the time: nothing is stored, counted or added to the totals.
pub proof fn paused_samples_are_ignored(app: FnirsiApp, track: Track, s: Sample, metered: Metered)
    requires
        track.paused,
    ensures
        app.advanced(track, s, metered) == (Track {
            latest: Some(s),
            recording_ms: s.timestamp_ms,
            ..track
        }),
{
}

/// Recording law: what is stored stays within the capacity.
pub proof fn recording_keeps_the_capacity(
    app: FnirsiApp,
    track: Track,
    s: Sample,
    metered: Metered,
)
    requires
        app.plots.sample_capacity > 0,
        track.rows.len() <= app.plots.sample_capacity,
    ensures
        app.advanced(track, s, metered).rows.len() <= app.plots.sample_capacity,
{
}

/// Recording law: unless the buffer is circular or the limit is hit, no stored
/// sample is ever dropped.
pub proof fn recording_drops_nothing(app: FnirsiApp, track: Track, s: Sample, metered: Metered)
    requires
        !app.circular_buffer,
        !app.limit_hit(track, s),
    ensures
        track.rows.len() <= app.advanced(track, s, metered).rows.len(),
        app.advanced(track, s, metered).rows.subrange(0, track.rows.len() as int) == track.rows,
{
    assert(app.advanced(track, s, metered).rows.subrange(0, track.rows.len() as int)
        =~= track.rows);
}

/// Recording law: a batch is taken as its samples would be one at a time, and
/// nothing of it once the limit is hit.
pub proof fn limit_ends_the_batch(
    app: FnirsiApp,
    batch: Seq<Sample>,
    metered: Seq<Metered>,
    at: int,
    upto: int,
)
    requires
        0 <= at <= upto,
        app.after_batch(batch, metered, at).1,
    ensures
        app.after_batch(batch, metered, upto) == app.after_batch(batch, metered, at),
        app.after_batch(batch, metered, upto).0.paused,
    decreases upto,
{
    if at < upto {
        limit_ends_the_batch(app, batch, metered, at, upto - 1);
    } else if at > 0 {
        if app.after_batch(batch, metered, at - 1).1 {
            limit_ends_the_batch(app, batch, metered, at - 1, at - 1);
        }
    }
}

/// Gap law: the sample that marks a gap has no value in any channel, comes a
/// millisecond behind, and is never exported.
pub proof fn gaps_have_no_value(s: Sample, rows: Seq<Sample>)
    requires
        s.timestamp_ms < u64::MAX,
    ensures
        gap_after(s).timestamp_ms == s.timestamp_ms + 1,
        gap_after(s).voltage_v.nan() && gap_after(s).current_a.nan() && gap_after(s).power_w.nan(),
        gap_after(s).dp_v.nan() && gap_after(s).dn_v.nan() && gap_after(s).temp_c.nan(),
        no_total().narrow.nan() && no_total().exact.nan(),
        !exported(rows).contains(gap_after(s)),
{
    broadcast use vstd::seq_lib::group_filter_ensures;

}

/// Export law: a recording with a gap is exported as the two parts around it,
/// one after the other.
pub proof fn export_closes_the_gaps(before: Seq<Sample>, s: Sample, after: Seq<Sample>)
    ensures
        exported(before.push(gap_after(s)) + after) == exported(before) + exported(after),
{
    let has_value = |r: Sample| !r.voltage_v.nan();
    Seq::filter_distributes_over_add(before.push(gap_after(s)), after, has_value);
    reveal(Seq::filter);
    assert(before.push(gap_after(s)).drop_last() =~= before);
}

/// Export law: samples that all have a value are exported as they were taken,
/// all of them and in order.
pub proof fn export_keeps_the_samples(rows: Seq<Sample>)
    requires
        forall|i: int| 0 <= i < rows.len() ==> !(#[trigger] rows[i]).voltage_v.nan(),
    ensures
        exported(rows) == rows,
    decreases rows.len(),
{
    reveal(Seq::filter);
    if rows.len() > 0 {
        export_keeps_the_samples(rows.drop_last());
        assert(!rows.last().voltage_v.nan());
        assert(rows.drop_last().push(rows.last()) =~= rows);
    }
}

/// Recording law: the limit is hit by a sample that comes as long after the start
/// of the measurement as the limit says, or later, while a device is connected
/// and nothing is paused; never without a limit.
pub proof fn limits_are_hit_in_time(app: FnirsiApp, track: Track, s: Sample)
    ensures
        app.over_limit(s) <==> {
            &&& app.connected
            &&& !app.paused
            &&& app.duration_limit matches Some(limit) && (limit.millis() <= 0 || s.timestamp_ms
                >= app.duration_start_ms + limit.millis())
        },
        app.limit_hit(track, s) <==> {
            &&& app.connected
            &&& !track.paused
            &&& app.duration_limit matches Some(limit) && (limit.millis() <= 0 || s.timestamp_ms
                >= app.duration_start_ms + limit.millis())
        },
{
}

/// The state once `more` further samples are counted.
pub open spec fn counted(app: FnirsiApp, more: int) -> FnirsiApp {
    FnirsiApp { sample_counter: (app.sample_counter + more) as usize, ..app }
}

/// Recording law: of as many samples in a row as the divider says, exactly one is
/// stored in a circular buffer, whatever the count before them. The result is
/// which.
pub proof fn one_sample_in_a_divider_is_stored(app: FnirsiApp, divider: usize) -> (k: int)
    requires
        !app.paused,
        app.circular_buffer,
        0 < divider,
        app.sample_counter + divider <= usize::MAX,
    ensures
        0 <= k < divider,
        forall|j: int|
            0 <= j < divider ==> ((#[trigger] counted(app, j)).stores(divider) <==> j == k),
{
    let counter = app.sample_counter as int;
    let d = divider as int;
    let r = counter % d;
    let q = counter / d;
    let k = if r == 0 {
        0
    } else {
        d - r
    };
    vstd::arithmetic::div_mod::lemma_fundamental_div_mod(counter, d);
    assert forall|j: int| 0 <= j < divider implies ((#[trigger] counted(app, j)).stores(divider)
        <==> j == k) by {
        if r + j < d {
            vstd::arithmetic::div_mod::lemma_fundamental_div_mod_converse(
                counter + j,
                d,
                q,
                r + j,
            );
        } else {
            assert(d * (q + 1) == d * q + d) by (nonlinear_arith);
            vstd::arithmetic::div_mod::lemma_fundamental_div_mod_converse(
                counter + j,
                d,
                q + 1,
                r + j - d,
            );
        }
    }
    k
}

/// Recording law: a sample is stored exactly if nothing is paused, it is due by
/// the divider, and the buffer has room or is circular.
pub proof fn samples_are_stored_when_due(app: FnirsiApp, divider: usize)
    requires
        divider > 0,
    ensures
        app.stores(divider) <==> {
            &&& !app.paused
            &&& app.sample_counter as int % divider as int == 0
            &&& app.circular_buffer || app.plots@.len() < app.plots.sample_capacity
        },
        app.stores(0) <==> {
            &&& !app.paused
            &&& app.sample_counter == 0
            &&& app.circular_buffer || app.plots@.len() < app.plots.sample_capacity
        },
{
}

/// Recording law: a sample that is taken while nothing is paused is the latest,
/// is counted, and brings the totals up to date. Where it is due and there is
/// room it is stored with its own totals behind the others, and elsewhere what is
/// stored stays as it is.
pub proof fn samples_are_taken_as_they_are(
    app: FnirsiApp,
    track: Track,
    s: Sample,
    metered: Metered,
)
    requires
        app.inv(),
        !track.paused,
        !app.limit_hit(track, s),
    ensures
        ({
            let after = app.advanced(track, s, metered);
            let most = app.plots.sample_capacity as int;
            let due = track.sample_counter as int % rate_divider(app.rate_preset_idx as int) as int
                == 0;
            &&& !after.paused
            &&& after.latest == Some(s)
            &&& after.recording_ms == s.timestamp_ms
            &&& after.energy == metered.energy
            &&& track.sample_counter < usize::MAX ==> after.sample_counter == track.sample_counter
                + 1
            &&& track.sample_counter == usize::MAX ==> after.sample_counter == 0
            &&& due && (app.circular_buffer || track.rows.len() < most) ==> {
                &&& after.rows.last() == s
                &&& after.energy_wh.last() == metered.energy_wh.narrow
                &&& after.capacity_mah.last() == metered.capacity_mah.narrow
                &&& after.rows == plots::ring_pushed(track.rows, most, s)
                &&& after.energy_wh == plots::ring_pushed(
                    track.energy_wh,
                    most,
                    metered.energy_wh.narrow,
                )
                &&& after.capacity_mah == plots::ring_pushed(
                    track.capacity_mah,
                    most,
                    metered.capacity_mah.narrow,
                )
                &&& !s.voltage_v.nan() ==> after.newest.voltage == Some(s.voltage_v)
                &&& !s.current_a.nan() ==> after.newest.current == Some(s.current_a)
                &&& !s.power_w.nan() ==> after.newest.power == Some(s.power_w)
                &&& !s.temp_c.nan() ==> after.newest.temp == Some(s.temp_c)
                &&& !metered.energy_wh.narrow.nan() ==> after.newest.energy == Some(
                    metered.energy_wh.exact,
                )
                &&& !metered.capacity_mah.narrow.nan() ==> after.newest.capacity == Some(
                    metered.capacity_mah.exact,
                )
            }
            &&& !(due && (app.circular_buffer || track.rows.len() < most)) ==> after.rows
                == track.rows && after.energy_wh == track.energy_wh && after.capacity_mah
                == track.capacity_mah && after.newest == track.newest
        }),
{
}

/// Recording law: the sample that hits the limit pauses the recording. It becomes
/// the latest, but neither it nor its totals are stored: a gap is, without any
/// value, and what the titles show stays.
pub proof fn limits_pause_behind_a_gap(app: FnirsiApp, track: Track, s: Sample, metered: Metered)
    requires
        app.limit_hit(track, s),
        s.timestamp_ms < u64::MAX,
    ensures
        ({
            let after = app.advanced(track, s, metered);
            let most = app.plots.sample_capacity as int;
            let gap = after.rows.last();
            &&& after.paused
            &&& after.latest == Some(s)
            &&& after.recording_ms == track.recording_ms
            &&& after.energy == track.energy
            &&& after.sample_counter == track.sample_counter
            &&& after.newest == track.newest
            &&& after.rows == plots::ring_pushed(track.rows, most, gap)
            &&& gap.timestamp_ms == s.timestamp_ms + 1
            &&& gap.raw_voltage == s.raw_voltage && gap.raw_current == s.raw_current
            &&& gap.voltage_v.nan() && gap.current_a.nan() && gap.power_w.nan()
            &&& gap.dp_v.nan() && gap.dn_v.nan() && gap.temp_c.nan()
            &&& after.energy_wh.last().nan() && after.capacity_mah.last().nan()
            &&& after.energy_wh == plots::ring_pushed(
                track.energy_wh,
                most,
                after.energy_wh.last(),
            )
            &&& after.capacity_mah == plots::ring_pushed(
                track.capacity_mah,
                most,
                after.capacity_mah.last(),
            )
        }),
{
    let after = app.advanced(track, s, metered);
    assert(after.newest == track.newest);
}

/// Storage law: one more row is the sample with its own totals, behind what was
/// stored, and brings the titles up to date with the values that are numbers.
pub proof fn rows_are_stored_as_they_are(
    a: PlotState,
    b: PlotState,
    s: Sample,
    energy_wh: Total,
    capacity_mah: Total,
)
    requires
        one_more_row(a, b, s, energy_wh, capacity_mah),
    ensures
        b@.last() == s,
        b@ == plots::ring_pushed(a@, a.sample_capacity as int, s),
        b.energy_wh@ == plots::ring_pushed(
            a.energy_wh@,
            a.sample_capacity as int,
            energy_wh.narrow,
        ),
        b.capacity_mah@ == plots::ring_pushed(
            a.capacity_mah@,
            a.sample_capacity as int,
            capacity_mah.narrow,
        ),
        b.sample_capacity == a.sample_capacity,
        b.generation == a.generation,
        b.latest.voltage == if s.voltage_v.nan() {
            a.latest.voltage
        } else {
            Some(s.voltage_v)
        },
        b.latest.current == if s.current_a.nan() {
            a.latest.current
        } else {
            Some(s.current_a)
        },
        b.latest.power == if s.power_w.nan() {
            a.latest.power
        } else {
            Some(s.power_w)
        },
        b.latest.temp == if s.temp_c.nan() {
            a.latest.temp
        } else {
            Some(s.temp_c)
        },
        b.latest.energy == if energy_wh.narrow.nan() {
            a.latest.energy
        } else {
            Some(energy_wh.exact)
        },
        b.latest.capacity == if capacity_mah.narrow.nan() {
            a.latest.capacity
        } else {
            Some(capacity_mah.exact)
        },
{
}

/// Storage law: what is emptied holds no sample, no total and no newest value,
/// is told apart from before by its generation, and has the capacity asked for.
pub proof fn emptied_buffers_hold_nothing(a: PlotState, b: PlotState, capacity: int)
    requires
        emptied(a, b, capacity),
    ensures
        b@.len() == 0,
        b.energy_wh@.len() == 0,
        b.capacity_mah@.len() == 0,
        b.sample_capacity == capacity,
        b.generation != a.generation,
        a.generation < u64::MAX ==> b.generation == a.generation + 1,
        b.latest.voltage is None && b.latest.current is None && b.latest.power is None,
        b.latest.temp is None && b.latest.energy is None && b.latest.capacity is None,
{
}

/// Message law: a message changes what it tells, and nothing else. A connection
/// is shown with its device, a report and an error with their text; an error and
/// the end of a stream both end the connection. None of them touches what is
/// stored.
pub proof fn messages_change_what_they_tell(
    app: FnirsiApp,
    msg: DeviceMessage,
    metered: Seq<Metered>,
    after: FnirsiApp,
)
    requires
        app.after_message(msg, metered, after),
    ensures
        match msg {
            DeviceMessage::Status(message) => {
                &&& after.status == Status::Reported(message)
                &&& after.connected == app.connected
                &&& after.device_info == app.device_info
            },
            DeviceMessage::Connected(info) => {
                &&& after.status == Status::Connected(info.device_type)
                &&& after.connected
                &&& after.device_info == Some(info)
            },
            DeviceMessage::Error(message) => {
                &&& after.status == Status::Failed(message)
                &&& !after.connected
                &&& after.device_info == app.device_info
            },
            DeviceMessage::Disconnected => {
                &&& after.status == Status::Disconnected
                &&& !after.connected
                &&& after.device_info == app.device_info
            },
            DeviceMessage::Sample(s) => app.after_samples(seq![s], metered, after),
            DeviceMessage::Packet(packet) => app.after_samples(packet@, metered, after),
        },
        !(msg is Sample) && !(msg is Packet) ==> {
            &&& after.plots == app.plots
            &&& after.latest == app.latest
            &&& after.energy == app.energy
            &&& after.paused == app.paused
            &&& after.sample_counter == app.sample_counter
            &&& after.recording_ms == app.recording_ms
        },
        after.listening == app.listening,
        after.duration_limit == app.duration_limit,
        after.duration_start_ms == app.duration_start_ms,
        after.duration_input == app.duration_input,
        after.imported_file_name == app.imported_file_name,
        after.imported_file_stem == app.imported_file_stem,
        after.plot_config == app.plot_config,
        after.connection_mode == app.connection_mode,
        after.buffer_preset_idx == app.buffer_preset_idx,
        after.rate_preset_idx == app.rate_preset_idx,
        after.circular_buffer == app.circular_buffer,
        after.lod_enabled == app.lod_enabled,
        after.validate_crc == app.validate_crc,
        after.show_export_dialog == app.show_export_dialog,
        after.export_format == app.export_format,
        after.last_window_title == app.last_window_title,
        after.shutting_down == app.shutting_down,
        after.plots.sample_capacity == app.plots.sample_capacity,
        after.plots.generation == app.plots.generation,
{
}

/// Recording law: behind a batch that did not hit the limit, its last sample is
/// the latest one and tells the time, and the status line shows the progress
/// since the start of the measurement where there is a limit. Behind one that
/// did, the recording is paused, and the status line repeats the limit as it was
/// entered.
pub proof fn batches_show_the_progress(
    app: FnirsiApp,
    batch: Seq<Sample>,
    metered: Seq<Metered>,
    after: FnirsiApp,
)
    requires
        app.after_samples(batch, metered, after),
        batch.len() > 0,
        metered.len() == batch.len(),
    ensures
        after.connected == app.connected,
        after.device_info == app.device_info,
        app.after_batch(batch, metered, batch.len() as int).1 ==> {
            &&& after.paused
            &&& after.status is DurationElapsed
            &&& after.status->DurationElapsed_0@ == text::trimmed(app.duration_input@)
        },
        !app.after_batch(batch, metered, batch.len() as int).1 ==> {
            &&& after.paused == app.paused
            &&& after.latest == Some(batch.last())
            &&& after.recording_ms == batch.last().timestamp_ms
            &&& if app.connected && !app.paused && app.duration_limit is Some {
                &&& after.status is Recording
                &&& after.status->limit == app.duration_limit->0
                &&& batch.last().timestamp_ms >= app.duration_start_ms ==> app.duration_start_ms
                    + after.status->elapsed_ms == batch.last().timestamp_ms
                &&& batch.last().timestamp_ms < app.duration_start_ms ==> after.status->elapsed_ms
                    == 0
            } else {
                after.status == app.status
            }
        },
{
    let n = batch.len() as int;
    if app.after_batch(batch, metered, n).1 {
        limit_ends_the_batch(app, batch, metered, n, n);
    } else {
        unlimited_batches_do_not_pause(app, batch, metered, n);
        unlimited_batches_do_not_pause(app, batch, metered, n - 1);
    }
}

proof fn unlimited_batches_do_not_pause(
    app: FnirsiApp,
    batch: Seq<Sample>,
    metered: Seq<Metered>,
    upto: int,
)
    requires
        !app.after_batch(batch, metered, upto).1,
    ensures
        app.after_batch(batch, metered, upto).0.paused == app.paused,
        !app.after_batch(batch, metered, upto - 1).1,
    decreases upto,
{
    if upto > 0 {
        unlimited_batches_do_not_pause(app, batch, metered, upto - 1);
    }
}

/// Recording law: it makes no difference whether samples arrive in one batch or
/// in two, as long as the first does not hit the limit.
pub proof fn batches_follow_one_another(
    app: FnirsiApp,
    middle: FnirsiApp,
    a: Seq<Sample>,
    b: Seq<Sample>,
    metered_a: Seq<Metered>,
    metered_b: Seq<Metered>,
    upto: int,
)
    requires
        metered_a.len() == a.len(),
        metered_b.len() == b.len(),
        app.after_samples(a, metered_a, middle),
        !app.after_batch(a, metered_a, a.len() as int).1,
        0 <= upto <= b.len(),
    ensures
        app.after_batch(a + b, metered_a + metered_b, a.len() + upto) == middle.after_batch(
            b,
            metered_b,
            upto,
        ),
    decreases upto,
{
    if upto == 0 {
        batches_need_no_more(app, a, b, metered_a, metered_b, a.len() as int);
    } else {
        batches_follow_one_another(app, middle, a, b, metered_a, metered_b, upto - 1);
        let at = a.len() + upto - 1;
        assert((a + b)[at] == b[upto - 1]);
        assert((metered_a + metered_b)[at] == metered_b[upto - 1]);
        let track = middle.after_batch(b, metered_b, upto - 1).0;
        assert(app.limit_hit(track, b[upto - 1]) == middle.limit_hit(track, b[upto - 1]));
        assert(app.advanced(track, b[upto - 1], metered_b[upto - 1]) == middle.advanced(
            track,
            b[upto - 1],
            metered_b[upto - 1],
        ));
    }
}

proof fn batches_need_no_more(
    app: FnirsiApp,
    a: Seq<Sample>,
    b: Seq<Sample>,
    metered_a: Seq<Metered>,
    metered_b: Seq<Metered>,
    upto: int,
)
    requires
        metered_a.len() == a.len(),
        upto <= a.len(),
    ensures
        app.after_batch(a + b, metered_a + metered_b, upto) == app.after_batch(a, metered_a, upto),
    decreases upto,
{
    if upto > 0 {
        batches_need_no_more(app, a, b, metered_a, metered_b, upto - 1);
        assert((a + b)[upto - 1] == a[upto - 1]);
        assert((metered_a + metered_b)[upto - 1] == metered_a[upto - 1]);
    }
}

/// Export law: a sample without a voltage is left out, wherever it stands, and
/// one with a voltage is kept in its place, whatever else it lacks.
pub proof fn export_goes_by_the_voltage(before: Seq<Sample>, s: Sample, after: Seq<Sample>)
    ensures
        s.voltage_v.nan() ==> exported(before + seq![s] + after) == exported(before) + exported(
            after,
        ),
        !s.voltage_v.nan() ==> exported(before + seq![s] + after) == exported(before).push(s)
            + exported(after),
{
    let has_value = |r: Sample| !r.voltage_v.nan();
    Seq::filter_distributes_over_add(before + seq![s], after, has_value);
    reveal(Seq::filter);
    assert((before + seq![s]).drop_last() =~= before);
    assert((before + seq![s]).last() == s);
}

/// Elapsed time law: seconds are rounded to the nearest, and halves to the even
/// one.
pub proof fn seconds_are_rounded_to_the_nearest(ms: int)
    requires
        ms >= 0,
    ensures
        -500 <= rounded_seconds(ms) * 1000 - ms <= 500,
        rounded_seconds(ms) * 1000 - ms == 500 || rounded_seconds(ms) * 1000 - ms == -500
            ==> rounded_seconds(ms) % 2 == 0,
{
}

/// Elapsed time law: a time that is made of days, hours, minutes and the
/// milliseconds left is shown by the largest of them that it has, and by those
/// behind it; with days only the hours are.
pub proof fn elapsed_times_are_shown_by_their_units(d: int, h: int, m: int, ms: int)
    requires
        0 <= d,
        0 <= h < 24,
        0 <= m < 60,
        0 <= ms < 60_000,
    ensures
        ({
            let all = ((d * 24 + h) * 60 + m) * 60_000 + ms;
            let seconds = text::decimal_text(rounded_seconds(ms) as nat) + "s"@;
            &&& d > 0 ==> elapsed_label(all) == text::decimal_text(d as nat) + "d "@ + (
            text::decimal_text(h as nat) + "h"@)
            &&& d == 0 && h > 0 ==> elapsed_label(all) == text::decimal_text(h as nat) + "h "@ + (
            text::decimal_text(m as nat) + "m "@) + seconds
            &&& d == 0 && h == 0 && m > 0 ==> elapsed_label(all) == text::decimal_text(m as nat)
                + "m "@ + seconds
            &&& d == 0 && h == 0 && m == 0 ==> elapsed_label(all) == seconds
        }),
{
    let all = ((d * 24 + h) * 60 + m) * 60_000 + ms;
    assert(all / 86_400_000 == d);
    assert(all % 86_400_000 / 3_600_000 == h);
    assert(all % 60_000 == ms);
    if d == 0 {
        assert(all / 3_600_000 == h);
        assert(all % 3_600_000 / 60_000 == m);
        if h == 0 {
            assert(all / 60_000 == m);
        }
    }
}

/// Status law: while paused, the status line shows what was said before, the
/// words about recording left out: the progress alone, where there was one.
pub proof fn pausing_keeps_what_was_said(before: Box<Status>, progress: Seq<char>)
    ensures
        Status::Paused(before).measured() == before.measured(),
        Status::Paused(before).shown(progress) == "Paused (at "@ + text::without(
            before.shown(progress),
            "Recording... "@,
        ) + ")"@,
        !text::holds(before.shown(progress), "Recording... "@) ==> Status::Paused(before).shown(
            progress,
        ) == "Paused (at "@ + before.shown(progress) + ")"@,
        *before is Recording ==> before.measured() == Some(
            (before->elapsed_ms, before->limit),
        ),
        *before is Recording && !text::holds(progress, "Recording... "@) ==> Status::Paused(
            before,
        ).shown(progress) == "Paused (at "@ + progress + ")"@,
{
    reveal_strlit("Recording... ");
    let words = "Recording... "@;
    if !text::holds(before.shown(progress), words) {
        text::removal_leaves_other_texts(before.shown(progress), words);
    }
    if *before is Recording && !text::holds(progress, words) {
        let none = Seq::<char>::empty();
        assert(none + words + progress =~= words + progress);
        text::removal_takes_each_occurrence(none, words, progress);
        text::removal_leaves_other_texts(progress, words);
        assert(none + progress =~= progress);
    }
}

/// Status law: a status that carries a text shows it behind what kind it is.
pub proof fn statuses_show_their_text(said: String, device_type: DeviceType, progress: Seq<char>)
    ensures
        Status::Reported(said).shown(progress) == said@,
        Status::Connected(device_type).shown(progress) == "Connected: "@ + device_type.name(),
        Status::DurationElapsed(said).shown(progress) == "Duration elapsed ("@ + said@
            + "), paused."@,
        Status::Imported(said).shown(progress) == "Imported: "@ + said@,
        Status::ImportFailed(said).shown(progress) == "Import error: "@ + said@,
        Status::Failed(said).shown(progress) == "Error: "@ + said@,
        Status::Reported(said).measured() is None,
{
}

/// Title law: the window's title is the program's name, and behind it that of an
/// imported file.
pub proof fn titles_end_with_the_file(app: FnirsiApp)
    ensures
        app.imported_file_name is None ==> app.titled() == "FNIRSI Power Meter"@,
        app.imported_file_name matches Some(name) ==> app.titled() == "FNIRSI Power Meter - "@
            + name@,
{
    reveal_strlit("FNIRSI Power Meter");
    reveal_strlit(" - ");
    reveal_strlit("FNIRSI Power Meter - ");
    assert("FNIRSI Power Meter"@ + " - "@ =~= "FNIRSI Power Meter - "@);
}

/// Limit law: the limit that is entered is what its text is parsed as, and there
/// is none where the field is blank or its text is refused.
pub proof fn entered_limits_are_parsed(app: FnirsiApp)
    ensures
        duration::limit_text(app.duration_input@) is None ==> app.entered_limit() is None
            && app.limit_is_taken(),
        duration::limit_text(app.duration_input@) matches Some(input) ==> {
            &&& app.limit_is_taken() == duration::moderate(input)
            &&& match duration::parsed(input) {
                Ok(read) => app.entered_limit() matches Some(span) && span.secs == read.0
                    && span.nanos == read.1,
                Err(_) => app.entered_limit() is None,
            }
        },
{
}

proof fn short_decimals(n: nat)
    requires
        n < 1000,
    ensures
        n < 10 ==> text::decimal_text(n) == seq![text::digit_char(n as int)],
        10 <= n < 100 ==> text::decimal_text(n) == seq![
            text::digit_char(n as int / 10),
            text::digit_char(n as int % 10),
        ],
        100 <= n ==> text::decimal_text(n) == seq![
            text::digit_char(n as int / 100),
            text::digit_char(n as int / 10 % 10),
            text::digit_char(n as int % 10),
        ],
{
    reveal_with_fuel(text::decimal_text, 4);
    if 10 <= n < 100 {
        assert(text::decimal_text(n) =~= seq![
            text::digit_char(n as int / 10),
            text::digit_char(n as int % 10),
        ]);
    } else if 100 <= n {
        assert(text::decimal_text(n) =~= seq![
            text::digit_char(n as int / 100),
            text::digit_char(n as int / 10 % 10),
            text::digit_char(n as int % 10),
        ]);
    }
}

/// Preset law: the rate that a preset is shown with is that of the meter, 100 or
/// 10 samples a second, over its divider, where that is a whole number.
pub proof fn rates_are_shown_as_they_are(idx: int)
    requires
        0 <= idx < 6,
    ensures
        rate_label(ConnectionMode::Usb, idx) == text::decimal_text(
            (100int / rate_divider(idx) as int) as nat,
        ) + " Hz"@,
        100int % rate_divider(idx) as int == 0,
        10int % rate_divider(idx) as int == 0 ==> rate_label(ConnectionMode::Bluetooth, idx)
            == text::decimal_text((10int / rate_divider(idx) as int) as nat) + " Hz"@,
{
    reveal_strlit(" Hz");
    reveal_strlit("100 Hz");
    reveal_strlit("50 Hz");
    reveal_strlit("20 Hz");
    reveal_strlit("10 Hz");
    reveal_strlit("5 Hz");
    reveal_strlit("2 Hz");
    reveal_strlit("1 Hz");
    short_decimals((100int / rate_divider(idx) as int) as nat);
    short_decimals((10int / rate_divider(idx) as int) as nat);
    let rate = 100int / rate_divider(idx) as int;
    let shown = text::decimal_text(rate as nat) + " Hz"@;
    if idx == 0 {
        assert(rate == 100int / 1);
        assert(100int % 1 == 0);
        assert(shown =~= "100 Hz"@);
    } else if idx == 1 {
        assert(rate == 100int / 2);
        assert(100int % 2 == 0);
        assert(shown =~= "50 Hz"@);
    } else if idx == 2 {
        assert(rate == 100int / 5);
        assert(100int % 5 == 0);
        assert(shown =~= "20 Hz"@);
    } else if idx == 3 {
        assert(rate == 100int / 10);
        assert(100int % 10 == 0);
        assert(shown =~= "10 Hz"@);
    } else if idx == 4 {
        assert(rate == 100int / 50);
        assert(100int % 50 == 0);
        assert(shown =~= "2 Hz"@);
    } else {
        assert(rate == 100int / 100);
        assert(100int % 100 == 0);
        assert(shown =~= "1 Hz"@);
    }
    if 10int % rate_divider(idx) as int == 0 {
        assert(rate_label(ConnectionMode::Bluetooth, idx) =~= text::decimal_text(
            (10int / rate_divider(idx) as int) as nat,
        ) + " Hz"@);
    }
}

/// Preset law: the size that a preset is shown with is the size that it has.
pub proof fn sizes_are_shown_as_they_are(idx: int)
    requires
        0 <= idx < 8,
    ensures
        idx < 2 ==> preset_bytes(idx) % 1000 == 0 && preset_label(idx) == text::decimal_text(
            (preset_bytes(idx) / 1000) as nat,
        ) + " KB"@,
        2 <= idx < 7 ==> preset_bytes(idx) % 1_000_000 == 0 && preset_label(idx)
            == text::decimal_text((preset_bytes(idx) / 1_000_000) as nat) + " MB"@,
        idx == 7 ==> preset_bytes(idx) == 1_000_000_000 && preset_label(idx) == "1 GB"@,
{
    reveal_strlit(" KB");
    reveal_strlit(" MB");
    reveal_strlit("100 KB");
    reveal_strlit("500 KB");
    reveal_strlit("1 MB");
    reveal_strlit("10 MB");
    reveal_strlit("50 MB");
    reveal_strlit("100 MB");
    reveal_strlit("500 MB");
    if idx < 2 {
        short_decimals((preset_bytes(idx) / 1000) as nat);
        assert(preset_label(idx) =~= text::decimal_text((preset_bytes(idx) / 1000) as nat)
            + " KB"@);
    } else if idx < 7 {
        short_decimals((preset_bytes(idx) / 1_000_000) as nat);
        assert(preset_label(idx) =~= text::decimal_text((preset_bytes(idx) / 1_000_000) as nat)
            + " MB"@);
    }
}

/// Recording law: a batch is taken sample by sample, from the state it comes
/// upon, up to the sample that hits the limit; and what is then stored, counted
/// and shown is what came of the last one taken.
pub proof fn batches_are_taken_sample_by_sample(
    app: FnirsiApp,
    batch: Seq<Sample>,
    metered: Seq<Metered>,
    after: FnirsiApp,
    k: int,
)
    requires
        app.after_samples(batch, metered, after),
        metered.len() == batch.len(),
        0 <= k < batch.len(),
    ensures
        ({
            let start = app.after_batch(batch, metered, 0).0;
            &&& !app.after_batch(batch, metered, 0).1
            &&& start.paused == app.paused
            &&& start.latest == app.latest
            &&& start.energy == app.energy
            &&& start.sample_counter == app.sample_counter
            &&& start.recording_ms == app.recording_ms
            &&& start.rows == app.plots@
            &&& start.energy_wh == app.plots.energy_wh@
            &&& start.capacity_mah == app.plots.capacity_mah@
            &&& start.newest == app.plots.latest
        }),
        ({
            let (track, hit) = app.after_batch(batch, metered, k);
            let next = app.after_batch(batch, metered, k + 1);
            &&& !hit ==> next.0 == app.advanced(track, batch[k], metered[k])
            &&& !hit ==> next.1 == app.limit_hit(track, batch[k])
            &&& hit ==> next.0 == track && next.1
        }),
        ({
            let end = app.after_batch(batch, metered, batch.len() as int).0;
            &&& after.paused == end.paused
            &&& after.latest == end.latest
            &&& after.energy == end.energy
            &&& after.sample_counter == end.sample_counter
            &&& after.recording_ms == end.recording_ms
            &&& after.plots@ == end.rows
            &&& after.plots.energy_wh@ == end.energy_wh
            &&& after.plots.capacity_mah@ == end.capacity_mah
            &&& after.plots.latest == end.newest
        }),
{
    assert(after.track() == app.after_batch(batch, metered, batch.len() as int).0);
}

} // verus!
