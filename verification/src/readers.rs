//! What the background readers report to the application.

use vstd::prelude::*;
use vstd::string::StringExecFns;

use crate::ble::BleDeviceInfo;
use crate::device::{DeviceInfo, DeviceType};
use crate::logging::Transport;
use crate::sample::{Sample, SamplePacket};
use crate::text;

verus! {

/// Milliseconds between two samples of a USB stream.
pub const STREAM_SPACING_MS: u64 = 10;

/// The operation of a reader that failed.
#[derive(Debug, Clone, Copy, PartialEq, Eq, Structural)]
pub enum Failure {
    /// Connecting to the USB device.
    Connect,
    /// Starting the USB stream.
    Streaming,
    /// Sending a keep-alive.
    Keepalive,
    /// Reading samples.
    Read,
    /// Setting up the runtime of the BLE reader.
    Runtime,
    /// Scanning for BLE devices.
    BleScan,
    /// Connecting to the BLE device.
    BleConnect,
}

impl Failure {
    /// What the report of the failure begins with.
    pub open spec fn lead(self) -> Seq<char> {
        match self {
            Failure::Connect => "Connect failed: "@,
            Failure::Streaming => "Streaming failed: "@,
            Failure::Keepalive => "Keepalive error: "@,
            Failure::Read => "Read error: "@,
            Failure::Runtime => "Failed to create tokio runtime: "@,
            Failure::BleScan => "BLE Scan Error: "@,
            Failure::BleConnect => "BLE Connect Error: "@,
        }
    }

    /// The report of the failure.
    pub fn report(self, cause: &str) -> (r: String)
        ensures
            r@ == self.lead() + cause@,
    {
        text::joined(
            match self {
                Failure::Connect => "Connect failed: ",
                Failure::Streaming => "Streaming failed: ",
                Failure::Keepalive => "Keepalive error: ",
                Failure::Read => "Read error: ",
                Failure::Runtime => "Failed to create tokio runtime: ",
                Failure::BleScan => "BLE Scan Error: ",
                Failure::BleConnect => "BLE Connect Error: ",
            },
            cause,
        )
    }

    /// Whether the end of the stream is reported as well: only a stream that
    /// had started ends.
    pub fn ends_stream(self) -> (r: bool)
        ensures
            r == (self == Failure::Keepalive || self == Failure::Read),
    {
        matches!(self, Failure::Keepalive | Failure::Read)
    }
}

/// What happens to a reader.
#[derive(Debug)]
pub enum ReaderEvent {
    /// It was told to stop.
    Told,
    /// Nothing arrived in time, or nothing that holds samples.
    Idle,
    /// Samples arrived, and were handed over.
    Delivered,
    /// Samples arrived, but nobody takes them any more.
    Unheard,
    /// The device sends no more.
    Ended,
    /// An operation failed, with this cause.
    Failed(Failure, String),
}

/// What a reader does next.
#[derive(Debug)]
pub struct ReaderStep {
    /// Whether it goes on reading.
    pub go_on: bool,
    /// The failure to report first.
    pub report: Option<String>,
    /// Whether it then reports that the device is disconnected.
    pub disconnected: bool,
}

/// What a reader does about an event: it goes on while nothing ends the stream.
/// A failure is reported, and behind it, or without one, the end of a stream
/// that had started. Over USB nothing is reported where nobody listens.
pub fn reader_step(transport: Transport, event: ReaderEvent) -> (r: ReaderStep)
    ensures
        r.go_on == (event is Idle || event is Delivered),
        match (event, r.report) {
            (ReaderEvent::Failed(failure, cause), Some(report)) => report@ == failure.lead()
                + cause@,
            (ReaderEvent::Failed(_, _), None) => false,
            (_, report) => report is None,
        },
        r.disconnected == match event {
            ReaderEvent::Told => true,
            ReaderEvent::Idle => false,
            ReaderEvent::Delivered => false,
            ReaderEvent::Unheard => transport == Transport::Ble,
            ReaderEvent::Ended => true,
            ReaderEvent::Failed(failure, _) => failure == Failure::Keepalive || failure
                == Failure::Read,
        },
{
    match event {
        ReaderEvent::Told => ReaderStep { go_on: false, report: None, disconnected: true },
        ReaderEvent::Idle => ReaderStep { go_on: true, report: None, disconnected: false },
        ReaderEvent::Delivered => ReaderStep { go_on: true, report: None, disconnected: false },
        ReaderEvent::Unheard => ReaderStep {
            go_on: false,
            report: None,
            disconnected: matches!(transport, Transport::Ble),
        },
        ReaderEvent::Ended => ReaderStep { go_on: false, report: None, disconnected: true },
        ReaderEvent::Failed(failure, cause) => ReaderStep {
            go_on: false,
            report: Some(failure.report(cause.as_str())),
            disconnected: failure.ends_stream(),
        },
    }
}

/// A packet whose first sample is sample `index` of the stream.
pub open spec fn numbered(packet: Seq<Sample>, index: int) -> Seq<Sample> {
    Seq::new(
        packet.len(),
        |i: int|
            Sample { timestamp_ms: ((index + i) * STREAM_SPACING_MS) as u64, ..packet[i] },
    )
}

/// The clock of a USB stream, which counts its samples.
#[derive(Debug, Clone, Copy, PartialEq, Eq, Structural)]
pub struct StreamClock {
    pub sample_index: u64,
}

impl StreamClock {
    /// The clock of a stream that has just started.
    pub fn new() -> (r: StreamClock)
        ensures
            r.sample_index == 0,
    {
        StreamClock { sample_index: 0 }
    }

    /// Give the four samples of a packet their times.
    pub fn stamp(&mut self, samples: SamplePacket) -> (r: SamplePacket)
        requires
            (old(self).sample_index + 4) * 10 <= u64::MAX,
        ensures
            r@ == numbered(samples@, old(self).sample_index as int),
            final(self).sample_index == old(self).sample_index + 4,
    {
        let mut out = samples;
        let mut i: usize = 0;
        while i < 4
            invariant
                i <= 4,
                (self.sample_index + 4) * 10 <= u64::MAX,
                self.sample_index == old(self).sample_index,
                forall|j: int|
                    0 <= j < i ==> #[trigger] out@[j] == numbered(
                        samples@,
                        self.sample_index as int,
                    )[j],
                forall|j: int| i <= j < 4 ==> #[trigger] out@[j] == samples@[j],
            decreases 4 - i,
        {
            let mut s = out[i];
            s.timestamp_ms = (self.sample_index + i as u64) * STREAM_SPACING_MS;
            out[i] = s;
            i = i + 1;
        }
        self.sample_index = self.sample_index + 4;
        assert(out@ =~= numbered(samples@, old(self).sample_index as int));
        out
    }
}

/// Stream law: the times of a stream's samples are evenly spaced and never go
/// back, from one packet to the next as well.
pub proof fn stream_times_are_evenly_spaced(a: Seq<Sample>, b: Seq<Sample>, index: int)
    requires
        0 <= index,
        (index + a.len() + b.len()) * 10 <= u64::MAX,
    ensures
        forall|i: int|
            0 <= i < a.len() + b.len() ==> (#[trigger] (numbered(a, index) + numbered(
                b,
                index + a.len(),
            ))[i]).timestamp_ms == (index + i) * 10,
{
}

/// The name that a BLE device is called by.
pub open spec fn called(info: BleDeviceInfo) -> Seq<char> {
    match info.name {
        Some(name) => name@,
        None => "device"@,
    }
}

/// The status while a BLE device is connected to.
pub fn connecting_status(info: &BleDeviceInfo) -> (r: String)
    ensures
        r@ == "Connecting to "@ + called(*info) + "..."@,
{
    let mut status = text::joined(
        "Connecting to ",
        match &info.name {
            Some(name) => name.as_str(),
            None => "device",
        },
    );
    status.append("...");
    status
}

/// What is reported of a BLE device that is connected: all are treated alike,
/// and only the name is known.
pub fn ble_device_info(info: &BleDeviceInfo) -> (r: DeviceInfo)
    ensures
        r == (DeviceInfo {
            device_type: DeviceType::Fnb58,
            vid: 0,
            pid: 0,
            manufacturer: None,
            product: info.name,
            serial: None,
            path: None,
        }),
{
    DeviceInfo {
        device_type: DeviceType::Fnb58,
        vid: 0,
        pid: 0,
        manufacturer: None,
        product: text::copied(&info.name),
        serial: None,
        path: None,
    }
}

/// The report where a scan finds no device.
pub fn no_ble_device() -> (r: &'static str)
    ensures
        r@ == "No FNIRSI BLE devices found. Try again"@,
{
    "No FNIRSI BLE devices found. Try again"
}

/// Stream law: numbering a packet changes nothing but the times: every sample
/// keeps its own values and its place.
pub proof fn numbering_changes_nothing_but_the_times(packet: Seq<Sample>, index: int, i: int)
    requires
        0 <= index,
        0 <= i < packet.len(),
        (index + packet.len()) * 10 <= u64::MAX,
    ensures
        numbered(packet, index).len() == packet.len(),
        ({
            let sample = numbered(packet, index)[i];
            &&& sample.timestamp_ms == 10 * (index + i)
            &&& sample.voltage_v == packet[i].voltage_v
            &&& sample.current_a == packet[i].current_a
            &&& sample.power_w == packet[i].power_w
            &&& sample.dp_v == packet[i].dp_v
            &&& sample.dn_v == packet[i].dn_v
            &&& sample.temp_c == packet[i].temp_c
            &&& sample.raw_voltage == packet[i].raw_voltage
            &&& sample.raw_current == packet[i].raw_current
        }),
{
}

/// Name law: a BLE device is called by its own name, where it has one.
pub proof fn devices_are_called_by_their_name(info: BleDeviceInfo)
    ensures
        info.name matches Some(name) ==> called(info) == name@,
        info.name is None ==> called(info) == "device"@,
{
}

} // verus!
