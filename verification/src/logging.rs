//! Logging a stream of samples: where each goes, and when to stop.
//!
//! The clock is read by the caller, in nanoseconds from any fixed moment.

use vstd::prelude::*;

use crate::duration::Span;
use crate::formats;
use crate::formats::{FormatError, OutputFormat};
use crate::sample::Sample;
use crate::text;

verus! {

/// Milliseconds that the first sample of a USB packet is older than its arrival.
pub const PACKET_AGE_MS: u64 = 40;

/// Milliseconds between the samples of a USB packet.
pub const SAMPLE_SPACING_MS: u64 = 10;

/// What is to be written for a sample right away.
#[derive(Debug, Clone, Copy, PartialEq, Eq, Structural)]
pub enum Emission {
    /// A row of the CSV file.
    CsvRow,
    /// A line of the JSON Lines file.
    JsonLine,
    /// A line of JSON on stdout.
    JsonPrint,
    /// A tab-separated line on stdout.
    TabPrint,
    /// Nothing: the sample is held until the end.
    Held,
}

/// Where samples go.
#[derive(Debug)]
pub struct LogOutput {
    pub fmt: OutputFormat,
    /// Whether to write the USB-only columns.
    pub include_usb_fields: bool,
    /// Samples of a format that is written as a whole.
    pub buffered_samples: Vec<Sample>,
}

/// Whether a format is written as a whole, at the end.
pub open spec fn written_whole(fmt: OutputFormat) -> bool {
    fmt == OutputFormat::Xlsx || fmt == OutputFormat::Parquet
}

impl LogOutput {
    /// An output to a file of the given extension, or to stdout where there is
    /// no file.
    pub fn new(
        file: Option<Option<&str>>,
        json_stdout: bool,
        include_usb_fields: bool,
        parquet: bool,
    ) -> (r: Result<LogOutput, FormatError>)
        ensures
            r matches Ok(out) ==> out.include_usb_fields == include_usb_fields
                && out.buffered_samples@ == Seq::<Sample>::empty(),
            match file {
                None => r is Ok && r->Ok_0.fmt == if json_stdout {
                    OutputFormat::JsonStdout
                } else {
                    OutputFormat::TabStdout
                },
                Some(extension) => {
                    let lowercased = text::lowered(formats::extension_text(extension));
                    match OutputFormat::of_extension(lowercased) {
                        Some(OutputFormat::Parquet) => if parquet {
                            r is Ok && r->Ok_0.fmt == OutputFormat::Parquet
                        } else {
                            r == Err::<LogOutput, FormatError>(FormatError::ParquetDisabled)
                        },
                        Some(format) => r is Ok && r->Ok_0.fmt == format,
                        None => r is Err && r->Err_0 is UnknownOutput
                            && r->Err_0->UnknownOutput_0@ == lowercased,
                    }
                },
            },
    {
        let fmt = match file {
            Some(extension) => match OutputFormat::from_path(extension, parquet) {
                Ok(fmt) => fmt,
                Err(e) => return Err(e),
            },
            None => if json_stdout {
                OutputFormat::JsonStdout
            } else {
                OutputFormat::TabStdout
            },
        };
        Ok(LogOutput { fmt, include_usb_fields, buffered_samples: Vec::new() })
    }

    /// Take a single sample, and say what is to be written for it.
    pub fn write(&mut self, s: &Sample) -> (r: Emission)
        ensures
            final(self).fmt == old(self).fmt,
            final(self).include_usb_fields == old(self).include_usb_fields,
            final(self).buffered_samples@ == if written_whole(old(self).fmt) {
                old(self).buffered_samples@.push(*s)
            } else {
                old(self).buffered_samples@
            },
            r == match old(self).fmt {
                OutputFormat::Csv => Emission::CsvRow,
                OutputFormat::Jsonl => Emission::JsonLine,
                OutputFormat::Xlsx => Emission::Held,
                OutputFormat::Parquet => Emission::Held,
                OutputFormat::JsonStdout => Emission::JsonPrint,
                OutputFormat::TabStdout => Emission::TabPrint,
            },
    {
        match self.fmt {
            OutputFormat::Csv => Emission::CsvRow,
            OutputFormat::Jsonl => Emission::JsonLine,
            OutputFormat::Xlsx => {
                self.buffered_samples.push(*s);
                Emission::Held
            },
            OutputFormat::Parquet => {
                self.buffered_samples.push(*s);
                Emission::Held
            },
            OutputFormat::JsonStdout => Emission::JsonPrint,
            OutputFormat::TabStdout => Emission::TabPrint,
        }
    }

    /// Whether the held samples are to be written at the end.
    pub fn flush(&self) -> (r: bool)
        ensures
            r == written_whole(self.fmt),
    {
        matches!(self.fmt, OutputFormat::Xlsx | OutputFormat::Parquet)
    }

    /// The header of the tab-separated form, which is printed for it alone.
    pub fn header(&self) -> (r: Option<&'static str>)
        ensures
            match r {
                Some(h) => self.fmt == OutputFormat::TabStdout && h@ == if self.include_usb_fields {
                    "time_s\tvoltage_V\tcurrent_A\tpower_W\tdp_V\tdn_V\ttemp_C"@
                } else {
                    "time_s\tvoltage_V\tcurrent_A\tpower_W"@
                },
                None => self.fmt != OutputFormat::TabStdout,
            },
    {
        match self.fmt {
            OutputFormat::TabStdout => if self.include_usb_fields {
                Some("time_s\tvoltage_V\tcurrent_A\tpower_W\tdp_V\tdn_V\ttemp_C")
            } else {
                Some("time_s\tvoltage_V\tcurrent_A\tpower_W")
            },
            _ => None,
        }
    }
}

/// How the samples arrive.
#[derive(Debug, Clone, Copy, PartialEq, Eq, Structural)]
pub enum Transport {
    Usb,
    Ble,
}

/// Why logging stops.
#[derive(Debug, Clone, Copy, PartialEq, Eq, Structural)]
pub enum Stop {
    DurationElapsed,
    MaxSamples,
    Interrupted,
}

impl Stop {
    /// The message that is shown.
    pub open spec fn described(self) -> Seq<char> {
        match self {
            Stop::DurationElapsed => "Duration elapsed, stopping."@,
            Stop::MaxSamples => "Max samples reached, stopping."@,
            Stop::Interrupted => "Interrupted, stopping."@,
        }
    }

    /// The message that is shown.
    pub fn describe(self) -> (r: &'static str)
        ensures
            r@ == self.described(),
    {
        match self {
            Stop::DurationElapsed => "Duration elapsed, stopping.",
            Stop::MaxSamples => "Max samples reached, stopping.",
            Stop::Interrupted => "Interrupted, stopping.",
        }
    }
}

/// A sample of a USB packet with the time that it was taken: the packet's four
/// samples end at its arrival.
pub open spec fn stamped(sample: Sample, elapsed_ms: u64, i: int) -> Sample {
    let start = if elapsed_ms >= PACKET_AGE_MS {
        elapsed_ms - PACKET_AGE_MS
    } else {
        0
    };
    Sample { timestamp_ms: (start + i * SAMPLE_SPACING_MS) as u64, ..sample }
}

/// Whether `written` samples are all that may be written.
pub open spec fn reached(written: int, max_samples: Option<u64>) -> bool {
    max_samples is Some && written >= max_samples->0
}

/// What is written of the first `upto` samples of a packet, and whether the
/// largest number of samples is then reached: of the admitted ones, those until
/// it is.
pub open spec fn taken(
    packet: Seq<Sample>,
    admitted: Seq<bool>,
    elapsed_ms: u64,
    before: int,
    max_samples: Option<u64>,
    upto: int,
) -> (Seq<Sample>, bool)
    decreases upto,
{
    if upto <= 0 {
        (Seq::empty(), reached(before, max_samples))
    } else {
        let (written, full) = taken(packet, admitted, elapsed_ms, before, max_samples, upto - 1);
        if full || !admitted[upto - 1] {
            (written, full)
        } else {
            let now = written.push(stamped(packet[upto - 1], elapsed_ms, upto - 1));
            (now, reached(before + now.len(), max_samples))
        }
    }
}

/// What is written of a sample that arrives over BLE: an admitted one, with the
/// time of its arrival, where one more may be written.
pub open spec fn ble_taken(
    sample: Sample,
    admitted: bool,
    elapsed_ms: u64,
    before: int,
    max_samples: Option<u64>,
) -> Option<Sample> {
    if reached(before, max_samples) || !admitted {
        None
    } else {
        Some(Sample { timestamp_ms: elapsed_ms, ..sample })
    }
}

/// A logging session.
#[derive(Debug)]
pub struct LogSession {
    pub transport: Transport,
    /// When to stop, in nanoseconds.
    pub deadline: Option<u128>,
    pub max_samples: Option<u64>,
    pub samples_written: u64,
}

impl LogSession {
    /// A session that starts at `now`.
    pub fn new(
        transport: Transport,
        now: u64,
        duration: Option<Span>,
        max_samples: Option<u64>,
    ) -> (r: LogSession)
        ensures
            r.transport == transport,
            r.max_samples == max_samples,
            r.samples_written == 0,
            match duration {
                Some(span) => r.deadline is Some && r.deadline->0 == now + span.secs * 1_000_000_000
                    + span.nanos,
                None => r.deadline is None,
            },
    {
        let deadline = match duration {
            Some(span) => Some(
                now as u128 + span.secs as u128 * 1_000_000_000 + span.nanos as u128,
            ),
            None => None,
        };
        LogSession { transport, deadline, max_samples, samples_written: 0 }
    }

    /// Whether the largest number of samples is written.
    fn is_full(&self) -> (r: bool)
        ensures
            r == reached(self.samples_written as int, self.max_samples),
    {
        match self.max_samples {
            Some(most) => self.samples_written >= most,
            None => false,
        }
    }

    /// Whether to stop before samples are asked for: the time is up, no more
    /// samples may be written, or, over BLE, an interrupt was received.
    pub fn before_poll(&self, now: u64, interrupted: bool) -> (r: Option<Stop>)
        ensures
            r == if self.deadline is Some && now >= self.deadline->0 {
                Some(Stop::DurationElapsed)
            } else if reached(self.samples_written as int, self.max_samples) {
                Some(Stop::MaxSamples)
            } else if self.transport == Transport::Ble && interrupted {
                Some(Stop::Interrupted)
            } else {
                None
            },
    {
        if let Some(deadline) = self.deadline {
            if now as u128 >= deadline {
                return Some(Stop::DurationElapsed);
            }
        }
        if self.is_full() {
            return Some(Stop::MaxSamples);
        }
        match self.transport {
            Transport::Ble => if interrupted {
                Some(Stop::Interrupted)
            } else {
                None
            },
            Transport::Usb => None,
        }
    }

    /// Whether to stop once samples were taken: over USB, where an interrupt
    /// was received.
    pub fn after_poll(&self, interrupted: bool) -> (r: Option<Stop>)
        ensures
            r == if self.transport == Transport::Usb && interrupted {
                Some(Stop::Interrupted)
            } else {
                None
            },
    {
        match self.transport {
            Transport::Usb => if interrupted {
                Some(Stop::Interrupted)
            } else {
                None
            },
            Transport::Ble => None,
        }
    }

    /// Count one more written sample, and say whether the largest number is
    /// reached.
    fn count(&mut self) -> (r: bool)
        requires
            old(self).samples_written < u64::MAX,
        ensures
            final(self).transport == old(self).transport,
            final(self).deadline == old(self).deadline,
            final(self).max_samples == old(self).max_samples,
            final(self).samples_written == old(self).samples_written + 1,
            r == reached(final(self).samples_written as int, old(self).max_samples),
    {
        self.samples_written = self.samples_written + 1;
        self.is_full()
    }

    /// Take the four samples of a USB packet that arrived `elapsed_ms` after the
    /// start, of which those are written that the output rate admits.
    pub fn usb_packet(
        &mut self,
        packet: &[Sample; 4],
        admitted: &[bool; 4],
        elapsed_ms: u64,
    ) -> (r: (Vec<Sample>, Option<Stop>))
        requires
            old(self).samples_written + 4 <= u64::MAX,
        ensures
            ({
                let (written, full) = taken(
                    packet@,
                    admitted@,
                    elapsed_ms,
                    old(self).samples_written as int,
                    old(self).max_samples,
                    4,
                );
                &&& r.0@ == written
                &&& r.1 == if full {
                    Some(Stop::MaxSamples)
                } else {
                    None
                }
                &&& final(self).samples_written == old(self).samples_written + written.len()
            }),
            final(self).transport == old(self).transport,
            final(self).deadline == old(self).deadline,
            final(self).max_samples == old(self).max_samples,
    {
        let start: u64 = elapsed_ms.saturating_sub(PACKET_AGE_MS);
        let mut written: Vec<Sample> = Vec::new();
        let mut full: bool = self.is_full();
        let mut i: usize = 0;
        while i < 4
            invariant
                i <= 4,
                start == if elapsed_ms >= PACKET_AGE_MS {
                    elapsed_ms - PACKET_AGE_MS
                } else {
                    0
                },
                old(self).samples_written + 4 <= u64::MAX,
                self.transport == old(self).transport,
                self.deadline == old(self).deadline,
                self.max_samples == old(self).max_samples,
                self.samples_written == old(self).samples_written + written@.len(),
                written@.len() <= i,
                (written@, full) == taken(
                    packet@,
                    admitted@,
                    elapsed_ms,
                    old(self).samples_written as int,
                    old(self).max_samples,
                    i as int,
                ),
            decreases 4 - i,
        {
            if !full && admitted[i] {
                let mut s = packet[i];
                s.timestamp_ms = start + i as u64 * SAMPLE_SPACING_MS;
                written.push(s);
                full = self.count();
            }
            i = i + 1;
        }
        (written, if full { Some(Stop::MaxSamples) } else { None })
    }

    /// Take a sample that arrived over BLE `elapsed_ms` after the start, which
    /// is written if the output rate admits it and one more may be written.
    pub fn ble_sample(&mut self, sample: &Sample, admitted: bool, elapsed_ms: u64) -> (r: (
        Option<Sample>,
        Option<Stop>,
    ))
        requires
            old(self).samples_written < u64::MAX,
        ensures
            r.0 == ble_taken(
                *sample,
                admitted,
                elapsed_ms,
                old(self).samples_written as int,
                old(self).max_samples,
            ),
            final(self).samples_written == old(self).samples_written + if r.0 is Some {
                1int
            } else {
                0
            },
            r.1 == if reached(final(self).samples_written as int, old(self).max_samples) {
                Some(Stop::MaxSamples)
            } else {
                None
            },
            final(self).transport == old(self).transport,
            final(self).deadline == old(self).deadline,
            final(self).max_samples == old(self).max_samples,
    {
        if self.is_full() {
            return (None, Some(Stop::MaxSamples));
        }
        if !admitted {
            return (None, None);
        }
        let mut s = *sample;
        s.timestamp_ms = elapsed_ms;
        let full = self.count();
        (Some(s), if full { Some(Stop::MaxSamples) } else { None })
    }
}

/// Logging law: a packet never takes the number of written samples beyond the
/// largest one, and it is reached exactly when the packet says so.
pub proof fn samples_stay_within_the_limit(
    packet: Seq<Sample>,
    admitted: Seq<bool>,
    elapsed_ms: u64,
    before: int,
    most: u64,
    upto: int,
)
    requires
        0 <= before <= most,
    ensures
        ({
            let (written, full) = taken(packet, admitted, elapsed_ms, before, Some(most), upto);
            &&& before + written.len() <= most
            &&& full <==> before + written.len() == most
        }),
    decreases upto,
{
    if upto > 0 {
        samples_stay_within_the_limit(packet, admitted, elapsed_ms, before, most, upto - 1);
    }
}

/// Logging law: with a limit, a packet is written as without one, but for the
/// samples beyond the limit.
pub proof fn limit_keeps_the_first_samples(
    packet: Seq<Sample>,
    admitted: Seq<bool>,
    elapsed_ms: u64,
    before: int,
    most: u64,
    upto: int,
)
    requires
        0 <= before <= most,
    ensures
        ({
            let free = taken(packet, admitted, elapsed_ms, before, None, upto).0;
            let room = most - before;
            taken(packet, admitted, elapsed_ms, before, Some(most), upto).0 == free.subrange(
                0,
                if free.len() < room {
                    free.len() as int
                } else {
                    room
                },
            )
        }),
    decreases upto,
{
    samples_stay_within_the_limit(packet, admitted, elapsed_ms, before, most, upto);
    let free = taken(packet, admitted, elapsed_ms, before, None, upto).0;
    let limited = taken(packet, admitted, elapsed_ms, before, Some(most), upto).0;
    let room = most - before;
    let end = if free.len() < room {
        free.len() as int
    } else {
        room
    };
    if upto > 0 {
        limit_keeps_the_first_samples(packet, admitted, elapsed_ms, before, most, upto - 1);
        samples_stay_within_the_limit(packet, admitted, elapsed_ms, before, most, upto - 1);
        unlimited_never_full(packet, admitted, elapsed_ms, before, upto - 1);
    }
    assert(limited =~= free.subrange(0, end));
}

proof fn unlimited_never_full(
    packet: Seq<Sample>,
    admitted: Seq<bool>,
    elapsed_ms: u64,
    before: int,
    upto: int,
)
    ensures
        !taken(packet, admitted, elapsed_ms, before, None, upto).1,
        taken(packet, admitted, elapsed_ms, before, None, upto) == taken(
            packet,
            admitted,
            elapsed_ms,
            0,
            None,
            upto,
        ),
    decreases upto,
{
    if upto > 0 {
        unlimited_never_full(packet, admitted, elapsed_ms, before, upto - 1);
    }
}

/// A USB packet with what the output rate admits of it and when it arrived.
pub struct Arrival {
    pub packet: Seq<Sample>,
    pub admitted: Seq<bool>,
    pub elapsed_ms: u64,
}

/// What a session writes of the first `upto` packets.
pub open spec fn logged(
    arrivals: Seq<Arrival>,
    max_samples: Option<u64>,
    upto: int,
) -> Seq<Sample>
    decreases upto,
{
    if upto <= 0 {
        Seq::empty()
    } else {
        let before = logged(arrivals, max_samples, upto - 1);
        let next = arrivals[upto - 1];
        before + taken(
            next.packet,
            next.admitted,
            next.elapsed_ms,
            before.len() as int,
            max_samples,
            4,
        ).0
    }
}

/// Logging law: a session with a limit writes exactly the first samples, up to
/// the limit, of those that it would write without one.
pub proof fn session_writes_the_first_samples(arrivals: Seq<Arrival>, most: u64, upto: int)
    ensures
        ({
            let free = logged(arrivals, None, upto);
            logged(arrivals, Some(most), upto) == free.subrange(
                0,
                if free.len() < most {
                    free.len() as int
                } else {
                    most as int
                },
            )
        }),
    decreases upto,
{
    let free = logged(arrivals, None, upto);
    let limited = logged(arrivals, Some(most), upto);
    if upto > 0 {
        session_writes_the_first_samples(arrivals, most, upto - 1);
        let next = arrivals[upto - 1];
        let free_before = logged(arrivals, None, upto - 1).len() as int;
        let before = logged(arrivals, Some(most), upto - 1).len() as int;
        limit_keeps_the_first_samples(
            next.packet,
            next.admitted,
            next.elapsed_ms,
            before,
            most,
            4,
        );
        unlimited_never_full(next.packet, next.admitted, next.elapsed_ms, before, 4);
        unlimited_never_full(next.packet, next.admitted, next.elapsed_ms, free_before, 4);
    }
    assert(limited =~= free.subrange(
        0,
        if free.len() < most {
            free.len() as int
        } else {
            most as int
        },
    ));
}

/// A sample that arrives over BLE, with whether the output rate admits it and
/// when it arrived.
pub struct BleArrival {
    pub sample: Sample,
    pub admitted: bool,
    pub elapsed_ms: u64,
}

/// What a BLE session writes of the first `upto` samples.
pub open spec fn ble_logged(
    arrivals: Seq<BleArrival>,
    max_samples: Option<u64>,
    upto: int,
) -> Seq<Sample>
    decreases upto,
{
    if upto <= 0 {
        Seq::empty()
    } else {
        let before = ble_logged(arrivals, max_samples, upto - 1);
        let next = arrivals[upto - 1];
        match ble_taken(
            next.sample,
            next.admitted,
            next.elapsed_ms,
            before.len() as int,
            max_samples,
        ) {
            Some(s) => before.push(s),
            None => before,
        }
    }
}

/// Logging law: a BLE session with a limit writes exactly the first samples, up
/// to the limit, of the admitted ones.
pub proof fn ble_session_writes_the_first_samples(
    arrivals: Seq<BleArrival>,
    most: u64,
    upto: int,
)
    ensures
        ({
            let free = ble_logged(arrivals, None, upto);
            ble_logged(arrivals, Some(most), upto) == free.subrange(
                0,
                if free.len() < most {
                    free.len() as int
                } else {
                    most as int
                },
            )
        }),
    decreases upto,
{
    let free = ble_logged(arrivals, None, upto);
    let limited = ble_logged(arrivals, Some(most), upto);
    if upto > 0 {
        ble_session_writes_the_first_samples(arrivals, most, upto - 1);
    }
    assert(limited =~= free.subrange(
        0,
        if free.len() < most {
            free.len() as int
        } else {
            most as int
        },
    ));
}

/// Logging law: without a limit, and with every sample admitted, a packet is
/// written whole and in order.
pub proof fn unlimited_packets_are_written_whole(
    packet: Seq<Sample>,
    admitted: Seq<bool>,
    elapsed_ms: u64,
    before: int,
    upto: int,
)
    requires
        0 <= upto <= admitted.len(),
        forall|i: int| 0 <= i < admitted.len() ==> admitted[i],
    ensures
        taken(packet, admitted, elapsed_ms, before, None, upto) == (
            Seq::new(upto as nat, |i: int| stamped(packet[i], elapsed_ms, i)),
            false,
        ),
    decreases upto,
{
    if upto > 0 {
        unlimited_packets_are_written_whole(packet, admitted, elapsed_ms, before, upto - 1);
    }
    assert(taken(packet, admitted, elapsed_ms, before, None, upto).0 =~= Seq::new(
        upto as nat,
        |i: int| stamped(packet[i], elapsed_ms, i),
    ));
}

/// The number of samples that the output rate admits of the first `upto`.
pub open spec fn admitted_among(admitted: Seq<bool>, upto: int) -> int
    decreases upto,
{
    if upto <= 0 {
        0
    } else if admitted[upto - 1] {
        admitted_among(admitted, upto - 1) + 1
    } else {
        admitted_among(admitted, upto - 1)
    }
}

/// Logging law: of a packet as many samples are written as are admitted, or as
/// many as there is room for where that is less; and the packet says that the
/// limit is reached exactly when there is one and no room is left.
pub proof fn packets_are_written_as_far_as_admitted(
    packet: Seq<Sample>,
    admitted: Seq<bool>,
    elapsed_ms: u64,
    before: int,
    max_samples: Option<u64>,
    upto: int,
)
    requires
        0 <= upto <= packet.len(),
        admitted.len() == packet.len(),
    ensures
        ({
            let (written, full) = taken(packet, admitted, elapsed_ms, before, max_samples, upto);
            let all = admitted_among(admitted, upto);
            &&& max_samples is None ==> written.len() == all && !full
            &&& max_samples matches Some(most) ==> {
                &&& before + all <= most ==> written.len() == all
                &&& before <= most < before + all ==> written.len() == most - before
                &&& most < before ==> written.len() == 0
                &&& full <==> before + written.len() >= most
            }
        }),
        0 <= admitted_among(admitted, upto),
    decreases upto,
{
    if upto > 0 {
        packets_are_written_as_far_as_admitted(
            packet,
            admitted,
            elapsed_ms,
            before,
            max_samples,
            upto - 1,
        );
    }
}

/// Logging law: logging changes nothing but the time. Sample `i` of a packet,
/// where it is admitted and there is room, is written behind the admitted ones
/// before it, with its own voltage, current, power, data lines, temperature and
/// raw registers. Its time is 40 ms before the arrival, or 0 where that is
/// earlier, and 10 ms later for each sample before it in the packet.
pub proof fn logging_changes_nothing_but_the_time(
    packet: Seq<Sample>,
    admitted: Seq<bool>,
    elapsed_ms: u64,
    before: int,
    max_samples: Option<u64>,
    upto: int,
    i: int,
)
    requires
        0 <= i < upto <= packet.len(),
        packet.len() == 4,
        admitted.len() == packet.len(),
        admitted[i],
        max_samples matches Some(most) ==> before + admitted_among(admitted, i) < most,
    ensures
        ({
            let written = taken(packet, admitted, elapsed_ms, before, max_samples, upto).0;
            let m = admitted_among(admitted, i);
            &&& 0 <= m < written.len()
            &&& written[m].timestamp_ms == if elapsed_ms >= 40 {
                elapsed_ms - 40 + 10 * i
            } else {
                10 * i
            }
            &&& written[m].voltage_v == packet[i].voltage_v
            &&& written[m].current_a == packet[i].current_a
            &&& written[m].power_w == packet[i].power_w
            &&& written[m].dp_v == packet[i].dp_v
            &&& written[m].dn_v == packet[i].dn_v
            &&& written[m].temp_c == packet[i].temp_c
            &&& written[m].raw_voltage == packet[i].raw_voltage
            &&& written[m].raw_current == packet[i].raw_current
        }),
    decreases upto,
{
    packets_are_written_as_far_as_admitted(
        packet,
        admitted,
        elapsed_ms,
        before,
        max_samples,
        upto - 1,
    );
    if i < upto - 1 {
        logging_changes_nothing_but_the_time(
            packet,
            admitted,
            elapsed_ms,
            before,
            max_samples,
            upto - 1,
            i,
        );
    }
}

/// Logging law: every written sample stands for an admitted one of the packet,
/// which is the result, and has all of its values.
pub proof fn written_samples_stand_for_admitted_ones(
    packet: Seq<Sample>,
    admitted: Seq<bool>,
    elapsed_ms: u64,
    before: int,
    max_samples: Option<u64>,
    upto: int,
    m: int,
) -> (i: int)
    requires
        0 <= upto <= packet.len(),
        packet.len() == 4,
        admitted.len() == packet.len(),
        0 <= m < taken(packet, admitted, elapsed_ms, before, max_samples, upto).0.len(),
    ensures
        0 <= i < upto,
        admitted[i],
        admitted_among(admitted, i) == m,
        ({
            let written = taken(packet, admitted, elapsed_ms, before, max_samples, upto).0;
            &&& written[m].timestamp_ms == if elapsed_ms >= 40 {
                elapsed_ms - 40 + 10 * i
            } else {
                10 * i
            }
            &&& written[m].voltage_v == packet[i].voltage_v
            &&& written[m].current_a == packet[i].current_a
            &&& written[m].power_w == packet[i].power_w
            &&& written[m].dp_v == packet[i].dp_v
            &&& written[m].dn_v == packet[i].dn_v
            &&& written[m].temp_c == packet[i].temp_c
            &&& written[m].raw_voltage == packet[i].raw_voltage
            &&& written[m].raw_current == packet[i].raw_current
        }),
    decreases upto,
{
    packets_are_written_as_far_as_admitted(
        packet,
        admitted,
        elapsed_ms,
        before,
        max_samples,
        upto - 1,
    );
    let earlier = taken(packet, admitted, elapsed_ms, before, max_samples, upto - 1).0;
    if m < earlier.len() {
        written_samples_stand_for_admitted_ones(
            packet,
            admitted,
            elapsed_ms,
            before,
            max_samples,
            upto - 1,
            m,
        )
    } else {
        upto - 1
    }
}

/// Logging law: over BLE a sample is written exactly if it is admitted and the
/// limit is not reached, with its own values and the time of its arrival.
pub proof fn ble_logging_changes_nothing_but_the_time(
    sample: Sample,
    admitted: bool,
    elapsed_ms: u64,
    before: int,
    max_samples: Option<u64>,
)
    ensures
        ble_taken(sample, admitted, elapsed_ms, before, max_samples) is Some <==> admitted && (
        max_samples matches Some(most) ==> before < most),
        ble_taken(sample, admitted, elapsed_ms, before, max_samples) matches Some(written) ==> {
            &&& written.timestamp_ms == elapsed_ms
            &&& written.voltage_v == sample.voltage_v
            &&& written.current_a == sample.current_a
            &&& written.power_w == sample.power_w
            &&& written.dp_v == sample.dp_v
            &&& written.dn_v == sample.dn_v
            &&& written.temp_c == sample.temp_c
            &&& written.raw_voltage == sample.raw_voltage
            &&& written.raw_current == sample.raw_current
        },
{
}

/// Logging law: a limit is reached once as many samples are written, and where
/// there is none it never is.
pub proof fn limits_are_reached_by_their_number(written: int, most: u64)
    ensures
        reached(written, Some(most)) <==> written >= most,
        !reached(written, None),
{
}

/// Output law: the formats that are written as a whole are spreadsheets and
/// Parquet; what goes to the others is written at once.
pub proof fn spreadsheets_and_parquet_are_written_whole(fmt: OutputFormat)
    ensures
        written_whole(fmt) <==> fmt != OutputFormat::Csv && fmt != OutputFormat::Jsonl && fmt
            != OutputFormat::JsonStdout && fmt != OutputFormat::TabStdout,
{
}

} // verus!
