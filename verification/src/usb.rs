//! USB HID transport: which devices are meters, what is sent to them and what
//! their replies mean.
//!
//! The reports themselves are read and written by the caller, who also tells
//! the time, in nanoseconds from any fixed moment.

use vstd::prelude::*;

use crate::device;
use crate::device::{DeviceInfo, DeviceType, DFU_PID, DFU_VID};
use crate::protocol;
use crate::protocol::{ProtocolError, RawSample};
use crate::text;

verus! {

/// Milliseconds to wait after each initialization command. Without the delay
/// the device crashes.
pub const INIT_DELAY_MS: u64 = 25;

/// Nanoseconds in a millisecond.
pub const NANOS_PER_MS: u64 = 1_000_000;

/// Errors from USB HID operations.
#[derive(Debug, Clone, Copy, PartialEq, Eq, Structural)]
pub enum UsbError {
    DeviceNotFound,
    NotConnected,
    Protocol(ProtocolError),
    WriteFailed,
}

impl UsbError {
    /// The message of the error.
    pub open spec fn described(self) -> Seq<char> {
        match self {
            UsbError::DeviceNotFound => "no FNIRSI device found"@,
            UsbError::NotConnected => "device not connected"@,
            UsbError::Protocol(e) => "protocol error: "@ + e.described(),
            UsbError::WriteFailed => "write failed"@,
        }
    }

    /// The message of the error.
    pub fn describe(self) -> (r: String)
        ensures
            r@ == self.described(),
    {
        match self {
            UsbError::DeviceNotFound => "no FNIRSI device found".to_owned(),
            UsbError::NotConnected => "device not connected".to_owned(),
            UsbError::Protocol(e) => text::joined("protocol error: ", e.describe().as_str()),
            UsbError::WriteFailed => "write failed".to_owned(),
        }
    }
}

/// A HID device as the system lists it.
#[derive(Debug)]
pub struct HidEntry {
    pub vid: u16,
    pub pid: u16,
    pub manufacturer: Option<String>,
    pub product: Option<String>,
    pub serial: Option<String>,
    pub path: Vec<u8>,
}

/// Whether `info` describes `entry` as a meter of type `device_type`.
pub open spec fn describes(info: DeviceInfo, entry: HidEntry, device_type: DeviceType) -> bool {
    &&& info.device_type == device_type
    &&& info.vid == entry.vid
    &&& info.pid == entry.pid
    &&& info.manufacturer == entry.manufacturer
    &&& info.product == entry.product
    &&& info.serial == entry.serial
    &&& info.path is Some
    &&& info.path->0@ == entry.path@
}

/// The meter that an entry is, in data mode.
pub open spec fn meter_type(entry: HidEntry) -> Option<DeviceType> {
    device::detected(
        entry.vid,
        entry.pid,
        match entry.product {
            Some(p) => Some(p@),
            None => None,
        },
    )
}

/// The meter that an entry is, in DFU mode; which model is not known then.
pub open spec fn dfu_type(entry: HidEntry) -> Option<DeviceType> {
    if entry.vid == DFU_VID && entry.pid == DFU_PID {
        Some(DeviceType::Fnb58)
    } else {
        None
    }
}

/// Whether `info` describes `entry` as the meter that `kind` recognizes.
pub open spec fn fits(
    info: DeviceInfo,
    entry: HidEntry,
    kind: spec_fn(HidEntry) -> Option<DeviceType>,
) -> bool {
    kind(entry) is Some && describes(info, entry, kind(entry)->0)
}

/// The places of the entries that `kind` recognizes, in order.
pub open spec fn recognized(
    entries: Seq<HidEntry>,
    kind: spec_fn(HidEntry) -> Option<DeviceType>,
) -> Seq<int>
    decreases entries.len(),
{
    if entries.len() == 0 {
        Seq::empty()
    } else {
        let before = recognized(entries.drop_last(), kind);
        if kind(entries.last()) is Some {
            before.push(entries.len() - 1)
        } else {
            before
        }
    }
}

/// Listing law: no recognized entry is left out, none other is listed, and the
/// order of the entries is kept.
pub proof fn recognized_is_exact(
    entries: Seq<HidEntry>,
    kind: spec_fn(HidEntry) -> Option<DeviceType>,
)
    ensures
        forall|j: int|
            #[trigger] recognized(entries, kind).contains(j) <==> 0 <= j < entries.len() && kind(
                entries[j],
            ) is Some,
        forall|a: int, b: int|
            0 <= a < b < recognized(entries, kind).len() ==> #[trigger] recognized(
                entries,
                kind,
            )[a] < #[trigger] recognized(entries, kind)[b],
    decreases entries.len(),
{
    let places = recognized(entries, kind);
    if entries.len() > 0 {
        let init = entries.drop_last();
        let before = recognized(init, kind);
        recognized_is_exact(init, kind);
        assert forall|a: int| 0 <= a < before.len() implies #[trigger] before[a] < init.len() by {
            assert(before.contains(before[a]));
        }
        assert forall|j: int|
            #[trigger] places.contains(j) <==> 0 <= j < entries.len() && kind(
                entries[j],
            ) is Some by {
            if 0 <= j < init.len() {
                assert(init[j] == entries[j]);
                if before.contains(j) {
                    let a = choose|a: int| 0 <= a < before.len() && before[a] == j;
                    assert(places[a] == j);
                }
            }
            if places.contains(j) {
                let a = choose|a: int| 0 <= a < places.len() && places[a] == j;
                if a < before.len() {
                    assert(before[a] == j);
                    assert(before.contains(j));
                }
            } else if j == init.len() && kind(entries[j]) is Some {
                assert(places[before.len() as int] == j);
            }
        }
    }
}

/// Whether `infos` describes exactly the entries that `kind` recognizes, in
/// order.
pub open spec fn lists(
    infos: Seq<DeviceInfo>,
    entries: Seq<HidEntry>,
    kind: spec_fn(HidEntry) -> Option<DeviceType>,
) -> bool {
    let places = recognized(entries, kind);
    &&& infos.len() == places.len()
    &&& forall|i: int|
        0 <= i < infos.len() ==> 0 <= #[trigger] places[i] < entries.len() && fits(
            infos[i],
            entries[places[i]],
            kind,
        )
}

proof fn lists_one_more(
    infos: Seq<DeviceInfo>,
    more: Seq<DeviceInfo>,
    entries: Seq<HidEntry>,
    n: int,
    kind: spec_fn(HidEntry) -> Option<DeviceType>,
)
    requires
        0 <= n < entries.len(),
        lists(infos, entries.subrange(0, n), kind),
        match kind(entries[n]) {
            Some(t) => more.len() == infos.len() + 1 && more.drop_last() == infos && describes(
                more.last(),
                entries[n],
                t,
            ),
            None => more == infos,
        },
    ensures
        lists(more, entries.subrange(0, n + 1), kind),
{
    let now = entries.subrange(0, n + 1);
    assert(now.drop_last() =~= entries.subrange(0, n));
    assert(now.last() == entries[n]);
    let before = recognized(now.drop_last(), kind);
    let places = recognized(now, kind);
    assert forall|i: int| 0 <= i < more.len() implies 0 <= #[trigger] places[i] < now.len() && fits(
        more[i],
        now[places[i]],
        kind,
    ) by {
        if i < infos.len() {
            assert(more[i] == infos[i]);
            assert(places[i] == before[i]);
        }
    }
}

/// The information on an entry that is a meter of type `device_type`.
fn info_of(entry: &HidEntry, device_type: DeviceType) -> (r: DeviceInfo)
    ensures
        describes(r, *entry, device_type),
{
    DeviceInfo {
        device_type,
        vid: entry.vid,
        pid: entry.pid,
        manufacturer: text::copied(&entry.manufacturer),
        product: text::copied(&entry.product),
        serial: text::copied(&entry.serial),
        path: Some(bytes_copied(&entry.path)),
    }
}

fn bytes_copied(bytes: &Vec<u8>) -> (r: Vec<u8>)
    ensures
        r@ == bytes@,
{
    let mut r: Vec<u8> = Vec::new();
    let mut i: usize = 0;
    while i < bytes.len()
        invariant
            i <= bytes@.len(),
            r@ == bytes@.subrange(0, i as int),
        decreases bytes@.len() - i,
    {
        r.push(bytes[i]);
        i = i + 1;
        assert(r@ =~= bytes@.subrange(0, i as int));
    }
    assert(r@ =~= bytes@);
    r
}

/// How a device is opened.
#[derive(Debug)]
pub enum OpenTarget {
    /// By its path, which holds no zero byte.
    Path(Vec<u8>),
    /// By its ID pair.
    Id(u16, u16),
}

/// A 64-byte packet as it is written: behind report ID 0.
pub open spec fn report(packet: Seq<u8>) -> Seq<u8> {
    seq![0u8] + packet
}

/// The report that carries a 64-byte packet. The report ID in front is needed
/// even for devices that do not use numbered reports.
pub fn frame_report(packet: &[u8; 64]) -> (r: [u8; 65])
    ensures
        r@ == report(packet@),
{
    let mut buf: [u8; 65] = [0u8; 65];
    let mut i: usize = 0;
    while i < 64
        invariant
            i <= 64,
            buf@[0] == 0,
            forall|j: int| 0 <= j < i ==> buf@[1 + j] == packet@[j],
        decreases 64 - i,
    {
        buf[1 + i] = packet[i];
        i = i + 1;
    }
    assert(buf@ =~= report(packet@));
    buf
}

/// What writing a report means, by the number of bytes that were written.
pub fn report_written(written: usize) -> (r: Result<(), UsbError>)
    ensures
        r == if written == 0 {
            Err::<(), UsbError>(UsbError::WriteFailed)
        } else {
            Ok(())
        },
{
    if written == 0 {
        Err(UsbError::WriteFailed)
    } else {
        Ok(())
    }
}

/// `millis` as the transport takes a timeout: its 32 low bits, with a sign.
pub open spec fn timeout_of(millis: u128) -> int {
    let low = millis as int % 0x1_0000_0000;
    if low >= 0x8000_0000 {
        low - 0x1_0000_0000
    } else {
        low
    }
}

/// `millis` as the transport takes a timeout: its 32 low bits, with a sign.
pub fn hid_timeout(millis: u128) -> (r: i32)
    ensures
        r == timeout_of(millis),
{
    let low: i64 = (millis % 0x1_0000_0000) as i64;
    if low >= 0x8000_0000 {
        (low - 0x1_0000_0000) as i32
    } else {
        low as i32
    }
}

/// State of the connection to a meter.
#[derive(Debug)]
pub struct UsbDevice {
    pub info: DeviceInfo,
    pub is_fnb58_variant: bool,
    /// Milliseconds between keep-alives.
    pub keepalive_interval: u64,
    /// When the last keep-alive was sent, in nanoseconds.
    pub last_keepalive: u64,
}

impl UsbDevice {
    /// The protocol variant is that of the model.
    pub open spec fn inv(&self) -> bool {
        &&& self.is_fnb58_variant == device::fnb58_family(self.info.device_type)
        &&& self.keepalive_interval == protocol::keepalive_ms(self.is_fnb58_variant)
    }

    /// The FNIRSI devices among those connected.
    pub fn list_devices(entries: &Vec<HidEntry>) -> (r: Vec<DeviceInfo>)
        ensures
            lists(r@, entries@, |e: HidEntry| meter_type(e)),
    {
        let ghost kind = |e: HidEntry| meter_type(e);
        let mut devices: Vec<DeviceInfo> = Vec::new();
        let mut i: usize = 0;
        while i < entries.len()
            invariant
                i <= entries@.len(),
                kind == (|e: HidEntry| meter_type(e)),
                lists(devices@, entries@.subrange(0, i as int), kind),
            decreases entries@.len() - i,
        {
            let entry = &entries[i];
            let ghost before = devices@;
            let product = match &entry.product {
                Some(p) => Some(p.as_str()),
                None => None,
            };
            if let Some(device_type) = device::detect_device_type(entry.vid, entry.pid, product) {
                devices.push(info_of(entry, device_type));
                assert(devices@.drop_last() =~= before);
            }
            proof {
                lists_one_more(before, devices@, entries@, i as int, kind);
            }
            i = i + 1;
        }
        assert(entries@.subrange(0, i as int) =~= entries@);
        devices
    }

    /// The devices in DFU mode among those connected.
    pub fn list_dfu_devices(entries: &Vec<HidEntry>) -> (r: Vec<DeviceInfo>)
        ensures
            lists(r@, entries@, |e: HidEntry| dfu_type(e)),
    {
        let ghost kind = |e: HidEntry| dfu_type(e);
        let mut devices: Vec<DeviceInfo> = Vec::new();
        let mut i: usize = 0;
        while i < entries.len()
            invariant
                i <= entries@.len(),
                kind == (|e: HidEntry| dfu_type(e)),
                lists(devices@, entries@.subrange(0, i as int), kind),
            decreases entries@.len() - i,
        {
            let entry = &entries[i];
            let ghost before = devices@;
            if entry.vid == DFU_VID && entry.pid == DFU_PID {
                devices.push(info_of(entry, DeviceType::Fnb58));
                assert(devices@.drop_last() =~= before);
            }
            proof {
                lists_one_more(before, devices@, entries@, i as int, kind);
            }
            i = i + 1;
        }
        assert(entries@.subrange(0, i as int) =~= entries@);
        devices
    }

    /// The first FNIRSI device among those connected.
    pub fn connect_first(entries: &Vec<HidEntry>) -> (r: Result<DeviceInfo, UsbError>)
        ensures
            ({
                let places = recognized(entries@, |e: HidEntry| meter_type(e));
                match r {
                    Ok(info) => places.len() > 0 && fits(
                        info,
                        entries@[places[0]],
                        |e: HidEntry| meter_type(e),
                    ),
                    Err(e) => places.len() == 0 && e == UsbError::DeviceNotFound,
                }
            }),
    {
        let devices = UsbDevice::list_devices(entries);
        let ghost all = devices@;
        for info in it: devices
            invariant
                it.seq() == all,
                it.index() == 0,
                lists(all, entries@, |e: HidEntry| meter_type(e)),
        {
            assert(info == all[0]);
            return Ok(info);
        }
        Err(UsbError::DeviceNotFound)
    }

    /// How to open a device: by its path where it is known. A path with a zero
    /// byte names no device.
    pub fn open_target(info: &DeviceInfo) -> (r: Result<OpenTarget, UsbError>)
        ensures
            match info.path {
                Some(path) => if path@.contains(0u8) {
                    r == Err::<OpenTarget, UsbError>(UsbError::DeviceNotFound)
                } else {
                    r is Ok && r->Ok_0 is Path && r->Ok_0->Path_0@ == path@
                },
                None => r == Ok::<OpenTarget, UsbError>(OpenTarget::Id(info.vid, info.pid)),
            },
    {
        match &info.path {
            Some(path) => {
                let mut i: usize = 0;
                while i < path.len()
                    invariant
                        info.path == Some(*path),
                        i <= path@.len(),
                        forall|j: int| 0 <= j < i ==> path@[j] != 0,
                    decreases path@.len() - i,
                {
                    if path[i] == 0 {
                        assert(path@.contains(0u8));
                        return Err(UsbError::DeviceNotFound);
                    }
                    i = i + 1;
                }
                Ok(OpenTarget::Path(bytes_copied(path)))
            },
            None => Ok(OpenTarget::Id(info.vid, info.pid)),
        }
    }

    /// The state of the connection to a device that was just opened.
    pub fn connect_device(info: DeviceInfo, now: u64) -> (r: UsbDevice)
        ensures
            r.inv(),
            r.info == info,
            r.last_keepalive == now,
    {
        let is_fnb58_variant = device::is_fnb58_variant(info.device_type);
        UsbDevice {
            info,
            is_fnb58_variant,
            keepalive_interval: protocol::keepalive_interval(is_fnb58_variant),
            last_keepalive: now,
        }
    }

    /// Get device info.
    pub fn info(&self) -> (r: &DeviceInfo)
        ensures
            *r == self.info,
    {
        &self.info
    }

    /// The reports that start data streaming, each to be followed by a delay of
    /// [`INIT_DELAY_MS`].
    pub fn start_streaming(&self) -> (r: Vec<[u8; 65]>)
        ensures
            r@.len() == 3,
            forall|i: int|
                0 <= i < 3 ==> (#[trigger] r@[i])@ == report(
                    protocol::init_sequence(self.is_fnb58_variant)[i],
                ),
    {
        let commands = protocol::init_commands(self.is_fnb58_variant);
        let mut r: Vec<[u8; 65]> = Vec::new();
        let mut i: usize = 0;
        while i < 3
            invariant
                i <= 3,
                r@.len() == i,
                commands@.len() == 3,
                forall|j: int|
                    0 <= j < 3 ==> (#[trigger] commands@[j])@ == protocol::init_sequence(
                        self.is_fnb58_variant,
                    )[j],
                forall|j: int|
                    0 <= j < i ==> (#[trigger] r@[j])@ == report(
                        protocol::init_sequence(self.is_fnb58_variant)[j],
                    ),
            decreases 3 - i,
        {
            assert(commands@[i as int]@ == protocol::init_sequence(self.is_fnb58_variant)[i as int]);
            r.push(frame_report(&commands[i]));
            i = i + 1;
        }
        r
    }

    /// What a read of `n` bytes into `buf` gives: nothing where no data was
    /// available.
    pub fn read_packet(n: usize, buf: [u8; 64]) -> (r: Option<[u8; 64]>)
        ensures
            r == if n == 0 {
                None
            } else {
                Some(buf)
            },
    {
        if n == 0 {
            None
        } else {
            Some(buf)
        }
    }

    /// The samples that a read of `n` bytes into `buf` gives: nothing where no
    /// data was available or it is not a valid data packet.
    pub fn read_samples(n: usize, buf: [u8; 64], validate_crc: bool) -> (r: Option<[RawSample; 4]>)
        ensures
            r is Some <==> n > 0 && protocol::refusal(buf@, validate_crc) is None,
            r matches Some(samples) ==> samples@ == protocol::samples_of(buf@),
    {
        match UsbDevice::read_packet(n, buf) {
            Some(packet) => protocol::try_decode_data_packet(&packet, validate_crc),
            None => None,
        }
    }

    /// Whether a keep-alive is due at `now`.
    pub open spec fn keepalive_due(&self, now: u64) -> bool {
        now - self.last_keepalive >= self.keepalive_interval * NANOS_PER_MS
    }

    /// The keep-alive report, if enough time has elapsed since the last one.
    pub fn send_keepalive_if_needed(&self, now: u64) -> (r: Option<[u8; 65]>)
        requires
            self.inv(),
        ensures
            r is Some <==> self.keepalive_due(now),
            r matches Some(sent) ==> sent@ == report(protocol::command(0x83, 0x9E)),
    {
        if now.saturating_sub(self.last_keepalive) >= self.keepalive_interval * NANOS_PER_MS {
            Some(self.send_keepalive())
        } else {
            None
        }
    }

    /// The keep-alive report.
    pub fn send_keepalive(&self) -> (r: [u8; 65])
        ensures
            r@ == report(protocol::command(0x83, 0x9E)),
    {
        frame_report(&protocol::cmd_keepalive_aa83())
    }

    /// Note that a keep-alive was sent, or streaming started, at `now`.
    pub fn keepalive_sent(&mut self, now: u64)
        ensures
            final(self).info == old(self).info,
            final(self).is_fnb58_variant == old(self).is_fnb58_variant,
            final(self).keepalive_interval == old(self).keepalive_interval,
            final(self).last_keepalive == now,
    {
        self.last_keepalive = now;
    }

    /// The report that carries a 64-byte packet.
    pub fn write_report(&self, data: &[u8; 64]) -> (r: [u8; 65])
        ensures
            r@ == report(data@),
    {
        frame_report(data)
    }

    /// Whether this device is an FNB58/FNB48S variant.
    pub fn is_fnb58_variant(&self) -> (r: bool)
        ensures
            r == self.is_fnb58_variant,
    {
        self.is_fnb58_variant
    }

    /// The keep-alive interval of this device, in milliseconds.
    pub fn keepalive_interval(&self) -> (r: u64)
        ensures
            r == self.keepalive_interval,
    {
        self.keepalive_interval
    }
}

/// Listing law: what is listed are the meters among the entries, in order, each
/// under its own model, IDs, names, serial number and path.
pub proof fn listed_devices_are_the_entries(
    infos: Seq<DeviceInfo>,
    entries: Seq<HidEntry>,
    kind: spec_fn(HidEntry) -> Option<DeviceType>,
    i: int,
)
    requires
        lists(infos, entries, kind),
        0 <= i < infos.len(),
    ensures
        infos.len() == recognized(entries, kind).len(),
        ({
            let at = recognized(entries, kind)[i];
            &&& 0 <= at < entries.len()
            &&& kind(entries[at]) == Some(infos[i].device_type)
            &&& infos[i].vid == entries[at].vid
            &&& infos[i].pid == entries[at].pid
            &&& infos[i].manufacturer == entries[at].manufacturer
            &&& infos[i].product == entries[at].product
            &&& infos[i].serial == entries[at].serial
            &&& infos[i].path matches Some(path) && path@ == entries[at].path@
        }),
{
}

/// Listing law: an entry is a meter in data mode as its IDs and its product tell,
/// and one in DFU mode exactly if its IDs are those of a meter in that mode.
pub proof fn entries_are_recognized_by_their_ids(entry: HidEntry)
    ensures
        entry.product is None ==> meter_type(entry) == device::detected(
            entry.vid,
            entry.pid,
            None,
        ),
        entry.product matches Some(product) ==> meter_type(entry) == device::detected(
            entry.vid,
            entry.pid,
            Some(product@),
        ),
        dfu_type(entry) is Some <==> entry.vid == 0x0483 && entry.pid == 0x0038,
        dfu_type(entry) is Some ==> dfu_type(entry) == Some(DeviceType::Fnb58),
        meter_type(entry) is None || dfu_type(entry) is None,
{
}

/// Report law: a report is its ID, which is zero, and the packet behind it.
pub proof fn reports_carry_their_packet(packet: Seq<u8>)
    ensures
        report(packet).len() == packet.len() + 1,
        report(packet)[0] == 0,
        report(packet).subrange(1, report(packet).len() as int) == packet,
{
    assert(report(packet).subrange(1, report(packet).len() as int) =~= packet);
}

/// Timeout law: a timeout has 32 bits with a sign, and differs from the
/// milliseconds by a multiple of 2 to the 32nd.
pub proof fn timeouts_keep_the_low_bits(millis: u128)
    ensures
        i32::MIN <= timeout_of(millis) <= i32::MAX,
        (millis - timeout_of(millis)) % 0x1_0000_0000 == 0,
{
}

/// Keep-alive law: a meter of the FNB58 family is due a second after the last
/// keep-alive and not before, any other after 3 ms.
pub proof fn keepalives_are_due_in_time(device: UsbDevice, now: u64)
    requires
        device.inv(),
    ensures
        device.keepalive_due(now) <==> now >= device.last_keepalive + if device.info.device_type
            == DeviceType::Fnb58 || device.info.device_type == DeviceType::Fnb48s {
            1_000_000_000int
        } else {
            3_000_000int
        },
{
}

/// Message law: what is wrong with a packet is told behind what kind of error it
/// is.
pub proof fn errors_of_the_protocol_are_told(error: ProtocolError)
    ensures
        UsbError::Protocol(error).described() == "protocol error: "@ + error.described(),
{
}

} // verus!
