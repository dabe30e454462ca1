//! Bluetooth Low Energy transport: which advertisers are meters, how a
//! connection is set up and what a notification means.

use vstd::prelude::*;
use vstd::string::StringExecFns;

use crate::float::F32;
use crate::protocol;
use crate::sample::Sample;
use crate::text;

verus! {

/// UUID of the notification characteristic: the device sends measurement data
/// here. It is the short UUID FFE4 in the Bluetooth base UUID.
pub const NOTIFY_CHAR: u128 = 0x0000_FFE4_0000_1000_8000_0080_5F9B_34FB;

/// UUID of the write characteristic: the host sends commands here. It is the
/// short UUID FFE9 in the Bluetooth base UUID.
pub const WRITE_CHAR: u128 = 0x0000_FFE9_0000_1000_8000_0080_5F9B_34FB;

/// Errors from BLE operations.
#[derive(Debug, Clone, Copy, PartialEq, Eq, Structural)]
pub enum BleError {
    DeviceNotFound,
    CharacteristicNotFound(Characteristic),
    NotConnected,
    ScanTimeout,
}

/// The characteristics that a meter must have.
#[derive(Debug, Clone, Copy, PartialEq, Eq, Structural)]
pub enum Characteristic {
    Write,
    Notify,
}

impl Characteristic {
    /// How the characteristic is called in messages.
    pub open spec fn name(self) -> Seq<char> {
        match self {
            Characteristic::Write => "write (FFE9)"@,
            Characteristic::Notify => "notify (FFE4)"@,
        }
    }

    /// How the characteristic is called in messages.
    pub fn label(self) -> (r: &'static str)
        ensures
            r@ == self.name(),
    {
        match self {
            Characteristic::Write => "write (FFE9)",
            Characteristic::Notify => "notify (FFE4)",
        }
    }
}

impl BleError {
    /// The message of the error.
    pub open spec fn described(self) -> Seq<char> {
        match self {
            BleError::DeviceNotFound => "no FNIRSI device found via BLE"@,
            BleError::CharacteristicNotFound(c) => "characteristic not found: "@ + c.name(),
            BleError::NotConnected => "device not connected"@,
            BleError::ScanTimeout => "scan timeout"@,
        }
    }

    /// The message of the error.
    pub fn describe(self) -> (r: String)
        ensures
            r@ == self.described(),
    {
        match self {
            BleError::DeviceNotFound => "no FNIRSI device found via BLE".to_owned(),
            BleError::CharacteristicNotFound(c) => text::joined(
                "characteristic not found: ",
                c.label(),
            ),
            BleError::NotConnected => "device not connected".to_owned(),
            BleError::ScanTimeout => "scan timeout".to_owned(),
        }
    }
}

/// Information about a BLE device: its advertised name and its address.
#[derive(Debug, Clone)]
pub struct BleDeviceInfo {
    pub name: Option<String>,
    pub address: String,
}

/// A measurement as a notification carries it.
#[derive(Debug, Clone, Copy, PartialEq, Eq, Structural)]
pub struct BleReading {
    /// Voltage in mV.
    pub voltage_raw: u16,
    /// Current in mA.
    pub current_raw: u16,
}

/// Whether a measurement frame, header and all, stands at `at`.
pub open spec fn frame_at(data: Seq<u8>, at: int) -> bool {
    &&& 0 <= at
    &&& at + 7 <= data.len()
    &&& data[at] == 0xAA
    &&& data[at + 1] == 0x07
    &&& data[at + 2] == 0x04
}

/// Whether the first measurement frame stands at `at`.
pub open spec fn first_frame_at(data: Seq<u8>, at: int) -> bool {
    &&& frame_at(data, at)
    &&& forall|i: int| 0 <= i < at ==> !#[trigger] frame_at(data, i)
}

/// Decode a BLE AA07 voltage/current notification.
///
/// BLE uses a shorter packet format than USB: the header AA 07 04, anywhere in
/// the payload, two bytes of voltage and two of current, the least significant
/// one first. The first whole frame counts.
pub fn decode_ble_aa07(data: &[u8]) -> (r: Option<BleReading>)
    ensures
        match r {
            Some(_) => exists|at: int| #[trigger] first_frame_at(data@, at),
            None => forall|at: int| !#[trigger] frame_at(data@, at),
        },
        forall|at: int| #[trigger]
            first_frame_at(data@, at) ==> r == Some(
                BleReading {
                    voltage_raw: protocol::le16(data@, at + 3) as u16,
                    current_raw: protocol::le16(data@, at + 5) as u16,
                },
            ),
{
    if data.len() < 7 {
        return None;
    }
    let end: usize = data.len() - 6;
    let mut i: usize = 0;
    while i < end
        invariant
            end + 6 == data.len(),
            i <= end,
            forall|j: int| 0 <= j < i ==> !#[trigger] frame_at(data@, j),
        decreases end - i,
    {
        if data[i] == 0xAA && data[i + 1] == 0x07 && data[i + 2] == 0x04 {
            assert(first_frame_at(data@, i as int));
            let reading = BleReading {
                voltage_raw: protocol::read_le16(data, i + 3),
                current_raw: protocol::read_le16(data, i + 5),
            };
            assert forall|at: int| #[trigger] first_frame_at(data@, at) implies at == i by {
                if at < i {
                    assert(!frame_at(data@, at));
                }
            }
            return Some(reading);
        }
        i = i + 1;
    }
    assert forall|at: int| !#[trigger] frame_at(data@, at) by {}
    None
}

/// The sample of a notification, given its values in volts, amps and watts. What
/// a meter measures over USB alone is zero, and so are the raw registers.
pub fn sample_of(voltage_v: F32, current_a: F32, power_w: F32) -> (r: Sample)
    ensures
        r == (Sample {
            timestamp_ms: 0,
            voltage_v,
            current_a,
            power_w,
            dp_v: F32 { bits: 0 },
            dn_v: F32 { bits: 0 },
            temp_c: F32 { bits: 0 },
            raw_voltage: 0,
            raw_current: 0,
        }),
{
    let zero = F32 { bits: 0 };
    Sample {
        timestamp_ms: 0,
        voltage_v,
        current_a,
        power_w,
        dp_v: zero,
        dn_v: zero,
        temp_c: zero,
        raw_voltage: 0,
        raw_current: 0,
    }
}

/// Whether an advertised name, given in lower case, is that of a meter.
pub open spec fn meter_name(lowercased: Seq<char>) -> bool {
    text::holds(lowercased, "fnb"@) || text::holds(lowercased, "fnirsi"@)
}

/// Whether an advertised name, given in lower case, is that of a meter.
pub fn is_meter_name(lowercased: &str) -> (r: bool)
    ensures
        r == meter_name(lowercased@),
{
    text::contains(lowercased, "fnb") || text::contains(lowercased, "fnirsi")
}

/// Whether an advertiser is a meter: it has a name, and that of one.
pub open spec fn advertises_meter(info: BleDeviceInfo) -> bool {
    match info.name {
        Some(name) => meter_name(text::lowered(name@)),
        None => false,
    }
}

/// The FNIRSI devices among those that a scan found, in order.
pub fn scan_devices(found: Vec<BleDeviceInfo>) -> (r: Vec<BleDeviceInfo>)
    ensures
        r@ == found@.filter(|info: BleDeviceInfo| advertises_meter(info)),
{
    let ghost all = found@;
    let ghost keep = |info: BleDeviceInfo| advertises_meter(info);
    let mut devices: Vec<BleDeviceInfo> = Vec::new();
    proof {
        reveal(Seq::filter);
    }
    for info in it: found
        invariant
            it.seq() == all,
            keep == (|info: BleDeviceInfo| advertises_meter(info)),
            devices@ == all.subrange(0, it.index() as int).filter(keep),
    {
        let ghost done = it.index() as int;
        proof {
            reveal(Seq::filter);
            assert(all.subrange(0, done + 1).drop_last() =~= all.subrange(0, done));
            assert(all.subrange(0, done + 1).last() == info);
        }
        let listed = match &info.name {
            Some(name) => is_meter_name(text::to_lowercase(name.as_str()).as_str()),
            None => false,
        };
        if listed {
            devices.push(info);
        }
    }
    assert(all.subrange(0, all.len() as int) =~= all);
    devices
}

/// The first place where `address` stands among `addresses`.
pub fn find_address(addresses: &Vec<String>, address: &str) -> (r: Option<usize>)
    ensures
        match r {
            Some(i) => {
                &&& i < addresses@.len()
                &&& addresses@[i as int]@ == address@
                &&& forall|j: int| 0 <= j < i ==> (#[trigger] addresses@[j])@ != address@
            },
            None => forall|j: int|
                0 <= j < addresses@.len() ==> (#[trigger] addresses@[j])@ != address@,
        },
{
    let wanted = address.to_owned();
    let mut i: usize = 0;
    while i < addresses.len()
        invariant
            wanted@ == address@,
            i <= addresses@.len(),
            forall|j: int| 0 <= j < i ==> (#[trigger] addresses@[j])@ != address@,
        decreases addresses@.len() - i,
    {
        if addresses[i] == wanted {
            return Some(i);
        }
        i = i + 1;
    }
    None
}

/// The first place where `uuid` stands among `uuids`.
pub open spec fn is_first(uuids: Seq<u128>, uuid: u128, i: int) -> bool {
    &&& 0 <= i < uuids.len()
    &&& uuids[i] == uuid
    &&& forall|j: int| 0 <= j < i ==> uuids[j] != uuid
}

fn find_uuid(uuids: &Vec<u128>, uuid: u128) -> (r: Option<usize>)
    ensures
        match r {
            Some(i) => is_first(uuids@, uuid, i as int),
            None => !uuids@.contains(uuid),
        },
{
    let mut i: usize = 0;
    while i < uuids.len()
        invariant
            i <= uuids@.len(),
            forall|j: int| 0 <= j < i ==> uuids@[j] != uuid,
        decreases uuids@.len() - i,
    {
        if uuids[i] == uuid {
            return Some(i);
        }
        i = i + 1;
    }
    None
}

/// Locate the write and the notify characteristic among those of a device, in
/// this order. The write characteristic is looked for first.
pub fn find_characteristics(uuids: &Vec<u128>) -> (r: Result<(usize, usize), BleError>)
    ensures
        match r {
            Ok((write, notify)) => is_first(uuids@, WRITE_CHAR, write as int) && is_first(
                uuids@,
                NOTIFY_CHAR,
                notify as int,
            ),
            Err(e) => if !uuids@.contains(WRITE_CHAR) {
                e == BleError::CharacteristicNotFound(Characteristic::Write)
            } else {
                !uuids@.contains(NOTIFY_CHAR) && e == BleError::CharacteristicNotFound(
                    Characteristic::Notify,
                )
            },
        },
{
    match find_uuid(uuids, WRITE_CHAR) {
        None => Err(BleError::CharacteristicNotFound(Characteristic::Write)),
        Some(write) => match find_uuid(uuids, NOTIFY_CHAR) {
            None => {
                assert(uuids@.contains(WRITE_CHAR));
                Err(BleError::CharacteristicNotFound(Characteristic::Notify))
            },
            Some(notify) => Ok((write, notify)),
        },
    }
}

/// The command that makes the device ready (much shorter than over USB).
pub fn ble_cmd_init() -> (r: [u8; 4])
    ensures
        r@ == seq![0xAAu8, 0x81, 0x00, 0xF4],
{
    let r: [u8; 4] = [0xAA, 0x81, 0x00, 0xF4];
    assert(r@ =~= seq![0xAAu8, 0x81, 0x00, 0xF4]);
    r
}

/// The command that starts the stream.
pub fn ble_cmd_start() -> (r: [u8; 4])
    ensures
        r@ == seq![0xAAu8, 0x82, 0x00, 0xA7],
{
    let r: [u8; 4] = [0xAA, 0x82, 0x00, 0xA7];
    assert(r@ =~= seq![0xAAu8, 0x82, 0x00, 0xA7]);
    r
}

/// The steps by which a connection is set up. Each is performed by the caller.
#[derive(Debug, Clone, Copy, PartialEq, Eq, Structural)]
pub enum ConnectStep {
    /// Look for the device among those already known.
    LookUp,
    /// Scan, then look again.
    Scan,
    /// Connect to the device.
    Connect,
    /// Discover its services, and locate the characteristics.
    Discover,
    /// Subscribe to notifications.
    Subscribe,
    /// Write both commands.
    Initialize,
    /// Notifications flow.
    Stream,
}

/// What became of a step, for the step that may fail to find something.
#[derive(Debug, Clone, Copy, PartialEq, Eq, Structural)]
pub enum StepOutcome {
    Done,
    NotFound,
}

impl ConnectStep {
    /// The step that follows: a device that is not known is scanned for, and
    /// one that is not found then ends the attempt.
    pub open spec fn following(self, outcome: StepOutcome) -> Result<ConnectStep, BleError> {
        match (self, outcome) {
            (ConnectStep::LookUp, StepOutcome::Done) => Ok(ConnectStep::Connect),
            (ConnectStep::LookUp, StepOutcome::NotFound) => Ok(ConnectStep::Scan),
            (ConnectStep::Scan, StepOutcome::Done) => Ok(ConnectStep::Connect),
            (ConnectStep::Scan, StepOutcome::NotFound) => Err(BleError::DeviceNotFound),
            (ConnectStep::Connect, _) => Ok(ConnectStep::Discover),
            (ConnectStep::Discover, _) => Ok(ConnectStep::Subscribe),
            (ConnectStep::Subscribe, _) => Ok(ConnectStep::Initialize),
            (ConnectStep::Initialize, _) => Ok(ConnectStep::Stream),
            (ConnectStep::Stream, _) => Ok(ConnectStep::Stream),
        }
    }

    /// The step that follows.
    pub fn next(self, outcome: StepOutcome) -> (r: Result<ConnectStep, BleError>)
        ensures
            r == self.following(outcome),
    {
        match self {
            ConnectStep::LookUp => match outcome {
                StepOutcome::Done => Ok(ConnectStep::Connect),
                StepOutcome::NotFound => Ok(ConnectStep::Scan),
            },
            ConnectStep::Scan => match outcome {
                StepOutcome::Done => Ok(ConnectStep::Connect),
                StepOutcome::NotFound => Err(BleError::DeviceNotFound),
            },
            ConnectStep::Connect => Ok(ConnectStep::Discover),
            ConnectStep::Discover => Ok(ConnectStep::Subscribe),
            ConnectStep::Subscribe => Ok(ConnectStep::Initialize),
            ConnectStep::Initialize => Ok(ConnectStep::Stream),
            ConnectStep::Stream => Ok(ConnectStep::Stream),
        }
    }

    /// What is reported when the step begins, if anything is.
    pub open spec fn announced(self, address: Seq<char>) -> Option<Seq<char>> {
        match self {
            ConnectStep::LookUp => None,
            ConnectStep::Scan => Some("Scanning for "@ + address + "..."@),
            ConnectStep::Connect => Some("Connecting... (takes time)"@),
            ConnectStep::Discover => Some("Discovering services..."@),
            ConnectStep::Subscribe => Some("Subscribing to notifications..."@),
            ConnectStep::Initialize => Some("Initializing device..."@),
            ConnectStep::Stream => None,
        }
    }

    /// What is reported when the step begins, if anything is.
    pub fn announce(self, address: &str) -> (r: Option<String>)
        ensures
            match r {
                Some(status) => self.announced(address@) == Some(status@),
                None => self.announced(address@) is None,
            },
    {
        match self {
            ConnectStep::LookUp => None,
            ConnectStep::Scan => {
                let mut status = text::joined("Scanning for ", address);
                status.append("...");
                Some(status)
            },
            ConnectStep::Connect => Some("Connecting... (takes time)".to_owned()),
            ConnectStep::Discover => Some("Discovering services...".to_owned()),
            ConnectStep::Subscribe => Some("Subscribing to notifications...".to_owned()),
            ConnectStep::Initialize => Some("Initializing device...".to_owned()),
            ConnectStep::Stream => None,
        }
    }
}

/// The steps left until notifications flow, at most.
pub open spec fn steps_left(step: ConnectStep) -> int {
    match step {
        ConnectStep::LookUp => 6,
        ConnectStep::Scan => 5,
        ConnectStep::Connect => 4,
        ConnectStep::Discover => 3,
        ConnectStep::Subscribe => 2,
        ConnectStep::Initialize => 1,
        ConnectStep::Stream => 0,
    }
}

/// Connection law: each step brings the stream nearer, or the attempt ends
/// because there is no such device, which only a scan can tell.
pub proof fn connecting_makes_progress(step: ConnectStep, outcome: StepOutcome)
    requires
        step != ConnectStep::Stream,
    ensures
        match step.following(outcome) {
            Ok(next) => steps_left(next) < steps_left(step),
            Err(e) => step == ConnectStep::Scan && e == BleError::DeviceNotFound,
        },
{
}

/// Frame law: a measurement frame is told by its three bytes of header, and by
/// the four bytes behind them that are there; the first is the one that no other
/// stands before.
pub proof fn frames_are_told_by_their_header(data: Seq<u8>, at: int)
    ensures
        frame_at(data, at) <==> 0 <= at && at + 7 <= data.len() && data[at] == 0xAA && data[at + 1]
            == 0x07 && data[at + 2] == 0x04,
        first_frame_at(data, at) <==> frame_at(data, at) && forall|i: int|
            0 <= i < at ==> !(#[trigger] data[i] == 0xAA && data[i + 1] == 0x07 && data[i + 2]
                == 0x04),
{
    if frame_at(data, at) {
        assert forall|i: int| 0 <= i < at implies (frame_at(data, i) <==> #[trigger] data[i] == 0xAA
            && data[i + 1] == 0x07 && data[i + 2] == 0x04) by {}
    }
}

/// Frame law: a reading is read back from the frame that carries it, whatever
/// stands before it, as long as no byte there begins a header, and whatever
/// stands behind it.
pub proof fn framed_readings_are_read_back(
    before: Seq<u8>,
    voltage: u16,
    current: u16,
    after: Seq<u8>,
)
    requires
        !before.contains(0xAA),
    ensures
        ({
            let frame = seq![
                0xAAu8,
                0x07,
                0x04,
                (voltage % 256) as u8,
                (voltage / 256) as u8,
                (current % 256) as u8,
                (current / 256) as u8,
            ];
            let data = before + frame + after;
            let at = before.len() as int;
            &&& first_frame_at(data, at)
            &&& protocol::le16(data, at + 3) == voltage
            &&& protocol::le16(data, at + 5) == current
        }),
{
    let frame = seq![
        0xAAu8,
        0x07,
        0x04,
        (voltage % 256) as u8,
        (voltage / 256) as u8,
        (current % 256) as u8,
        (current / 256) as u8,
    ];
    let data = before + frame + after;
    let at = before.len() as int;
    assert forall|i: int| 0 <= i < 7 implies data[at + i] == #[trigger] frame[i] by {}
    assert(data[at + 0] == frame[0] && data[at + 1] == frame[1] && data[at + 2] == frame[2]);
    assert(data[at + 3] == frame[3] && data[at + 4] == frame[4]);
    assert(data[at + 5] == frame[5] && data[at + 6] == frame[6]);
    assert forall|i: int| 0 <= i < at implies !#[trigger] frame_at(data, i) by {
        assert(data[i] == before[i]);
    }
}

/// Name law: a name, in lower case, is that of a meter exactly if `fnb` or
/// `fnirsi` stands in it.
pub proof fn meters_are_told_by_their_name(name: Seq<char>)
    ensures
        forall|before: Seq<char>, after: Seq<char>| #[trigger]
            (before + "fnb"@ + after) == name ==> meter_name(name),
        forall|before: Seq<char>, after: Seq<char>| #[trigger]
            (before + "fnirsi"@ + after) == name ==> meter_name(name),
        meter_name(name) ==> exists|at: int|
            0 <= at && (at + 3 <= name.len() && #[trigger] name.subrange(at, at + 3) == "fnb"@ || at
                + 6 <= name.len() && name.subrange(at, at + 6) == "fnirsi"@),
{
    reveal_strlit("fnb");
    reveal_strlit("fnirsi");
    let a = text::found_texts_stand_between_others(name, "fnb"@);
    let b = text::found_texts_stand_between_others(name, "fnirsi"@);
    if text::holds(name, "fnb"@) {
        assert(name.subrange(a, a + 3) =~= "fnb"@);
    } else if meter_name(name) {
        assert(name.subrange(b, b + 6) =~= "fnirsi"@);
        assert(name.subrange(b, b + 3).len() == 3);
    }
}

/// Scan law: an advertiser without a name is no meter, and one with a name is
/// listed by that name in lower case.
pub proof fn nameless_advertisers_are_no_meters(info: BleDeviceInfo)
    ensures
        info.name is None ==> !advertises_meter(info),
        info.name matches Some(name) ==> advertises_meter(info) == meter_name(
            text::lowered(name@),
        ),
{
}

/// Connection law: a characteristic is taken at its first place.
pub proof fn characteristics_are_taken_at_their_first_place(uuids: Seq<u128>, uuid: u128, i: int)
    requires
        is_first(uuids, uuid, i),
    ensures
        0 <= i < uuids.len(),
        uuids[i] == uuid,
        !uuids.subrange(0, i).contains(uuid),
{
}

/// Connection law: the steps are taken one after another, none is left out, and
/// only a device that is found at once needs no scan.
pub proof fn connecting_leaves_no_step_out(step: ConnectStep, outcome: StepOutcome)
    requires
        step != ConnectStep::Stream,
        step.following(outcome) is Ok,
    ensures
        step == ConnectStep::LookUp && outcome == StepOutcome::Done ==> step.following(outcome)
            == Ok::<ConnectStep, BleError>(ConnectStep::Connect),
        !(step == ConnectStep::LookUp && outcome == StepOutcome::Done) ==> steps_left(
            step.following(outcome)->Ok_0,
        ) == steps_left(step) - 1,
{
}

/// Connection law: a scan is announced with the address that is looked for, and
/// every other step as it is, whatever the address.
pub proof fn scans_are_announced_with_the_address(step: ConnectStep, a: Seq<char>, b: Seq<char>)
    ensures
        ConnectStep::Scan.announced(a) == Some("Scanning for "@ + a + "..."@),
        step != ConnectStep::Scan ==> step.announced(a) == step.announced(b),
        step.announced(a) is None <==> step == ConnectStep::LookUp || step == ConnectStep::Stream,
{
}

} // verus!
