//! Parser for `.cfn` offline recordings.
//!
//! CFN is a proprietary binary format used by the FNIRSI PC software to store
//! captured measurement sessions. Each file contains a sample rate, channel
//! metadata, and a flat array of timestamped data points. Numbers stand with
//! the least significant byte first.

use vstd::prelude::*;

use crate::float::{F32, F64};
use crate::protocol;
use crate::sample::Sample;

verus! {

/// Bits of 100.0, the sample rate that stands in for one that is not positive.
pub const FALLBACK_RATE_BITS: u64 = 0x4059_0000_0000_0000;

/// The file ends where a number was expected.
#[derive(Debug, Clone, Copy, PartialEq, Eq, Structural)]
pub enum CfnError {
    EofF64,
    EofU32,
    EofU16,
    EofU8,
}

impl CfnError {
    /// The message of the error.
    pub open spec fn described(self) -> Seq<char> {
        match self {
            CfnError::EofF64 => "Unexpected EOF reading f64"@,
            CfnError::EofU32 => "Unexpected EOF reading u32"@,
            CfnError::EofU16 => "Unexpected EOF reading u16"@,
            CfnError::EofU8 => "Unexpected EOF reading u8"@,
        }
    }

    /// The message of the error.
    pub fn describe(self) -> (r: &'static str)
        ensures
            r@ == self.described(),
    {
        match self {
            CfnError::EofF64 => "Unexpected EOF reading f64",
            CfnError::EofU32 => "Unexpected EOF reading u32",
            CfnError::EofU16 => "Unexpected EOF reading u16",
            CfnError::EofU8 => "Unexpected EOF reading u8",
        }
    }
}

/// One data point: its time in seconds and its values, zero where the file has
/// no such channel.
#[derive(Debug, Clone, Copy, PartialEq, Eq, Structural)]
pub struct CfnPoint {
    pub time: F64,
    pub voltage: F64,
    pub current: F64,
    pub dp: F64,
    pub dn: F64,
    pub power: F64,
}

impl CfnPoint {
    /// A point without any value.
    pub open spec fn at(time: F64) -> CfnPoint {
        let zero = F64 { bits: 0 };
        CfnPoint { time, voltage: zero, current: zero, dp: zero, dn: zero, power: zero }
    }

    /// The point with the value of one more channel. Channels of other types,
    /// such as accumulated capacity and energy, are ignored.
    pub open spec fn with(self, channel_type: u16, value: F64) -> CfnPoint {
        match channel_type {
            0 => CfnPoint { voltage: value, ..self },
            1 => CfnPoint { current: value, ..self },
            2 => CfnPoint { dp: value, ..self },
            3 => CfnPoint { dn: value, ..self },
            4 => CfnPoint { power: value, ..self },
            _ => self,
        }
    }

    fn set(&mut self, channel_type: u16, value: F64)
        ensures
            *final(self) == old(self).with(channel_type, value),
    {
        match channel_type {
            0 => self.voltage = value,
            1 => self.current = value,
            2 => self.dp = value,
            3 => self.dn = value,
            4 => self.power = value,
            _ => {},
        }
    }
}

/// The sample of a point, given its time in milliseconds and its values in
/// single precision. A recording has neither a temperature nor raw registers.
pub fn sample_of(
    timestamp_ms: u64,
    voltage_v: F32,
    current_a: F32,
    power_w: F32,
    dp_v: F32,
    dn_v: F32,
) -> (r: Sample)
    ensures
        r == (Sample {
            timestamp_ms,
            voltage_v,
            current_a,
            power_w,
            dp_v,
            dn_v,
            temp_c: F32 { bits: 0 },
            raw_voltage: 0,
            raw_current: 0,
        }),
{
    Sample {
        timestamp_ms,
        voltage_v,
        current_a,
        power_w,
        dp_v,
        dn_v,
        temp_c: F32 { bits: 0 },
        raw_voltage: 0,
        raw_current: 0,
    }
}

/// Eight bytes as a number, the least significant one first.
pub open spec fn le64(bytes: Seq<u8>, at: int) -> int {
    protocol::le32(bytes, at) + protocol::le32(bytes, at + 4) * 0x1_0000_0000
}

/// The double-precision number at `at`.
pub open spec fn f64_at(bytes: Seq<u8>, at: int) -> Result<(F64, int), CfnError> {
    if at + 8 > bytes.len() {
        Err(CfnError::EofF64)
    } else {
        Ok((F64 { bits: le64(bytes, at) as u64 }, at + 8))
    }
}

/// The 32-bit number at `at`.
pub open spec fn u32_at(bytes: Seq<u8>, at: int) -> Result<(u32, int), CfnError> {
    if at + 4 > bytes.len() {
        Err(CfnError::EofU32)
    } else {
        Ok((protocol::le32(bytes, at) as u32, at + 4))
    }
}

/// The 16-bit number at `at`.
pub open spec fn u16_at(bytes: Seq<u8>, at: int) -> Result<(u16, int), CfnError> {
    if at + 2 > bytes.len() {
        Err(CfnError::EofU16)
    } else {
        Ok((protocol::le16(bytes, at) as u16, at + 2))
    }
}

/// The byte at `at`.
pub open spec fn u8_at(bytes: Seq<u8>, at: int) -> Result<(u8, int), CfnError> {
    if at + 1 > bytes.len() {
        Err(CfnError::EofU8)
    } else {
        Ok((bytes[at], at + 1))
    }
}

/// The types of the `left` channels described from `at` on: each a type, four
/// unknown bytes, a flag and, where the flag is 1, sixteen bytes of bounds.
pub open spec fn channels_at(bytes: Seq<u8>, at: int, left: nat) -> Result<
    (Seq<u16>, int),
    CfnError,
>
    decreases left,
{
    if left == 0 {
        Ok((Seq::empty(), at))
    } else {
        match u16_at(bytes, at) {
            Err(e) => Err(e),
            Ok((channel_type, flag_at)) => match u8_at(bytes, flag_at + 4) {
                Err(e) => Err(e),
                Ok((flag, next)) => match channels_at(
                    bytes,
                    if flag == 1 {
                        next + 16
                    } else {
                        next
                    },
                    (left - 1) as nat,
                ) {
                    Err(e) => Err(e),
                    Ok((rest, end)) => Ok((seq![channel_type] + rest, end)),
                },
            },
        }
    }
}

/// `point` with the values, from `at` on, of the channels of `types`, in turn.
pub open spec fn values_at(bytes: Seq<u8>, at: int, types: Seq<u16>, point: CfnPoint) -> Result<
    (CfnPoint, int),
    CfnError,
>
    decreases types.len(),
{
    if types.len() == 0 {
        Ok((point, at))
    } else {
        match f64_at(bytes, at) {
            Err(e) => Err(e),
            Ok((value, next)) => values_at(
                bytes,
                next,
                types.drop_first(),
                point.with(types[0], value),
            ),
        }
    }
}

/// The point at `at`: its time, then one value per channel.
pub open spec fn point_at(bytes: Seq<u8>, at: int, types: Seq<u16>) -> Result<
    (CfnPoint, int),
    CfnError,
> {
    match f64_at(bytes, at) {
        Err(e) => Err(e),
        Ok((time, next)) => values_at(bytes, next, types, CfnPoint::at(time)),
    }
}

/// The `left` points from `at` on.
pub open spec fn points_at(bytes: Seq<u8>, at: int, types: Seq<u16>, left: nat) -> Result<
    (Seq<CfnPoint>, int),
    CfnError,
>
    decreases left,
{
    if left == 0 {
        Ok((Seq::empty(), at))
    } else {
        match point_at(bytes, at, types) {
            Err(e) => Err(e),
            Ok((point, next)) => match points_at(bytes, next, types, (left - 1) as nat) {
                Err(e) => Err(e),
                Ok((rest, end)) => Ok((seq![point] + rest, end)),
            },
        }
    }
}

/// The sample rate that is reported: one that is zero or negative would divide
/// by zero, and gives way to 100 Hz.
pub open spec fn usable_rate(rate: F64) -> F64 {
    if rate.at_most_zero() {
        F64 { bits: FALLBACK_RATE_BITS }
    } else {
        rate
    }
}

/// A recording: the sample rate, three 32-bit numbers that are not used, the
/// number of channels, the channels, the number of points and the points.
pub open spec fn recording(bytes: Seq<u8>) -> Result<(Seq<CfnPoint>, F64), CfnError> {
    match f64_at(bytes, 0) {
        Err(e) => Err(e),
        Ok((rate, _)) => if bytes.len() < 20 {
            Err(CfnError::EofU32)
        } else {
            match u16_at(bytes, 20) {
                Err(e) => Err(e),
                Ok((channels, _)) => match channels_at(bytes, 22, channels as nat) {
                    Err(e) => Err(e),
                    Ok((types, count_at)) => match u32_at(bytes, count_at) {
                        Err(e) => Err(e),
                        Ok((count, first)) => match points_at(bytes, first, types, count as nat) {
                            Err(e) => Err(e),
                            Ok((points, _)) => Ok((points, usable_rate(rate))),
                        },
                    },
                },
            }
        },
    }
}

/// Read the double-precision number at `at`.
pub fn read_f64(bytes: &[u8], at: usize) -> (r: Result<(F64, usize), CfnError>)
    requires
        bytes@.len() <= isize::MAX,
    ensures
        match (r, f64_at(bytes@, at as int)) {
            (Ok(a), Ok(b)) => a.0 == b.0 && a.1 == b.1,
            (Err(a), Err(b)) => a == b,
            _ => false,
        },
{
    if at > bytes.len() || bytes.len() - at < 8 {
        return Err(CfnError::EofF64);
    }
    let low: u64 = protocol::read_le32(bytes, at) as u64;
    let high: u64 = protocol::read_le32(bytes, at + 4) as u64;
    Ok((F64 { bits: low + high * 0x1_0000_0000 }, at + 8))
}

/// Read the 32-bit number at `at`.
pub fn read_u32(bytes: &[u8], at: usize) -> (r: Result<(u32, usize), CfnError>)
    requires
        bytes@.len() <= isize::MAX,
    ensures
        match (r, u32_at(bytes@, at as int)) {
            (Ok(a), Ok(b)) => a.0 == b.0 && a.1 == b.1,
            (Err(a), Err(b)) => a == b,
            _ => false,
        },
{
    if at > bytes.len() || bytes.len() - at < 4 {
        return Err(CfnError::EofU32);
    }
    Ok((protocol::read_le32(bytes, at), at + 4))
}

/// Read the 16-bit number at `at`.
pub fn read_u16(bytes: &[u8], at: usize) -> (r: Result<(u16, usize), CfnError>)
    requires
        bytes@.len() <= isize::MAX,
    ensures
        match (r, u16_at(bytes@, at as int)) {
            (Ok(a), Ok(b)) => a.0 == b.0 && a.1 == b.1,
            (Err(a), Err(b)) => a == b,
            _ => false,
        },
{
    if at > bytes.len() || bytes.len() - at < 2 {
        return Err(CfnError::EofU16);
    }
    Ok((protocol::read_le16(bytes, at), at + 2))
}

/// Read the byte at `at`.
pub fn read_u8(bytes: &[u8], at: usize) -> (r: Result<(u8, usize), CfnError>)
    requires
        bytes@.len() <= isize::MAX,
    ensures
        match (r, u8_at(bytes@, at as int)) {
            (Ok(a), Ok(b)) => a.0 == b.0 && a.1 == b.1,
            (Err(a), Err(b)) => a == b,
            _ => false,
        },
{
    if at >= bytes.len() {
        return Err(CfnError::EofU8);
    }
    Ok((bytes[at], at + 1))
}

fn read_channels(bytes: &[u8], at: usize, count: u16) -> (r: Result<(Vec<u16>, usize), CfnError>)
    requires
        bytes@.len() <= isize::MAX,
        at <= bytes@.len() + 16,
    ensures
        match (r, channels_at(bytes@, at as int, count as nat)) {
            (Ok(a), Ok(b)) => a.0@ == b.0 && a.1 == b.1,
            (Err(a), Err(b)) => a == b,
            _ => false,
        },
        r matches Ok(a) ==> a.1 <= bytes@.len() + 16,
{
    let mut types: Vec<u16> = Vec::new();
    let mut offset: usize = at;
    let mut i: u16 = 0;
    while i < count
        invariant
            bytes@.len() <= isize::MAX,
            offset <= bytes@.len() + 16,
            i <= count,
            channels_at(bytes@, at as int, count as nat) == match channels_at(
                bytes@,
                offset as int,
                (count - i) as nat,
            ) {
                Err(e) => Err::<(Seq<u16>, int), CfnError>(e),
                Ok((rest, end)) => Ok((types@ + rest, end)),
            },
        decreases count - i,
    {
        let ghost before = types@;
        let (channel_type, flag_at) = match read_u16(bytes, offset) {
            Ok(v) => v,
            Err(e) => return Err(e),
        };
        types.push(channel_type);
        let (flag, next) = match read_u8(bytes, flag_at + 4) {
            Ok(v) => v,
            Err(e) => return Err(e),
        };
        proof {
            let after = if flag == 1 {
                next + 16
            } else {
                next as int
            };
            if let Ok((rest, _)) = channels_at(bytes@, after, (count - i - 1) as nat) {
                assert(before + (seq![channel_type] + rest) =~= types@ + rest);
            }
        }
        offset = if flag == 1 { next + 16 } else { next };
        i = i + 1;
    }
    assert(types@ + Seq::<u16>::empty() =~= types@);
    Ok((types, offset))
}

fn read_point(bytes: &[u8], at: usize, types: &Vec<u16>) -> (r: Result<
    (CfnPoint, usize),
    CfnError,
>)
    requires
        bytes@.len() <= isize::MAX,
    ensures
        match (r, point_at(bytes@, at as int, types@)) {
            (Ok(a), Ok(b)) => a.0 == b.0 && a.1 == b.1,
            (Err(a), Err(b)) => a == b,
            _ => false,
        },
{
    let (time, first) = match read_f64(bytes, at) {
        Ok(v) => v,
        Err(e) => return Err(e),
    };
    let zero = F64 { bits: 0 };
    let mut point = CfnPoint {
        time,
        voltage: zero,
        current: zero,
        dp: zero,
        dn: zero,
        power: zero,
    };
    let mut offset: usize = first;
    let mut i: usize = 0;
    assert(types@.subrange(0, types@.len() as int) =~= types@);
    while i < types.len()
        invariant
            bytes@.len() <= isize::MAX,
            i <= types@.len(),
            point_at(bytes@, at as int, types@) == values_at(
                bytes@,
                offset as int,
                types@.subrange(i as int, types@.len() as int),
                point,
            ),
        decreases types@.len() - i,
    {
        let (value, next) = match read_f64(bytes, offset) {
            Ok(v) => v,
            Err(e) => return Err(e),
        };
        proof {
            let left = types@.subrange(i as int, types@.len() as int);
            assert(left.drop_first() =~= types@.subrange(i + 1, types@.len() as int));
            assert(left[0] == types@[i as int]);
        }
        point.set(types[i], value);
        offset = next;
        i = i + 1;
    }
    Ok((point, offset))
}

fn read_points(bytes: &[u8], at: usize, types: &Vec<u16>, count: u32) -> (r: Result<
    Vec<CfnPoint>,
    CfnError,
>)
    requires
        bytes@.len() <= isize::MAX,
    ensures
        match (r, points_at(bytes@, at as int, types@, count as nat)) {
            (Ok(a), Ok(b)) => a@ == b.0,
            (Err(a), Err(b)) => a == b,
            _ => false,
        },
{
    let mut points: Vec<CfnPoint> = Vec::new();
    let mut offset: usize = at;
    let mut i: u32 = 0;
    while i < count
        invariant
            bytes@.len() <= isize::MAX,
            i <= count,
            points_at(bytes@, at as int, types@, count as nat) == match points_at(
                bytes@,
                offset as int,
                types@,
                (count - i) as nat,
            ) {
                Err(e) => Err::<(Seq<CfnPoint>, int), CfnError>(e),
                Ok((rest, end)) => Ok((points@ + rest, end)),
            },
        decreases count - i,
    {
        let ghost before = points@;
        let (point, next) = match read_point(bytes, offset, types) {
            Ok(v) => v,
            Err(e) => return Err(e),
        };
        points.push(point);
        proof {
            if let Ok((rest, _)) = points_at(bytes@, next as int, types@, (count - i - 1) as nat) {
                assert(before + (seq![point] + rest) =~= points@ + rest);
            }
        }
        offset = next;
        i = i + 1;
    }
    assert(points@ + Seq::<CfnPoint>::empty() =~= points@);
    Ok(points)
}

/// Parse the bytes of a `.cfn` file into its points and the sample rate.
pub fn read_cfn(bytes: &[u8]) -> (r: Result<(Vec<CfnPoint>, F64), CfnError>)
    requires
        bytes@.len() <= isize::MAX,
    ensures
        match (r, recording(bytes@)) {
            (Ok(a), Ok(b)) => a.0@ == b.0 && a.1 == b.1,
            (Err(a), Err(b)) => a == b,
            _ => false,
        },
{
    let (rate, start_at) = match read_f64(bytes, 0) {
        Ok(v) => v,
        Err(e) => return Err(e),
    };
    let (_start, stop_at) = match read_u32(bytes, start_at) {
        Ok(v) => v,
        Err(e) => return Err(e),
    };
    let (_stop, time_at) = match read_u32(bytes, stop_at) {
        Ok(v) => v,
        Err(e) => return Err(e),
    };
    let (_time, channels_at) = match read_u32(bytes, time_at) {
        Ok(v) => v,
        Err(e) => return Err(e),
    };
    let (channels, first_channel) = match read_u16(bytes, channels_at) {
        Ok(v) => v,
        Err(e) => return Err(e),
    };
    let (types, count_at) = match read_channels(bytes, first_channel, channels) {
        Ok(v) => v,
        Err(e) => return Err(e),
    };
    let (count, first_point) = match read_u32(bytes, count_at) {
        Ok(v) => v,
        Err(e) => return Err(e),
    };
    let points = match read_points(bytes, first_point, &types, count) {
        Ok(v) => v,
        Err(e) => return Err(e),
    };
    let usable = if rate.is_at_most_zero() {
        F64 { bits: FALLBACK_RATE_BITS }
    } else {
        rate
    };
    Ok((points, usable))
}

proof fn numbers_ignore_what_follows(bytes: Seq<u8>, more: Seq<u8>, at: int)
    requires
        0 <= at,
    ensures
        f64_at(bytes, at) is Ok ==> f64_at(bytes + more, at) == f64_at(bytes, at),
        u32_at(bytes, at) is Ok ==> u32_at(bytes + more, at) == u32_at(bytes, at),
        u16_at(bytes, at) is Ok ==> u16_at(bytes + more, at) == u16_at(bytes, at),
        u8_at(bytes, at) is Ok ==> u8_at(bytes + more, at) == u8_at(bytes, at),
{
}

proof fn channels_ignore_what_follows(bytes: Seq<u8>, more: Seq<u8>, at: int, left: nat)
    requires
        0 <= at,
        channels_at(bytes, at, left) is Ok,
    ensures
        channels_at(bytes + more, at, left) == channels_at(bytes, at, left),
        channels_at(bytes, at, left)->Ok_0.1 >= at,
    decreases left,
{
    if left > 0 {
        numbers_ignore_what_follows(bytes, more, at);
        let flag_at = u16_at(bytes, at)->Ok_0.1 + 4;
        numbers_ignore_what_follows(bytes, more, flag_at);
        let (flag, next) = u8_at(bytes, flag_at)->Ok_0;
        channels_ignore_what_follows(
            bytes,
            more,
            if flag == 1 {
                next + 16
            } else {
                next
            },
            (left - 1) as nat,
        );
    }
}

proof fn values_ignore_what_follows(
    bytes: Seq<u8>,
    more: Seq<u8>,
    at: int,
    types: Seq<u16>,
    point: CfnPoint,
)
    requires
        0 <= at,
        values_at(bytes, at, types, point) is Ok,
    ensures
        values_at(bytes + more, at, types, point) == values_at(bytes, at, types, point),
        values_at(bytes, at, types, point)->Ok_0.1 == at + 8 * types.len(),
        types.len() > 0 ==> values_at(bytes, at, types, point)->Ok_0.1 <= bytes.len(),
    decreases types.len(),
{
    if types.len() > 0 {
        numbers_ignore_what_follows(bytes, more, at);
        let (value, next) = f64_at(bytes, at)->Ok_0;
        values_ignore_what_follows(
            bytes,
            more,
            next,
            types.drop_first(),
            point.with(types[0], value),
        );
    }
}

proof fn points_ignore_what_follows(
    bytes: Seq<u8>,
    more: Seq<u8>,
    at: int,
    types: Seq<u16>,
    left: nat,
)
    requires
        0 <= at,
        points_at(bytes, at, types, left) is Ok,
    ensures
        points_at(bytes + more, at, types, left) == points_at(bytes, at, types, left),
        points_at(bytes, at, types, left)->Ok_0.0.len() == left,
        at <= bytes.len() ==> points_at(bytes, at, types, left)->Ok_0.1 <= bytes.len(),
        points_at(bytes, at, types, left)->Ok_0.1 >= at,
    decreases left,
{
    if left > 0 {
        numbers_ignore_what_follows(bytes, more, at);
        let (time, next) = f64_at(bytes, at)->Ok_0;
        values_ignore_what_follows(bytes, more, next, types, CfnPoint::at(time));
        let after = point_at(bytes, at, types)->Ok_0.1;
        points_ignore_what_follows(bytes, more, after, types, (left - 1) as nat);
    }
}

/// Recording law: whatever follows a complete recording changes nothing.
pub proof fn trailing_bytes_are_ignored(bytes: Seq<u8>, more: Seq<u8>)
    requires
        recording(bytes) is Ok,
    ensures
        recording(bytes + more) == recording(bytes),
{
    numbers_ignore_what_follows(bytes, more, 0);
    numbers_ignore_what_follows(bytes, more, 20);
    let channels = u16_at(bytes, 20)->Ok_0.0;
    channels_ignore_what_follows(bytes, more, 22, channels as nat);
    let (types, count_at) = channels_at(bytes, 22, channels as nat)->Ok_0;
    numbers_ignore_what_follows(bytes, more, count_at);
    let (count, first) = u32_at(bytes, count_at)->Ok_0;
    points_ignore_what_follows(bytes, more, first, types, count as nat);
}

/// Where a complete recording ends.
pub open spec fn extent(bytes: Seq<u8>) -> int {
    let (types, count_at) = channels_at(bytes, 22, u16_at(bytes, 20)->Ok_0.0 as nat)->Ok_0;
    let (count, first) = u32_at(bytes, count_at)->Ok_0;
    points_at(bytes, first, types, count as nat)->Ok_0.1
}

/// Recording law: a recording that is cut short anywhere is refused.
pub proof fn truncated_recordings_are_refused(bytes: Seq<u8>, len: int)
    requires
        recording(bytes) is Ok,
        0 <= len < extent(bytes),
    ensures
        recording(bytes.subrange(0, len)) is Err,
{
    recordings_end_within_their_bytes(bytes);
    let short = bytes.subrange(0, len);
    let rest = bytes.subrange(len, bytes.len() as int);
    assert(short + rest =~= bytes);
    if recording(short) is Ok {
        numbers_ignore_what_follows(short, rest, 20);
        let channels = u16_at(short, 20)->Ok_0.0;
        channels_ignore_what_follows(short, rest, 22, channels as nat);
        let (types, count_at) = channels_at(short, 22, channels as nat)->Ok_0;
        numbers_ignore_what_follows(short, rest, count_at);
        let (count, first) = u32_at(short, count_at)->Ok_0;
        points_ignore_what_follows(short, rest, first, types, count as nat);
        assert(extent(bytes) == extent(short));
    }
}

/// Recording law: a complete recording ends within its bytes.
pub proof fn recordings_end_within_their_bytes(bytes: Seq<u8>)
    requires
        recording(bytes) is Ok,
    ensures
        26 <= extent(bytes) <= bytes.len(),
{
    let none = Seq::<u8>::empty();
    let channels = u16_at(bytes, 20)->Ok_0.0;
    channels_ignore_what_follows(bytes, none, 22, channels as nat);
    let (types, count_at) = channels_at(bytes, 22, channels as nat)->Ok_0;
    let (count, first) = u32_at(bytes, count_at)->Ok_0;
    points_ignore_what_follows(bytes, none, first, types, count as nat);
}

proof fn channels_need_no_more(bytes: Seq<u8>, len: int, at: int, left: nat)
    requires
        0 <= at,
        0 <= len <= bytes.len(),
        channels_at(bytes, at, left) is Ok,
        channels_at(bytes, at, left)->Ok_0.1 <= len,
    ensures
        channels_at(bytes.subrange(0, len), at, left) == channels_at(bytes, at, left),
    decreases left,
{
    if left > 0 {
        let flag_at = u16_at(bytes, at)->Ok_0.1 + 4;
        let (flag, next) = u8_at(bytes, flag_at)->Ok_0;
        let after = if flag == 1 {
            next + 16
        } else {
            next
        };
        channels_ignore_what_follows(bytes, Seq::empty(), after, (left - 1) as nat);
        channels_need_no_more(bytes, len, after, (left - 1) as nat);
    }
}

proof fn values_need_no_more(
    bytes: Seq<u8>,
    len: int,
    at: int,
    types: Seq<u16>,
    point: CfnPoint,
)
    requires
        0 <= at,
        0 <= len <= bytes.len(),
        values_at(bytes, at, types, point) is Ok,
        values_at(bytes, at, types, point)->Ok_0.1 <= len,
    ensures
        values_at(bytes.subrange(0, len), at, types, point) == values_at(bytes, at, types, point),
    decreases types.len(),
{
    if types.len() > 0 {
        values_ignore_what_follows(bytes, Seq::empty(), at, types, point);
        let (value, next) = f64_at(bytes, at)->Ok_0;
        values_need_no_more(
            bytes,
            len,
            next,
            types.drop_first(),
            point.with(types[0], value),
        );
    }
}

proof fn points_need_no_more(bytes: Seq<u8>, len: int, at: int, types: Seq<u16>, left: nat)
    requires
        0 <= at,
        0 <= len <= bytes.len(),
        points_at(bytes, at, types, left) is Ok,
        points_at(bytes, at, types, left)->Ok_0.1 <= len,
    ensures
        points_at(bytes.subrange(0, len), at, types, left) == points_at(bytes, at, types, left),
    decreases left,
{
    if left > 0 {
        let (time, next) = f64_at(bytes, at)->Ok_0;
        let after = point_at(bytes, at, types)->Ok_0.1;
        values_ignore_what_follows(bytes, Seq::empty(), next, types, CfnPoint::at(time));
        points_ignore_what_follows(bytes, Seq::empty(), after, types, (left - 1) as nat);
        values_need_no_more(bytes, len, next, types, CfnPoint::at(time));
        points_need_no_more(bytes, len, after, types, (left - 1) as nat);
    }
}

/// Recording law: the bytes up to where a recording ends are all that it takes
/// to read it.
pub proof fn recordings_need_no_more_than_their_extent(bytes: Seq<u8>)
    requires
        recording(bytes) is Ok,
    ensures
        recording(bytes.subrange(0, extent(bytes))) == recording(bytes),
{
    recordings_end_within_their_bytes(bytes);
    let len = extent(bytes);
    let none = Seq::<u8>::empty();
    let channels = u16_at(bytes, 20)->Ok_0.0;
    channels_ignore_what_follows(bytes, none, 22, channels as nat);
    let (types, count_at) = channels_at(bytes, 22, channels as nat)->Ok_0;
    let (count, first) = u32_at(bytes, count_at)->Ok_0;
    points_ignore_what_follows(bytes, none, first, types, count as nat);
    channels_need_no_more(bytes, len, 22, channels as nat);
    points_need_no_more(bytes, len, first, types, count as nat);
}

/// The number of points that a recording says it has.
pub open spec fn stored_count(bytes: Seq<u8>) -> int {
    let (_, count_at) = channels_at(bytes, 22, u16_at(bytes, 20)->Ok_0.0 as nat)->Ok_0;
    u32_at(bytes, count_at)->Ok_0.0 as int
}

/// Recording law: a recording that is read has as many points as it says.
pub proof fn points_are_as_many_as_stored(bytes: Seq<u8>)
    requires
        recording(bytes) is Ok,
    ensures
        recording(bytes)->Ok_0.0.len() == stored_count(bytes),
{
    let none = Seq::<u8>::empty();
    let channels = u16_at(bytes, 20)->Ok_0.0;
    channels_ignore_what_follows(bytes, none, 22, channels as nat);
    let (types, count_at) = channels_at(bytes, 22, channels as nat)->Ok_0;
    let (count, first) = u32_at(bytes, count_at)->Ok_0;
    points_ignore_what_follows(bytes, none, first, types, count as nat);
}

/// Recording law: the sample rate that is reported is neither zero nor negative.
pub proof fn rate_is_usable(bytes: Seq<u8>)
    requires
        recording(bytes) is Ok,
    ensures
        !recording(bytes)->Ok_0.1.at_most_zero(),
{
}

/// Number law: a number that is read is made of its bytes, the least significant
/// one first; one that would end behind the last byte is refused by its width.
pub proof fn numbers_have_the_low_byte_first(bytes: Seq<u8>, at: int)
    requires
        0 <= at,
    ensures
        at + 8 > bytes.len() ==> f64_at(bytes, at) == Err::<(F64, int), _>(CfnError::EofF64),
        at + 4 > bytes.len() ==> u32_at(bytes, at) == Err::<(u32, int), _>(CfnError::EofU32),
        at + 2 > bytes.len() ==> u16_at(bytes, at) == Err::<(u16, int), _>(CfnError::EofU16),
        at + 1 > bytes.len() ==> u8_at(bytes, at) == Err::<(u8, int), _>(CfnError::EofU8),
        at + 8 <= bytes.len() ==> {
            &&& f64_at(bytes, at) is Ok
            &&& f64_at(bytes, at)->Ok_0.0.bits == bytes[at] + 0x100 * bytes[at + 1] + 0x1_0000
                * bytes[at + 2] + 0x100_0000 * bytes[at + 3] + 0x1_0000_0000 * bytes[at + 4]
                + 0x100_0000_0000 * bytes[at + 5] + 0x1_0000_0000_0000 * bytes[at + 6]
                + 0x100_0000_0000_0000 * bytes[at + 7]
            &&& f64_at(bytes, at)->Ok_0.1 == at + 8
        },
        at + 4 <= bytes.len() ==> {
            &&& u32_at(bytes, at) is Ok
            &&& u32_at(bytes, at)->Ok_0.0 == bytes[at] + 0x100 * bytes[at + 1] + 0x1_0000 * bytes[at
                + 2] + 0x100_0000 * bytes[at + 3]
            &&& u32_at(bytes, at)->Ok_0.1 == at + 4
        },
        at + 2 <= bytes.len() ==> {
            &&& u16_at(bytes, at) is Ok
            &&& u16_at(bytes, at)->Ok_0.0 == bytes[at] + 0x100 * bytes[at + 1]
            &&& u16_at(bytes, at)->Ok_0.1 == at + 2
        },
        at + 1 <= bytes.len() ==> u8_at(bytes, at) == Ok::<_, CfnError>((bytes[at], at + 1)),
{
}

/// A number of 16 bits in bytes, the least significant one first.
pub open spec fn u16_bytes(n: int) -> Seq<u8> {
    seq![(n % 256) as u8, (n / 0x100 % 256) as u8]
}

/// A number of 32 bits in bytes, the least significant one first.
pub open spec fn u32_bytes(n: int) -> Seq<u8> {
    seq![
        (n % 256) as u8,
        (n / 0x100 % 256) as u8,
        (n / 0x1_0000 % 256) as u8,
        (n / 0x100_0000 % 256) as u8,
    ]
}

/// A double-precision number in bytes, the least significant one first.
pub open spec fn f64_bytes(value: F64) -> Seq<u8> {
    u32_bytes(value.bits as int % 0x1_0000_0000) + u32_bytes(value.bits as int / 0x1_0000_0000)
}

/// A channel as a recording describes it.
pub ghost struct StoredChannel {
    pub channel_type: u16,
    /// Four bytes of no known meaning.
    pub unknown: Seq<u8>,
    pub flag: u8,
    /// Sixteen bytes where the flag is 1, none elsewhere.
    pub bounds: Seq<u8>,
}

impl StoredChannel {
    /// The parts have the lengths that the format gives them.
    pub open spec fn wf(self) -> bool {
        &&& self.unknown.len() == 4
        &&& self.bounds.len() == if self.flag == 1 {
            16int
        } else {
            0int
        }
    }

    /// The bytes that describe the channel.
    pub open spec fn stored(self) -> Seq<u8> {
        u16_bytes(self.channel_type as int) + self.unknown + seq![self.flag] + self.bounds
    }
}

/// A point as a recording stores it: its time, and one value per channel.
pub ghost struct StoredPoint {
    pub time: F64,
    pub values: Seq<F64>,
}

/// The bytes of double-precision numbers, one after another.
pub open spec fn stored_values(values: Seq<F64>) -> Seq<u8>
    decreases values.len(),
{
    if values.len() == 0 {
        Seq::empty()
    } else {
        f64_bytes(values[0]) + stored_values(values.drop_first())
    }
}

/// The bytes of channels, one after another.
pub open spec fn stored_channels(channels: Seq<StoredChannel>) -> Seq<u8>
    decreases channels.len(),
{
    if channels.len() == 0 {
        Seq::empty()
    } else {
        channels[0].stored() + stored_channels(channels.drop_first())
    }
}

/// The bytes of points, one after another.
pub open spec fn stored_points(points: Seq<StoredPoint>) -> Seq<u8>
    decreases points.len(),
{
    if points.len() == 0 {
        Seq::empty()
    } else {
        f64_bytes(points[0].time) + stored_values(points[0].values) + stored_points(
            points.drop_first(),
        )
    }
}

/// The bytes of a recording.
#[verifier::opaque]
pub open spec fn stored_recording(
    rate: F64,
    unused: Seq<u8>,
    channels: Seq<StoredChannel>,
    points: Seq<StoredPoint>,
) -> Seq<u8> {
    f64_bytes(rate) + unused + u16_bytes(channels.len() as int) + stored_channels(channels)
        + u32_bytes(points.len() as int) + stored_points(points)
}

/// Whether `part` stands in `bytes` from `at` on.
#[verifier::opaque]
spec fn stands(bytes: Seq<u8>, at: int, part: Seq<u8>) -> bool {
    &&& 0 <= at
    &&& at + part.len() <= bytes.len()
    &&& forall|k: int| 0 <= k < part.len() ==> bytes[at + k] == #[trigger] part[k]
}

proof fn parts_stand(bytes: Seq<u8>, at: int, a: Seq<u8>, b: Seq<u8>)
    requires
        stands(bytes, at, a + b),
    ensures
        stands(bytes, at, a),
        stands(bytes, at + a.len(), b),
{
    reveal(stands);
    assert forall|k: int| 0 <= k < a.len() implies bytes[at + k] == #[trigger] a[k] by {
        assert((a + b)[k] == a[k]);
    }
    assert forall|k: int| 0 <= k < b.len() implies bytes[at + a.len() + k] == #[trigger] b[k] by {
        assert((a + b)[a.len() + k] == b[k]);
    }
}

proof fn u16_is_read_back(bytes: Seq<u8>, at: int, n: int)
    requires
        0 <= n < 0x1_0000,
        stands(bytes, at, u16_bytes(n)),
    ensures
        u16_at(bytes, at) == Ok::<(u16, int), CfnError>((n as u16, at + 2)),
{
    reveal(stands);
    let part = u16_bytes(n);
    assert(bytes[at + 0] == part[0] && bytes[at + 1] == part[1]);
}

proof fn u32_is_read_back(bytes: Seq<u8>, at: int, n: int)
    requires
        0 <= n < 0x1_0000_0000,
        stands(bytes, at, u32_bytes(n)),
    ensures
        protocol::le32(bytes, at) == n,
        u32_at(bytes, at) == Ok::<(u32, int), CfnError>((n as u32, at + 4)),
{
    reveal(stands);
    let part = u32_bytes(n);
    assert(bytes[at + 0] == part[0] && bytes[at + 1] == part[1]);
    assert(bytes[at + 2] == part[2] && bytes[at + 3] == part[3]);
}

proof fn f64_is_read_back(bytes: Seq<u8>, at: int, value: F64)
    requires
        stands(bytes, at, f64_bytes(value)),
    ensures
        f64_at(bytes, at) == Ok::<(F64, int), CfnError>((value, at + 8)),
{
    let low = value.bits as int % 0x1_0000_0000;
    let high = value.bits as int / 0x1_0000_0000;
    parts_stand(bytes, at, u32_bytes(low), u32_bytes(high));
    u32_is_read_back(bytes, at, low);
    u32_is_read_back(bytes, at + 4, high);
}

proof fn channels_are_read_back(bytes: Seq<u8>, at: int, channels: Seq<StoredChannel>)
    requires
        stands(bytes, at, stored_channels(channels)),
        forall|c: int| 0 <= c < channels.len() ==> (#[trigger] channels[c]).wf(),
    ensures
        channels_at(bytes, at, channels.len()) == Ok::<(Seq<u16>, int), CfnError>(
            (
                channels.map_values(|c: StoredChannel| c.channel_type),
                at + stored_channels(channels).len(),
            ),
        ),
    decreases channels.len(),
{
    let types = channels.map_values(|c: StoredChannel| c.channel_type);
    if channels.len() == 0 {
        assert(types =~= Seq::<u16>::empty());
    } else {
        let c = channels[0];
        let rest = channels.drop_first();
        let kind = u16_bytes(c.channel_type as int);
        parts_stand(bytes, at, c.stored(), stored_channels(rest));
        parts_stand(bytes, at, kind + c.unknown + seq![c.flag], c.bounds);
        parts_stand(bytes, at, kind + c.unknown, seq![c.flag]);
        parts_stand(bytes, at, kind, c.unknown);
        u16_is_read_back(bytes, at, c.channel_type as int);
        assert(at + 7 <= bytes.len() && bytes[at + 6] == c.flag) by {
            reveal(stands);
            assert(bytes[at + 6 + 0] == seq![c.flag][0]);
        }
        channels_are_read_back(bytes, at + c.stored().len(), rest);
        assert(types =~= seq![c.channel_type] + rest.map_values(|c: StoredChannel| c.channel_type));
    }
}

/// The value that a point holds for a type of channel.
spec fn held(point: CfnPoint, channel_type: u16) -> F64 {
    match channel_type {
        0 => point.voltage,
        1 => point.current,
        2 => point.dp,
        3 => point.dn,
        _ => point.power,
    }
}

/// The values are read, and of each type the last one stays.
proof fn values_are_read_back(
    bytes: Seq<u8>,
    at: int,
    types: Seq<u16>,
    values: Seq<F64>,
    point: CfnPoint,
)
    requires
        types.len() == values.len(),
        stands(bytes, at, stored_values(values)),
    ensures
        stored_values(values).len() == 8 * values.len(),
        values_at(bytes, at, types, point) is Ok,
        values_at(bytes, at, types, point)->Ok_0.1 == at + 8 * values.len(),
        ({
            let read = values_at(bytes, at, types, point)->Ok_0.0;
            &&& read.time == point.time
            &&& forall|t: u16|
                t <= 4 && (forall|c: int| 0 <= c < types.len() ==> #[trigger] types[c] != t)
                    ==> #[trigger] held(read, t) == held(point, t)
            &&& forall|c: int|
                0 <= c < types.len() && #[trigger] types[c] <= 4 && (forall|d: int|
                    c < d < types.len() ==> #[trigger] types[d] != types[c]) ==> held(
                    read,
                    types[c],
                ) == values[c]
        }),
    decreases values.len(),
{
    if values.len() > 0 {
        let value = values[0];
        let after = point.with(types[0], value);
        let rest = types.drop_first();
        let others = values.drop_first();
        parts_stand(bytes, at, f64_bytes(value), stored_values(others));
        f64_is_read_back(bytes, at, value);
        values_are_read_back(bytes, at + 8, rest, others, after);
        let read = values_at(bytes, at, types, point)->Ok_0.0;
        assert(forall|d: int| 0 <= d < rest.len() ==> #[trigger] rest[d] == types[d + 1]);
        assert(forall|d: int| 0 < d < types.len() ==> #[trigger] types[d] == rest[d - 1]);
        assert forall|t: u16|
            t <= 4 && (forall|c: int| 0 <= c < types.len() ==> #[trigger] types[c] != t) implies
            #[trigger] held(read, t) == held(point, t) by {
            assert(types[0] != t);
            assert(held(after, t) == held(point, t));
        }
        assert forall|c: int|
            0 <= c < types.len() && #[trigger] types[c] <= 4 && (forall|d: int|
                c < d < types.len() ==> #[trigger] types[d] != types[c]) implies held(
            read,
            types[c],
        ) == values[c] by {
            if c == 0 {
                assert(forall|d: int| 0 <= d < rest.len() ==> #[trigger] rest[d] != types[0]);
                assert(held(read, types[0]) == held(after, types[0]));
            } else {
                assert(rest[c - 1] == types[c]);
                assert(others[c - 1] == values[c]);
            }
        }
    }
}

/// What a point that is read has to do with the one that was stored: the time is
/// the stored one, and each value is that of the last channel of its type, or
/// zero where there is no such channel.
pub open spec fn point_read(point: CfnPoint, stored: StoredPoint, channels: Seq<StoredChannel>) -> bool {
    &&& point.time == stored.time
    &&& forall|c: int|
        0 <= c < channels.len() && (forall|d: int|
            c < d < channels.len() ==> (#[trigger] channels[d]).channel_type
                != channels[c].channel_type) ==> {
            let value = #[trigger] stored.values[c];
            &&& channels[c].channel_type == 0 ==> point.voltage == value
            &&& channels[c].channel_type == 1 ==> point.current == value
            &&& channels[c].channel_type == 2 ==> point.dp == value
            &&& channels[c].channel_type == 3 ==> point.dn == value
            &&& channels[c].channel_type == 4 ==> point.power == value
        }
    &&& (forall|c: int| 0 <= c < channels.len() ==> (#[trigger] channels[c]).channel_type != 0)
        ==> point.voltage.bits == 0
    &&& (forall|c: int| 0 <= c < channels.len() ==> (#[trigger] channels[c]).channel_type != 1)
        ==> point.current.bits == 0
    &&& (forall|c: int| 0 <= c < channels.len() ==> (#[trigger] channels[c]).channel_type != 2)
        ==> point.dp.bits == 0
    &&& (forall|c: int| 0 <= c < channels.len() ==> (#[trigger] channels[c]).channel_type != 3)
        ==> point.dn.bits == 0
    &&& (forall|c: int| 0 <= c < channels.len() ==> (#[trigger] channels[c]).channel_type != 4)
        ==> point.power.bits == 0
}

proof fn point_is_read_back(
    bytes: Seq<u8>,
    at: int,
    channels: Seq<StoredChannel>,
    stored: StoredPoint,
)
    requires
        stored.values.len() == channels.len(),
        stands(bytes, at, f64_bytes(stored.time) + stored_values(stored.values)),
    ensures
        ({
            let types = channels.map_values(|c: StoredChannel| c.channel_type);
            &&& point_at(bytes, at, types) is Ok
            &&& point_at(bytes, at, types)->Ok_0.1 == at + 8 + 8 * channels.len()
            &&& point_read(point_at(bytes, at, types)->Ok_0.0, stored, channels)
        }),
        stored_values(stored.values).len() == 8 * channels.len(),
{
    let types = channels.map_values(|c: StoredChannel| c.channel_type);
    let none = CfnPoint::at(stored.time);
    parts_stand(bytes, at, f64_bytes(stored.time), stored_values(stored.values));
    f64_is_read_back(bytes, at, stored.time);
    values_are_read_back(bytes, at + 8, types, stored.values, none);
    let read = point_at(bytes, at, types)->Ok_0.0;
    assert(forall|c: int| 0 <= c < channels.len() ==> #[trigger] types[c] == channels[c].channel_type);
    assert forall|c: int|
        0 <= c < channels.len() && (forall|d: int|
            c < d < channels.len() ==> (#[trigger] channels[d]).channel_type
                != channels[c].channel_type) && channels[c].channel_type <= 4 implies held(
        read,
        channels[c].channel_type,
    ) == #[trigger] stored.values[c] by {
        assert(types[c] == channels[c].channel_type);
        assert forall|d: int| c < d < types.len() implies #[trigger] types[d] != types[c] by {
            assert(channels[d].channel_type != channels[c].channel_type);
        }
    }
    assert forall|t: u16|
        t <= 4 && (forall|c: int|
            0 <= c < channels.len() ==> (#[trigger] channels[c]).channel_type != t) implies
        #[trigger] held(read, t).bits == 0 by {
        assert forall|c: int| 0 <= c < types.len() implies #[trigger] types[c] != t by {
            assert(channels[c].channel_type != t);
        }
        assert(held(read, t) == held(none, t));
    }
    assert(held(read, 0) == read.voltage && held(read, 1) == read.current && held(read, 2)
        == read.dp && held(read, 3) == read.dn && held(read, 4) == read.power);
}

proof fn points_are_read_back(
    bytes: Seq<u8>,
    at: int,
    channels: Seq<StoredChannel>,
    points: Seq<StoredPoint>,
)
    requires
        stands(bytes, at, stored_points(points)),
        forall|k: int|
            0 <= k < points.len() ==> (#[trigger] points[k]).values.len() == channels.len(),
    ensures
        ({
            let types = channels.map_values(|c: StoredChannel| c.channel_type);
            let read = points_at(bytes, at, types, points.len());
            &&& read is Ok
            &&& read->Ok_0.0.len() == points.len()
            &&& forall|k: int|
                0 <= k < points.len() ==> point_read(
                    #[trigger] read->Ok_0.0[k],
                    points[k],
                    channels,
                )
        }),
    decreases points.len(),
{
    if points.len() > 0 {
        let types = channels.map_values(|c: StoredChannel| c.channel_type);
        let first = points[0];
        let rest = points.drop_first();
        parts_stand(
            bytes,
            at,
            f64_bytes(first.time) + stored_values(first.values),
            stored_points(rest),
        );
        point_is_read_back(bytes, at, channels, first);
        let next = at + 8 + 8 * channels.len();
        assert(next == at + (f64_bytes(first.time) + stored_values(first.values)).len());
        points_are_read_back(bytes, next, channels, rest);
        let read = points_at(bytes, at, types, points.len())->Ok_0.0;
        let others = points_at(bytes, next, types, rest.len())->Ok_0.0;
        assert forall|k: int| 0 <= k < points.len() implies point_read(
            #[trigger] read[k],
            points[k],
            channels,
        ) by {
            if k > 0 {
                assert(read[k] == others[k - 1]);
                assert(rest[k - 1] == points[k]);
            }
        }
    }
}

proof fn six_parts_stand(
    a: Seq<u8>,
    b: Seq<u8>,
    c: Seq<u8>,
    d: Seq<u8>,
    e: Seq<u8>,
    f: Seq<u8>,
)
    ensures
        stands(a + b + c + d + e + f, 0, a),
        stands(a + b + c + d + e + f, (a.len() + b.len()) as int, c),
        stands(a + b + c + d + e + f, (a.len() + b.len() + c.len()) as int, d),
        stands(a + b + c + d + e + f, (a.len() + b.len() + c.len() + d.len()) as int, e),
        stands(a + b + c + d + e + f, (a.len() + b.len() + c.len() + d.len() + e.len()) as int, f),
{
    let all = a + b + c + d + e + f;
    assert(stands(all, 0, all)) by {
        reveal(stands);
    }
    parts_stand(all, 0, a + b + c + d + e, f);
    parts_stand(all, 0, a + b + c + d, e);
    parts_stand(all, 0, a + b + c, d);
    parts_stand(all, 0, a + b, c);
    parts_stand(all, 0, a, b);
}

proof fn recording_is_laid_out(
    rate: F64,
    unused: Seq<u8>,
    channels: Seq<StoredChannel>,
    points: Seq<StoredPoint>,
)
    requires
        unused.len() == 12,
        channels.len() < 0x1_0000,
        points.len() < 0x1_0000_0000,
        forall|c: int| 0 <= c < channels.len() ==> (#[trigger] channels[c]).wf(),
    ensures
        ({
            let bytes = stored_recording(rate, unused, channels, points);
            let count_at = 22 + stored_channels(channels).len() as int;
            &&& bytes.len() == count_at + 4 + stored_points(points).len()
            &&& f64_at(bytes, 0) == Ok::<(F64, int), CfnError>((rate, 8))
            &&& u16_at(bytes, 20) == Ok::<(u16, int), CfnError>((channels.len() as u16, 22))
            &&& channels_at(bytes, 22, channels.len()) == Ok::<(Seq<u16>, int), CfnError>(
                (channels.map_values(|c: StoredChannel| c.channel_type), count_at),
            )
            &&& u32_at(bytes, count_at) == Ok::<(u32, int), CfnError>(
                (points.len() as u32, count_at + 4),
            )
            &&& stands(bytes, count_at + 4, stored_points(points))
        }),
{
    let bytes = stored_recording(rate, unused, channels, points);
    let first = f64_bytes(rate);
    let count = u16_bytes(channels.len() as int);
    let described = stored_channels(channels);
    let number = u32_bytes(points.len() as int);
    let rest = stored_points(points);
    assert(first.len() == 8 && count.len() == 2 && number.len() == 4);
    assert(bytes == first + unused + count + described + number + rest) by {
        reveal(stored_recording);
    }
    six_parts_stand(first, unused, count, described, number, rest);
    assert(bytes.len() == 26 + described.len() + rest.len());
    f64_is_read_back(bytes, 0, rate);
    u16_is_read_back(bytes, 20, channels.len() as int);
    channels_are_read_back(bytes, 22, channels);
    u32_is_read_back(bytes, 22 + described.len() as int, points.len() as int);
}

/// Recording law: reading inverts writing. The bytes that store a rate, channels
/// and points in the `.cfn` layout are read as exactly these points, in order:
/// each with its time and, of each type of channel, the value of the last one.
/// The rate is the stored one, or 100 Hz for one that is not positive.
pub proof fn stored_recordings_are_read_back(
    rate: F64,
    unused: Seq<u8>,
    channels: Seq<StoredChannel>,
    points: Seq<StoredPoint>,
)
    requires
        unused.len() == 12,
        channels.len() < 0x1_0000,
        points.len() < 0x1_0000_0000,
        forall|c: int| 0 <= c < channels.len() ==> (#[trigger] channels[c]).wf(),
        forall|k: int|
            0 <= k < points.len() ==> (#[trigger] points[k]).values.len() == channels.len(),
    ensures
        ({
            let read = recording(stored_recording(rate, unused, channels, points));
            &&& read is Ok
            &&& read->Ok_0.1 == if !rate.nan() && (rate.bits == 0 || rate.bits
                >= 0x8000_0000_0000_0000) {
                F64 { bits: 0x4059_0000_0000_0000 }
            } else {
                rate
            }
            &&& read->Ok_0.0.len() == points.len()
            &&& forall|k: int|
                0 <= k < points.len() ==> point_read(
                    #[trigger] read->Ok_0.0[k],
                    points[k],
                    channels,
                )
        }),
{
    let bytes = stored_recording(rate, unused, channels, points);
    let types = channels.map_values(|c: StoredChannel| c.channel_type);
    let first = 26 + stored_channels(channels).len() as int;
    recording_is_laid_out(rate, unused, channels, points);
    points_are_read_back(bytes, first, channels, points);
    let read = points_at(bytes, first, types, points.len())->Ok_0;
    assert(recording(bytes) == Ok::<(Seq<CfnPoint>, F64), CfnError>((read.0, usable_rate(rate))));
}

proof fn points_end_in_a_number(bytes: Seq<u8>, at: int, types: Seq<u16>, left: nat)
    requires
        points_at(bytes, at, types, left) is Err,
    ensures
        points_at(bytes, at, types, left)->Err_0 == CfnError::EofF64,
    decreases left,
{
    if left > 0 {
        if let Ok((time, next)) = f64_at(bytes, at) {
            values_end_in_a_number(bytes, next, types, CfnPoint::at(time));
        }
        if let Ok((_, next)) = point_at(bytes, at, types) {
            points_end_in_a_number(bytes, next, types, (left - 1) as nat);
        }
    }
}

proof fn values_end_in_a_number(bytes: Seq<u8>, at: int, types: Seq<u16>, point: CfnPoint)
    ensures
        values_at(bytes, at, types, point) matches Err(e) ==> e == CfnError::EofF64,
    decreases types.len(),
{
    if types.len() > 0 {
        if let Ok((value, next)) = f64_at(bytes, at) {
            values_end_in_a_number(bytes, next, types.drop_first(), point.with(types[0], value));
        }
    }
}

/// Channels that are cut short `cut` bytes behind the start of channel `c`.
proof fn cut_channels_are_told(
    bytes: Seq<u8>,
    at: int,
    channels: Seq<StoredChannel>,
    c: int,
    cut: int,
)
    requires
        0 <= at,
        forall|k: int| 0 <= k < channels.len() ==> (#[trigger] channels[k]).wf(),
        0 <= c < channels.len(),
        0 <= cut < channels[c].stored().len(),
        bytes.len() == at + stored_channels(channels.subrange(0, c)).len() + cut,
        stands(
            bytes,
            at,
            stored_channels(channels.subrange(0, c)) + channels[c].stored().subrange(0, cut),
        ),
    ensures
        match channels_at(bytes, at, channels.len()) {
            Err(e) => {
                &&& e == if cut < 2 || cut >= 7 {
                    CfnError::EofU16
                } else {
                    CfnError::EofU8
                }
                &&& cut >= 7 ==> c < channels.len() - 1
            },
            Ok((_, end)) => cut >= 7 && c == channels.len() - 1 && end > bytes.len(),
        },
    decreases c,
{
    let rest = channels.drop_first();
    let first = channels[0];
    let kind = u16_bytes(first.channel_type as int);
    if c == 0 {
        assert(channels.subrange(0, 0) =~= Seq::<StoredChannel>::empty());
        let part = first.stored().subrange(0, cut);
        assert(Seq::<u8>::empty() + part =~= part);
        if cut >= 7 {
            assert(bytes[at + 6] == first.flag) by {
                reveal(stands);
                assert(bytes[at + 6] == part[6]);
            }
            if c < channels.len() - 1 {
                assert(rest.len() > 0);
            }
        }
    } else {
        let some = channels.subrange(0, c);
        assert(some[0] == first);
        assert(some.drop_first() =~= rest.subrange(0, c - 1));
        let others = stored_channels(rest.subrange(0, c - 1));
        let part = channels[c].stored().subrange(0, cut);
        assert(stored_channels(some) == first.stored() + others);
        assert(stored_channels(some) + part =~= first.stored() + (others + part));
        parts_stand(bytes, at, first.stored(), others + part);
        parts_stand(bytes, at, kind + first.unknown + seq![first.flag], first.bounds);
        parts_stand(bytes, at, kind + first.unknown, seq![first.flag]);
        parts_stand(bytes, at, kind, first.unknown);
        u16_is_read_back(bytes, at, first.channel_type as int);
        assert(at + 7 <= bytes.len() && bytes[at + 6] == first.flag) by {
            reveal(stands);
            assert(bytes[at + 6 + 0] == seq![first.flag][0]);
        }
        assert(rest[c - 1] == channels[c]);
        assert forall|k: int| 0 <= k < rest.len() implies (#[trigger] rest[k]).wf() by {
            assert(channels[k + 1].wf());
        }
        cut_channels_are_told(bytes, at + first.stored().len(), rest, c - 1, cut);
    }
}

proof fn parts_are_cut(
    head: Seq<u8>,
    some: Seq<u8>,
    one: Seq<u8>,
    others: Seq<u8>,
    number: Seq<u8>,
    rest: Seq<u8>,
    cut: int,
)
    requires
        0 <= cut <= one.len(),
    ensures
        ({
            let bytes = head + (some + one + others) + number + rest;
            let short = bytes.subrange(0, head.len() + some.len() + cut);
            stands(short, head.len() as int, some + one.subrange(0, cut))
        }),
{
    let bytes = head + (some + one + others) + number + rest;
    let short = bytes.subrange(0, head.len() + some.len() + cut);
    assert(short =~= head + (some + one.subrange(0, cut)));
    assert(stands(short, 0, short)) by {
        reveal(stands);
    }
    parts_stand(short, 0, head, some + one.subrange(0, cut));
}

/// Recording law: a recording that is cut short is refused for the number that
/// the cut falls on: the rate, one of the unused numbers, the number of channels,
/// the number of points, or a number of a point.
pub proof fn truncated_recordings_tell_what_is_missing(
    rate: F64,
    unused: Seq<u8>,
    channels: Seq<StoredChannel>,
    points: Seq<StoredPoint>,
    len: int,
)
    requires
        unused.len() == 12,
        channels.len() < 0x1_0000,
        points.len() < 0x1_0000_0000,
        forall|c: int| 0 <= c < channels.len() ==> (#[trigger] channels[c]).wf(),
        forall|k: int|
            0 <= k < points.len() ==> (#[trigger] points[k]).values.len() == channels.len(),
        0 <= len < stored_recording(rate, unused, channels, points).len(),
    ensures
        ({
            let short = stored_recording(rate, unused, channels, points).subrange(0, len);
            let count_at = 22 + stored_channels(channels).len();
            &&& len < 8 ==> recording(short) == Err::<(Seq<CfnPoint>, F64), _>(CfnError::EofF64)
            &&& 8 <= len < 20 ==> recording(short) == Err::<(Seq<CfnPoint>, F64), _>(
                CfnError::EofU32,
            )
            &&& 20 <= len < 22 ==> recording(short) == Err::<(Seq<CfnPoint>, F64), _>(
                CfnError::EofU16,
            )
            &&& count_at <= len < count_at + 4 ==> recording(short) == Err::<
                (Seq<CfnPoint>, F64),
                _,
            >(CfnError::EofU32)
            &&& count_at + 4 <= len ==> recording(short) == Err::<(Seq<CfnPoint>, F64), _>(
                CfnError::EofF64,
            )
        }),
{
    let bytes = stored_recording(rate, unused, channels, points);
    let short = bytes.subrange(0, len);
    let described = stored_channels(channels);
    let count_at = 22 + described.len() as int;
    recording_is_laid_out(rate, unused, channels, points);
    let types = channels.map_values(|c: StoredChannel| c.channel_type);
    if count_at <= len {
        header_is_read(rate, unused, channels, points, len);
        if count_at + 4 <= len {
            numbers_need_no_more(bytes, len, count_at);
            stored_recordings_are_read_back(rate, unused, channels, points);
            recordings_end_with_their_bytes(rate, unused, channels, points);
            truncated_recordings_are_refused(bytes, len);
            points_end_in_a_number(short, count_at + 4, types, points.len());
        }
    }
}

/// Recording law: a recording whose description of the channels is cut short,
/// `cut` bytes behind the start of channel `c`, is refused for the type of the
/// channel, for its flag, or, where only its bounds are short, for the number
/// that follows them.
pub proof fn truncated_channels_tell_what_is_missing(
    rate: F64,
    unused: Seq<u8>,
    channels: Seq<StoredChannel>,
    points: Seq<StoredPoint>,
    c: int,
    cut: int,
)
    requires
        unused.len() == 12,
        channels.len() < 0x1_0000,
        points.len() < 0x1_0000_0000,
        forall|k: int| 0 <= k < channels.len() ==> (#[trigger] channels[k]).wf(),
        0 <= c < channels.len(),
        0 <= cut < channels[c].stored().len(),
    ensures
        ({
            let at = 22 + stored_channels(channels.subrange(0, c)).len() + cut;
            let short = stored_recording(rate, unused, channels, points).subrange(0, at as int);
            recording(short) == Err::<(Seq<CfnPoint>, F64), CfnError>(
                if cut < 2 {
                    CfnError::EofU16
                } else if cut < 7 {
                    CfnError::EofU8
                } else if c < channels.len() - 1 {
                    CfnError::EofU16
                } else {
                    CfnError::EofU32
                },
            )
        }),
{
    let bytes = stored_recording(rate, unused, channels, points);
    let some = stored_channels(channels.subrange(0, c));
    let at = 22 + some.len() + cut;
    recording_is_laid_out(rate, unused, channels, points);
    channels_are_cut(rate, unused, channels, points, c, cut);
    numbers_need_no_more(bytes, at, 0);
    numbers_need_no_more(bytes, at, 20);
    cut_channels_are_told(bytes.subrange(0, at), 22, channels, c, cut);
}

proof fn channels_are_cut(
    rate: F64,
    unused: Seq<u8>,
    channels: Seq<StoredChannel>,
    points: Seq<StoredPoint>,
    c: int,
    cut: int,
)
    requires
        unused.len() == 12,
        0 <= c < channels.len(),
        0 <= cut < channels[c].stored().len(),
    ensures
        ({
            let some = stored_channels(channels.subrange(0, c));
            let bytes = stored_recording(rate, unused, channels, points);
            let at = 22 + some.len() + cut;
            &&& at <= bytes.len()
            &&& stands(
                bytes.subrange(0, at),
                22,
                some + channels[c].stored().subrange(0, cut),
            )
        }),
{
    let some = stored_channels(channels.subrange(0, c));
    let head = f64_bytes(rate) + unused + u16_bytes(channels.len() as int);
    let others = stored_channels(channels.subrange(c + 1, channels.len() as int));
    let number = u32_bytes(points.len() as int);
    let one = channels[c].stored();
    assert(head.len() == 22);
    channels_come_apart(channels, c);
    parts_are_cut(head, some, one, others, number, stored_points(points), cut);
    assert(stored_recording(rate, unused, channels, points) == head + (some + one + others)
        + number + stored_points(points)) by {
        reveal(stored_recording);
    }
}

proof fn channels_come_apart(channels: Seq<StoredChannel>, c: int)
    requires
        0 <= c < channels.len(),
    ensures
        stored_channels(channels) == stored_channels(channels.subrange(0, c))
            + channels[c].stored() + stored_channels(
            channels.subrange(c + 1, channels.len() as int),
        ),
    decreases c,
{
    let rest = channels.drop_first();
    if c == 0 {
        assert(channels.subrange(0, 0) =~= Seq::<StoredChannel>::empty());
        assert(channels.subrange(1, channels.len() as int) =~= rest);
        assert(Seq::<u8>::empty() + channels[0].stored() =~= channels[0].stored());
    } else {
        channels_come_apart(rest, c - 1);
        let some = channels.subrange(0, c);
        assert(some.drop_first() =~= rest.subrange(0, c - 1));
        assert(rest.subrange(c, rest.len() as int) =~= channels.subrange(
            c + 1,
            channels.len() as int,
        ));
        let a = channels[0].stored();
        let b = stored_channels(rest.subrange(0, c - 1));
        let d = channels[c].stored();
        let e = stored_channels(channels.subrange(c + 1, channels.len() as int));
        assert(a + (b + d + e) =~= (a + b) + d + e);
    }
}

proof fn numbers_need_no_more(bytes: Seq<u8>, len: int, at: int)
    requires
        0 <= at,
        0 <= len <= bytes.len(),
    ensures
        at + 8 <= len ==> f64_at(bytes.subrange(0, len), at) == f64_at(bytes, at),
        at + 4 <= len ==> u32_at(bytes.subrange(0, len), at) == u32_at(bytes, at),
        at + 2 <= len ==> u16_at(bytes.subrange(0, len), at) == u16_at(bytes, at),
{
}

proof fn header_is_read(
    rate: F64,
    unused: Seq<u8>,
    channels: Seq<StoredChannel>,
    points: Seq<StoredPoint>,
    len: int,
)
    requires
        unused.len() == 12,
        channels.len() < 0x1_0000,
        points.len() < 0x1_0000_0000,
        forall|c: int| 0 <= c < channels.len() ==> (#[trigger] channels[c]).wf(),
        22 + stored_channels(channels).len() <= len,
        len <= stored_recording(rate, unused, channels, points).len(),
    ensures
        ({
            let short = stored_recording(rate, unused, channels, points).subrange(0, len);
            &&& f64_at(short, 0) == Ok::<(F64, int), CfnError>((rate, 8))
            &&& u16_at(short, 20) == Ok::<(u16, int), CfnError>((channels.len() as u16, 22))
            &&& channels_at(short, 22, channels.len()) == Ok::<(Seq<u16>, int), CfnError>(
                (
                    channels.map_values(|c: StoredChannel| c.channel_type),
                    22 + stored_channels(channels).len() as int,
                ),
            )
        }),
{
    let bytes = stored_recording(rate, unused, channels, points);
    recording_is_laid_out(rate, unused, channels, points);
    numbers_need_no_more(bytes, len, 0);
    numbers_need_no_more(bytes, len, 20);
    channels_need_no_more(bytes, len, 22, channels.len());
}

proof fn recordings_end_with_their_bytes(
    rate: F64,
    unused: Seq<u8>,
    channels: Seq<StoredChannel>,
    points: Seq<StoredPoint>,
)
    requires
        unused.len() == 12,
        channels.len() < 0x1_0000,
        points.len() < 0x1_0000_0000,
        forall|c: int| 0 <= c < channels.len() ==> (#[trigger] channels[c]).wf(),
        forall|k: int|
            0 <= k < points.len() ==> (#[trigger] points[k]).values.len() == channels.len(),
    ensures
        extent(stored_recording(rate, unused, channels, points)) == stored_recording(
            rate,
            unused,
            channels,
            points,
        ).len(),
{
    let bytes = stored_recording(rate, unused, channels, points);
    let first = 26 + stored_channels(channels).len() as int;
    recording_is_laid_out(rate, unused, channels, points);
    points_end_where_stored(bytes, first, channels, points);
}

proof fn points_end_where_stored(
    bytes: Seq<u8>,
    at: int,
    channels: Seq<StoredChannel>,
    points: Seq<StoredPoint>,
)
    requires
        stands(bytes, at, stored_points(points)),
        forall|k: int|
            0 <= k < points.len() ==> (#[trigger] points[k]).values.len() == channels.len(),
    ensures
        ({
            let types = channels.map_values(|c: StoredChannel| c.channel_type);
            let read = points_at(bytes, at, types, points.len());
            read is Ok && read->Ok_0.1 == at + stored_points(points).len()
        }),
    decreases points.len(),
{
    if points.len() > 0 {
        let first = points[0];
        let rest = points.drop_first();
        let row = f64_bytes(first.time) + stored_values(first.values);
        parts_stand(bytes, at, row, stored_points(rest));
        point_is_read_back(bytes, at, channels, first);
        assert(row.len() == 8 + 8 * channels.len());
        assert forall|k: int| 0 <= k < rest.len() implies (#[trigger] rest[k]).values.len()
            == channels.len() by {
            assert(points[k + 1].values.len() == channels.len());
        }
        points_end_where_stored(bytes, at + row.len(), channels, rest);
    }
}

} // verus!
