//! Packet decoding and command definitions for the FNIRSI wire protocol.
//!
//! All FNIRSI USB power meters exchange fixed 64-byte HID reports. Data
//! packets carry four 15-byte measurement samples plus header and CRC bytes.

use vstd::prelude::*;
use vstd::string::StringExecFns;

use crate::crc;
use crate::text;

verus! {

/// HID report/packet size used by all FNIRSI devices.
pub const PACKET_SIZE: usize = 64;

/// Number of samples per data packet.
pub const SAMPLES_PER_PACKET: usize = 4;

/// Size of one sample within a data packet.
pub const SAMPLE_SIZE: usize = 15;

/// First byte of every packet.
pub const HEADER: u8 = 0xAA;

/// Type byte of a data packet containing 4 measurement samples.
pub const PACKET_TYPE_DATA: u8 = 0x04;

/// Type byte of a device info / response packet.
pub const PACKET_TYPE_INFO: u8 = 0x03;

/// Errors from packet decoding.
#[derive(Debug, Clone, Copy, PartialEq, Eq, Structural)]
pub enum ProtocolError {
    PacketTooShort(usize),
    InvalidHeader(u8),
    CrcMismatch { expected: u8, actual: u8 },
    NotDataPacket(u8),
}

impl ProtocolError {
    /// The message of the error.
    pub open spec fn described(self) -> Seq<char> {
        match self {
            ProtocolError::PacketTooShort(len) => "packet too short: expected 64 bytes, got "@
                + text::decimal_text(len as nat),
            ProtocolError::InvalidHeader(byte) => "invalid header byte: expected 0xAA, got 0x"@
                + text::hex2_text(byte),
            ProtocolError::CrcMismatch { expected, actual } => "CRC mismatch: expected 0x"@
                + text::hex2_text(expected) + ", got 0x"@ + text::hex2_text(actual),
            ProtocolError::NotDataPacket(byte) => "not a data packet: type 0x"@ + text::hex2_text(
                byte,
            ),
        }
    }

    /// The message of the error.
    pub fn describe(self) -> (r: String)
        ensures
            r@ == self.described(),
    {
        match self {
            ProtocolError::PacketTooShort(len) => {
                let mut out = "packet too short: expected 64 bytes, got ".to_owned();
                text::push_decimal(&mut out, len as u64);
                out
            },
            ProtocolError::InvalidHeader(byte) => {
                let mut out = "invalid header byte: expected 0xAA, got 0x".to_owned();
                text::push_hex2(&mut out, byte);
                out
            },
            ProtocolError::CrcMismatch { expected, actual } => {
                let mut out = "CRC mismatch: expected 0x".to_owned();
                text::push_hex2(&mut out, expected);
                out.append(", got 0x");
                text::push_hex2(&mut out, actual);
                out
            },
            ProtocolError::NotDataPacket(byte) => {
                let mut out = "not a data packet: type 0x".to_owned();
                text::push_hex2(&mut out, byte);
                out
            },
        }
    }
}

/// A command packet: header, command byte, zeros and the CRC byte.
pub open spec fn command(code: u8, seal: u8) -> Seq<u8> {
    Seq::new(64, |i: int| 0u8).update(0, HEADER).update(1, code).update(63, seal)
}

fn build_command(code: u8, seal: u8) -> (r: [u8; 64])
    ensures
        r@ == command(code, seal),
{
    let mut buf: [u8; 64] = [0u8; 64];
    buf[0] = HEADER;
    buf[1] = code;
    buf[63] = seal;
    assert(buf@ =~= command(code, seal));
    buf
}

/// Command AA81: initial identification/handshake.
pub fn cmd_init_aa81() -> (r: [u8; 64])
    ensures
        r@ == command(0x81, 0x8E),
{
    build_command(0x81, 0x8E)
}

/// Command AA82: setup / request data stream.
pub fn cmd_setup_aa82() -> (r: [u8; 64])
    ensures
        r@ == command(0x82, 0x96),
{
    build_command(0x82, 0x96)
}

/// Command AA83: keep-alive / continue data stream.
pub fn cmd_keepalive_aa83() -> (r: [u8; 64])
    ensures
        r@ == command(0x83, 0x9E),
{
    build_command(0x83, 0x9E)
}

/// The commands that start a stream, in order.
pub open spec fn init_sequence(is_fnb58_variant: bool) -> Seq<Seq<u8>> {
    if is_fnb58_variant {
        seq![command(0x81, 0x8E), command(0x82, 0x96), command(0x82, 0x96)]
    } else {
        seq![command(0x81, 0x8E), command(0x82, 0x96), command(0x83, 0x9E)]
    }
}

/// Build the initialization command sequence.
///
/// FNB58/FNB48S: `[AA81, AA82, AA82]`; FNB48/C1: `[AA81, AA82, AA83]`.
pub fn init_commands(is_fnb58_variant: bool) -> (r: Vec<[u8; 64]>)
    ensures
        r@.len() == 3,
        forall|i: int| 0 <= i < 3 ==> (#[trigger] r@[i])@ == init_sequence(is_fnb58_variant)[i],
{
    let mut r: Vec<[u8; 64]> = Vec::new();
    r.push(cmd_init_aa81());
    r.push(cmd_setup_aa82());
    if is_fnb58_variant {
        r.push(cmd_setup_aa82());
    } else {
        r.push(cmd_keepalive_aa83());
    }
    r
}

/// Milliseconds between keep-alives.
pub open spec fn keepalive_ms(is_fnb58_variant: bool) -> u64 {
    if is_fnb58_variant {
        1000
    } else {
        3
    }
}

/// Keep-alive interval, in milliseconds, for different device variants.
pub fn keepalive_interval(is_fnb58_variant: bool) -> (r: u64)
    ensures
        r == keepalive_ms(is_fnb58_variant),
{
    if is_fnb58_variant {
        1000
    } else {
        3
    }
}

/// One sample as the meter sends it, before it is scaled to volts, amps and
/// degrees.
#[derive(Debug, Clone, Copy, PartialEq, Eq, Structural)]
pub struct RawSample {
    /// Voltage in units of 10 uV.
    pub raw_voltage: u32,
    /// Current in units of 10 uA.
    pub raw_current: u32,
    /// D+ voltage in mV.
    pub dp_raw: u16,
    /// D- voltage in mV.
    pub dn_raw: u16,
    /// Temperature in tenths of a degree Celsius.
    pub temp_raw: u16,
}

/// Two bytes as a number, the least significant one first.
pub open spec fn le16(bytes: Seq<u8>, at: int) -> int {
    bytes[at] + bytes[at + 1] * 256
}

/// Four bytes as a number, the least significant one first.
pub open spec fn le32(bytes: Seq<u8>, at: int) -> int {
    le16(bytes, at) + le16(bytes, at + 2) * 0x1_0000
}

/// The number in two bytes of `data`, the least significant one first.
pub fn read_le16(data: &[u8], at: usize) -> (r: u16)
    requires
        at + 2 <= data.len(),
    ensures
        r == le16(data@, at as int),
{
    data[at] as u16 + data[at + 1] as u16 * 256
}

/// The number in four bytes of `data`, the least significant one first.
pub fn read_le32(data: &[u8], at: usize) -> (r: u32)
    requires
        at + 4 <= data.len(),
    ensures
        r == le32(data@, at as int),
{
    read_le16(data, at) as u32 + read_le16(data, at + 2) as u32 * 0x1_0000
}

/// The sample in the 15 bytes from `at` on. Byte 12 of them says nothing.
pub open spec fn sample_at(bytes: Seq<u8>, at: int) -> RawSample {
    RawSample {
        raw_voltage: le32(bytes, at) as u32,
        raw_current: le32(bytes, at + 4) as u32,
        dp_raw: le16(bytes, at + 8) as u16,
        dn_raw: le16(bytes, at + 10) as u16,
        temp_raw: le16(bytes, at + 13) as u16,
    }
}

/// Decode the single 15-byte sample that stands at `at` in a data packet.
pub fn decode_sample(data: &[u8], at: usize) -> (r: RawSample)
    requires
        at + 15 <= data.len(),
    ensures
        r == sample_at(data@, at as int),
{
    RawSample {
        raw_voltage: read_le32(data, at),
        raw_current: read_le32(data, at + 4),
        dp_raw: read_le16(data, at + 8),
        dn_raw: read_le16(data, at + 10),
        temp_raw: read_le16(data, at + 13),
    }
}

/// The four samples of a data packet.
pub open spec fn samples_of(packet: Seq<u8>) -> Seq<RawSample> {
    Seq::new(4, |i: int| sample_at(packet, 2 + i * 15))
}

/// Why a packet is refused, if it is: the header is looked at first, the type
/// next, and the CRC last, where it is asked for.
pub open spec fn refusal(packet: Seq<u8>, validate_crc: bool) -> Option<ProtocolError> {
    let actual = crc::crc8(crc::CRC8_POLY, crc::DATA_INIT, packet.subrange(1, 63));
    if packet[0] != HEADER {
        Some(ProtocolError::InvalidHeader(packet[0]))
    } else if packet[1] != PACKET_TYPE_DATA {
        Some(ProtocolError::NotDataPacket(packet[1]))
    } else if validate_crc && actual != packet[63] {
        Some(ProtocolError::CrcMismatch { expected: packet[63], actual })
    } else {
        None
    }
}

/// Decode a 64-byte data packet into 4 samples.
///
/// Validates the header, the packet type and, if asked to, the CRC.
pub fn decode_data_packet(packet: &[u8; 64], validate_crc: bool) -> (r: Result<
    [RawSample; 4],
    ProtocolError,
>)
    ensures
        match refusal(packet@, validate_crc) {
            Some(e) => r == Err::<[RawSample; 4], ProtocolError>(e),
            None => r is Ok && r->Ok_0@ == samples_of(packet@),
        },
{
    if packet[0] != HEADER {
        return Err(ProtocolError::InvalidHeader(packet[0]));
    }
    if packet[1] != PACKET_TYPE_DATA {
        return Err(ProtocolError::NotDataPacket(packet[1]));
    }
    if validate_crc {
        let expected: u8 = packet[63];
        let actual: u8 = crc::data_crc(&packet[1..63]);
        if actual != expected {
            return Err(ProtocolError::CrcMismatch { expected, actual });
        }
    }
    let bytes = packet.as_slice();
    let samples = [
        decode_sample(bytes, 2),
        decode_sample(bytes, 17),
        decode_sample(bytes, 32),
        decode_sample(bytes, 47),
    ];
    assert(samples@ =~= samples_of(packet@));
    Ok(samples)
}

/// Try to decode a raw 64-byte buffer that might or might not be a data packet.
///
/// Returns `None` for other packets (e.g. info responses) and for damaged ones
/// instead of an error.
pub fn try_decode_data_packet(packet: &[u8; 64], validate_crc: bool) -> (r: Option<[RawSample; 4]>)
    ensures
        match refusal(packet@, validate_crc) {
            Some(_) => r is None,
            None => r is Some && r->0@ == samples_of(packet@),
        },
{
    if packet[0] != HEADER || packet[1] != PACKET_TYPE_DATA {
        return None;
    }
    match decode_data_packet(packet, validate_crc) {
        Ok(samples) => Some(samples),
        Err(_) => None,
    }
}

/// The 15 bytes that carry one sample.
pub open spec fn encoded(sample: RawSample) -> Seq<u8> {
    seq![
        (sample.raw_voltage % 256) as u8,
        (sample.raw_voltage / 256 % 256) as u8,
        (sample.raw_voltage / 0x1_0000 % 256) as u8,
        (sample.raw_voltage / 0x100_0000) as u8,
        (sample.raw_current % 256) as u8,
        (sample.raw_current / 256 % 256) as u8,
        (sample.raw_current / 0x1_0000 % 256) as u8,
        (sample.raw_current / 0x100_0000) as u8,
        (sample.dp_raw % 256) as u8,
        (sample.dp_raw / 256) as u8,
        (sample.dn_raw % 256) as u8,
        (sample.dn_raw / 256) as u8,
        1,
        (sample.temp_raw % 256) as u8,
        (sample.temp_raw / 256) as u8,
    ]
}

/// Packet law: what stands in a packet in the meter's encoding is what decoding
/// gives back, for every sample.
pub proof fn decoding_inverts_encoding(packet: Seq<u8>, at: int, sample: RawSample)
    requires
        0 <= at,
        at + 15 <= packet.len(),
        packet.subrange(at, at + 15) == encoded(sample),
    ensures
        sample_at(packet, at) == sample,
{
    let part = packet.subrange(at, at + 15);
    assert forall|k: int| 0 <= k < 15 implies packet[at + k] == #[trigger] part[k] by {}
    assert(packet[at] == part[0]);
    assert(packet[at + 1] == part[1]);
    assert(packet[at + 2] == part[2]);
    assert(packet[at + 3] == part[3]);
    assert(packet[at + 4] == part[4]);
    assert(packet[at + 5] == part[5]);
    assert(packet[at + 6] == part[6]);
    assert(packet[at + 7] == part[7]);
    assert(packet[at + 8] == part[8]);
    assert(packet[at + 9] == part[9]);
    assert(packet[at + 10] == part[10]);
    assert(packet[at + 11] == part[11]);
    assert(packet[at + 13] == part[13]);
    assert(packet[at + 14] == part[14]);
}

/// Packet law: with the CRC asked for, a data packet that decodes stops
/// decoding when any one byte behind the header is changed.
pub proof fn damaged_packet_is_refused(packet: Seq<u8>, at: int, wrong: u8)
    requires
        packet.len() == 64,
        refusal(packet, true) is None,
        1 <= at < 64,
        wrong != packet[at],
    ensures
        refusal(packet.update(at, wrong), true) is Some,
{
    crc::damage_is_noticed(packet, at, wrong);
}

/// Packet law: a packet that carries four samples in the meter's encoding is
/// decoded to exactly these four, in order, unless it is refused.
pub proof fn packets_carry_four_samples(packet: Seq<u8>, samples: Seq<RawSample>)
    requires
        packet.len() == 64,
        samples.len() == 4,
        forall|i: int|
            0 <= i < 4 ==> packet.subrange(2 + 15 * i, 17 + 15 * i) == encoded(#[trigger] samples[i]),
    ensures
        samples_of(packet) == samples,
{
    assert forall|i: int| 0 <= i < 4 implies samples_of(packet)[i] == samples[i] by {
        decoding_inverts_encoding(packet, 2 + 15 * i, samples[i]);
    }
    assert(samples_of(packet) =~= samples);
}

/// Packet law: sample `i` is read from the 15 bytes that begin `15 * i` bytes
/// behind the type byte, with the least significant byte of each number first.
/// The thirteenth of them says nothing.
pub proof fn samples_stand_behind_one_another(packet: Seq<u8>, i: int)
    requires
        packet.len() == 64,
        0 <= i < 4,
    ensures
        samples_of(packet).len() == 4,
        ({
            let sample = samples_of(packet)[i];
            let at = 2 + 15 * i;
            &&& sample.raw_voltage == packet[at] + 0x100 * packet[at + 1] + 0x1_0000 * packet[at + 2]
                + 0x100_0000 * packet[at + 3]
            &&& sample.raw_current == packet[at + 4] + 0x100 * packet[at + 5] + 0x1_0000 * packet[at
                + 6] + 0x100_0000 * packet[at + 7]
            &&& sample.dp_raw == packet[at + 8] + 0x100 * packet[at + 9]
            &&& sample.dn_raw == packet[at + 10] + 0x100 * packet[at + 11]
            &&& sample.temp_raw == packet[at + 13] + 0x100 * packet[at + 14]
        }),
{
}

/// Packet law: a packet is decoded where it begins with the header and the data
/// type and, if that is asked for, ends with the CRC of the bytes between. One
/// that is not is refused for the first of these that does not hold, with the
/// byte that stands in its place.
pub proof fn packets_are_refused_for_a_reason(packet: Seq<u8>, validate_crc: bool)
    requires
        packet.len() == 64,
    ensures
        refusal(packet, validate_crc) is None <==> packet[0] == 0xAA && packet[1] == 0x04 && (
        validate_crc ==> crc::intact(packet)),
        packet[0] != 0xAA ==> refusal(packet, validate_crc) == Some(
            ProtocolError::InvalidHeader(packet[0]),
        ),
        packet[0] == 0xAA && packet[1] != 0x04 ==> refusal(packet, validate_crc) == Some(
            ProtocolError::NotDataPacket(packet[1]),
        ),
        packet[0] == 0xAA && packet[1] == 0x04 ==> match refusal(packet, validate_crc) {
            None => true,
            Some(ProtocolError::CrcMismatch { expected, actual }) => {
                &&& expected == packet[63]
                &&& actual != expected
                &&& crc::intact(packet.update(63, actual))
            },
            Some(_) => false,
        },
{
    let actual = crc::crc8(crc::CRC8_POLY, crc::DATA_INIT, packet.subrange(1, 63));
    assert(packet.update(63, actual).subrange(1, 63) =~= packet.subrange(1, 63));
}

/// Command law: a command is a report of 64 bytes, all of them zero but for the
/// header in front, its code and its CRC byte at the end.
pub proof fn commands_are_reports(code: u8, seal: u8)
    ensures
        command(code, seal).len() == 64,
        command(code, seal)[0] == 0xAA,
        command(code, seal)[1] == code,
        forall|i: int| 2 <= i < 63 ==> #[trigger] command(code, seal)[i] == 0,
        command(code, seal)[63] == seal,
{
}

/// Number law: two and four bytes are a number with the least significant byte
/// first.
pub proof fn numbers_have_the_low_byte_first(bytes: Seq<u8>, at: int)
    ensures
        le16(bytes, at) == bytes[at] + 0x100 * bytes[at + 1],
        le32(bytes, at) == bytes[at] + 0x100 * bytes[at + 1] + 0x1_0000 * bytes[at + 2]
            + 0x100_0000 * bytes[at + 3],
{
}

/// Stream law: both families begin with the identification and the request for
/// data. The FNB58 family is then asked for data again, once a second for a sign
/// of life; the others are sent a keep-alive, and another every 3 ms.
pub proof fn streams_start_in_three_steps(is_fnb58_variant: bool)
    ensures
        init_sequence(is_fnb58_variant).len() == 3,
        forall|i: int| 0 <= i < 3 ==> (#[trigger] init_sequence(is_fnb58_variant)[i]).len() == 64,
        init_sequence(is_fnb58_variant)[0][1] == 0x81,
        init_sequence(is_fnb58_variant)[1][1] == 0x82,
        init_sequence(is_fnb58_variant)[2][1] == if is_fnb58_variant {
            0x82
        } else {
            0x83u8
        },
        keepalive_ms(is_fnb58_variant) == if is_fnb58_variant {
            1000
        } else {
            3u64
        },
{
}

/// Message law: the message of a refusal tells the length, or the bytes, that it
/// is for.
pub proof fn refusals_tell_their_bytes(len: usize, byte: u8, other: u8)
    ensures
        ProtocolError::PacketTooShort(len).described()
            == "packet too short: expected 64 bytes, got "@ + text::decimal_text(len as nat),
        ProtocolError::InvalidHeader(byte).described()
            == "invalid header byte: expected 0xAA, got 0x"@ + text::hex2_text(byte),
        ProtocolError::NotDataPacket(byte).described() == "not a data packet: type 0x"@
            + text::hex2_text(byte),
        (ProtocolError::CrcMismatch { expected: byte, actual: other }).described()
            == "CRC mismatch: expected 0x"@ + text::hex2_text(byte) + ", got 0x"@
            + text::hex2_text(other),
{
}

} // verus!
