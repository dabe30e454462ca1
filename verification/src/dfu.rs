//! DFU (Device Firmware Update) protocol for FNIRSI devices.
//!
//! The firmware update sequence erases the flash, then writes it in chunks of
//! 58 bytes, each packet sealed with a CRC-8 and answered by the device.

use vstd::prelude::*;
use vstd::string::StringExecFns;

use crate::crc;
use crate::text;

verus! {

/// Maximum payload per DFU write packet: 64 bytes but for the endpoint byte,
/// four parameter bytes and the CRC byte.
pub const MAX_DFU_PAYLOAD: usize = 58;

/// Endpoint byte that starts an update.
pub const EP_START_UPDATE: u8 = 0x28;

/// Endpoint byte that writes a chunk.
pub const EP_WRITE_DATA: u8 = 0x2B;

/// Timeout in milliseconds for the erase operation (flash erase takes a while).
pub const ERASE_TIMEOUT_MS: u64 = 15000;

/// Timeout in milliseconds for individual write operations.
pub const WRITE_TIMEOUT_MS: u64 = 5000;

/// Errors from DFU operations.
#[derive(Debug, Clone, Copy, PartialEq, Eq, Structural)]
pub enum DfuError {
    NoResponse,
    EmptyFirmware,
    FirmwareTooLarge(usize),
}

impl DfuError {
    /// The message of the error.
    pub open spec fn described(self) -> Seq<char> {
        match self {
            DfuError::NoResponse => "no response from device"@,
            DfuError::EmptyFirmware => "firmware file is empty"@,
            DfuError::FirmwareTooLarge(size) => "firmware file too large: "@ + text::decimal_text(
                size as nat,
            ) + " bytes"@,
        }
    }

    /// The message of the error.
    pub fn describe(self) -> (r: String)
        ensures
            r@ == self.described(),
    {
        match self {
            DfuError::NoResponse => "no response from device".to_owned(),
            DfuError::EmptyFirmware => "firmware file is empty".to_owned(),
            DfuError::FirmwareTooLarge(size) => {
                let mut out = "firmware file too large: ".to_owned();
                text::push_decimal(&mut out, size as u64);
                out.append(" bytes");
                out
            },
        }
    }
}

/// Accept what a firmware file holds, unless it is empty.
pub fn accept_firmware(data: Vec<u8>) -> (r: Result<Vec<u8>, DfuError>)
    ensures
        data@.len() == 0 ==> r == Err::<Vec<u8>, DfuError>(DfuError::EmptyFirmware),
        data@.len() > 0 ==> r == Ok::<Vec<u8>, DfuError>(data),
{
    if data.len() == 0 {
        Err(DfuError::EmptyFirmware)
    } else {
        Ok(data)
    }
}

/// The part of a payload that fits in a packet.
pub open spec fn fitting(payload: Seq<u8>) -> Seq<u8> {
    if payload.len() > 58 {
        payload.subrange(0, 58)
    } else {
        payload
    }
}

/// A DFU packet without its CRC: endpoint, parameter (least significant byte
/// first), payload, zeros.
pub open spec fn dfu_body(ep: u8, param: u32, payload: Seq<u8>) -> Seq<u8> {
    let used = fitting(payload);
    seq![
        ep,
        (param % 256) as u8,
        (param / 0x100 % 256) as u8,
        (param / 0x1_0000 % 256) as u8,
        (param / 0x100_0000) as u8,
    ] + used + Seq::new((58 - used.len()) as nat, |i: int| 0u8)
}

/// A DFU packet.
pub open spec fn dfu_packet(ep: u8, param: u32, payload: Seq<u8>) -> Seq<u8> {
    let body = dfu_body(ep, param, payload);
    body.push(crc::crc8(crc::CRC8_POLY, crc::DFU_INIT, body))
}

/// Build a DFU packet.
///
/// Layout: endpoint, four parameter bytes, payload, zero padding, CRC. What
/// does not fit of the payload is left out.
pub fn make_dfu_packet(ep: u8, param: u32, payload: &[u8]) -> (r: [u8; 64])
    ensures
        r@ == dfu_packet(ep, param, payload@),
{
    let mut buf: [u8; 64] = [0u8; 64];
    buf[0] = ep;
    buf[1] = (param % 256) as u8;
    buf[2] = (param / 0x100 % 256) as u8;
    buf[3] = (param / 0x1_0000 % 256) as u8;
    buf[4] = (param / 0x100_0000) as u8;
    let len: usize = if payload.len() < MAX_DFU_PAYLOAD { payload.len() } else { MAX_DFU_PAYLOAD };
    let ghost head = buf@.subrange(0, 5);
    let mut i: usize = 0;
    while i < len
        invariant
            len <= payload@.len(),
            len <= 58,
            i <= len,
            buf@.subrange(0, 5) == head,
            forall|j: int| 0 <= j < i ==> buf@[5 + j] == payload@[j],
            forall|j: int| 5 + i <= j < 64 ==> buf@[j] == 0,
        decreases len - i,
    {
        buf[5 + i] = payload[i];
        assert(buf@.subrange(0, 5) =~= head);
        i = i + 1;
    }
    let ghost body = dfu_body(ep, param, payload@);
    proof {
        assert forall|j: int| 0 <= j < 5 implies buf@[j] == head[j] by {
            assert(buf@[j] == buf@.subrange(0, 5)[j]);
        }
        assert(buf@.subrange(0, 63) =~= body);
    }
    buf[63] = crc::dfu_crc(&buf[0..63]);
    assert(buf@ =~= dfu_packet(ep, param, payload@));
    buf
}

/// The number of chunks of a firmware of `len` bytes.
pub open spec fn chunk_count(len: int) -> int {
    (len + 57) / 58
}

/// Chunk `k` of a firmware.
pub open spec fn chunk(firmware: Seq<u8>, k: int) -> Seq<u8> {
    firmware.subrange(
        k * 58,
        if k * 58 + 58 < firmware.len() {
            k * 58 + 58
        } else {
            firmware.len() as int
        },
    )
}

/// The parameter of the packet that writes chunk `k`: a constant byte, the
/// chunk's number from 1 on modulo 50, and its two low bytes, high one first.
pub open spec fn chunk_address(k: int) -> u32 {
    let i = k + 1;
    (0x3A + i % 50 * 0x100 + i / 256 % 256 * 0x1_0000 + i % 256 * 0x100_0000) as u32
}

/// The payload of the packet that starts an update: version and size, least
/// significant bytes first; of the size, the four low bytes.
pub open spec fn start_payload(version: u16, size: int) -> Seq<u8> {
    seq![
        (version % 256) as u8,
        (version / 256) as u8,
        (size % 256) as u8,
        (size / 0x100 % 256) as u8,
        (size / 0x1_0000 % 256) as u8,
        (size / 0x100_0000 % 256) as u8,
    ]
}

/// Packet `n` of an update: the start, then one packet per chunk.
pub open spec fn session_packet(firmware: Seq<u8>, version: u16, n: int) -> Seq<u8> {
    if n == 0 {
        dfu_packet(EP_START_UPDATE, 6, start_payload(version, firmware.len() as int))
    } else {
        dfu_packet(EP_WRITE_DATA, chunk_address(n - 1), chunk(firmware, n - 1))
    }
}

/// Bytes of the firmware that are written once `answered` packets are answered.
pub open spec fn written(len: int, answered: int) -> int {
    if answered <= 1 {
        0
    } else if (answered - 1) * 58 < len {
        (answered - 1) * 58
    } else {
        len
    }
}

/// A firmware upload in progress.
///
/// The device is sent [`FlashSession::next_packet`], and its reply is handed
/// to [`FlashSession::reply`], until there is no next packet.
#[derive(Debug)]
pub struct FlashSession {
    pub firmware: Vec<u8>,
    pub version: u16,
    /// Packets that the device has answered.
    pub answered: usize,
    /// Bytes of the firmware that are written.
    pub offset: usize,
}

impl FlashSession {
    /// The progress is one that the sequence of packets passes through.
    pub open spec fn inv(&self) -> bool {
        &&& self.answered <= 1 + chunk_count(self.firmware@.len() as int)
        &&& self.offset == written(self.firmware@.len() as int, self.answered as int)
    }

    /// Whether every packet is answered.
    pub open spec fn complete(&self) -> bool {
        self.answered == 1 + chunk_count(self.firmware@.len() as int)
    }

    /// Begin an upload.
    pub fn new(firmware: Vec<u8>, version: u16) -> (r: FlashSession)
        ensures
            r.inv(),
            r.firmware == firmware,
            r.version == version,
            r.answered == 0,
    {
        FlashSession { firmware, version, answered: 0, offset: 0 }
    }

    /// The packet to send next with the timeout, in milliseconds, of its reply,
    /// or nothing once the upload is complete.
    pub fn next_packet(&self) -> (r: Option<([u8; 64], u64)>)
        requires
            self.inv(),
        ensures
            r is None <==> self.complete(),
            r matches Some(step) ==> step.0@ == session_packet(
                self.firmware@,
                self.version,
                self.answered as int,
            ) && step.1 == if self.answered == 0 {
                ERASE_TIMEOUT_MS
            } else {
                WRITE_TIMEOUT_MS
            },
            r matches Some(step) ==> step.1 == if self.answered == 0 {
                15000u64
            } else {
                5000u64
            },
    {
        let size: usize = self.firmware.len();
        if self.answered == 0 {
            let payload: [u8; 6] = [
                (self.version % 256) as u8,
                (self.version / 256) as u8,
                (size % 256) as u8,
                (size / 0x100 % 256) as u8,
                (size / 0x1_0000 % 256) as u8,
                (size / 0x100_0000 % 256) as u8,
            ];
            assert(payload@ =~= start_payload(self.version, size as int));
            return Some((make_dfu_packet(EP_START_UPDATE, 6, payload.as_slice()), ERASE_TIMEOUT_MS));
        }
        if self.offset >= size {
            return None;
        }
        let remaining: usize = size - self.offset;
        let len: usize = if remaining < MAX_DFU_PAYLOAD { remaining } else { MAX_DFU_PAYLOAD };
        let i: usize = self.answered;
        let addr: u32 = 0x3A + (i % 50) as u32 * 0x100 + (i / 256 % 256) as u32 * 0x1_0000 + (i
            % 256) as u32 * 0x100_0000;
        let part = &self.firmware.as_slice()[self.offset..self.offset + len];
        assert(part@ =~= chunk(self.firmware@, self.answered - 1));
        Some((make_dfu_packet(EP_WRITE_DATA, addr, part), WRITE_TIMEOUT_MS))
    }

    /// Take the device's reply to the packet, by its length. The answer, where
    /// a chunk was written, is the bytes written so far and in all.
    pub fn reply(&mut self, len: usize) -> (r: Result<Option<(usize, usize)>, DfuError>)
        requires
            old(self).inv(),
            !old(self).complete(),
        ensures
            final(self).inv(),
            final(self).firmware == old(self).firmware,
            final(self).version == old(self).version,
            len == 0 ==> r == Err::<Option<(usize, usize)>, DfuError>(DfuError::NoResponse)
                && final(self).answered == old(self).answered,
            len > 0 ==> final(self).answered == old(self).answered + 1 && r == Ok::<
                Option<(usize, usize)>,
                DfuError,
            >(
                if old(self).answered == 0 {
                    None
                } else {
                    Some((final(self).offset, final(self).firmware@.len() as usize))
                },
            ),
    {
        if len == 0 {
            return Err(DfuError::NoResponse);
        }
        let size: usize = self.firmware.len();
        if self.answered == 0 {
            self.answered = 1;
            return Ok(None);
        }
        let remaining: usize = size - self.offset;
        self.offset = self.offset + if remaining < MAX_DFU_PAYLOAD {
            remaining
        } else {
            MAX_DFU_PAYLOAD
        };
        self.answered = self.answered + 1;
        Ok(Some((self.offset, size)))
    }
}

/// The chunks of a firmware up to chunk `n`, one after another.
pub open spec fn chunks_joined(firmware: Seq<u8>, n: int) -> Seq<u8>
    decreases n,
{
    if n <= 0 {
        Seq::empty()
    } else {
        chunks_joined(firmware, n - 1) + chunk(firmware, n - 1)
    }
}

proof fn chunks_join_to_a_prefix(firmware: Seq<u8>, n: int)
    requires
        0 <= n <= chunk_count(firmware.len() as int),
    ensures
        chunks_joined(firmware, n) == firmware.subrange(0, written(firmware.len() as int, n + 1)),
    decreases n,
{
    if n > 0 {
        chunks_join_to_a_prefix(firmware, n - 1);
        assert(chunks_joined(firmware, n) =~= firmware.subrange(
            0,
            written(firmware.len() as int, n + 1),
        ));
    } else {
        assert(firmware.subrange(0, 0) =~= Seq::<u8>::empty());
    }
}

/// Upload law: the payloads of the write packets, one after another, are the
/// firmware, and none of them is empty or longer than a packet holds.
pub proof fn chunks_join_to_the_firmware(firmware: Seq<u8>)
    ensures
        chunks_joined(firmware, chunk_count(firmware.len() as int)) == firmware,
        forall|k: int|
            0 <= k < chunk_count(firmware.len() as int) ==> 0 < (#[trigger] chunk(
                firmware,
                k,
            )).len() <= 58,
{
    chunks_join_to_a_prefix(firmware, chunk_count(firmware.len() as int));
    assert(firmware.subrange(0, firmware.len() as int) =~= firmware);
}

/// Packet law: a DFU packet has 64 bytes, its payload can be read back from it,
/// and its last byte is the CRC of the others.
pub proof fn dfu_packet_layout(ep: u8, param: u32, payload: Seq<u8>)
    ensures
        ({
            let packet = dfu_packet(ep, param, payload);
            &&& packet.len() == 64
            &&& packet[0] == ep
            &&& payload.len() <= 58 ==> packet.subrange(5, 5 + payload.len() as int) == payload
            &&& packet[63] == crc::crc8(crc::CRC8_POLY, crc::DFU_INIT, packet.subrange(0, 63))
        }),
{
    let packet = dfu_packet(ep, param, payload);
    assert(packet.subrange(0, 63) =~= dfu_body(ep, param, payload));
    if payload.len() <= 58 {
        assert(packet.subrange(5, 5 + payload.len() as int) =~= payload);
    }
}

/// Packet law: the parameter of a DFU packet can be read back from the four
/// bytes behind the endpoint, the least significant one first; as much of the
/// payload follows as fits, and zeros up to the CRC.
pub proof fn dfu_packet_fields(ep: u8, param: u32, payload: Seq<u8>)
    ensures
        ({
            let packet = dfu_packet(ep, param, payload);
            &&& packet.len() == 64
            &&& packet[0] == ep
            &&& packet[1] + 0x100 * packet[2] + 0x1_0000 * packet[3] + 0x100_0000 * packet[4]
                == param
            &&& forall|j: int|
                0 <= j < 58 ==> #[trigger] packet[5 + j] == if j < payload.len() {
                    payload[j]
                } else {
                    0
                }
        }),
{
}

proof fn low_bytes_make_the_number(n: int)
    requires
        0 <= n,
    ensures
        n % 256 + 0x100 * (n / 0x100 % 256) + 0x1_0000 * (n / 0x1_0000 % 256) + 0x100_0000 * (n
            / 0x100_0000 % 256) == n % 0x1_0000_0000,
{
    let a = n / 0x100;
    let b = a / 0x100;
    let c = b / 0x100;
    assert(n / 0x1_0000 == b);
    assert(n / 0x100_0000 == c);
    assert(n == 0x100_0000 * c + 0x1_0000 * (b % 256) + 0x100 * (a % 256) + n % 256);
    assert(n == 0x1_0000_0000 * (c / 256) + 0x100_0000 * (c % 256) + 0x1_0000 * (b % 256) + 0x100
        * (a % 256) + n % 256);
}

/// Upload law: the first packet starts the update. It tells the version in the
/// first two bytes of its payload and the number of bytes of the firmware in the
/// next four, the least significant ones first: the number itself below 4 GiB,
/// its four low bytes from there on.
pub proof fn start_packet_tells_version_and_size(firmware: Seq<u8>, version: u16)
    ensures
        ({
            let packet = session_packet(firmware, version, 0);
            &&& packet.len() == 64
            &&& packet[0] == 0x28
            &&& packet[1] == 6 && packet[2] == 0 && packet[3] == 0 && packet[4] == 0
            &&& packet[5] + 0x100 * packet[6] == version
            &&& packet[7] + 0x100 * packet[8] + 0x1_0000 * packet[9] + 0x100_0000 * packet[10]
                == firmware.len() as int % 0x1_0000_0000
            &&& forall|j: int| 11 <= j < 63 ==> #[trigger] packet[j] == 0
        }),
{
    let size = firmware.len() as int;
    let payload = start_payload(version, size);
    let packet = session_packet(firmware, version, 0);
    dfu_packet_fields(EP_START_UPDATE, 6, payload);
    assert forall|j: int| 0 <= j < 6 implies #[trigger] packet[5 + j] == payload[j] by {}
    low_bytes_make_the_number(size);
    assert(packet[5 + 0int] == payload[0] && packet[5 + 1int] == payload[1]);
    assert(packet[5 + 2int] == payload[2] && packet[5 + 3int] == payload[3]);
    assert(packet[5 + 4int] == payload[4] && packet[5 + 5int] == payload[5]);
    assert forall|j: int| 11 <= j < 63 implies #[trigger] packet[j] == 0 by {
        assert(packet[5 + (j - 5)] == 0);
    }
}

/// Upload law: packet `n` behind the first carries the bytes of the firmware
/// from `58 * (n - 1)` on, as many as there are up to 58, and zeros behind them.
/// Its parameter tells `n`.
pub proof fn write_packets_carry_the_firmware(firmware: Seq<u8>, version: u16, n: int)
    requires
        n >= 1,
        58 * (n - 1) < firmware.len(),
    ensures
        ({
            let packet = session_packet(firmware, version, n);
            &&& packet.len() == 64
            &&& packet[0] == 0x2B
            &&& packet[1] == 0x3A
            &&& packet[2] == n % 50
            &&& packet[3] == n / 256 % 256
            &&& packet[4] == n % 256
            &&& forall|j: int|
                0 <= j < 58 ==> #[trigger] packet[5 + j] == if 58 * (n - 1) + j < firmware.len() {
                    firmware[58 * (n - 1) + j]
                } else {
                    0
                }
        }),
{
    dfu_packet_fields(EP_WRITE_DATA, chunk_address(n - 1), chunk(firmware, n - 1));
}

/// Upload law: there are as many write packets as hold the firmware, and the
/// bytes reported as written once packet `n` is answered are those that the
/// packets up to it carried.
pub proof fn progress_counts_the_written_bytes(firmware: Seq<u8>, n: int)
    requires
        0 <= n <= chunk_count(firmware.len() as int),
    ensures
        58 * chunk_count(firmware.len() as int) >= firmware.len(),
        firmware.len() > 0 ==> 58 * (chunk_count(firmware.len() as int) - 1) < firmware.len(),
        firmware.len() == 0 ==> chunk_count(firmware.len() as int) == 0,
        written(firmware.len() as int, 0) == 0,
        written(firmware.len() as int, n + 1) == if 58 * n < firmware.len() {
            58 * n
        } else {
            firmware.len() as int
        },
        chunks_joined(firmware, n) == firmware.subrange(0, written(firmware.len() as int, n + 1)),
{
    chunks_join_to_a_prefix(firmware, n);
}

/// Upload law: an upload is complete exactly when its start is answered and every
/// byte of the firmware is written; what is written is never more than that.
pub proof fn complete_uploads_are_written(session: FlashSession)
    requires
        session.inv(),
    ensures
        session.offset <= session.firmware@.len(),
        session.complete() <==> session.answered > 0 && session.offset
            == session.firmware@.len(),
        session.answered == 0 ==> session.offset == 0,
        !session.complete() && session.answered > 0 ==> session.offset == 58 * (session.answered
            - 1),
{
}

/// Message law: a firmware that is too large is refused with its size.
pub proof fn refusals_tell_the_size(size: usize)
    ensures
        DfuError::FirmwareTooLarge(size).described() == "firmware file too large: "@
            + text::decimal_text(size as nat) + " bytes"@,
{
}

} // verus!
