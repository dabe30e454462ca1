//! CRC-8 computation for the FNIRSI device protocol.
//!
//! The protocol uses CRC-8 with polynomial 0x39, in two configurations: data
//! packets start from 0x42, DFU packets from 0x00.

use ::crc::{Algorithm, Crc};
use vstd::prelude::*;

verus! {

/// The generator polynomial, its highest term left out.
pub const CRC8_POLY: u8 = 0x39;

/// The register's start value for data packets.
pub const DATA_INIT: u8 = 0x42;

/// The register's start value for DFU packets.
pub const DFU_INIT: u8 = 0x00;

/// The register after one bit is shifted out at the top.
pub open spec fn shifted(poly: u8, register: u8) -> u8 {
    if register & 0x80 == 0x80 {
        (register << 1) ^ poly
    } else {
        register << 1
    }
}

/// The register after the eight bits of one byte.
pub open spec fn stepped(poly: u8, register: u8) -> u8 {
    shifted(poly, shifted(poly, shifted(poly, shifted(poly, shifted(poly, shifted(poly, shifted(
        poly,
        shifted(poly, register),
    )))))))
}

/// The CRC-8 of `data`, most significant bit first.
pub open spec fn crc8(poly: u8, init: u8, data: Seq<u8>) -> u8
    decreases data.len(),
{
    if data.len() == 0 {
        init
    } else {
        stepped(poly, crc8(poly, init, data.drop_last()) ^ data.last())
    }
}

/// `Crc::<u8>::new` and `Crc::checksum` of the `crc` crate, for a register of
/// eight bits that is not reflected and gets no final exclusive-or.
///
/// The checksum feeds the bytes through the register one by one.
#[verifier::external_body]
fn checksum<const POLY: u8, const INIT: u8>(data: &[u8]) -> (r: u8)
    ensures
        r == crc8(POLY, INIT, data@),
{
    Crc::<u8>::new(&Algorithm {
        width: 8,
        poly: POLY,
        init: INIT,
        refin: false,
        refout: false,
        xorout: 0,
        check: 0,
        residue: 0,
    }).checksum(data)
}

/// Compute the CRC-8 of a data packet payload.
///
/// In a 64-byte packet it covers bytes 1 to 62: neither the header nor the
/// CRC byte itself.
pub fn data_crc(data: &[u8]) -> (r: u8)
    ensures
        r == crc8(CRC8_POLY, DATA_INIT, data@),
{
    checksum::<CRC8_POLY, DATA_INIT>(data)
}

/// Compute the CRC-8 of a DFU packet payload.
///
/// In a 64-byte packet it covers every byte but the last.
pub fn dfu_crc(data: &[u8]) -> (r: u8)
    ensures
        r == crc8(CRC8_POLY, DFU_INIT, data@),
{
    checksum::<CRC8_POLY, DFU_INIT>(data)
}

/// Whether the last byte of a data packet is the CRC of those behind the header.
pub open spec fn intact(packet: Seq<u8>) -> bool {
    packet[63] == crc8(CRC8_POLY, DATA_INIT, packet.subrange(1, 63))
}

/// Validate a 64-byte data packet's CRC.
pub fn validate_data_packet(packet: &[u8; 64]) -> (r: bool)
    ensures
        r == intact(packet@),
{
    data_crc(&packet[1..63]) == packet[63]
}

proof fn stepping_is_injective(a: u8, b: u8)
    ensures
        stepped(CRC8_POLY, a) == stepped(CRC8_POLY, b) ==> a == b,
{
    assert(stepped(0x39, a) == stepped(0x39, b) ==> a == b) by (bit_vector);
}

proof fn xor_is_injective(a: u8, b: u8, c: u8)
    ensures
        a ^ c == b ^ c ==> a == b,
        c ^ a == c ^ b ==> a == b,
{
    assert(a ^ c == b ^ c ==> a == b) by (bit_vector);
    assert(c ^ a == c ^ b ==> a == b) by (bit_vector);
}

proof fn crc_keeps_registers_apart(a: u8, b: u8, data: Seq<u8>)
    requires
        a != b,
    ensures
        crc8(CRC8_POLY, a, data) != crc8(CRC8_POLY, b, data),
    decreases data.len(),
{
    if data.len() > 0 {
        let init = data.drop_last();
        crc_keeps_registers_apart(a, b, init);
        let x = crc8(CRC8_POLY, a, init);
        let y = crc8(CRC8_POLY, b, init);
        xor_is_injective(x, y, data.last());
        stepping_is_injective(x ^ data.last(), y ^ data.last());
    }
}

/// CRC law: two payloads of one length that differ in exactly one byte have
/// different CRCs, whatever the start value.
pub proof fn crc_detects_one_wrong_byte(init: u8, data: Seq<u8>, at: int, wrong: u8)
    requires
        0 <= at < data.len(),
        wrong != data[at],
    ensures
        crc8(CRC8_POLY, init, data.update(at, wrong)) != crc8(CRC8_POLY, init, data),
    decreases data.len(),
{
    let damaged = data.update(at, wrong);
    let before = data.drop_last();
    let x = crc8(CRC8_POLY, init, before);
    if at == data.len() - 1 {
        assert(damaged.drop_last() =~= before);
        xor_is_injective(wrong, data[at], x);
        stepping_is_injective(x ^ wrong, x ^ data[at]);
    } else {
        assert(damaged.drop_last() =~= before.update(at, wrong));
        crc_detects_one_wrong_byte(init, before, at, wrong);
        let y = crc8(CRC8_POLY, init, before.update(at, wrong));
        xor_is_injective(y, x, data.last());
        stepping_is_injective(y ^ data.last(), x ^ data.last());
    }
}

/// CRC law: a valid data packet stops being valid when any one byte behind the
/// header is changed, the CRC byte included.
pub proof fn damage_is_noticed(packet: Seq<u8>, at: int, wrong: u8)
    requires
        packet.len() == 64,
        intact(packet),
        1 <= at < 64,
        wrong != packet[at],
    ensures
        !intact(packet.update(at, wrong)),
{
    let damaged = packet.update(at, wrong);
    if at < 63 {
        assert(damaged.subrange(1, 63) =~= packet.subrange(1, 63).update(at - 1, wrong));
        crc_detects_one_wrong_byte(DATA_INIT, packet.subrange(1, 63), at - 1, wrong);
    } else {
        assert(damaged.subrange(1, 63) =~= packet.subrange(1, 63));
    }
}

/// CRC law: a payload followed by its own CRC has CRC zero.
pub proof fn crc_of_sealed_payload_is_zero(init: u8, data: Seq<u8>)
    ensures
        crc8(CRC8_POLY, init, data.push(crc8(CRC8_POLY, init, data))) == 0,
{
    let crc = crc8(CRC8_POLY, init, data);
    assert(data.push(crc).drop_last() =~= data);
    assert(crc ^ crc == 0) by (bit_vector);
    assert(stepped(0x39, 0) == 0) by (bit_vector);
}

/// CRC law: with start value zero, zeros have CRC zero.
pub proof fn dfu_crc_of_zeros_is_zero(data: Seq<u8>)
    requires
        forall|i: int| 0 <= i < data.len() ==> data[i] == 0,
    ensures
        crc8(CRC8_POLY, DFU_INIT, data) == 0,
    decreases data.len(),
{
    if data.len() > 0 {
        dfu_crc_of_zeros_is_zero(data.drop_last());
        assert(0u8 ^ 0u8 == 0) by (bit_vector);
        assert(stepped(0x39, 0) == 0) by (bit_vector);
    }
}

/// CRC law: a data packet is valid exactly if its last byte is the CRC of the
/// bytes behind the header, so that one byte out of 256 makes it so.
pub proof fn one_seal_is_valid(packet: Seq<u8>, seal: u8)
    requires
        packet.len() == 64,
    ensures
        intact(packet.update(63, seal)) <==> seal == crc8(0x39, 0x42, packet.subrange(1, 63)),
{
    assert(packet.update(63, seal).subrange(1, 63) =~= packet.subrange(1, 63));
}

/// CRC law: the CRC of a payload is reached byte by byte, from the start value
/// on.
pub proof fn crc_goes_byte_by_byte(poly: u8, init: u8, a: Seq<u8>, b: Seq<u8>)
    ensures
        crc8(poly, init, a + b) == crc8(poly, crc8(poly, init, a), b),
        crc8(poly, init, Seq::<u8>::empty()) == init,
    decreases b.len(),
{
    if b.len() == 0 {
        assert(a + b =~= a);
    } else {
        crc_goes_byte_by_byte(poly, init, a, b.drop_last());
        assert((a + b).drop_last() =~= a + b.drop_last());
        assert((a + b).last() == b.last());
    }
}

} // verus!
