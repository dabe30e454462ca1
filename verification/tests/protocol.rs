use fnirsi::crc::data_crc;
use fnirsi::protocol::{
    decode_data_packet, decode_sample, init_commands, keepalive_interval, try_decode_data_packet,
    ProtocolError, RawSample, PACKET_TYPE_DATA, SAMPLE_SIZE,
};

/// Raw voltage/current LSB = 10 uV / 10 uA.
const VI_SCALE: f32 = 1.0 / 100_000.0;
/// Raw D+/D- LSB = 1 mV.
const DATA_LINE_SCALE: f32 = 1.0 / 1_000.0;
/// Raw temperature LSB = 0.1 degC.
const TEMP_SCALE: f32 = 1.0 / 10.0;

/// A sample scaled to volts, amps and degrees.
struct Scaled {
    voltage_v: f32,
    current_a: f32,
    power_w: f32,
    dp_v: f32,
    dn_v: f32,
    temp_c: f32,
}

fn scaled(s: &RawSample) -> Scaled {
    let voltage_v = s.raw_voltage as f32 * VI_SCALE;
    let current_a = s.raw_current as f32 * VI_SCALE;
    Scaled {
        voltage_v,
        current_a,
        power_w: voltage_v * current_a,
        dp_v: f32::from(s.dp_raw) * DATA_LINE_SCALE,
        dn_v: f32::from(s.dn_raw) * DATA_LINE_SCALE,
        temp_c: f32::from(s.temp_raw) * TEMP_SCALE,
    }
}

/// Build a synthetic data packet with known values for testing.
fn make_test_packet(voltage: u32, current: u32, dp: u16, dn: u16, temp: u16) -> [u8; 64] {
    let mut pkt = [0u8; 64];
    pkt[0] = 0xAA;
    pkt[1] = PACKET_TYPE_DATA;

    for i in 0..4 {
        let off = 2 + i * SAMPLE_SIZE;
        pkt[off..off + 4].copy_from_slice(&voltage.to_le_bytes());
        pkt[off + 4..off + 8].copy_from_slice(&current.to_le_bytes());
        pkt[off + 8..off + 10].copy_from_slice(&dp.to_le_bytes());
        pkt[off + 10..off + 12].copy_from_slice(&dn.to_le_bytes());
        pkt[off + 12] = 0x01;
        pkt[off + 13..off + 15].copy_from_slice(&temp.to_le_bytes());
    }

    // Set correct CRC
    pkt[63] = data_crc(&pkt[1..63]);
    pkt
}

#[test]
fn test_decode_5v_1a() {
    // 5.00000 V => 500000, 1.00000 A => 100000
    let pkt = make_test_packet(500_000, 100_000, 2900, 100, 250);
    let samples = decode_data_packet(&pkt, true).unwrap();

    let s = scaled(&samples[0]);
    assert!((s.voltage_v - 5.0).abs() < 1e-5);
    assert!((s.current_a - 1.0).abs() < 1e-5);
    assert!((s.power_w - 5.0).abs() < 1e-5);
    assert!((s.dp_v - 2.9).abs() < 1e-3);
    assert!((s.dn_v - 0.1).abs() < 1e-3);
    assert!((s.temp_c - 25.0).abs() < 1e-1);
}

#[test]
fn test_decode_all_four_samples() {
    let pkt = make_test_packet(900_000, 300_000, 0, 0, 300);
    let samples = decode_data_packet(&pkt, true).unwrap();
    assert_eq!(samples.len(), 4);
    for raw in &samples {
        let s = scaled(raw);
        assert!((s.voltage_v - 9.0).abs() < 1e-5);
        assert!((s.current_a - 3.0).abs() < 1e-5);
    }
}

#[test]
fn test_crc_validation_fails_on_corruption() {
    let mut pkt = make_test_packet(500_000, 100_000, 0, 0, 250);
    pkt[10] ^= 0xFF; // corrupt a byte
    let result = decode_data_packet(&pkt, true);
    assert!(result.is_err());
}

#[test]
fn test_crc_validation_skipped() {
    let mut pkt = make_test_packet(500_000, 100_000, 0, 0, 250);
    pkt[10] ^= 0xFF; // corrupt a byte
    // With CRC validation disabled, it should still decode (wrong values though)
    let result = decode_data_packet(&pkt, false);
    assert!(result.is_ok());
}

#[test]
fn test_wrong_header() {
    let mut pkt = [0u8; 64];
    pkt[0] = 0xBB; // wrong header
    let result = decode_data_packet(&pkt, false);
    assert!(matches!(result, Err(ProtocolError::InvalidHeader(0xBB))));
}

#[test]
fn test_non_data_packet() {
    let mut pkt = [0u8; 64];
    pkt[0] = 0xAA;
    pkt[1] = 0x03; // info packet, not data
    let result = decode_data_packet(&pkt, false);
    assert!(matches!(result, Err(ProtocolError::NotDataPacket(0x03))));
}

#[test]
fn test_try_decode_returns_none_for_non_data() {
    let mut pkt = [0u8; 64];
    pkt[0] = 0xAA;
    pkt[1] = 0x03;
    assert!(try_decode_data_packet(&pkt, false).is_none());
}

#[test]
fn test_init_commands_fnb58() {
    let cmds = init_commands(true);
    assert_eq!(cmds.len(), 3);
    assert_eq!(cmds[0][1], 0x81);
    assert_eq!(cmds[1][1], 0x82);
    assert_eq!(cmds[2][1], 0x82); // FNB58 sends AA82 twice
}

#[test]
fn test_init_commands_fnb48() {
    let cmds = init_commands(false);
    assert_eq!(cmds.len(), 3);
    assert_eq!(cmds[0][1], 0x81);
    assert_eq!(cmds[1][1], 0x82);
    assert_eq!(cmds[2][1], 0x83); // FNB48 sends AA83
}

#[test]
fn commands_are_zero_but_for_four_bytes() {
    let seals = [0x8Eu8, 0x96, 0x9E];
    for (i, cmd) in init_commands(false).iter().enumerate() {
        assert_eq!(cmd[0], 0xAA);
        assert_eq!(cmd[63], seals[i]);
        assert!(cmd[2..63].iter().all(|&b| b == 0));
    }
}

#[test]
fn keepalive_is_slower_for_the_fnb58_family() {
    assert_eq!(keepalive_interval(true), 1000);
    assert_eq!(keepalive_interval(false), 3);
}

#[test]
fn registers_are_read_low_byte_first() {
    let bytes: Vec<u8> = (1..=15).collect();
    assert_eq!(
        decode_sample(&bytes, 0),
        RawSample {
            raw_voltage: 0x0403_0201,
            raw_current: 0x0807_0605,
            dp_raw: 0x0A09,
            dn_raw: 0x0C0B,
            temp_raw: 0x0F0E,
        }
    );
}

#[test]
fn samples_of_a_packet_are_read_at_their_places() {
    let mut pkt = make_test_packet(0, 0, 0, 0, 0);
    for i in 0..4 {
        pkt[2 + i * SAMPLE_SIZE] = i as u8 + 1;
        pkt[2 + i * SAMPLE_SIZE + 14] = i as u8 + 1;
    }
    pkt[63] = data_crc(&pkt[1..63]);
    let samples = try_decode_data_packet(&pkt, true).unwrap();
    for (i, s) in samples.iter().enumerate() {
        assert_eq!(s.raw_voltage, i as u32 + 1);
        assert_eq!(s.temp_raw, (i as u16 + 1) * 256);
    }
}

#[test]
fn crc_mismatch_tells_both_values() {
    let mut pkt = make_test_packet(1, 2, 3, 4, 5);
    let good = pkt[63];
    pkt[63] = good ^ 0x10;
    assert_eq!(
        decode_data_packet(&pkt, true),
        Err(ProtocolError::CrcMismatch {
            expected: good ^ 0x10,
            actual: good
        })
    );
    assert!(try_decode_data_packet(&pkt, true).is_none());
    assert!(try_decode_data_packet(&pkt, false).is_some());
}

#[test]
fn messages_of_protocol_errors() {
    assert_eq!(
        ProtocolError::PacketTooShort(12).describe(),
        "packet too short: expected 64 bytes, got 12"
    );
    assert_eq!(
        ProtocolError::InvalidHeader(0x0B).describe(),
        "invalid header byte: expected 0xAA, got 0x0B"
    );
    assert_eq!(
        ProtocolError::CrcMismatch {
            expected: 0x00,
            actual: 0xFF
        }
        .describe(),
        "CRC mismatch: expected 0x00, got 0xFF"
    );
    assert_eq!(
        ProtocolError::NotDataPacket(3).describe(),
        "not a data packet: type 0x03"
    );
}
