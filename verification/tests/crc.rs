use fnirsi::crc::{data_crc, dfu_crc, validate_data_packet};
use fnirsi::protocol::{cmd_init_aa81, cmd_keepalive_aa83, cmd_setup_aa82};

/// CRC-8 bit by bit, most significant bit first.
fn bitwise(init: u8, data: &[u8]) -> u8 {
    let mut register = init;
    for &byte in data {
        register ^= byte;
        for _ in 0..8 {
            register = if register & 0x80 != 0 {
                (register << 1) ^ 0x39
            } else {
                register << 1
            };
        }
    }
    register
}

#[test]
fn test_data_crc_known_values() {
    let data = [0x04u8; 10];
    let crc = data_crc(&data);
    // Verify it's deterministic
    assert_eq!(crc, data_crc(&data));
}

#[test]
fn test_dfu_crc_zeros() {
    // With init=0x00 and all-zero input, CRC should be 0x00
    let data = [0u8; 63];
    assert_eq!(dfu_crc(&data), 0x00);
}

#[test]
fn test_validate_data_packet() {
    // Build a packet with correct CRC
    let mut packet = [0u8; 64];
    packet[0] = 0xAA;
    packet[1] = 0x04;
    // Fill some sample data
    for i in 2..62 {
        packet[i] = i as u8;
    }
    // Compute and set CRC
    packet[63] = data_crc(&packet[1..63]);
    assert!(validate_data_packet(&packet));

    // Corrupt one byte and verify it fails
    packet[10] ^= 0xFF;
    assert!(!validate_data_packet(&packet));
}

#[test]
fn check_string_has_the_known_crc() {
    assert_eq!(data_crc(b"123456789"), 0x4b);
    assert_eq!(dfu_crc(b"123456789"), 0x8f);
}

#[test]
fn crc_of_nothing_is_the_start_value() {
    assert_eq!(data_crc(&[]), 0x42);
    assert_eq!(dfu_crc(&[]), 0x00);
}

#[test]
fn crc_matches_a_bitwise_computation() {
    let mut data = Vec::new();
    let mut state = 1u32;
    for _ in 0..200 {
        state = state.wrapping_mul(1_664_525).wrapping_add(1_013_904_223);
        data.push((state >> 24) as u8);
        assert_eq!(data_crc(&data), bitwise(0x42, &data));
        assert_eq!(dfu_crc(&data), bitwise(0x00, &data));
    }
}

#[test]
fn every_single_byte_error_is_noticed() {
    let mut packet = cmd_setup_aa82();
    assert!(validate_data_packet(&packet));
    for at in 1..64 {
        for wrong in [0x01u8, 0x80, 0x39, 0xFF] {
            packet[at] ^= wrong;
            assert!(!validate_data_packet(&packet));
            packet[at] ^= wrong;
        }
    }
    // The header is not covered.
    packet[0] = 0;
    assert!(validate_data_packet(&packet));
}

#[test]
fn payload_with_its_crc_has_crc_zero() {
    let mut data = vec![1u8, 2, 3, 250, 99];
    data.push(dfu_crc(&data));
    assert_eq!(dfu_crc(&data), 0);
}

#[test]
fn command_packets_carry_a_valid_crc() {
    assert!(validate_data_packet(&cmd_init_aa81()));
    assert!(validate_data_packet(&cmd_setup_aa82()));
    assert!(validate_data_packet(&cmd_keepalive_aa83()));
}
