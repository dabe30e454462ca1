use fnirsi::crc::dfu_crc;
use fnirsi::dfu::{accept_firmware, make_dfu_packet, DfuError, FlashSession, MAX_DFU_PAYLOAD};

#[test]
fn test_make_dfu_packet_structure() {
    let payload = [0x42u8; 6];
    let pkt = make_dfu_packet(0x28, 0x00000006, &payload);

    assert_eq!(pkt[0], 0x28); // endpoint
    assert_eq!(pkt[1], 0x06); // param low byte
    assert_eq!(pkt[5..11], payload); // payload

    // CRC is the last byte, computed from bytes 0..63
    let expected_crc = dfu_crc(&pkt[..63]);
    assert_eq!(pkt[63], expected_crc);
}

#[test]
fn test_make_dfu_packet_zeros() {
    let pkt = make_dfu_packet(0x00, 0, &[]);
    // All zeros except CRC
    for i in 0..63 {
        assert_eq!(pkt[i], 0);
    }
}

#[test]
fn test_max_payload_size() {
    // Payload larger than MAX_DFU_PAYLOAD should be truncated
    let payload = [0xAA; 100];
    let pkt = make_dfu_packet(0x2B, 0, &payload);
    // Verify it doesn't overflow: packet should be exactly 64 bytes
    assert_eq!(pkt.len(), 64);
    // The first MAX_DFU_PAYLOAD bytes of the payload area should be 0xAA
    for i in 5..5 + MAX_DFU_PAYLOAD {
        assert_eq!(pkt[i], 0xAA);
    }
}

#[test]
fn parameter_stands_low_byte_first() {
    let pkt = make_dfu_packet(0x2B, 0x0403_0201, &[9]);
    assert_eq!(pkt[..7], [0x2B, 1, 2, 3, 4, 9, 0]);
}

#[test]
fn empty_firmware_is_refused() {
    assert_eq!(accept_firmware(vec![]), Err(DfuError::EmptyFirmware));
    assert_eq!(accept_firmware(vec![7]), Ok(vec![7]));
}

#[test]
fn messages_of_dfu_errors() {
    assert_eq!(DfuError::NoResponse.describe(), "no response from device");
    assert_eq!(DfuError::EmptyFirmware.describe(), "firmware file is empty");
    assert_eq!(
        DfuError::FirmwareTooLarge(70_000).describe(),
        "firmware file too large: 70000 bytes"
    );
}

#[test]
fn upload_sends_the_start_and_every_chunk() {
    let firmware: Vec<u8> = (0..150u32).map(|i| (i * 7) as u8).collect();
    let mut session = FlashSession::new(firmware.clone(), 0x0170);
    let mut sent = Vec::new();
    let mut progress = Vec::new();
    while let Some((packet, timeout)) = session.next_packet() {
        sent.push((packet, timeout));
        if let Some(step) = session.reply(64).unwrap() {
            progress.push(step);
        }
    }
    assert_eq!(sent.len(), 4);

    // Start: version 0x0170 and size 150, low bytes first, and the long timeout.
    assert_eq!(
        sent[0].0[..11],
        [0x28, 6, 0, 0, 0, 0x70, 0x01, 150, 0, 0, 0]
    );
    assert_eq!(sent[0].1, 15_000);

    // Chunks: constant byte, number modulo 50, high byte, low byte.
    let mut written = Vec::new();
    for (k, (packet, timeout)) in sent[1..].iter().enumerate() {
        let i = k as u8 + 1;
        assert_eq!(packet[..5], [0x2B, 0x3A, i, 0, i]);
        assert_eq!(*timeout, 5_000);
        assert_eq!(packet[63], dfu_crc(&packet[..63]));
        let len = (150 - k * 58).min(58);
        written.extend_from_slice(&packet[5..5 + len]);
    }
    assert_eq!(written, firmware);
    assert_eq!(progress, vec![(58, 150), (116, 150), (150, 150)]);
    assert!(session.next_packet().is_none());
}

#[test]
fn chunk_numbers_wrap_in_the_address() {
    let mut session = FlashSession::new(vec![0u8; 58 * 600], 1);
    for _ in 0..300 {
        session.next_packet().unwrap();
        session.reply(1).unwrap();
    }
    // 300 packets are answered: the start and 299 chunks, so chunk 300 is next.
    let (packet, _) = session.next_packet().unwrap();
    assert_eq!(packet[..5], [0x2B, 0x3A, 0, 1, 44]);
}

#[test]
fn no_reply_ends_the_upload_where_it_is() {
    let mut session = FlashSession::new(vec![1u8; 100], 1);
    assert_eq!(session.reply(0), Err(DfuError::NoResponse));
    assert_eq!(session.answered, 0);
    assert_eq!(session.reply(64), Ok(None));
    assert_eq!(session.reply(0), Err(DfuError::NoResponse));
    assert_eq!((session.answered, session.offset), (1, 0));
    assert_eq!(session.reply(64), Ok(Some((58, 100))));
}

#[test]
fn upload_of_nothing_is_the_start_alone() {
    let mut session = FlashSession::new(vec![], 3);
    assert!(session.next_packet().is_some());
    assert_eq!(session.reply(8), Ok(None));
    assert!(session.next_packet().is_none());
}
