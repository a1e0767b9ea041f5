use drc::video::audio::{audio_packet, next_seq_id, BYTES_PER_PACKET, SAMPLES_PER_PACKET};

#[test]
fn packet_constants() {
    assert_eq!(SAMPLES_PER_PACKET, 384);
    assert_eq!(BYTES_PER_PACKET, 1536);
}

#[test]
fn fifo_of_1000_bytes_pads_with_zeros() {
    // S4: a FIFO of 1000 bytes of 0xAA yields a 1544-byte packet whose
    // body starts with the 1000 bytes and ends in zeros, under header
    // bytes 20 00 06 00.
    let mut fifo = vec![0xAA; 1000];
    let packet = audio_packet(&mut fifo, 0, 0);
    assert_eq!(packet.len(), 1544);
    assert_eq!(&packet[0..4], &[0x20, 0x00, 0x06, 0x00]);
    assert!(packet[8..1008].iter().all(|&b| b == 0xAA));
    assert!(packet[1008..1544].iter().all(|&b| b == 0x00));
    assert!(fifo.is_empty());
}

#[test]
fn fifo_of_exactly_1536_drains_completely() {
    let mut fifo = vec![0x55; 1536];
    let packet = audio_packet(&mut fifo, 1, 0);
    assert_eq!(packet.len(), 1544);
    assert!(packet[8..].iter().all(|&b| b == 0x55));
    assert!(fifo.is_empty());
}

#[test]
fn longer_fifo_keeps_its_tail() {
    let mut fifo: Vec<u8> = (0..2000u32).map(|i| (i % 256) as u8).collect();
    let expect_rest: Vec<u8> = fifo[1536..].to_vec();
    let expect_body: Vec<u8> = fifo[..1536].to_vec();
    let packet = audio_packet(&mut fifo, 2, 0);
    assert_eq!(&packet[8..], expect_body.as_slice());
    assert_eq!(fifo, expect_rest);
}

#[test]
fn empty_fifo_sends_all_zeros() {
    let mut fifo: Vec<u8> = Vec::new();
    let packet = audio_packet(&mut fifo, 3, 0);
    assert_eq!(packet.len(), 1544);
    assert!(packet[8..].iter().all(|&b| b == 0x00));
    assert!(fifo.is_empty());
}

#[test]
fn header_carries_seq_and_timestamp() {
    let mut fifo: Vec<u8> = Vec::new();
    let packet = audio_packet(&mut fifo, 0x2A5, 0x01020304);
    // 1 << 5 marker plus the two high bits of the seq id; then its low
    // byte; payload length 1536 big-endian; timestamp little-endian.
    assert_eq!(packet[0], 0x20 | 0x02);
    assert_eq!(packet[1], 0xA5);
    assert_eq!(&packet[2..4], &[0x06, 0x00]);
    assert_eq!(&packet[4..8], &[0x04, 0x03, 0x02, 0x01]);
}

#[test]
fn audio_seq_wraps_at_1024() {
    assert_eq!(next_seq_id(0), 1);
    assert_eq!(next_seq_id(1022), 1023);
    assert_eq!(next_seq_id(1023), 0);
}
