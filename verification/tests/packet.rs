use drc::video::data::FrameRate;
use drc::video::packet::packetize;

fn seq_of(packet: &[u8]) -> u16 {
    ((packet[0] & 0b11) as u16) << 8 | packet[1] as u16
}

fn payload_size_of(packet: &[u8]) -> u16 {
    ((packet[2] & 0b111) as u16) << 8 | packet[3] as u16
}

fn frame_begin_of(packet: &[u8]) -> bool {
    packet[2] & 0x40 != 0
}

fn chunk_end_of(packet: &[u8]) -> bool {
    packet[2] & 0x20 != 0
}

fn frame_end_of(packet: &[u8]) -> bool {
    packet[2] & 0x10 != 0
}

#[test]
fn five_small_chunks_one_packet_each() {
    let chunks: Vec<Vec<u8>> = vec![
        vec![1; 10],
        vec![2; 20],
        vec![3; 30],
        vec![4; 40],
        vec![5; 50],
    ];
    let (packets, next_seq) = packetize(&chunks, 0, 0, true, true, FrameRate::TwentyFive);
    assert_eq!(packets.len(), 5);
    assert_eq!(next_seq, 5);
    for (k, p) in packets.iter().enumerate() {
        assert_eq!(seq_of(p), k as u16);
        assert_eq!(payload_size_of(p) as usize, p.len() - 16);
        assert_eq!(frame_begin_of(p), k == 0);
        assert_eq!(frame_end_of(p), k == 4);
        assert!(chunk_end_of(p));
        // Every packet carries Idr first, then the default extension set.
        assert_eq!(&p[8..16], &[0x80, 0x83, 0x85, 0x06, 0x82, 0x03, 0x00, 0x00]);
    }
}

#[test]
fn first_frame_of_an_idr_stream() {
    // S1 shape: an encoded frame of five chunks, resync so the frame is
    // an IDR, sequence ids from 0, the first chunk longer than one
    // fragment. Packet count is the sum of ceil(len / 1400), and the
    // first header opens with F0 00 C8: magic F, packet type 0, seq 0,
    // init + frame_begin + has_timestamp, payload high bits zero.
    let lens: [usize; 5] = [2000, 1400, 900, 3000, 10];
    let chunks: Vec<Vec<u8>> = lens.iter().map(|&n| vec![0u8; n]).collect();
    let expect: usize = lens.iter().map(|&n| n.div_ceil(1400)).sum();
    let (packets, _) = packetize(&chunks, 0, 0, true, true, FrameRate::TwentyFive);
    assert_eq!(packets.len(), expect);
    assert_eq!(packets[0][0], 0xF0);
    assert_eq!(packets[0][1], 0x00);
    // The flag bits of byte 2 are C8: init, frame_begin and
    // has_timestamp set, chunk_end and frame_end clear. The low bits
    // carry the high bits of the 1400-byte payload size.
    assert_eq!(packets[0][2] & 0xF8, 0xC8);
    assert_eq!(payload_size_of(&packets[0]), 1400);
}

#[test]
fn chunk_of_exactly_1400_bytes_is_one_fragment() {
    let chunks: Vec<Vec<u8>> = vec![vec![7; 1400]];
    let (packets, next_seq) = packetize(&chunks, 0, 0, false, false, FrameRate::Fifty);
    assert_eq!(packets.len(), 1);
    assert_eq!(next_seq, 1);
    assert_eq!(packets[0].len(), 16 + 1400);
    assert!(chunk_end_of(&packets[0]));
    assert!(frame_end_of(&packets[0]));
}

#[test]
fn chunk_of_1401_bytes_is_two_fragments() {
    let chunks: Vec<Vec<u8>> = vec![vec![7; 1401]];
    let (packets, _) = packetize(&chunks, 0, 0, false, false, FrameRate::Fifty);
    assert_eq!(packets.len(), 2);
    assert_eq!(packets[0].len(), 16 + 1400);
    assert_eq!(packets[1].len(), 16 + 1);
    assert!(!chunk_end_of(&packets[0]));
    assert!(chunk_end_of(&packets[1]));
    assert!(!frame_end_of(&packets[0]));
    assert!(frame_end_of(&packets[1]));
    assert!(frame_begin_of(&packets[0]));
    assert!(!frame_begin_of(&packets[1]));
}

#[test]
fn seq_id_wraps_after_1024_packets() {
    // One chunk of 1024 full fragments.
    let chunks: Vec<Vec<u8>> = vec![vec![9; 1400 * 1024]];
    let (packets, next_seq) = packetize(&chunks, 0, 0, false, false, FrameRate::Fifty);
    assert_eq!(packets.len(), 1024);
    assert_eq!(seq_of(&packets[1023]), 1023);
    assert_eq!(next_seq, 0);
    // The packet after the 1024th takes seq_id 0 again.
    let more: Vec<Vec<u8>> = vec![vec![1; 5]];
    let (packets2, _) = packetize(&more, next_seq, 0, false, false, FrameRate::Fifty);
    assert_eq!(seq_of(&packets2[0]), 0);
}

#[test]
fn seq_id_continues_across_chunks_mod_1024() {
    let chunks: Vec<Vec<u8>> = vec![vec![1; 2900], vec![2; 7]];
    let (packets, next_seq) = packetize(&chunks, 1022, 5, false, false, FrameRate::Sixty);
    assert_eq!(packets.len(), 4);
    assert_eq!(seq_of(&packets[0]), 1022);
    assert_eq!(seq_of(&packets[1]), 1023);
    assert_eq!(seq_of(&packets[2]), 0);
    assert_eq!(seq_of(&packets[3]), 1);
    assert_eq!(next_seq, 2);
}

#[test]
fn bodies_concatenate_to_chunks() {
    let mut chunk0: Vec<u8> = Vec::new();
    for i in 0..3000u32 {
        chunk0.push((i % 251) as u8);
    }
    let chunks: Vec<Vec<u8>> = vec![chunk0.clone(), vec![0xAB; 1400], vec![0xCD; 3]];
    let (packets, _) = packetize(&chunks, 17, 42, false, false, FrameRate::Thirty);
    let mut bodies: Vec<u8> = Vec::new();
    for p in &packets {
        bodies.extend_from_slice(&p[16..]);
    }
    let mut joined: Vec<u8> = Vec::new();
    for c in &chunks {
        joined.extend_from_slice(c);
    }
    assert_eq!(bodies, joined);
    // Exactly one frame_begin, on the first; one frame_end, on the last.
    for (k, p) in packets.iter().enumerate() {
        assert_eq!(frame_begin_of(p), k == 0);
        assert_eq!(frame_end_of(p), k == packets.len() - 1);
    }
    // One chunk_end per chunk: chunk 0 has 3 fragments, the others 1.
    let ends: Vec<usize> = packets
        .iter()
        .enumerate()
        .filter(|(_, p)| chunk_end_of(p))
        .map(|(k, _)| k)
        .collect();
    assert_eq!(ends, vec![2, 3, 4]);
}

#[test]
fn timestamp_and_init_in_every_header() {
    let chunks: Vec<Vec<u8>> = vec![vec![1; 1500], vec![2; 2]];
    let (packets, _) = packetize(&chunks, 3, 0x01020304, true, false, FrameRate::TwentyFive);
    for p in &packets {
        assert_eq!(&p[4..8], &[0x01, 0x02, 0x03, 0x04]);
        assert!(p[2] & 0x80 != 0);
        assert!(p[2] & 0x08 != 0);
        assert_eq!(&p[8..16], &[0x83, 0x85, 0x06, 0x82, 0x03, 0x00, 0x00, 0x00]);
    }
}
