use drc::video::{dump_frame, dump_headers, nal_escape};

#[test]
fn headers_hold_the_gamepad_sps_and_pps() {
    let bytes = dump_headers();
    let mut expect = vec![0x00, 0x00, 0x00, 0x01];
    expect.extend_from_slice(&[0x67, 0x64, 0x00, 0x20, 0xAC, 0x2B, 0x40, 0x6C, 0x1E, 0xF3, 0x68]);
    expect.extend_from_slice(&[0x00, 0x00, 0x00, 0x01]);
    expect.extend_from_slice(&[0x68, 0xEE, 0x06, 0x0C, 0xE8]);
    assert_eq!(bytes, expect);
}

#[test]
fn escape_inserts_emulation_prevention_bytes() {
    // A byte of 3 or less after two zeros is escaped, but not within the
    // first two output bytes.
    let chunks = vec![vec![0x00, 0x00, 0x01]];
    assert_eq!(nal_escape(&chunks), vec![0x00, 0x00, 0x01]);
    let chunks = vec![vec![0x05, 0x00, 0x00, 0x02]];
    assert_eq!(nal_escape(&chunks), vec![0x05, 0x00, 0x00, 0x03, 0x02]);
    // The pair may straddle a chunk boundary.
    let chunks = vec![vec![0x09, 0x00], vec![0x00, 0x00]];
    assert_eq!(nal_escape(&chunks), vec![0x09, 0x00, 0x00, 0x03, 0x00]);
    // Bytes above 3 pass through.
    let chunks = vec![vec![0x08, 0x00, 0x00, 0x04]];
    assert_eq!(nal_escape(&chunks), vec![0x08, 0x00, 0x00, 0x04]);
}

#[test]
fn idr_frame_prefix() {
    let chunks = vec![vec![0xAA, 0xBB]];
    let bytes = dump_frame(&chunks, true, 0);
    assert_eq!(bytes, vec![0x00, 0x00, 0x00, 0x01, 0x25, 0xB8, 0x04, 0xFF, 0xAA, 0xBB]);
}

#[test]
fn p_frame_prefix_carries_the_frame_number() {
    let chunks = vec![vec![0xCC]];
    let bytes = dump_frame(&chunks, false, 11);
    // 11 = 0b1011: the top bit goes into byte 5, the low three bits
    // into the high bits of byte 6.
    assert_eq!(bytes, vec![0x00, 0x00, 0x00, 0x01, 0x21, 0xE1, 0x63, 0xFF, 0xCC]);
}
