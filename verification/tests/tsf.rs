use drc::video::tsf::{timestamp, tsf_from_bytes};

#[test]
fn get_timestamp() {
    println!("{}", timestamp(0x1_0000_0042));
}

#[test]
fn tsf_get_timestamp() {
    println!("{}", timestamp(123_456_789));
}

#[test]
fn timestamp_truncates_to_low_32_bits() {
    assert_eq!(timestamp(0x1_0000_0042), 0x42);
    assert_eq!(timestamp(0xFFFF_FFFF), 0xFFFF_FFFF);
    assert_eq!(timestamp(0x1_0000_0000), 0);
    assert_eq!(timestamp(7), 7);
}

#[test]
fn tsf_from_little_endian_bytes() {
    let bytes = [0x42, 0x00, 0x00, 0x00, 0x01, 0x00, 0x00, 0x00];
    assert_eq!(tsf_from_bytes(&bytes), 0x1_0000_0042);
    let bytes = [0xFF; 8];
    assert_eq!(tsf_from_bytes(&bytes), u64::MAX);
    let bytes = [0x01, 0x02, 0x03, 0x04, 0x05, 0x06, 0x07, 0x08];
    assert_eq!(tsf_from_bytes(&bytes), 0x0807060504030201);
}
