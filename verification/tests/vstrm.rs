use drc::video::data::{Error, ExtOption, FrameRate, VstrmHeader};

#[test]
fn ext_encode_default_set() {
    let opts = vec![
        ExtOption::ForceDecoding,
        ExtOption::NumMbRowsInChunk(6),
        ExtOption::FrameRate(FrameRate::TwentyFive),
    ];
    let encoded = ExtOption::encode(&opts).unwrap();
    assert_eq!(encoded, vec![0x83, 0x85, 0x06, 0x82, 0x03, 0x00, 0x00, 0x00]);
}

#[test]
fn ext_encode_with_idr() {
    let opts = vec![
        ExtOption::Idr,
        ExtOption::ForceDecoding,
        ExtOption::NumMbRowsInChunk(6),
        ExtOption::FrameRate(FrameRate::TwentyFive),
    ];
    let encoded = ExtOption::encode(&opts).unwrap();
    assert_eq!(encoded, vec![0x80, 0x83, 0x85, 0x06, 0x82, 0x03, 0x00, 0x00]);
}

#[test]
fn ext_round_trip() {
    let opts = vec![
        ExtOption::Idr,
        ExtOption::Unimplemented(0x7F),
        ExtOption::FrameRate(FrameRate::Sixty),
        ExtOption::UnsetForceFlag,
        ExtOption::NumMbRowsInChunk(0),
    ];
    let encoded = ExtOption::encode(&opts).unwrap();
    let decoded = ExtOption::decode(&encoded).unwrap();
    assert_eq!(decoded, opts);
}

#[test]
fn ext_round_trip_full_8_bytes() {
    let opts = vec![
        ExtOption::Unimplemented(0x00),
        ExtOption::FrameRate(FrameRate::Fifty),
        ExtOption::NumMbRowsInChunk(9),
        ExtOption::Idr,
        ExtOption::ForceDecoding,
    ];
    let encoded = ExtOption::encode(&opts).unwrap();
    assert_eq!(encoded.len(), 8);
    let decoded = ExtOption::decode(&encoded).unwrap();
    assert_eq!(decoded, opts);
}

#[test]
fn ext_encode_too_long() {
    let opts = vec![
        ExtOption::Unimplemented(1),
        ExtOption::Unimplemented(2),
        ExtOption::Unimplemented(3),
        ExtOption::Unimplemented(4),
        ExtOption::Idr,
    ];
    assert_eq!(ExtOption::encode(&opts), Err(Error::ExtHeaderTooLong { length: 9 }));
}

#[test]
fn ext_decode_wrong_length() {
    assert_eq!(
        ExtOption::decode(&[0x80, 0x00]),
        Err(Error::ExtHeaderLength { length: 2 })
    );
}

#[test]
fn ext_decode_unknown_tag() {
    assert_eq!(
        ExtOption::decode(&[0x99, 0, 0, 0, 0, 0, 0, 0]),
        Err(Error::ExtHeaderValue { value: 0x99 })
    );
}

#[test]
fn ext_decode_missing_param() {
    assert_eq!(
        ExtOption::decode(&[0x80, 0x80, 0x80, 0x80, 0x80, 0x80, 0x80, 0x85]),
        Err(Error::ExtHeaderParam { instr: 0x85 })
    );
}

#[test]
fn ext_decode_bad_framerate() {
    assert_eq!(
        ExtOption::decode(&[0x82, 0x07, 0, 0, 0, 0, 0, 0]),
        Err(Error::InvalidFramerate { value: 7 })
    );
}

#[test]
fn framerate_try_from() {
    assert_eq!(FrameRate::try_from(0), Ok(FrameRate::Sixty));
    assert_eq!(FrameRate::try_from(1), Ok(FrameRate::Fifty));
    assert_eq!(FrameRate::try_from(2), Ok(FrameRate::Thirty));
    assert_eq!(FrameRate::try_from(3), Ok(FrameRate::TwentyFive));
    assert_eq!(FrameRate::try_from(4), Err(Error::InvalidFramerate { value: 4 }));
}

#[test]
fn framerate_intervals() {
    assert_eq!(FrameRate::Sixty.interval_us(), 16683);
    assert_eq!(FrameRate::Fifty.interval_us(), 20000);
    assert_eq!(FrameRate::Thirty.interval_us(), 33366);
    assert_eq!(FrameRate::TwentyFive.interval_us(), 40000);
}

#[test]
fn header_into_bytes_first_packet() {
    let mut header = VstrmHeader::default();
    header.seq_id = 0;
    header.payload_size = 1400;
    header.timestamp = 0;
    header.init = true;
    header.frame_begin = true;
    header.ext_headers.push(ExtOption::FrameRate(FrameRate::TwentyFive));
    let bytes = header.into_bytes().unwrap();
    assert_eq!(bytes.len(), 16);
    assert_eq!(bytes[0], 0xF0);
    assert_eq!(bytes[1], 0x00);
    assert_eq!(bytes[2], 0xC8 | (1400u16 >> 8) as u8);
    assert_eq!(bytes[3], (1400 & 0xFF) as u8);
    assert_eq!(&bytes[4..8], &[0, 0, 0, 0]);
    assert_eq!(&bytes[8..], &[0x83, 0x85, 0x06, 0x82, 0x03, 0x00, 0x00, 0x00]);
}

#[test]
fn header_into_bytes_fields_packed() {
    let mut header = VstrmHeader::default();
    header.seq_id = 0x2A5;
    header.payload_size = 0x5C3;
    header.timestamp = 0xDEADBEEF;
    header.chunk_end = true;
    header.frame_end = true;
    let bytes = header.into_bytes().unwrap();
    assert_eq!(bytes[0], 0xF2);
    assert_eq!(bytes[1], 0xA5);
    assert_eq!(bytes[2], 0x20 | 0x10 | 0x08 | 0x05);
    assert_eq!(bytes[3], 0xC3);
    assert_eq!(&bytes[4..8], &[0xDE, 0xAD, 0xBE, 0xEF]);
}

#[test]
fn header_too_many_extensions() {
    let mut header = VstrmHeader::default();
    header.ext_headers.push(ExtOption::Unimplemented(1));
    header.ext_headers.push(ExtOption::Unimplemented(2));
    header.ext_headers.push(ExtOption::Unimplemented(3));
    assert_eq!(
        header.into_bytes(),
        Err(Error::ExtHeaderTooLong { length: 9 })
    );
}
