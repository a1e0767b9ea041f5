use drc::cmd::data::{CommandHeader, UvcUacPayload, UvcUacResponse};
use drc::cmd::generic::{GenericCommandHeader, GetUicFirmware};
use drc::cmd::{next_command_seq, CmdPhase, CmdSession, CmdStatus, Error};

fn datagram(packet_type: u16, query_type: u16, seq_id: u16, payload: &[u8]) -> Vec<u8> {
    let header = CommandHeader {
        packet_type,
        query_type,
        payload_size: payload.len() as u16,
        seq_id,
    };
    let mut d = header.to_bytes();
    d.extend_from_slice(payload);
    d
}

#[test]
fn uic_firmware_round_trip() {
    // S6: the request datagram is a command header (packet type 0,
    // query type 0, size 12, seq 0) around the 12-byte generic header.
    let cmd = GetUicFirmware;
    let request = cmd.request_bytes(0);
    assert_eq!(
        request,
        vec![
            0x00, 0x00, 0x00, 0x00, 0x0C, 0x00, 0x00, 0x00, // command header
            0x7E, 0x01, 0x00, 0x08, 0x00, 0x40, 0x05, 0x06, 0x00, 0x00, 0x00, 0x00,
        ]
    );

    let mut session = CmdSession::new(0, 0);
    // The ACK: 8 bytes, packet type 1, seq 0.
    let ack = datagram(1, 0, 0, &[]);
    assert_eq!(session.on_datagram(&ack), Ok(CmdStatus::Waiting));
    assert_eq!(session.phase, CmdPhase::AwaitResponse);

    // The response: packet type 2, seq 0, generic header + 772-byte blob.
    let mut resp_payload = GenericCommandHeader {
        magic: 0x7E,
        version: 0x01,
        id: [0, 8, 0],
        flags: 0x40,
        service_id: 0x05,
        method_id: 0x06,
        error_code: 0,
        payload_size: 772,
    }
    .to_bytes();
    resp_payload.extend_from_slice(&[0x5A; 772]);
    let response = datagram(2, 0, 0, &resp_payload);
    match session.on_datagram(&response) {
        Ok(CmdStatus::Responded(payload)) => {
            let blob = cmd.parse_response(&payload).unwrap();
            assert_eq!(blob, vec![0x5A; 772]);
        }
        other => panic!("expected a response, got {:?}", other),
    }
    assert_eq!(session.phase, CmdPhase::Done);

    // The final ACK: 8 bytes, packet type 3, seq 0, query type 0.
    assert_eq!(
        session.ack_bytes(),
        vec![0x03, 0x00, 0x00, 0x00, 0x00, 0x00, 0x00, 0x00]
    );
}

#[test]
fn other_seq_ids_are_ignored() {
    let mut session = CmdSession::new(7, 1);
    // Replies for other sequence ids, of any shape, leave the session
    // waiting.
    let stray_ack = datagram(1, 1, 8, &[]);
    let stray_resp = datagram(2, 1, 6, &[1, 2, 3]);
    assert_eq!(session.on_datagram(&stray_ack), Ok(CmdStatus::Waiting));
    assert_eq!(session.on_datagram(&stray_resp), Ok(CmdStatus::Waiting));
    assert_eq!(session.phase, CmdPhase::AwaitAck);
    // Then the dialog proceeds in order: ACK with seq 7, response with
    // seq 7.
    assert_eq!(session.on_datagram(&datagram(1, 1, 7, &[])), Ok(CmdStatus::Waiting));
    assert_eq!(session.phase, CmdPhase::AwaitResponse);
    assert_eq!(session.on_datagram(&datagram(2, 1, 8, &[9])), Ok(CmdStatus::Waiting));
    let done = session.on_datagram(&datagram(2, 1, 7, &[9, 8]));
    assert_eq!(done, Ok(CmdStatus::Responded(vec![9, 8])));
    assert_eq!(session.phase, CmdPhase::Done);
}

#[test]
fn ack_expected_error() {
    let mut session = CmdSession::new(0, 0);
    let response_first = datagram(2, 0, 0, &[1]);
    assert_eq!(session.on_datagram(&response_first), Err(Error::AckExpected));
    assert_eq!(session.phase, CmdPhase::Failed);
}

#[test]
fn ack_with_payload_is_a_length_error() {
    let mut session = CmdSession::new(0, 0);
    let fat_ack = datagram(1, 0, 0, &[0xFF]);
    assert_eq!(session.on_datagram(&fat_ack), Err(Error::PayloadLength));
}

#[test]
fn payload_size_field_must_match() {
    let mut session = CmdSession::new(0, 0);
    let mut bad = datagram(1, 0, 0, &[]);
    bad[4] = 5;
    assert_eq!(session.on_datagram(&bad), Err(Error::PayloadLength));
}

#[test]
fn response_expected_error() {
    let mut session = CmdSession::new(0, 0);
    assert_eq!(session.on_datagram(&datagram(1, 0, 0, &[])), Ok(CmdStatus::Waiting));
    let second_ack = datagram(1, 0, 0, &[]);
    assert_eq!(session.on_datagram(&second_ack), Err(Error::ResponseExpected));
}

#[test]
fn short_datagram_is_incomplete() {
    let mut session = CmdSession::new(0, 0);
    assert_eq!(session.on_datagram(&vec![1, 2, 3]), Err(Error::Incomplete));
}

#[test]
fn ten_timeout_windows_fail() {
    let mut session = CmdSession::new(0, 0);
    for _ in 0..9 {
        assert_eq!(session.on_timeout(), Ok(()));
    }
    assert_eq!(session.on_timeout(), Err(Error::Timeout));
    assert_eq!(session.phase, CmdPhase::Failed);
}

#[test]
fn datagrams_reset_the_timeout_count() {
    let mut session = CmdSession::new(3, 0);
    for _ in 0..9 {
        assert_eq!(session.on_timeout(), Ok(()));
    }
    // A stray datagram arrives before the tenth window.
    assert_eq!(session.on_datagram(&datagram(1, 0, 99, &[])), Ok(CmdStatus::Waiting));
    assert_eq!(session.retries, 0);
    assert_eq!(session.on_timeout(), Ok(()));
}

#[test]
fn command_seq_ids_wrap_naturally() {
    assert_eq!(next_command_seq(0), 1);
    assert_eq!(next_command_seq(0xFFFE), 0xFFFF);
    assert_eq!(next_command_seq(0xFFFF), 0);
}

#[test]
fn command_header_round_trip() {
    let header = CommandHeader { packet_type: 2, query_type: 1, payload_size: 772, seq_id: 0x1234 };
    let bytes = header.to_bytes();
    assert_eq!(bytes, vec![0x02, 0x00, 0x01, 0x00, 0x04, 0x03, 0x34, 0x12]);
    assert_eq!(CommandHeader::parse(&bytes), Some(header));
    assert_eq!(CommandHeader::parse(&bytes[..7]), None);
}

#[test]
fn uvc_uac_payload_bytes() {
    let state = UvcUacPayload::default();
    let bytes = state.to_bytes();
    assert_eq!(bytes.len(), 48);
    // Everything zero but the microphone frequency, 16000 big-endian at
    // offset 12.
    for (i, b) in bytes.iter().enumerate() {
        match i {
            12 => assert_eq!(*b, 0x3E),
            13 => assert_eq!(*b, 0x80),
            _ => assert_eq!(*b, 0x00),
        }
    }
    let mut set = UvcUacPayload::default();
    set.mic_volume = -2;
    set.cam_expo_absolute = 0x01020304;
    let bytes = set.to_bytes();
    assert_eq!(&bytes[6..8], &[0xFF, 0xFE]);
    assert_eq!(&bytes[18..22], &[0x01, 0x02, 0x03, 0x04]);
}

#[test]
fn uvc_uac_response_parse_and_apply() {
    let mut raw = vec![0u8; 16];
    raw[0] = 0x10; // mic_volume = 0x0010 little-endian
    raw[1] = 0x00;
    raw[2] = 0xFF; // mic_jack_volume = -1
    raw[3] = 0xFF;
    raw[12] = 1; // mic_enabled
    raw[13] = 50; // cam_power_freq
    raw[14] = 1; // cam_auto_expo
    let resp = UvcUacResponse::parse(&raw).unwrap();
    assert_eq!(resp.mic_volume, 16);
    assert_eq!(resp.mic_jack_volume, -1);
    assert_eq!(resp.mic_enabled, 1);
    let mut state = UvcUacPayload::default();
    state.apply_response(&resp);
    assert_eq!(state.mic_volume, 16);
    assert_eq!(state.mic_jack_volume, -1);
    assert_eq!(state.mic_enable, 1);
    assert_eq!(state.cam_power_freq, 50);
    assert_eq!(state.cam_auto_expo, 1);
    assert_eq!(state.mic_freq, 16000);
    assert_eq!(UvcUacResponse::parse(&raw[..15]), None);
}
