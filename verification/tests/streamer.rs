use drc::video::data::FrameRate;
use drc::video::streamer::{make_video_format, StreamerState};

#[test]
fn video_format_layout() {
    let packet = make_video_format(0x0A0B0C0D);
    assert_eq!(packet.len(), 32);
    assert_eq!(packet[0], 0x04);
    assert_eq!(&packet[2..4], &[0x00, 24]);
    assert_eq!(&packet[4..8], &[0x00, 0x00, 0x10, 0x00]);
    assert_eq!(&packet[8..12], &[0x0D, 0x0C, 0x0B, 0x0A]);
    assert_eq!(&packet[12..20], &[0; 8]);
    assert_eq!(&packet[20..24], &[0x80, 0x3E, 0x00, 0x00]);
    assert_eq!(&packet[24..28], &[0x80, 0x3E, 0x00, 0x00]);
    assert_eq!(&packet[28..32], &[0x01, 0x00, 0x00, 0x00]);
}

#[test]
fn pacing_behind_by_more_than_50ms() {
    // S5: next_timestamp = T, the TSF reads T + 60_000 on entry: the
    // "behind by more than 50 ms" branch resets the schedule.
    let t: u64 = 5_000_000;
    let mut state = StreamerState::new(t);
    let sleep = state.pace(t + 60_000, FrameRate::Fifty);
    assert_eq!(sleep, 0);
    assert_eq!(state.next_timestamp, t + 60_000 + 100_000);
}

#[test]
fn pacing_early_frame_sleeps_the_difference() {
    let t: u64 = 5_000_000;
    let mut state = StreamerState::new(t);
    let sleep = state.pace(t - 7_000, FrameRate::Fifty);
    assert_eq!(sleep, 7_000);
    assert_eq!(state.next_timestamp, t + 20_000);
}

#[test]
fn pacing_on_time_advances_one_interval() {
    let t: u64 = 5_000_000;
    let mut state = StreamerState::new(t);
    let sleep = state.pace(t + 50_000, FrameRate::TwentyFive);
    assert_eq!(sleep, 0);
    assert_eq!(state.next_timestamp, t + 40_000);
}

#[test]
fn encode_flag_demands_idr_on_resync_and_first_frame() {
    let state = StreamerState::new(0);
    assert!(state.initial);
    assert!(state.encode_flag(false));
    assert!(state.encode_flag(true));
}

#[test]
fn prepare_frame_threads_seq_and_consumes_init() {
    let mut state = StreamerState::new(1000);
    let chunks: Vec<Vec<u8>> = vec![vec![1; 10], vec![2; 1401]];
    let packets = state.prepare_frame(&chunks, false, 77, FrameRate::Fifty);
    assert_eq!(packets.len(), 3);
    assert_eq!(state.v_seq_id, 3);
    assert!(!state.initial);
    // The first frame carried init; the second must not.
    assert!(packets[0][2] & 0x80 != 0);
    let packets2 = state.prepare_frame(&chunks, false, 78, FrameRate::Fifty);
    assert!(packets2[0][2] & 0x80 == 0);
    assert_eq!(state.v_seq_id, 6);
    // Its seq ids continue where the first frame stopped.
    assert_eq!(packets2[0][1], 3);
}
