//! The video streamer's decision state: the one-shot `init` flag, the
//! 10-bit packet counter shared by a whole stream, and the TSF-paced
//! frame schedule. The caller owns the sockets and the encoder; these
//! functions turn an encoded frame and a clock sample into the exact
//! bytes to send and the time to wait.

use crate::video::data::FrameRate;
use crate::video::packet::{packetize, packets_spec, valid_chunks};
use vstd::prelude::*;

verus! {

/// Low 32 bits of a value, least significant byte first.
pub open spec fn le32(x: u32) -> Seq<u8> {
    seq![
        (x as int % 0x100) as u8,
        ((x as int / 0x100) % 0x100) as u8,
        ((x as int / 0x10000) % 0x100) as u8,
        (x as int / 0x1000000) as u8,
    ]
}

/// The 32-byte video-format sidecar sent on the audio socket before each
/// frame: type byte 4, a big-endian length of 24, a little-endian marker
/// `0x00100000`, the frame's timestamp, two zero words, `16000` twice,
/// and a trailing format byte 1.
pub open spec fn video_format_bytes(timestamp: u32) -> Seq<u8> {
    seq![4u8, 0u8, 0u8, 24u8, 0u8, 0u8, 16u8, 0u8] + le32(timestamp) + seq![
        0u8,
        0u8,
        0u8,
        0u8,
        0u8,
        0u8,
        0u8,
        0u8,
    ] + le32(16000) + le32(16000) + seq![1u8, 0u8, 0u8, 0u8]
}

/// Build the video-format sidecar packet for one frame.
pub fn make_video_format(timestamp: u32) -> (r: Vec<u8>)
    ensures
        r@ == video_format_bytes(timestamp),
        r@.len() == 32,
{
    let mut packet: Vec<u8> = Vec::new();
    packet.push(4);
    packet.push(0);
    packet.push(0);
    packet.push(24);
    packet.push(0);
    packet.push(0);
    packet.push(16);
    packet.push(0);
    packet.push((timestamp % 0x100) as u8);
    packet.push(((timestamp / 0x100) % 0x100) as u8);
    packet.push(((timestamp / 0x10000) % 0x100) as u8);
    packet.push((timestamp / 0x1000000) as u8);
    let mut j: usize = 0;
    while j < 8
        invariant
            j <= 8,
            packet@.len() == 12 + j,
            packet@ == seq![4u8, 0u8, 0u8, 24u8, 0u8, 0u8, 16u8, 0u8] + le32(timestamp) + Seq::new(
                j as nat,
                |i: int| 0u8,
            ),
        decreases 8 - j,
    {
        packet.push(0);
        proof {
            assert(packet@ =~= seq![4u8, 0u8, 0u8, 24u8, 0u8, 0u8, 16u8, 0u8] + le32(timestamp)
                + Seq::new(j as nat + 1, |i: int| 0u8));
        }
        j = j + 1;
    }
    packet.push(0x80);
    packet.push(0x3e);
    packet.push(0);
    packet.push(0);
    packet.push(0x80);
    packet.push(0x3e);
    packet.push(0);
    packet.push(0);
    packet.push(1);
    packet.push(0);
    packet.push(0);
    packet.push(0);
    proof {
        assert(packet@ =~= video_format_bytes(timestamp));
    }
    packet
}

/// How long the streamer waits before sending a frame, and what its new
/// schedule is. The interval between frames is `1_000_000 / rate` in
/// microseconds.
pub struct StreamerState {
    /// True until the first frame of the connection has been prepared;
    /// its packets carry the `init` flag.
    pub initial: bool,
    /// Sequence id of the next video packet, below 1024.
    pub v_seq_id: u16,
    /// Target TSF time of the next frame, in microseconds.
    pub next_timestamp: u64,
}

impl StreamerState {
    /// A stream that starts now: the first frame is initial, sequence
    /// ids start at 0, and the first frame is due at once.
    pub fn new(now: u64) -> (r: Self)
        ensures
            r.initial,
            r.v_seq_id == 0,
            r.next_timestamp == now,
    {
        StreamerState { initial: true, v_seq_id: 0, next_timestamp: now }
    }

    /// The flag handed to the encoder for the coming frame: an IDR is
    /// demanded on a resync request and on the very first frame.
    pub fn encode_flag(&self, resync: bool) -> (r: bool)
        ensures
            r == (resync || self.initial),
    {
        resync || self.initial
    }

    /// Packetize one encoded frame: the packets take their sequence ids
    /// from the stream counter, which advances past them, and the
    /// one-shot `init` flag is consumed.
    pub fn prepare_frame(
        &mut self,
        chunks: &Vec<Vec<u8>>,
        idr: bool,
        timestamp: u32,
        framerate: FrameRate,
    ) -> (packets: Vec<Vec<u8>>)
        requires
            valid_chunks(chunks@.map_values(|c: Vec<u8>| c@)),
            old(self).v_seq_id < 1024,
        ensures
            ({
                let cview = chunks@.map_values(|c: Vec<u8>| c@);
                let ps = packets_spec(
                    cview,
                    old(self).v_seq_id,
                    timestamp,
                    old(self).initial,
                    idr,
                    framerate,
                );
                &&& packets@.map_values(|p: Vec<u8>| p@) == ps
                &&& final(self).v_seq_id == (old(self).v_seq_id + ps.len()) % 1024
                &&& final(self).v_seq_id < 1024
                &&& !final(self).initial
                &&& final(self).next_timestamp == old(self).next_timestamp
            }),
    {
        let (packets, next_seq) = packetize(
            chunks,
            self.v_seq_id,
            timestamp,
            self.initial,
            idr,
            framerate,
        );
        self.initial = false;
        self.v_seq_id = next_seq;
        packets
    }

    /// The pacing step before a frame is sent, from the current TSF
    /// sample `now`: if the frame is early, wait until its target time
    /// and schedule the next frame one interval later; if it is late by
    /// more than 50 ms, send at once and push the schedule 100 ms past
    /// `now`; otherwise send at once and advance the schedule by one
    /// interval.
    pub fn pace(&mut self, now: u64, framerate: FrameRate) -> (sleep_us: u64)
        requires
            old(self).next_timestamp <= u64::MAX - 40000,
            now <= u64::MAX - 100000,
        ensures
            final(self).initial == old(self).initial,
            final(self).v_seq_id == old(self).v_seq_id,
            old(self).next_timestamp > now ==> sleep_us == old(self).next_timestamp - now
                && final(self).next_timestamp == old(self).next_timestamp
                + framerate.spec_interval_us(),
            old(self).next_timestamp <= now && now > old(self).next_timestamp + 50000 ==> sleep_us
                == 0 && final(self).next_timestamp == now + 100000,
            old(self).next_timestamp <= now <= old(self).next_timestamp + 50000 ==> sleep_us == 0
                && final(self).next_timestamp == old(self).next_timestamp
                + framerate.spec_interval_us(),
    {
        let interval = framerate.interval_us();
        assert(interval <= 40000);
        if self.next_timestamp > now {
            let sleep_us = self.next_timestamp - now;
            self.next_timestamp = self.next_timestamp + interval;
            sleep_us
        } else if now - self.next_timestamp > 50000 {
            self.next_timestamp = now + 100000;
            0
        } else {
            self.next_timestamp = self.next_timestamp + interval;
            0
        }
    }
}

} // verus!
