//! The audio packet builder: every 8 ms the pacer drains up to 1536
//! bytes of PCM from the shared FIFO into one packet, zero-padding a
//! short read, under an 8-byte header with its own 10-bit sequence id.

use crate::video::streamer::le32;
use vstd::prelude::*;

verus! {

/// Stereo 16-bit samples per audio packet.
pub const SAMPLES_PER_PACKET: usize = 384;

/// PCM bytes per audio packet: 384 samples, 2 channels, 2 bytes each.
pub const BYTES_PER_PACKET: usize = 1536;

/// The 1544 wire bytes of one audio packet: marker bits `1 << 5` and the
/// two high bits of the sequence id, the low byte of the sequence id,
/// the payload length 1536 big-endian, the timestamp little-endian, then
/// the 1536 payload bytes.
pub open spec fn audio_packet_bytes(seq_id: u16, timestamp: u32, payload: Seq<u8>) -> Seq<u8> {
    seq![
        (32 + (seq_id as int / 256) % 4) as u8,
        (seq_id as int % 256) as u8,
        6u8,
        0u8,
    ] + le32(timestamp) + payload
}

/// The payload the FIFO yields: its first 1536 bytes, or all of it
/// padded with zeros to 1536.
pub open spec fn drained_payload(fifo: Seq<u8>) -> Seq<u8> {
    if fifo.len() >= 1536 {
        fifo.take(1536)
    } else {
        fifo + Seq::new((1536 - fifo.len()) as nat, |i: int| 0u8)
    }
}

/// Build one audio packet from the FIFO, which loses the bytes the
/// packet took: at most 1536, all of them when it holds fewer. A short
/// or empty FIFO still yields a full packet, zero-padded.
pub fn audio_packet(fifo: &mut Vec<u8>, seq_id: u16, timestamp: u32) -> (r: Vec<u8>)
    ensures
        r@ == audio_packet_bytes(seq_id, timestamp, drained_payload(old(fifo)@)),
        r@.len() == 1544,
        old(fifo)@.len() >= 1536 ==> final(fifo)@ == old(fifo)@.skip(1536),
        old(fifo)@.len() < 1536 ==> final(fifo)@ == Seq::<u8>::empty(),
{
    let flen = fifo.len();
    let take: usize = if flen >= BYTES_PER_PACKET {
        BYTES_PER_PACKET
    } else {
        flen
    };
    let mut packet: Vec<u8> = Vec::new();
    packet.push(32 + ((seq_id / 256) % 4) as u8);
    packet.push((seq_id % 256) as u8);
    packet.push(6);
    packet.push(0);
    packet.push((timestamp % 0x100) as u8);
    packet.push(((timestamp / 0x100) % 0x100) as u8);
    packet.push(((timestamp / 0x10000) % 0x100) as u8);
    packet.push((timestamp / 0x1000000) as u8);
    let ghost header = seq![
        (32 + (seq_id as int / 256) % 4) as u8,
        (seq_id as int % 256) as u8,
        6u8,
        0u8,
    ] + le32(timestamp);
    proof {
        assert(packet@ =~= header);
    }
    let mut j: usize = 0;
    while j < take
        invariant
            j <= take,
            take <= flen == fifo@.len(),
            take <= 1536,
            packet@ == header + fifo@.take(j as int),
        decreases take - j,
    {
        packet.push(fifo[j]);
        proof {
            assert(packet@ =~= header + fifo@.take(j as int + 1));
        }
        j = j + 1;
    }
    while j < BYTES_PER_PACKET
        invariant
            take <= j <= 1536,
            take <= flen == fifo@.len(),
            packet@ == header + fifo@.take(take as int) + Seq::new(
                (j - take) as nat,
                |i: int| 0u8,
            ),
        decreases BYTES_PER_PACKET - j,
    {
        packet.push(0);
        proof {
            assert(packet@ =~= header + fifo@.take(take as int) + Seq::new(
                (j + 1 - take) as nat,
                |i: int| 0u8,
            ));
        }
        j = j + 1;
    }
    let mut rest: Vec<u8> = Vec::new();
    let mut k: usize = take;
    while k < flen
        invariant
            take <= k <= flen == fifo@.len(),
            rest@ == fifo@.subrange(take as int, k as int),
        decreases flen - k,
    {
        rest.push(fifo[k]);
        proof {
            assert(fifo@.subrange(take as int, k as int).push(fifo@[k as int]) =~= fifo@.subrange(
                take as int,
                k as int + 1,
            ));
        }
        k = k + 1;
    }
    proof {
        if flen >= 1536 {
            assert(rest@ =~= fifo@.skip(1536));
            assert(packet@ =~= audio_packet_bytes(seq_id, timestamp, drained_payload(fifo@)));
        } else {
            assert(rest@ =~= Seq::<u8>::empty());
            assert(fifo@.take(take as int) =~= fifo@);
            assert(packet@ =~= audio_packet_bytes(seq_id, timestamp, drained_payload(fifo@)));
        }
    }
    *fifo = rest;
    packet
}

/// The sequence id that follows `seq_id` on a 10-bit counter.
pub fn next_seq_id(seq_id: u16) -> (r: u16)
    requires
        seq_id < 1024,
    ensures
        r == (seq_id + 1) % 1024,
        r < 1024,
{
    proof {
        if seq_id == 1023 {
            vstd::arithmetic::div_mod::lemma_mod_self_0(1024);
        } else {
            vstd::arithmetic::div_mod::lemma_small_mod((seq_id + 1) as nat, 1024);
        }
    }
    if seq_id == 1023 {
        0
    } else {
        seq_id + 1
    }
}

} // verus!
