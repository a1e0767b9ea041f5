//! Video side of the stack: the VSTRM wire format, chunk packetization,
//! encoder chunk bookkeeping, streamer pacing state, the audio packet
//! builder, and the TSF timestamp helpers.

pub mod audio;
pub mod data;
pub mod encoder;
pub mod packet;
pub mod streamer;
pub mod tsf;

use vstd::prelude::*;

verus! {

/// Which of the two UDP flows an error belongs to.
#[derive(Debug, Copy, Clone, PartialEq, Eq, Structural)]
pub enum ConnectionType {
    Video,
    Audio,
}

/// Errors of the video side.
#[derive(Debug, Copy, Clone, PartialEq, Eq, Structural)]
pub enum Error {
    /// A packet header could not be built.
    Data { source: data::Error },
    /// The encoder could not be built.
    EncoderCreate { source: encoder::Error },
    /// A frame failed to encode.
    Encoding { source: encoder::Error },
    /// A UDP socket could not be opened or connected.
    Connecting { ty: ConnectionType },
    /// A send failed or wrote short.
    Send { ty: ConnectionType },
    /// The frame mailbox is gone.
    Queue,
}

/// One byte of Annex B output: escaped when it is 3 or less and the
/// bytes written so far end in two zeros (and more than two bytes are
/// out), so that no chunk byte forges a start code.
pub open spec fn esc_step(out: Seq<u8>, b: u8) -> Seq<u8> {
    if b <= 3 && out.len() > 2 && out[out.len() - 2] == 0 && out[out.len() - 1] == 0 {
        out + seq![3u8, b]
    } else {
        out.push(b)
    }
}

/// Escaped output after the input bytes, appended to `out`.
pub open spec fn nal_escape_from(out: Seq<u8>, input: Seq<u8>) -> Seq<u8>
    decreases input.len(),
{
    if input.len() == 0 {
        out
    } else {
        nal_escape_from(esc_step(out, input[0]), input.skip(1))
    }
}

/// The Annex B escape of a byte stream.
pub open spec fn nal_escape_spec(input: Seq<u8>) -> Seq<u8> {
    nal_escape_from(Seq::empty(), input)
}

/// Escaping byte by byte from the end: one more input byte is one more
/// escape step on the output so far.
proof fn lemma_nal_escape_snoc(out: Seq<u8>, input: Seq<u8>, b: u8)
    ensures
        nal_escape_from(out, input.push(b)) == esc_step(nal_escape_from(out, input), b),
    decreases input.len(),
{
    if input.len() == 0 {
        assert(input.push(b)[0] == b);
        assert(input.push(b).skip(1) =~= Seq::<u8>::empty());
        assert(nal_escape_from(out, input.push(b)) == nal_escape_from(
            esc_step(out, b),
            input.push(b).skip(1),
        ));
        assert(nal_escape_from(esc_step(out, b), input.push(b).skip(1)) == esc_step(out, b));
    } else {
        assert(input.push(b)[0] == input[0]);
        assert(input.push(b).skip(1) =~= input.skip(1).push(b));
        lemma_nal_escape_snoc(esc_step(out, input[0]), input.skip(1), b);
        assert(nal_escape_from(out, input.push(b)) == nal_escape_from(
            esc_step(out, input[0]),
            input.skip(1).push(b),
        ));
        assert(nal_escape_from(out, input) == nal_escape_from(
            esc_step(out, input[0]),
            input.skip(1),
        ));
    }
}

/// Escape the concatenation of a frame's chunks so the stream holds no
/// forged start codes: a 0x03 is inserted after every `00 00` pair that
/// a byte of 3 or less would follow.
pub fn nal_escape(src: &Vec<Vec<u8>>) -> (r: Vec<u8>)
    ensures
        r@ == nal_escape_spec(src@.map_values(|c: Vec<u8>| c@).flatten()),
{
    let ghost cview = src@.map_values(|c: Vec<u8>| c@);
    let mut out: Vec<u8> = Vec::new();
    let mut i: usize = 0;
    let ghost mut consumed = Seq::<u8>::empty();
    proof {
        assert(cview.take(0) =~= Seq::<Seq<u8>>::empty());
        assert(cview.take(0).flatten() =~= Seq::<u8>::empty());
    }
    while i < src.len()
        invariant
            i <= src@.len(),
            cview == src@.map_values(|c: Vec<u8>| c@),
            consumed == cview.take(i as int).flatten(),
            out@ == nal_escape_from(Seq::empty(), consumed),
        decreases src@.len() - i,
    {
        let chunk = &src[i];
        let mut j: usize = 0;
        while j < chunk.len()
            invariant
                j <= chunk@.len(),
                i < src@.len(),
                cview == src@.map_values(|c: Vec<u8>| c@),
                chunk@ == cview[i as int],
                consumed == cview.take(i as int).flatten() + chunk@.take(j as int),
                out@ == nal_escape_from(Seq::empty(), consumed),
            decreases chunk@.len() - j,
        {
            let b = chunk[j];
            proof {
                lemma_nal_escape_snoc(Seq::empty(), consumed, b);
                assert(chunk@.take(j as int).push(b) =~= chunk@.take(j as int + 1));
                assert(consumed.push(b) =~= cview.take(i as int).flatten() + chunk@.take(
                    j as int + 1,
                ));
            }
            if b <= 0x03 && out.len() > 2 && out[out.len() - 2] == 0 && out[out.len() - 1] == 0 {
                out.push(0x03);
                out.push(b);
                proof {
                    assert(out@ =~= esc_step(nal_escape_from(Seq::empty(), consumed), b));
                }
            } else {
                out.push(b);
            }
            proof {
                consumed = consumed.push(b);
            }
            j = j + 1;
        }
        proof {
            assert(chunk@.take(chunk@.len() as int) =~= chunk@);
            assert(cview.take(i as int + 1) =~= cview.take(i as int).push(cview[i as int]));
            vstd::seq_lib::lemma_flatten_concat(cview.take(i as int), seq![cview[i as int]]);
            assert(cview.take(i as int).push(cview[i as int]) =~= cview.take(i as int) + seq![
                cview[i as int],
            ]);
            assert(seq![cview[i as int]].first() == cview[i as int]);
            assert(seq![cview[i as int]].drop_first() =~= Seq::<Seq<u8>>::empty());
            assert(seq![cview[i as int]].drop_first().flatten() == Seq::<
                Seq<u8>,
            >::empty().flatten());
            assert(Seq::<Seq<u8>>::empty().flatten() =~= Seq::<u8>::empty());
            assert(seq![cview[i as int]].flatten() =~= cview[i as int]);
            assert(consumed =~= cview.take(i as int + 1).flatten());
        }
        i = i + 1;
    }
    proof {
        assert(cview.take(cview.len() as int) =~= cview);
    }
    out
}

/// The out-of-band stream prologue: an Annex B start code before the
/// GamePad's fixed SPS, and another before its fixed PPS.
pub open spec fn stream_headers_spec() -> Seq<u8> {
    seq![
        0x00u8, 0x00u8, 0x00u8, 0x01u8, 0x67u8, 0x64u8, 0x00u8, 0x20u8, 0xacu8, 0x2bu8, 0x40u8,
        0x6cu8, 0x1eu8, 0xf3u8, 0x68u8, 0x00u8, 0x00u8, 0x00u8, 0x01u8, 0x68u8, 0xeeu8, 0x06u8,
        0x0cu8, 0xe8u8,
    ]
}

/// The bytes a debug dump starts with: start code, the GamePad's SPS,
/// start code, its PPS.
pub fn dump_headers() -> (r: Vec<u8>)
    ensures
        r@ == stream_headers_spec(),
{
    let mut out: Vec<u8> = Vec::new();
    out.push(0x00);
    out.push(0x00);
    out.push(0x00);
    out.push(0x01);
    out.push(0x67);
    out.push(0x64);
    out.push(0x00);
    out.push(0x20);
    out.push(0xac);
    out.push(0x2b);
    out.push(0x40);
    out.push(0x6c);
    out.push(0x1e);
    out.push(0xf3);
    out.push(0x68);
    out.push(0x00);
    out.push(0x00);
    out.push(0x00);
    out.push(0x01);
    out.push(0x68);
    out.push(0xee);
    out.push(0x06);
    out.push(0x0c);
    out.push(0xe8);
    proof {
        assert(out@ =~= stream_headers_spec());
    }
    out
}

/// The slice NAL header a dumped frame gets: a fixed IDR header, or a
/// P-frame header carrying the frame number split over two bytes.
pub open spec fn frame_prefix_spec(is_idr: bool, frame_number: u8) -> Seq<u8> {
    if is_idr {
        seq![0x00u8, 0x00u8, 0x00u8, 0x01u8, 0x25u8, 0xb8u8, 0x04u8, 0xffu8]
    } else {
        seq![
            0x00u8,
            0x00u8,
            0x00u8,
            0x01u8,
            0x21u8,
            (0xe0 + frame_number as int / 8) as u8,
            (0x03 + (frame_number as int % 8) * 32) as u8,
            0xffu8,
        ]
    }
}

/// One frame of a debug dump: the slice NAL header for this frame, then
/// the escaped chunk bytes. The caller counts frames since the last IDR
/// and hands the count in.
pub fn dump_frame(chunks: &Vec<Vec<u8>>, is_idr: bool, frame_number: u8) -> (r: Vec<u8>)
    ensures
        r@ == frame_prefix_spec(is_idr, frame_number) + nal_escape_spec(
            chunks@.map_values(|c: Vec<u8>| c@).flatten(),
        ),
{
    let mut out: Vec<u8> = Vec::new();
    out.push(0x00);
    out.push(0x00);
    out.push(0x00);
    out.push(0x01);
    if is_idr {
        out.push(0x25);
        out.push(0xb8);
        out.push(0x04);
        out.push(0xff);
    } else {
        out.push(0x21);
        out.push(0xe0 + frame_number / 8);
        out.push(0x03 + (frame_number % 8) * 32);
        out.push(0xff);
    }
    proof {
        assert(out@ =~= frame_prefix_spec(is_idr, frame_number));
    }
    let escaped = nal_escape(chunks);
    let mut j: usize = 0;
    while j < escaped.len()
        invariant
            j <= escaped@.len(),
            out@ == frame_prefix_spec(is_idr, frame_number) + escaped@.take(j as int),
        decreases escaped@.len() - j,
    {
        out.push(escaped[j]);
        proof {
            assert(out@ =~= frame_prefix_spec(is_idr, frame_number) + escaped@.take(j as int + 1));
        }
        j = j + 1;
    }
    proof {
        assert(escaped@.take(escaped@.len() as int) =~= escaped@);
    }
    out
}

} // verus!
