//! Fragmentation of a frame's chunks into VSTRM packets: each chunk is cut
//! into payloads of at most 1400 bytes, and every payload gets a 16-byte
//! header carrying the running 10-bit sequence id, the frame flags and the
//! stream's extension options.

use crate::video::data::{
    data_header_bytes, ext_bytes, ext_padded, hdr_chunk_end, hdr_ext, hdr_frame_begin,
    hdr_frame_end, hdr_has_timestamp, hdr_init, hdr_magic, hdr_packet_type, hdr_payload_size,
    hdr_seq_id, hdr_timestamp, ExtOption, FrameRate,
};
use vstd::prelude::*;
use vstd::seq_lib::lemma_flatten_concat;

verus! {

/// Largest VSTRM packet body; a wire constant, not a negotiation.
pub const MAX_PAYLOAD_SIZE: usize = 1400;

/// One fragment of a frame before its header is attached: the body bytes
/// and the three per-packet flags that depend on its position.
pub struct FragInfo {
    pub payload: Seq<u8>,
    pub frame_begin: bool,
    pub chunk_end: bool,
    pub frame_end: bool,
}

/// Fragments of one chunk, cut at 1400 bytes. `first_chunk` marks the
/// frame's first chunk (its first fragment opens the frame), `last_chunk`
/// the frame's last (its last fragment closes the frame); the last
/// fragment of every chunk carries `chunk_end`.
pub open spec fn chunk_frags(chunk: Seq<u8>, first_chunk: bool, last_chunk: bool) -> Seq<FragInfo>
    decreases chunk.len(),
{
    if chunk.len() == 0 {
        Seq::empty()
    } else if chunk.len() <= 1400 {
        seq![
            FragInfo {
                payload: chunk,
                frame_begin: first_chunk,
                chunk_end: true,
                frame_end: last_chunk,
            },
        ]
    } else {
        seq![
            FragInfo {
                payload: chunk.take(1400),
                frame_begin: first_chunk,
                chunk_end: false,
                frame_end: false,
            },
        ] + chunk_frags(chunk.skip(1400), false, last_chunk)
    }
}

/// Fragments of the chunks from index `i` on.
pub open spec fn frags_from(chunks: Seq<Seq<u8>>, i: nat) -> Seq<FragInfo>
    decreases chunks.len() - i,
{
    if i >= chunks.len() {
        Seq::empty()
    } else {
        chunk_frags(chunks[i as int], i == 0, i + 1 == chunks.len()) + frags_from(chunks, i + 1)
    }
}

/// All fragments of a frame, in chunk order then fragment order.
pub open spec fn frame_frags(chunks: Seq<Seq<u8>>) -> Seq<FragInfo> {
    frags_from(chunks, 0)
}

/// Chunks handed to the packetizer: at least one, none empty.
pub open spec fn valid_chunks(chunks: Seq<Seq<u8>>) -> bool {
    &&& chunks.len() >= 1
    &&& forall|i: int| 0 <= i < chunks.len() ==> (#[trigger] chunks[i]).len() >= 1
}

/// Extension options every stream packet carries: the default set, the
/// configured frame rate, and `Idr` first when the frame is an IDR.
pub open spec fn stream_exts(idr: bool, framerate: FrameRate) -> Seq<ExtOption> {
    if idr {
        seq![
            ExtOption::Idr,
            ExtOption::ForceDecoding,
            ExtOption::NumMbRowsInChunk(6),
            ExtOption::FrameRate(framerate),
        ]
    } else {
        seq![
            ExtOption::ForceDecoding,
            ExtOption::NumMbRowsInChunk(6),
            ExtOption::FrameRate(framerate),
        ]
    }
}

/// The stream's extension options encode to 6 bytes with `Idr`, 5 without.
pub proof fn lemma_stream_exts_len(idr: bool, framerate: FrameRate)
    ensures
        ext_bytes(stream_exts(idr, framerate)).len() == if idr {
            6int
        } else {
            5int
        },
{
    let tail2 = seq![ExtOption::NumMbRowsInChunk(6), ExtOption::FrameRate(framerate)];
    let tail1 = seq![ExtOption::FrameRate(framerate)];
    assert(tail1.skip(1) =~= Seq::<ExtOption>::empty());
    assert(ext_bytes(Seq::<ExtOption>::empty()) =~= Seq::<u8>::empty());
    assert(ext_bytes(tail1).len() == 2);
    assert(tail2.skip(1) =~= tail1);
    assert(ext_bytes(tail2).len() == 4);
    let tail3 = seq![
        ExtOption::ForceDecoding,
        ExtOption::NumMbRowsInChunk(6),
        ExtOption::FrameRate(framerate),
    ];
    assert(tail3.skip(1) =~= tail2);
    assert(ext_bytes(tail3).len() == 5);
    if idr {
        let all = stream_exts(idr, framerate);
        assert(all.skip(1) =~= tail3);
        assert(ext_bytes(all).len() == 6);
    }
}

/// The wire bytes of one packet: the header for this fragment, then its
/// body.
pub open spec fn frag_packet(
    fi: FragInfo,
    seq_id: u16,
    timestamp: u32,
    init: bool,
    idr: bool,
    framerate: FrameRate,
) -> Seq<u8> {
    data_header_bytes(
        seq_id,
        init,
        fi.frame_begin,
        fi.chunk_end,
        fi.frame_end,
        fi.payload.len() as u16,
        timestamp,
        stream_exts(idr, framerate),
    ) + fi.payload
}

/// All packets of one frame: the fragments of its chunks in order, each
/// under a header whose sequence id steps by one modulo 1024 from `seq0`.
pub open spec fn packets_spec(
    chunks: Seq<Seq<u8>>,
    seq0: u16,
    timestamp: u32,
    init: bool,
    idr: bool,
    framerate: FrameRate,
) -> Seq<Seq<u8>> {
    Seq::new(
        frame_frags(chunks).len(),
        |k: int|
            frag_packet(
                frame_frags(chunks)[k],
                ((seq0 + k) % 1024) as u16,
                timestamp,
                init,
                idr,
                framerate,
            ),
    )
}

/// Fragment payloads of a frame's chunks are between 1 and 1400 bytes.
pub proof fn lemma_chunk_frag_bounds(chunk: Seq<u8>, first_chunk: bool, last_chunk: bool)
    ensures
        forall|j: int|
            0 <= j < chunk_frags(chunk, first_chunk, last_chunk).len() ==> 1 <= (
            #[trigger] chunk_frags(chunk, first_chunk, last_chunk)[j]).payload.len() <= 1400,
    decreases chunk.len(),
{
    if chunk.len() > 1400 {
        lemma_chunk_frag_bounds(chunk.skip(1400), false, last_chunk);
        let cf = chunk_frags(chunk, first_chunk, last_chunk);
        let rest = chunk_frags(chunk.skip(1400), false, last_chunk);
        assert forall|j: int| 0 <= j < cf.len() implies 1 <= (#[trigger] cf[j]).payload.len()
            <= 1400 by {
            if j == 0 {
                assert(cf[j].payload == chunk.take(1400));
            } else {
                assert(cf[j] == rest[j - 1]);
            }
        }
    }
}

/// Fragment payloads of a whole frame are between 1 and 1400 bytes.
pub proof fn lemma_frags_from_bounds(chunks: Seq<Seq<u8>>, i: nat)
    requires
        forall|j: int| 0 <= j < chunks.len() ==> (#[trigger] chunks[j]).len() >= 1,
    ensures
        forall|k: int|
            0 <= k < frags_from(chunks, i).len() ==> 1 <= (#[trigger] frags_from(chunks, i)[k])
                .payload.len() <= 1400,
    decreases chunks.len() - i,
{
    if i < chunks.len() {
        lemma_chunk_frag_bounds(chunks[i as int], i == 0, i + 1 == chunks.len());
        lemma_frags_from_bounds(chunks, i + 1);
        let cf = chunk_frags(chunks[i as int], i == 0, i + 1 == chunks.len());
        let rest = frags_from(chunks, i + 1);
        assert forall|k: int| 0 <= k < frags_from(chunks, i).len() implies 1 <= (
        #[trigger] frags_from(chunks, i)[k]).payload.len() <= 1400 by {
            if k < cf.len() {
                assert(frags_from(chunks, i)[k] == cf[k]);
            } else {
                assert(frags_from(chunks, i)[k] == rest[k - cf.len()]);
            }
        }
    }
}

/// Number of fragments a chunk of `len` bytes is cut into:
/// `len / 1400`, rounded up.
pub open spec fn frag_count(len: nat) -> nat {
    ((len + 1399) / 1400) as nat
}

/// A chunk's fragment list has one entry per started 1400-byte slice.
pub proof fn lemma_chunk_frags_len(chunk: Seq<u8>, first_chunk: bool, last_chunk: bool)
    ensures
        chunk_frags(chunk, first_chunk, last_chunk).len() == frag_count(chunk.len()),
    decreases chunk.len(),
{
    if chunk.len() > 1400 {
        lemma_chunk_frags_len(chunk.skip(1400), false, last_chunk);
        vstd::arithmetic::div_mod::lemma_div_plus_one(chunk.len() - 1, 1400);
    }
}

/// Flags of a chunk's fragments: the first opens the frame only for the
/// frame's first chunk, the last always ends the chunk and ends the frame
/// only for the frame's last chunk.
pub proof fn lemma_chunk_frags_flags(chunk: Seq<u8>, first_chunk: bool, last_chunk: bool)
    ensures
        ({
            let cf = chunk_frags(chunk, first_chunk, last_chunk);
            forall|j: int|
                0 <= j < cf.len() ==> ((#[trigger] cf[j]).frame_begin == (first_chunk && j == 0)
                    && cf[j].chunk_end == (j == cf.len() - 1) && cf[j].frame_end == (last_chunk
                    && j == cf.len() - 1))
        }),
    decreases chunk.len(),
{
    if chunk.len() > 1400 {
        lemma_chunk_frags_flags(chunk.skip(1400), false, last_chunk);
        let cf = chunk_frags(chunk, first_chunk, last_chunk);
        let rest = chunk_frags(chunk.skip(1400), false, last_chunk);
        assert(rest.len() >= 1);
        assert forall|j: int|
            0 <= j < cf.len() implies ((#[trigger] cf[j]).frame_begin == (first_chunk && j == 0)
            && cf[j].chunk_end == (j == cf.len() - 1) && cf[j].frame_end == (last_chunk && j
            == cf.len() - 1)) by {
            if j > 0 {
                assert(cf[j] == rest[j - 1]);
            }
        }
    }
}

/// Index where chunk `i`'s fragments start in the frame's fragment list.
pub open spec fn frag_start(chunks: Seq<Seq<u8>>, i: nat) -> nat
    decreases i,
{
    if i == 0 {
        0
    } else {
        frag_start(chunks, (i - 1) as nat) + chunk_frags(
            chunks[i - 1],
            i - 1 == 0,
            i == chunks.len(),
        ).len()
    }
}

/// The frame's fragment list is the chunks' fragment lists laid end to
/// end: chunk `i`'s fragments stand at `frag_start(i)`.
pub proof fn lemma_frame_frags_split(chunks: Seq<Seq<u8>>, i: nat)
    requires
        i <= chunks.len(),
    ensures
        frag_start(chunks, i) + frags_from(chunks, i).len() == frame_frags(chunks).len(),
        forall|k: int|
            0 <= k < frags_from(chunks, i).len() ==> #[trigger] frags_from(chunks, i)[k]
                == frame_frags(chunks)[frag_start(chunks, i) + k],
    decreases i,
{
    if i == 0 {
    } else {
        lemma_frame_frags_split(chunks, (i - 1) as nat);
        let prev = frags_from(chunks, (i - 1) as nat);
        let cf = chunk_frags(chunks[i - 1], i - 1 == 0, i == chunks.len());
        let cur = frags_from(chunks, i);
        assert(prev == cf + cur);
        assert forall|k: int| 0 <= k < cur.len() implies #[trigger] cur[k] == frame_frags(chunks)[
        frag_start(chunks, i) + k] by {
            assert((cf + cur)[cf.len() + k] == cur[k]);
            assert(prev[cf.len() + k] == frame_frags(chunks)[frag_start(chunks, (i - 1) as nat)
                + cf.len() + k]);
        }
    }
}

/// Exactly one fragment of each chunk carries `chunk_end`: its last.
/// Chunk `i`'s fragments are the `frag_count(chunks[i].len())` entries
/// from `frag_start(chunks, i)` on.
pub proof fn lemma_one_chunk_end_per_chunk(chunks: Seq<Seq<u8>>, i: nat)
    requires
        valid_chunks(chunks),
        i < chunks.len(),
    ensures
        ({
            let lo = frag_start(chunks, i) as int;
            let hi = frag_start(chunks, i + 1) as int;
            &&& lo < hi <= frame_frags(chunks).len()
            &&& forall|k: int|
                lo <= k < hi ==> ((#[trigger] frame_frags(chunks)[k]).chunk_end <==> k == hi - 1)
        }),
{
    let cf = chunk_frags(chunks[i as int], i == 0, i + 1 == chunks.len());
    lemma_chunk_frags_flags(chunks[i as int], i == 0, i + 1 == chunks.len());
    lemma_frame_frags_split(chunks, i);
    lemma_frame_frags_split(chunks, i + 1);
    assert(frags_from(chunks, i) == cf + frags_from(chunks, i + 1));
    assert(cf.len() >= 1);
    let lo = frag_start(chunks, i) as int;
    let hi = frag_start(chunks, i + 1) as int;
    assert(hi == lo + cf.len());
    assert forall|k: int|
        lo <= k < hi implies ((#[trigger] frame_frags(chunks)[k]).chunk_end <==> k == hi - 1) by {
        assert(frags_from(chunks, i)[k - lo] == frame_frags(chunks)[k]);
        assert((cf + frags_from(chunks, i + 1))[k - lo] == cf[k - lo]);
    }
}

/// Flags across a whole frame: only the first fragment opens the frame
/// and only the last closes it.
pub proof fn lemma_frame_frags_flags(chunks: Seq<Seq<u8>>)
    requires
        valid_chunks(chunks),
    ensures
        ({
            let ff = frame_frags(chunks);
            &&& ff.len() >= 1
            &&& forall|k: int|
                0 <= k < ff.len() ==> ((#[trigger] ff[k]).frame_begin <==> k == 0)
            &&& forall|k: int|
                0 <= k < ff.len() ==> ((#[trigger] ff[k]).frame_end <==> k == ff.len() - 1)
        }),
{
    lemma_frags_flags_from(chunks, 0);
}

/// Flags of the fragments from chunk `i` on: the first fragment opens the
/// frame only when `i` is the first chunk, and the overall last fragment
/// alone ends the frame.
proof fn lemma_frags_flags_from(chunks: Seq<Seq<u8>>, i: nat)
    requires
        valid_chunks(chunks),
        i < chunks.len(),
    ensures
        ({
            let ff = frags_from(chunks, i);
            &&& ff.len() >= 1
            &&& forall|k: int|
                0 <= k < ff.len() ==> ((#[trigger] ff[k]).frame_begin <==> (i == 0 && k == 0))
            &&& forall|k: int|
                0 <= k < ff.len() ==> ((#[trigger] ff[k]).frame_end <==> k == ff.len() - 1)
        }),
    decreases chunks.len() - i,
{
    let ff = frags_from(chunks, i);
    let cf = chunk_frags(chunks[i as int], i == 0, i + 1 == chunks.len());
    lemma_chunk_frags_flags(chunks[i as int], i == 0, i + 1 == chunks.len());
    assert(chunks[i as int].len() >= 1);
    assert(cf.len() >= 1);
    if i + 1 == chunks.len() {
        assert(frags_from(chunks, i + 1) =~= Seq::<FragInfo>::empty());
        assert(ff =~= cf);
    } else {
        lemma_frags_flags_from(chunks, i + 1);
        let rest = frags_from(chunks, i + 1);
        assert(ff == cf + rest);
        assert forall|k: int|
            0 <= k < ff.len() implies ((#[trigger] ff[k]).frame_begin <==> (i == 0 && k == 0))
            && ((ff[k]).frame_end <==> k == ff.len() - 1) by {
            if k < cf.len() {
                assert(ff[k] == cf[k]);
            } else {
                assert(ff[k] == rest[k - cf.len()]);
            }
        }
    }
}

/// Sum of the fragment counts of the chunks from index `i` on.
pub open spec fn total_frag_count(chunks: Seq<Seq<u8>>, i: nat) -> nat
    decreases chunks.len() - i,
{
    if i >= chunks.len() {
        0
    } else {
        frag_count(chunks[i as int].len()) + total_frag_count(chunks, i + 1)
    }
}

/// A frame of chunks with lengths `l0..l(n-1)` yields
/// `ceil(l0/1400) + .. + ceil(l(n-1)/1400)` packets.
pub proof fn lemma_packet_count(
    chunks: Seq<Seq<u8>>,
    seq0: u16,
    timestamp: u32,
    init: bool,
    idr: bool,
    framerate: FrameRate,
)
    ensures
        packets_spec(chunks, seq0, timestamp, init, idr, framerate).len() == total_frag_count(
            chunks,
            0,
        ),
{
    lemma_frags_count_from(chunks, 0);
}

proof fn lemma_frags_count_from(chunks: Seq<Seq<u8>>, i: nat)
    requires
        i <= chunks.len(),
    ensures
        frags_from(chunks, i).len() == total_frag_count(chunks, i),
    decreases chunks.len() - i,
{
    if i < chunks.len() {
        lemma_chunk_frags_len(chunks[i as int], i == 0, i + 1 == chunks.len());
        lemma_frags_count_from(chunks, i + 1);
    }
}

/// Header fields of every packet of a frame, read back from its wire
/// bytes: magic, packet type and `has_timestamp` are fixed; `init` and
/// the timestamp are the caller's; the sequence ids step by one modulo
/// 1024 from `seq0`; the payload size counts the bytes after the 16-byte
/// header; `frame_begin` marks exactly the first packet and `frame_end`
/// exactly the last; `chunk_end` follows the fragment's place in its
/// chunk; and the extension bytes encode the stream's option set.
pub proof fn lemma_packet_fields(
    chunks: Seq<Seq<u8>>,
    seq0: u16,
    timestamp: u32,
    init: bool,
    idr: bool,
    framerate: FrameRate,
)
    requires
        valid_chunks(chunks),
        seq0 < 1024,
    ensures
        ({
            let ps = packets_spec(chunks, seq0, timestamp, init, idr, framerate);
            let ff = frame_frags(chunks);
            &&& ps.len() == ff.len() >= 1
            &&& forall|k: int|
                0 <= k < ps.len() ==> (#[trigger] ps[k]).len() == 16 + ff[k].payload.len()
            &&& forall|k: int| 0 <= k < ps.len() ==> 17 <= (#[trigger] ps[k]).len() <= 1416
            &&& forall|k: int|
                0 <= k < ps.len() ==> hdr_magic(#[trigger] ps[k]) == 0xF && hdr_packet_type(ps[k])
                    == 0 && hdr_has_timestamp(ps[k]) && hdr_init(ps[k]) == init && hdr_timestamp(
                    ps[k],
                ) == timestamp
            &&& forall|k: int|
                0 <= k < ps.len() ==> hdr_seq_id(#[trigger] ps[k]) == (seq0 + k) % 1024
            &&& forall|k: int|
                0 <= k < ps.len() ==> hdr_payload_size(#[trigger] ps[k]) == ps[k].len() - 16
            &&& forall|k: int|
                0 <= k < ps.len() ==> (hdr_frame_begin(#[trigger] ps[k]) <==> k == 0)
            &&& forall|k: int|
                0 <= k < ps.len() ==> (hdr_frame_end(#[trigger] ps[k]) <==> k == ps.len() - 1)
            &&& forall|k: int|
                0 <= k < ps.len() ==> (hdr_chunk_end(#[trigger] ps[k]) == ff[k].chunk_end)
            &&& forall|k: int|
                0 <= k < ps.len() ==> hdr_ext(#[trigger] ps[k]) == ext_padded(
                    stream_exts(idr, framerate),
                )
        }),
{
    let ps = packets_spec(chunks, seq0, timestamp, init, idr, framerate);
    let ff = frame_frags(chunks);
    lemma_frame_frags_flags(chunks);
    lemma_frags_from_bounds(chunks, 0);
    lemma_stream_exts_len(idr, framerate);
    assert forall|k: int| 0 <= k < ps.len() implies (#[trigger] ps[k]).len() == 16
        + ff[k].payload.len() && 17 <= ps[k].len() <= 1416 && hdr_magic(ps[k]) == 0xF
        && hdr_packet_type(ps[k]) == 0 && hdr_has_timestamp(ps[k]) && hdr_init(ps[k]) == init
        && hdr_timestamp(ps[k]) == timestamp && hdr_seq_id(ps[k]) == (seq0 + k) % 1024
        && hdr_payload_size(ps[k]) == ps[k].len() - 16 && (hdr_frame_begin(ps[k]) <==> k == 0) && (
    hdr_frame_end(ps[k]) <==> k == ps.len() - 1) && (hdr_chunk_end(ps[k]) == ff[k].chunk_end)
        && hdr_ext(ps[k]) == ext_padded(stream_exts(idr, framerate)) by {
        let sid = ((seq0 + k) % 1024) as u16;
        let plen = ff[k].payload.len() as u16;
        let hb = data_header_bytes(
            sid,
            init,
            ff[k].frame_begin,
            ff[k].chunk_end,
            ff[k].frame_end,
            plen,
            timestamp,
            stream_exts(idr, framerate),
        );
        crate::video::data::lemma_data_header_fields(
            sid,
            init,
            ff[k].frame_begin,
            ff[k].chunk_end,
            ff[k].frame_end,
            plen,
            timestamp,
            stream_exts(idr, framerate),
        );
        assert(ps[k] == hb + ff[k].payload);
        assert(ps[k][0] == hb[0] && ps[k][1] == hb[1] && ps[k][2] == hb[2] && ps[k][3] == hb[3]
            && ps[k][4] == hb[4] && ps[k][5] == hb[5] && ps[k][6] == hb[6] && ps[k][7] == hb[7]);
        assert(hdr_ext(ps[k]) =~= hdr_ext(hb));
    }
}

/// On the wire, exactly one packet of each chunk carries `chunk_end`:
/// the last of the `frag_count(chunks[i].len())` packets that start at
/// `frag_start(chunks, i)`.
pub proof fn lemma_one_chunk_end_per_chunk_wire(
    chunks: Seq<Seq<u8>>,
    seq0: u16,
    timestamp: u32,
    init: bool,
    idr: bool,
    framerate: FrameRate,
    i: nat,
)
    requires
        valid_chunks(chunks),
        seq0 < 1024,
        i < chunks.len(),
    ensures
        ({
            let ps = packets_spec(chunks, seq0, timestamp, init, idr, framerate);
            let lo = frag_start(chunks, i) as int;
            let hi = frag_start(chunks, i + 1) as int;
            &&& lo < hi <= ps.len()
            &&& forall|k: int| lo <= k < hi ==> (hdr_chunk_end(#[trigger] ps[k]) <==> k == hi - 1)
        }),
{
    lemma_one_chunk_end_per_chunk(chunks, i);
    lemma_packet_fields(chunks, seq0, timestamp, init, idr, framerate);
}

/// Stripping the 16-byte headers from a frame's packets and joining the
/// bodies in order reassembles the chunks, joined in order.
pub proof fn lemma_bodies_reassemble(
    chunks: Seq<Seq<u8>>,
    seq0: u16,
    timestamp: u32,
    init: bool,
    idr: bool,
    framerate: FrameRate,
)
    requires
        valid_chunks(chunks),
        seq0 < 1024,
    ensures
        packets_spec(chunks, seq0, timestamp, init, idr, framerate).map_values(
            |p: Seq<u8>| p.skip(16),
        ).flatten() == chunks.flatten(),
{
    let ps = packets_spec(chunks, seq0, timestamp, init, idr, framerate);
    let ff = frame_frags(chunks);
    lemma_stream_exts_len(idr, framerate);
    assert forall|k: int| 0 <= k < ps.len() implies (#[trigger] ps[k]).skip(16)
        == ff[k].payload by {
        let hb = data_header_bytes(
            ((seq0 + k) % 1024) as u16,
            init,
            ff[k].frame_begin,
            ff[k].chunk_end,
            ff[k].frame_end,
            ff[k].payload.len() as u16,
            timestamp,
            stream_exts(idr, framerate),
        );
        assert(hb.len() == 16);
        assert((hb + ff[k].payload).skip(16) =~= ff[k].payload);
    }
    assert(ps.map_values(|p: Seq<u8>| p.skip(16)) =~= ff.map_values(|f: FragInfo| f.payload));
    lemma_payloads_flatten_from(chunks, 0);
    assert(chunks.skip(0) =~= chunks);
}

/// The payloads of a chunk's fragments, joined, are the chunk.
proof fn lemma_chunk_payloads_flatten(chunk: Seq<u8>, first_chunk: bool, last_chunk: bool)
    ensures
        chunk_frags(chunk, first_chunk, last_chunk).map_values(
            |f: FragInfo| f.payload,
        ).flatten() == chunk,
    decreases chunk.len(),
{
    let cf = chunk_frags(chunk, first_chunk, last_chunk);
    let pays = cf.map_values(|f: FragInfo| f.payload);
    if chunk.len() == 0 {
        assert(pays =~= Seq::<Seq<u8>>::empty());
        assert(pays.flatten() =~= chunk);
    } else if chunk.len() <= 1400 {
        assert(pays =~= seq![chunk]);
        assert(pays.first() == chunk);
        assert(pays.drop_first() =~= Seq::<Seq<u8>>::empty());
        assert(pays.drop_first().flatten() == Seq::<Seq<u8>>::empty().flatten());
        assert(Seq::<Seq<u8>>::empty().flatten() =~= Seq::<u8>::empty());
        assert(chunk + Seq::<u8>::empty() =~= chunk);
        assert(pays.flatten() =~= chunk);
    } else {
        lemma_chunk_payloads_flatten(chunk.skip(1400), false, last_chunk);
        let rest = chunk_frags(chunk.skip(1400), false, last_chunk);
        assert(pays.first() == chunk.take(1400));
        assert(pays.drop_first() =~= rest.map_values(|f: FragInfo| f.payload));
        assert(pays.flatten() == chunk.take(1400) + rest.map_values(
            |f: FragInfo| f.payload,
        ).flatten());
        assert(chunk.take(1400) + chunk.skip(1400) =~= chunk);
    }
}

/// The payloads of the fragments from chunk `i` on, joined, are the
/// chunks from `i` on, joined.
proof fn lemma_payloads_flatten_from(chunks: Seq<Seq<u8>>, i: nat)
    requires
        i <= chunks.len(),
    ensures
        frags_from(chunks, i).map_values(|f: FragInfo| f.payload).flatten() == chunks.skip(
            i as int,
        ).flatten(),
    decreases chunks.len() - i,
{
    if i == chunks.len() {
        assert(frags_from(chunks, i).map_values(|f: FragInfo| f.payload) =~= Seq::<
            Seq<u8>,
        >::empty());
        assert(chunks.skip(i as int) =~= Seq::<Seq<u8>>::empty());
    } else {
        lemma_payloads_flatten_from(chunks, i + 1);
        lemma_chunk_payloads_flatten(chunks[i as int], i == 0, i + 1 == chunks.len());
        let cf = chunk_frags(chunks[i as int], i == 0, i + 1 == chunks.len());
        let rest = frags_from(chunks, i + 1);
        let cfp = cf.map_values(|f: FragInfo| f.payload);
        let restp = rest.map_values(|f: FragInfo| f.payload);
        assert(frags_from(chunks, i).map_values(|f: FragInfo| f.payload) =~= cfp + restp);
        lemma_flatten_concat(cfp, restp);
        assert(chunks.skip(i as int) =~= seq![chunks[i as int]] + chunks.skip(i as int + 1));
        lemma_flatten_concat(seq![chunks[i as int]], chunks.skip(i as int + 1));
        assert(seq![chunks[i as int]].first() == chunks[i as int]);
        assert(seq![chunks[i as int]].drop_first() =~= Seq::<Seq<u8>>::empty());
        assert(seq![chunks[i as int]].drop_first().flatten() == Seq::<Seq<u8>>::empty().flatten());
        assert(Seq::<Seq<u8>>::empty().flatten() =~= Seq::<u8>::empty());
        assert(chunks[i as int] + Seq::<u8>::empty() =~= chunks[i as int]);
        assert(seq![chunks[i as int]].flatten() == chunks[i as int]);
    }
}

/// The extension options of every packet of a frame decode back to the
/// stream's option set, which carries `Idr` exactly for IDR frames.
pub proof fn lemma_packet_ext_options(idr: bool, framerate: FrameRate)
    ensures
        crate::video::data::decode_spec(ext_padded(stream_exts(idr, framerate))) == Ok::<
            Seq<ExtOption>,
            crate::video::data::Error,
        >(stream_exts(idr, framerate)),
        idr <==> stream_exts(idr, framerate).contains(ExtOption::Idr),
{
    lemma_stream_exts_len(idr, framerate);
    crate::video::data::lemma_ext_round_trip(stream_exts(idr, framerate));
    let s = stream_exts(idr, framerate);
    if idr {
        assert(s[0] == ExtOption::Idr);
        assert(s.contains(ExtOption::Idr));
    } else {
        assert forall|j: int| 0 <= j < s.len() implies s[j] != ExtOption::Idr by {}
    }
}

/// A chunk of at most 1400 bytes travels as one fragment, which alone
/// carries `chunk_end`.
pub proof fn lemma_fragment_single(chunk: Seq<u8>, first_chunk: bool, last_chunk: bool)
    requires
        1 <= chunk.len() <= 1400,
    ensures
        chunk_frags(chunk, first_chunk, last_chunk).len() == 1,
        chunk_frags(chunk, first_chunk, last_chunk)[0].payload == chunk,
        chunk_frags(chunk, first_chunk, last_chunk)[0].chunk_end,
{
}

/// A chunk of 1400 + r bytes, r in 1..=1400, travels as two fragments of
/// 1400 and r bytes; only the second carries `chunk_end`.
pub proof fn lemma_fragment_split(chunk: Seq<u8>, first_chunk: bool, last_chunk: bool)
    requires
        1400 < chunk.len() <= 2800,
    ensures
        chunk_frags(chunk, first_chunk, last_chunk).len() == 2,
        chunk_frags(chunk, first_chunk, last_chunk)[0].payload == chunk.take(1400),
        chunk_frags(chunk, first_chunk, last_chunk)[1].payload == chunk.skip(1400),
        !chunk_frags(chunk, first_chunk, last_chunk)[0].chunk_end,
        chunk_frags(chunk, first_chunk, last_chunk)[1].chunk_end,
{
    let rest = chunk_frags(chunk.skip(1400), false, last_chunk);
    assert(chunk.skip(1400).len() == chunk.len() - 1400);
    assert(rest.len() == 1);
    assert(chunk_frags(chunk, first_chunk, last_chunk)[1] == rest[0]);
}

/// Copy of `src[start..end]`.
fn copy_range(src: &Vec<u8>, start: usize, end: usize) -> (r: Vec<u8>)
    requires
        start <= end <= src@.len(),
    ensures
        r@ == src@.subrange(start as int, end as int),
{
    let mut out: Vec<u8> = Vec::new();
    let mut j: usize = start;
    while j < end
        invariant
            start <= j <= end <= src@.len(),
            out@ == src@.subrange(start as int, j as int),
        decreases end - j,
    {
        out.push(src[j]);
        proof {
            assert(src@.subrange(start as int, j as int).push(src@[j as int]) =~= src@.subrange(
                start as int,
                j as int + 1,
            ));
        }
        j = j + 1;
    }
    out
}

/// One fragment of a frame, with its body held as plain bytes.
struct Frag {
    payload: Vec<u8>,
    frame_begin: bool,
    chunk_end: bool,
    frame_end: bool,
}

impl Frag {
    spec fn view_info(&self) -> FragInfo {
        FragInfo {
            payload: self.payload@,
            frame_begin: self.frame_begin,
            chunk_end: self.chunk_end,
            frame_end: self.frame_end,
        }
    }
}

/// The extension options of a stream packet, `Idr` first when the frame
/// is an IDR.
fn stream_ext_headers(idr: bool, framerate: FrameRate) -> (r: Vec<ExtOption>)
    ensures
        r@ == stream_exts(idr, framerate),
{
    let mut out: Vec<ExtOption> = Vec::new();
    if idr {
        out.push(ExtOption::Idr);
    }
    out.push(ExtOption::ForceDecoding);
    out.push(ExtOption::NumMbRowsInChunk(6));
    out.push(ExtOption::FrameRate(framerate));
    proof {
        assert(out@ =~= stream_exts(idr, framerate));
    }
    out
}

/// Cut the chunks of one frame into MTU-sized fragments and wrap each in
/// a VSTRM data-packet header. Returns the packets in send order and the
/// sequence id that follows the frame's last packet.
pub fn packetize(
    chunks: &Vec<Vec<u8>>,
    seq0: u16,
    timestamp: u32,
    init: bool,
    idr: bool,
    framerate: FrameRate,
) -> (r: (Vec<Vec<u8>>, u16))
    requires
        valid_chunks(chunks@.map_values(|c: Vec<u8>| c@)),
        seq0 < 1024,
    ensures
        ({
            let cview = chunks@.map_values(|c: Vec<u8>| c@);
            &&& r.0@.map_values(|p: Vec<u8>| p@) == packets_spec(
                cview,
                seq0,
                timestamp,
                init,
                idr,
                framerate,
            )
            &&& r.1 == (seq0 + packets_spec(cview, seq0, timestamp, init, idr, framerate).len())
                % 1024
        }),
{
    let ghost cview = chunks@.map_values(|c: Vec<u8>| c@);
    let n = chunks.len();
    let mut frags: Vec<Frag> = Vec::new();
    let mut i: usize = 0;
    proof {
        assert(frags@.map_values(|f: Frag| f.view_info()) + frags_from(cview, 0) =~= frame_frags(
            cview,
        ));
    }
    while i < n
        invariant
            i <= n,
            n == cview.len(),
            cview == chunks@.map_values(|c: Vec<u8>| c@),
            valid_chunks(cview),
            frags@.map_values(|f: Frag| f.view_info()) + frags_from(cview, i as nat)
                == frame_frags(cview),
        decreases n - i,
    {
        let chunk = &chunks[i];
        let clen = chunk.len();
        assert(cview[i as int] == chunk@);
        assert(clen >= 1);
        let mut pos: usize = 0;
        proof {
            assert(chunk@.skip(0) =~= chunk@);
            assert(frags@.map_values(|f: Frag| f.view_info()) + chunk_frags(chunk@, i == 0, i + 1
                == n) + frags_from(cview, i as nat + 1) =~= frags@.map_values(
                |f: Frag| f.view_info(),
            ) + frags_from(cview, i as nat));
        }
        while pos < clen
            invariant
                pos <= clen,
                i < n,
                n == cview.len(),
                cview == chunks@.map_values(|c: Vec<u8>| c@),
                valid_chunks(cview),
                clen == chunk@.len(),
                chunk@ == cview[i as int],
                frags@.map_values(|f: Frag| f.view_info()) + chunk_frags(
                    chunk@.skip(pos as int),
                    i == 0 && pos == 0,
                    i + 1 == n,
                ) + frags_from(cview, i as nat + 1) == frame_frags(cview),
            decreases clen - pos,
        {
            let ghost rem = chunk@.skip(pos as int);
            let ghost fb = i == 0 && pos == 0;
            let ghost lc = i + 1 == n;
            let frag: Frag;
            if clen - pos > MAX_PAYLOAD_SIZE {
                let payload = copy_range(chunk, pos, pos + MAX_PAYLOAD_SIZE);
                proof {
                    assert(rem.take(1400) =~= chunk@.subrange(pos as int, pos as int + 1400));
                }
                frag = Frag { payload, frame_begin: i == 0 && pos == 0, chunk_end: false, frame_end: false };
                proof {
                    assert(rem.skip(1400) =~= chunk@.skip(pos as int + 1400));
                    assert(chunk_frags(rem, fb, lc) == seq![frag.view_info()] + chunk_frags(
                        chunk@.skip(pos as int + 1400),
                        false,
                        lc,
                    ));
                    assert(frags@.map_values(|f: Frag| f.view_info()).push(frag.view_info())
                        =~= frags@.push(frag).map_values(|f: Frag| f.view_info()));
                    assert(frags@.push(frag).map_values(|f: Frag| f.view_info()) + chunk_frags(
                        chunk@.skip(pos as int + 1400),
                        false,
                        lc,
                    ) + frags_from(cview, i as nat + 1) =~= frags@.map_values(
                        |f: Frag| f.view_info(),
                    ) + chunk_frags(rem, fb, lc) + frags_from(cview, i as nat + 1));
                }
                frags.push(frag);
                pos = pos + MAX_PAYLOAD_SIZE;
            } else {
                let payload = copy_range(chunk, pos, clen);
                proof {
                    assert(rem =~= chunk@.subrange(pos as int, clen as int));
                }
                frag = Frag {
                    payload,
                    frame_begin: i == 0 && pos == 0,
                    chunk_end: true,
                    frame_end: (i + 1 == n),
                };
                proof {
                    assert(chunk_frags(rem, fb, lc) == seq![frag.view_info()]);
                    assert(chunk_frags(chunk@.skip(clen as int), false, lc) =~= Seq::<
                        FragInfo,
                    >::empty());
                    assert(frags@.map_values(|f: Frag| f.view_info()).push(frag.view_info())
                        =~= frags@.push(frag).map_values(|f: Frag| f.view_info()));
                    assert(frags@.push(frag).map_values(|f: Frag| f.view_info()) + chunk_frags(
                        chunk@.skip(clen as int),
                        false,
                        lc,
                    ) + frags_from(cview, i as nat + 1) =~= frags@.map_values(
                        |f: Frag| f.view_info(),
                    ) + chunk_frags(rem, fb, lc) + frags_from(cview, i as nat + 1));
                }
                frags.push(frag);
                pos = clen;
            }
        }
        proof {
            assert(chunk_frags(chunk@.skip(clen as int), i == 0 && clen == 0, i + 1 == n) =~= Seq::<
                FragInfo,
            >::empty());
            assert(frags@.map_values(|f: Frag| f.view_info()) + frags_from(cview, i as nat + 1)
                =~= frame_frags(cview));
        }
        i = i + 1;
    }
    proof {
        assert(frags_from(cview, n as nat) =~= Seq::<FragInfo>::empty());
        assert(frags@.map_values(|f: Frag| f.view_info()) =~= frame_frags(cview));
        lemma_frags_from_bounds(cview, 0);
    }
    let count = frags.len();
    let mut packets: Vec<Vec<u8>> = Vec::new();
    let mut seq_id: u16 = seq0;
    let mut k: usize = 0;
    proof {
        vstd::arithmetic::div_mod::lemma_small_mod(seq0 as nat, 1024);
    }
    while k < count
        invariant
            k <= count,
            count == frame_frags(cview).len(),
            frags@.map_values(|f: Frag| f.view_info()) == frame_frags(cview),
            forall|j: int|
                0 <= j < frame_frags(cview).len() ==> 1 <= (#[trigger] frame_frags(cview)[j])
                    .payload.len() <= 1400,
            seq_id == (seq0 + k) % 1024,
            packets@.map_values(|p: Vec<u8>| p@) == Seq::new(
                k as nat,
                |j: int|
                    frag_packet(
                        frame_frags(cview)[j],
                        ((seq0 + j) % 1024) as u16,
                        timestamp,
                        init,
                        idr,
                        framerate,
                    ),
            ),
        decreases count - k,
    {
        let frag = &frags[k];
        assert(frag.view_info() == frame_frags(cview)[k as int]);
        let plen = frag.payload.len();
        assert(1 <= plen <= 1400);
        let header = crate::video::data::VstrmHeader {
            magic: 0xF,
            packet_type: 0,
            seq_id,
            init,
            frame_begin: frag.frame_begin,
            chunk_end: frag.chunk_end,
            frame_end: frag.frame_end,
            has_timestamp: true,
            payload_size: plen as u16,
            timestamp,
            ext_headers: stream_ext_headers(idr, framerate),
        };
        proof {
            lemma_stream_exts_len(idr, framerate);
        }
        let mut buffer = match header.into_bytes() {
            Ok(b) => b,
            Err(_) => {
                proof {
                    assert(false);
                }
                Vec::new()
            },
        };
        proof {
            assert(buffer@ =~= data_header_bytes(
                seq_id,
                init,
                frag.frame_begin,
                frag.chunk_end,
                frag.frame_end,
                plen as u16,
                timestamp,
                stream_exts(idr, framerate),
            ));
        }
        let mut j: usize = 0;
        while j < plen
            invariant
                j <= plen,
                plen == frag.payload@.len(),
                buffer@ == data_header_bytes(
                    seq_id,
                    init,
                    frag.frame_begin,
                    frag.chunk_end,
                    frag.frame_end,
                    plen as u16,
                    timestamp,
                    stream_exts(idr, framerate),
                ) + frag.payload@.take(j as int),
            decreases plen - j,
        {
            buffer.push(frag.payload[j]);
            proof {
                assert(buffer@ =~= data_header_bytes(
                    seq_id,
                    init,
                    frag.frame_begin,
                    frag.chunk_end,
                    frag.frame_end,
                    plen as u16,
                    timestamp,
                    stream_exts(idr, framerate),
                ) + frag.payload@.take(j as int + 1));
            }
            j = j + 1;
        }
        proof {
            assert(frag.payload@.take(plen as int) =~= frag.payload@);
            assert(buffer@ =~= frag_packet(
                frame_frags(cview)[k as int],
                seq_id,
                timestamp,
                init,
                idr,
                framerate,
            ));
            assert(packets@.push(buffer).map_values(|p: Vec<u8>| p@) =~= packets@.map_values(
                |p: Vec<u8>| p@,
            ).push(buffer@));
            assert(packets@.map_values(|p: Vec<u8>| p@).push(buffer@) =~= Seq::new(
                k as nat + 1,
                |j: int|
                    frag_packet(
                        frame_frags(cview)[j],
                        ((seq0 + j) % 1024) as u16,
                        timestamp,
                        init,
                        idr,
                        framerate,
                    ),
            ));
        }
        packets.push(buffer);
        proof {
            vstd::arithmetic::div_mod::lemma_add_mod_noop(seq0 + k, 1, 1024);
            vstd::arithmetic::div_mod::lemma_small_mod(1nat, 1024);
            if seq_id == 1023 {
                vstd::arithmetic::div_mod::lemma_mod_self_0(1024);
            } else {
                vstd::arithmetic::div_mod::lemma_small_mod((seq_id + 1) as nat, 1024);
            }
        }
        if seq_id == 1023 {
            seq_id = 0;
        } else {
            seq_id = seq_id + 1;
        }
        k = k + 1;
    }
    proof {
        assert(packets@.map_values(|p: Vec<u8>| p@) =~= packets_spec(
            cview,
            seq0,
            timestamp,
            init,
            idr,
            framerate,
        ));
    }
    (packets, seq_id)
}

} // verus!
