//! Chunk bookkeeping for the H.264 encoder's per-NAL callback: the
//! encoder emits one NAL per macroblock-row group, and a frame must come
//! out as exactly five chunks, indexed by macroblock position. SEI NALs
//! are skipped; the last chunk decides whether the frame was an IDR.

use vstd::prelude::*;

verus! {

/// Frame width the encoder is configured for.
pub const WIDTH: u32 = 864;

/// Frame height the encoder is configured for.
pub const HEIGHT: u32 = 480;

/// Chunks a frame is split into.
pub const CHUNKS_PER_FRAME: usize = 5;

/// NAL type of supplemental enhancement information, which is skipped.
pub const NAL_SEI: i32 = 6;

/// `ref_idc` of a disposable NAL.
pub const NAL_PRIORITY_DISPOSABLE: i32 = 0;

/// NAL type of an IDR slice.
pub const NAL_SLICE_IDR: i32 = 5;

/// Macroblocks of a `width` by `height` frame: both sides rounded up to
/// whole 16-pixel macroblocks.
pub fn mb_per_frame(width: u32, height: u32) -> (r: u32)
    requires
        width <= 0xFFFF,
        height <= 0xFFFF,
    ensures
        r == ((width + 15) / 16) * ((height + 15) / 16),
{
    proof {
        assert(((width + 15) / 16) * ((height + 15) / 16) <= 4096 * 4096) by (nonlinear_arith)
            requires
                width <= 0xFFFF,
                height <= 0xFFFF,
        ;
    }
    ((width + 15) / 16) * ((height + 15) / 16)
}

/// Macroblocks per chunk at the configured frame size: 1620 / 5.
pub fn mb_per_chunk() -> (r: u32)
    ensures
        r == 324,
{
    let m = mb_per_frame(WIDTH, HEIGHT);
    assert(m == ((864 + 15) / 16) * ((480 + 15) / 16));
    assert(m == 54 * 30);
    m / 5
}

/// Errors of the encoder wrapper.
#[derive(Debug, Copy, Clone, PartialEq, Eq, Structural)]
pub enum Error {
    /// The encoder could not be built.
    EncoderBuild,
    /// The encoder failed on a frame.
    Encoder,
    /// A frame ended with other than five chunks.
    ChunkCount { length: usize },
    /// A NAL arrived whose macroblock index does not continue the
    /// frame's chunks in order.
    ChunkIndex { expected: usize, actual: usize },
}

/// Per-encode context filled by the encoder's NAL callback: the chunks
/// collected so far, and whether the frame is an IDR.
pub struct EncoderContext {
    /// Chunk payloads in macroblock order, at most five.
    pub chunks: Vec<Vec<u8>>,
    /// Set by the frame's last chunk: `ref_idc` not disposable and NAL
    /// type IDR slice.
    pub is_idr: bool,
}

impl EncoderContext {
    /// The chunk payloads as plain byte sequences.
    pub open spec fn chunks_view(self) -> Seq<Seq<u8>> {
        self.chunks@.map_values(|c: Vec<u8>| c@)
    }

    /// An empty context for one encode call.
    pub fn new() -> (r: Self)
        ensures
            r.chunks@.len() == 0,
            !r.is_idr,
    {
        EncoderContext { chunks: Vec::new(), is_idr: false }
    }

    /// Take one NAL from the encoder. SEI NALs are skipped; any other
    /// NAL must begin at the macroblock row that continues the frame's
    /// chunks in order, and is appended as the next chunk. The fifth
    /// chunk fixes the frame's IDR flag.
    pub fn process_nal_unit(
        &mut self,
        nal_type: i32,
        ref_idc: i32,
        first_mb: i32,
        payload: Vec<u8>,
    ) -> (r: Result<(), Error>)
        requires
            first_mb >= 0,
        ensures
            nal_type == NAL_SEI ==> r == Ok::<(), Error>(()) && final(self).chunks_view() == old(
                self,
            ).chunks_view() && final(self).is_idr == old(self).is_idr,
            nal_type != NAL_SEI && first_mb / 324 == old(self).chunks@.len() && old(
                self,
            ).chunks@.len() < 5 ==> r == Ok::<(), Error>(()) && final(self).chunks_view() == old(
                self,
            ).chunks_view().push(payload@) && final(self).is_idr == (if old(self).chunks@.len() + 1
                == 5 {
                ref_idc != NAL_PRIORITY_DISPOSABLE && nal_type == NAL_SLICE_IDR
            } else {
                old(self).is_idr
            }),
            nal_type != NAL_SEI && !(first_mb / 324 == old(self).chunks@.len() && old(
                self,
            ).chunks@.len() < 5) ==> r == Err::<(), Error>(Error::ChunkIndex {
                expected: old(self).chunks@.len() as usize,
                actual: (first_mb / 324) as usize,
            }) && final(self).chunks_view() == old(self).chunks_view() && final(self).is_idr == old(
                self,
            ).is_idr,
    {
        if nal_type == NAL_SEI {
            return Ok(());
        }
        let chunk_idx = (first_mb / 324) as usize;
        if chunk_idx != self.chunks.len() || self.chunks.len() >= CHUNKS_PER_FRAME {
            return Err(Error::ChunkIndex { expected: self.chunks.len(), actual: chunk_idx });
        }
        let ghost before = self.chunks_view();
        self.chunks.push(payload);
        proof {
            assert(self.chunks_view() =~= before.push(self.chunks@[before.len() as int]@));
        }
        if self.chunks.len() == CHUNKS_PER_FRAME {
            self.is_idr = ref_idc != NAL_PRIORITY_DISPOSABLE && nal_type == NAL_SLICE_IDR;
        }
        Ok(())
    }

    /// Close the frame: exactly five chunks must have arrived.
    pub fn finish(self) -> (r: Result<(Vec<Vec<u8>>, bool), Error>)
        ensures
            self.chunks@.len() == 5 ==> (r matches Ok(p) && p.0@.map_values(|c: Vec<u8>| c@)
                == self.chunks_view() && p.1 == self.is_idr),
            self.chunks@.len() != 5 ==> (r matches Err(e) && e == (Error::ChunkCount {
                length: self.chunks@.len() as usize,
            })),
    {
        if self.chunks.len() != CHUNKS_PER_FRAME {
            return Err(Error::ChunkCount { length: self.chunks.len() });
        }
        Ok((self.chunks, self.is_idr))
    }
}

} // verus!
