//! The VSTRM packet header: a 16-byte big-endian bit-packed header carrying
//! a 10-bit sequence id, per-frame flags, an 11-bit payload size, the low
//! 32 bits of the TSF clock, and up to 8 bytes of extension options.

use vstd::prelude::*;

verus! {

/// Frame rates the GamePad understands, identified on the wire by the
/// parameter byte of the `FrameRate` extension option.
#[derive(Debug, Copy, Clone, PartialEq, Eq, Structural)]
pub enum FrameRate {
    Sixty,
    Fifty,
    Thirty,
    TwentyFive,
}

impl FrameRate {
    /// Wire encoding: 0 = 59.94 Hz, 1 = 50 Hz, 2 = 29.97 Hz, 3 = 25 Hz.
    pub open spec fn spec_byte(self) -> u8 {
        match self {
            FrameRate::Sixty => 0,
            FrameRate::Fifty => 1,
            FrameRate::Thirty => 2,
            FrameRate::TwentyFive => 3,
        }
    }

    /// The frame rate a parameter byte denotes, if any.
    pub open spec fn spec_of_byte(value: u8) -> Option<FrameRate> {
        if value == 0 {
            Some(FrameRate::Sixty)
        } else if value == 1 {
            Some(FrameRate::Fifty)
        } else if value == 2 {
            Some(FrameRate::Thirty)
        } else if value == 3 {
            Some(FrameRate::TwentyFive)
        } else {
            None
        }
    }

    /// Microseconds between two frames at this rate: 1_000_000 divided by
    /// the rate in Hz, truncated toward zero (59.94 Hz gives 16683,
    /// 29.97 Hz gives 33366).
    pub open spec fn spec_interval_us(self) -> u64 {
        match self {
            FrameRate::Sixty => 16683,
            FrameRate::Fifty => 20000,
            FrameRate::Thirty => 33366,
            FrameRate::TwentyFive => 40000,
        }
    }

    pub fn byte(self) -> (r: u8)
        ensures
            r == self.spec_byte(),
    {
        match self {
            FrameRate::Sixty => 0,
            FrameRate::Fifty => 1,
            FrameRate::Thirty => 2,
            FrameRate::TwentyFive => 3,
        }
    }

    pub fn interval_us(self) -> (r: u64)
        ensures
            r == self.spec_interval_us(),
    {
        match self {
            FrameRate::Sixty => 16683,
            FrameRate::Fifty => 20000,
            FrameRate::Thirty => 33366,
            FrameRate::TwentyFive => 40000,
        }
    }

    /// Decode a parameter byte; bytes above 3 denote no frame rate.
    pub fn try_from(value: u8) -> (r: Result<FrameRate, Error>)
        ensures
            FrameRate::spec_of_byte(value) matches Some(f) ==> r == Ok::<FrameRate, Error>(f),
            FrameRate::spec_of_byte(value) is None ==> r == Err::<FrameRate, Error>(
                Error::InvalidFramerate { value },
            ),
    {
        match value {
            0 => Ok(FrameRate::Sixty),
            1 => Ok(FrameRate::Fifty),
            2 => Ok(FrameRate::Thirty),
            3 => Ok(FrameRate::TwentyFive),
            _ => Err(Error::InvalidFramerate { value }),
        }
    }
}

/// Extension options carried in the trailing 8 bytes of a VSTRM header.
/// Each option encodes as a tag byte, some followed by one parameter byte;
/// decoding stops at a zero byte.
#[derive(Debug, Copy, Clone, PartialEq, Eq, Structural)]
pub enum ExtOption {
    Idr,
    Unimplemented(u8),
    FrameRate(FrameRate),
    ForceDecoding,
    UnsetForceFlag,
    NumMbRowsInChunk(u8),
}

/// Errors of the VSTRM data layer.
#[derive(Debug, Copy, Clone, PartialEq, Eq, Structural)]
pub enum Error {
    /// The extension options encode to more than 8 bytes.
    ExtHeaderTooLong { length: usize },
    /// An extension tag byte that denotes no option.
    ExtHeaderValue { value: u8 },
    /// Extension bytes handed to the decoder were not exactly 8 bytes.
    ExtHeaderLength { length: usize },
    /// An extension tag that takes a parameter stood last, with no
    /// parameter byte after it; the field holds the tag.
    ExtHeaderParam { instr: u8 },
    /// A `FrameRate` parameter byte above 3.
    InvalidFramerate { value: u8 },
}

/// Wire bytes of one extension option.
pub open spec fn opt_bytes(opt: ExtOption) -> Seq<u8> {
    match opt {
        ExtOption::Idr => seq![0x80u8],
        ExtOption::Unimplemented(v) => seq![0x81u8, v],
        ExtOption::FrameRate(f) => seq![0x82u8, f.spec_byte()],
        ExtOption::ForceDecoding => seq![0x83u8],
        ExtOption::UnsetForceFlag => seq![0x84u8],
        ExtOption::NumMbRowsInChunk(v) => seq![0x85u8, v],
    }
}

/// Wire bytes of a list of extension options, unpadded.
pub open spec fn ext_bytes(opts: Seq<ExtOption>) -> Seq<u8>
    decreases opts.len(),
{
    if opts.len() == 0 {
        Seq::empty()
    } else {
        opt_bytes(opts[0]) + ext_bytes(opts.skip(1))
    }
}

/// The 8 extension bytes of a header: the encoded options, zero-padded.
/// Meaningful only when the encoded options fit in 8 bytes.
pub open spec fn ext_padded(opts: Seq<ExtOption>) -> Seq<u8> {
    ext_bytes(opts) + Seq::new((8 - ext_bytes(opts).len()) as nat, |i: int| 0u8)
}

proof fn lemma_ext_bytes_snoc(opts: Seq<ExtOption>, opt: ExtOption)
    ensures
        ext_bytes(opts.push(opt)) == ext_bytes(opts) + opt_bytes(opt),
    decreases opts.len(),
{
    if opts.len() == 0 {
        assert(opts.push(opt)[0] == opt);
        assert(opts.push(opt).skip(1) =~= Seq::<ExtOption>::empty());
        assert(ext_bytes(Seq::<ExtOption>::empty()) =~= Seq::<u8>::empty());
        assert(ext_bytes(opts.push(opt)) =~= opt_bytes(opt));
        assert(ext_bytes(opts) + opt_bytes(opt) =~= opt_bytes(opt));
    } else {
        assert(opts.push(opt)[0] == opts[0]);
        assert(opts.push(opt).skip(1) =~= opts.skip(1).push(opt));
        lemma_ext_bytes_snoc(opts.skip(1), opt);
        assert(ext_bytes(opts.push(opt)) =~= ext_bytes(opts) + opt_bytes(opt));
    }
}

impl ExtOption {
    /// Encode a list of options into the 8 extension bytes of a header.
    /// Succeeds exactly when the options encode to at most 8 bytes; the
    /// remainder is padded with zeros.
    pub fn encode(options: &[ExtOption]) -> (r: Result<Vec<u8>, Error>)
        ensures
            r is Ok <==> ext_bytes(options@).len() <= 8,
            r matches Ok(b) ==> b@ == ext_padded(options@) && b@.len() == 8,
            r matches Err(e) ==> e == (Error::ExtHeaderTooLong {
                length: ext_bytes(options@).len() as usize,
            }) && ext_bytes(options@).len() <= usize::MAX,
    {
        let mut out: Vec<u8> = Vec::new();
        let n = options.len();
        let mut i: usize = 0;
        while i < n
            invariant
                i <= n,
                n == options@.len(),
                out@ == ext_bytes(options@.take(i as int)),
            decreases n - i,
        {
            proof {
                lemma_ext_bytes_snoc(options@.take(i as int), options@[i as int]);
                assert(options@.take(i as int).push(options@[i as int]) =~= options@.take(
                    i as int + 1,
                ));
            }
            match options[i] {
                ExtOption::Idr => out.push(0x80),
                ExtOption::Unimplemented(v) => {
                    out.push(0x81);
                    out.push(v);
                },
                ExtOption::FrameRate(f) => {
                    out.push(0x82);
                    out.push(f.byte());
                },
                ExtOption::ForceDecoding => out.push(0x83),
                ExtOption::UnsetForceFlag => out.push(0x84),
                ExtOption::NumMbRowsInChunk(v) => {
                    out.push(0x85);
                    out.push(v);
                },
            }
            i = i + 1;
        }
        proof {
            assert(options@.take(n as int) =~= options@);
        }
        if out.len() > 8 {
            return Err(Error::ExtHeaderTooLong { length: out.len() });
        }
        proof {
            assert(out@.subrange(0, ext_bytes(options@).len() as int) =~= ext_bytes(options@));
        }
        while out.len() < 8
            invariant
                ext_bytes(options@).len() <= out@.len() <= 8,
                out@.subrange(0, ext_bytes(options@).len() as int) == ext_bytes(options@),
                forall|j: int|
                    ext_bytes(options@).len() <= j < out@.len() ==> out@[j] == 0u8,
            decreases 8 - out@.len(),
        {
            proof {
                assert(out@.push(0u8).subrange(0, ext_bytes(options@).len() as int)
                    =~= out@.subrange(0, ext_bytes(options@).len() as int));
            }
            out.push(0);
        }
        proof {
            assert(out@ =~= ext_padded(options@));
        }
        Ok(out)
    }
}

/// What decoding a run of extension bytes yields: the options up to the
/// first zero byte (or the end), or the error that stops the decoder.
pub open spec fn decode_spec(bytes: Seq<u8>) -> Result<Seq<ExtOption>, Error>
    decreases bytes.len(),
{
    if bytes.len() == 0 {
        Ok(Seq::empty())
    } else if bytes[0] == 0 {
        Ok(Seq::empty())
    } else if bytes[0] == 0x80 {
        match decode_spec(bytes.skip(1)) {
            Ok(rest) => Ok(seq![ExtOption::Idr] + rest),
            Err(e) => Err(e),
        }
    } else if bytes[0] == 0x83 {
        match decode_spec(bytes.skip(1)) {
            Ok(rest) => Ok(seq![ExtOption::ForceDecoding] + rest),
            Err(e) => Err(e),
        }
    } else if bytes[0] == 0x84 {
        match decode_spec(bytes.skip(1)) {
            Ok(rest) => Ok(seq![ExtOption::UnsetForceFlag] + rest),
            Err(e) => Err(e),
        }
    } else if bytes[0] == 0x81 {
        if bytes.len() < 2 {
            Err(Error::ExtHeaderParam { instr: 0x81 })
        } else {
            match decode_spec(bytes.skip(2)) {
                Ok(rest) => Ok(seq![ExtOption::Unimplemented(bytes[1])] + rest),
                Err(e) => Err(e),
            }
        }
    } else if bytes[0] == 0x82 {
        if bytes.len() < 2 {
            Err(Error::ExtHeaderParam { instr: 0x82 })
        } else {
            match FrameRate::spec_of_byte(bytes[1]) {
                Some(f) => match decode_spec(bytes.skip(2)) {
                    Ok(rest) => Ok(seq![ExtOption::FrameRate(f)] + rest),
                    Err(e) => Err(e),
                },
                None => Err(Error::InvalidFramerate { value: bytes[1] }),
            }
        }
    } else if bytes[0] == 0x85 {
        if bytes.len() < 2 {
            Err(Error::ExtHeaderParam { instr: 0x85 })
        } else {
            match decode_spec(bytes.skip(2)) {
                Ok(rest) => Ok(seq![ExtOption::NumMbRowsInChunk(bytes[1])] + rest),
                Err(e) => Err(e),
            }
        }
    } else {
        Err(Error::ExtHeaderValue { value: bytes[0] })
    }
}

impl ExtOption {
    /// Decode the 8 extension bytes of a header. Exactly 8 bytes are
    /// accepted; decoding stops at the first zero byte.
    pub fn decode(value: &[u8]) -> (r: Result<Vec<ExtOption>, Error>)
        ensures
            value@.len() != 8 ==> r == Err::<Vec<ExtOption>, Error>(Error::ExtHeaderLength {
                length: value@.len() as usize,
            }),
            value@.len() == 8 ==> match r {
                Ok(v) => decode_spec(value@) == Ok::<Seq<ExtOption>, Error>(v@),
                Err(e) => decode_spec(value@) == Err::<Seq<ExtOption>, Error>(e),
            },
    {
        let n = value.len();
        if n != 8 {
            return Err(Error::ExtHeaderLength { length: n });
        }
        let mut options: Vec<ExtOption> = Vec::new();
        let mut i: usize = 0;
        proof {
            assert(value@.skip(0) =~= value@);
            match decode_spec(value@) {
                Ok(rest) => {
                    assert(Seq::<ExtOption>::empty() + rest =~= rest);
                },
                Err(e) => {},
            }
        }
        while i < n
            invariant
                i <= n,
                n == 8,
                value@.len() == 8,
                decode_spec(value@.skip(i as int)) matches Ok(rest) ==> decode_spec(value@)
                    == Ok::<Seq<ExtOption>, Error>(options@ + rest),
                decode_spec(value@.skip(i as int)) matches Err(e) ==> decode_spec(value@)
                    == Err::<Seq<ExtOption>, Error>(e),
            decreases n - i,
        {
            let byte = value[i];
            proof {
                assert(value@.skip(i as int)[0] == value@[i as int]);
            }
            if byte == 0 {
                proof {
                    assert(options@ + Seq::<ExtOption>::empty() =~= options@);
                }
                return Ok(options);
            }
            let (opt, step): (ExtOption, usize) = if byte == 0x80 {
                (ExtOption::Idr, 1)
            } else if byte == 0x83 {
                (ExtOption::ForceDecoding, 1)
            } else if byte == 0x84 {
                (ExtOption::UnsetForceFlag, 1)
            } else if byte == 0x81 || byte == 0x82 || byte == 0x85 {
                if i + 1 >= n {
                    return Err(Error::ExtHeaderParam { instr: byte });
                }
                let param = value[i + 1];
                proof {
                    assert(value@.skip(i as int)[1] == value@[i as int + 1]);
                }
                if byte == 0x81 {
                    (ExtOption::Unimplemented(param), 2)
                } else if byte == 0x85 {
                    (ExtOption::NumMbRowsInChunk(param), 2)
                } else {
                    match FrameRate::try_from(param) {
                        Ok(f) => (ExtOption::FrameRate(f), 2),
                        Err(e) => {
                            return Err(e);
                        },
                    }
                }
            } else {
                return Err(Error::ExtHeaderValue { value: byte });
            };
            proof {
                assert(value@.skip(i as int).skip(step as int) =~= value@.skip(
                    i as int + step as int,
                ));
                match decode_spec(value@.skip(i as int + step as int)) {
                    Ok(rest) => {
                        assert(options@ + (seq![opt] + rest) =~= options@.push(opt) + rest);
                    },
                    Err(e) => {},
                }
            }
            options.push(opt);
            i = i + step;
        }
        proof {
            assert(value@.skip(8) =~= Seq::<u8>::empty());
            assert(options@ + Seq::<ExtOption>::empty() =~= options@);
        }
        Ok(options)
    }
}

/// Zero bytes decode to nothing; appended after an encoded option list
/// they leave the decoded options unchanged.
proof fn lemma_decode_encode_padded(opts: Seq<ExtOption>, k: nat)
    ensures
        decode_spec(ext_bytes(opts) + Seq::new(k, |i: int| 0u8)) == Ok::<Seq<ExtOption>, Error>(
            opts,
        ),
    decreases opts.len(),
{
    let zeros = Seq::new(k, |i: int| 0u8);
    if opts.len() == 0 {
        assert(ext_bytes(opts) + zeros =~= zeros);
        if k == 0 {
            assert(decode_spec(zeros) == Ok::<Seq<ExtOption>, Error>(Seq::empty()));
        } else {
            assert(zeros[0] == 0);
        }
        assert(opts =~= Seq::<ExtOption>::empty());
    } else {
        let head = opts[0];
        let bytes = ext_bytes(opts) + zeros;
        let hb = opt_bytes(head);
        lemma_decode_encode_padded(opts.skip(1), k);
        assert(bytes[0] == hb[0]);
        assert(bytes.skip(hb.len() as int) =~= ext_bytes(opts.skip(1)) + zeros);
        if hb.len() == 2 {
            assert(bytes[1] == hb[1]);
        }
        match head {
            ExtOption::FrameRate(f) => {
                assert(FrameRate::spec_of_byte(f.spec_byte()) == Some(f));
            },
            _ => {},
        }
        assert(seq![head] + opts.skip(1) =~= opts);
    }
}

/// Extension encoding round-trips: decoding the 8 padded bytes of any
/// option list whose encoding fits in 8 bytes yields the same list.
pub proof fn lemma_ext_round_trip(opts: Seq<ExtOption>)
    requires
        ext_bytes(opts).len() <= 8,
    ensures
        decode_spec(ext_padded(opts)) == Ok::<Seq<ExtOption>, Error>(opts),
{
    lemma_decode_encode_padded(opts, (8 - ext_bytes(opts).len()) as nat);
}

/// Big-endian bytes of a 32-bit value.
pub open spec fn be32(x: u32) -> Seq<u8> {
    seq![
        (x as int / 0x1000000) as u8,
        ((x as int / 0x10000) % 0x100) as u8,
        ((x as int / 0x100) % 0x100) as u8,
        (x as int % 0x100) as u8,
    ]
}

/// The 16-byte VSTRM packet header.
#[derive(Debug, Clone)]
pub struct VstrmHeader {
    /// Always 0xF on the wire; byte 0, bits 7:4.
    pub magic: u8,
    /// 0 for data packets; byte 0, bits 3:2.
    pub packet_type: u8,
    /// 10-bit packet counter, wraps at 1024; byte 0 bits 1:0 and byte 1.
    pub seq_id: u16,
    /// Set only on the very first frame of a connection; byte 2 bit 7.
    pub init: bool,
    /// Set on the first packet of a frame; byte 2 bit 6.
    pub frame_begin: bool,
    /// Set on the last fragment of each chunk; byte 2 bit 5.
    pub chunk_end: bool,
    /// Set on the last packet of a frame; byte 2 bit 4.
    pub frame_end: bool,
    /// Always set; byte 2 bit 3.
    pub has_timestamp: bool,
    /// 11-bit body length; byte 2 bits 2:0 and byte 3.
    pub payload_size: u16,
    /// Low 32 bits of the TSF clock, big-endian in bytes 4..8.
    pub timestamp: u32,
    /// Extension options, encoded into bytes 8..16.
    pub ext_headers: Vec<ExtOption>,
}

impl VstrmHeader {
    /// Byte 0: magic, packet type, and the two high bits of the seq id.
    pub open spec fn spec_byte0(self) -> u8 {
        (((self.magic as int % 16) * 16) + ((self.packet_type as int % 4) * 4) + ((
        self.seq_id as int / 256) % 4)) as u8
    }

    /// Byte 2: the five flags and the three high bits of the payload size.
    pub open spec fn spec_byte2(self) -> u8 {
        ((if self.init {
            128int
        } else {
            0int
        }) + (if self.frame_begin {
            64int
        } else {
            0int
        }) + (if self.chunk_end {
            32int
        } else {
            0int
        }) + (if self.frame_end {
            16int
        } else {
            0int
        }) + (if self.has_timestamp {
            8int
        } else {
            0int
        }) + ((self.payload_size as int / 256) % 8)) as u8
    }

    /// The 16 wire bytes of the header. Meaningful only when the extension
    /// options encode to at most 8 bytes.
    pub open spec fn spec_bytes(self) -> Seq<u8> {
        seq![
            self.spec_byte0(),
            (self.seq_id as int % 256) as u8,
            self.spec_byte2(),
            (self.payload_size as int % 256) as u8,
        ] + be32(self.timestamp) + ext_padded(self.ext_headers@)
    }

    /// Serialize the header. Succeeds exactly when the extension options
    /// fit in their 8 bytes.
    pub fn into_bytes(self) -> (r: Result<Vec<u8>, Error>)
        ensures
            r is Ok <==> ext_bytes(self.ext_headers@).len() <= 8,
            r matches Ok(b) ==> b@ == self.spec_bytes() && b@.len() == 16,
            r matches Err(e) ==> e == (Error::ExtHeaderTooLong {
                length: ext_bytes(self.ext_headers@).len() as usize,
            }),
    {
        let ext = match ExtOption::encode(self.ext_headers.as_slice()) {
            Ok(ext) => ext,
            Err(e) => {
                return Err(e);
            },
        };
        let mut buffer: Vec<u8> = Vec::new();
        buffer.push(((self.magic % 16) * 16) + ((self.packet_type % 4) * 4) + (((self.seq_id / 256)
            % 4) as u8));
        buffer.push((self.seq_id % 256) as u8);
        buffer.push(
            (if self.init {
                128u8
            } else {
                0u8
            }) + (if self.frame_begin {
                64u8
            } else {
                0u8
            }) + (if self.chunk_end {
                32u8
            } else {
                0u8
            }) + (if self.frame_end {
                16u8
            } else {
                0u8
            }) + (if self.has_timestamp {
                8u8
            } else {
                0u8
            }) + (((self.payload_size / 256) % 8) as u8),
        );
        buffer.push((self.payload_size % 256) as u8);
        buffer.push((self.timestamp / 0x1000000) as u8);
        buffer.push(((self.timestamp / 0x10000) % 0x100) as u8);
        buffer.push(((self.timestamp / 0x100) % 0x100) as u8);
        buffer.push((self.timestamp % 0x100) as u8);
        let mut j: usize = 0;
        while j < ext.len()
            invariant
                j <= ext@.len(),
                buffer@.len() == 8 + j,
                buffer@ == seq![
                    self.spec_byte0(),
                    (self.seq_id % 256) as u8,
                    self.spec_byte2(),
                    (self.payload_size % 256) as u8,
                ] + be32(self.timestamp) + ext@.take(j as int),
            decreases ext@.len() - j,
        {
            buffer.push(ext[j]);
            proof {
                assert(ext@.take(j as int).push(ext@[j as int]) =~= ext@.take(j as int + 1));
            }
            j = j + 1;
        }
        proof {
            assert(ext@.take(ext@.len() as int) =~= ext@);
            assert(buffer@ =~= self.spec_bytes());
        }
        Ok(buffer)
    }
}

impl Default for VstrmHeader {
    /// A data-packet header: magic 0xF, packet type 0, `has_timestamp`
    /// set, all other flags clear, and the default extension options
    /// `ForceDecoding` and `NumMbRowsInChunk(6)`.
    fn default() -> (r: Self)
        ensures
            r.magic == 0xF,
            r.packet_type == 0,
            r.seq_id == 0,
            !r.init,
            !r.frame_begin,
            !r.chunk_end,
            !r.frame_end,
            r.has_timestamp,
            r.payload_size == 0,
            r.timestamp == 0,
            r.ext_headers@ == seq![ExtOption::ForceDecoding, ExtOption::NumMbRowsInChunk(6)],
    {
        let mut ext_headers: Vec<ExtOption> = Vec::new();
        ext_headers.push(ExtOption::ForceDecoding);
        ext_headers.push(ExtOption::NumMbRowsInChunk(6));
        proof {
            assert(ext_headers@ =~= seq![
                ExtOption::ForceDecoding,
                ExtOption::NumMbRowsInChunk(6),
            ]);
        }
        VstrmHeader {
            magic: 0xF,
            packet_type: 0,
            seq_id: 0,
            init: false,
            frame_begin: false,
            chunk_end: false,
            frame_end: false,
            has_timestamp: true,
            payload_size: 0,
            timestamp: 0,
            ext_headers,
        }
    }
}

/// Sequence id a 16-byte header's bytes carry.
pub open spec fn hdr_seq_id(bytes: Seq<u8>) -> int {
    (bytes[0] as int % 4) * 256 + bytes[1] as int
}

/// Payload size a header's bytes carry.
pub open spec fn hdr_payload_size(bytes: Seq<u8>) -> int {
    (bytes[2] as int % 8) * 256 + bytes[3] as int
}

/// The magic nibble of a header's bytes.
pub open spec fn hdr_magic(bytes: Seq<u8>) -> int {
    bytes[0] as int / 16
}

/// The packet type of a header's bytes.
pub open spec fn hdr_packet_type(bytes: Seq<u8>) -> int {
    (bytes[0] as int / 4) % 4
}

/// The `init` flag of a header's bytes.
pub open spec fn hdr_init(bytes: Seq<u8>) -> bool {
    (bytes[2] as int / 128) % 2 == 1
}

/// The `frame_begin` flag of a header's bytes.
pub open spec fn hdr_frame_begin(bytes: Seq<u8>) -> bool {
    (bytes[2] as int / 64) % 2 == 1
}

/// The `chunk_end` flag of a header's bytes.
pub open spec fn hdr_chunk_end(bytes: Seq<u8>) -> bool {
    (bytes[2] as int / 32) % 2 == 1
}

/// The `frame_end` flag of a header's bytes.
pub open spec fn hdr_frame_end(bytes: Seq<u8>) -> bool {
    (bytes[2] as int / 16) % 2 == 1
}

/// The `has_timestamp` flag of a header's bytes.
pub open spec fn hdr_has_timestamp(bytes: Seq<u8>) -> bool {
    (bytes[2] as int / 8) % 2 == 1
}

/// The timestamp of a header's bytes.
pub open spec fn hdr_timestamp(bytes: Seq<u8>) -> int {
    bytes[4] as int * 0x1000000 + bytes[5] as int * 0x10000 + bytes[6] as int * 0x100
        + bytes[7] as int
}

/// The extension bytes of a header's bytes.
pub open spec fn hdr_ext(bytes: Seq<u8>) -> Seq<u8> {
    bytes.subrange(8, 16)
}

/// The 16 wire bytes of a data-packet header: magic 0xF, packet type 0,
/// `has_timestamp` set.
pub open spec fn data_header_bytes(
    seq_id: u16,
    init: bool,
    frame_begin: bool,
    chunk_end: bool,
    frame_end: bool,
    payload_size: u16,
    timestamp: u32,
    exts: Seq<ExtOption>,
) -> Seq<u8> {
    seq![
        (240 + (seq_id as int / 256) % 4) as u8,
        (seq_id as int % 256) as u8,
        ((if init {
            128int
        } else {
            0int
        }) + (if frame_begin {
            64int
        } else {
            0int
        }) + (if chunk_end {
            32int
        } else {
            0int
        }) + (if frame_end {
            16int
        } else {
            0int
        }) + 8 + ((payload_size as int / 256) % 8)) as u8,
        (payload_size as int % 256) as u8,
    ] + be32(timestamp) + ext_padded(exts)
}

/// Each field of a well-formed data-packet header is recovered from its
/// wire bytes.
pub proof fn lemma_data_header_fields(
    seq_id: u16,
    init: bool,
    frame_begin: bool,
    chunk_end: bool,
    frame_end: bool,
    payload_size: u16,
    timestamp: u32,
    exts: Seq<ExtOption>,
)
    requires
        seq_id < 1024,
        payload_size < 2048,
        ext_bytes(exts).len() <= 8,
    ensures
        ({
            let bytes = data_header_bytes(
                seq_id,
                init,
                frame_begin,
                chunk_end,
                frame_end,
                payload_size,
                timestamp,
                exts,
            );
            &&& bytes.len() == 16
            &&& hdr_magic(bytes) == 0xF
            &&& hdr_packet_type(bytes) == 0
            &&& hdr_seq_id(bytes) == seq_id
            &&& hdr_payload_size(bytes) == payload_size
            &&& hdr_init(bytes) == init
            &&& hdr_frame_begin(bytes) == frame_begin
            &&& hdr_chunk_end(bytes) == chunk_end
            &&& hdr_frame_end(bytes) == frame_end
            &&& hdr_has_timestamp(bytes)
            &&& hdr_timestamp(bytes) == timestamp
            &&& hdr_ext(bytes) == ext_padded(exts)
        }),
{
    let bytes = data_header_bytes(
        seq_id,
        init,
        frame_begin,
        chunk_end,
        frame_end,
        payload_size,
        timestamp,
        exts,
    );
    let s = seq_id;
    let p = payload_size;
    let t = timestamp;
    let shi: u8 = ((s as int / 256) % 4) as u8;
    let phi: u8 = ((p as int / 256) % 8) as u8;
    let i: u8 = if init {
        1
    } else {
        0
    };
    let fb: u8 = if frame_begin {
        1
    } else {
        0
    };
    let ce: u8 = if chunk_end {
        1
    } else {
        0
    };
    let fe: u8 = if frame_end {
        1
    } else {
        0
    };
    assert(bytes[0] == 240 + shi);
    assert(bytes[1] == (s as int % 256) as u8);
    assert(bytes[2] == i * 128 + fb * 64 + ce * 32 + fe * 16 + 8 + phi);
    assert(bytes[3] == (p as int % 256) as u8);
    assert((240 + shi) / 16 == 15 && ((240 + shi) / 4) % 4 == 0 && (240 + shi) % 4 == shi)
        by (bit_vector)
        requires
            shi < 4,
    ;
    assert(shi * 256 + (s % 256) == s) by (bit_vector)
        requires
            shi == (s / 256) % 4,
            s < 1024,
    ;
    let b2: u8 = (i * 128 + fb * 64 + ce * 32 + fe * 16 + 8 + phi) as u8;
    assert((b2 / 128) % 2 == i && (b2 / 64) % 2 == fb && (b2 / 32) % 2 == ce && (b2 / 16) % 2 == fe
        && (b2 / 8) % 2 == 1 && b2 % 8 == phi) by (bit_vector)
        requires
            b2 == i * 128 + fb * 64 + ce * 32 + fe * 16 + 8 + phi,
            i < 2,
            fb < 2,
            ce < 2,
            fe < 2,
            phi < 8,
    ;
    assert(phi * 256 + (p % 256) == p) by (bit_vector)
        requires
            phi == (p / 256) % 8,
            p < 2048,
    ;
    assert((t / 0x1000000) * 0x1000000 + ((t / 0x10000) % 0x100) * 0x10000 + ((t / 0x100) % 0x100)
        * 0x100 + (t % 0x100) == t) by (bit_vector);
    assert(bytes[4] == (t as int / 0x1000000) as u8);
    assert(hdr_ext(bytes) =~= ext_padded(exts));
}

} // verus!
