//! The generic sub-protocol nested inside command payloads: a 12-byte
//! big-endian header under magic 0x7E, then the inner payload. The one
//! command spoken here is `GetUicFirmware`.

use crate::cmd::data::{be16, command_packet_bytes};
use vstd::prelude::*;

verus! {

/// The 12-byte header of a generic sub-protocol frame.
#[derive(Debug, Copy, Clone, PartialEq, Eq)]
pub struct GenericCommandHeader {
    /// Always 0x7E.
    pub magic: u8,
    /// Always 0x01.
    pub version: u8,
    /// Fixed 3-byte id `[0, 8, 0]`.
    pub id: [u8; 3],
    /// Always 0x40.
    pub flags: u8,
    pub service_id: u8,
    pub method_id: u8,
    pub error_code: u16,
    pub payload_size: u16,
}

impl GenericCommandHeader {
    /// The 12 wire bytes of the header, 16-bit fields big-endian.
    pub open spec fn spec_bytes(self) -> Seq<u8> {
        seq![self.magic, self.version, self.id@[0], self.id@[1], self.id@[2], self.flags,
            self.service_id, self.method_id] + be16(self.error_code) + be16(self.payload_size)
    }

    /// The header a request or response frame carries for this service,
    /// method and inner payload size.
    pub open spec fn frame_header(service_id: u8, method_id: u8, payload_size: u16)
        -> GenericCommandHeader {
        GenericCommandHeader {
            magic: 0x7E,
            version: 0x01,
            id: [0, 8, 0],
            flags: 0x40,
            service_id,
            method_id,
            error_code: 0,
            payload_size,
        }
    }

    /// Serialize the header.
    pub fn to_bytes(&self) -> (r: Vec<u8>)
        ensures
            r@ == self.spec_bytes(),
            r@.len() == 12,
    {
        let mut out: Vec<u8> = Vec::new();
        out.push(self.magic);
        out.push(self.version);
        out.push(self.id[0]);
        out.push(self.id[1]);
        out.push(self.id[2]);
        out.push(self.flags);
        out.push(self.service_id);
        out.push(self.method_id);
        out.push((self.error_code / 0x100) as u8);
        out.push((self.error_code % 0x100) as u8);
        out.push((self.payload_size / 0x100) as u8);
        out.push((self.payload_size % 0x100) as u8);
        proof {
            assert(out@ =~= self.spec_bytes());
        }
        out
    }
}

/// A whole generic frame: the header for this service and method, then
/// the inner payload.
pub open spec fn generic_frame_bytes(service_id: u8, method_id: u8, payload: Seq<u8>) -> Seq<u8> {
    GenericCommandHeader::frame_header(service_id, method_id, payload.len() as u16).spec_bytes()
        + payload
}

/// Build one generic frame around an inner payload.
pub fn generic_frame(service_id: u8, method_id: u8, payload: &Vec<u8>) -> (r: Vec<u8>)
    requires
        payload@.len() <= 0xFFFF,
    ensures
        r@ == generic_frame_bytes(service_id, method_id, payload@),
        r@.len() == 12 + payload@.len(),
{
    let header = GenericCommandHeader {
        magic: 0x7E,
        version: 0x01,
        id: [0, 8, 0],
        flags: 0x40,
        service_id,
        method_id,
        error_code: 0,
        payload_size: payload.len() as u16,
    };
    let mut out = header.to_bytes();
    proof {
        assert(header == GenericCommandHeader::frame_header(
            service_id,
            method_id,
            payload@.len() as u16,
        ));
    }
    let mut j: usize = 0;
    while j < payload.len()
        invariant
            j <= payload@.len(),
            out@ == header.spec_bytes() + payload@.take(j as int),
        decreases payload@.len() - j,
    {
        out.push(payload[j]);
        proof {
            assert(out@ =~= header.spec_bytes() + payload@.take(j as int + 1));
        }
        j = j + 1;
    }
    proof {
        assert(payload@.take(payload@.len() as int) =~= payload@);
    }
    out
}

/// The query that fetches the UIC firmware blob: service 5, method 6,
/// empty inner payload, 772-byte response blob.
pub struct GetUicFirmware;

impl GetUicFirmware {
    /// Service id of the UIC firmware query.
    pub fn service_id(&self) -> (r: u8)
        ensures
            r == 5,
    {
        0x05
    }

    /// Method id of the UIC firmware query.
    pub fn method_id(&self) -> (r: u8)
        ensures
            r == 6,
    {
        0x06
    }

    /// The query carries no inner payload.
    pub fn generic_payload_size(&self) -> (r: usize)
        ensures
            r == 0,
    {
        0
    }

    /// The whole request datagram under command sequence id `seq_id`:
    /// a command header of packet type 0 and query type 0 around the
    /// 12-byte generic frame.
    pub fn request_bytes(&self, seq_id: u16) -> (r: Vec<u8>)
        ensures
            r@ == command_packet_bytes(
                0,
                0,
                seq_id,
                generic_frame_bytes(5, 6, Seq::<u8>::empty()),
            ),
            r@.len() == 20,
    {
        let empty: Vec<u8> = Vec::new();
        let frame = generic_frame(0x05, 0x06, &empty);
        let r = crate::cmd::data::command_packet(0, 0, seq_id, &frame);
        proof {
            assert(empty@ =~= Seq::<u8>::empty());
        }
        r
    }

    /// Read the firmware blob out of a response payload: a 12-byte
    /// generic header followed by the 772-byte blob. Any other length
    /// is refused.
    pub fn parse_response(&self, payload: &Vec<u8>) -> (r: Option<Vec<u8>>)
        ensures
            payload@.len() == 784 ==> (r matches Some(b) && b@ == payload@.skip(12)),
            payload@.len() != 784 ==> r is None,
    {
        if payload.len() != 784 {
            return None;
        }
        let mut blob: Vec<u8> = Vec::new();
        let mut j: usize = 12;
        while j < payload.len()
            invariant
                12 <= j <= payload@.len(),
                blob@ == payload@.subrange(12, j as int),
            decreases payload@.len() - j,
        {
            blob.push(payload[j]);
            proof {
                assert(payload@.subrange(12, j as int).push(payload@[j as int]) =~= payload
                    @.subrange(12, j as int + 1));
            }
            j = j + 1;
        }
        proof {
            assert(blob@ =~= payload@.skip(12));
        }
        Some(blob)
    }
}

} // verus!
