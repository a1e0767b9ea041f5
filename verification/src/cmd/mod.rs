//! The command channel: a duplex request/ACK/response/ACK dialog over
//! UDP with 16-bit sequence ids. The session state machine here decides
//! every step; the caller owns the socket, feeds received datagrams and
//! timeout ticks in, and sends the bytes the session hands out.

pub mod data;
pub mod generic;

use crate::cmd::data::{command_packet, command_packet_bytes, CommandHeader};
use vstd::prelude::*;

verus! {

/// Errors of the command channel.
#[derive(Debug, Copy, Clone, PartialEq, Eq, Structural)]
pub enum Error {
    /// A UDP socket could not be opened or connected.
    Connecting,
    /// A datagram could not be sent.
    Send,
    /// The receive loop died on a socket error.
    Receive,
    /// A datagram shorter than a command header.
    Incomplete,
    /// The first matching reply was not an ACK.
    AckExpected,
    /// The second matching reply was not a response.
    ResponseExpected,
    /// A matching datagram whose `payload_size` or payload length is
    /// wrong.
    PayloadLength,
    /// Ten timeout windows passed without a matching reply.
    Timeout,
}

/// Where a command session stands.
#[derive(Debug, Copy, Clone, PartialEq, Eq, Structural)]
pub enum CmdPhase {
    /// The request is out; the first matching reply must be an ACK.
    AwaitAck,
    /// The ACK came; the next matching reply must be the response.
    AwaitResponse,
    /// The response came; the session is over.
    Done,
    /// The session failed; nothing more is accepted.
    Failed,
}

/// Packet type a datagram carries, from its little-endian header.
pub open spec fn dgram_packet_type(d: Seq<u8>) -> int {
    d[0] + d[1] * 0x100
}

/// Sequence id a datagram carries.
pub open spec fn dgram_seq_id(d: Seq<u8>) -> int {
    d[6] + d[7] * 0x100
}

/// Whether a datagram's `payload_size` field counts its bytes after the
/// header.
pub open spec fn dgram_size_ok(d: Seq<u8>) -> bool {
    d[4] + d[5] * 0x100 == d.len() - 8
}

/// A well-formed ACK of the request with sequence id `s`: packet type 1,
/// empty payload.
pub open spec fn is_ack_for(d: Seq<u8>, s: u16) -> bool {
    &&& d.len() == 8
    &&& dgram_packet_type(d) == 1
    &&& dgram_seq_id(d) == s
    &&& dgram_size_ok(d)
}

/// A well-formed response to the request with sequence id `s`: packet
/// type 2, sizes consistent.
pub open spec fn is_response_for(d: Seq<u8>, s: u16) -> bool {
    &&& d.len() >= 8
    &&& dgram_packet_type(d) == 2
    &&& dgram_seq_id(d) == s
    &&& dgram_size_ok(d)
}

/// The phase a datagram moves a session with sequence id `s` to.
/// Datagrams with another sequence id are ignored; a short datagram, a
/// size mismatch or a wrong packet type fails the session; `Done` and
/// `Failed` absorb.
pub open spec fn step_phase(phase: CmdPhase, s: u16, d: Seq<u8>) -> CmdPhase {
    match phase {
        CmdPhase::AwaitAck => {
            if d.len() < 8 {
                CmdPhase::Failed
            } else if dgram_seq_id(d) != s {
                CmdPhase::AwaitAck
            } else if !dgram_size_ok(d) {
                CmdPhase::Failed
            } else if dgram_packet_type(d) != 1 {
                CmdPhase::Failed
            } else if d.len() != 8 {
                CmdPhase::Failed
            } else {
                CmdPhase::AwaitResponse
            }
        },
        CmdPhase::AwaitResponse => {
            if d.len() < 8 {
                CmdPhase::Failed
            } else if dgram_seq_id(d) != s {
                CmdPhase::AwaitResponse
            } else if !dgram_size_ok(d) {
                CmdPhase::Failed
            } else if dgram_packet_type(d) != 2 {
                CmdPhase::Failed
            } else {
                CmdPhase::Done
            }
        },
        CmdPhase::Done => CmdPhase::Done,
        CmdPhase::Failed => CmdPhase::Failed,
    }
}

/// The phase a session reaches after seeing a whole trace of datagrams.
pub open spec fn run_phases(phase: CmdPhase, s: u16, trace: Seq<Seq<u8>>) -> CmdPhase
    decreases trace.len(),
{
    if trace.len() == 0 {
        phase
    } else {
        run_phases(step_phase(phase, s, trace[0]), s, trace.skip(1))
    }
}

/// What a session hands back for one datagram.
#[derive(Debug, PartialEq, Eq)]
pub enum CmdStatus {
    /// The datagram was ignored or was the ACK; keep feeding.
    Waiting,
    /// The response arrived; its payload bytes. The caller now sends
    /// the session's ACK, once.
    Responded(Vec<u8>),
}

/// One in-flight command: its sequence id, its query type, where the
/// dialog stands, and how many timeout windows passed since the last
/// datagram.
pub struct CmdSession {
    pub seq_id: u16,
    pub query_type: u16,
    pub phase: CmdPhase,
    pub retries: u8,
}

impl CmdSession {
    /// A session is live while it still waits for a reply.
    pub open spec fn is_active(self) -> bool {
        self.phase == CmdPhase::AwaitAck || self.phase == CmdPhase::AwaitResponse
    }

    /// A fresh session for a request just sent under `seq_id`.
    pub fn new(seq_id: u16, query_type: u16) -> (r: Self)
        ensures
            r.seq_id == seq_id,
            r.query_type == query_type,
            r.phase == CmdPhase::AwaitAck,
            r.retries == 0,
    {
        CmdSession { seq_id, query_type, phase: CmdPhase::AwaitAck, retries: 0 }
    }

    /// Feed one received datagram to the session. Datagrams whose
    /// sequence id is not the session's are ignored. A matching reply
    /// advances the dialog: first the ACK, then the response, whose
    /// payload comes back in `Responded`. Any malformed or out-of-order
    /// reply fails the session with the exact error. Every datagram
    /// resets the timeout count.
    pub fn on_datagram(&mut self, d: &Vec<u8>) -> (r: Result<CmdStatus, Error>)
        requires
            old(self).is_active(),
        ensures
            final(self).seq_id == old(self).seq_id,
            final(self).query_type == old(self).query_type,
            final(self).retries == 0,
            final(self).phase == step_phase(old(self).phase, old(self).seq_id, d@),
            final(self).phase == CmdPhase::Done ==> (r matches Ok(st) && st matches
                CmdStatus::Responded(p) && p@ == d@.skip(8)),
            final(self).phase == CmdPhase::AwaitAck || final(self).phase
                == CmdPhase::AwaitResponse ==> r == Ok::<CmdStatus, Error>(CmdStatus::Waiting),
            final(self).phase == CmdPhase::Failed ==> (r matches Err(e) && e == (if d@.len() < 8 {
                Error::Incomplete
            } else if !dgram_size_ok(d@) {
                Error::PayloadLength
            } else if old(self).phase == CmdPhase::AwaitAck && dgram_packet_type(d@) != 1 {
                Error::AckExpected
            } else if old(self).phase == CmdPhase::AwaitAck {
                Error::PayloadLength
            } else {
                Error::ResponseExpected
            })),
    {
        self.retries = 0;
        let header = match CommandHeader::parse(d.as_slice()) {
            Some(h) => h,
            None => {
                self.phase = CmdPhase::Failed;
                return Err(Error::Incomplete);
            },
        };
        if header.seq_id != self.seq_id {
            return Ok(CmdStatus::Waiting);
        }
        if header.payload_size as usize != d.len() - 8 {
            self.phase = CmdPhase::Failed;
            return Err(Error::PayloadLength);
        }
        match self.phase {
            CmdPhase::AwaitAck => {
                if header.packet_type != 1 {
                    self.phase = CmdPhase::Failed;
                    return Err(Error::AckExpected);
                }
                if d.len() != 8 {
                    self.phase = CmdPhase::Failed;
                    return Err(Error::PayloadLength);
                }
                self.phase = CmdPhase::AwaitResponse;
                Ok(CmdStatus::Waiting)
            },
            CmdPhase::AwaitResponse => {
                if header.packet_type != 2 {
                    self.phase = CmdPhase::Failed;
                    return Err(Error::ResponseExpected);
                }
                self.phase = CmdPhase::Done;
                let mut payload: Vec<u8> = Vec::new();
                let mut j: usize = 8;
                while j < d.len()
                    invariant
                        8 <= j <= d@.len(),
                        payload@ == d@.subrange(8, j as int),
                    decreases d@.len() - j,
                {
                    payload.push(d[j]);
                    proof {
                        assert(d@.subrange(8, j as int).push(d@[j as int]) =~= d@.subrange(
                            8,
                            j as int + 1,
                        ));
                    }
                    j = j + 1;
                }
                proof {
                    assert(payload@ =~= d@.skip(8));
                }
                Ok(CmdStatus::Responded(payload))
            },
            CmdPhase::Done => Ok(CmdStatus::Waiting),
            CmdPhase::Failed => Ok(CmdStatus::Waiting),
        }
    }

    /// One timeout window passed without any datagram. The tenth in a
    /// row fails the session with `Timeout`.
    pub fn on_timeout(&mut self) -> (r: Result<(), Error>)
        requires
            old(self).is_active(),
        ensures
            final(self).seq_id == old(self).seq_id,
            final(self).query_type == old(self).query_type,
            old(self).retries < 9 ==> r == Ok::<(), Error>(()) && final(self).phase == old(
                self,
            ).phase && final(self).retries == old(self).retries + 1,
            old(self).retries >= 9 ==> (r matches Err(e) && e == Error::Timeout
                && final(self).phase == CmdPhase::Failed),
    {
        if self.retries >= 9 {
            self.phase = CmdPhase::Failed;
            return Err(Error::Timeout);
        }
        self.retries = self.retries + 1;
        Ok(())
    }

    /// The 8-byte ACK the caller sends after `Responded`: packet type 3,
    /// the session's query type and sequence id, empty payload.
    pub fn ack_bytes(&self) -> (r: Vec<u8>)
        ensures
            r@ == command_packet_bytes(3, self.query_type, self.seq_id, Seq::<u8>::empty()),
            r@.len() == 8,
    {
        let empty: Vec<u8> = Vec::new();
        let r = command_packet(3, self.query_type, self.seq_id, &empty);
        proof {
            assert(command_packet_bytes(3, self.query_type, self.seq_id, empty@) =~= r@);
        }
        r
    }

    /// The datagram that opens a session: packet type 0, the query type
    /// and payload of the command, the session's sequence id.
    pub fn request_bytes(query_type: u16, seq_id: u16, payload: &Vec<u8>) -> (r: Vec<u8>)
        requires
            payload@.len() <= 0xFFFF,
        ensures
            r@ == command_packet_bytes(0, query_type, seq_id, payload@),
    {
        command_packet(0, query_type, seq_id, payload)
    }
}

/// The sequence id after `seq_id` on the channel's 16-bit counter,
/// which wraps naturally.
pub fn next_command_seq(seq_id: u16) -> (r: u16)
    ensures
        r == (seq_id + 1) % 0x10000,
{
    if seq_id == 0xFFFF {
        assert((0xFFFFint + 1) % 0x10000 == 0);
        0
    } else {
        seq_id + 1
    }
}

/// A session completes only after seeing, in order, a well-formed ACK
/// and then a well-formed response, both with its sequence id; datagrams
/// with other sequence ids never move it.
pub proof fn lemma_done_saw_ack_then_response(s: u16, trace: Seq<Seq<u8>>)
    requires
        run_phases(CmdPhase::AwaitAck, s, trace) == CmdPhase::Done,
    ensures
        exists|i: int, j: int|
            0 <= i < j < trace.len() && is_ack_for(#[trigger] trace[i], s) && is_response_for(
                #[trigger] trace[j],
                s,
            ),
    decreases trace.len(),
{
    let first = trace[0];
    let next = step_phase(CmdPhase::AwaitAck, s, first);
    if next == CmdPhase::AwaitAck {
        lemma_done_saw_ack_then_response(s, trace.skip(1));
        let (i0, j0) = choose|i0: int, j0: int|
            0 <= i0 < j0 < trace.skip(1).len() && is_ack_for(#[trigger] trace.skip(1)[i0], s)
                && is_response_for(#[trigger] trace.skip(1)[j0], s);
        assert(trace.skip(1)[i0] == trace[i0 + 1]);
        assert(trace.skip(1)[j0] == trace[j0 + 1]);
        assert(0 <= i0 + 1 < j0 + 1 < trace.len() && is_ack_for(trace[i0 + 1], s)
            && is_response_for(trace[j0 + 1], s));
    } else if next == CmdPhase::Failed {
        lemma_failed_stays_failed(s, trace.skip(1));
    } else {
        assert(next == CmdPhase::AwaitResponse);
        assert(is_ack_for(first, s));
        lemma_response_reached(s, trace.skip(1));
        let j0 = choose|j0: int|
            0 <= j0 < trace.skip(1).len() && is_response_for(#[trigger] trace.skip(1)[j0], s);
        assert(trace.skip(1)[j0] == trace[j0 + 1]);
        assert(0 <= 0 < j0 + 1 < trace.len() && is_ack_for(trace[0], s) && is_response_for(
            trace[j0 + 1],
            s,
        ));
    }
}

/// From the response wait, completion takes a well-formed response with
/// the session's sequence id.
proof fn lemma_response_reached(s: u16, trace: Seq<Seq<u8>>)
    requires
        run_phases(CmdPhase::AwaitResponse, s, trace) == CmdPhase::Done,
    ensures
        exists|j: int| 0 <= j < trace.len() && is_response_for(#[trigger] trace[j], s),
    decreases trace.len(),
{
    let first = trace[0];
    let next = step_phase(CmdPhase::AwaitResponse, s, first);
    if next == CmdPhase::AwaitResponse {
        lemma_response_reached(s, trace.skip(1));
        let j0 = choose|j0: int|
            0 <= j0 < trace.skip(1).len() && is_response_for(#[trigger] trace.skip(1)[j0], s);
        assert(trace.skip(1)[j0] == trace[j0 + 1]);
        assert(0 <= j0 + 1 < trace.len() && is_response_for(trace[j0 + 1], s));
    } else if next == CmdPhase::Failed {
        lemma_failed_stays_failed(s, trace.skip(1));
    } else {
        assert(next == CmdPhase::Done);
        assert(is_response_for(first, s));
        assert(0 <= 0 < trace.len() && is_response_for(trace[0], s));
    }
}

/// How many datagrams of a trace complete the session: each one is fed
/// in turn, and a completion is the step into `Done`.
pub open spec fn count_completions(phase: CmdPhase, s: u16, trace: Seq<Seq<u8>>) -> int
    decreases trace.len(),
{
    if trace.len() == 0 {
        0
    } else {
        (if step_phase(phase, s, trace[0]) == CmdPhase::Done && phase != CmdPhase::Done {
            1int
        } else {
            0int
        }) + count_completions(step_phase(phase, s, trace[0]), s, trace.skip(1))
    }
}

/// The session completes at most once, and exactly once when it ends
/// `Done`: so the caller, who sends the final ACK on completion, sends
/// it exactly once per successful command.
pub proof fn lemma_ack_sent_once(phase: CmdPhase, s: u16, trace: Seq<Seq<u8>>)
    requires
        phase != CmdPhase::Done,
    ensures
        count_completions(phase, s, trace) == (if run_phases(phase, s, trace) == CmdPhase::Done {
            1int
        } else {
            0int
        }),
    decreases trace.len(),
{
    if trace.len() > 0 {
        let next = step_phase(phase, s, trace[0]);
        if next == CmdPhase::Done {
            lemma_done_stays_done(s, trace.skip(1));
            lemma_no_completion_from_done(s, trace.skip(1));
        } else {
            lemma_ack_sent_once(next, s, trace.skip(1));
        }
    }
}

/// `Failed` absorbs: a failed session never recovers.
proof fn lemma_failed_stays_failed(s: u16, trace: Seq<Seq<u8>>)
    ensures
        run_phases(CmdPhase::Failed, s, trace) == CmdPhase::Failed,
    decreases trace.len(),
{
    if trace.len() > 0 {
        lemma_failed_stays_failed(s, trace.skip(1));
    }
}

/// `Done` absorbs: once complete, a session never leaves `Done`.
proof fn lemma_done_stays_done(s: u16, trace: Seq<Seq<u8>>)
    ensures
        run_phases(CmdPhase::Done, s, trace) == CmdPhase::Done,
    decreases trace.len(),
{
    if trace.len() > 0 {
        lemma_done_stays_done(s, trace.skip(1));
    }
}

proof fn lemma_no_completion_from_done(s: u16, trace: Seq<Seq<u8>>)
    ensures
        count_completions(CmdPhase::Done, s, trace) == 0,
    decreases trace.len(),
{
    if trace.len() > 0 {
        lemma_no_completion_from_done(s, trace.skip(1));
    }
}

} // verus!
