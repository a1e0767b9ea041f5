//! Host-side streaming core for the Wii U GamePad (DRC) wireless protocol.
//!
//! The library holds the verified logic of the stack: the VSTRM wire format
//! with its extension options, chunk fragmentation and packetization, the
//! video streamer's pacing and sequencing state, the audio packet builder,
//! the command request/ACK/response dialog, and the input report layout.
//! Sockets, clocks and the H.264 encoder live outside, and hand these
//! functions plain values.

pub mod cmd;
pub mod input;
pub mod video;
