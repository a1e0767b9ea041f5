//! Command channel wire data: the 8-byte little-endian command header,
//! and the UVC/UAC camera/microphone control payload with its response.

use vstd::prelude::*;

verus! {

/// Little-endian bytes of a 16-bit value.
pub open spec fn le16(x: u16) -> Seq<u8> {
    seq![(x as int % 0x100) as u8, (x as int / 0x100) as u8]
}

/// Big-endian bytes of a 16-bit value.
pub open spec fn be16(x: u16) -> Seq<u8> {
    seq![(x as int / 0x100) as u8, (x as int % 0x100) as u8]
}

/// Big-endian bytes of a 32-bit value.
pub open spec fn be32(x: u32) -> Seq<u8> {
    crate::video::data::be32(x)
}

/// The 8-byte header of every command datagram, all fields little-endian:
/// 0 request, 1 ACK of a request, 2 response, 3 ACK of a response.
#[derive(Debug, Copy, Clone, PartialEq, Eq, Structural)]
pub struct CommandHeader {
    pub packet_type: u16,
    pub query_type: u16,
    pub payload_size: u16,
    pub seq_id: u16,
}

impl CommandHeader {
    /// The 8 wire bytes of the header.
    pub open spec fn spec_bytes(self) -> Seq<u8> {
        le16(self.packet_type) + le16(self.query_type) + le16(self.payload_size) + le16(self.seq_id)
    }

    /// The header held in the first 8 bytes of a datagram.
    pub open spec fn parse_spec(bytes: Seq<u8>) -> CommandHeader {
        CommandHeader {
            packet_type: (bytes[0] + bytes[1] * 0x100) as u16,
            query_type: (bytes[2] + bytes[3] * 0x100) as u16,
            payload_size: (bytes[4] + bytes[5] * 0x100) as u16,
            seq_id: (bytes[6] + bytes[7] * 0x100) as u16,
        }
    }

    /// Serialize the header.
    pub fn to_bytes(&self) -> (r: Vec<u8>)
        ensures
            r@ == self.spec_bytes(),
            r@.len() == 8,
    {
        let mut out: Vec<u8> = Vec::new();
        out.push((self.packet_type % 0x100) as u8);
        out.push((self.packet_type / 0x100) as u8);
        out.push((self.query_type % 0x100) as u8);
        out.push((self.query_type / 0x100) as u8);
        out.push((self.payload_size % 0x100) as u8);
        out.push((self.payload_size / 0x100) as u8);
        out.push((self.seq_id % 0x100) as u8);
        out.push((self.seq_id / 0x100) as u8);
        proof {
            assert(out@ =~= self.spec_bytes());
        }
        out
    }

    /// Read a header back from a datagram of at least 8 bytes.
    pub fn parse(bytes: &[u8]) -> (r: Option<CommandHeader>)
        ensures
            bytes@.len() >= 8 ==> r == Some(CommandHeader::parse_spec(bytes@)),
            bytes@.len() < 8 ==> r is None,
    {
        if bytes.len() < 8 {
            return None;
        }
        Some(
            CommandHeader {
                packet_type: bytes[0] as u16 + bytes[1] as u16 * 0x100,
                query_type: bytes[2] as u16 + bytes[3] as u16 * 0x100,
                payload_size: bytes[4] as u16 + bytes[5] as u16 * 0x100,
                seq_id: bytes[6] as u16 + bytes[7] as u16 * 0x100,
            },
        )
    }
}

/// Parsing a header's wire bytes yields the header back, whatever stands
/// after them.
pub proof fn lemma_command_header_round_trip(h: CommandHeader, rest: Seq<u8>)
    ensures
        CommandHeader::parse_spec(h.spec_bytes() + rest) == h,
{
    let bytes = h.spec_bytes() + rest;
    assert(bytes[0] == (h.packet_type as int % 0x100) as u8);
    assert(bytes[1] == (h.packet_type as int / 0x100) as u8);
    assert(bytes[2] == (h.query_type as int % 0x100) as u8);
    assert(bytes[3] == (h.query_type as int / 0x100) as u8);
    assert(bytes[4] == (h.payload_size as int % 0x100) as u8);
    assert(bytes[5] == (h.payload_size as int / 0x100) as u8);
    assert(bytes[6] == (h.seq_id as int % 0x100) as u8);
    assert(bytes[7] == (h.seq_id as int / 0x100) as u8);
    lemma_le16_round_trip(h.packet_type);
    lemma_le16_round_trip(h.query_type);
    lemma_le16_round_trip(h.payload_size);
    lemma_le16_round_trip(h.seq_id);
}

proof fn lemma_le16_round_trip(x: u16)
    ensures
        (x as int % 0x100) + (x as int / 0x100) * 0x100 == x,
{
    vstd::arithmetic::div_mod::lemma_fundamental_div_mod(x as int, 0x100);
}

/// One whole command datagram: a header whose `payload_size` counts the
/// payload bytes, then the payload.
pub open spec fn command_packet_bytes(
    packet_type: u16,
    query_type: u16,
    seq_id: u16,
    payload: Seq<u8>,
) -> Seq<u8> {
    (CommandHeader {
        packet_type,
        query_type,
        payload_size: payload.len() as u16,
        seq_id,
    }).spec_bytes() + payload
}

/// Build one command datagram around a payload.
pub fn command_packet(packet_type: u16, query_type: u16, seq_id: u16, payload: &Vec<u8>) -> (r:
    Vec<u8>)
    requires
        payload@.len() <= 0xFFFF,
    ensures
        r@ == command_packet_bytes(packet_type, query_type, seq_id, payload@),
        r@.len() == 8 + payload@.len(),
{
    let header = CommandHeader {
        packet_type,
        query_type,
        payload_size: payload.len() as u16,
        seq_id,
    };
    let mut out = header.to_bytes();
    let mut j: usize = 0;
    while j < payload.len()
        invariant
            j <= payload@.len(),
            out@ == header.spec_bytes() + payload@.take(j as int),
        decreases payload@.len() - j,
    {
        out.push(payload[j]);
        proof {
            assert(out@ =~= header.spec_bytes() + payload@.take(j as int + 1));
        }
        j = j + 1;
    }
    proof {
        assert(payload@.take(payload@.len() as int) =~= payload@);
    }
    out
}

/// The 48-byte UVC/UAC control payload, query type 1: camera and
/// microphone settings, multi-byte fields big-endian.
#[derive(Debug, Copy, Clone, PartialEq, Eq, Structural)]
pub struct UvcUacPayload {
    pub f1: u8,
    pub unknown0: u8,
    pub unknown1: u8,
    pub f3: u8,
    pub mic_enable: u8,
    pub mic_mute: u8,
    pub mic_volume: i16,
    pub mic_jack_volume: i16,
    pub unknown2: u8,
    pub unknown3: u8,
    pub mic_freq: u16,
    pub cam_enable: u8,
    pub cam_power: u8,
    pub cam_power_freq: u8,
    pub cam_auto_expo: u8,
    pub cam_expo_absolute: u32,
    pub cam_brightness: u16,
    pub cam_contrast: u16,
    pub cam_gain: u16,
    pub cam_hue: u16,
    pub cam_saturation: u16,
    pub cam_sharpness: u16,
    pub cam_gamma: u16,
    pub cam_key_frame: u8,
    pub cam_white_balance_auto: u8,
    pub cam_white_balance: u32,
    pub cam_multiplier: u16,
    pub cam_multiplier_limit: u16,
    pub unknown4: u8,
    pub unknown5: u8,
}

impl UvcUacPayload {
    /// The 48 wire bytes of the payload.
    pub open spec fn spec_bytes(self) -> Seq<u8> {
        seq![self.f1, self.unknown0, self.unknown1, self.f3, self.mic_enable, self.mic_mute]
            + be16(self.mic_volume as u16) + be16(self.mic_jack_volume as u16) + seq![
            self.unknown2,
            self.unknown3,
        ] + be16(self.mic_freq) + seq![
            self.cam_enable,
            self.cam_power,
            self.cam_power_freq,
            self.cam_auto_expo,
        ] + be32(self.cam_expo_absolute) + be16(self.cam_brightness) + be16(self.cam_contrast)
            + be16(self.cam_gain) + be16(self.cam_hue) + be16(self.cam_saturation) + be16(
            self.cam_sharpness,
        ) + be16(self.cam_gamma) + seq![self.cam_key_frame, self.cam_white_balance_auto] + be32(
            self.cam_white_balance,
        ) + be16(self.cam_multiplier) + be16(self.cam_multiplier_limit) + seq![
            self.unknown4,
            self.unknown5,
        ]
    }

    /// Serialize the payload.
    pub fn to_bytes(&self) -> (r: Vec<u8>)
        ensures
            r@ == self.spec_bytes(),
            r@.len() == 48,
    {
        let mut out: Vec<u8> = Vec::new();
        out.push(self.f1);
        out.push(self.unknown0);
        out.push(self.unknown1);
        out.push(self.f3);
        out.push(self.mic_enable);
        out.push(self.mic_mute);
        push_be16(&mut out, self.mic_volume as u16);
        push_be16(&mut out, self.mic_jack_volume as u16);
        out.push(self.unknown2);
        out.push(self.unknown3);
        push_be16(&mut out, self.mic_freq);
        out.push(self.cam_enable);
        out.push(self.cam_power);
        out.push(self.cam_power_freq);
        out.push(self.cam_auto_expo);
        push_be32(&mut out, self.cam_expo_absolute);
        push_be16(&mut out, self.cam_brightness);
        push_be16(&mut out, self.cam_contrast);
        push_be16(&mut out, self.cam_gain);
        push_be16(&mut out, self.cam_hue);
        push_be16(&mut out, self.cam_saturation);
        push_be16(&mut out, self.cam_sharpness);
        push_be16(&mut out, self.cam_gamma);
        out.push(self.cam_key_frame);
        out.push(self.cam_white_balance_auto);
        push_be32(&mut out, self.cam_white_balance);
        push_be16(&mut out, self.cam_multiplier);
        push_be16(&mut out, self.cam_multiplier_limit);
        out.push(self.unknown4);
        out.push(self.unknown5);
        proof {
            assert(out@ =~= self.spec_bytes());
        }
        out
    }

    /// Fold a keepalive response into the local control state: the
    /// GamePad's word on volumes, microphone enable, camera power
    /// frequency and auto-exposure wins; all other fields stay.
    pub fn apply_response(&mut self, resp: &UvcUacResponse)
        ensures
            *final(self) == (UvcUacPayload {
                mic_volume: resp.mic_volume,
                mic_jack_volume: resp.mic_jack_volume,
                mic_enable: resp.mic_enabled,
                cam_power_freq: resp.cam_power_freq,
                cam_auto_expo: resp.cam_auto_expo,
                ..*old(self)
            }),
    {
        self.mic_volume = resp.mic_volume;
        self.mic_jack_volume = resp.mic_jack_volume;
        self.mic_enable = resp.mic_enabled;
        self.cam_power_freq = resp.cam_power_freq;
        self.cam_auto_expo = resp.cam_auto_expo;
    }
}

/// Append the big-endian bytes of a 16-bit value.
fn push_be16(out: &mut Vec<u8>, x: u16)
    ensures
        final(out)@ == old(out)@ + be16(x),
{
    out.push((x / 0x100) as u8);
    out.push((x % 0x100) as u8);
    proof {
        assert(out@ =~= old(out)@ + be16(x));
    }
}

/// Append the big-endian bytes of a 32-bit value.
fn push_be32(out: &mut Vec<u8>, x: u32)
    ensures
        final(out)@ == old(out)@ + be32(x),
{
    out.push((x / 0x1000000) as u8);
    out.push(((x / 0x10000) % 0x100) as u8);
    out.push(((x / 0x100) % 0x100) as u8);
    out.push((x % 0x100) as u8);
    proof {
        assert(out@ =~= old(out)@ + be32(x));
    }
}

impl Default for UvcUacPayload {
    /// All fields zero but the microphone frequency, 16 kHz.
    fn default() -> (r: Self)
        ensures
            r == (UvcUacPayload {
                f1: 0,
                unknown0: 0,
                unknown1: 0,
                f3: 0,
                mic_enable: 0,
                mic_mute: 0,
                mic_volume: 0,
                mic_jack_volume: 0,
                unknown2: 0,
                unknown3: 0,
                mic_freq: 16000,
                cam_enable: 0,
                cam_power: 0,
                cam_power_freq: 0,
                cam_auto_expo: 0,
                cam_expo_absolute: 0,
                cam_brightness: 0,
                cam_contrast: 0,
                cam_gain: 0,
                cam_hue: 0,
                cam_saturation: 0,
                cam_sharpness: 0,
                cam_gamma: 0,
                cam_key_frame: 0,
                cam_white_balance_auto: 0,
                cam_white_balance: 0,
                cam_multiplier: 0,
                cam_multiplier_limit: 0,
                unknown4: 0,
                unknown5: 0,
            }),
    {
        UvcUacPayload {
            f1: 0,
            unknown0: 0,
            unknown1: 0,
            f3: 0,
            mic_enable: 0,
            mic_mute: 0,
            mic_volume: 0,
            mic_jack_volume: 0,
            unknown2: 0,
            unknown3: 0,
            mic_freq: 16000,
            cam_enable: 0,
            cam_power: 0,
            cam_power_freq: 0,
            cam_auto_expo: 0,
            cam_expo_absolute: 0,
            cam_brightness: 0,
            cam_contrast: 0,
            cam_gain: 0,
            cam_hue: 0,
            cam_saturation: 0,
            cam_sharpness: 0,
            cam_gamma: 0,
            cam_key_frame: 0,
            cam_white_balance_auto: 0,
            cam_white_balance: 0,
            cam_multiplier: 0,
            cam_multiplier_limit: 0,
            unknown4: 0,
            unknown5: 0,
        }
    }
}

/// The 16-byte response to a UVC/UAC command, multi-byte fields
/// little-endian.
#[derive(Debug, Copy, Clone, PartialEq, Eq)]
pub struct UvcUacResponse {
    pub mic_volume: i16,
    pub mic_jack_volume: i16,
    pub unknown0: [u8; 8],
    pub mic_enabled: u8,
    pub cam_power_freq: u8,
    pub cam_auto_expo: u8,
    pub unknown1: u8,
}

impl UvcUacResponse {
    /// The response held in a 16-byte payload.
    pub open spec fn parse_spec(bytes: Seq<u8>) -> UvcUacResponse {
        UvcUacResponse {
            mic_volume: (bytes[0] + bytes[1] * 0x100) as u16 as i16,
            mic_jack_volume: (bytes[2] + bytes[3] * 0x100) as u16 as i16,
            unknown0: [
                bytes[4],
                bytes[5],
                bytes[6],
                bytes[7],
                bytes[8],
                bytes[9],
                bytes[10],
                bytes[11],
            ],
            mic_enabled: bytes[12],
            cam_power_freq: bytes[13],
            cam_auto_expo: bytes[14],
            unknown1: bytes[15],
        }
    }

    /// Read a response from a command payload; exactly 16 bytes are
    /// accepted.
    pub fn parse(bytes: &[u8]) -> (r: Option<UvcUacResponse>)
        ensures
            bytes@.len() == 16 ==> r == Some(UvcUacResponse::parse_spec(bytes@)),
            bytes@.len() != 16 ==> r is None,
    {
        if bytes.len() != 16 {
            return None;
        }
        Some(
            UvcUacResponse {
                mic_volume: (bytes[0] as u16 + bytes[1] as u16 * 0x100) as i16,
                mic_jack_volume: (bytes[2] as u16 + bytes[3] as u16 * 0x100) as i16,
                unknown0: [
                    bytes[4],
                    bytes[5],
                    bytes[6],
                    bytes[7],
                    bytes[8],
                    bytes[9],
                    bytes[10],
                    bytes[11],
                ],
                mic_enabled: bytes[12],
                cam_power_freq: bytes[13],
                cam_auto_expo: bytes[14],
                unknown1: bytes[15],
            },
        )
    }
}

} // verus!
