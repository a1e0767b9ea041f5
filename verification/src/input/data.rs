//! Layout of the GamePad's 128-byte input report: buttons, sticks,
//! sensors, touchscreen points and status bytes. The reader that pulls
//! the datagrams off the socket lives outside; it hands the raw bytes
//! here.

use vstd::prelude::*;

verus! {

/// Value of 2 little-endian bytes.
pub open spec fn le16_at(bytes: Seq<u8>, off: int) -> int {
    bytes[off] + bytes[off + 1] * 0x100
}

/// Value of 2 big-endian bytes.
pub open spec fn be16_at(bytes: Seq<u8>, off: int) -> int {
    bytes[off] * 0x100 + bytes[off + 1]
}

/// The main button word. Bits, from least significant: SYNC, HOME,
/// MINUS, PLUS, R, L, ZR, ZL, DOWN, UP, RIGHT, LEFT, Y, X, B, A.
#[derive(Debug, Copy, Clone, PartialEq, Eq, Structural)]
pub struct Buttons(pub u16);

impl Buttons {
    /// Whether every button of `mask` is held.
    pub fn has(self, mask: u16) -> (r: bool)
        ensures
            r == (self.0 & mask == mask),
    {
        self.0 & mask == mask
    }
}

/// Power status bits: 0x01 AC plugged in, 0x02 power button pressed,
/// 0x40 charging, 0x80 powered over USB.
#[derive(Debug, Copy, Clone, PartialEq, Eq, Structural)]
pub struct PowerStatus(pub u8);

impl PowerStatus {
    /// Whether every bit of `mask` is set.
    pub fn has(self, mask: u8) -> (r: bool)
        ensures
            r == (self.0 & mask == mask),
    {
        self.0 & mask == mask
    }
}

/// Extra button bits: 0x10 TV menu open, 0x20 TV, 0x40 R3, 0x80 L3.
#[derive(Debug, Copy, Clone, PartialEq, Eq, Structural)]
pub struct ExtraButtons(pub u8);

impl ExtraButtons {
    /// Whether every bit of `mask` is set.
    pub fn has(self, mask: u8) -> (r: bool)
        ensures
            r == (self.0 & mask == mask),
    {
        self.0 & mask == mask
    }
}

/// Accelerometer sample, one signed 16-bit value per axis.
#[derive(Debug, Copy, Clone, PartialEq, Eq, Structural)]
pub struct Accelerometer {
    pub z_accel: i16,
    pub x_accel: i16,
    pub y_accel: i16,
}

/// Gyroscope sample.
#[derive(Debug, Copy, Clone, PartialEq, Eq, Structural)]
pub struct Gyroscope {
    pub roll: i16,
    pub yaw: i16,
    pub pitch: i16,
    pub pad: i16,
}

/// Magnetometer bytes, meaning unknown.
#[derive(Debug, Copy, Clone, PartialEq, Eq)]
pub struct Magnet {
    pub unknown: [u8; 6],
}

/// One touchscreen coordinate: a 12-bit value and 3 extra bits.
#[derive(Debug, Copy, Clone, PartialEq, Eq, Structural)]
pub struct Coord(pub u16);

impl Coord {
    /// Bits 11:0, the coordinate itself.
    pub fn value(self) -> (r: u16)
        ensures
            r == self.0 as int % 0x1000,
    {
        self.0 % 0x1000
    }

    /// Bits 14:12.
    pub fn extra(self) -> (r: u16)
        ensures
            r == (self.0 as int / 0x1000) % 8,
    {
        (self.0 / 0x1000) % 8
    }
}

/// The ten touchscreen points, two coordinates each, in report order.
#[derive(Debug, Clone, PartialEq, Eq)]
pub struct Touchscreen {
    pub points: Vec<Coord>,
}

/// One whole input report.
#[derive(Debug, Clone, PartialEq, Eq)]
pub struct InputData {
    pub seq_id: u16,
    pub buttons: Buttons,
    pub power_status: PowerStatus,
    pub battery_charge: u8,
    pub left_stick_x: u16,
    pub left_stick_y: u16,
    pub right_stick_x: u16,
    pub right_stick_y: u16,
    pub audio_volume: u8,
    pub accelerometer: Accelerometer,
    pub gyro: Gyroscope,
    pub magnet: Magnet,
    pub touchscreen: Touchscreen,
    pub extra_buttons: ExtraButtons,
    pub fw_version_neg: u8,
}

impl InputData {
    /// Read a report from a 128-byte datagram: the sequence id is
    /// big-endian, everything else little-endian; the touchscreen's 20
    /// coordinates start at byte 36, the extra buttons sit at byte 80
    /// and the negated firmware version last.
    pub fn parse(bytes: &[u8]) -> (r: Option<InputData>)
        ensures
            bytes@.len() != 128 ==> r is None,
            bytes@.len() == 128 ==> (r matches Some(d) && {
                &&& d.seq_id == be16_at(bytes@, 0)
                &&& d.buttons.0 == le16_at(bytes@, 2)
                &&& d.power_status.0 == bytes@[4]
                &&& d.battery_charge == bytes@[5]
                &&& d.left_stick_x == le16_at(bytes@, 6)
                &&& d.left_stick_y == le16_at(bytes@, 8)
                &&& d.right_stick_x == le16_at(bytes@, 10)
                &&& d.right_stick_y == le16_at(bytes@, 12)
                &&& d.audio_volume == bytes@[14]
                &&& d.accelerometer.z_accel == le16_at(bytes@, 16) as u16 as i16
                &&& d.accelerometer.x_accel == le16_at(bytes@, 18) as u16 as i16
                &&& d.accelerometer.y_accel == le16_at(bytes@, 20) as u16 as i16
                &&& d.gyro.roll == le16_at(bytes@, 22) as u16 as i16
                &&& d.gyro.yaw == le16_at(bytes@, 24) as u16 as i16
                &&& d.gyro.pitch == le16_at(bytes@, 26) as u16 as i16
                &&& d.gyro.pad == le16_at(bytes@, 28) as u16 as i16
                &&& d.magnet.unknown@ == bytes@.subrange(30, 36)
                &&& d.touchscreen.points@.len() == 20
                &&& forall|k: int|
                    0 <= k < 20 ==> (#[trigger] d.touchscreen.points@[k]).0 == le16_at(
                        bytes@,
                        36 + 2 * k,
                    )
                &&& d.extra_buttons.0 == bytes@[80]
                &&& d.fw_version_neg == bytes@[127]
            }),
    {
        if bytes.len() != 128 {
            return None;
        }
        let mut points: Vec<Coord> = Vec::new();
        let mut k: usize = 0;
        while k < 20
            invariant
                k <= 20,
                bytes@.len() == 128,
                points@.len() == k,
                forall|j: int|
                    0 <= j < k ==> (#[trigger] points@[j]).0 == le16_at(bytes@, 36 + 2 * j),
            decreases 20 - k,
        {
            points.push(Coord(bytes[36 + 2 * k] as u16 + bytes[37 + 2 * k] as u16 * 0x100));
            k = k + 1;
        }
        Some(
            InputData {
                seq_id: bytes[0] as u16 * 0x100 + bytes[1] as u16,
                buttons: Buttons(bytes[2] as u16 + bytes[3] as u16 * 0x100),
                power_status: PowerStatus(bytes[4]),
                battery_charge: bytes[5],
                left_stick_x: bytes[6] as u16 + bytes[7] as u16 * 0x100,
                left_stick_y: bytes[8] as u16 + bytes[9] as u16 * 0x100,
                right_stick_x: bytes[10] as u16 + bytes[11] as u16 * 0x100,
                right_stick_y: bytes[12] as u16 + bytes[13] as u16 * 0x100,
                audio_volume: bytes[14],
                accelerometer: Accelerometer {
                    z_accel: (bytes[16] as u16 + bytes[17] as u16 * 0x100) as i16,
                    x_accel: (bytes[18] as u16 + bytes[19] as u16 * 0x100) as i16,
                    y_accel: (bytes[20] as u16 + bytes[21] as u16 * 0x100) as i16,
                },
                gyro: Gyroscope {
                    roll: (bytes[22] as u16 + bytes[23] as u16 * 0x100) as i16,
                    yaw: (bytes[24] as u16 + bytes[25] as u16 * 0x100) as i16,
                    pitch: (bytes[26] as u16 + bytes[27] as u16 * 0x100) as i16,
                    pad: (bytes[28] as u16 + bytes[29] as u16 * 0x100) as i16,
                },
                magnet: Magnet {
                    unknown: [bytes[30], bytes[31], bytes[32], bytes[33], bytes[34], bytes[35]],
                },
                touchscreen: Touchscreen { points },
                extra_buttons: ExtraButtons(bytes[80]),
                fw_version_neg: bytes[127],
            },
        )
    }
}

} // verus!
