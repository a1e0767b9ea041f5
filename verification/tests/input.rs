use drc::input::data::{Buttons, Coord, InputData, PowerStatus};

#[test]
fn parse_full_report() {
    let mut raw = vec![0u8; 128];
    raw[0] = 0x12; // seq_id 0x1234 big-endian
    raw[1] = 0x34;
    raw[2] = 0x01; // buttons 0x8001 little-endian: SYNC | A
    raw[3] = 0x80;
    raw[4] = 0x41; // power: AC plugged in, charging
    raw[5] = 77; // battery charge
    raw[6] = 0x00; // left stick x = 0x0800
    raw[7] = 0x08;
    raw[16] = 0xFF; // accelerometer z = -1
    raw[17] = 0xFF;
    raw[22] = 0x2C; // gyro roll = 300
    raw[23] = 0x01;
    raw[30] = 9; // first magnetometer byte
    raw[36] = 0x34; // first touch coordinate 0x1234
    raw[37] = 0x12;
    raw[80] = 0x40; // extra buttons: R3
    raw[127] = 0xAB;
    let data = InputData::parse(&raw).unwrap();
    assert_eq!(data.seq_id, 0x1234);
    assert_eq!(data.buttons, Buttons(0x8001));
    assert!(data.buttons.has(0x8000)); // A
    assert!(data.buttons.has(0x0001)); // SYNC
    assert!(!data.buttons.has(0x0002)); // HOME
    assert_eq!(data.power_status, PowerStatus(0x41));
    assert!(data.power_status.has(0x01));
    assert!(data.power_status.has(0x40));
    assert!(!data.power_status.has(0x80));
    assert_eq!(data.battery_charge, 77);
    assert_eq!(data.left_stick_x, 0x0800);
    assert_eq!(data.accelerometer.z_accel, -1);
    assert_eq!(data.gyro.roll, 300);
    assert_eq!(data.magnet.unknown[0], 9);
    assert_eq!(data.touchscreen.points.len(), 20);
    assert_eq!(data.touchscreen.points[0], Coord(0x1234));
    assert_eq!(data.touchscreen.points[1], Coord(0));
    assert!(data.extra_buttons.has(0x40));
    assert_eq!(data.fw_version_neg, 0xAB);
}

#[test]
fn wrong_report_length_is_refused() {
    assert!(InputData::parse(&[0u8; 127]).is_none());
    assert!(InputData::parse(&[0u8; 129]).is_none());
}

#[test]
fn coord_splits_value_and_extra_bits() {
    let c = Coord(0x1234);
    assert_eq!(c.value(), 0x234);
    assert_eq!(c.extra(), 1);
    let c = Coord(0x7FFF);
    assert_eq!(c.value(), 0xFFF);
    assert_eq!(c.extra(), 7);
}
