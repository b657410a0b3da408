use mate_rov::ads1115::{
    conversion_config, conversion_ready, word_from_be_bytes, word_to_be_bytes, AnalogChannel,
};
use mate_rov::icm20602::{
    decode_frame, frame_request, init_writes, who_am_i_matches, who_am_i_request, RawImuFrame,
};
use mate_rov::ms5837::{
    adc_sample, compensate, crc4, prom_crc_valid, prom_read_command, prom_word, try_compensate,
};

const CALIBRATION: [u16; 8] = [0x0000, 34982, 36352, 20328, 22354, 26646, 26146, 0];

#[test]
fn crc4_of_calibration_prom() {
    assert_eq!(crc4(CALIBRATION), 2);
}

#[test]
fn crc4_ignores_stored_nibble_and_last_word() {
    let mut other = CALIBRATION;
    other[0] = 0xF000;
    other[7] = 0xBEEF;
    assert_eq!(crc4(other), crc4(CALIBRATION));
}

#[test]
fn crc4_changes_with_a_coefficient() {
    let mut other = CALIBRATION;
    other[3] ^= 0x0100;
    assert_ne!(crc4(other), crc4(CALIBRATION));
}

#[test]
fn prom_crc_check_accepts_matching_nibble() {
    let mut prom = CALIBRATION;
    prom[0] = 0x2000;
    assert!(prom_crc_valid(prom));
    prom[0] = 0x3000;
    assert!(!prom_crc_valid(prom));
}

#[test]
fn prom_commands_and_words() {
    assert_eq!(prom_read_command(0), 0xA0);
    assert_eq!(prom_read_command(3), 0xA6);
    assert_eq!(prom_read_command(6), 0xAC);
    assert_eq!(prom_word([0x12, 0x34]), 0x1234);
    assert_eq!(prom_word([0xff, 0x00]), 0xff00);
}

#[test]
fn adc_sample_repeats_first_byte_in_low_byte() {
    assert_eq!(adc_sample([0x01, 0x02, 0x03]), 0x010201);
    assert_eq!(adc_sample([0x4B, 0xA5, 0x00]), 0x4BA54B);
}

#[test]
fn compensation_near_reference_temperature() {
    assert_eq!(compensate((4958179, 6815414), &CALIBRATION), (39998, 1982));
}

#[test]
fn compensation_low_temperature() {
    assert_eq!(compensate((4958179, 6821376 - 50000), &CALIBRATION), (39928, 1845));
}

#[test]
fn compensation_high_temperature() {
    assert_eq!(compensate((4958179, 6821376 + 50000), &CALIBRATION), (40088, 2155));
}

#[test]
fn analog_channel_selectors() {
    assert_eq!(AnalogChannel::Ch0.selector(), 0b100);
    assert_eq!(AnalogChannel::Ch1.selector(), 0b101);
    assert_eq!(AnalogChannel::Ch2.selector(), 0b110);
    assert_eq!(AnalogChannel::Ch3.selector(), 0b111);
}

#[test]
fn conversion_config_words() {
    assert_eq!(conversion_config(AnalogChannel::Ch0), 0xC3E0);
    assert_eq!(conversion_config(AnalogChannel::Ch1), 0xD3E0);
    assert_eq!(conversion_config(AnalogChannel::Ch2), 0xE3E0);
    assert_eq!(conversion_config(AnalogChannel::Ch3), 0xF3E0);
}

#[test]
fn register_word_bytes_round_trip() {
    assert_eq!(word_to_be_bytes(0xF3E0), [0xF3, 0xE0]);
    assert_eq!(word_from_be_bytes([0xF3, 0xE0]), 0xF3E0);
    for word in [0u16, 1, 0x00ff, 0x0100, 0x8000, 0xffff] {
        assert_eq!(word_from_be_bytes(word_to_be_bytes(word)), word);
    }
}

#[test]
fn conversion_ready_follows_top_bit() {
    assert!(conversion_ready([0x80, 0x00]));
    assert!(conversion_ready([0xC3, 0xE0]));
    assert!(!conversion_ready([0x7f, 0xff]));
    assert!(!conversion_ready([0x00, 0x00]));
}

#[test]
fn imu_identity() {
    assert_eq!(who_am_i_request(), [0xF5, 0x00]);
    assert!(who_am_i_matches([0x00, 0x12]));
    assert!(!who_am_i_matches([0x12, 0x11]));
}

#[test]
fn imu_init_sequence() {
    assert_eq!(
        init_writes(),
        vec![
            [0x70, 0x40],
            [0x1A, 0x01],
            [0x1B, 0x08],
            [0x1C, 0x00],
            [0x1D, 0x00],
            [0x69, 0x02],
            [0x6B, 0x01],
        ]
    );
}

#[test]
fn imu_frame_request_and_decoding() {
    let req = frame_request();
    assert_eq!(req[0], 0xBB);
    assert!(req[1..].iter().all(|&b| b == 0));

    let raw: [u8; 15] = [
        0xAA, 0x40, 0x00, 0xC0, 0x00, 0x00, 0x01, 0x12, 0x34, 0xFF, 0xFF, 0x80, 0x00, 0x7F, 0xFF,
    ];
    assert_eq!(
        decode_frame(raw),
        RawImuFrame {
            accel_x: 16384,
            accel_y: -16384,
            accel_z: 1,
            temperature: 0x1234,
            gyro_x: -1,
            gyro_y: -32768,
            gyro_z: 32767,
        }
    );
}

#[test]
fn checked_compensation_agrees_where_in_range() {
    assert_eq!(try_compensate((4958179, 6815414), &CALIBRATION), Some((39998, 1982)));
    assert_eq!(try_compensate((4958179, 6771376), &CALIBRATION), Some((39928, 1845)));
    assert_eq!(try_compensate((4958179, 6871376), &CALIBRATION), Some((40088, 2155)));
}

#[test]
fn compensation_of_full_scale_readings() {
    // dT * C6 needs more than 32 bits here; it is computed in 64.
    assert_eq!(compensate((4958179, 6600000), &CALIBRATION), (39655, 1294));
    assert_eq!(compensate((0xFF_FFFF, 0xFF_FFFF), &CALIBRATION), (1395738, 31588));
    assert_eq!(compensate((0, 0), &CALIBRATION), (206926, -35511));
    let mut steep = CALIBRATION;
    steep[6] = 0xFFFF;
    assert_eq!(try_compensate((0xFF_FFFF, 0xFF_FFFF), &steep), Some((1434545, 78336)));
    assert_eq!(try_compensate((0, 0), &steep), Some((2493020, -67541)));
}

#[test]
fn checked_compensation_refuses_overflowing_samples() {
    // D2 read as a signed 32-bit value minus C5 * 256 no longer fits 32 bits.
    assert_eq!(try_compensate((4958179, 0x8000_0000), &CALIBRATION), None);
}

#[test]
fn crc4_is_linear_over_xor() {
    let other: [u16; 8] = [0x1234, 0x0F0F, 0xAAAA, 0x5555, 0x0001, 0x8000, 0xFFFF, 0x7777];
    let mut mixed = [0u16; 8];
    for j in 0..8 {
        mixed[j] = CALIBRATION[j] ^ other[j];
    }
    assert_eq!(crc4(mixed), crc4(CALIBRATION) ^ crc4(other));
}
