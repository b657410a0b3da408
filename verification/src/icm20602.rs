//! Register protocol and frame decoding of the ICM20602 6-axis IMU.

use vstd::prelude::*;

verus! {

pub const REG_I2C_IF: u8 = 0x70;
pub const REG_CONFIG: u8 = 0x1A;
pub const REG_GYRO_CONFIG: u8 = 0x1B;
pub const REG_ACCEL_CONFIG: u8 = 0x1C;
pub const REG_ACCEL_CONFIG_2: u8 = 0x1D;
pub const REG_ACCEL_INTEL_CTRL: u8 = 0x69;
pub const REG_PWR_MGMT_1: u8 = 0x6B;
pub const REG_WHO_AM_I: u8 = 0x75;
pub const REG_ACCEL_XOUT_H: u8 = 0x3B;

/// Flag that turns a register address into a read.
pub const READ: u8 = 0x80;

/// The identity the chip reports in its WHO_AM_I register.
pub const WHO_AM_I_VALUE: u8 = 0x12;

/// Length of the SPI transfer that reads one sample frame (one address byte,
/// fourteen data bytes).
pub const FRAME_LEN: usize = 15;

/// The bytes sent to ask for the chip's identity.
pub fn who_am_i_request() -> (out: [u8; 2])
    ensures
        out@[0] == REG_WHO_AM_I + READ,
        out@[1] == 0,
{
    assert((0x75u8 | 0x80u8) == 0xF5u8) by (bit_vector);
    [REG_WHO_AM_I | READ, 0]
}

/// Whether the reply to [`who_am_i_request`] identifies an ICM20602.
pub fn who_am_i_matches(reply: [u8; 2]) -> (ok: bool)
    ensures
        ok == (reply@[1] == WHO_AM_I_VALUE),
{
    reply[1] == WHO_AM_I_VALUE
}

/// The register writes that configure the chip, in order: disable I2C, low pass
/// filter, gyro range ±500 dps, accelerometer range ±2 g, accelerometer filter,
/// no output limit, and wake up.
pub fn init_writes() -> (writes: Vec<[u8; 2]>)
    ensures
        writes@ == seq![
            [REG_I2C_IF, 0x40u8],
            [REG_CONFIG, 0x01u8],
            [REG_GYRO_CONFIG, 0x08u8],
            [REG_ACCEL_CONFIG, 0x00u8],
            [REG_ACCEL_CONFIG_2, 0x00u8],
            [REG_ACCEL_INTEL_CTRL, 0x02u8],
            [REG_PWR_MGMT_1, 0x01u8],
        ],
{
    let gyro_range: u8 = 0x0 | 0b01 << 3;
    assert((0x0u8 | 0b01u8 << 3u8) == 0x08u8) by (bit_vector);
    let mut writes: Vec<[u8; 2]> = Vec::new();
    writes.push([REG_I2C_IF, 0x40]);
    writes.push([REG_CONFIG, 0x1]);
    writes.push([REG_GYRO_CONFIG, gyro_range]);
    writes.push([REG_ACCEL_CONFIG, 0x0]);
    writes.push([REG_ACCEL_CONFIG_2, 0x0]);
    writes.push([REG_ACCEL_INTEL_CTRL, 0x2]);
    writes.push([REG_PWR_MGMT_1, 0x1]);
    assert(writes@ =~= seq![
        [REG_I2C_IF, 0x40u8],
        [REG_CONFIG, 0x01u8],
        [REG_GYRO_CONFIG, 0x08u8],
        [REG_ACCEL_CONFIG, 0x00u8],
        [REG_ACCEL_CONFIG_2, 0x00u8],
        [REG_ACCEL_INTEL_CTRL, 0x02u8],
        [REG_PWR_MGMT_1, 0x01u8],
    ]);
    writes
}

/// The bytes sent to read one frame: the first data register with the read
/// flag, then zeros while the frame is clocked in.
pub fn frame_request() -> (out: [u8; 15])
    ensures
        out@[0] == REG_ACCEL_XOUT_H + READ,
        forall|i: int| 1 <= i < 15 ==> out@[i] == 0,
{
    assert((0x3Bu8 | 0x80u8) == 0xBBu8) by (bit_vector);
    let out: [u8; 15] = [REG_ACCEL_XOUT_H | READ, 0, 0, 0, 0, 0, 0, 0, 0, 0, 0, 0, 0, 0, 0];
    out
}

/// The raw readings of one frame, in the chip's own axes, as two's complement
/// words.
#[derive(Clone, Copy, Debug, PartialEq, Eq, Structural)]
pub struct RawImuFrame {
    pub accel_x: i16,
    pub accel_y: i16,
    pub accel_z: i16,
    pub temperature: i16,
    pub gyro_x: i16,
    pub gyro_y: i16,
    pub gyro_z: i16,
}

/// The big endian word at data offset `i` of a frame whose first byte is junk.
pub open spec fn frame_word(raw: Seq<u8>, i: int) -> i16 {
    ((raw[1 + i] * 256 + raw[2 + i]) as u16) as i16
}

fn be_word(hi: u8, lo: u8) -> (w: i16)
    ensures
        w == ((hi * 256 + lo) as u16) as i16,
{
    let word: u16 = (hi as u16) << 8 | lo as u16;
    assert(((hi as u16) << 8u16 | lo as u16) == hi * 256 + lo) by (bit_vector);
    word as i16
}

/// Decodes the fourteen data bytes that follow the junk byte of a frame:
/// accelerometer x, y, z, temperature, then gyro x, y, z.
pub fn decode_frame(raw: [u8; 15]) -> (frame: RawImuFrame)
    ensures
        frame.accel_x == frame_word(raw@, 0),
        frame.accel_y == frame_word(raw@, 2),
        frame.accel_z == frame_word(raw@, 4),
        frame.temperature == frame_word(raw@, 6),
        frame.gyro_x == frame_word(raw@, 8),
        frame.gyro_y == frame_word(raw@, 10),
        frame.gyro_z == frame_word(raw@, 12),
{
    RawImuFrame {
        accel_x: be_word(raw[1], raw[2]),
        accel_y: be_word(raw[3], raw[4]),
        accel_z: be_word(raw[5], raw[6]),
        temperature: be_word(raw[7], raw[8]),
        gyro_x: be_word(raw[9], raw[10]),
        gyro_y: be_word(raw[11], raw[12]),
        gyro_z: be_word(raw[13], raw[14]),
    }
}

} // verus!
