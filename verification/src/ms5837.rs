//! Decoding and compensation logic of the MS5837 pressure / temperature sensor.
//!
//! The bus transfers (I2C writes, reads and the conversion delays) live with the
//! driver; everything computed from the bytes that come back lives here.

use vstd::prelude::*;

verus! {

/// Command that resets the sensor.
pub const CMD_RESET: u8 = 0x1e;
/// Base of the command that reads one PROM word.
pub const CMD_READ_PROM: u8 = 0xA0;
/// Command that starts a D1 (pressure) conversion at OSR 1024.
pub const CMD_CONVERT_D1_OSR1024: u8 = 0x44;
/// Command that starts a D2 (temperature) conversion at OSR 1024.
pub const CMD_CONVERT_D2_OSR1024: u8 = 0x54;
/// Command that reads the result of the last conversion.
pub const CMD_READ_ADC: u8 = 0x00;

/// Number of PROM words that are read from the sensor (the eighth stays zero).
pub const PROM_WORDS: usize = 7;

// ---------------------------------------------------------------------------
// Specification of the CRC-4 over the calibration PROM
// ---------------------------------------------------------------------------

/// One step of the CRC-4 shift register (polynomial 0x3000 in the top nibble).
pub open spec fn crc_shift(r: u16) -> u16 {
    if r & 0x8000u16 != 0 {
        ((r << 1u16) ^ 0x3000u16) as u16
    } else {
        (r << 1u16) as u16
    }
}

/// `n` steps of the shift register.
pub open spec fn crc_shift_n(r: u16, n: nat) -> u16
    decreases n,
{
    if n == 0 {
        r
    } else {
        crc_shift(crc_shift_n(r, (n - 1) as nat))
    }
}

/// PROM word `j` as it enters the CRC: the CRC nibble of word 0 is masked out and
/// word 7 counts as zero.
pub open spec fn crc_word(data: Seq<u16>, j: int) -> u16 {
    if j == 0 {
        data[0] & 0x0FFFu16
    } else if j == 7 {
        0u16
    } else {
        data[j]
    }
}

/// Byte `i` (0..16) of the PROM as it enters the CRC: high byte first.
pub open spec fn crc_byte(data: Seq<u16>, i: int) -> u16 {
    if i % 2 == 1 {
        crc_word(data, i / 2) & 0x00FFu16
    } else {
        crc_word(data, i / 2) >> 8u16
    }
}

/// CRC remainder after the first `n` bytes.
pub open spec fn crc_remainder(data: Seq<u16>, n: nat) -> u16
    decreases n,
{
    if n == 0 {
        0u16
    } else {
        crc_shift_n(crc_remainder(data, (n - 1) as nat) ^ crc_byte(data, n - 1), 8)
    }
}

/// The CRC-4 of the calibration PROM: the top nibble of the remainder after all
/// sixteen bytes.
pub open spec fn spec_crc4(data: Seq<u16>) -> u8 {
    (crc_remainder(data, 16) >> 12u16) as u8
}

fn crc_word_exec(data: &[u16; 8], j: usize) -> (w: u16)
    requires
        j < 8,
    ensures
        w == crc_word(data@, j as int),
{
    if j == 0 {
        data[0] & 0x0FFF
    } else if j == 7 {
        0
    } else {
        data[j]
    }
}

/// CRC-4 of the calibration PROM, as the MS5837 datasheet computes it.
pub fn crc4(data: [u16; 8]) -> (crc: u8)
    ensures
        crc == spec_crc4(data@),
        crc < 16,
{
    let mut n_rem: u16 = 0;
    let mut i: usize = 0;
    while i < 16
        invariant
            i <= 16,
            n_rem == crc_remainder(data@, i as nat),
        decreases 16 - i,
    {
        let j = i >> 1;
        assert(i >> 1 == i / 2) by (bit_vector);
        let word = crc_word_exec(&data, j);
        if i % 2 == 1 {
            n_rem = n_rem ^ (word & 0x00FF);
        } else {
            n_rem = n_rem ^ (word >> 8);
        }
        let ghost start = n_rem;
        let mut k: usize = 0;
        while k < 8
            invariant
                k <= 8,
                n_rem == crc_shift_n(start, k as nat),
            decreases 8 - k,
        {
            if n_rem & 0x8000 != 0 {
                n_rem = (n_rem << 1) ^ 0x3000;
            } else {
                n_rem = n_rem << 1;
            }
            k = k + 1;
        }
        i = i + 1;
    }
    assert((n_rem >> 12u16) < 16) by (bit_vector);
    let crc = (n_rem >> 12) as u8;
    crc
}

/// The CRC nibble that the sensor stores in the top four bits of PROM word 0.
pub open spec fn stored_crc(data: Seq<u16>) -> u8 {
    (data[0] >> 12u16) as u8
}

/// Whether the calibration PROM passes its CRC check.
pub fn prom_crc_valid(calibration: [u16; 8]) -> (ok: bool)
    ensures
        ok == (stored_crc(calibration@) == spec_crc4(calibration@)),
{
    let crc = (calibration[0] >> 12) as u8;
    crc == crc4(calibration)
}

// ---------------------------------------------------------------------------
// Bus command and sample framing
// ---------------------------------------------------------------------------

/// The command that reads PROM word `addr`.
pub fn prom_read_command(addr: u8) -> (cmd: u8)
    requires
        addr < 8,
    ensures
        cmd == CMD_READ_PROM + 2 * addr,
{
    let cmd = CMD_READ_PROM | (addr << 1);
    assert(addr < 8 ==> (0xA0u8 | (addr << 1u8)) == 0xA0u8 + 2 * addr) by (bit_vector);
    cmd
}

/// A PROM word from the two bytes read back, most significant byte first.
pub fn prom_word(buffer: [u8; 2]) -> (word: u16)
    ensures
        word == buffer@[0] * 256 + buffer@[1],
{
    let hi = buffer[0];
    let lo = buffer[1];
    let word = (hi as u16) << 8 | lo as u16;
    assert(((hi as u16) << 8u16 | lo as u16) == hi * 256 + lo) by (bit_vector);
    word
}

/// A conversion result from the three bytes read back: the first byte fills both
/// the top and the bottom byte of the sample, and the third byte is not used.
pub fn adc_sample(buffer: [u8; 3]) -> (sample: u32)
    ensures
        sample == buffer@[0] * 65536 + buffer@[1] * 256 + buffer@[0],
{
    let b0 = buffer[0];
    let b1 = buffer[1];
    let sample = (b0 as u32) << 16 | (b1 as u32) << 8 | b0 as u32;
    assert(((b0 as u32) << 16u32 | (b1 as u32) << 8u32 | b0 as u32) == b0 * 65536 + b1 * 256
        + b0) by (bit_vector);
    sample
}

// ---------------------------------------------------------------------------
// First and second order compensation (integer part of the datasheet formulas)
// ---------------------------------------------------------------------------

/// Rust's integer division, which rounds towards zero, for a positive divisor.
pub open spec fn div_trunc(a: int, d: int) -> int {
    if a >= 0 {
        a / d
    } else {
        -((-a) / d)
    }
}

pub open spec fn fits_i32(x: int) -> bool {
    i32::MIN <= x <= i32::MAX
}

pub open spec fn fits_i64(x: int) -> bool {
    i64::MIN <= x <= i64::MAX
}

/// `D2 - C5 * 2^8`, the difference to the reference temperature.
pub open spec fn comp_dt(raw: (u32, u32), cal: Seq<u16>) -> int {
    (raw.1 as i32) as int - cal[5] * 256
}

/// Actual temperature in hundredths of a degree, before second order compensation.
pub open spec fn comp_temp(raw: (u32, u32), cal: Seq<u16>) -> int {
    2000 + div_trunc(comp_dt(raw, cal) * cal[6], 8388608)
}

/// Offset at the actual temperature.
pub open spec fn comp_off(raw: (u32, u32), cal: Seq<u16>) -> int {
    cal[2] * 65536 + div_trunc(cal[4] * comp_dt(raw, cal), 128)
}

/// Sensitivity at the actual temperature.
pub open spec fn comp_sens(raw: (u32, u32), cal: Seq<u16>) -> int {
    cal[1] * 32768 + div_trunc(cal[3] * comp_dt(raw, cal), 256)
}

/// Whether the temperature is in the datasheet's low temperature range.
pub open spec fn comp_is_low(raw: (u32, u32), cal: Seq<u16>) -> bool {
    div_trunc(comp_temp(raw, cal), 100) < 20
}

/// Whether the temperature is in the datasheet's very low temperature range.
pub open spec fn comp_is_very_low(raw: (u32, u32), cal: Seq<u16>) -> bool {
    div_trunc(comp_temp(raw, cal), 100) < -15
}

/// Second order temperature correction `Ti`.
pub open spec fn comp_ti(raw: (u32, u32), cal: Seq<u16>) -> int {
    let dt = comp_dt(raw, cal);
    if comp_is_low(raw, cal) {
        div_trunc(3 * dt * dt, 8589934592)
    } else {
        div_trunc(2 * dt * dt, 137438953472)
    }
}

/// Second order offset correction `OFFi`.
pub open spec fn comp_off_i(raw: (u32, u32), cal: Seq<u16>) -> int {
    let t = comp_temp(raw, cal);
    if comp_is_low(raw, cal) {
        let base = div_trunc(3 * ((t - 2000) * (t - 2000)), 2);
        if comp_is_very_low(raw, cal) {
            base + 7 * ((t + 1500) * (t + 1500))
        } else {
            base
        }
    } else {
        div_trunc((t - 2000) * (t - 2000), 16)
    }
}

/// Second order sensitivity correction `SENSi`.
pub open spec fn comp_sens_i(raw: (u32, u32), cal: Seq<u16>) -> int {
    let t = comp_temp(raw, cal);
    if comp_is_low(raw, cal) {
        let base = div_trunc(5 * ((t - 2000) * (t - 2000)), 8);
        if comp_is_very_low(raw, cal) {
            base + 4 * ((t + 1500) * (t + 1500))
        } else {
            base
        }
    } else {
        0
    }
}

/// Compensated pressure in tenths of a millibar.
pub open spec fn comp_pressure(raw: (u32, u32), cal: Seq<u16>) -> int {
    let off = comp_off(raw, cal) - comp_off_i(raw, cal);
    let sens = comp_sens(raw, cal) - comp_sens_i(raw, cal);
    div_trunc(div_trunc(raw.0 * sens, 2097152) - off, 8192)
}

/// Compensated temperature in hundredths of a degree Celsius. The correction
/// `Ti` is narrowed to 32 bits before it is subtracted.
pub open spec fn comp_temperature(raw: (u32, u32), cal: Seq<u16>) -> int {
    comp_temp(raw, cal) - (comp_ti(raw, cal) as i32) as int
}

/// The inputs on which every intermediate value of the compensation fits the
/// integer type it is evaluated in: `dT` in 32 bits, the second order `Ti`
/// terms and the pressure terms in 64 bits, and the compensated temperature in
/// 32 bits. Every other intermediate value fits whenever `dT` does.
pub open spec fn compensation_in_range(raw: (u32, u32), cal: Seq<u16>) -> bool {
    let dt = comp_dt(raw, cal);
    let off = comp_off(raw, cal) - comp_off_i(raw, cal);
    let sens = comp_sens(raw, cal) - comp_sens_i(raw, cal);
    &&& fits_i32(dt)
    &&& (comp_is_low(raw, cal) ==> fits_i64(3 * dt * dt))
    &&& (!comp_is_low(raw, cal) ==> fits_i64(2 * dt * dt))
    &&& fits_i64(raw.0 * sens)
    &&& fits_i64(div_trunc(raw.0 * sens, 2097152) - off)
    &&& fits_i32(comp_temperature(raw, cal))
}

/// Rounding towards zero keeps a value of magnitude at most `m` within `m / d`.
proof fn lemma_div_trunc_range(a: int, m: int, d: int)
    requires
        d > 0,
        -m <= a <= m,
    ensures
        -(m / d) <= div_trunc(a, d) <= m / d,
        a >= 0 ==> div_trunc(a, d) >= 0,
{
    if a >= 0 {
        assert(0 <= a / d <= m / d) by (nonlinear_arith)
            requires
                0 <= a <= m,
                d > 0,
        ;
    } else {
        assert(0 <= (-a) / d <= m / d) by (nonlinear_arith)
            requires
                0 < -a <= m,
                d > 0,
        ;
    }
}

/// Temperature-compensated pressure (tenths of a millibar) and temperature
/// (hundredths of a degree Celsius) from the raw conversions `(D1, D2)` and the
/// calibration PROM, following the datasheet's first and second order formulas.
pub fn compensate(raw: (u32, u32), calibration: &[u16; 8]) -> (res: (i64, i32))
    requires
        compensation_in_range(raw, calibration@),
    ensures
        res.0 == comp_pressure(raw, calibration@),
        res.1 == comp_temperature(raw, calibration@),
{
    let c1 = calibration[1];
    let c2 = calibration[2];
    let c3 = calibration[3];
    let c4 = calibration[4];
    let c5 = calibration[5];
    let c6 = calibration[6];

    // Temperature
    let d2: i32 = #[verifier::truncate] (raw.1 as i32);
    let dt: i32 = d2 - c5 as i32 * 256;
    let dt64: i64 = dt as i64;
    assert(-0x8000_0000_0000 <= dt64 * c6 <= 0x8000_0000_0000) by (nonlinear_arith)
        requires
            0 <= c6 < 65536,
            i32::MIN <= dt64 <= i32::MAX,
    ;
    let temp: i64 = 2000 + dt64 * c6 as i64 / 8388608;
    proof {
        lemma_div_trunc_range(dt64 * c6, 0x8000_0000_0000, 8388608);
    }

    // Offset and sensitivity at the actual temperature
    assert(-0x1_0000_0000_0000 < c4 * dt < 0x1_0000_0000_0000) by (nonlinear_arith)
        requires
            0 <= c4 < 65536,
            i32::MIN <= dt <= i32::MAX,
    ;
    assert(-0x1_0000_0000_0000 < c3 * dt < 0x1_0000_0000_0000) by (nonlinear_arith)
        requires
            0 <= c3 < 65536,
            i32::MIN <= dt <= i32::MAX,
    ;
    let off: i64 = c2 as i64 * 65536 + (c4 as i64 * dt64) / 128;
    let sens: i64 = c1 as i64 * 32768 + (c3 as i64 * dt64) / 256;
    proof {
        lemma_div_trunc_range(c4 * dt, 0x1_0000_0000_0000, 128);
        lemma_div_trunc_range(c3 * dt, 0x1_0000_0000_0000, 256);
    }

    // Second order compensation
    let t_i: i64;
    let mut off_i: i64;
    let mut sens_i: i64;
    let tc: i64 = temp - 2000;
    let tv: i64 = temp + 1500;
    assert(0 <= tc * tc <= 0x1_0000_0000_0000) by (nonlinear_arith)
        requires
            -0x100_0000 <= tc <= 0x100_0000,
    ;
    assert(0 <= tv * tv <= 0x4_0000_0000_0000) by (nonlinear_arith)
        requires
            -0x200_0000 <= tv <= 0x200_0000,
    ;
    if temp / 100 < 20 {
        t_i = 3 * dt64 * dt64 / 8589934592;
        off_i = 3 * (tc * tc) / 2;
        sens_i = 5 * (tc * tc) / 8;
        if temp / 100 < -15 {
            off_i = off_i + 7 * (tv * tv);
            sens_i = sens_i + 4 * (tv * tv);
        }
    } else {
        t_i = 2 * dt64 * dt64 / 137438953472;
        off_i = tc * tc / 16;
        sens_i = 0;
    }
    let off = off - off_i;
    let sens = sens - sens_i;

    let pressure_raw: i64 = (raw.0 as i64 * sens / 2097152 - off) / 8192;
    let t_i_narrow: i32 = #[verifier::truncate] (t_i as i32);
    let temperature: i64 = temp - t_i_narrow as i64;
    let temperature_raw: i32 = temperature as i32;
    (pressure_raw, temperature_raw)
}

/// Whether an integer fits in 32 signed bits.
fn fits_i32_exec(x: i128) -> (b: bool)
    ensures
        b == fits_i32(x as int),
{
    -2147483648 <= x && x <= 2147483647
}

/// Whether an integer fits in 64 signed bits.
fn fits_i64_exec(x: i128) -> (b: bool)
    ensures
        b == fits_i64(x as int),
{
    -9223372036854775808 <= x && x <= 9223372036854775807
}

/// The compensation when its arithmetic stays in range (see
/// [`compensation_in_range`]), `None` otherwise.
pub fn try_compensate(raw: (u32, u32), calibration: &[u16; 8]) -> (res: Option<(i64, i32)>)
    ensures
        res is Some <==> compensation_in_range(raw, calibration@),
        res matches Some(r) ==> r.0 == comp_pressure(raw, calibration@) && r.1 == comp_temperature(
            raw,
            calibration@,
        ),
{
    let ghost cal = calibration@;
    let c1 = calibration[1] as i128;
    let c2 = calibration[2] as i128;
    let c3 = calibration[3] as i128;
    let c4 = calibration[4] as i128;
    let c5 = calibration[5] as i128;
    let c6 = calibration[6] as i128;
    let d1 = raw.0 as i128;
    let d2: i32 = #[verifier::truncate] (raw.1 as i32);
    let dt = d2 as i128 - c5 * 256;
    assert(dt == comp_dt(raw, cal));
    if !fits_i32_exec(dt) {
        return None;
    }
    assert(-0x8000_0000_0000 <= dt * c6 <= 0x8000_0000_0000) by (nonlinear_arith)
        requires
            0 <= c6 < 65536,
            i32::MIN <= dt <= i32::MAX,
    ;
    let temp = 2000 + dt * c6 / 8388608;
    assert(temp == comp_temp(raw, cal));
    proof {
        lemma_div_trunc_range(dt * c6, 0x8000_0000_0000, 8388608);
    }
    assert(-0x1_0000_0000_0000 < c4 * dt < 0x1_0000_0000_0000) by (nonlinear_arith)
        requires
            0 <= c4 < 65536,
            i32::MIN <= dt <= i32::MAX,
    ;
    assert(-0x1_0000_0000_0000 < c3 * dt < 0x1_0000_0000_0000) by (nonlinear_arith)
        requires
            0 <= c3 < 65536,
            i32::MIN <= dt <= i32::MAX,
    ;
    let off = c2 * 65536 + c4 * dt / 128;
    let sens = c1 * 32768 + c3 * dt / 256;
    assert(off == comp_off(raw, cal));
    assert(sens == comp_sens(raw, cal));
    proof {
        lemma_div_trunc_range(c4 * dt, 0x1_0000_0000_0000, 128);
        lemma_div_trunc_range(c3 * dt, 0x1_0000_0000_0000, 256);
    }
    assert(0 <= dt * dt <= 0x4000_0000_0000_0000) by (nonlinear_arith)
        requires
            i32::MIN <= dt <= i32::MAX,
    ;
    let tc = temp - 2000;
    let tv = temp + 1500;
    assert(0 <= tc * tc <= 0x1_0000_0000_0000) by (nonlinear_arith)
        requires
            -0x100_0000 <= tc <= 0x100_0000,
    ;
    assert(0 <= tv * tv <= 0x4_0000_0000_0000) by (nonlinear_arith)
        requires
            -0x200_0000 <= tv <= 0x200_0000,
    ;
    let low = temp / 100 < 20;
    let very_low = temp / 100 < -15;
    assert(3 * dt * dt == 3 * (dt * dt) && 2 * dt * dt == 2 * (dt * dt)) by (nonlinear_arith);
    let sq3 = 3 * dt * dt;
    let sq2 = 2 * dt * dt;
    if low && !fits_i64_exec(sq3) {
        return None;
    }
    if !low && !fits_i64_exec(sq2) {
        return None;
    }
    let t_i;
    let mut off_i;
    let mut sens_i;
    if low {
        t_i = sq3 / 8589934592;
        off_i = 3 * (tc * tc) / 2;
        sens_i = 5 * (tc * tc) / 8;
        if very_low {
            off_i = off_i + 7 * (tv * tv);
            sens_i = sens_i + 4 * (tv * tv);
        }
    } else {
        t_i = sq2 / 137438953472;
        off_i = tc * tc / 16;
        sens_i = 0;
    }
    assert(t_i == comp_ti(raw, cal));
    assert(off_i == comp_off_i(raw, cal));
    assert(sens_i == comp_sens_i(raw, cal));
    let off2 = off - off_i;
    let sens2 = sens - sens_i;
    assert(-0x1_0000_0000_0000_0000_0000_0000 < d1 * sens2 < 0x1_0000_0000_0000_0000_0000_0000)
        by (nonlinear_arith)
        requires
            0 <= d1 < 0x1_0000_0000,
            -0x1_0000_0000_0000_0000 < sens2 < 0x1_0000_0000_0000_0000,
    ;
    let product = d1 * sens2;
    let shifted = product / 2097152 - off2;
    let t_narrow: i32 = #[verifier::truncate] (t_i as i32);
    let temperature = temp - t_narrow as i128;
    let ok = fits_i64_exec(product) && fits_i64_exec(shifted) && fits_i32_exec(temperature);
    if ok {
        Some(compensate(raw, calibration))
    } else {
        None
    }
}

/// Every pair of 24-bit conversion results (the width of the sensor's ADC) is
/// compensated without overflow, whatever the calibration.
pub proof fn law_adc_readings_in_range(raw: (u32, u32), cal: Seq<u16>)
    requires
        raw.0 < 0x100_0000,
        raw.1 < 0x100_0000,
        cal.len() == 8,
    ensures
        compensation_in_range(raw, cal),
{
    let d1 = raw.0 as int;
    let d2 = raw.1;
    let c1 = cal[1] as int;
    let c2 = cal[2] as int;
    let c3 = cal[3] as int;
    let c4 = cal[4] as int;
    let c5 = cal[5] as int;
    let c6 = cal[6] as int;
    assert(d2 < 0x100_0000 ==> (d2 as i32) as int == d2 as int) by (bit_vector);
    let dt = comp_dt(raw, cal);
    assert(-0x100_0000 < dt < 0x100_0000);

    // Temperature before the second order correction
    assert(-0x100_0000_0000 <= dt * c6 <= 0x100_0000_0000) by (nonlinear_arith)
        requires
            0 <= c6 < 65536,
            -0x100_0000 < dt < 0x100_0000,
    ;
    lemma_div_trunc_range(dt * c6, 0x100_0000_0000, 8388608);
    let t = comp_temp(raw, cal);
    let tc = t - 2000;
    let tv = t + 1500;
    assert(-131072 <= tc <= 131072);
    assert(0 <= tc * tc <= 0x4_0000_0000) by (nonlinear_arith)
        requires
            -131072 <= tc <= 131072,
    ;
    assert(0 <= tv * tv <= 0x8_0000_0000) by (nonlinear_arith)
        requires
            -134572 <= tv <= 134572,
    ;

    // Second order terms
    assert(0 <= dt * dt < 0x1_0000_0000_0000) by (nonlinear_arith)
        requires
            -0x100_0000 < dt < 0x100_0000,
    ;
    assert(3 * dt * dt == 3 * (dt * dt) && 2 * dt * dt == 2 * (dt * dt)) by (nonlinear_arith);
    let ti = comp_ti(raw, cal);
    lemma_div_trunc_range(3 * dt * dt, 0x3_0000_0000_0000, 8589934592);
    lemma_div_trunc_range(2 * dt * dt, 0x2_0000_0000_0000, 137438953472);
    assert(0 <= ti <= 98304);
    assert((ti as i32) as int == ti);
    let off_i = comp_off_i(raw, cal);
    let sens_i = comp_sens_i(raw, cal);
    lemma_div_trunc_range(3 * (tc * tc), 0xC_0000_0000, 2);
    lemma_div_trunc_range(5 * (tc * tc), 0x14_0000_0000, 8);
    lemma_div_trunc_range(tc * tc, 0x4_0000_0000, 16);
    assert(0 <= off_i < 0x40_0000_0000);
    assert(0 <= sens_i < 0x40_0000_0000);

    // Offset and sensitivity
    assert(-0x100_0000_0000 <= c4 * dt <= 0x100_0000_0000) by (nonlinear_arith)
        requires
            0 <= c4 < 65536,
            -0x100_0000 < dt < 0x100_0000,
    ;
    assert(-0x100_0000_0000 <= c3 * dt <= 0x100_0000_0000) by (nonlinear_arith)
        requires
            0 <= c3 < 65536,
            -0x100_0000 < dt < 0x100_0000,
    ;
    lemma_div_trunc_range(c4 * dt, 0x100_0000_0000, 128);
    lemma_div_trunc_range(c3 * dt, 0x100_0000_0000, 256);
    let off = comp_off(raw, cal) - off_i;
    let sens = comp_sens(raw, cal) - sens_i;
    assert(-0x80_0000_0000 < off < 0x80_0000_0000);
    assert(-0x80_0000_0000 < sens < 0x80_0000_0000);

    // Pressure
    assert(-0x8000_0000_0000_0000 < d1 * sens < 0x8000_0000_0000_0000) by (nonlinear_arith)
        requires
            0 <= d1 < 0x100_0000,
            -0x80_0000_0000 < sens < 0x80_0000_0000,
    ;
    lemma_div_trunc_range(d1 * sens, 0x8000_0000_0000_0000, 2097152);
}

proof fn lemma_crc_remainder_depends_on_bytes(a: Seq<u16>, b: Seq<u16>, n: nat)
    requires
        forall|i: int| 0 <= i < n ==> #[trigger] crc_byte(a, i) == crc_byte(b, i),
    ensures
        crc_remainder(a, n) == crc_remainder(b, n),
    decreases n,
{
    if n > 0 {
        lemma_crc_remainder_depends_on_bytes(a, b, (n - 1) as nat);
        assert(crc_byte(a, n - 1) == crc_byte(b, n - 1));
    }
}

/// The CRC covers the calibration coefficients only: the stored CRC nibble in
/// the top of word 0, and word 7, do not change it.
pub proof fn law_crc_ignores_crc_nibble_and_last_word(a: Seq<u16>, b: Seq<u16>)
    requires
        a.len() == 8,
        b.len() == 8,
        a[0] & 0x0FFFu16 == b[0] & 0x0FFFu16,
        forall|j: int| 1 <= j < 7 ==> #[trigger] a[j] == b[j],
    ensures
        spec_crc4(a) == spec_crc4(b),
{
    assert forall|i: int| 0 <= i < 16 implies #[trigger] crc_byte(a, i) == crc_byte(b, i) by {
        assert(crc_word(a, i / 2) == crc_word(b, i / 2));
    }
    lemma_crc_remainder_depends_on_bytes(a, b, 16);
}

proof fn lemma_crc_shift_xor(x: u16, y: u16)
    ensures
        crc_shift(x ^ y) == crc_shift(x) ^ crc_shift(y),
{
    assert((if (x ^ y) & 0x8000u16 != 0 {
        (((x ^ y) << 1u16) ^ 0x3000u16) as u16
    } else {
        ((x ^ y) << 1u16) as u16
    }) == (if x & 0x8000u16 != 0 {
        ((x << 1u16) ^ 0x3000u16) as u16
    } else {
        (x << 1u16) as u16
    }) ^ (if y & 0x8000u16 != 0 {
        ((y << 1u16) ^ 0x3000u16) as u16
    } else {
        (y << 1u16) as u16
    })) by (bit_vector);
}

proof fn lemma_crc_shift_n_xor(x: u16, y: u16, n: nat)
    ensures
        crc_shift_n(x ^ y, n) == crc_shift_n(x, n) ^ crc_shift_n(y, n),
    decreases n,
{
    if n > 0 {
        lemma_crc_shift_n_xor(x, y, (n - 1) as nat);
        lemma_crc_shift_xor(crc_shift_n(x, (n - 1) as nat), crc_shift_n(y, (n - 1) as nat));
    }
}

proof fn lemma_crc_byte_xor(a: Seq<u16>, b: Seq<u16>, c: Seq<u16>, i: int)
    requires
        a.len() == 8,
        b.len() == 8,
        c.len() == 8,
        forall|j: int| 0 <= j < 8 ==> #[trigger] c[j] == a[j] ^ b[j],
        0 <= i < 16,
    ensures
        crc_byte(c, i) == crc_byte(a, i) ^ crc_byte(b, i),
{
    let j = i / 2;
    let wa = crc_word(a, j);
    let wb = crc_word(b, j);
    let wc = crc_word(c, j);
    assert(wc == wa ^ wb) by {
        let (x, y) = (a[j], b[j]);
        assert(c[j] == x ^ y);
        assert(((x ^ y) & 0x0FFFu16) == (x & 0x0FFFu16) ^ (y & 0x0FFFu16)) by (bit_vector);
        assert((0u16 ^ 0u16) == 0u16) by (bit_vector);
    }
    assert(((wa ^ wb) & 0x00FFu16) == (wa & 0x00FFu16) ^ (wb & 0x00FFu16)) by (bit_vector);
    assert(((wa ^ wb) >> 8u16) == (wa >> 8u16) ^ (wb >> 8u16)) by (bit_vector);
}

proof fn lemma_crc_remainder_xor(a: Seq<u16>, b: Seq<u16>, c: Seq<u16>, n: nat)
    requires
        a.len() == 8,
        b.len() == 8,
        c.len() == 8,
        forall|j: int| 0 <= j < 8 ==> #[trigger] c[j] == a[j] ^ b[j],
        n <= 16,
    ensures
        crc_remainder(c, n) == crc_remainder(a, n) ^ crc_remainder(b, n),
    decreases n,
{
    if n > 0 {
        lemma_crc_remainder_xor(a, b, c, (n - 1) as nat);
        lemma_crc_byte_xor(a, b, c, n - 1);
        let (ra, rb) = (crc_remainder(a, (n - 1) as nat), crc_remainder(b, (n - 1) as nat));
        let (ba, bb) = (crc_byte(a, n - 1), crc_byte(b, n - 1));
        assert(((ra ^ rb) ^ (ba ^ bb)) == ((ra ^ ba) ^ (rb ^ bb))) by (bit_vector);
        lemma_crc_shift_n_xor(ra ^ ba, rb ^ bb, 8);
        assert(crc_remainder(c, n) == crc_shift_n((ra ^ rb) ^ (ba ^ bb), 8));
    } else {
        assert((0u16 ^ 0u16) == 0u16) by (bit_vector);
    }
}

/// The CRC-4 is linear over xor: the CRC of the word-by-word xor of two PROMs
/// is the xor of their CRCs.
pub proof fn law_crc_linear(a: Seq<u16>, b: Seq<u16>, c: Seq<u16>)
    requires
        a.len() == 8,
        b.len() == 8,
        c.len() == 8,
        forall|j: int| 0 <= j < 8 ==> #[trigger] c[j] == a[j] ^ b[j],
    ensures
        spec_crc4(c) == spec_crc4(a) ^ spec_crc4(b),
{
    lemma_crc_remainder_xor(a, b, c, 16);
    let (ra, rb) = (crc_remainder(a, 16), crc_remainder(b, 16));
    assert(((ra ^ rb) >> 12u16) as u8 == ((ra >> 12u16) as u8) ^ ((rb >> 12u16) as u8))
        by (bit_vector);
}

/// `2^i`.
pub open spec fn two_to(i: nat) -> nat
    decreases i,
{
    if i == 0 {
        1
    } else {
        2 * two_to((i - 1) as nat)
    }
}

proof fn lemma_shift_n_compose(r: u16, a: nat, b: nat)
    ensures
        crc_shift_n(r, a + b) == crc_shift_n(crc_shift_n(r, a), b),
    decreases b,
{
    if b > 0 {
        lemma_shift_n_compose(r, a, (b - 1) as nat);
        assert((a + b - 1) as nat == a + (b - 1) as nat);
    }
}

/// While nothing reaches the top bit, the register just doubles.
proof fn lemma_shift_n_doubles(r: u16, i: nat)
    requires
        r * two_to(i) < 0x10000,
    ensures
        crc_shift_n(r, i) == r * two_to(i),
    decreases i,
{
    if i > 0 {
        let j = (i - 1) as nat;
        assert(r * two_to(i) == 2 * (r * two_to(j))) by (nonlinear_arith)
            requires
                two_to(i) == 2 * two_to(j),
        ;
        lemma_shift_n_doubles(r, j);
        let x = crc_shift_n(r, j);
        assert(x < 0x8000);
        assert(x < 0x8000 ==> x & 0x8000u16 == 0 && (x << 1u16) as u16 == 2 * x) by (bit_vector);
        assert(crc_shift(x) == 2 * x);
        assert(crc_shift_n(r, i) == crc_shift(x));
    } else {
        assert(two_to(0) == 1);
        assert(r * 1 == r);
    }
}

/// A register whose twelve low bits are zero and whose top nibble is not keeps
/// that shape under every shift: the top nibble runs through the nonzero
/// elements of GF(16).
proof fn lemma_shift_n_keeps_top_nibble(r: u16, n: nat)
    requires
        r & 0x0FFFu16 == 0,
        r != 0,
    ensures
        crc_shift_n(r, n) & 0x0FFFu16 == 0,
        crc_shift_n(r, n) != 0,
    decreases n,
{
    if n > 0 {
        lemma_shift_n_keeps_top_nibble(r, (n - 1) as nat);
        let x = crc_shift_n(r, (n - 1) as nat);
        assert(x & 0x0FFFu16 == 0 && x != 0 ==> crc_shift(x) & 0x0FFFu16 == 0 && crc_shift(x)
            != 0) by (bit_vector);
    }
}

/// From byte `k0` on, a PROM that is zero beyond word 0 feeds only zero bytes
/// (for `k0 >= 2`), so a CRC register with a nonzero top nibble over zero low
/// bits keeps that shape.
proof fn lemma_zero_bytes_keep_top_nibble(d: u16, k0: nat, k: nat)
    requires
        2 <= k0 <= k <= 16,
        crc_remainder(seq![d, 0u16, 0u16, 0u16, 0u16, 0u16, 0u16, 0u16], k0) & 0x0FFFu16 == 0,
        crc_remainder(seq![d, 0u16, 0u16, 0u16, 0u16, 0u16, 0u16, 0u16], k0) != 0,
    ensures
        crc_remainder(seq![d, 0u16, 0u16, 0u16, 0u16, 0u16, 0u16, 0u16], k) & 0x0FFFu16 == 0,
        crc_remainder(seq![d, 0u16, 0u16, 0u16, 0u16, 0u16, 0u16, 0u16], k) != 0,
    decreases k,
{
    let z = seq![d, 0u16, 0u16, 0u16, 0u16, 0u16, 0u16, 0u16];
    if k > k0 {
        let i = (k - 1) as nat;
        lemma_zero_bytes_keep_top_nibble(d, k0, i);
        let r = crc_remainder(z, i);
        let w = crc_word(z, (i as int) / 2);
        assert(w == 0u16);
        assert((0u16 & 0x00FFu16) == 0u16 && (0u16 >> 8u16) == 0u16) by (bit_vector);
        assert(crc_byte(z, i as int) == 0u16);
        assert((r ^ 0u16) == r) by (bit_vector);
        lemma_shift_n_keeps_top_nibble(r, 8);
    }
}

/// The CRC of a PROM that is zero but for one nonzero nibble among the twelve
/// low bits of word 0 is not zero.
proof fn lemma_word0_nibble_crc_nonzero(d: u16)
    requires
        d != 0,
        d & 0xF0FFu16 == 0 || d & 0xFF0Fu16 == 0 || d & 0xFFF0u16 == 0,
    ensures
        spec_crc4(seq![d, 0u16, 0u16, 0u16, 0u16, 0u16, 0u16, 0u16]) != 0,
{
    let z = seq![d, 0u16, 0u16, 0u16, 0u16, 0u16, 0u16, 0u16];
    let hi = d >> 8u16;
    let lo = d & 0x00FFu16;
    assert(d & 0x0FFFu16 == d && hi < 16 && lo < 256 && (d & 0xF0FFu16 == 0 ==> lo == 0 && 1
        <= hi) && (d & 0xF0FFu16 != 0 ==> hi == 0 && 1 <= lo && (lo < 16 || lo & 0x0Fu16 == 0)))
        by (bit_vector)
        requires
            d != 0,
            d & 0xF0FFu16 == 0 || d & 0xFF0Fu16 == 0 || d & 0xFFF0u16 == 0,
            hi == d >> 8u16,
            lo == d & 0x00FFu16,
    ;
    reveal_with_fuel(two_to, 9);
    assert(two_to(8) == 256);
    assert(two_to(4) == 16);
    assert(crc_remainder(z, 0) == 0u16);
    assert(crc_byte(z, 0) == hi);
    assert(crc_byte(z, 1) == lo);
    assert((0u16 ^ hi) == hi && (0u16 ^ lo) == lo && (lo ^ 0u16) == lo) by (bit_vector);
    // First byte: the high part moves up without reduction.
    lemma_shift_n_doubles(hi, 8);
    let r1 = crc_remainder(z, 1);
    assert(r1 == crc_shift_n(hi, 8));
    assert(r1 == hi * 256);
    if hi != 0 {
        // Bits 8..11: the second byte is zero; four doublings bring the
        // nibble to the top, four more keep it there.
        assert((r1 ^ 0u16) == r1) by (bit_vector);
        lemma_shift_n_doubles(r1, 4);
        lemma_shift_n_compose(r1, 4, 4);
        let t = (hi * 4096) as u16;
        assert(t == r1 * 16);
        assert(t & 0x0FFFu16 == 0 && t != 0) by (bit_vector)
            requires
                1 <= hi < 16,
                t == hi * 4096,
        ;
        lemma_shift_n_keeps_top_nibble(t, 4);
        lemma_zero_bytes_keep_top_nibble(d, 2, 16);
    } else {
        assert(r1 == 0u16);
        let r2 = crc_remainder(z, 2);
        assert(r2 == crc_shift_n(r1 ^ lo, 8));
        assert((0u16 ^ lo) == lo) by (bit_vector);
        lemma_shift_n_doubles(lo, 8);
        assert(r2 == lo * 256);
        if lo >= 16 {
            // Bits 4..7: eight doublings bring the nibble to the top.
            assert(r2 & 0x0FFFu16 == 0 && r2 != 0) by (bit_vector)
                requires
                    16 <= lo < 256,
                    lo & 0x0Fu16 == 0,
                    r2 == lo * 256,
            ;
            lemma_zero_bytes_keep_top_nibble(d, 2, 16);
        } else {
            // Bits 0..3: the third byte is zero; its first four doublings bring
            // the nibble to the top.
            assert(crc_word(z, 1) == 0u16);
            assert((0u16 >> 8u16) == 0u16) by (bit_vector);
            assert(crc_byte(z, 2) == 0u16);
            assert((r2 ^ 0u16) == r2) by (bit_vector);
            lemma_shift_n_doubles(r2, 4);
            lemma_shift_n_compose(r2, 4, 4);
            let t = (lo * 4096) as u16;
            assert(t == r2 * 16);
            assert(t & 0x0FFFu16 == 0 && t != 0) by (bit_vector)
                requires
                    1 <= lo < 16,
                    t == lo * 4096,
            ;
            lemma_shift_n_keeps_top_nibble(t, 4);
            let r3 = crc_remainder(z, 3);
            assert(r3 == crc_shift_n(r2 ^ 0u16, 8));
            lemma_zero_bytes_keep_top_nibble(d, 3, 16);
        }
    }
    let r16 = crc_remainder(z, 16);
    assert(r16 & 0x0FFFu16 == 0 && r16 != 0 ==> ((r16 >> 12u16) as u8) != 0) by (bit_vector);
}

/// Every one of the twelve low bits of PROM word 0 counts: two PROMs that agree
/// on words 1..6 and whose words 0 differ, below the stored CRC nibble, only
/// within one nibble (bits 0..3, 4..7 or 8..11) have different CRCs, so such a
/// change is always detected.
pub proof fn law_crc_detects_word0_nibble_change(a: Seq<u16>, b: Seq<u16>)
    requires
        a.len() == 8,
        b.len() == 8,
        forall|j: int| 1 <= j < 7 ==> #[trigger] a[j] == b[j],
        (a[0] ^ b[0]) & 0x0FFFu16 != 0,
        (a[0] ^ b[0]) & 0x00FFu16 == 0 || (a[0] ^ b[0]) & 0x0F0Fu16 == 0 || (a[0] ^ b[0])
            & 0x0FF0u16 == 0,
    ensures
        spec_crc4(a) != spec_crc4(b),
{
    let c = Seq::new(8, |j: int| a[j] ^ b[j]);
    law_crc_linear(a, b, c);
    let x = a[0] ^ b[0];
    let d = x & 0x0FFFu16;
    assert(d != 0 && (d & 0xF0FFu16 == 0 || d & 0xFF0Fu16 == 0 || d & 0xFFF0u16 == 0) && d
        & 0x0FFFu16 == d) by (bit_vector)
        requires
            d == x & 0x0FFFu16,
            x & 0x0FFFu16 != 0,
            x & 0x00FFu16 == 0 || x & 0x0F0Fu16 == 0 || x & 0x0FF0u16 == 0,
    ;
    let z = seq![d, 0u16, 0u16, 0u16, 0u16, 0u16, 0u16, 0u16];
    assert(c[0] == x);
    assert forall|j: int| 1 <= j < 7 implies #[trigger] c[j] == z[j] by {
        let (u, v) = (a[j], b[j]);
        assert(u == v ==> (u ^ v) == 0u16) by (bit_vector);
    }
    law_crc_ignores_crc_nibble_and_last_word(c, z);
    lemma_word0_nibble_crc_nonzero(d);
    let (p, q) = (spec_crc4(a), spec_crc4(b));
    assert((p ^ q) != 0u8 ==> p != q) by (bit_vector);
}

} // verus!
