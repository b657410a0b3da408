//! Register encoding of the ADS1115 analog to digital converter.

use vstd::prelude::*;

verus! {

/// Register pointer of the conversion result.
pub const POINTER_CONVERSION: u8 = 0x00;
/// Register pointer of the configuration register.
pub const POINTER_CONFIG: u8 = 0x01;

/// A single-ended input channel of the converter.
#[derive(Debug, Clone, Copy, PartialEq, Eq, Hash, Structural)]
pub enum AnalogChannel {
    Ch0,
    Ch1,
    Ch2,
    Ch3,
}

/// The input multiplexer setting that measures a channel against ground.
pub open spec fn spec_selector(channel: AnalogChannel) -> u16 {
    match channel {
        AnalogChannel::Ch0 => 0b100,
        AnalogChannel::Ch1 => 0b101,
        AnalogChannel::Ch2 => 0b110,
        AnalogChannel::Ch3 => 0b111,
    }
}

impl AnalogChannel {
    /// The input multiplexer setting that measures this channel against ground.
    pub fn selector(&self) -> (sel: u16)
        ensures
            sel == spec_selector(*self),
            4 <= sel <= 7,
    {
        match self {
            AnalogChannel::Ch0 => 0b100,
            AnalogChannel::Ch1 => 0b101,
            AnalogChannel::Ch2 => 0b110,
            AnalogChannel::Ch3 => 0b111,
        }
    }
}

/// The configuration word that starts a single-shot conversion on `channel`:
/// start bit (15), multiplexer (14..12), gain ±4.096 V (11..9), single-shot mode
/// (8) and 860 samples per second (7..5); the comparator bits stay zero.
pub open spec fn spec_conversion_config(channel: AnalogChannel) -> u16 {
    (0x8000 + spec_selector(channel) * 0x1000 + 0b001 * 0x200 + 0x100 + 0b111 * 0x20) as u16
}

/// The configuration word that starts a single-shot conversion on `channel`.
pub fn conversion_config(channel: AnalogChannel) -> (config: u16)
    ensures
        config == spec_conversion_config(channel),
{
    let sel = channel.selector();
    let config: u16 = 1 << 15 | sel << 12 | 0b001 << 9 | 1 << 8 | 0b111 << 5;
    assert(4 <= sel <= 7 ==> (1u16 << 15u16 | sel << 12u16 | 0b001u16 << 9u16 | 1u16 << 8u16
        | 0b111u16 << 5u16) == 0x8000 + sel * 0x1000 + 0x200 + 0x100 + 0xE0) by (bit_vector);
    config
}

/// The two bytes of a register word as they go over the bus, most significant
/// byte first.
pub fn word_to_be_bytes(word: u16) -> (bytes: [u8; 2])
    ensures
        bytes@[0] == word / 256,
        bytes@[1] == word % 256,
{
    let hi = (word >> 8) as u8;
    let lo = (word & 0xff) as u8;
    assert((word >> 8u16) == word / 256 && (word & 0xffu16) == word % 256) by (bit_vector);
    [hi, lo]
}

/// A register word from the two bytes read back, most significant byte first.
pub fn word_from_be_bytes(bytes: [u8; 2]) -> (word: u16)
    ensures
        word == bytes@[0] * 256 + bytes@[1],
{
    let hi = bytes[0];
    let lo = bytes[1];
    assert(((hi as u16) << 8u16 | lo as u16) == hi * 256 + lo) by (bit_vector);
    (hi as u16) << 8 | lo as u16
}

/// Whether the configuration register read back reports that no conversion is
/// in progress: its most significant bit is set.
pub fn conversion_ready(config: [u8; 2]) -> (ready: bool)
    ensures
        ready == (config@[0] >= 0x80),
{
    let word = word_from_be_bytes(config);
    let value = word as i16;
    assert((word as i16) & (1i16 << 15i16) != 0 <==> word >= 0x8000) by (bit_vector);
    value & (1 << 15) != 0
}


/// Splitting a register word into its bus bytes and joining them again gives
/// the word back.
pub proof fn law_word_bytes_round_trip(word: u16)
    ensures
        (word / 256) * 256 + word % 256 == word,
        word / 256 < 256,
        word % 256 < 256,
{
}

} // verus!
