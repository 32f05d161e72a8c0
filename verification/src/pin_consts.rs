//! The character table of the display and the encoder that reads it.

use vstd::prelude::*;

verus! {

/// Segment patterns, one bit per segment: the decimal point first, then the
/// digits 0 to 9.
pub const CHAR_TABLE: [u8; 11] = [
    0x01,  // Dot
    0xFC, 0x60, 0xDA, 0xF2, 0x66, 0xB6, 0xBE, 0xE0, 0xFE, 0xF6,  // 0-9
];

/// Whether bit `idx` of `byte` is set, bit 0 being the least significant.
pub open spec fn bit_at(byte: u8, idx: u8) -> bool {
    (byte >> idx) & 1 == 1
}

/// The pattern that stands for `symbol`: the table entry after the decimal
/// point's for the digits 0 to 9, the decimal point's for every other value.
pub open spec fn encode(symbol: u8) -> u8 {
    if symbol <= 9 {
        CHAR_TABLE[symbol + 1]
    } else {
        CHAR_TABLE[0]
    }
}

/// Encodes a digit as its segment pattern. A value that is no digit is shown
/// as the decimal point; no input is an error.
pub fn num_to_led_char(num: u8) -> (pattern: u8)
    ensures
        pattern == encode(num),
        num <= 9 ==> pattern == CHAR_TABLE[num + 1],
        num > 9 ==> pattern == CHAR_TABLE[0],
        pattern != 0,
{
    if num < 10 {
        let idx: usize = (num + 1) as usize;
        CHAR_TABLE[idx]
    } else {
        CHAR_TABLE[0]
    }
}

/// No symbol encodes to the empty pattern: every table entry lights at least
/// one segment.
pub proof fn lemma_encode_nonzero(symbol: u8)
    ensures
        encode(symbol) != 0,
{
}

} // verus!
