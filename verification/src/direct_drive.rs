//! A display without a shift register: eight segment lines, one per bit of
//! a pattern, driven directly, and a table that also holds the letters, so
//! that text can be shown one character after another.

use vstd::prelude::*;
use vstd::string::StringSliceAdditionalSpecFns;
use crate::pin_consts::bit_at;
use crate::signal::{Line, Signal};
use crate::wire::{driven_high, lemma_step};

verus! {

/// How long `toggle_pin` keeps a line high, in milliseconds.
pub const PIN_DELAY_LENGTH: u32 = 100;

/// Segment patterns: the decimal point, the digits 0 to 9, the letters A to
/// Z and the letters a to z.
pub const CHAR_TABLE: [u8; 63] = [
    0x01,  // Dot
    0xFC, 0x60, 0xDA, 0xF2, 0x66, 0xB6, 0xBE, 0xE0, 0xFE, 0xF6,  // 0-9
    0xEE, 0xFE, 0x9C, 0xF8, 0x9E, 0x8E, 0xBC, 0x6E, 0x0C, 0x70, 0xAE, 0x1C, 0xD4, 0xEC, 0xFC, 0xCE,
    0xD6, 0xDE, 0xB6, 0x8C, 0x7C, 0x74, 0xB8, 0x92, 0x56, 0xDA,  // A-Z
    0x32, 0x3E, 0x1A, 0x7A, 0x18, 0x0E, 0x9A, 0x2E, 0x98, 0xB0, 0x96, 0x0C, 0xAA, 0x2A, 0x3A, 0xCE,
    0xE6, 0x0A, 0x30, 0x1E, 0x38, 0x30, 0x54, 0x12, 0x76, 0x12,
];

/// Where the table holds the pattern of the character with code `ch`. The
/// codes from `0` up to `?` follow the decimal point, then come the capital
/// letters, then the small ones. Every other code is shown as the decimal
/// point.
pub open spec fn table_index(ch: u8) -> int {
    if 0x30 <= ch < 0x40 {
        ch - 0x2F
    } else if 0x41 <= ch < 0x5B {
        ch - 0x36
    } else if 0x61 <= ch < 0x7B {
        ch - 0x3C
    } else {
        0
    }
}

/// The first `count` signals of showing `pattern`: one for each of the
/// first `count` lines.
pub open spec fn segment_levels(pattern: u8, pins: Seq<Line>, count: nat) -> Seq<Signal> {
    Seq::new(count, |i: int| Signal::Drive { line: pins[i], high: bit_at(pattern, i as u8) })
}

/// The signals that show `pattern` on the eight lines: line `i` takes the
/// level of bit `i`, and the board then waits `delay_time` milliseconds.
pub open spec fn char_frame(pattern: u8, pins: Seq<Line>, delay_time: u32) -> Seq<Signal> {
    segment_levels(pattern, pins, 8).push(Signal::DelayMs { millis: delay_time })
}

/// The signals that show the characters with the codes `text`, one after
/// another.
pub open spec fn string_frame(text: Seq<u8>, pins: Seq<Line>, delay_time: u32) -> Seq<Signal>
    decreases text.len(),
{
    if text.len() == 0 {
        Seq::empty()
    } else {
        string_frame(text.drop_last(), pins, delay_time) + char_frame(
            CHAR_TABLE[table_index(text.last())],
            pins,
            delay_time,
        )
    }
}

/// The signals that raise `pin` for `PIN_DELAY_LENGTH` milliseconds.
pub open spec fn toggle_frame(pin: Line) -> Seq<Signal> {
    seq![Signal::high(pin), Signal::DelayMs { millis: PIN_DELAY_LENGTH }, Signal::low(pin)]
}

/// Once the first `count` lines have their levels, line `at` among them is
/// high just when bit `at` of the pattern is set.
proof fn lemma_segment_levels(pattern: u8, pins: Seq<Line>, count: nat, at: int)
    requires
        pins.len() == 8,
        pins.no_duplicates(),
        0 <= at < count <= 8,
    ensures
        driven_high(segment_levels(pattern, pins, count), pins[at]) == bit_at(pattern, at as u8),
    decreases count,
{
    let shorter = (count - 1) as nat;
    let last = Signal::Drive { line: pins[shorter as int], high: bit_at(pattern, shorter as u8) };
    assert(segment_levels(pattern, pins, count) =~= segment_levels(pattern, pins, shorter).push(
        last,
    ));
    lemma_step(segment_levels(pattern, pins, shorter), last, pins[at], pins[at]);
    if at < shorter {
        lemma_segment_levels(pattern, pins, shorter, at);
    }
}

/// On eight different lines, showing a pattern leaves line `at` high just
/// when bit `at` of the pattern is set.
pub proof fn lemma_char_on_the_wire(pattern: u8, pins: Seq<Line>, delay_time: u32, at: int)
    requires
        pins.len() == 8,
        pins.no_duplicates(),
        0 <= at < 8,
    ensures
        driven_high(char_frame(pattern, pins, delay_time), pins[at]) == bit_at(
            pattern,
            at as u8,
        ),
{
    lemma_segment_levels(pattern, pins, 8, at);
    lemma_step(
        segment_levels(pattern, pins, 8),
        Signal::DelayMs { millis: delay_time },
        pins[at],
        pins[at],
    );
}

/// Raises `pin` for `PIN_DELAY_LENGTH` milliseconds.
pub fn toggle_pin(pin: &mut Line) -> (signals: Vec<Signal>)
    ensures
        *final(pin) == *old(pin),
        signals@ == toggle_frame(*old(pin)),
{
    let mut signals: Vec<Signal> = Vec::new();
    signals.push(Signal::Drive { line: *pin, high: true });
    signals.push(Signal::DelayMs { millis: PIN_DELAY_LENGTH });
    signals.push(Signal::Drive { line: *pin, high: false });
    signals
}

/// Shows `text` on the eight lines, each character for `delay_time`
/// milliseconds.
pub fn display_string(text: &str, pins: &mut [Line; 8], delay_time: u32) -> (signals: Vec<Signal>)
    ensures
        *final(pins) == *old(pins),
        signals@ == string_frame(text.spec_bytes(), old(pins)@, delay_time),
{
    let bytes = text.as_bytes();
    let mut signals: Vec<Signal> = Vec::new();
    for at in 0..bytes.len()
        invariant
            *pins == *old(pins),
            bytes@ == text.spec_bytes(),
            signals@ == string_frame(bytes@.take(at as int), pins@, delay_time),
    {
        let pattern: u8 = convert_char_to_table_item(&bytes[at]);
        let mut shown = display_char(&pattern, pins, delay_time);
        signals.append(&mut shown);
        assert(bytes@.take(at + 1).drop_last() =~= bytes@.take(at as int));
    }
    assert(bytes@.take(bytes@.len() as int) =~= bytes@);
    signals
}

/// The pattern of the character with code `ch`.
pub fn convert_char_to_table_item(ch: &u8) -> (pattern: u8)
    ensures
        pattern == CHAR_TABLE[table_index(*ch)],
{
    let ch: u8 = *ch;
    let idx: u8 = if 0x30 <= ch && ch < 0x40 {
        ch - 0x2F
    } else if 0x41 <= ch && ch < 0x5B {
        ch - 0x36
    } else if 0x61 <= ch && ch < 0x7B {
        ch - 0x3C
    } else {
        0
    };
    let conv_idx: usize = idx as usize;
    CHAR_TABLE[conv_idx]
}

/// Shows `pattern` on the eight lines for `delay_time` milliseconds. Where
/// the lines are eight different lines, each is left high just when its bit
/// of the pattern is set.
pub fn display_char(
    pattern: &u8,
    pins: &mut [Line; 8],
    delay_time: u32,
) -> (signals: Vec<Signal>)
    ensures
        *final(pins) == *old(pins),
        signals@ == char_frame(*pattern, old(pins)@, delay_time),
        old(pins)@.no_duplicates() ==> forall|at: int|
            0 <= at < 8 ==> driven_high(signals@, #[trigger] old(pins)@[at]) == bit_at(
                *pattern,
                at as u8,
            ),
{
    let mut signals: Vec<Signal> = Vec::new();
    for idx in 0..8u8
        invariant
            *pins == *old(pins),
            signals@ == segment_levels(*pattern, pins@, idx as nat),
    {
        let high: bool = (*pattern >> idx) & 1 == 1;
        signals.push(Signal::Drive { line: pins[idx as usize], high });
    }
    signals.push(Signal::DelayMs { millis: delay_time });
    proof {
        if pins@.no_duplicates() {
            assert forall|at: int| 0 <= at < 8 implies driven_high(signals@, #[trigger] pins@[at])
                == bit_at(*pattern, at as u8) by {
                lemma_char_on_the_wire(*pattern, pins@, delay_time, at);
            }
        }
    }
    signals
}

} // verus!
