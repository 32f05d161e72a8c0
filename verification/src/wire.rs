//! What a trace of signals does on the wires, as the receiving hardware
//! sees it.

use vstd::prelude::*;
use crate::pin_consts::bit_at;
use crate::signal::{Line, Signal};

verus! {

/// Whether `trace` leaves `line` driven high. A line that no signal of the
/// trace drives counts as low.
pub open spec fn driven_high(trace: Seq<Signal>, line: Line) -> bool
    decreases trace.len(),
{
    if trace.len() == 0 {
        false
    } else if trace.last() == Signal::high(line) {
        true
    } else if trace.last() == Signal::low(line) {
        false
    } else {
        driven_high(trace.drop_last(), line)
    }
}

/// The number of pulses that `trace` puts on `line`: the times that the
/// line, driven high, is driven low again.
pub open spec fn pulses(trace: Seq<Signal>, line: Line) -> nat
    decreases trace.len(),
{
    if trace.len() == 0 {
        0
    } else {
        let before = trace.drop_last();
        if trace.last() == Signal::low(line) && driven_high(before, line) {
            pulses(before, line) + 1
        } else {
            pulses(before, line)
        }
    }
}

/// The bits that `trace` shifts into a register: the level of `data` at each
/// rising edge of `clock`, in the order of the edges.
pub open spec fn shifted_in(trace: Seq<Signal>, clock: Line, data: Line) -> Seq<bool>
    decreases trace.len(),
{
    if trace.len() == 0 {
        Seq::empty()
    } else {
        let before = trace.drop_last();
        if trace.last() == Signal::high(clock) && !driven_high(before, clock) {
            shifted_in(before, clock, data).push(driven_high(before, data))
        } else {
            shifted_in(before, clock, data)
        }
    }
}

/// The eight bits of `byte`, least significant first.
pub open spec fn bits_lsb_first(byte: u8) -> Seq<bool> {
    Seq::new(8, |i: int| bit_at(byte, i as u8))
}

/// The byte whose bits are the first eight of `bits`, least significant
/// first.
pub open spec fn byte_of_bits(bits: Seq<bool>) -> u8 {
    (if bits[0] { 0x01u8 } else { 0 })
        | (if bits[1] { 0x02u8 } else { 0 })
        | (if bits[2] { 0x04u8 } else { 0 })
        | (if bits[3] { 0x08u8 } else { 0 })
        | (if bits[4] { 0x10u8 } else { 0 })
        | (if bits[5] { 0x20u8 } else { 0 })
        | (if bits[6] { 0x40u8 } else { 0 })
        | (if bits[7] { 0x80u8 } else { 0 })
}

/// The pattern that a receiver reads from a load that it has captured: the
/// eight bits shifted in, put together least significant first and
/// complemented. A trace that shifts in more or fewer bits than eight holds
/// no load to read.
pub open spec fn decode(trace: Seq<Signal>, clock: Line, data: Line) -> Option<u8> {
    let bits = shifted_in(trace, clock, data);
    if bits.len() == 8 {
        Some(byte_of_bits(bits) ^ 0xFF)
    } else {
        None
    }
}

/// How one more signal changes what a trace does on `line`, and what it
/// shifts in where `line` is the clock and `data` the data line.
pub proof fn lemma_step(trace: Seq<Signal>, signal: Signal, line: Line, data: Line)
    ensures
        driven_high(trace.push(signal), line) == (if signal == Signal::high(line) {
            true
        } else if signal == Signal::low(line) {
            false
        } else {
            driven_high(trace, line)
        }),
        pulses(trace.push(signal), line) == (if signal == Signal::low(line) && driven_high(
            trace,
            line,
        ) {
            pulses(trace, line) + 1
        } else {
            pulses(trace, line)
        }),
        shifted_in(trace.push(signal), line, data) == (if signal == Signal::high(line)
            && !driven_high(trace, line) {
            shifted_in(trace, line, data).push(driven_high(trace, data))
        } else {
            shifted_in(trace, line, data)
        }),
{
    assert(trace.push(signal).drop_last() =~= trace);
}

/// Putting the bits of a byte together again gives the byte.
pub proof fn lemma_byte_of_its_bits(byte: u8)
    ensures
        byte_of_bits(bits_lsb_first(byte)) == byte,
{
    assert((if (byte >> 0u8) & 1 == 1 { 0x01u8 } else { 0 })
        | (if (byte >> 1u8) & 1 == 1 { 0x02u8 } else { 0 })
        | (if (byte >> 2u8) & 1 == 1 { 0x04u8 } else { 0 })
        | (if (byte >> 3u8) & 1 == 1 { 0x08u8 } else { 0 })
        | (if (byte >> 4u8) & 1 == 1 { 0x10u8 } else { 0 })
        | (if (byte >> 5u8) & 1 == 1 { 0x20u8 } else { 0 })
        | (if (byte >> 6u8) & 1 == 1 { 0x40u8 } else { 0 })
        | (if (byte >> 7u8) & 1 == 1 { 0x80u8 } else { 0 }) == byte) by (bit_vector);
}

/// Whether no signal of `trace` drives `line`.
pub open spec fn quiet(trace: Seq<Signal>, line: Line) -> bool {
    forall|i: int|
        0 <= i < trace.len() ==> #[trigger] trace[i] != Signal::high(line) && trace[i]
            != Signal::low(line)
}

/// Whether at most one of `lines` is left driven high by `trace`.
pub open spec fn at_most_one_high(trace: Seq<Signal>, lines: Seq<Line>) -> bool {
    forall|i: int, j: int|
        0 <= i < j < lines.len() ==> !(driven_high(trace, #[trigger] lines[i]) && driven_high(
            trace,
            #[trigger] lines[j],
        ))
}

/// Whether the high times of `lines` never overlap in `trace`: after each
/// of its signals at most one of them is driven high.
pub open spec fn one_at_a_time(trace: Seq<Signal>, lines: Seq<Line>) -> bool {
    forall|k: int| 0 <= k <= trace.len() ==> at_most_one_high(#[trigger] trace.take(k), lines)
}

/// The lines among `lines` that `trace` raises, in the order in which it
/// raises them. A line is raised when a signal drives it high that was not
/// driven high before.
pub open spec fn raised(trace: Seq<Signal>, lines: Seq<Line>) -> Seq<Line>
    decreases trace.len(),
{
    if trace.len() == 0 {
        Seq::empty()
    } else {
        let before = trace.drop_last();
        match trace.last() {
            Signal::Drive { line, high } => if high && lines.contains(line) && !driven_high(
                before,
                line,
            ) {
                raised(before, lines).push(line)
            } else {
                raised(before, lines)
            },
            _ => raised(before, lines),
        }
    }
}

/// How one more signal changes which lines a trace has raised.
pub proof fn lemma_step_raised(trace: Seq<Signal>, signal: Signal, lines: Seq<Line>)
    ensures
        raised(trace.push(signal), lines) == (match signal {
            Signal::Drive { line, high } => if high && lines.contains(line) && !driven_high(
                trace,
                line,
            ) {
                raised(trace, lines).push(line)
            } else {
                raised(trace, lines)
            },
            _ => raised(trace, lines),
        }),
{
    assert(trace.push(signal).drop_last() =~= trace);
}

/// Signals that drive none of `lines` raise none of them.
pub proof fn lemma_quiet_raised(before: Seq<Signal>, added: Seq<Signal>, lines: Seq<Line>)
    requires
        forall|j: int| 0 <= j < lines.len() ==> quiet(added, #[trigger] lines[j]),
    ensures
        raised(before + added, lines) == raised(before, lines),
    decreases added.len(),
{
    if added.len() == 0 {
        assert(before + added =~= before);
    } else {
        let shorter = added.drop_last();
        let last = added.last();
        assert(before + added =~= (before + shorter).push(last));
        assert forall|j: int| 0 <= j < lines.len() implies quiet(shorter, #[trigger] lines[j]) by {
            assert(quiet(added, lines[j]));
        }
        lemma_quiet_raised(before, shorter, lines);
        lemma_step_raised(before + shorter, last, lines);
        if let Signal::Drive { line, high } = last {
            if lines.contains(line) {
                let j = choose|j: int| 0 <= j < lines.len() && lines[j] == line;
                assert(quiet(added, lines[j]));
                assert(added[added.len() - 1] == last);
            }
        }
    }
}

/// Signals on other lines change nothing of what `line` does, nor of what
/// is shifted in where `line` is the clock.
pub proof fn lemma_quiet(before: Seq<Signal>, added: Seq<Signal>, line: Line, data: Line)
    requires
        quiet(added, line),
    ensures
        driven_high(before + added, line) == driven_high(before, line),
        pulses(before + added, line) == pulses(before, line),
        shifted_in(before + added, line, data) == shifted_in(before, line, data),
    decreases added.len(),
{
    if added.len() == 0 {
        assert(before + added =~= before);
    } else {
        let shorter = added.drop_last();
        assert(before + added =~= (before + shorter).push(added.last()));
        lemma_quiet(before, shorter, line, data);
        lemma_step(before + shorter, added.last(), line, data);
    }
}

} // verus!
