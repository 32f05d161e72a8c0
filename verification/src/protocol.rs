//! What the frames of the controllers amount to on the wires.

use vstd::prelude::*;
use crate::led_control::{DisplayController, RegisterController, SegmentController};
use crate::pin_consts::{bit_at, encode, lemma_encode_nonzero};
use crate::signal::{Line, Signal};
use crate::wire::{
    at_most_one_high, bits_lsb_first, decode, driven_high, lemma_byte_of_its_bits, lemma_quiet,
    lemma_quiet_raised, lemma_step, lemma_step_raised, one_at_a_time, pulses, quiet, raised,
    shifted_in,
};

verus! {

/// What one bit cell adds to a trace that leaves the serial clock low.
proof fn lemma_bit_cell(register: RegisterController, trace: Seq<Signal>, bit: bool)
    requires
        register.wired(),
        !driven_high(trace, register.clock()),
    ensures
        ({
            let after = trace + register.bit_cell(bit);
            &&& !driven_high(after, register.clock())
            &&& driven_high(after, register.latch())
            &&& pulses(after, register.clock()) == pulses(trace, register.clock()) + 1
            &&& pulses(after, register.latch()) == pulses(trace, register.latch()) + if driven_high(
                trace,
                register.latch(),
            ) {
                1nat
            } else {
                0
            }
            &&& shifted_in(after, register.clock(), register.data()) == shifted_in(
                trace,
                register.clock(),
                register.data(),
            ).push(bit)
        }),
{
    let clock = register.clock();
    let data = register.data();
    let latch = register.latch();
    let s1 = Signal::low(latch);
    let s2 = Signal::Drive { line: data, high: bit };
    let s3 = Signal::high(clock);
    let s4 = Signal::low(clock);
    let s5 = Signal::high(latch);
    let t1 = trace.push(s1);
    let t2 = t1.push(s2);
    let t3 = t2.push(s3);
    let t4 = t3.push(s4);
    let t5 = t4.push(s5);
    assert(trace + register.bit_cell(bit) =~= t5);
    lemma_step(trace, s1, clock, data);
    lemma_step(trace, s1, latch, data);
    lemma_step(t1, s2, clock, data);
    lemma_step(t1, s2, latch, data);
    lemma_step(t1, s2, data, data);
    lemma_step(t2, s3, clock, data);
    lemma_step(t2, s3, latch, data);
    lemma_step(t3, s4, clock, data);
    lemma_step(t3, s4, latch, data);
    lemma_step(t4, s5, clock, data);
    lemma_step(t4, s5, latch, data);
}

/// What the cells of the lowest `count` bits add to a trace that leaves the
/// serial clock low.
proof fn lemma_bit_cells(
    register: RegisterController,
    trace: Seq<Signal>,
    wire_byte: u8,
    count: nat,
)
    requires
        register.wired(),
        !driven_high(trace, register.clock()),
        count <= 8,
    ensures
        ({
            let after = trace + register.bit_cells(wire_byte, count);
            &&& !driven_high(after, register.clock())
            &&& driven_high(after, register.latch()) == (count > 0 || driven_high(
                trace,
                register.latch(),
            ))
            &&& pulses(after, register.clock()) == pulses(trace, register.clock()) + count
            &&& pulses(after, register.latch()) == pulses(trace, register.latch()) + if count
                == 0 {
                0
            } else if driven_high(trace, register.latch()) {
                count as int
            } else {
                count - 1
            }
            &&& shifted_in(after, register.clock(), register.data()) == shifted_in(
                trace,
                register.clock(),
                register.data(),
            ) + Seq::new(count, |i: int| bit_at(wire_byte, i as u8))
        }),
    decreases count,
{
    if count == 0 {
        assert(trace + register.bit_cells(wire_byte, count) =~= trace);
        assert(shifted_in(trace, register.clock(), register.data()) + Seq::new(
            count,
            |i: int| bit_at(wire_byte, i as u8),
        ) =~= shifted_in(trace, register.clock(), register.data()));
    } else {
        let shorter = (count - 1) as nat;
        let bit = bit_at(wire_byte, shorter as u8);
        let before = trace + register.bit_cells(wire_byte, shorter);
        lemma_bit_cells(register, trace, wire_byte, shorter);
        lemma_bit_cell(register, before, bit);
        assert(trace + register.bit_cells(wire_byte, count) =~= before + register.bit_cell(bit));
        assert(shifted_in(trace, register.clock(), register.data()) + Seq::new(
            count,
            |i: int| bit_at(wire_byte, i as u8),
        ) =~= (shifted_in(trace, register.clock(), register.data()) + Seq::new(
            shorter,
            |i: int| bit_at(wire_byte, i as u8),
        )).push(bit));
    }
}

/// What a load adds to a trace that leaves the serial clock low.
pub proof fn lemma_load_after(register: RegisterController, trace: Seq<Signal>, pattern: u8)
    requires
        register.wired(),
        !driven_high(trace, register.clock()),
        pattern != 0,
    ensures
        ({
            let after = trace + register.byte_frame(pattern);
            &&& !driven_high(after, register.clock())
            &&& !driven_high(after, register.latch())
            &&& pulses(after, register.clock()) == pulses(trace, register.clock()) + 8
            &&& pulses(after, register.latch()) == pulses(trace, register.latch()) + 8
                + if driven_high(trace, register.latch()) {
                1nat
            } else {
                0
            }
            &&& shifted_in(after, register.clock(), register.data()) == shifted_in(
                trace,
                register.clock(),
                register.data(),
            ) + bits_lsb_first(pattern ^ 0xFF)
        }),
{
    let clock = register.clock();
    let data = register.data();
    let latch = register.latch();
    let wire_byte = pattern ^ 0xFF;
    let t1 = trace.push(Signal::low(latch));
    let t2 = t1.push(Signal::low(data));
    let t3 = t2 + register.bit_cells(wire_byte, 8);
    let t4 = t3.push(Signal::low(latch));
    assert(trace + register.byte_frame(pattern) =~= t4);
    lemma_step(trace, Signal::low(latch), clock, data);
    lemma_step(trace, Signal::low(latch), latch, data);
    lemma_step(t1, Signal::low(data), clock, data);
    lemma_step(t1, Signal::low(data), latch, data);
    lemma_bit_cells(register, t2, wire_byte, 8);
    lemma_step(t3, Signal::low(latch), clock, data);
    lemma_step(t3, Signal::low(latch), latch, data);
}

/// A load of a pattern other than the empty one puts exactly eight pulses
/// on the serial clock and eight on the register clock, and the bits that
/// it shifts in are those of the complemented pattern, least significant
/// first.
pub proof fn lemma_load_on_the_wire(register: RegisterController, pattern: u8)
    requires
        register.wired(),
        pattern != 0,
    ensures
        pulses(register.byte_frame(pattern), register.clock()) == 8,
        pulses(register.byte_frame(pattern), register.latch()) == 8,
        shifted_in(register.byte_frame(pattern), register.clock(), register.data())
            == bits_lsb_first(pattern ^ 0xFF),
{
    let nothing = Seq::<Signal>::empty();
    lemma_load_after(register, nothing, pattern);
    assert(nothing + register.byte_frame(pattern) =~= register.byte_frame(pattern));
    assert(Seq::<bool>::empty() + bits_lsb_first(pattern ^ 0xFF) =~= bits_lsb_first(
        pattern ^ 0xFF,
    ));
}

/// A receiver that captures a load reads the very pattern back, unless it
/// is the empty pattern, of which there is nothing to capture.
pub proof fn lemma_load_round_trip(register: RegisterController, pattern: u8)
    requires
        register.wired(),
    ensures
        pattern == 0 ==> decode(register.byte_frame(pattern), register.clock(), register.data())
            == None::<u8>,
        pattern != 0 ==> decode(register.byte_frame(pattern), register.clock(), register.data())
            == Some(pattern),
{
    if pattern != 0 {
        lemma_load_on_the_wire(register, pattern);
        lemma_byte_of_its_bits(pattern ^ 0xFF);
        assert((pattern ^ 0xFF) ^ 0xFF == pattern) by (bit_vector);
    }
}

/// Bit cells drive the lines of the register only.
proof fn lemma_bit_cells_quiet(
    register: RegisterController,
    wire_byte: u8,
    count: nat,
    line: Line,
)
    requires
        !register.owns(line),
    ensures
        quiet(register.bit_cells(wire_byte, count), line),
    decreases count,
{
    if count > 0 {
        lemma_bit_cells_quiet(register, wire_byte, (count - 1) as nat, line);
    }
}

/// A load drives the lines of the register only.
pub proof fn lemma_load_quiet(register: RegisterController, pattern: u8, line: Line)
    requires
        !register.owns(line),
    ensures
        quiet(register.byte_frame(pattern), line),
{
    lemma_bit_cells_quiet(register, pattern ^ 0xFF, 8, line);
}

/// The frame of a digit drives the lines of the register and the digit's
/// own enable line only.
pub proof fn lemma_digit_quiet(
    register: RegisterController,
    segment: SegmentController,
    number: u8,
    line: Line,
)
    requires
        !register.owns(line),
        line != segment.enable(),
    ensures
        quiet(segment.digit_frame(register, number), line),
{
    lemma_load_quiet(register, encode(number), line);
}

/// What the frame of a digit adds to a trace that leaves the serial clock
/// and the digit's enable line low.
pub proof fn lemma_digit_after(
    register: RegisterController,
    segment: SegmentController,
    trace: Seq<Signal>,
    number: u8,
)
    requires
        register.wired(),
        !register.owns(segment.enable()),
        !driven_high(trace, register.clock()),
        !driven_high(trace, segment.enable()),
    ensures
        ({
            let after = trace + segment.digit_frame(register, number);
            &&& !driven_high(after, register.clock())
            &&& !driven_high(after, segment.enable())
            &&& pulses(after, segment.enable()) == pulses(trace, segment.enable()) + 1
            &&& shifted_in(after, register.clock(), register.data()) == shifted_in(
                trace,
                register.clock(),
                register.data(),
            ) + bits_lsb_first(encode(number) ^ 0xFF)
        }),
{
    let clock = register.clock();
    let data = register.data();
    let enable = segment.enable();
    let pattern = encode(number);
    let load = register.byte_frame(pattern);
    lemma_encode_nonzero(number);
    lemma_load_after(register, trace, pattern);
    lemma_load_quiet(register, pattern, enable);
    lemma_quiet(trace, load, enable, data);
    let s1 = Signal::high(enable);
    let s2 = Signal::DelayUs { micros: crate::led_control::LATCH_SETTLE_US };
    let s3 = Signal::low(enable);
    let t1 = trace + load;
    let t2 = t1.push(s1);
    let t3 = t2.push(s2);
    let t4 = t3.push(s3);
    assert(trace + segment.digit_frame(register, number) =~= t4);
    lemma_step(t1, s1, clock, data);
    lemma_step(t1, s1, enable, data);
    lemma_step(t2, s2, clock, data);
    lemma_step(t2, s2, enable, data);
    lemma_step(t3, s3, clock, data);
    lemma_step(t3, s3, enable, data);
}

/// What a receiver sees of the frame of one digit: the digit's pattern goes
/// into the register, and the enable line pulses once and ends low.
pub proof fn lemma_digit_on_the_wire(
    register: RegisterController,
    segment: SegmentController,
    number: u8,
)
    requires
        register.wired(),
        !register.owns(segment.enable()),
    ensures
        decode(segment.digit_frame(register, number), register.clock(), register.data())
            == Some(encode(number)),
        pulses(segment.digit_frame(register, number), segment.enable()) == 1,
        !driven_high(segment.digit_frame(register, number), segment.enable()),
{
    let nothing = Seq::<Signal>::empty();
    let frame = segment.digit_frame(register, number);
    let pattern = encode(number);
    let wire_byte = pattern ^ 0xFF;
    lemma_digit_after(register, segment, nothing, number);
    assert(nothing + frame =~= frame);
    assert(Seq::<bool>::empty() + bits_lsb_first(wire_byte) =~= bits_lsb_first(wire_byte));
    lemma_byte_of_its_bits(wire_byte);
    assert((pattern ^ 0xFF) ^ 0xFF == pattern) by (bit_vector);
}

/// Whether `trace` leaves the serial clock and all four enable lines of
/// `display` low.
spec fn at_rest(display: DisplayController, trace: Seq<Signal>) -> bool {
    &&& !driven_high(trace, display.register().clock())
    &&& forall|j: int| 0 <= j < 4 ==> !driven_high(trace, #[trigger] display.enables()[j])
}

/// What the frame of digit `idx` adds to a trace that leaves the display at
/// rest.
proof fn lemma_digit_in_turn(
    display: DisplayController,
    trace: Seq<Signal>,
    idx: int,
    number: u8,
)
    requires
        display.wired(),
        0 <= idx < 4,
        at_rest(display, trace),
        one_at_a_time(trace, display.enables()),
    ensures
        ({
            let after = trace + display.segments()[idx].digit_frame(display.register(), number);
            &&& at_rest(display, after)
            &&& one_at_a_time(after, display.enables())
            &&& forall|j: int|
                0 <= j < 4 ==> pulses(after, #[trigger] display.enables()[j]) == pulses(
                    trace,
                    display.enables()[j],
                ) + if j == idx {
                    1nat
                } else {
                    0
                }
            &&& shifted_in(after, display.register().clock(), display.register().data())
                == shifted_in(trace, display.register().clock(), display.register().data())
                + bits_lsb_first(encode(number) ^ 0xFF)
            &&& raised(after, display.enables()) == raised(trace, display.enables()).push(
                display.enables()[idx],
            )
        }),
{
    let register = display.register();
    let segment = display.segments()[idx];
    let lines = display.enables();
    let frame = segment.digit_frame(register, number);
    let after = trace + frame;
    assert(lines[idx] == segment.enable());
    lemma_digit_after(register, segment, trace, number);
    assert forall|j: int| 0 <= j < 4 && j != idx implies quiet(frame, #[trigger] lines[j]) by {
        assert(lines[j] == display.segments()[j].enable());
        lemma_digit_quiet(register, segment, number, lines[j]);
    }
    assert(raised(after, lines) == raised(trace, lines).push(lines[idx])) by {
        let load = register.byte_frame(encode(number));
        let s1 = Signal::high(segment.enable());
        let s2 = Signal::DelayUs { micros: crate::led_control::LATCH_SETTLE_US };
        let s3 = Signal::low(segment.enable());
        let t1 = trace + load;
        let t2 = t1.push(s1);
        let t3 = t2.push(s2);
        assert(after =~= t3.push(s3));
        assert forall|j: int| 0 <= j < lines.len() implies quiet(load, #[trigger] lines[j]) by {
            assert(lines[j] == display.segments()[j].enable());
            lemma_load_quiet(register, encode(number), lines[j]);
        }
        lemma_quiet_raised(trace, load, lines);
        lemma_quiet(trace, load, segment.enable(), segment.enable());
        lemma_step_raised(t1, s1, lines);
        lemma_step_raised(t2, s2, lines);
        lemma_step_raised(t3, s3, lines);
    }
    assert forall|j: int| 0 <= j < 4 implies !driven_high(after, #[trigger] lines[j]) && pulses(
        after,
        lines[j],
    ) == pulses(trace, lines[j]) + if j == idx {
        1nat
    } else {
        0
    } by {
        if j != idx {
            lemma_quiet(trace, frame, lines[j], lines[j]);
        }
    }
    assert forall|k: int| 0 <= k <= after.len() implies at_most_one_high(
        #[trigger] after.take(k),
        lines,
    ) by {
        if k <= trace.len() {
            assert(after.take(k) =~= trace.take(k));
        } else {
            let part = frame.take(k - trace.len());
            assert(after.take(k) =~= trace + part);
            assert forall|j: int| 0 <= j < 4 && j != idx implies !driven_high(
                trace + part,
                #[trigger] lines[j],
            ) by {
                assert(quiet(frame, lines[j]));
                assert(quiet(part, lines[j]));
                lemma_quiet(trace, part, lines[j], lines[j]);
            }
        }
    }
}

/// What a receiver sees when a number is shown: the enable lines are raised
/// in the order of the digits and are never high together, each pulses once
/// and ends low, and the number's pattern goes into the register four
/// times, once before each pulse.
pub proof fn lemma_show_on_the_wire(display: DisplayController, number: u8)
    requires
        display.wired(),
    ensures
        raised(display.show_frame(number), display.enables()) == display.enables(),
        one_at_a_time(display.show_frame(number), display.enables()),
        forall|j: int|
            0 <= j < 4 ==> pulses(display.show_frame(number), #[trigger] display.enables()[j])
                == 1,
        forall|j: int|
            0 <= j < 4 ==> !driven_high(
                display.show_frame(number),
                #[trigger] display.enables()[j],
            ),
        shifted_in(
            display.show_frame(number),
            display.register().clock(),
            display.register().data(),
        ) == bits_lsb_first(encode(number) ^ 0xFF) + bits_lsb_first(encode(number) ^ 0xFF)
            + bits_lsb_first(encode(number) ^ 0xFF) + bits_lsb_first(encode(number) ^ 0xFF),
{
    let register = display.register();
    let word = bits_lsb_first(encode(number) ^ 0xFF);
    let t0 = Seq::<Signal>::empty();
    let t1 = t0 + display.segments()[0].digit_frame(register, number);
    let t2 = t1 + display.segments()[1].digit_frame(register, number);
    let t3 = t2 + display.segments()[2].digit_frame(register, number);
    let t4 = t3 + display.segments()[3].digit_frame(register, number);
    assert(t0.take(0) =~= t0);
    lemma_digit_in_turn(display, t0, 0, number);
    lemma_digit_in_turn(display, t1, 1, number);
    lemma_digit_in_turn(display, t2, 2, number);
    lemma_digit_in_turn(display, t3, 3, number);
    assert(t1 =~= display.segments()[0].digit_frame(register, number));
    assert(t4 == display.show_frame(number));
    assert(Seq::<bool>::empty() + word =~= word);
    assert(raised(t4, display.enables()) =~= display.enables());
}

/// Blanking a digit lowers its enable line and shifts nothing into any
/// register.
pub proof fn lemma_disable_on_the_wire(segment: SegmentController, clock: Line, data: Line)
    ensures
        !driven_high(segment.blank_frame(), segment.enable()),
        shifted_in(segment.blank_frame(), clock, data) == Seq::<bool>::empty(),
{
    let nothing = Seq::<Signal>::empty();
    assert(segment.blank_frame() =~= nothing.push(Signal::low(segment.enable())));
    lemma_step(nothing, Signal::low(segment.enable()), segment.enable(), data);
    lemma_step(nothing, Signal::low(segment.enable()), clock, data);
}

} // verus!
