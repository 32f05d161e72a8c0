//! The controllers of the display: the shift register that holds a segment
//! pattern, the digit positions that each latch it, and the display that
//! drives them in turn.
//!
//! A controller does not touch the board. It states the signals of an
//! operation, in order, and the caller carries them out one by one.

use vstd::prelude::*;
use crate::pin_consts::{bit_at, encode, num_to_led_char};
use crate::protocol::{
    lemma_digit_on_the_wire, lemma_disable_on_the_wire, lemma_load_on_the_wire,
    lemma_load_quiet, lemma_load_round_trip, lemma_show_on_the_wire,
};
use crate::signal::{Line, Signal};
use crate::wire::{
    bits_lsb_first, decode, driven_high, one_at_a_time, pulses, quiet, raised, shifted_in,
};

verus! {

/// How long a digit's enable line stays high, in microseconds, so that the
/// latch settles.
pub const LATCH_SETTLE_US: u32 = 5;

/// The three lines into the shift register: serial clock, serial data and
/// register clock. Whoever holds the controller exclusively is the only one
/// to drive them.
pub struct RegisterController {
    /// srclock
    sr_clock: Line,
    /// ser
    sr_data: Line,
    /// rclock
    r_clock: Line,
}

impl RegisterController {
    /// The serial clock line.
    pub closed spec fn clock(&self) -> Line {
        self.sr_clock
    }

    /// The serial data line.
    pub closed spec fn data(&self) -> Line {
        self.sr_data
    }

    /// The register clock (latch) line.
    pub closed spec fn latch(&self) -> Line {
        self.r_clock
    }

    /// Whether `line` is one of the three lines of this register.
    pub open spec fn owns(&self, line: Line) -> bool {
        ||| line == self.clock()
        ||| line == self.data()
        ||| line == self.latch()
    }

    /// Whether the three lines are three different lines.
    pub open spec fn wired(&self) -> bool {
        &&& self.clock() != self.data()
        &&& self.clock() != self.latch()
        &&& self.data() != self.latch()
    }

    /// The signals that shift one bit into the register: the data line
    /// takes the bit's level, the serial clock pulses, and the register
    /// clock, lowered first, is raised as a strobe.
    pub open spec fn bit_cell(&self, bit: bool) -> Seq<Signal> {
        seq![
            Signal::low(self.latch()),
            Signal::Drive { line: self.data(), high: bit },
            Signal::high(self.clock()),
            Signal::low(self.clock()),
            Signal::high(self.latch()),
        ]
    }

    /// The cells of the lowest `count` bits of `wire_byte`, least
    /// significant bit first.
    pub open spec fn bit_cells(&self, wire_byte: u8, count: nat) -> Seq<Signal>
        decreases count,
    {
        if count == 0 {
            Seq::empty()
        } else {
            self.bit_cells(wire_byte, (count - 1) as nat) + self.bit_cell(
                bit_at(wire_byte, (count - 1) as u8),
            )
        }
    }

    /// The signals of loading `pattern`. The empty pattern is not loaded at
    /// all. Any other goes out complemented, since the segments are
    /// active-low: the register clock and the data line are lowered, the
    /// eight bits follow, and the register clock is lowered once more.
    pub open spec fn byte_frame(&self, pattern: u8) -> Seq<Signal> {
        if pattern == 0 {
            Seq::empty()
        } else {
            seq![Signal::low(self.latch()), Signal::low(self.data())] + self.bit_cells(
                pattern ^ 0xFF,
                8,
            ) + seq![Signal::low(self.latch())]
        }
    }

    /// The controller of the register behind the three given lines.
    pub fn new(sr_clock: Line, r_clock: Line, sr_data: Line) -> (controller: Self)
        ensures
            controller.clock() == sr_clock,
            controller.latch() == r_clock,
            controller.data() == sr_data,
    {
        RegisterController { sr_clock, r_clock, sr_data }
    }

    /// Serializes `b` into the shift register, on the three lines of the
    /// register and no other. The empty pattern is skipped: no line is
    /// touched, and the register keeps what it held. Of any other pattern a
    /// receiver on three different lines sees eight pulses of each clock and
    /// the bits of the complement, least significant first, from which it
    /// reads the pattern back.
    pub fn load_byte(&mut self, b: u8) -> (signals: Vec<Signal>)
        ensures
            *final(self) == *old(self),
            signals@ == old(self).byte_frame(b),
            b == 0 ==> signals@.len() == 0,
            forall|line: Line| !old(self).owns(line) ==> #[trigger] quiet(signals@, line),
            b == 0 ==> decode(signals@, old(self).clock(), old(self).data()) == None::<u8>,
            b != 0 && old(self).wired() ==> pulses(signals@, old(self).clock()) == 8,
            b != 0 && old(self).wired() ==> pulses(signals@, old(self).latch()) == 8,
            b != 0 && old(self).wired() ==> shifted_in(
                signals@,
                old(self).clock(),
                old(self).data(),
            ) == bits_lsb_first(b ^ 0xFF),
            b != 0 && old(self).wired() ==> decode(signals@, old(self).clock(), old(self).data())
                == Some(b),
    {
        let mut signals: Vec<Signal> = Vec::new();
        if b == 0 {
            return signals;
        }
        signals.push(Signal::Drive { line: self.r_clock, high: false });
        signals.push(Signal::Drive { line: self.sr_data, high: false });

        let inverted: u8 = b ^ 0xFF;
        for idx in 0..8u8
            invariant
                *self == *old(self),
                signals@ == seq![Signal::low(self.latch()), Signal::low(self.data())]
                    + self.bit_cells(inverted, idx as nat),
        {
            let load: bool = (inverted >> idx) & 1 == 1;
            self.load_bit(load, &mut signals);
        }

        signals.push(Signal::Drive { line: self.r_clock, high: false });
        proof {
            assert(signals@ =~= self.byte_frame(b));
            assert forall|line: Line| !self.owns(line) implies #[trigger] quiet(
                signals@,
                line,
            ) by {
                lemma_load_quiet(*self, b, line);
            }
            if self.wired() {
                lemma_load_on_the_wire(*self, b);
                lemma_load_round_trip(*self, b);
            }
        }
        signals
    }

    fn load_bit(&mut self, b: bool, signals: &mut Vec<Signal>)
        ensures
            *final(self) == *old(self),
            final(signals)@ == old(signals)@ + old(self).bit_cell(b),
    {
        signals.push(Signal::Drive { line: self.r_clock, high: false });
        match b {
            true => signals.push(Signal::Drive { line: self.sr_data, high: true }),
            false => signals.push(Signal::Drive { line: self.sr_data, high: false }),
        };
        signals.push(Signal::Drive { line: self.sr_clock, high: true });
        signals.push(Signal::Drive { line: self.sr_clock, high: false });
        signals.push(Signal::Drive { line: self.r_clock, high: true });
    }
}

/// One digit position, with the enable line that is its own.
pub struct SegmentController {
    led_latch_pin: Line,
}

impl SegmentController {
    /// The enable line of this digit position.
    pub closed spec fn enable(&self) -> Line {
        self.led_latch_pin
    }

    /// The signals that show what the register holds on this digit: the
    /// enable line goes high, stays so while the latch settles, and goes low.
    pub open spec fn latch_window(&self) -> Seq<Signal> {
        seq![
            Signal::high(self.enable()),
            Signal::DelayUs { micros: LATCH_SETTLE_US },
            Signal::low(self.enable()),
        ]
    }

    /// The signal that blanks this digit: the enable line goes low.
    pub open spec fn blank_frame(&self) -> Seq<Signal> {
        seq![Signal::low(self.enable())]
    }

    /// The signals of showing `number` on this digit: its pattern is loaded
    /// through `register`, then latched.
    pub open spec fn digit_frame(&self, register: RegisterController, number: u8) -> Seq<Signal> {
        register.byte_frame(encode(number)) + self.latch_window()
    }

    /// The controller of the digit position that `led_pin` enables.
    pub fn new(led_pin: Line) -> (controller: Self)
        ensures
            controller.enable() == led_pin,
    {
        SegmentController { led_latch_pin: led_pin }
    }

    /// Loads the pattern of `number` into the register and pulses this
    /// digit's enable line. The register is held exclusively for the call.
    /// Where the enable line is none of the register's three different
    /// lines, a receiver reads the pattern of `number` from the load and
    /// sees one pulse of the enable line, which ends low.
    pub fn load_and_display_number(
        &mut self,
        register: &mut RegisterController,
        number: u8,
    ) -> (signals: Vec<Signal>)
        ensures
            *final(self) == *old(self),
            *final(register) == *old(register),
            signals@ == old(self).digit_frame(*old(register), number),
            old(register).wired() && !old(register).owns(old(self).enable()) ==> decode(
                signals@,
                old(register).clock(),
                old(register).data(),
            ) == Some(encode(number)),
            old(register).wired() && !old(register).owns(old(self).enable()) ==> pulses(
                signals@,
                old(self).enable(),
            ) == 1,
            old(register).wired() && !old(register).owns(old(self).enable()) ==> !driven_high(
                signals@,
                old(self).enable(),
            ),
    {
        let led_config: u8 = num_to_led_char(number);

        let mut signals = register.load_byte(led_config);
        signals.push(Signal::Drive { line: self.led_latch_pin, high: true });
        signals.push(Signal::DelayUs { micros: LATCH_SETTLE_US });
        signals.push(Signal::Drive { line: self.led_latch_pin, high: false });
        proof {
            assert(signals@ =~= self.digit_frame(*register, number));
            if register.wired() && !register.owns(self.enable()) {
                lemma_digit_on_the_wire(*register, *self, number);
            }
        }
        signals
    }

    /// Blanks this digit, whatever the register holds: the enable line is
    /// driven low, and nothing is shifted into any register.
    pub fn disable_segment(&mut self) -> (signals: Vec<Signal>)
        ensures
            *final(self) == *old(self),
            signals@ == old(self).blank_frame(),
            !driven_high(signals@, old(self).enable()),
            forall|clock: Line, data: Line| #[trigger]
                shifted_in(signals@, clock, data) == Seq::<bool>::empty(),
    {
        let mut signals: Vec<Signal> = Vec::new();
        signals.push(Signal::Drive { line: self.led_latch_pin, high: false });
        proof {
            assert(signals@ =~= self.blank_frame());
            assert forall|clock: Line, data: Line| #[trigger]
                shifted_in(signals@, clock, data) == Seq::<bool>::empty() by {
                lemma_disable_on_the_wire(*self, clock, data);
            }
            lemma_disable_on_the_wire(*self, self.enable(), self.enable());
        }
        signals
    }
}

/// The whole display: four digit positions and the one shift register that
/// they share. It lends the register to one digit at a time.
pub struct DisplayController {
    led_controllers: [SegmentController; 4],
    register_controller: RegisterController,
}

impl DisplayController {
    /// The four digit positions, in the order in which they are driven.
    pub closed spec fn segments(&self) -> Seq<SegmentController> {
        self.led_controllers@
    }

    /// The shift register that the digit positions share.
    pub closed spec fn register(&self) -> RegisterController {
        self.register_controller
    }

    /// Whether the seven lines are seven different lines.
    pub open spec fn wired(&self) -> bool {
        &&& self.segments().len() == 4
        &&& self.register().wired()
        &&& forall|i: int|
            0 <= i < 4 ==> !self.register().owns((#[trigger] self.segments()[i]).enable())
        &&& forall|i: int, j: int|
            0 <= i < j < 4 ==> (#[trigger] self.segments()[i]).enable() != (
            #[trigger] self.segments()[j]).enable()
    }

    /// The enable lines of the four digit positions, in their order.
    pub open spec fn enables(&self) -> Seq<Line> {
        Seq::new(4, |i: int| self.segments()[i].enable())
    }

    /// The signals of showing `number`: the frame of each digit position in
    /// turn, each complete before the next begins, all with the same value.
    pub open spec fn show_frame(&self, number: u8) -> Seq<Signal> {
        self.segments()[0].digit_frame(self.register(), number)
            + self.segments()[1].digit_frame(self.register(), number)
            + self.segments()[2].digit_frame(self.register(), number)
            + self.segments()[3].digit_frame(self.register(), number)
    }

    /// The display with the four given enable lines, in the order in which
    /// the digits are driven, and the register behind the three others.
    pub fn new(
        led_pin_1: Line,
        led_pin_2: Line,
        led_pin_3: Line,
        led_pin_4: Line,
        sr_clock_pin: Line,
        sr_data_pin: Line,
        sr_rclock_pin: Line,
    ) -> (controller: Self)
        ensures
            controller.segments().len() == 4,
            controller.segments()[0].enable() == led_pin_1,
            controller.segments()[1].enable() == led_pin_2,
            controller.segments()[2].enable() == led_pin_3,
            controller.segments()[3].enable() == led_pin_4,
            controller.register().clock() == sr_clock_pin,
            controller.register().data() == sr_data_pin,
            controller.register().latch() == sr_rclock_pin,
    {
        let register_controller = RegisterController::new(sr_clock_pin, sr_rclock_pin, sr_data_pin);

        let led_controllers = [
            SegmentController::new(led_pin_1),
            SegmentController::new(led_pin_2),
            SegmentController::new(led_pin_3),
            SegmentController::new(led_pin_4),
        ];

        Self { register_controller, led_controllers }
    }

    /// Shows `number` on all four digit positions, one after another. Where
    /// the seven lines are seven different lines, the enable lines are
    /// raised in the order of the digits and are never high together, each
    /// pulses once, and the pattern of `number` goes into the register four
    /// times.
    pub fn show_number(&mut self, number: u8) -> (signals: Vec<Signal>)
        ensures
            *final(self) == *old(self),
            signals@ == old(self).show_frame(number),
            old(self).wired() ==> raised(signals@, old(self).enables()) == old(self).enables(),
            old(self).wired() ==> one_at_a_time(signals@, old(self).enables()),
            old(self).wired() ==> forall|j: int|
                0 <= j < 4 ==> pulses(signals@, #[trigger] old(self).enables()[j]) == 1,
            old(self).wired() ==> shifted_in(
                signals@,
                old(self).register().clock(),
                old(self).register().data(),
            ) == bits_lsb_first(encode(number) ^ 0xFF) + bits_lsb_first(encode(number) ^ 0xFF)
                + bits_lsb_first(encode(number) ^ 0xFF) + bits_lsb_first(encode(number) ^ 0xFF),
    {
        let mut signals = self.led_controllers[0].load_and_display_number(
            &mut self.register_controller,
            number,
        );
        let mut next = self.led_controllers[1].load_and_display_number(
            &mut self.register_controller,
            number,
        );
        signals.append(&mut next);
        let mut next = self.led_controllers[2].load_and_display_number(
            &mut self.register_controller,
            number,
        );
        signals.append(&mut next);
        let mut next = self.led_controllers[3].load_and_display_number(
            &mut self.register_controller,
            number,
        );
        signals.append(&mut next);
        assert(self.led_controllers =~= old(self).led_controllers);
        proof {
            if self.wired() {
                lemma_show_on_the_wire(*self, number);
            }
        }
        signals
    }
}

} // verus!
