use multi_display::led_control::RegisterController;
use multi_display::signal::{Line, Signal};

const CLOCK: u8 = 17;
const LATCH: u8 = 18;
const DATA: u8 = 19;

fn register() -> RegisterController {
    RegisterController::new(Line::new(CLOCK), Line::new(LATCH), Line::new(DATA))
}

fn drive(pin: u8, high: bool) -> Signal {
    Signal::Drive { line: Line::new(pin), high }
}

/// The levels that `trace` writes to `pin`, in order.
fn writes(trace: &[Signal], pin: u8) -> Vec<bool> {
    let mut levels = Vec::new();
    for signal in trace {
        if let Signal::Drive { line, high } = signal {
            if line.pin == pin {
                levels.push(*high);
            }
        }
    }
    levels
}

/// The number of times that `pin`, driven high, is driven low again.
fn pulses(trace: &[Signal], pin: u8) -> usize {
    let levels = writes(trace, pin);
    levels.windows(2).filter(|pair| pair[0] && !pair[1]).count()
}

/// The level of the data line at each rising edge of the clock.
fn shifted_in(trace: &[Signal]) -> Vec<bool> {
    let mut clock = false;
    let mut data = false;
    let mut bits = Vec::new();
    for signal in trace {
        if let Signal::Drive { line, high } = signal {
            if line.pin == DATA {
                data = *high;
            } else if line.pin == CLOCK {
                if *high && !clock {
                    bits.push(data);
                }
                clock = *high;
            }
        }
    }
    bits
}

/// Undoes the bit order and the complement of a captured load.
fn decode(bits: &[bool]) -> u8 {
    let mut byte = 0u8;
    for (at, bit) in bits.iter().enumerate() {
        if *bit {
            byte |= 1 << at;
        }
    }
    byte ^ 0xFF
}

#[test]
fn a_line_is_its_pin() {
    assert_eq!(Line::new(17), Line { pin: 17 });
    assert_eq!(Line::new(17).pin, 17);
    assert_ne!(Line::new(17), Line::new(18));
}

#[test]
fn the_empty_pattern_touches_no_line() {
    let mut register = register();
    assert_eq!(register.load_byte(0), vec![]);
}

#[test]
fn the_empty_pattern_leaves_a_loaded_register_alone() {
    let mut register = register();
    let loaded = register.load_byte(0xDA);
    assert_eq!(loaded.len(), 43);
    assert!(register.load_byte(0).is_empty());
    assert_eq!(register.load_byte(0xDA), loaded);
}

#[test]
fn a_load_is_spelled_out_signal_by_signal() {
    let mut register = register();
    // 0xDA goes out as 0x25, whose bits are, lowest first, 1 0 1 0 0 1 0 0.
    let bits = [true, false, true, false, false, true, false, false];
    let mut expected = vec![drive(LATCH, false), drive(DATA, false)];
    for bit in bits {
        expected.push(drive(LATCH, false));
        expected.push(drive(DATA, bit));
        expected.push(drive(CLOCK, true));
        expected.push(drive(CLOCK, false));
        expected.push(drive(LATCH, true));
    }
    expected.push(drive(LATCH, false));
    assert_eq!(register.load_byte(0xDA), expected);
}

#[test]
fn the_full_pattern_goes_out_as_zeros() {
    let mut register = register();
    let trace = register.load_byte(0xFF);
    assert_eq!(writes(&trace, DATA), vec![false; 9]);
    assert_eq!(shifted_in(&trace), vec![false; 8]);
}

#[test]
fn the_lowest_bit_goes_first() {
    let mut register = register();
    // 0xFE goes out as 0x01: only the first bit is high.
    let trace = register.load_byte(0xFE);
    assert_eq!(
        shifted_in(&trace),
        vec![true, false, false, false, false, false, false, false]
    );
    // 0x7F goes out as 0x80: only the last bit is high.
    let trace = register.load_byte(0x7F);
    assert_eq!(
        shifted_in(&trace),
        vec![false, false, false, false, false, false, false, true]
    );
}

#[test]
fn every_load_has_eight_pulses_on_both_clocks() {
    let mut register = register();
    for b in 1u8..=255 {
        let trace = register.load_byte(b);
        assert_eq!(trace.len(), 43);
        assert_eq!(pulses(&trace, CLOCK), 8);
        assert_eq!(pulses(&trace, LATCH), 8);
        assert_eq!(writes(&trace, CLOCK).len(), 16);
        assert_eq!(writes(&trace, LATCH).len(), 18);
    }
}

#[test]
fn every_load_sends_the_complement_lowest_bit_first() {
    let mut register = register();
    for b in 1u8..=255 {
        let trace = register.load_byte(b);
        let sent = b ^ 0xFF;
        let expected: Vec<bool> = (0..8).map(|at| (sent >> at) & 1 == 1).collect();
        assert_eq!(shifted_in(&trace), expected);
    }
}

#[test]
fn a_captured_load_decodes_to_its_pattern() {
    let mut register = register();
    for b in 1u8..=255 {
        let trace = register.load_byte(b);
        assert_eq!(decode(&shifted_in(&trace)), b);
    }
}

#[test]
fn a_load_ends_with_both_clocks_low() {
    let mut register = register();
    let trace = register.load_byte(0x60);
    assert_eq!(writes(&trace, CLOCK).last(), Some(&false));
    assert_eq!(writes(&trace, LATCH).last(), Some(&false));
    assert_eq!(trace.last(), Some(&drive(LATCH, false)));
}

#[test]
fn a_load_drives_the_three_lines_only() {
    let mut register = register();
    for signal in register.load_byte(0xB6) {
        match signal {
            Signal::Drive { line, .. } => {
                assert!(line.pin == CLOCK || line.pin == LATCH || line.pin == DATA)
            }
            other => panic!("a load does not wait: {:?}", other),
        }
    }
}

#[test]
fn nothing_is_captured_of_the_empty_pattern() {
    let mut register = register();
    let trace = register.load_byte(0);
    assert!(shifted_in(&trace).is_empty());
    assert_eq!(pulses(&trace, CLOCK), 0);
    assert_eq!(pulses(&trace, LATCH), 0);
    assert!(writes(&trace, DATA).is_empty());
}
