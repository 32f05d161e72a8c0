use multi_display::led_control::{DisplayController, RegisterController, SegmentController};
use multi_display::pin_consts::{num_to_led_char, CHAR_TABLE};
use multi_display::signal::{Line, Signal};

const DIGITS: [u8; 4] = [12, 14, 13, 15];
const CLOCK: u8 = 17;
const LATCH: u8 = 18;
const DATA: u8 = 19;

fn display() -> DisplayController {
    DisplayController::new(
        Line::new(DIGITS[0]),
        Line::new(DIGITS[1]),
        Line::new(DIGITS[2]),
        Line::new(DIGITS[3]),
        Line::new(CLOCK),
        Line::new(DATA),
        Line::new(LATCH),
    )
}

/// The pattern that the clock edges since the last enable pulse shifted in.
fn patterns_at_each_enable(trace: &[Signal]) -> Vec<(u8, u8)> {
    let mut clock = false;
    let mut data = false;
    let mut bits: Vec<bool> = Vec::new();
    let mut seen = Vec::new();
    for signal in trace {
        if let Signal::Drive { line, high } = signal {
            if line.pin == DATA {
                data = *high;
            } else if line.pin == CLOCK {
                if *high && !clock {
                    bits.push(data);
                }
                clock = *high;
            } else if DIGITS.contains(&line.pin) && *high {
                let mut byte = 0u8;
                for (at, bit) in bits.iter().enumerate() {
                    if *bit {
                        byte |= 1 << at;
                    }
                }
                assert_eq!(bits.len(), 8);
                seen.push((line.pin, byte));
                bits.clear();
            }
        }
    }
    seen
}

#[test]
fn three_is_driven_through_all_four_digits_in_order() {
    let mut display = display();
    let trace = display.show_number(3);
    // Three is the fourth entry after the dot's, 0xF2, and goes out as 0x0D.
    assert_eq!(num_to_led_char(3), CHAR_TABLE[4]);
    assert_eq!(CHAR_TABLE[4], 0xF2);
    assert_eq!(
        patterns_at_each_enable(&trace),
        vec![(12, 0x0D), (14, 0x0D), (13, 0x0D), (15, 0x0D)]
    );
}

#[test]
fn two_goes_out_as_the_complement_of_its_pattern() {
    let mut display = display();
    let trace = display.show_number(2);
    assert_eq!(num_to_led_char(2), 0xDA);
    assert_eq!(
        patterns_at_each_enable(&trace),
        vec![(12, 0x25), (14, 0x25), (13, 0x25), (15, 0x25)]
    );
}

#[test]
fn showing_is_the_four_digit_frames_one_after_another() {
    let mut display = display();
    let mut register =
        RegisterController::new(Line::new(CLOCK), Line::new(LATCH), Line::new(DATA));
    for number in [0u8, 3, 9, 10, 255] {
        let mut expected = Vec::new();
        for pin in DIGITS {
            let mut segment = SegmentController::new(Line::new(pin));
            expected.extend(segment.load_and_display_number(&mut register, number));
        }
        assert_eq!(expected.len(), 184);
        assert_eq!(display.show_number(number), expected);
    }
}

#[test]
fn the_enable_windows_never_overlap() {
    let mut display = display();
    for number in 0u8..=255 {
        let mut high: Vec<u8> = Vec::new();
        let mut windows: Vec<u8> = Vec::new();
        for signal in display.show_number(number) {
            if let Signal::Drive { line, high: level } = signal {
                if DIGITS.contains(&line.pin) {
                    high.retain(|pin| *pin != line.pin);
                    if level {
                        high.push(line.pin);
                        windows.push(line.pin);
                    }
                }
            }
            assert!(high.len() <= 1);
        }
        assert!(high.is_empty());
        assert_eq!(windows, DIGITS);
    }
}

#[test]
fn each_digit_waits_once_while_its_enable_line_is_high() {
    let mut display = display();
    let trace = display.show_number(1);
    let waits: Vec<usize> = (0..trace.len())
        .filter(|at| matches!(trace[*at], Signal::DelayUs { .. }))
        .collect();
    assert_eq!(waits, vec![44, 90, 136, 182]);
    for (digit, at) in waits.into_iter().enumerate() {
        assert_eq!(trace[at], Signal::DelayUs { micros: 5 });
        assert_eq!(
            trace[at - 1],
            Signal::Drive { line: Line::new(DIGITS[digit]), high: true }
        );
        assert_eq!(
            trace[at + 1],
            Signal::Drive { line: Line::new(DIGITS[digit]), high: false }
        );
    }
}

#[test]
fn showing_twice_gives_the_same_signals() {
    let mut display = display();
    let first = display.show_number(1);
    assert_eq!(display.show_number(1), first);
}
