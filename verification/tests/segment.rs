use multi_display::led_control::{RegisterController, SegmentController, LATCH_SETTLE_US};
use multi_display::pin_consts::num_to_led_char;
use multi_display::signal::{Line, Signal};

fn shift_register() -> RegisterController {
    RegisterController::new(Line::new(17), Line::new(18), Line::new(19))
}

#[test]
fn the_latch_settles_for_five_microseconds() {
    assert_eq!(LATCH_SETTLE_US, 5);
}

#[test]
fn a_digit_is_loaded_and_then_latched() {
    let mut register = shift_register();
    let mut segment = SegmentController::new(Line::new(12));
    let mut expected = register.load_byte(num_to_led_char(7));
    assert_eq!(expected.len(), 43);
    expected.push(Signal::Drive { line: Line::new(12), high: true });
    expected.push(Signal::DelayUs { micros: 5 });
    expected.push(Signal::Drive { line: Line::new(12), high: false });
    assert_eq!(segment.load_and_display_number(&mut register, 7), expected);
}

#[test]
fn no_digit_is_the_dot_on_the_display() {
    let mut register = shift_register();
    let mut segment = SegmentController::new(Line::new(12));
    let dot = segment.load_and_display_number(&mut register, 10);
    assert_eq!(segment.load_and_display_number(&mut register, 200), dot);
    assert_eq!(dot[..43], register.load_byte(0x01)[..]);
}

#[test]
fn every_value_is_loaded_before_it_is_latched() {
    let mut register = shift_register();
    let mut segment = SegmentController::new(Line::new(14));
    for number in 0u8..=255 {
        let trace = segment.load_and_display_number(&mut register, number);
        assert_eq!(trace.len(), 46);
        assert_eq!(trace[..43], register.load_byte(num_to_led_char(number))[..]);
        assert_eq!(trace[43], Signal::Drive { line: Line::new(14), high: true });
        assert_eq!(trace[44], Signal::DelayUs { micros: LATCH_SETTLE_US });
        assert_eq!(trace[45], Signal::Drive { line: Line::new(14), high: false });
    }
}

#[test]
fn the_enable_line_is_high_only_while_the_latch_settles() {
    let mut register = shift_register();
    let mut segment = SegmentController::new(Line::new(12));
    let trace = segment.load_and_display_number(&mut register, 4);
    let on_enable: Vec<&Signal> = trace
        .iter()
        .filter(|signal| matches!(signal, Signal::Drive { line, .. } if line.pin == 12))
        .collect();
    assert_eq!(
        on_enable,
        vec![
            &Signal::Drive { line: Line::new(12), high: true },
            &Signal::Drive { line: Line::new(12), high: false },
        ]
    );
}

#[test]
fn blanking_lowers_the_enable_line_and_nothing_else() {
    let mut segment = SegmentController::new(Line::new(13));
    assert_eq!(
        segment.disable_segment(),
        vec![Signal::Drive { line: Line::new(13), high: false }]
    );
}

#[test]
fn blanking_is_the_same_whatever_was_loaded() {
    let mut register = shift_register();
    let mut segment = SegmentController::new(Line::new(13));
    let before = segment.disable_segment();
    segment.load_and_display_number(&mut register, 8);
    register.load_byte(0x55);
    assert_eq!(segment.disable_segment(), before);
    assert_eq!(before.len(), 1);
}
