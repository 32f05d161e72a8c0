use multi_display::pin_consts::{num_to_led_char, CHAR_TABLE};

#[test]
fn table_holds_the_dot_and_the_ten_digits() {
    assert_eq!(
        CHAR_TABLE,
        [0x01, 0xFC, 0x60, 0xDA, 0xF2, 0x66, 0xB6, 0xBE, 0xE0, 0xFE, 0xF6]
    );
}

#[test]
fn digits_take_the_entry_after_the_dot() {
    for d in 0u8..10 {
        assert_eq!(num_to_led_char(d), CHAR_TABLE[d as usize + 1]);
    }
}

#[test]
fn each_digit_has_its_pattern() {
    assert_eq!(num_to_led_char(0), 0xFC);
    assert_eq!(num_to_led_char(1), 0x60);
    assert_eq!(num_to_led_char(2), 0xDA);
    assert_eq!(num_to_led_char(3), 0xF2);
    assert_eq!(num_to_led_char(4), 0x66);
    assert_eq!(num_to_led_char(5), 0xB6);
    assert_eq!(num_to_led_char(6), 0xBE);
    assert_eq!(num_to_led_char(7), 0xE0);
    assert_eq!(num_to_led_char(8), 0xFE);
    assert_eq!(num_to_led_char(9), 0xF6);
}

#[test]
fn other_values_take_the_dot() {
    for d in 10u8..=255 {
        assert_eq!(num_to_led_char(d), CHAR_TABLE[0]);
    }
}

#[test]
fn ten_and_the_wrapped_negatives_are_the_dot() {
    assert_eq!(num_to_led_char(10), 0x01);
    assert_eq!(num_to_led_char(0u8.wrapping_sub(1)), 0x01);
    assert_eq!(num_to_led_char(0u8.wrapping_sub(128)), 0x01);
    assert_eq!(num_to_led_char(u8::MAX), 0x01);
}

#[test]
fn no_symbol_encodes_to_the_empty_pattern() {
    for d in 0u8..=255 {
        assert_ne!(num_to_led_char(d), 0);
    }
}
