use bf_tools::occipital::console::{
    control_key_byte, key_code, scale_step, typed_byte, KeyName, Options, FRAME_MILLIS, POLL_MILLIS,
};
use bf_tools::occipital::protocol::{command, event, key, InputMode};

#[test]
fn scales_round_down_to_a_supported_step() {
    assert_eq!(scale_step(0), 1);
    assert_eq!(scale_step(1), 1);
    assert_eq!(scale_step(4), 4);
    assert_eq!(scale_step(5), 4);
    assert_eq!(scale_step(255), 32);
}

#[test]
fn every_scale_step_is_a_power_of_two_no_larger_than_asked() {
    for scale in 0..=255u8 {
        let step = scale_step(scale);
        assert!(step.is_power_of_two());
        assert!(step <= scale.max(1));
    }
    assert_eq!(scale_step(3), 2);
    assert_eq!(scale_step(15), 8);
    assert_eq!(scale_step(16), 16);
    assert_eq!(scale_step(32), 32);
}

#[test]
fn letters_report_their_unshifted_ascii() {
    assert_eq!(key_code(KeyName::W), Some(b'w'));
    assert_eq!(key_code(KeyName::Z), Some(b'z'));
    assert_eq!(key_code(KeyName::Key7), Some(b'7'));
}

#[test]
fn keys_without_ascii_get_codes_above_it() {
    for pressed in [KeyName::Up, KeyName::Down, KeyName::Left, KeyName::Right, KeyName::Escape] {
        let code = key_code(pressed).expect("arrow keys have codes");
        assert!(code >= 0x80, "{pressed:?} collided with ASCII");
    }
    assert_eq!(key_code(KeyName::Up), Some(key::UP));
    assert_eq!(key_code(KeyName::RightCtrl), Some(key::CONTROL));
}

#[test]
fn no_key_reports_the_no_event_byte() {
    let every_key = [
        KeyName::A,
        KeyName::Z,
        KeyName::Key0,
        KeyName::Space,
        KeyName::Enter,
        KeyName::Tab,
        KeyName::Backspace,
        KeyName::Up,
        KeyName::Escape,
        KeyName::LeftShift,
        KeyName::LeftCtrl,
    ];
    for pressed in every_key {
        assert_ne!(key_code(pressed), Some(event::NONE));
    }
}

#[test]
fn unmapped_keys_are_dropped() {
    assert_eq!(key_code(KeyName::Other), None);
}

#[test]
fn number_pad_digits_match_the_top_row() {
    assert_eq!(key_code(KeyName::NumPad3), key_code(KeyName::Key3));
    assert_eq!(key_code(KeyName::NumPadEnter), Some(b'\n'));
}

#[test]
fn typed_text_drops_control_characters_and_wide_ones() {
    let typed: Vec<u8> = [u32::from('A'), u32::from('\n'), 0x2603, u32::from('é')]
        .into_iter()
        .filter_map(typed_byte)
        .collect();
    assert_eq!(typed, [b'A', 0xE9]);
}

#[test]
fn latin1_controls_are_not_typed() {
    assert_eq!(typed_byte(0x7F), None);
    assert_eq!(typed_byte(0x9F), None);
    assert_eq!(typed_byte(0xA0), Some(0xA0));
    assert_eq!(typed_byte(0x20), Some(b' '));
    assert_eq!(typed_byte(0x100), None);
}

#[test]
fn control_keys_type_their_bytes() {
    assert_eq!(control_key_byte(KeyName::Enter), Some(b'\n'));
    assert_eq!(control_key_byte(KeyName::Backspace), Some(0x08));
    assert_eq!(control_key_byte(KeyName::Tab), Some(b'\t'));
    assert_eq!(control_key_byte(KeyName::Escape), Some(0x1B));
    assert_eq!(control_key_byte(KeyName::A), None);
}

#[test]
fn the_frame_budget_is_about_sixty_a_second() {
    assert!(FRAME_MILLIS > 0 && FRAME_MILLIS <= 20);
    assert!(POLL_MILLIS < FRAME_MILLIS);
}

#[test]
fn text_is_the_starting_input_mode() {
    assert_eq!(InputMode::default(), InputMode::Text);
    assert_eq!(command::MODE, 0x0A);
}

#[test]
fn default_window_options() {
    let options = Options::default();
    assert_eq!(options.title, "occipital");
    assert_eq!(options.scale, 3);
    assert!(options.wait_on_exit);
}
