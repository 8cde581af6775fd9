use bf_tools::occipital::protocol::{command, event, key, Command, Decoder, InputMode, DLE};

/// Feed a whole stream and collect everything it decodes to.
fn decode(bytes: &[u8]) -> Vec<Command> {
    let mut decoder = Decoder::new();
    bytes
        .iter()
        .filter_map(|byte| decoder.push(*byte))
        .collect()
}

#[test]
fn plain_bytes_are_text() {
    assert_eq!(decode(b"hi"), [Command::Text(b'h'), Command::Text(b'i')]);
}

#[test]
fn decodes_commands_without_arguments() {
    assert_eq!(
        decode(&[
            DLE,
            command::CLEAR,
            DLE,
            command::PRESENT,
            DLE,
            command::QUIT
        ]),
        [Command::Clear, Command::Present, Command::Quit]
    );
}

#[test]
fn decodes_commands_with_arguments() {
    assert_eq!(
        decode(&[DLE, command::PLOT, 10, 20]),
        [Command::Plot { x: 10, y: 20 }]
    );
    assert_eq!(
        decode(&[DLE, command::RECT, 1, 2, 3, 4]),
        [Command::Rect {
            x: 1,
            y: 2,
            width: 3,
            height: 4
        }]
    );
    assert_eq!(
        decode(&[DLE, command::PALETTE, 7, 255, 128, 0]),
        [Command::Palette {
            index: 7,
            red: 255,
            green: 128,
            blue: 0
        }]
    );
}

#[test]
fn arguments_may_arrive_one_byte_at_a_time() {
    let mut decoder = Decoder::new();

    // Nothing is reported until the last argument lands.
    for byte in [DLE, command::LINE, 1, 2, 3] {
        assert_eq!(decoder.push(byte), None);
        assert!(decoder.is_mid_command());
    }

    assert_eq!(
        decoder.push(4),
        Some(Command::Line {
            x0: 1,
            y0: 2,
            x1: 3,
            y1: 4
        })
    );
    assert!(!decoder.is_mid_command());
}

#[test]
fn an_escaped_introducer_is_text() {
    assert_eq!(decode(&[DLE, command::LITERAL]), [Command::Text(DLE)]);
}

#[test]
fn argument_bytes_are_never_mistaken_for_commands() {
    // An argument that happens to equal DLE is still just an argument.
    assert_eq!(
        decode(&[DLE, command::PLOT, DLE, DLE]),
        [Command::Plot { x: DLE, y: DLE }]
    );
}

#[test]
fn an_unknown_command_is_skipped_without_losing_the_stream() {
    assert_eq!(
        decode(&[DLE, 0x7F, b'o', b'k']),
        [Command::Text(b'o'), Command::Text(b'k')]
    );
}

#[test]
fn decodes_both_input_modes() {
    assert_eq!(
        decode(&[DLE, command::MODE, 1, DLE, command::MODE, 0]),
        [
            Command::Mode(InputMode::Events),
            Command::Mode(InputMode::Text)
        ]
    );
}

#[test]
fn text_is_the_default_mode() {
    assert_eq!(InputMode::default(), InputMode::Text);
}

#[test]
fn no_key_code_collides_with_the_no_event_byte() {
    for code in [
        key::UP,
        key::DOWN,
        key::LEFT,
        key::RIGHT,
        key::ESCAPE,
        key::SHIFT,
        key::CONTROL,
    ] {
        assert_ne!(code, event::NONE);
    }
}

#[test]
fn colour_and_cursor_commands_decode() {
    assert_eq!(
        decode(&[DLE, command::COLOR, 9, DLE, command::AT, 3, 4]),
        [Command::Color(9), Command::At { column: 3, row: 4 }]
    );
}
