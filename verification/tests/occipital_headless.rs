use bf_tools::hypothalamus::bf::{parse, Op};
use bf_tools::occipital::headless::Headless;
use bf_tools::occipital::protocol::{command, event, key, InputMode, DLE};
use bf_tools::occipital::screen::{cube_color, DEFAULT_BACKGROUND};

/// Compile a Brainfuck program that writes `bytes`, so the host can be
/// exercised the way a real program drives it.
fn emitting(bytes: &[u8]) -> Vec<Op> {
    // `+` n times then `.`, resetting the cell between bytes.
    let mut source = Vec::new();
    for byte in bytes {
        source.extend(std::iter::repeat_n(b'+', *byte as usize));
        source.push(b'.');
        source.push(b'[');
        source.push(b'-');
        source.push(b']');
    }
    parse(&source).expect("generated program should parse")
}

#[test]
fn draws_what_a_program_writes() {
    let host = Headless::run(
        &emitting(&[DLE, command::COLOR, 200, DLE, command::PLOT, 4, 5]),
        b"",
    )
    .expect("program should run");

    assert_eq!(host.screen().pixel(4, 5), Some(200));
    assert_eq!(host.screen().pixel(5, 5), Some(DEFAULT_BACKGROUND));
}

#[test]
fn counts_presents_without_touching_the_framebuffer() {
    let host = Headless::run(
        &emitting(&[DLE, command::PRESENT, DLE, command::PRESENT]),
        b"",
    )
    .expect("program should run");

    assert_eq!(host.presents(), 2);
}

#[test]
fn notices_a_program_closing_the_window() {
    let host = Headless::run(&emitting(&[DLE, command::QUIT]), b"").expect("program should run");

    assert!(host.has_quit());
}

#[test]
fn follows_the_program_into_event_mode() {
    let host = Headless::run(&emitting(&[DLE, command::MODE, 1]), b"").expect("program should run");

    assert_eq!(host.mode(), InputMode::Events);
}

#[test]
fn text_reads_come_from_the_script() {
    // `,+.` echoes one byte incremented.
    let ops = parse(b",+.").expect("valid Brainfuck");
    let host = Headless::run(&ops, b"A").expect("program should run");

    assert_eq!(host.screen().cursor(), (1, 0));
    assert_eq!(host.remaining_input(), 0);
}

#[test]
fn an_exhausted_script_reports_the_window_closing() {
    let mut host = Headless::with_input(&[event::KEY_DOWN, key::LEFT]);
    for byte in [DLE, command::MODE, 1] {
        host.write(byte);
    }
    assert_eq!(host.mode(), InputMode::Events);

    assert_eq!(host.read(), Some(event::KEY_DOWN));
    assert_eq!(host.read(), Some(key::LEFT));
    // Nothing scripted is left, so a polling program is told to stop
    // rather than spinning.
    assert_eq!(host.read(), Some(event::QUIT));
    assert_eq!(host.read(), Some(event::QUIT));
}

#[test]
fn an_exhausted_script_is_end_of_input_in_text_mode() {
    let mut host = Headless::new();

    assert_eq!(host.read(), None);
}

#[test]
fn reports_a_program_that_stopped_midway_through_a_command() {
    let host = Headless::run(&emitting(&[DLE, command::PLOT, 1]), b"").expect("program should run");

    assert!(host.is_mid_command(), "a truncated command went unnoticed");
}

#[test]
fn the_colour_cube_reaches_the_framebuffer() {
    let red = cube_color(5, 0, 0);
    let host = Headless::run(
        &emitting(&[DLE, command::COLOR, red, DLE, command::CLEAR]),
        b"",
    )
    .expect("program should run");

    assert_eq!(host.screen().pixel(0, 0), Some(red));
}

#[test]
fn an_events_program_stops_when_the_script_runs_out() {
    // Switch to events, then poll until the window closes.
    let mut source = Vec::new();
    for byte in [DLE, command::MODE, 1] {
        source.extend(std::iter::repeat_n(b'+', byte as usize));
        source.extend_from_slice(b".[-]");
    }
    source.extend_from_slice(b"+[,---]");
    let ops = parse(&source).expect("valid Brainfuck");
    let host = Headless::run(&ops, &[event::KEY_DOWN]).expect("program should run");
    assert_eq!(host.remaining_input(), 0);
    assert_eq!(host.mode(), InputMode::Events);
}

#[test]
fn programs_parse_from_memory() {
    let program = bf_tools::occipital::Program::from_brainfuck(b"+++.", "three").expect("valid");
    assert_eq!(program.name(), "three");
    assert_eq!(program.ops().len(), 2);
    assert!(bf_tools::occipital::Program::from_brainfuck(b"+[", "open").is_err());
}
