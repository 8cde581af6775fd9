use bf_tools::occipital::protocol::{command, Command, Decoder, InputMode, DLE};
use bf_tools::occipital::screen::{
    cube_color, default_palette, Screen, CELL_HEIGHT, CELL_WIDTH, COLUMNS, DEFAULT_BACKGROUND,
    HEIGHT, ROWS, TAB_WIDTH, WIDTH,
};

/// Run a byte stream through the decoder and onto a screen.
fn screen_after(bytes: &[u8]) -> Screen {
    let mut screen = Screen::new();
    let mut decoder = Decoder::new();
    for byte in bytes {
        if let Some(command) = decoder.push(*byte) {
            screen.apply(command);
        }
    }
    screen
}

#[test]
fn the_screen_is_addressable_by_single_bytes() {
    // The whole point of 256x192: every coordinate fits in a byte.
    assert!(WIDTH == 256);
    assert!(HEIGHT <= 256);
}

#[test]
fn starts_cleared_to_the_background() {
    let screen = Screen::new();

    assert_eq!(screen.pixel(0, 0), Some(DEFAULT_BACKGROUND));
    assert_eq!(
        screen.pixel(WIDTH - 1, HEIGHT - 1),
        Some(DEFAULT_BACKGROUND)
    );
    assert_eq!(screen.pixel(WIDTH, 0), None);
    assert_eq!(screen.pixel(0, HEIGHT), None);
}

#[test]
fn plots_a_pixel_in_the_current_colour() {
    let mut screen = Screen::new();
    screen.apply(Command::Color(42));
    screen.apply(Command::Plot { x: 10, y: 20 });

    assert_eq!(screen.pixel(10, 20), Some(42));
    assert_eq!(screen.pixel(11, 20), Some(DEFAULT_BACKGROUND));
}

#[test]
fn ignores_pixels_off_the_bottom_of_the_screen() {
    let mut screen = Screen::new();
    // y = 200 is past the 192-row screen; nothing should wrap around.
    screen.apply(Command::Color(7));
    screen.apply(Command::Plot { x: 0, y: 200 });

    assert!(
        (0..WIDTH * HEIGHT).all(|index| screen.pixel(index % WIDTH, index / WIDTH) == Some(DEFAULT_BACKGROUND)),
        "an off-screen plot touched the framebuffer"
    );
}

#[test]
fn fills_and_clips_rectangles() {
    let mut screen = Screen::new();
    screen.apply(Command::Color(3));
    screen.apply(Command::Rect {
        x: 250,
        y: 188,
        width: 20,
        height: 20,
    });

    assert_eq!(screen.pixel(255, 191), Some(3));
    assert_eq!(screen.pixel(249, 191), Some(DEFAULT_BACKGROUND));
}

#[test]
fn an_empty_rectangle_draws_nothing() {
    let mut screen = Screen::new();
    screen.apply(Command::Color(3));
    screen.apply(Command::Rect {
        x: 0,
        y: 0,
        width: 0,
        height: 5,
    });

    assert_eq!(screen.pixel(0, 0), Some(DEFAULT_BACKGROUND));
}

#[test]
fn draws_lines_including_both_ends() {
    let mut screen = Screen::new();
    screen.apply(Command::Color(9));
    screen.apply(Command::Line {
        x0: 0,
        y0: 0,
        x1: 10,
        y1: 10,
    });

    assert_eq!(screen.pixel(0, 0), Some(9));
    assert_eq!(screen.pixel(5, 5), Some(9));
    assert_eq!(screen.pixel(10, 10), Some(9));
}

#[test]
fn draws_lines_in_every_direction() {
    for (x0, y0, x1, y1) in [(0, 0, 20, 5), (20, 5, 0, 0), (5, 0, 5, 20), (0, 5, 20, 5)] {
        let mut screen = Screen::new();
        screen.apply(Command::Color(9));
        screen.apply(Command::Line { x0, y0, x1, y1 });

        assert_eq!(screen.pixel(x0 as usize, y0 as usize), Some(9));
        assert_eq!(screen.pixel(x1 as usize, y1 as usize), Some(9));
    }
}

#[test]
fn clearing_uses_the_current_colour() {
    let mut screen = Screen::new();
    screen.apply(Command::Color(5));
    screen.apply(Command::Clear);

    assert_eq!(screen.pixel(0, 0), Some(5));
    assert_eq!(screen.pixel(WIDTH - 1, HEIGHT - 1), Some(5));
    assert_eq!(screen.cursor(), (0, 0));
}

#[test]
fn plain_text_advances_the_cursor() {
    let screen = screen_after(b"Hi");

    assert_eq!(screen.cursor(), (2, 0));
    // Something was drawn in the first two cells.
    assert!((0..CELL_WIDTH * 2).any(|x| screen.pixel(x, 1) != Some(DEFAULT_BACKGROUND)));
}

#[test]
fn a_newline_returns_to_the_left_and_moves_down() {
    let screen = screen_after(b"a\nb");

    assert_eq!(screen.cursor(), (1, 1));
}

#[test]
fn text_wraps_at_the_right_edge() {
    let line = vec![b'x'; COLUMNS + 1];
    let screen = screen_after(&line);

    assert_eq!(screen.cursor(), (1, 1));
}

#[test]
fn the_bottom_row_scrolls_instead_of_overflowing() {
    let mut stream = vec![b'\n'; ROWS - 1];
    stream.push(b'A');
    let before = screen_after(&stream);
    assert_eq!(before.cursor(), (1, ROWS - 1));

    // One more newline has nowhere to go, so the screen moves up.
    let mut stream = vec![b'\n'; ROWS];
    stream.push(b'B');
    let after = screen_after(&stream);
    assert_eq!(after.cursor(), (1, ROWS - 1));
}

#[test]
fn scrolling_moves_pixels_up_by_one_cell() {
    let mut screen = Screen::new();
    screen.apply(Command::Color(6));
    // Mark a pixel one cell down, then scroll it to the top.
    screen.apply(Command::Plot {
        x: 3,
        y: CELL_HEIGHT as u8,
    });
    screen.scroll();

    assert_eq!(screen.pixel(3, 0), Some(6));
    assert_eq!(screen.pixel(3, CELL_HEIGHT), Some(DEFAULT_BACKGROUND));
}

#[test]
fn a_tab_moves_to_the_next_stop() {
    assert_eq!(screen_after(b"a\tb").cursor(), (TAB_WIDTH + 1, 0));
}

#[test]
fn a_backspace_erases_the_character_before_it() {
    let screen = screen_after(b"ab\x08");

    assert_eq!(screen.cursor(), (1, 0));
    // The erased cell is background again.
    for x in CELL_WIDTH..CELL_WIDTH * 2 {
        for y in 0..CELL_HEIGHT {
            assert_eq!(screen.pixel(x, y), Some(DEFAULT_BACKGROUND));
        }
    }
}

#[test]
fn a_backspace_at_the_left_edge_does_nothing() {
    assert_eq!(screen_after(b"\x08").cursor(), (0, 0));
}

#[test]
fn a_form_feed_clears_to_the_background_whatever_the_colour() {
    let mut screen = screen_after(b"hello");
    screen.apply(Command::Color(200));
    screen.apply(Command::Text(b'\x0C'));

    assert_eq!(screen.pixel(0, 0), Some(DEFAULT_BACKGROUND));
    assert_eq!(screen.cursor(), (0, 0));
    // The colour survives the clear.
    assert_eq!(screen.color(), 200);
}

#[test]
fn the_cursor_can_be_placed_and_is_clamped_on_screen() {
    let screen = screen_after(&[DLE, command::AT, 250, 250]);

    assert_eq!(screen.cursor(), (COLUMNS - 1, ROWS - 1));
}

#[test]
fn a_byte_with_no_glyph_still_draws_something() {
    let screen = screen_after(&[0x01]);

    assert_eq!(screen.cursor(), (1, 0));
    assert!(
        (0..CELL_WIDTH).any(|x| (0..CELL_HEIGHT).any(|y| screen.pixel(x, y) != Some(0))),
        "an unprintable byte drew nothing"
    );
}

#[test]
fn drawing_marks_the_screen_dirty_once() {
    let mut screen = Screen::new();
    assert!(screen.take_dirty());
    assert!(!screen.is_dirty());

    screen.apply(Command::Plot { x: 1, y: 1 });
    assert!(screen.take_dirty());
    assert!(!screen.take_dirty());
}

#[test]
fn present_and_quit_do_not_touch_the_framebuffer() {
    let mut screen = Screen::new();
    screen.take_dirty();
    screen.apply(Command::Present);
    screen.apply(Command::Quit);
    screen.apply(Command::Mode(InputMode::Events));

    assert!(!screen.is_dirty());
}

#[test]
fn renders_through_the_palette() {
    let mut screen = Screen::new();
    screen.apply(Command::Palette {
        index: 1,
        red: 0x12,
        green: 0x34,
        blue: 0x56,
    });
    screen.apply(Command::Color(1));
    screen.apply(Command::Plot { x: 0, y: 0 });

    let mut buffer = Vec::new();
    screen.render(&mut buffer);

    assert_eq!(buffer.len(), WIDTH * HEIGHT);
    assert_eq!(buffer[0], 0x123456);
}

#[test]
fn the_default_palette_follows_the_documented_layout() {
    let palette = default_palette();

    assert_eq!(palette[0], 0x000000, "index 0 is black");
    assert_eq!(palette[15], 0xFFFFFF, "index 15 is white");
    // The cube's corners.
    assert_eq!(palette[cube_color(0, 0, 0) as usize], 0x000000);
    assert_eq!(palette[cube_color(5, 5, 5) as usize], 0xFFFFFF);
    assert_eq!(palette[cube_color(5, 0, 0) as usize], 0xFF0000);
    assert_eq!(palette[cube_color(0, 5, 0) as usize], 0x00FF00);
    assert_eq!(palette[cube_color(0, 0, 5) as usize], 0x0000FF);
}

#[test]
fn the_cube_formula_stays_inside_the_cube() {
    assert_eq!(cube_color(0, 0, 0), 16);
    assert_eq!(cube_color(5, 5, 5), 231);
    // Out-of-range components are clamped rather than running into the greys.
    assert_eq!(cube_color(9, 9, 9), 231);
}

