//! The framebuffer a program draws into, and the text console layered on it.
//!
//! The screen is 256x192 palette-indexed pixels, so every coordinate a
//! program sends fits in one byte. Nothing here knows about windows, so all of
//! it can be checked by looking at the pixels afterwards.

use vstd::prelude::*;
use super::font::{self, glyph_rows};
use super::protocol::Command;

verus! {

/// Screen width in pixels.
pub const WIDTH: usize = 256;

/// Screen height in pixels.
pub const HEIGHT: usize = 192;

/// Width of one character cell: a glyph plus a column of spacing.
pub const CELL_WIDTH: usize = 6;

/// Height of one character cell: a glyph plus a row of spacing.
pub const CELL_HEIGHT: usize = 8;

/// Character columns that fit across the screen.
pub const COLUMNS: usize = 42;

/// Character rows that fit down the screen.
pub const ROWS: usize = 24;

/// Palette index the screen starts cleared to.
pub const DEFAULT_BACKGROUND: u8 = 0;

/// Palette index text and drawing start in.
pub const DEFAULT_COLOR: u8 = 15;

/// How many columns a tab advances to.
pub const TAB_WIDTH: usize = 4;

/// Number of pixels.
pub open spec fn area() -> nat {
    (WIDTH * HEIGHT) as nat
}

/// A screen as plain values.
pub struct ScreenView {
    pub pixels: Seq<u8>,
    pub palette: Seq<u32>,
    pub color: u8,
    pub column: nat,
    pub row: nat,
    pub dirty: bool,
}

/// A new screen: cleared to the background colour, the default palette, the
/// default colour, the cursor home, and everything still to be shown.
pub open spec fn fresh_screen() -> ScreenView {
    ScreenView {
        pixels: Seq::new(area(), |i: int| DEFAULT_BACKGROUND),
        palette: default_palette_spec(),
        color: DEFAULT_COLOR,
        column: 0,
        row: 0,
        dirty: true,
    }
}

/// The shape every screen keeps: a full framebuffer and palette, the cursor
/// on a row and at most one past the last column.
pub open spec fn view_ok(v: ScreenView) -> bool {
    &&& v.pixels.len() == area()
    &&& v.palette.len() == 256
    &&& v.column <= COLUMNS
    &&& v.row < ROWS
}

/// The pixel at `(x, y)` set to `c`, when it is on screen.
pub open spec fn plotted(p: Seq<u8>, x: int, y: int, c: u8) -> Seq<u8> {
    if 0 <= x < WIDTH && 0 <= y < HEIGHT {
        p.update(y * WIDTH + x, c)
    } else {
        p
    }
}

/// Every pixel of the rectangle at `(x, y)`, clipped to the screen, set to
/// `c`.
pub open spec fn filled(p: Seq<u8>, x: int, y: int, w: int, h: int, c: u8) -> Seq<u8> {
    Seq::new(
        p.len(),
        |i: int|
            {
                let (px, py) = (i % WIDTH as int, i / WIDTH as int);
                if x <= px < x + w && y <= py < y + h {
                    c
                } else {
                    p[i]
                }
            },
    )
}

/// The pixels moved up one character row, the row that opens up cleared.
pub open spec fn scrolled(p: Seq<u8>) -> Seq<u8> {
    let step = (CELL_HEIGHT * WIDTH) as int;
    Seq::new(p.len(), |i: int| if i + step < p.len() { p[i + step] } else { DEFAULT_BACKGROUND })
}

/// Whether glyph row `line` lights the pixel `column` pixels from the left.
pub open spec fn lit(byte: u8, line: int, column: int) -> bool {
    0 <= line < font::HEIGHT && 0 <= column < font::WIDTH && (glyph_rows(byte)[line] >> (4 - column) as u8) & 1u8 == 1u8
}

/// The glyph for `byte` drawn in colour `c` into the cell at `(col, row)`:
/// its lit pixels take the colour, everything else is unchanged.
pub open spec fn with_glyph(p: Seq<u8>, col: int, row: int, byte: u8, c: u8) -> Seq<u8> {
    Seq::new(
        p.len(),
        |i: int|
            {
                let (px, py) = (i % WIDTH as int, i / WIDTH as int);
                if lit(byte, py - row * CELL_HEIGHT, px - col * CELL_WIDTH) {
                    c
                } else {
                    p[i]
                }
            },
    )
}

/// Whether the glyph for `byte` lights any pixel.
pub open spec fn has_ink(byte: u8) -> bool {
    exists|line: int, column: int| lit(byte, line, column)
}

/// The cursor moved to the start of the next line, scrolling at the bottom.
pub open spec fn newline(v: ScreenView) -> ScreenView {
    if v.row + 1 < ROWS {
        ScreenView { column: 0, row: v.row + 1, ..v }
    } else {
        ScreenView { column: 0, pixels: scrolled(v.pixels), dirty: true, ..v }
    }
}

/// One byte of text, with the control characters a terminal honours.
pub open spec fn text(v: ScreenView, byte: u8) -> ScreenView {
    if byte == 10 {
        newline(v)
    } else if byte == 13 {
        ScreenView { column: 0, ..v }
    } else if byte == 9 {
        let stop = (v.column / TAB_WIDTH as nat + 1) * TAB_WIDTH as nat;
        if stop >= COLUMNS {
            newline(v)
        } else {
            ScreenView { column: stop, ..v }
        }
    } else if byte == 8 {
        if v.column > 0 {
            let col = (v.column - 1) as nat;
            ScreenView {
                column: col,
                pixels: filled(
                    v.pixels,
                    col * CELL_WIDTH,
                    v.row * CELL_HEIGHT,
                    CELL_WIDTH as int,
                    CELL_HEIGHT as int,
                    DEFAULT_BACKGROUND,
                ),
                dirty: true,
                ..v
            }
        } else {
            v
        }
    } else if byte == 12 {
        ScreenView { pixels: Seq::new(area(), |i: int| DEFAULT_BACKGROUND), column: 0, row: 0, dirty: true, ..v }
    } else {
        let w = if v.column >= COLUMNS {
            newline(v)
        } else {
            v
        };
        ScreenView {
            pixels: with_glyph(w.pixels, w.column as int, w.row as int, byte, w.color),
            column: w.column + 1,
            dirty: w.dirty || has_ink(byte),
            ..w
        }
    }
}

/// A colour packed as `0x00RRGGBB`.
pub open spec fn rgb(red: u8, green: u8, blue: u8) -> u32 {
    ((red as int) * 65536 + (green as int) * 256 + (blue as int)) as u32
}

/// What a command does to the screen, for every command but a line.
pub open spec fn applied(v: ScreenView, c: Command) -> ScreenView {
    match c {
        Command::Text(byte) => text(v, byte),
        Command::Clear => ScreenView { pixels: Seq::new(area(), |i: int| v.color), column: 0, row: 0, dirty: true, ..v },
        Command::Color(color) => ScreenView { color, ..v },
        Command::Plot { x, y } => ScreenView {
            pixels: plotted(v.pixels, x as int, y as int, v.color),
            dirty: v.dirty || (x < WIDTH && y < HEIGHT),
            ..v
        },
        Command::Rect { x, y, width, height } => if width == 0 || height == 0 || x >= WIDTH || y >= HEIGHT {
            v
        } else {
            ScreenView { pixels: filled(v.pixels, x as int, y as int, width as int, height as int, v.color), dirty: true, ..v }
        },
        Command::Palette { index, red, green, blue } => ScreenView {
            palette: v.palette.update(index as int, rgb(red, green, blue)),
            dirty: true,
            ..v
        },
        Command::At { column, row } => ScreenView {
            column: if column < COLUMNS { column as nat } else { (COLUMNS - 1) as nat },
            row: if row < ROWS { row as nat } else { (ROWS - 1) as nat },
            ..v
        },
        _ => v,
    }
}

/// A palette-indexed framebuffer with a text cursor.
#[derive(Debug, Clone)]
pub struct Screen {
    pixels: Vec<u8>,
    palette: Vec<u32>,
    color: u8,
    column: usize,
    row: usize,
    dirty: bool,
}

impl Screen {
    /// The screen as plain values.
    pub closed spec fn view(&self) -> ScreenView {
        ScreenView {
            pixels: self.pixels@,
            palette: self.palette@,
            color: self.color,
            column: self.column as nat,
            row: self.row as nat,
            dirty: self.dirty,
        }
    }

    /// A screen cleared to the background colour, the default palette, the
    /// default colour, the cursor home, and everything still to be shown.
    pub fn new() -> (r: Self)
        ensures
            view_ok(r.view()),
            r.view() == fresh_screen(),
            r.view().pixels == Seq::new(area(), |i: int| DEFAULT_BACKGROUND),
            r.view().palette == default_palette_spec(),
            r.view().color == DEFAULT_COLOR,
            r.view().column == 0,
            r.view().row == 0,
            r.view().dirty,
    {
        let mut pixels: Vec<u8> = Vec::new();
        let mut i: usize = 0;
        while i < WIDTH * HEIGHT
            invariant
                i <= WIDTH * HEIGHT,
                pixels@ == Seq::new(i as nat, |k: int| DEFAULT_BACKGROUND),
            decreases WIDTH * HEIGHT - i,
        {
            pixels.push(DEFAULT_BACKGROUND);
            i += 1;
            proof {
                assert(pixels@ =~= Seq::new(i as nat, |k: int| DEFAULT_BACKGROUND));
            }
        }
        Screen {
            pixels,
            palette: default_palette(),
            color: DEFAULT_COLOR,
            column: 0,
            row: 0,
            dirty: true,
        }
    }

    /// Apply one decoded command. Showing a frame, quitting and the input
    /// mode are the window's business and leave the framebuffer alone. A line
    /// colours both its ends, and changes no pixel but to the current colour.
    pub fn apply(&mut self, command: Command)
        requires
            view_ok(old(self).view()),
        ensures
            view_ok(final(self).view()),
            !(command is Line) ==> final(self).view() == applied(old(self).view(), command),
            command matches Command::Line { x0, y0, x1, y1 } ==> line_drawn(
                old(self).view(),
                final(self).view(),
                x0,
                y0,
                x1,
                y1,
            ),
    {
        match command {
            Command::Text(byte) => self.write_text(byte),
            Command::Clear => self.clear(),
            Command::Color(color) => {
                self.color = color;
            },
            Command::Plot { x, y } => self.plot(x as usize, y as usize),
            Command::Rect { x, y, width, height } => self.rect(
                x as usize,
                y as usize,
                width as usize,
                height as usize,
            ),
            Command::Line { x0, y0, x1, y1 } => self.line(x0, y0, x1, y1),
            Command::Palette { index, red, green, blue } => {
                self.palette.set(index as usize, rgb_of(red, green, blue));
                self.dirty = true;
            },
            Command::At { column, row } => {
                self.column = if (column as usize) < COLUMNS {
                    column as usize
                } else {
                    COLUMNS - 1
                };
                self.row = if (row as usize) < ROWS {
                    row as usize
                } else {
                    ROWS - 1
                };
            },
            Command::Present | Command::Quit | Command::Mode(_) => {},
        }
    }

    /// Whether anything has been drawn since [`Self::take_dirty`].
    pub fn is_dirty(&self) -> (r: bool)
        ensures
            r == self.view().dirty,
    {
        self.dirty
    }

    /// Report whether anything was drawn, and reset the flag.
    pub fn take_dirty(&mut self) -> (r: bool)
        ensures
            r == old(self).view().dirty,
            final(self).view() == (ScreenView { dirty: false, ..old(self).view() }),
    {
        let r = self.dirty;
        self.dirty = false;
        r
    }

    /// The current drawing colour.
    pub fn color(&self) -> (r: u8)
        ensures
            r == self.view().color,
    {
        self.color
    }

    /// The text cursor, as a column and row in character cells.
    pub fn cursor(&self) -> (r: (usize, usize))
        ensures
            r.0 == self.view().column,
            r.1 == self.view().row,
    {
        (self.column, self.row)
    }

    /// The palette index at a pixel, or `None` off screen.
    pub fn pixel(&self, x: usize, y: usize) -> (r: Option<u8>)
        requires
            view_ok(self.view()),
        ensures
            r == if x < WIDTH && y < HEIGHT {
                Some(self.view().pixels[y * WIDTH + x])
            } else {
                None::<u8>
            },
    {
        if x < WIDTH && y < HEIGHT {
            Some(self.pixels[y * WIDTH + x])
        } else {
            None
        }
    }

    /// Resolve the screen into `0x00RRGGBB` pixels for display.
    pub fn render(&self, into: &mut Vec<u32>)
        requires
            view_ok(self.view()),
        ensures
            final(into)@ == self.view().pixels.map_values(|i: u8| self.view().palette[i as int]),
    {
        into.clear();
        let mut k: usize = 0;
        while k < self.pixels.len()
            invariant
                view_ok(self.view()),
                k <= self.pixels@.len(),
                into@ == self.view().pixels.take(k as int).map_values(|i: u8| self.view().palette[i as int]),
            decreases self.pixels@.len() - k,
        {
            let index = self.pixels[k];
            into.push(self.palette[index as usize]);
            k += 1;
            proof {
                assert(into@ =~= self.view().pixels.take(k as int).map_values(
                    |i: u8| self.view().palette[i as int],
                ));
            }
        }
        proof {
            assert(self.view().pixels.take(k as int) =~= self.view().pixels);
        }
    }

    /// Fill the whole screen with the current colour and home the cursor.
    pub fn clear(&mut self)
        requires
            view_ok(old(self).view()),
        ensures
            view_ok(final(self).view()),
            final(self).view() == applied(old(self).view(), Command::Clear),
    {
        self.fill_all(self.color);
        self.column = 0;
        self.row = 0;
        self.dirty = true;
    }

    fn fill_all(&mut self, c: u8)
        requires
            view_ok(old(self).view()),
        ensures
            final(self).view() == (ScreenView { pixels: Seq::new(area(), |i: int| c), ..old(self).view() }),
    {
        let mut k: usize = 0;
        while k < self.pixels.len()
            invariant
                self.pixels@.len() == area(),
                k <= area(),
                self.palette == old(self).palette,
                self.color == old(self).color,
                self.column == old(self).column,
                self.row == old(self).row,
                self.dirty == old(self).dirty,
                forall|i: int| 0 <= i < k ==> #[trigger] self.pixels@[i] == c,
            decreases area() - k,
        {
            self.pixels.set(k, c);
            k += 1;
        }
        assert(self.pixels@ =~= Seq::new(area(), |i: int| c));
    }

    fn plot(&mut self, x: usize, y: usize)
        requires
            view_ok(old(self).view()),
        ensures
            view_ok(final(self).view()),
            final(self).view() == (ScreenView {
                pixels: plotted(old(self).view().pixels, x as int, y as int, old(self).view().color),
                dirty: old(self).view().dirty || (x < WIDTH && y < HEIGHT),
                ..old(self).view()
            }),
    {
        if x < WIDTH && y < HEIGHT {
            self.pixels.set(y * WIDTH + x, self.color);
            self.dirty = true;
        }
    }

    fn rect(&mut self, x: usize, y: usize, width: usize, height: usize)
        requires
            view_ok(old(self).view()),
            width <= 256,
            height <= 256,
        ensures
            view_ok(final(self).view()),
            final(self).view() == if width == 0 || height == 0 || x >= WIDTH || y >= HEIGHT {
                old(self).view()
            } else {
                ScreenView {
                    pixels: filled(old(self).view().pixels, x as int, y as int, width as int, height as int, old(self).view().color),
                    dirty: true,
                    ..old(self).view()
                }
            },
    {
        if width == 0 || height == 0 || x >= WIDTH || y >= HEIGHT {
            return;
        }
        // A rectangle that runs off an edge is clipped, not wrapped.
        let right = if x + width < WIDTH { x + width } else { WIDTH };
        let bottom = if y + height < HEIGHT { y + height } else { HEIGHT };
        let ghost before = self.pixels@;
        let c = self.color;
        let mut row = y;
        while row < bottom
            invariant
                y <= row <= bottom <= HEIGHT,
                x < right <= WIDTH,
                right == if x + width < WIDTH { x + width } else { WIDTH as int },
                bottom == if y + height < HEIGHT { y + height } else { HEIGHT as int },
                before.len() == area(),
                self.pixels@.len() == area(),
                self.palette == old(self).palette,
                self.color == c,
                c == old(self).color,
                self.column == old(self).column,
                self.row == old(self).row,
                self.dirty == old(self).dirty,
                before == old(self).pixels@,
                forall|i: int|
                    0 <= i < area() ==> #[trigger] self.pixels@[i] == (if x <= i % 256 < right && y <= i / 256 < row {
                        c
                    } else {
                        before[i]
                    }),
            decreases bottom - row,
        {
            let mut col = x;
            while col < right
                invariant
                    y <= row < bottom <= HEIGHT,
                    x <= col <= right <= WIDTH,
                    self.pixels@.len() == area(),
                    self.palette == old(self).palette,
                    self.color == c,
                    self.column == old(self).column,
                    self.row == old(self).row,
                    self.dirty == old(self).dirty,
                    forall|i: int|
                        0 <= i < area() ==> #[trigger] self.pixels@[i] == (if (x <= i % 256 < right && y <= i / 256
                            < row) || (x <= i % 256 < col && i / 256 == row) {
                            c
                        } else {
                            before[i]
                        }),
                decreases right - col,
            {
                proof {
                    assert(row * 256 + col < area()) by (nonlinear_arith)
                        requires
                            row < 192,
                            col < 256,
                    ;
                }
                self.pixels.set(row * WIDTH + col, c);
                proof {
                    let k = row * 256 + col;
                    assert(k % 256 == col && k / 256 == row) by (nonlinear_arith)
                        requires
                            k == row * 256 + col,
                            col < 256,
                    ;
                }
                col += 1;
            }
            row += 1;
        }
        self.dirty = true;
        proof {
            assert(self.pixels@ =~= filled(before, x as int, y as int, width as int, height as int, c));
        }
    }

    fn write_text(&mut self, byte: u8)
        requires
            view_ok(old(self).view()),
        ensures
            view_ok(final(self).view()),
            final(self).view() == text(old(self).view(), byte),
    {
        if byte == 10 {
            self.newline();
        } else if byte == 13 {
            self.column = 0;
        } else if byte == 9 {
            let stop = (self.column / TAB_WIDTH + 1) * TAB_WIDTH;
            if stop >= COLUMNS {
                self.newline();
            } else {
                self.column = stop;
            }
        } else if byte == 8 {
            if self.column > 0 {
                self.column = self.column - 1;
                let c = self.color;
                self.color = DEFAULT_BACKGROUND;
                self.rect(self.column * CELL_WIDTH, self.row * CELL_HEIGHT, CELL_WIDTH, CELL_HEIGHT);
                self.color = c;
            }
        } else if byte == 12 {
            // Form feed clears to the background, as it does a terminal.
            self.fill_all(DEFAULT_BACKGROUND);
            self.column = 0;
            self.row = 0;
            self.dirty = true;
        } else {
            if self.column >= COLUMNS {
                self.newline();
            }
            self.draw_glyph(byte);
            self.column = self.column + 1;
        }
    }

    fn draw_glyph(&mut self, byte: u8)
        requires
            view_ok(old(self).view()),
            old(self).view().column < COLUMNS,
        ensures
            view_ok(final(self).view()),
            final(self).view() == (ScreenView {
                pixels: with_glyph(
                    old(self).view().pixels,
                    old(self).view().column as int,
                    old(self).view().row as int,
                    byte,
                    old(self).view().color,
                ),
                dirty: old(self).view().dirty || has_ink(byte),
                ..old(self).view()
            }),
    {
        let rows = font::glyph(byte);
        let origin_x = self.column * CELL_WIDTH;
        let origin_y = self.row * CELL_HEIGHT;
        let ghost before = self.pixels@;
        let ghost dirty0 = self.dirty;
        let c = self.color;
        let mut line: usize = 0;
        while line < font::HEIGHT
            invariant
                line <= font::HEIGHT,
                rows@ == glyph_rows(byte),
                origin_x == self.column * 6,
                origin_y == self.row * 8,
                self.column < COLUMNS,
                self.row < ROWS,
                self.pixels@.len() == area(),
                self.palette@ == old(self).palette@,
                self.palette@.len() == 256,
                self.color == c,
                c == old(self).color,
                self.column == old(self).column,
                self.row == old(self).row,
                before == old(self).pixels@,
                dirty0 == old(self).dirty,
                self.dirty == (dirty0 || exists|l: int, k: int| 0 <= l < line && #[trigger] lit(byte, l, k)),
                forall|i: int|
                    0 <= i < area() ==> #[trigger] self.pixels@[i] == (if lit(byte, i / 256 - origin_y, i % 256 - origin_x)
                        && i / 256 - origin_y < line {
                        c
                    } else {
                        before[i]
                    }),
            decreases font::HEIGHT - line,
        {
            let bits = rows[line];
            let mut column: usize = 0;
            while column < font::WIDTH
                invariant
                    line < font::HEIGHT,
                    column <= font::WIDTH,
                    bits == glyph_rows(byte)[line as int],
                    origin_x == self.column * 6,
                    origin_y == self.row * 8,
                    self.column < COLUMNS,
                    self.row < ROWS,
                    self.pixels@.len() == area(),
                    self.palette@ == old(self).palette@,
                    self.palette@.len() == 256,
                    self.color == c,
                    self.column == old(self).column,
                    self.row == old(self).row,
                    self.dirty == (dirty0 || exists|l: int, k: int| (0 <= l < line || (l == line && 0 <= k < column)) && #[trigger] lit(byte, l, k)),
                    forall|i: int|
                        0 <= i < area() ==> #[trigger] self.pixels@[i] == (if lit(byte, i / 256 - origin_y, i % 256 - origin_x)
                            && (i / 256 - origin_y < line || (i / 256 - origin_y == line && i % 256 - origin_x < column)) {
                            c
                        } else {
                            before[i]
                        }),
                decreases font::WIDTH - column,
            {
                let shift = (4 - column) as u8;
                if (bits >> shift) & 1 == 1 {
                    let px = origin_x + column;
                    let py = origin_y + line;
                    proof {
                        assert(py * 256 + px < area()) by (nonlinear_arith)
                            requires
                                py < 192,
                                px < 256,
                        ;
                        let k = py * 256 + px;
                        assert(k % 256 == px && k / 256 == py) by (nonlinear_arith)
                            requires
                                k == py * 256 + px,
                                px < 256,
                        ;
                        assert(lit(byte, line as int, column as int));
                    }
                    self.plot(px, py);
                }
                column += 1;
            }
            line += 1;
        }
        proof {
            assert(self.pixels@ =~= with_glyph(before, self.column as int, self.row as int, byte, c));
        }
    }

    /// Bresenham between two points, both ends included.
    fn line(&mut self, x0: u8, y0: u8, x1: u8, y1: u8)
        requires
            view_ok(old(self).view()),
        ensures
            view_ok(final(self).view()),
            line_drawn(old(self).view(), final(self).view(), x0, y0, x1, y1),
    {
        let mut x: i32 = x0 as i32;
        let mut y: i32 = y0 as i32;
        let tx: i32 = x1 as i32;
        let ty: i32 = y1 as i32;
        let fx = tx >= x;
        let fy = ty >= y;
        let step_x: i32 = if fx { 1 } else { -1 };
        let step_y: i32 = if fy { 1 } else { -1 };
        let run: i32 = if fx { tx - x } else { x - tx };
        let rise: i32 = if fy { -(ty - y) } else { -(y - ty) };
        let mut error: i32 = run + rise;
        let ghost dx = run as int;
        let ghost dy = -rise;
        let ghost before = old(self).view();
        let c = self.color;
        proof {
            assert(error == dx * (0 + 1) - dy * (0 + 1)) by (nonlinear_arith)
                requires
                    error == dx - dy,
            ;
        }
        loop
            invariant
                view_ok(self.view()),
                0 <= dx <= 255,
                0 <= dy <= 255,
                run == dx,
                rise == -dy,
                step_x == (if fx { 1int } else { -1int }),
                step_y == (if fy { 1int } else { -1int }),
                fx == (x1 >= x0),
                fy == (y1 >= y0),
                tx == x1,
                ty == y1,
                dx == offset(x1 as int, x0 as int, fx),
                dy == offset(y1 as int, y0 as int, fy),
                0 <= offset(x as int, x0 as int, fx) <= dx,
                0 <= offset(y as int, y0 as int, fy) <= dy,
                0 <= x <= 255,
                0 <= y <= 255,
                error == dx * (offset(y as int, y0 as int, fy) + 1) - dy * (offset(x as int, x0 as int, fx) + 1),
                self.color == c,
                before == old(self).view(),
                c == before.color,
                self.palette@ == before.palette,
                self.column == before.column,
                self.row == before.row,
                self.pixels@.len() == before.pixels.len(),
                forall|i: int| 0 <= i < self.pixels@.len() ==> #[trigger] self.pixels@[i] == before.pixels[i] || self.pixels@[i] == c,
                (x != x0 || y != y0) && y0 < HEIGHT ==> self.pixels@[y0 * WIDTH + x0] == c,
                (x != x0 || y != y0) && y0 < HEIGHT ==> self.dirty,
                before.dirty ==> self.dirty,
            decreases (dx - offset(x as int, x0 as int, fx)) + (dy - offset(y as int, y0 as int, fy)),
        {
            let ghost start_done = x != x0 || y != y0;
            self.plot(x as usize, y as usize);
            if x == tx && y == ty {
                proof {
                    let after = self.view();
                    assert(y1 < HEIGHT ==> after.pixels[y1 * WIDTH + x1] == c);
                    if y0 < HEIGHT {
                        if start_done {
                            assert(after.pixels[y0 * WIDTH + x0] == c);
                        } else {
                            assert(after.pixels[y0 * WIDTH + x0] == c);
                        }
                    }
                    assert(forall|i: int| 0 <= i < after.pixels.len() ==> #[trigger] after.pixels[i] == before.pixels[i] || after.pixels[i] == c);
                    assert(after.palette == before.palette);
                    assert(after.color == before.color);
                    assert(after.column == before.column);
                    assert(after.row == before.row);
                    assert(before.dirty ==> after.dirty);
                    assert(y0 < HEIGHT ==> after.dirty);
                    assert(view_ok(after));
                }
                return;
            }
            let ghost i = offset(x as int, x0 as int, fx);
            let ghost j = offset(y as int, y0 as int, fy);
            proof {
                assert(-2 * 255 * 256 <= error <= 2 * 255 * 256) by (nonlinear_arith)
                    requires
                        error == dx * (j + 1) - dy * (i + 1),
                        0 <= i <= dx <= 255,
                        0 <= j <= dy <= 255,
                ;
            }
            let doubled = error * 2;
            let step_across = doubled >= rise;
            let step_down = doubled <= run;
            proof {
                if i == dx {
                    assert(j < dy);
                    assert(!step_across) by (nonlinear_arith)
                        requires
                            doubled == 2 * (dx * (j + 1) - dy * (i + 1)),
                            i == dx,
                            0 <= j < dy,
                            dx >= 0,
                            step_across == (doubled >= -dy),
                    ;
                }
                if j == dy {
                    assert(i < dx);
                    assert(!step_down) by (nonlinear_arith)
                        requires
                            doubled == 2 * (dx * (j + 1) - dy * (i + 1)),
                            j == dy,
                            0 <= i < dx,
                            dy >= 0,
                            step_down == (doubled <= dx),
                    ;
                }
            }
            if step_across {
                error = error + rise;
                x = x + step_x;
            }
            if step_down {
                error = error + run;
                y = y + step_y;
            }
            proof {
                let i2 = offset(x as int, x0 as int, fx);
                let j2 = offset(y as int, y0 as int, fy);
                assert(error == dx * (j2 + 1) - dy * (i2 + 1)) by (nonlinear_arith)
                    requires
                        i2 == if step_across { i + 1 } else { i },
                        j2 == if step_down { j + 1 } else { j },
                        error == dx * (j + 1) - dy * (i + 1) - (if step_across { dy } else { 0 }) + (if step_down { dx } else { 0 }),
                ;
            }
        }
    }

    fn newline(&mut self)
        requires
            view_ok(old(self).view()),
        ensures
            view_ok(final(self).view()),
            final(self).view() == newline(old(self).view()),
    {
        self.column = 0;
        if self.row + 1 < ROWS {
            self.row = self.row + 1;
        } else {
            self.scroll();
        }
    }

    /// Move everything up one character row, clearing the row that opens up.
    pub fn scroll(&mut self)
        requires
            view_ok(old(self).view()),
        ensures
            view_ok(final(self).view()),
            final(self).view() == (ScreenView { pixels: scrolled(old(self).view().pixels), dirty: true, ..old(self).view() }),
    {
        let step = CELL_HEIGHT * WIDTH;
        let ghost before = self.pixels@;
        let n = self.pixels.len();
        assert(area() == 49152);
        let mut k: usize = 0;
        while k < n
            invariant
                n == area(),
                n == 49152,
                step == 2048,
                before.len() == n,
                k <= n,
                self.pixels@.len() == n,
                before == old(self).pixels@,
                self.palette == old(self).palette,
                self.color == old(self).color,
                self.column == old(self).column,
                self.row == old(self).row,
                self.dirty == old(self).dirty,
                forall|i: int| 0 <= i < k ==> #[trigger] self.pixels@[i] == scrolled(before)[i],
                forall|i: int| k <= i < n ==> #[trigger] self.pixels@[i] == before[i],
            decreases n - k,
        {
            let value = if k + step < n {
                self.pixels[k + step]
            } else {
                DEFAULT_BACKGROUND
            };
            self.pixels.set(k, value);
            k += 1;
        }
        self.dirty = true;
        assert(self.pixels@ =~= scrolled(before));
    }
}

/// Pack a colour the way the display buffer wants it.
fn rgb_of(red: u8, green: u8, blue: u8) -> (r: u32)
    ensures
        r == rgb(red, green, blue),
{
    (red as u32) * 65536 + (green as u32) * 256 + (blue as u32)
}

/// The sixteen named colours, in the order terminals put them.
pub open spec fn named_color(i: int) -> u32 {
    if i == 0 { 0x000000 }
    else if i == 1 { 0xAA0000 }
    else if i == 2 { 0x00AA00 }
    else if i == 3 { 0xAA5500 }
    else if i == 4 { 0x0000AA }
    else if i == 5 { 0xAA00AA }
    else if i == 6 { 0x00AAAA }
    else if i == 7 { 0xAAAAAA }
    else if i == 8 { 0x555555 }
    else if i == 9 { 0xFF5555 }
    else if i == 10 { 0x55FF55 }
    else if i == 11 { 0xFFFF55 }
    else if i == 12 { 0x5555FF }
    else if i == 13 { 0xFF55FF }
    else if i == 14 { 0x55FFFF }
    else { 0xFFFFFF }
}

/// The standard colour-cube ramp: 0, then 95 to 255 in steps of 40.
pub open spec fn ramp(i: int) -> u8 {
    if i == 0 { 0 } else { (55 + 40 * i) as u8 }
}

/// The default palette: sixteen named colours, a 6x6x6 colour cube at
/// `16 + 36 * red + 6 * green + blue`, then twenty-four greys from 8 in steps
/// of 10.
pub open spec fn default_palette_spec() -> Seq<u32> {
    Seq::new(
        256,
        |i: int|
            if i < 16 {
                named_color(i)
            } else if i < 232 {
                let k = i - 16;
                rgb(ramp(k / 36), ramp((k / 6) % 6), ramp(k % 6))
            } else {
                let level = (8 + 10 * (i - 232)) as u8;
                rgb(level, level, level)
            },
    )
}

fn named_color_of(i: usize) -> (r: u32)
    requires
        i < 16,
    ensures
        r == named_color(i as int),
{
    if i == 0 { 0x000000 }
    else if i == 1 { 0xAA0000 }
    else if i == 2 { 0x00AA00 }
    else if i == 3 { 0xAA5500 }
    else if i == 4 { 0x0000AA }
    else if i == 5 { 0xAA00AA }
    else if i == 6 { 0x00AAAA }
    else if i == 7 { 0xAAAAAA }
    else if i == 8 { 0x555555 }
    else if i == 9 { 0xFF5555 }
    else if i == 10 { 0x55FF55 }
    else if i == 11 { 0xFFFF55 }
    else if i == 12 { 0x5555FF }
    else if i == 13 { 0xFF55FF }
    else if i == 14 { 0x55FFFF }
    else { 0xFFFFFF }
}

fn ramp_of(i: usize) -> (r: u8)
    requires
        i < 6,
    ensures
        r == ramp(i as int),
{
    if i == 0 { 0 } else { (55 + 40 * i) as u8 }
}

/// The palette a program gets without setting one up: the usual 256-colour
/// terminal layout.
pub fn default_palette() -> (r: Vec<u32>)
    ensures
        r@ == default_palette_spec(),
{
    let mut palette: Vec<u32> = Vec::new();
    let mut i: usize = 0;
    while i < 256
        invariant
            i <= 256,
            palette@.len() == i,
            forall|k: int| 0 <= k < i ==> #[trigger] palette@[k] == default_palette_spec()[k],
        decreases 256 - i,
    {
        let entry = if i < 16 {
            named_color_of(i)
        } else if i < 232 {
            let k = i - 16;
            rgb_of(ramp_of(k / 36), ramp_of((k / 6) % 6), ramp_of(k % 6))
        } else {
            let level = (8 + 10 * (i - 232)) as u8;
            rgb_of(level, level, level)
        };
        palette.push(entry);
        i += 1;
    }
    assert(palette@ =~= default_palette_spec());
    palette
}

/// The colour-cube index for components in `0..6`; larger components are
/// clamped to 5, so the result stays inside the cube.
pub fn cube_color(red: u8, green: u8, blue: u8) -> (r: u8)
    ensures
        r == 16 + 36 * (if red < 5 { red } else { 5 }) + 6 * (if green < 5 { green } else { 5 }) + (if blue < 5 { blue } else { 5 }),
{
    let r = if red < 5 { red } else { 5 };
    let g = if green < 5 { green } else { 5 };
    let b = if blue < 5 { blue } else { 5 };
    16 + 36 * r + 6 * g + b
}

// ----- Lines -----

/// How far `p` has come from `p0`, in the direction a line runs.
pub open spec fn offset(p: int, p0: int, forward: bool) -> int {
    if forward {
        p - p0
    } else {
        p0 - p
    }
}

/// What drawing a line from `(x0, y0)` to `(x1, y1)` did: both ends are in
/// the current colour, and every pixel that changed took that colour.
pub open spec fn line_drawn(before: ScreenView, after: ScreenView, x0: u8, y0: u8, x1: u8, y1: u8) -> bool {
    let c = before.color;
    &&& after.palette == before.palette
    &&& after.color == before.color
    &&& after.column == before.column
    &&& after.row == before.row
    &&& after.pixels.len() == before.pixels.len()
    &&& forall|i: int| 0 <= i < after.pixels.len() ==> #[trigger] after.pixels[i] == before.pixels[i] || after.pixels[i] == c
    &&& (y0 < HEIGHT ==> after.pixels[y0 * WIDTH + x0] == c)
    &&& (y1 < HEIGHT ==> after.pixels[y1 * WIDTH + x1] == c)
    &&& (before.dirty ==> after.dirty)
    &&& (y0 < HEIGHT ==> after.dirty)
}

} // verus!
