//! Command bytes, each following a [`super::DLE`].

use vstd::prelude::*;

verus! {

/// Draw a literal [`super::DLE`] as text. No arguments.
pub const LITERAL: u8 = 0x00;
/// Fill the screen with the current colour. No arguments.
pub const CLEAR: u8 = 0x01;
/// Set the current colour. One argument: a palette index.
pub const COLOR: u8 = 0x02;
/// Set one pixel. Two arguments: `x`, `y`.
pub const PLOT: u8 = 0x03;
/// Fill a rectangle. Four arguments: `x`, `y`, `width`, `height`.
pub const RECT: u8 = 0x04;
/// Draw a line. Four arguments: `x0`, `y0`, `x1`, `y1`.
pub const LINE: u8 = 0x05;
/// Show what has been drawn. No arguments.
pub const PRESENT: u8 = 0x06;
/// Set a palette entry. Four arguments: index, red, green, blue.
pub const PALETTE: u8 = 0x07;
/// Move the text cursor. Two arguments: column, row.
pub const AT: u8 = 0x08;
/// Close the window and end the program. No arguments.
pub const QUIT: u8 = 0x09;
/// Choose how reads behave. One argument: 0 for text, 1 for events.
pub const MODE: u8 = 0x0A;

} // verus!
