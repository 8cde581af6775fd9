//! Event bytes, returned by a read in events mode.

use vstd::prelude::*;

verus! {

/// Nothing has happened. No further byte follows.
pub const NONE: u8 = 0x00;
/// A key went down. One byte follows: the key code.
pub const KEY_DOWN: u8 = 0x01;
/// A key came up. One byte follows: the key code.
pub const KEY_UP: u8 = 0x02;
/// The window was closed. No further byte follows.
pub const QUIT: u8 = 0x03;

} // verus!
