//! Key codes for keys that have no ASCII spelling. Every other key reports
//! its unshifted ASCII byte, and no key reports `0`.

use vstd::prelude::*;

verus! {

/// Up arrow.
pub const UP: u8 = 0x80;
/// Down arrow.
pub const DOWN: u8 = 0x81;
/// Left arrow.
pub const LEFT: u8 = 0x82;
/// Right arrow.
pub const RIGHT: u8 = 0x83;
/// Escape.
pub const ESCAPE: u8 = 0x84;
/// Either shift key.
pub const SHIFT: u8 = 0x85;
/// Either control key.
pub const CONTROL: u8 = 0x86;

} // verus!
