//! What a window console decides, apart from the window itself: which typed
//! characters reach the program, which keys have a protocol byte, how a
//! requested magnification maps onto the steps a window can show, and how
//! often a frame is repainted.

use vstd::prelude::*;
use crate::occipital::protocol::{event, key};

verus! {

/// Longest a frame is held before an automatic repaint, in milliseconds.
///
/// A program that never sends `PRESENT` — anything written for a terminal —
/// still animates, because drawing marks the screen dirty and the next byte
/// after this long repaints it.
pub const FRAME_MILLIS: u64 = 16;

/// How long a blocking read waits between polls of the window, in
/// milliseconds.
pub const POLL_MILLIS: u64 = 2;

/// How the window is set up.
#[derive(Debug, Clone)]
pub struct Options {
    /// Window title.
    pub title: String,
    /// Whole-number magnification of the 256x192 screen.
    pub scale: u8,
    /// Keep the window open after the program ends, until it is closed.
    pub wait_on_exit: bool,
}

impl Default for Options {
    fn default() -> (r: Self)
        ensures
            r.title@ == "occipital"@,
            r.scale == 3,
            r.wait_on_exit,
    {
        Options { title: "occipital".to_owned(), scale: 3, wait_on_exit: true }
    }
}

/// Whether a Latin-1 code point is a control character: `0x00..=0x1F` and
/// `0x7F..=0x9F`.
pub open spec fn latin1_control(c: u32) -> bool {
    c <= 0x1f || (0x7f <= c <= 0x9f)
}

/// The byte a typed character reaches the program as: the protocol is
/// bytes, so a character outside Latin-1 has no spelling and is dropped, and
/// control characters arrive from their keys instead.
pub fn typed_byte(character: u32) -> (r: Option<u8>)
    ensures
        r == (if character <= 0xff && !latin1_control(character) {
            Some(character as u8)
        } else {
            None
        }),
{
    if character <= 0xff && !(character <= 0x1f || (0x7f <= character && character <= 0x9f)) {
        Some(character as u8)
    } else {
        None
    }
}

/// The magnification a window shows for a requested `scale`: the supported
/// step at or below it, and at least one.
pub open spec fn scale_step_spec(scale: u8) -> u8 {
    if scale <= 1 {
        1
    } else if scale <= 3 {
        2
    } else if scale <= 7 {
        4
    } else if scale <= 15 {
        8
    } else if scale <= 31 {
        16
    } else {
        32
    }
}

/// Map a window scale onto the fixed set of steps a window supports.
///
/// Anything in between rounds down to the next supported step, so an odd
/// scale gives a smaller window rather than an error.
pub fn scale_step(scale: u8) -> (r: u8)
    ensures
        r == scale_step_spec(scale),
        r <= scale || scale == 0,
{
    if scale <= 1 {
        1
    } else if scale <= 3 {
        2
    } else if scale <= 7 {
        4
    } else if scale <= 15 {
        8
    } else if scale <= 31 {
        16
    } else {
        32
    }
}

/// The keys the console gives a protocol byte, plus everything else.
#[derive(Debug, Clone, Copy, PartialEq, Eq, Structural)]
pub enum KeyName {
    A,
    B,
    C,
    D,
    E,
    F,
    G,
    H,
    I,
    J,
    K,
    L,
    M,
    N,
    O,
    P,
    Q,
    R,
    S,
    T,
    U,
    V,
    W,
    X,
    Y,
    Z,
    Key0,
    Key1,
    Key2,
    Key3,
    Key4,
    Key5,
    Key6,
    Key7,
    Key8,
    Key9,
    NumPad0,
    NumPad1,
    NumPad2,
    NumPad3,
    NumPad4,
    NumPad5,
    NumPad6,
    NumPad7,
    NumPad8,
    NumPad9,
    Space,
    Enter,
    NumPadEnter,
    Tab,
    Backspace,
    Comma,
    Period,
    Slash,
    Semicolon,
    Apostrophe,
    LeftBracket,
    RightBracket,
    Backslash,
    Minus,
    Equal,
    Backquote,
    Up,
    Down,
    Left,
    Right,
    Escape,
    LeftShift,
    RightShift,
    LeftCtrl,
    RightCtrl,
    /// A key with no protocol byte.
    Other,
}

/// The letter keys, in order.
pub open spec fn is_letter(k: KeyName) -> bool {
    k is A || k is B || k is C || k is D || k is E || k is F || k is G || k is H || k is I || k is J || k is K
        || k is L || k is M || k is N || k is O || k is P || k is Q || k is R || k is S || k is T || k is U || k
        is V || k is W || k is X || k is Y || k is Z
}

/// The protocol byte for each key, `None` for a key with no spelling.
pub open spec fn key_byte(k: KeyName) -> Option<u8> {
    match k {
        KeyName::A => Some(97u8),
        KeyName::B => Some(98u8),
        KeyName::C => Some(99u8),
        KeyName::D => Some(100u8),
        KeyName::E => Some(101u8),
        KeyName::F => Some(102u8),
        KeyName::G => Some(103u8),
        KeyName::H => Some(104u8),
        KeyName::I => Some(105u8),
        KeyName::J => Some(106u8),
        KeyName::K => Some(107u8),
        KeyName::L => Some(108u8),
        KeyName::M => Some(109u8),
        KeyName::N => Some(110u8),
        KeyName::O => Some(111u8),
        KeyName::P => Some(112u8),
        KeyName::Q => Some(113u8),
        KeyName::R => Some(114u8),
        KeyName::S => Some(115u8),
        KeyName::T => Some(116u8),
        KeyName::U => Some(117u8),
        KeyName::V => Some(118u8),
        KeyName::W => Some(119u8),
        KeyName::X => Some(120u8),
        KeyName::Y => Some(121u8),
        KeyName::Z => Some(122u8),
        KeyName::Key0 | KeyName::NumPad0 => Some(48u8),
        KeyName::Key1 | KeyName::NumPad1 => Some(49u8),
        KeyName::Key2 | KeyName::NumPad2 => Some(50u8),
        KeyName::Key3 | KeyName::NumPad3 => Some(51u8),
        KeyName::Key4 | KeyName::NumPad4 => Some(52u8),
        KeyName::Key5 | KeyName::NumPad5 => Some(53u8),
        KeyName::Key6 | KeyName::NumPad6 => Some(54u8),
        KeyName::Key7 | KeyName::NumPad7 => Some(55u8),
        KeyName::Key8 | KeyName::NumPad8 => Some(56u8),
        KeyName::Key9 | KeyName::NumPad9 => Some(57u8),
        KeyName::Space => Some(32u8),
        KeyName::Enter | KeyName::NumPadEnter => Some(10u8),
        KeyName::Tab => Some(9u8),
        KeyName::Backspace => Some(8u8),
        KeyName::Comma => Some(44u8),
        KeyName::Period => Some(46u8),
        KeyName::Slash => Some(47u8),
        KeyName::Semicolon => Some(59u8),
        KeyName::Apostrophe => Some(39u8),
        KeyName::LeftBracket => Some(91u8),
        KeyName::RightBracket => Some(93u8),
        KeyName::Backslash => Some(92u8),
        KeyName::Minus => Some(45u8),
        KeyName::Equal => Some(61u8),
        KeyName::Backquote => Some(96u8),
        KeyName::Up => Some(key::UP),
        KeyName::Down => Some(key::DOWN),
        KeyName::Left => Some(key::LEFT),
        KeyName::Right => Some(key::RIGHT),
        KeyName::Escape => Some(key::ESCAPE),
        KeyName::LeftShift | KeyName::RightShift => Some(key::SHIFT),
        KeyName::LeftCtrl | KeyName::RightCtrl => Some(key::CONTROL),
        KeyName::Other => None,
    }
}

/// The keys with no ASCII spelling, which get codes from `0x80` up.
pub open spec fn is_special(k: KeyName) -> bool {
    k is Up || k is Down || k is Left || k is Right || k is Escape || k is LeftShift || k is RightShift
        || k is LeftCtrl || k is RightCtrl
}

/// The protocol byte for a key, or `None` for a key with no spelling.
///
/// Letters report their unshifted ASCII, so a game can read `w` without caring
/// about shift or caps lock; keys with no ASCII get codes from `0x80` up; no
/// key reports the "nothing happened" byte.
pub fn key_code(pressed: KeyName) -> (r: Option<u8>)
    ensures
        r == key_byte(pressed),
        r matches Some(c) ==> c != event::NONE,
        r is None <==> pressed is Other,
        is_letter(pressed) ==> (r matches Some(c) && 97 <= c <= 122),
        is_special(pressed) ==> (r matches Some(c) && c >= 0x80),
{
    let code: u8 = match pressed {
        KeyName::A => 97,
        KeyName::B => 98,
        KeyName::C => 99,
        KeyName::D => 100,
        KeyName::E => 101,
        KeyName::F => 102,
        KeyName::G => 103,
        KeyName::H => 104,
        KeyName::I => 105,
        KeyName::J => 106,
        KeyName::K => 107,
        KeyName::L => 108,
        KeyName::M => 109,
        KeyName::N => 110,
        KeyName::O => 111,
        KeyName::P => 112,
        KeyName::Q => 113,
        KeyName::R => 114,
        KeyName::S => 115,
        KeyName::T => 116,
        KeyName::U => 117,
        KeyName::V => 118,
        KeyName::W => 119,
        KeyName::X => 120,
        KeyName::Y => 121,
        KeyName::Z => 122,
        KeyName::Key0 | KeyName::NumPad0 => 48,
        KeyName::Key1 | KeyName::NumPad1 => 49,
        KeyName::Key2 | KeyName::NumPad2 => 50,
        KeyName::Key3 | KeyName::NumPad3 => 51,
        KeyName::Key4 | KeyName::NumPad4 => 52,
        KeyName::Key5 | KeyName::NumPad5 => 53,
        KeyName::Key6 | KeyName::NumPad6 => 54,
        KeyName::Key7 | KeyName::NumPad7 => 55,
        KeyName::Key8 | KeyName::NumPad8 => 56,
        KeyName::Key9 | KeyName::NumPad9 => 57,
        KeyName::Space => 32,
        KeyName::Enter | KeyName::NumPadEnter => 10,
        KeyName::Tab => 9,
        KeyName::Backspace => 0x08,
        KeyName::Comma => 44,
        KeyName::Period => 46,
        KeyName::Slash => 47,
        KeyName::Semicolon => 59,
        KeyName::Apostrophe => 39,
        KeyName::LeftBracket => 91,
        KeyName::RightBracket => 93,
        KeyName::Backslash => 92,
        KeyName::Minus => 45,
        KeyName::Equal => 61,
        KeyName::Backquote => 96,
        KeyName::Up => key::UP,
        KeyName::Down => key::DOWN,
        KeyName::Left => key::LEFT,
        KeyName::Right => key::RIGHT,
        KeyName::Escape => key::ESCAPE,
        KeyName::LeftShift | KeyName::RightShift => key::SHIFT,
        KeyName::LeftCtrl | KeyName::RightCtrl => key::CONTROL,
        KeyName::Other => {
            return None;
        },
    };
    Some(code)
}

/// The text byte a control key types, for the keys whose characters a
/// window does not report as typed text: Enter, Backspace, Tab and Escape.
pub fn control_key_byte(pressed: KeyName) -> (r: Option<u8>)
    ensures
        r == (match pressed {
            KeyName::Enter | KeyName::NumPadEnter => Some(10u8),
            KeyName::Backspace => Some(8u8),
            KeyName::Tab => Some(9u8),
            KeyName::Escape => Some(0x1bu8),
            _ => None,
        }),
{
    match pressed {
        KeyName::Enter | KeyName::NumPadEnter => Some(10),
        KeyName::Backspace => Some(8),
        KeyName::Tab => Some(9),
        KeyName::Escape => Some(0x1b),
        _ => None,
    }
}

} // verus!
