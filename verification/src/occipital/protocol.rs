//! The byte protocol between a Brainfuck program and the window.
//!
//! Bytes a program writes are text by default. A command is that stream
//! escaped with [`DLE`], and every argument is one byte, coordinates
//! included. Going the other way, every read returns immediately in
//! [`InputMode::Events`] and blocks for a character in [`InputMode::Text`].

pub mod command;
pub mod event;
pub mod key;

use vstd::prelude::*;

verus! {

/// Introduces a command: ASCII "data link escape". A program that wants to
/// draw a literal `0x10` writes [`DLE`] then [`command::LITERAL`].
pub const DLE: u8 = 0x10;

/// How a program's reads behave.
#[derive(Debug, Clone, Copy, PartialEq, Eq, Structural)]
pub enum InputMode {
    /// Reads block until a key produces a character, and return its byte.
    /// The default, because it is what a terminal program expects.
    Text,
    /// Reads return immediately with an event byte.
    Events,
}

impl Default for InputMode {
    fn default() -> (r: Self)
        ensures
            r == InputMode::Text,
    {
        InputMode::Text
    }
}

/// A decoded command.
#[derive(Debug, Clone, Copy, PartialEq, Eq, Structural)]
pub enum Command {
    /// Draw one byte as text at the cursor.
    Text(u8),
    /// Fill the screen with the current colour.
    Clear,
    /// Set the current colour.
    Color(u8),
    /// Set one pixel.
    Plot { x: u8, y: u8 },
    /// Fill a rectangle.
    Rect { x: u8, y: u8, width: u8, height: u8 },
    /// Draw a line between two points, both included.
    Line { x0: u8, y0: u8, x1: u8, y1: u8 },
    /// Show what has been drawn.
    Present,
    /// Set a palette entry.
    Palette { index: u8, red: u8, green: u8, blue: u8 },
    /// Move the text cursor.
    At { column: u8, row: u8 },
    /// Close the window.
    Quit,
    /// Change how reads behave.
    Mode(InputMode),
}

/// How many argument bytes a command takes, or `None` if it is unrecognized.
pub open spec fn arity(c: u8) -> Option<nat> {
    if c == command::LITERAL || c == command::CLEAR || c == command::PRESENT || c == command::QUIT {
        Some(0)
    } else if c == command::COLOR || c == command::MODE {
        Some(1)
    } else if c == command::PLOT || c == command::AT {
        Some(2)
    } else if c == command::RECT || c == command::LINE || c == command::PALETTE {
        Some(4)
    } else {
        None
    }
}

/// The command a command byte and its arguments make.
pub open spec fn complete(c: u8, a: Seq<u8>) -> Option<Command> {
    if c == command::LITERAL && a.len() == 0 {
        Some(Command::Text(DLE))
    } else if c == command::CLEAR && a.len() == 0 {
        Some(Command::Clear)
    } else if c == command::PRESENT && a.len() == 0 {
        Some(Command::Present)
    } else if c == command::QUIT && a.len() == 0 {
        Some(Command::Quit)
    } else if c == command::COLOR && a.len() == 1 {
        Some(Command::Color(a[0]))
    } else if c == command::MODE && a.len() == 1 {
        Some(Command::Mode(if a[0] == 0 { InputMode::Text } else { InputMode::Events }))
    } else if c == command::PLOT && a.len() == 2 {
        Some(Command::Plot { x: a[0], y: a[1] })
    } else if c == command::AT && a.len() == 2 {
        Some(Command::At { column: a[0], row: a[1] })
    } else if c == command::RECT && a.len() == 4 {
        Some(Command::Rect { x: a[0], y: a[1], width: a[2], height: a[3] })
    } else if c == command::LINE && a.len() == 4 {
        Some(Command::Line { x0: a[0], y0: a[1], x1: a[2], y1: a[3] })
    } else if c == command::PALETTE && a.len() == 4 {
        Some(Command::Palette { index: a[0], red: a[1], green: a[2], blue: a[3] })
    } else {
        None
    }
}

/// Where a decoder is in the stream.
#[derive(Debug, Clone)]
enum State {
    /// Reading text.
    Text,
    /// A [`DLE`] arrived; the next byte says which command.
    Escaped,
    /// Collecting a command's arguments.
    Arguments { command: u8, collected: Vec<u8>, needed: usize },
}

/// Where a decoder is, as plain values.
pub enum Phase {
    Text,
    Escaped,
    Arguments { command: u8, collected: Seq<u8>, needed: nat },
}

/// One byte's effect: the decoder's next phase and the command it completes.
pub open spec fn step(p: Phase, byte: u8) -> (Phase, Option<Command>) {
    match p {
        Phase::Text => if byte == DLE {
            (Phase::Escaped, None)
        } else {
            (Phase::Text, Some(Command::Text(byte)))
        },
        Phase::Escaped => match arity(byte) {
            None => (Phase::Text, None),
            Some(n) => if n == 0 {
                (Phase::Text, complete(byte, seq![]))
            } else {
                (Phase::Arguments { command: byte, collected: seq![], needed: n }, None)
            },
        },
        Phase::Arguments { command, collected, needed } => {
            let got = collected.push(byte);
            if got.len() < needed {
                (Phase::Arguments { command, collected: got, needed }, None)
            } else {
                (Phase::Text, complete(command, got))
            }
        },
    }
}

/// Feed a whole stream from phase `p`: the phase it ends in and every command
/// it completes, in order.
pub open spec fn decode(p: Phase, bytes: Seq<u8>) -> (Phase, Seq<Command>)
    decreases bytes.len(),
{
    if bytes.len() == 0 {
        (p, seq![])
    } else {
        let (mid, done) = decode(p, bytes.drop_last());
        let (end, out) = step(mid, bytes.last());
        (end, match out {
            Some(c) => done.push(c),
            None => done,
        })
    }
}

/// A phase a decoder can be in.
pub open spec fn phase_ok(p: Phase) -> bool {
    match p {
        Phase::Arguments { command, collected, needed } => arity(command) == Some(needed) && 0 <= collected.len() < needed,
        _ => true,
    }
}

/// Turns a byte stream into [`Command`]s, one byte at a time. A command that
/// needs arguments yields nothing until its last argument arrives.
#[derive(Debug, Clone)]
pub struct Decoder {
    state: State,
}

impl Decoder {
    /// Where the decoder is.
    pub closed spec fn phase(&self) -> Phase {
        match self.state {
            State::Text => Phase::Text,
            State::Escaped => Phase::Escaped,
            State::Arguments { command, collected, needed } => Phase::Arguments {
                command,
                collected: collected@,
                needed: needed as nat,
            },
        }
    }

    /// The decoder's invariant: any arguments being collected are for a
    /// known command and not yet all there.
    pub closed spec fn wf(&self) -> bool {
        phase_ok(self.phase())
    }

    /// A decoder positioned at the start of a stream.
    pub fn new() -> (r: Self)
        ensures
            r.wf(),
            r.phase() == Phase::Text,
    {
        Decoder { state: State::Text }
    }

    /// Feed one byte, returning a command once one is complete. An
    /// unrecognized command byte is discarded, and nothing else with it.
    pub fn push(&mut self, byte: u8) -> (r: Option<Command>)
        requires
            old(self).wf(),
        ensures
            final(self).wf(),
            (final(self).phase(), r) == step(old(self).phase(), byte),
    {
        let mut state = State::Text;
        std::mem::swap(&mut self.state, &mut state);
        match state {
            State::Text => {
                if byte == DLE {
                    self.state = State::Escaped;
                    return None;
                }
                Some(Command::Text(byte))
            },
            State::Escaped => match arity_of(byte) {
                None => None,
                Some(0) => complete_of(byte, &[]),
                Some(needed) => {
                    self.state = State::Arguments { command: byte, collected: Vec::new(), needed };
                    None
                },
            },
            State::Arguments { command, collected, needed } => {
                let mut collected = collected;
                collected.push(byte);
                if collected.len() < needed {
                    self.state = State::Arguments { command, collected, needed };
                    return None;
                }
                complete_of(command, collected.as_slice())
            },
        }
    }

    /// Whether the decoder is midway through a command: a stream that ends
    /// here was cut off.
    pub fn is_mid_command(&self) -> (r: bool)
        ensures
            r == !(self.phase() is Text),
    {
        match self.state {
            State::Text => false,
            _ => true,
        }
    }
}

impl Default for Decoder {
    fn default() -> (r: Self)
        ensures
            r.wf(),
            r.phase() == Phase::Text,
    {
        Decoder::new()
    }
}

fn arity_of(c: u8) -> (r: Option<usize>)
    ensures
        match arity(c) {
            Some(n) => r == Some(n as usize),
            None => r is None,
        },
{
    if c == command::LITERAL || c == command::CLEAR || c == command::PRESENT || c == command::QUIT {
        Some(0)
    } else if c == command::COLOR || c == command::MODE {
        Some(1)
    } else if c == command::PLOT || c == command::AT {
        Some(2)
    } else if c == command::RECT || c == command::LINE || c == command::PALETTE {
        Some(4)
    } else {
        None
    }
}

fn complete_of(c: u8, a: &[u8]) -> (r: Option<Command>)
    ensures
        r == complete(c, a@),
{
    let n = a.len();
    if c == command::LITERAL && n == 0 {
        Some(Command::Text(DLE))
    } else if c == command::CLEAR && n == 0 {
        Some(Command::Clear)
    } else if c == command::PRESENT && n == 0 {
        Some(Command::Present)
    } else if c == command::QUIT && n == 0 {
        Some(Command::Quit)
    } else if c == command::COLOR && n == 1 {
        Some(Command::Color(a[0]))
    } else if c == command::MODE && n == 1 {
        Some(Command::Mode(if a[0] == 0 { InputMode::Text } else { InputMode::Events }))
    } else if c == command::PLOT && n == 2 {
        Some(Command::Plot { x: a[0], y: a[1] })
    } else if c == command::AT && n == 2 {
        Some(Command::At { column: a[0], row: a[1] })
    } else if c == command::RECT && n == 4 {
        Some(Command::Rect { x: a[0], y: a[1], width: a[2], height: a[3] })
    } else if c == command::LINE && n == 4 {
        Some(Command::Line { x0: a[0], y0: a[1], x1: a[2], y1: a[3] })
    } else if c == command::PALETTE && n == 4 {
        Some(Command::Palette { index: a[0], red: a[1], green: a[2], blue: a[3] })
    } else {
        None
    }
}

// ----- Encoding -----

/// The bytes a program writes to send `c`. Text other than [`DLE`] is the
/// byte itself; [`DLE`] as text is escaped.
pub open spec fn encode(c: Command) -> Seq<u8> {
    match c {
        Command::Text(b) => if b == DLE {
            seq![DLE, command::LITERAL]
        } else {
            seq![b]
        },
        Command::Clear => seq![DLE, command::CLEAR],
        Command::Color(i) => seq![DLE, command::COLOR, i],
        Command::Plot { x, y } => seq![DLE, command::PLOT, x, y],
        Command::Rect { x, y, width, height } => seq![DLE, command::RECT, x, y, width, height],
        Command::Line { x0, y0, x1, y1 } => seq![DLE, command::LINE, x0, y0, x1, y1],
        Command::Present => seq![DLE, command::PRESENT],
        Command::Palette { index, red, green, blue } => seq![DLE, command::PALETTE, index, red, green, blue],
        Command::At { column, row } => seq![DLE, command::AT, column, row],
        Command::Quit => seq![DLE, command::QUIT],
        Command::Mode(m) => seq![DLE, command::MODE, if m == InputMode::Text { 0u8 } else { 1u8 }],
    }
}

/// The command bytes, with every command's encoding after the text phase,
/// decode to exactly that command and leave the decoder reading text again:
/// arguments are never mistaken for commands, and nothing is reported before
/// the last byte of a command.
pub proof fn lemma_encoded_command_decodes(c: Command)
    ensures
        decode(Phase::Text, encode(c)) == (Phase::Text, seq![c]),
{
    let e = encode(c);
    reveal_with_fuel(decode, 7);
    assert(e.len() <= 6);
    if e.len() >= 1 {
        assert(e.drop_last().len() == e.len() - 1);
    }
    match c {
        Command::Text(b) => {
            if b == DLE {
                assert(e.drop_last() =~= seq![DLE]);
                assert(seq![DLE].drop_last() =~= seq![]);
            } else {
                assert(e.drop_last() =~= seq![]);
            }
        },
        Command::Clear | Command::Present | Command::Quit => {
            assert(e.drop_last() =~= seq![DLE]);
            assert(seq![DLE].drop_last() =~= seq![]);
        },
        Command::Color(i) => {
            assert(e.drop_last() =~= seq![DLE, command::COLOR]);
            assert(e.drop_last().drop_last() =~= seq![DLE]);
            assert(seq![DLE].drop_last() =~= seq![]);
            assert(seq![i] =~= seq![].push(i));
        },
        Command::Mode(m) => {
            assert(e.drop_last() =~= seq![DLE, command::MODE]);
            assert(e.drop_last().drop_last() =~= seq![DLE]);
            assert(seq![DLE].drop_last() =~= seq![]);
        },
        Command::Plot { x, y } => {
            assert(e.drop_last() =~= seq![DLE, command::PLOT, x]);
            assert(e.drop_last().drop_last() =~= seq![DLE, command::PLOT]);
            assert(e.drop_last().drop_last().drop_last() =~= seq![DLE]);
            assert(seq![DLE].drop_last() =~= seq![]);
            assert(seq![].push(x).push(y) =~= seq![x, y]);
        },
        Command::At { column, row } => {
            assert(e.drop_last() =~= seq![DLE, command::AT, column]);
            assert(e.drop_last().drop_last() =~= seq![DLE, command::AT]);
            assert(e.drop_last().drop_last().drop_last() =~= seq![DLE]);
            assert(seq![DLE].drop_last() =~= seq![]);
            assert(seq![].push(column).push(row) =~= seq![column, row]);
        },
        Command::Rect { x, y, width, height } => {
            lemma_four(e, command::RECT, x, y, width, height);
        },
        Command::Line { x0, y0, x1, y1 } => {
            lemma_four(e, command::LINE, x0, y0, x1, y1);
        },
        Command::Palette { index, red, green, blue } => {
            lemma_four(e, command::PALETTE, index, red, green, blue);
        },
    }
}

proof fn lemma_four(e: Seq<u8>, c: u8, a: u8, b: u8, d: u8, f: u8)
    requires
        e == seq![DLE, c, a, b, d, f],
        arity(c) == Some(4nat),
    ensures
        decode(Phase::Text, e) == (Phase::Text, seq![complete(c, seq![a, b, d, f]).unwrap()]),
        complete(c, seq![a, b, d, f]) is Some,
{
    reveal_with_fuel(decode, 7);
    assert(e.drop_last() =~= seq![DLE, c, a, b, d]);
    assert(e.drop_last().drop_last() =~= seq![DLE, c, a, b]);
    assert(e.drop_last().drop_last().drop_last() =~= seq![DLE, c, a]);
    assert(e.drop_last().drop_last().drop_last().drop_last() =~= seq![DLE, c]);
    assert(seq![DLE, c].drop_last() =~= seq![DLE]);
    assert(seq![DLE].drop_last() =~= seq![]);
    assert(seq![].push(a).push(b).push(d).push(f) =~= seq![a, b, d, f]);
}

} // verus!
