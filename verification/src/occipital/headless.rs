//! Running a program with no window: the same protocol and framebuffer as the
//! window, with scripted input instead of a keyboard, so a graphical program
//! can be checked by looking at the pixels it produced.

use vstd::prelude::*;
use super::protocol::{event, step, Command, Decoder, InputMode, Phase};
use super::screen::{applied, fresh_screen, view_ok, Screen, ScreenView, line_drawn};
use crate::hypothalamus::bf::Op;
use crate::hypothalamus::ir::{ir_block_ok, optimize, travel_fits, Ir, no_loops, ir_run, bf_run};
use crate::hypothalamus::ir::Machine as BfMachine;
use crate::hypothalamus::runner::{halted, initial, next_input, running, step as machine_step, wants_input, Machine, MachineView, RunError, Trace};

verus! {

/// A host that draws into a framebuffer and answers reads from a script.
#[derive(Debug, Clone)]
pub struct Headless {
    screen: Screen,
    decoder: Decoder,
    mode: InputMode,
    input: Vec<u8>,
    next: usize,
    presents: usize,
    quit: bool,
}

/// What one written byte does to a host that is in phase `p` with the given
/// screen, present count, quit flag and mode: the decoded command, if any,
/// is a present, a quit, a mode change, or a change to the screen.
pub open spec fn writes(
    p: Phase,
    byte: u8,
    screen: ScreenView,
    screen2: ScreenView,
    presents: nat,
    presents2: nat,
    quit: bool,
    quit2: bool,
    mode: InputMode,
    mode2: InputMode,
) -> bool {
    match step(p, byte).1 {
        None => screen2 == screen && presents2 == presents && quit2 == quit && mode2 == mode,
        Some(Command::Present) => screen2 == screen && presents2 == (if presents < usize::MAX {
            presents + 1
        } else {
            presents
        }) && quit2 == quit && mode2 == mode,
        Some(Command::Quit) => screen2 == screen && presents2 == presents && quit2 && mode2 == mode,
        Some(Command::Mode(m)) => screen2 == screen && presents2 == presents && quit2 == quit && mode2 == m,
        Some(Command::Line { x0, y0, x1, y1 }) => line_drawn(screen, screen2, x0, y0, x1, y1) && presents2
            == presents && quit2 == quit && mode2 == mode,
        Some(c) => screen2 == applied(screen, c) && presents2 == presents && quit2 == quit && mode2 == mode,
    }
}

/// The decoder's phase after `bytes`, from text.
pub open spec fn phase_after(bytes: Seq<u8>) -> Phase
    decreases bytes.len(),
{
    if bytes.len() == 0 {
        Phase::Text
    } else {
        step(phase_after(bytes.drop_last()), bytes.last()).0
    }
}

/// The input mode after `bytes`, from text mode.
pub open spec fn mode_after(bytes: Seq<u8>) -> InputMode
    decreases bytes.len(),
{
    if bytes.len() == 0 {
        InputMode::Text
    } else {
        match step(phase_after(bytes.drop_last()), bytes.last()).1 {
            Some(Command::Mode(m)) => m,
            _ => mode_after(bytes.drop_last()),
        }
    }
}

/// What a host shows: its framebuffer, its presents and whether it was
/// closed.
pub struct Shown {
    pub screen: ScreenView,
    pub presents: nat,
    pub quit: bool,
}

/// Writing the last of `bytes` to a host showing `s` can leave it showing
/// `shown`.
pub open spec fn shows_last(bytes: Seq<u8>, s: Shown, shown: Shown) -> bool {
    let before = bytes.drop_last();
    writes(
        phase_after(before),
        bytes.last(),
        s.screen,
        shown.screen,
        s.presents,
        shown.presents,
        s.quit,
        shown.quit,
        mode_after(before),
        mode_after(bytes),
    )
}

/// `shown` is what a host showing `start` can show after `bytes` were
/// written to it, one at a time.
pub open spec fn shows(bytes: Seq<u8>, start: Shown, shown: Shown) -> bool
    decreases bytes.len(),
{
    if bytes.len() == 0 {
        shown == start
    } else {
        exists|s: Shown| shows(bytes.drop_last(), start, s) && #[trigger] shows_last(bytes, s, shown)
    }
}

/// One more byte written keeps `shows`.
proof fn lemma_shows_push(bytes: Seq<u8>, b: u8, start: Shown, s: Shown, s2: Shown)
    requires
        shows(bytes, start, s),
        writes(
            phase_after(bytes),
            b,
            s.screen,
            s2.screen,
            s.presents,
            s2.presents,
            s.quit,
            s2.quit,
            mode_after(bytes),
            mode_after(bytes.push(b)),
        ),
    ensures
        shows(bytes.push(b), start, s2),
{
    let w = bytes.push(b);
    assert(w.drop_last() =~= bytes);
    assert(w.last() == b);
    assert(w.len() > 0);
    assert(shows(w.drop_last(), start, s));
    assert(shows_last(w, s, s2));
}

/// The byte a read gets: the next scripted byte, or, once the script is
/// used up, the window closing in events mode and end of input in text mode.
pub open spec fn hosted_input(script: Seq<u8>, consumed: int, written: Seq<u8>) -> Option<u8> {
    if 0 <= consumed < script.len() {
        Some(script[consumed])
    } else {
        match mode_after(written) {
            InputMode::Events => Some(event::QUIT),
            InputMode::Text => None,
        }
    }
}

/// The run of `m0` against a host with `script` for up to `n` steps,
/// stopping early when the program halts or faults.
pub open spec fn hosted(m0: MachineView, script: Seq<u8>, n: nat) -> Trace
    decreases n,
{
    if n == 0 {
        Trace { machine: m0, consumed: 0, written: Seq::empty(), fault: None }
    } else {
        let t = hosted(m0, script, (n - 1) as nat);
        if !running(t) {
            t
        } else {
            let reads = wants_input(t.machine);
            let byte = if reads {
                hosted_input(script, t.consumed, t.written)
            } else {
                None
            };
            let consumed = if reads && t.consumed < script.len() {
                t.consumed + 1
            } else {
                t.consumed
            };
            match machine_step(t.machine, byte) {
                Ok((m, out)) => Trace {
                    machine: m,
                    consumed,
                    written: match out {
                        Some(b) => t.written.push(b),
                        None => t.written,
                    },
                    fault: None,
                },
                Err(p) => Trace { machine: t.machine, consumed, written: t.written, fault: Some(p) },
            }
        }
    }
}

/// What a fresh host shows.
pub open spec fn blank(screen: ScreenView) -> Shown {
    Shown { screen, presents: 0, quit: false }
}

/// How a hosted run of `ops` with `script` ended: a host that went through
/// every byte the program wrote, or the fault, or the step limit.
pub open spec fn hosted_outcome(ops: Seq<Ir>, script: Seq<u8>, fresh: ScreenView, r: Result<Headless, RunError>) -> bool {
    let m0 = initial(ops, crate::DEFAULT_TAPE_SIZE as nat);
    match r {
        Ok(h) => exists|n: nat|
            {
                let t = #[trigger] hosted(m0, script, n);
                &&& t.fault is None
                &&& halted(t.machine)
                &&& h.wf()
                &&& h.phase() == phase_after(t.written)
                &&& h.mode_view() == mode_after(t.written)
                &&& h.unread() == script.skip(t.consumed)
                &&& shows(t.written, blank(fresh), h.shown())
            },
        Err(RunError::PointerOutOfBounds { pointer }) => exists|n: nat|
            #[trigger] hosted(m0, script, n).fault == Some(pointer as int),
        Err(RunError::StepLimit) => running(hosted(m0, script, u64::MAX as nat)),
        Err(RunError::EmptyTape) => false,
    }
}

impl Headless {
    /// The framebuffer, as plain values.
    pub closed spec fn screen_view(&self) -> ScreenView {
        self.screen.view()
    }

    /// Where the decoder is in the program's output.
    pub closed spec fn phase(&self) -> Phase {
        self.decoder.phase()
    }

    /// What the host shows.
    pub closed spec fn shown(&self) -> Shown {
        Shown { screen: self.screen.view(), presents: self.presents as nat, quit: self.quit }
    }

    /// The scripted input not read yet.
    pub closed spec fn unread(&self) -> Seq<u8> {
        self.input@.subrange(self.next as int, self.input@.len() as int)
    }

    /// How many frames were asked to be shown.
    pub closed spec fn presents_view(&self) -> nat {
        self.presents as nat
    }

    /// Whether the program closed the window.
    pub closed spec fn quit_view(&self) -> bool {
        self.quit
    }

    /// The input mode last selected.
    pub closed spec fn mode_view(&self) -> InputMode {
        self.mode
    }

    /// The host's invariant.
    pub closed spec fn wf(&self) -> bool {
        &&& view_ok(self.screen.view())
        &&& self.decoder.wf()
        &&& self.next <= self.input@.len()
    }

    /// A host whose input is immediately exhausted.
    pub fn new() -> (r: Self)
        ensures
            r.wf(),
            r.unread() == Seq::<u8>::empty(),
            r.shown() == blank(fresh_screen()),
            r.phase() == Phase::Text,
            r.mode_view() == InputMode::Text,
            r.presents_view() == 0,
            !r.quit_view(),
    {
        Self::with_input(&[])
    }

    /// A host that answers reads from `input`, in order. In events mode the
    /// script is the event stream itself.
    pub fn with_input(input: &[u8]) -> (r: Self)
        ensures
            r.wf(),
            r.unread() == input@,
            r.shown() == blank(fresh_screen()),
            r.phase() == Phase::Text,
            r.mode_view() == InputMode::Text,
            r.presents_view() == 0,
            !r.quit_view(),
    {
        let mut script: Vec<u8> = Vec::new();
        let mut i: usize = 0;
        while i < input.len()
            invariant
                i <= input@.len(),
                script@ == input@.take(i as int),
            decreases input@.len() - i,
        {
            script.push(input[i]);
            i += 1;
            proof {
                assert(script@ =~= input@.take(i as int));
            }
        }
        let r = Headless {
            screen: Screen::new(),
            decoder: Decoder::new(),
            mode: InputMode::Text,
            input: script,
            next: 0,
            presents: 0,
            quit: false,
        };
        proof {
            assert(r.unread() =~= input@);
        }
        r
    }

    /// The framebuffer as the program left it.
    pub fn screen(&self) -> (r: &Screen)
        ensures
            r.view() == self.screen_view(),
    {
        &self.screen
    }

    /// How many times the program asked for a frame to be shown.
    pub fn presents(&self) -> (r: usize)
        ensures
            r == self.presents_view(),
    {
        self.presents
    }

    /// Whether the program closed the window itself.
    pub fn has_quit(&self) -> (r: bool)
        ensures
            r == self.quit_view(),
    {
        self.quit
    }

    /// The input mode the program last selected.
    pub fn mode(&self) -> (r: InputMode)
        ensures
            r == self.mode_view(),
    {
        self.mode
    }

    /// Whether the program stopped midway through a command.
    pub fn is_mid_command(&self) -> (r: bool)
        ensures
            r == !(self.phase() is Text),
    {
        self.decoder.is_mid_command()
    }

    /// How many scripted bytes are still unread.
    pub fn remaining_input(&self) -> (r: usize)
        requires
            self.wf(),
        ensures
            r == self.unread().len(),
    {
        self.input.len() - self.next
    }

    /// Take one byte the program wrote: decode it, and count a present, note
    /// a quit, follow a mode change, or draw.
    pub fn write(&mut self, byte: u8)
        requires
            old(self).wf(),
        ensures
            final(self).wf(),
            final(self).phase() == step(old(self).phase(), byte).0,
            final(self).unread() == old(self).unread(),
            writes(
                old(self).phase(),
                byte,
                old(self).screen_view(),
                final(self).screen_view(),
                old(self).presents_view(),
                final(self).presents_view(),
                old(self).quit_view(),
                final(self).quit_view(),
                old(self).mode_view(),
                final(self).mode_view(),
            ),
    {
        if let Some(command) = self.decoder.push(byte) {
            match command {
                Command::Present => {
                    self.presents = self.presents.saturating_add(1);
                },
                Command::Quit => {
                    self.quit = true;
                },
                Command::Mode(mode) => {
                    self.mode = mode;
                },
                other => self.screen.apply(other),
            }
        }
    }

    /// Answer one read from the script. When it runs out, events mode reports
    /// the window closing, so a polling loop ends; text mode reports end of
    /// input.
    pub fn read(&mut self) -> (r: Option<u8>)
        requires
            old(self).wf(),
        ensures
            final(self).wf(),
            final(self).phase() == old(self).phase(),
            final(self).screen_view() == old(self).screen_view(),
            final(self).shown() == old(self).shown(),
            final(self).mode_view() == old(self).mode_view(),
            old(self).unread().len() > 0 ==> r == Some(old(self).unread()[0]) && final(self).unread()
                == old(self).unread().drop_first(),
            old(self).unread().len() == 0 ==> final(self).unread() == old(self).unread() && r == match old(
                self,
            ).mode_view() {
                InputMode::Events => Some(event::QUIT),
                InputMode::Text => None::<u8>,
            },
    {
        if self.next < self.input.len() {
            let byte = self.input[self.next];
            self.next = self.next + 1;
            proof {
                assert(self.unread() =~= old(self).unread().drop_first());
            }
            return Some(byte);
        }
        match self.mode {
            InputMode::Events => Some(event::QUIT),
            InputMode::Text => None,
        }
    }

    /// Optimize `ops` and run them against a fresh host that answers reads
    /// from `input`; see [`Headless::run_ir`].
    pub fn run(ops: &[Op], input: &[u8]) -> (r: Result<Self, RunError>)
        requires
            travel_fits(ops@),
        ensures
            exists|ir: Seq<Ir>| #[trigger] ir_block_ok(ir) && exists|fresh: ScreenView|
                #[trigger] hosted_outcome(ir, input@, fresh, r) && fresh == fresh_screen(),
            no_loops(ops@) ==> exists|ir: Seq<Ir>|
                #[trigger] hosted_outcome(ir, input@, fresh_screen(), r) && forall|m: BfMachine|
                    #[trigger] ir_run(m, ir) == bf_run(m, ops@),
    {
        let ir = optimize(ops);
        let r = Self::run_ir(ir.as_slice(), input);
        proof {
            assert(hosted_outcome(ir@, input@, fresh_screen(), r));
        }
        r
    }

    /// Run `ops` on a tape of [`crate::DEFAULT_TAPE_SIZE`] cells against a
    /// fresh host that answers reads from `input`: every byte the program
    /// writes goes to the host, and every read asks it.
    pub fn run_ir(ops: &[Ir], input: &[u8]) -> (r: Result<Self, RunError>)
        ensures
            hosted_outcome(ops@, input@, fresh_screen(), r),
    {
        let ghost m0 = initial(ops@, crate::DEFAULT_TAPE_SIZE as nat);
        let mut host = Self::with_input(input);
        let ghost start = host.shown();
        let mut machine = Machine::new(ops, crate::DEFAULT_TAPE_SIZE);
        let mut steps: u64 = 0;
        let mut consumed: usize = 0;
        loop
            invariant
                m0 == initial(ops@, crate::DEFAULT_TAPE_SIZE as nat),
                start == blank(fresh_screen()),
                machine.wf(),
                host.wf(),
                hosted(m0, input@, steps as nat).fault is None,
                machine.view() == hosted(m0, input@, steps as nat).machine,
                consumed == hosted(m0, input@, steps as nat).consumed,
                consumed <= input@.len(),
                host.unread() == input@.skip(consumed as int),
                host.phase() == phase_after(hosted(m0, input@, steps as nat).written),
                host.mode_view() == mode_after(hosted(m0, input@, steps as nat).written),
                shows(hosted(m0, input@, steps as nat).written, start, host.shown()),
            decreases u64::MAX - steps,
        {
            if machine.is_halted() {
                return Ok(host);
            }
            if steps == u64::MAX {
                return Err(RunError::StepLimit);
            }
            let ghost t = hosted(m0, input@, steps as nat);
            let byte = if machine.wants_input() {
                if consumed < input.len() {
                    consumed = consumed + 1;
                    proof {
                        assert(input@.skip(t.consumed)[0] == input@[t.consumed]);
                        assert(input@.skip(t.consumed).drop_first() =~= input@.skip(consumed as int));
                    }
                }
                host.read()
            } else {
                None
            };
            let ghost h = host.shown();
            let stepped = machine.step(byte);
            steps = steps + 1;
            match stepped {
                Ok(Some(b)) => {
                    host.write(b);
                    proof {
                        let w = t.written.push(b);
                        assert(w.drop_last() =~= t.written);
                        assert(w.last() == b);
                        assert(shows(w.drop_last(), start, h));
                        assert(host.mode_view() == mode_after(w));
                        lemma_shows_push(t.written, b, start, h, host.shown());
                    }
                },
                Ok(None) => {},
                Err(p) => {
                    return Err(RunError::PointerOutOfBounds { pointer: p });
                },
            }
        }
    }
}

} // verus!
