//! The compiler's command line: what each argument means, and the
//! configuration, or the usage error, that a whole command line comes to.
//!
//! Arguments are read as their UTF-8 bytes. Option names are ASCII, and the
//! values after `--name=` are everything past the first `=`.

use vstd::prelude::*;
use vstd::string::StringSliceAdditionalSpecFns;
use vstd::utf8::*;
use crate::bytes::{after_equals, before_equals, bytes_equal, parse_usize, parse_usize_spec, push_all, push_str, split_at_equals, starts_with, string_bytes, string_from_utf8};
use super::codegen::FreestandingOptions;
use super::diagnostics::ToolDoctorConfig;
use super::driver::{emit_named, opt_level_named, CompilerConfig, EmitKind, OptLevel};
use super::target::{preset_named, RuntimeAbi, RuntimeAbiKind, TargetProfile};

verus! {

/// What a command line asks for.
#[derive(Debug)]
pub enum Action {
    /// Compile, as configured.
    Run(Box<CompilerConfig>),
    /// Print the usage.
    Help,
    /// Print the version.
    Version,
    /// Print the built-in target presets.
    ListTargets,
    /// Inspect the toolchain.
    ToolsDoctor(ToolDoctorConfig),
    /// Print the usage of `tools`.
    ToolsHelp,
}

/// A command line that could not be followed.
#[derive(Debug)]
pub enum Error {
    /// The arguments themselves are wrong.
    Usage(String),
    /// The compile failed.
    Failure(String),
}

/// The options that take a value, as `--name value` or `--name=value`.
#[derive(Debug, Clone, Copy, PartialEq, Eq, Structural)]
pub enum ValueOption {
    Output,
    Emit,
    Target,
    TapeSize,
    Entry,
    Putchar,
    Getchar,
    OptLevel,
    Linker,
}

/// The options read so far, with every text as its bytes.
pub struct Flags {
    pub input: Option<Seq<u8>>,
    pub output: Option<Seq<u8>>,
    pub emit: Option<EmitKind>,
    pub target: Option<Seq<u8>>,
    pub tape_size: usize,
    pub bounds_check: bool,
    pub freestanding: bool,
    pub configured: bool,
    pub entry: Seq<u8>,
    pub putchar: Seq<u8>,
    pub getchar: Seq<u8>,
    pub opt_level: OptLevel,
    pub linker: Option<Seq<u8>>,
    pub keep_object: bool,
}

/// Nothing read yet.
pub open spec fn initial_flags() -> Flags {
    Flags {
        input: None,
        output: None,
        emit: None,
        target: None,
        tape_size: crate::DEFAULT_TAPE_SIZE,
        bounds_check: false,
        freestanding: false,
        configured: false,
        entry: "bf_main".spec_bytes(),
        putchar: "bf_putchar".spec_bytes(),
        getchar: "bf_getchar".spec_bytes(),
        opt_level: OptLevel::Speed,
        linker: None,
        keep_object: false,
    }
}

/// How a command line ends when it does not come to a compile.
pub enum Outcome {
    Help,
    Version,
    ListTargets,
    ToolsHelp,
    ToolsDoctor(Option<Seq<u8>>),
    Usage(Seq<u8>),
}

/// One argument's effect: read on from an index, stop reading options, or
/// end the command line.
pub enum Scan {
    Next(Flags, int),
    Done(Flags),
    Stop(Outcome),
}

pub open spec fn lit(a: Seq<u8>, word: &str) -> bool {
    a == word.spec_bytes()
}

pub open spec fn has_prefix(a: Seq<u8>, p: &str) -> bool {
    p.spec_bytes().len() <= a.len() && a.subrange(0, p.spec_bytes().len() as int) == p.spec_bytes()
}

/// The option an argument names when it takes its value from the next one.
pub open spec fn value_option_named(a: Seq<u8>) -> Option<ValueOption> {
    if lit(a, "-o") || lit(a, "--output") {
        Some(ValueOption::Output)
    } else if lit(a, "--emit") {
        Some(ValueOption::Emit)
    } else if lit(a, "--target") {
        Some(ValueOption::Target)
    } else if lit(a, "--tape-size") {
        Some(ValueOption::TapeSize)
    } else if lit(a, "--entry") {
        Some(ValueOption::Entry)
    } else if lit(a, "--putchar-symbol") {
        Some(ValueOption::Putchar)
    } else if lit(a, "--getchar-symbol") {
        Some(ValueOption::Getchar)
    } else if lit(a, "--opt-level") {
        Some(ValueOption::OptLevel)
    } else if lit(a, "--linker") {
        Some(ValueOption::Linker)
    } else {
        None
    }
}

/// The option an argument names when it carries its value after `=`.
pub open spec fn value_option_prefixed(a: Seq<u8>) -> Option<ValueOption> {
    if has_prefix(a, "--output=") {
        Some(ValueOption::Output)
    } else if has_prefix(a, "--emit=") {
        Some(ValueOption::Emit)
    } else if has_prefix(a, "--entry=") {
        Some(ValueOption::Entry)
    } else if has_prefix(a, "--putchar-symbol=") {
        Some(ValueOption::Putchar)
    } else if has_prefix(a, "--getchar-symbol=") {
        Some(ValueOption::Getchar)
    } else if has_prefix(a, "--opt-level=") {
        Some(ValueOption::OptLevel)
    } else if has_prefix(a, "--target=") {
        Some(ValueOption::Target)
    } else if has_prefix(a, "--tape-size=") {
        Some(ValueOption::TapeSize)
    } else if has_prefix(a, "--linker=") {
        Some(ValueOption::Linker)
    } else {
        None
    }
}

/// The flags an option with value `v` leaves, or its usage error.
pub open spec fn apply_value(option: ValueOption, v: Seq<u8>, f: Flags) -> Result<Flags, Seq<u8>> {
    match option {
        ValueOption::Output => Ok(Flags { output: Some(v), ..f }),
        ValueOption::Emit => match emit_named(decode_utf8(v)) {
            Some(k) => Ok(Flags { emit: Some(k), ..f }),
            None => Err("invalid --emit value `".spec_bytes() + v + "`; expected exe, obj, or jit".spec_bytes()),
        },
        ValueOption::Target => Ok(Flags { target: Some(v), ..f }),
        ValueOption::TapeSize => match parse_usize_spec(v) {
            Some(n) => Ok(Flags { tape_size: n, ..f }),
            None => Err("invalid --tape-size value `".spec_bytes() + v + "`".spec_bytes()),
        },
        ValueOption::Entry => Ok(Flags { entry: v, configured: true, ..f }),
        ValueOption::Putchar => Ok(Flags { putchar: v, configured: true, ..f }),
        ValueOption::Getchar => Ok(Flags { getchar: v, configured: true, ..f }),
        ValueOption::OptLevel => match opt_level_named(decode_utf8(v)) {
            Some(l) => Ok(Flags { opt_level: l, ..f }),
            None => Err("invalid --opt-level value `".spec_bytes() + v
                + "`; expected 0, 1, 2, 3, s, or z".spec_bytes()),
        },
        ValueOption::Linker => Ok(Flags { linker: Some(v), ..f }),
    }
}

/// The hint for an option that went away with the old backend.
pub open spec fn removed_hint(name: Seq<u8>) -> Option<Seq<u8>> {
    if lit(name, "--cc") {
        Some("use --linker <PATH>; Cranelift only needs a tool to link".spec_bytes())
    } else if lit(name, "--lli") {
        Some("removed with the LLVM backend; --run uses the built-in JIT".spec_bytes())
    } else if lit(name, "--keep-ll") {
        Some("use --keep-object to keep the generated object file".spec_bytes())
    } else if lit(name, "--gba-gcc") || lit(name, "--gba-objcopy") {
        Some("the gba target was removed; Cranelift has no 32-bit ARM backend".spec_bytes())
    } else {
        None
    }
}

/// The error for an option that is not known: explained when it is one that
/// went away, otherwise `fallback`.
pub open spec fn unknown_option(a: Seq<u8>, fallback: Seq<u8>) -> Seq<u8> {
    let name = before_equals(a);
    match removed_hint(name) {
        Some(hint) => "`".spec_bytes() + name + "` was removed: ".spec_bytes() + hint,
        None => fallback,
    }
}

/// An option that does not take a value, given one after `=`.
pub open spec fn valueless_with_value(a: Seq<u8>) -> Option<Seq<u8>> {
    if has_prefix(a, "--bounds-check=") {
        Some("--bounds-check does not take a value".spec_bytes())
    } else if has_prefix(a, "--freestanding=") {
        Some("--freestanding does not take a value".spec_bytes())
    } else if has_prefix(a, "--keep-object=") {
        Some("--keep-object does not take a value".spec_bytes())
    } else if has_prefix(a, "--list-targets=") {
        Some("--list-targets does not take a value".spec_bytes())
    } else {
        None
    }
}

/// Everything after `--` is an input file; there can be one in all.
pub open spec fn rest_as_inputs(rest: Seq<Seq<u8>>, f: Flags) -> Scan {
    if rest.len() == 0 {
        Scan::Done(f)
    } else if f.input is Some || rest.len() > 1 {
        Scan::Stop(Outcome::Usage("multiple input files provided".spec_bytes()))
    } else {
        Scan::Done(Flags { input: Some(rest[0]), ..f })
    }
}

/// What the argument at `i` does.
#[verifier::opaque]
pub open spec fn flag_step(args: Seq<Seq<u8>>, i: int, f: Flags) -> Scan {
    let a = args[i];
    if lit(a, "-h") || lit(a, "--help") {
        Scan::Stop(Outcome::Help)
    } else if lit(a, "--version") {
        Scan::Stop(Outcome::Version)
    } else if lit(a, "--list-targets") {
        Scan::Stop(Outcome::ListTargets)
    } else if value_option_named(a) is Some {
        if i + 1 >= args.len() {
            Scan::Stop(Outcome::Usage("missing value for ".spec_bytes() + a))
        } else {
            match apply_value(value_option_named(a).unwrap(), args[i + 1], f) {
                Ok(g) => Scan::Next(g, i + 2),
                Err(m) => Scan::Stop(Outcome::Usage(m)),
            }
        }
    } else if lit(a, "--jit") || lit(a, "--run") {
        Scan::Next(Flags { emit: Some(EmitKind::Jit), ..f }, i + 1)
    } else if lit(a, "--bounds-check") {
        Scan::Next(Flags { bounds_check: true, ..f }, i + 1)
    } else if lit(a, "--freestanding") {
        Scan::Next(Flags { freestanding: true, ..f }, i + 1)
    } else if lit(a, "--keep-object") {
        Scan::Next(Flags { keep_object: true, ..f }, i + 1)
    } else if lit(a, "--") {
        rest_as_inputs(args.subrange(i + 1, args.len() as int), f)
    } else if value_option_prefixed(a) is Some {
        match apply_value(value_option_prefixed(a).unwrap(), after_equals(a), f) {
            Ok(g) => Scan::Next(g, i + 1),
            Err(m) => Scan::Stop(Outcome::Usage(m)),
        }
    } else if valueless_with_value(a) is Some {
        Scan::Stop(Outcome::Usage(valueless_with_value(a).unwrap()))
    } else if lit(a, "-O0") {
        Scan::Next(Flags { opt_level: OptLevel::Off, ..f }, i + 1)
    } else if lit(a, "-O1") || lit(a, "-O2") || lit(a, "-O3") {
        Scan::Next(Flags { opt_level: OptLevel::Speed, ..f }, i + 1)
    } else if lit(a, "-Os") || lit(a, "-Oz") {
        Scan::Next(Flags { opt_level: OptLevel::SpeedAndSize, ..f }, i + 1)
    } else if a.len() > 0 && a[0] == 45u8 && !lit(a, "-") {
        Scan::Stop(
            Outcome::Usage(unknown_option(a, "unknown option `".spec_bytes() + a + "`".spec_bytes())),
        )
    } else if f.input is Some {
        Scan::Stop(Outcome::Usage("multiple input files provided".spec_bytes()))
    } else {
        Scan::Next(Flags { input: Some(a), ..f }, i + 1)
    }
}

/// Read the arguments from `i` on.
pub open spec fn scan_flags(args: Seq<Seq<u8>>, i: int, f: Flags) -> Result<Flags, Outcome>
    decreases args.len() - i,
{
    if i < 0 || i >= args.len() {
        Ok(f)
    } else {
        match flag_step(args, i, f) {
            Scan::Next(g, j) => if i < j <= args.len() {
                scan_flags(args, j, g)
            } else {
                Ok(g)
            },
            Scan::Done(g) => Ok(g),
            Scan::Stop(o) => Err(o),
        }
    }
}

/// Whether the named target is a freestanding preset.
pub open spec fn target_freestanding(target: Option<Seq<u8>>) -> bool {
    match target {
        Some(t) => preset_named(decode_utf8(t)) matches Some(p) && p.runtime_abi == RuntimeAbiKind::Freestanding,
        None => false,
    }
}

/// The default output kind of the named target.
pub open spec fn target_default_emit(target: Option<Seq<u8>>) -> EmitKind {
    match target {
        Some(t) => match preset_named(decode_utf8(t)) {
            Some(p) => p.default_emit,
            None => EmitKind::Executable,
        },
        None => EmitKind::Executable,
    }
}

/// The name of the named target, as bytes.
pub open spec fn target_name(target: Option<Seq<u8>>) -> Seq<u8> {
    match target {
        Some(t) => t,
        None => "native".spec_bytes(),
    }
}

/// The triple the named target forces.
pub open spec fn target_triple(target: Option<Seq<u8>>) -> Option<Seq<char>> {
    match target {
        Some(t) => match preset_named(decode_utf8(t)) {
            Some(p) => match p.triple {
                Some(s) => Some(s@),
                None => None,
            },
            None => Some(decode_utf8(t)),
        },
        None => None,
    }
}

/// Whether the freestanding hook names were asked for, explicitly or by
/// configuring a symbol for a freestanding target.
pub open spec fn wants_hooks(f: Flags) -> bool {
    f.freestanding || (target_freestanding(f.target) && f.configured)
}

/// The output kind a compile ends up with.
pub open spec fn final_emit(f: Flags) -> EmitKind {
    match f.emit {
        Some(k) => k,
        None => if wants_hooks(f) && target_default_emit(f.target) == EmitKind::Executable {
            EmitKind::Object
        } else {
            target_default_emit(f.target)
        },
    }
}

/// Whether the compile's target ends up freestanding.
pub open spec fn final_freestanding(f: Flags) -> bool {
    wants_hooks(f) || target_freestanding(f.target)
}

/// The usage error the finished flags come to, if any.
pub open spec fn flags_refusal(f: Flags) -> Option<Seq<u8>> {
    if f.input is None {
        Some("missing input file".spec_bytes())
    } else if !wants_hooks(f) && f.configured {
        Some(
            "--entry, --putchar-symbol, and --getchar-symbol require a freestanding target or --freestanding".spec_bytes(),
        )
    } else if final_freestanding(f) && (final_emit(f) == EmitKind::Executable || final_emit(f)
        == EmitKind::Jit) {
        Some("target `".spec_bytes() + target_name(f.target)
            + "` uses a freestanding runtime and supports --emit obj".spec_bytes())
    } else {
        None
    }
}

/// Whether `abi` calls the hooks the flags name.
pub open spec fn hooks_named(abi: RuntimeAbi, f: Flags) -> bool {
    match abi {
        RuntimeAbi::Freestanding(o) => string_bytes(o.entry_symbol) == f.entry && string_bytes(o.putchar_symbol)
            == f.putchar && string_bytes(o.getchar_symbol) == f.getchar,
        RuntimeAbi::Hosted => false,
    }
}

/// Whether `config` is the compile the finished flags describe.
pub open spec fn config_from(config: CompilerConfig, f: Flags) -> bool {
    &&& f.input == Some(string_bytes(config.input))
    &&& match config.output {
        Some(o) => f.output == Some(string_bytes(o)),
        None => f.output is None,
    }
    &&& config.emit == final_emit(f)
    &&& config.target.name_view() == decode_utf8(target_name(f.target))
    &&& config.target.triple_view() == target_triple(f.target)
    &&& config.target.is_freestanding_view() == final_freestanding(f)
    &&& (wants_hooks(f) ==> hooks_named(config.target.abi_view(), f))
    &&& (!wants_hooks(f) && target_freestanding(f.target) ==> (config.target.abi_view() matches RuntimeAbi::Freestanding(
        o,
    ) && o.is_default()))
    &&& config.tape_size == f.tape_size
    &&& config.bounds_check == f.bounds_check
    &&& config.opt_level == f.opt_level
    &&& match config.linker {
        Some(l) => f.linker == Some(string_bytes(l)),
        None => f.linker is None,
    }
    &&& config.keep_object == f.keep_object
}

/// What `tools` followed by `args` asks for.
pub open spec fn tools_outcome(args: Seq<Seq<u8>>) -> Outcome {
    if args.len() == 0 {
        Outcome::Usage("missing tools command; expected `doctor`".spec_bytes())
    } else if lit(args[0], "-h") || lit(args[0], "--help") {
        Outcome::ToolsHelp
    } else if !lit(args[0], "doctor") {
        Outcome::Usage("unknown tools command `".spec_bytes() + args[0] + "`; expected `doctor`".spec_bytes())
    } else {
        doctor_outcome(args, 1, None)
    }
}

/// The `tools doctor` options from `i` on.
pub open spec fn doctor_outcome(args: Seq<Seq<u8>>, i: int, linker: Option<Seq<u8>>) -> Outcome
    decreases args.len() - i,
{
    if i < 0 || i >= args.len() {
        Outcome::ToolsDoctor(linker)
    } else {
        let a = args[i];
        if lit(a, "-h") || lit(a, "--help") {
            Outcome::ToolsHelp
        } else if lit(a, "--linker") {
            if i + 1 >= args.len() {
                Outcome::Usage("missing value for ".spec_bytes() + a)
            } else {
                doctor_outcome(args, i + 2, Some(args[i + 1]))
            }
        } else if has_prefix(a, "--linker=") {
            doctor_outcome(args, i + 1, Some(after_equals(a)))
        } else if a.len() > 0 && a[0] == 45u8 {
            Outcome::Usage(
                unknown_option(a, "unknown tools doctor option `".spec_bytes() + a + "`".spec_bytes()),
            )
        } else {
            Outcome::Usage("unexpected tools doctor argument `".spec_bytes() + a + "`".spec_bytes())
        }
    }
}

/// Whether `r` is what the command line ends in, for a command line that does
/// not come to a compile.
pub open spec fn ends_in(r: Result<Action, Error>, o: Outcome) -> bool {
    match o {
        Outcome::Help => r matches Ok(Action::Help),
        Outcome::Version => r matches Ok(Action::Version),
        Outcome::ListTargets => r matches Ok(Action::ListTargets),
        Outcome::ToolsHelp => r matches Ok(Action::ToolsHelp),
        Outcome::ToolsDoctor(l) => r matches Ok(Action::ToolsDoctor(c)) && match c.linker {
            Some(s) => l == Some(string_bytes(s)),
            None => l is None,
        },
        Outcome::Usage(m) => r matches Err(Error::Usage(s)) && string_bytes(s) == m,
    }
}

/// The arguments, each as its UTF-8 bytes.
pub open spec fn arg_bytes(args: Seq<String>) -> Seq<Seq<u8>> {
    args.map_values(|a: String| string_bytes(a))
}

/// What a whole command line comes to.
pub open spec fn parse_result(args: Seq<Seq<u8>>, r: Result<Action, Error>) -> bool {
    if args.len() > 0 && lit(args[0], "tools") {
        ends_in(r, tools_outcome(args.drop_first()))
    } else {
        match scan_flags(args, 0, initial_flags()) {
            Err(o) => ends_in(r, o),
            Ok(f) => match flags_refusal(f) {
                Some(m) => ends_in(r, Outcome::Usage(m)),
                None => r matches Ok(Action::Run(config)) && config_from(*config, f),
            },
        }
    }
}

// ----- Reading -----

/// The options read so far.
struct State {
    input: Option<String>,
    output: Option<String>,
    emit: Option<EmitKind>,
    target: Option<String>,
    tape_size: usize,
    bounds_check: bool,
    freestanding: bool,
    configured: bool,
    entry: String,
    putchar: String,
    getchar: String,
    opt_level: OptLevel,
    linker: Option<String>,
    keep_object: bool,
}

spec fn opt_bytes(s: Option<String>) -> Option<Seq<u8>> {
    match s {
        Some(t) => Some(string_bytes(t)),
        None => None,
    }
}

impl State {
    spec fn view(&self) -> Flags {
        Flags {
            input: opt_bytes(self.input),
            output: opt_bytes(self.output),
            emit: self.emit,
            target: opt_bytes(self.target),
            tape_size: self.tape_size,
            bounds_check: self.bounds_check,
            freestanding: self.freestanding,
            configured: self.configured,
            entry: string_bytes(self.entry),
            putchar: string_bytes(self.putchar),
            getchar: string_bytes(self.getchar),
            opt_level: self.opt_level,
            linker: opt_bytes(self.linker),
            keep_object: self.keep_object,
        }
    }
}

enum Step {
    Next(State, usize),
    Done(State),
    Stop(Result<Action, Error>),
}

fn bytes_of(s: &String) -> (r: &[u8])
    ensures
        r@ == string_bytes(*s),
        valid_utf8(r@),
{
    proof {
        encode_utf8_valid_utf8(s@);
    }
    s.as_str().as_bytes()
}

fn word_is(a: &[u8], word: &str) -> (r: bool)
    ensures
        r == (a@ == word.spec_bytes()),
{
    bytes_equal(a, word.as_bytes())
}

fn prefixed(a: &[u8], p: &str) -> (r: bool)
    ensures
        r == has_prefix(a@, p),
{
    starts_with(a, p.as_bytes())
}

fn text(s: &str) -> (r: String)
    ensures
        string_bytes(r) == s.spec_bytes(),
{
    s.to_owned()
}

/// `before` and then the bytes of `middle`.
fn joined(before: &str, middle: &[u8]) -> (r: String)
    requires
        valid_utf8(middle@),
    ensures
        string_bytes(r) == before.spec_bytes() + middle@,
{
    let mut out: Vec<u8> = Vec::new();
    proof {
        assert(valid_utf8(seq![]));
    }
    push_str(&mut out, before);
    let ghost mid = out@;
    push_all(&mut out, middle);
    proof {
        valid_utf8_concat(mid, middle@);
    }
    string_from_utf8(out)
}

/// `before`, the bytes of `middle`, and `after`.
fn around(before: &str, middle: &[u8], after: &str) -> (r: String)
    requires
        valid_utf8(middle@),
    ensures
        string_bytes(r) == before.spec_bytes() + middle@ + after.spec_bytes(),
{
    let mut out: Vec<u8> = Vec::new();
    proof {
        assert(valid_utf8(seq![]));
    }
    push_str(&mut out, before);
    let ghost mid = out@;
    push_all(&mut out, middle);
    proof {
        valid_utf8_concat(mid, middle@);
    }
    push_str(&mut out, after);
    string_from_utf8(out)
}

fn usage(m: String) -> (r: Result<Action, Error>)
    ensures
        ends_in(r, Outcome::Usage(string_bytes(m))),
{
    Err(Error::Usage(m))
}

fn value_option_of(a: &[u8]) -> (r: Option<ValueOption>)
    ensures
        r == value_option_named(a@),
{
    if word_is(a, "-o") || word_is(a, "--output") {
        Some(ValueOption::Output)
    } else if word_is(a, "--emit") {
        Some(ValueOption::Emit)
    } else if word_is(a, "--target") {
        Some(ValueOption::Target)
    } else if word_is(a, "--tape-size") {
        Some(ValueOption::TapeSize)
    } else if word_is(a, "--entry") {
        Some(ValueOption::Entry)
    } else if word_is(a, "--putchar-symbol") {
        Some(ValueOption::Putchar)
    } else if word_is(a, "--getchar-symbol") {
        Some(ValueOption::Getchar)
    } else if word_is(a, "--opt-level") {
        Some(ValueOption::OptLevel)
    } else if word_is(a, "--linker") {
        Some(ValueOption::Linker)
    } else {
        None
    }
}

fn prefixed_option_of(a: &[u8]) -> (r: Option<ValueOption>)
    ensures
        r == value_option_prefixed(a@),
{
    if prefixed(a, "--output=") {
        Some(ValueOption::Output)
    } else if prefixed(a, "--emit=") {
        Some(ValueOption::Emit)
    } else if prefixed(a, "--entry=") {
        Some(ValueOption::Entry)
    } else if prefixed(a, "--putchar-symbol=") {
        Some(ValueOption::Putchar)
    } else if prefixed(a, "--getchar-symbol=") {
        Some(ValueOption::Getchar)
    } else if prefixed(a, "--opt-level=") {
        Some(ValueOption::OptLevel)
    } else if prefixed(a, "--target=") {
        Some(ValueOption::Target)
    } else if prefixed(a, "--tape-size=") {
        Some(ValueOption::TapeSize)
    } else if prefixed(a, "--linker=") {
        Some(ValueOption::Linker)
    } else {
        None
    }
}

fn valueless_error(a: &[u8]) -> (r: Option<String>)
    ensures
        match valueless_with_value(a@) {
            Some(m) => r matches Some(s) && string_bytes(s) == m,
            None => r is None,
        },
{
    if prefixed(a, "--bounds-check=") {
        Some(text("--bounds-check does not take a value"))
    } else if prefixed(a, "--freestanding=") {
        Some(text("--freestanding does not take a value"))
    } else if prefixed(a, "--keep-object=") {
        Some(text("--keep-object does not take a value"))
    } else if prefixed(a, "--list-targets=") {
        Some(text("--list-targets does not take a value"))
    } else {
        None
    }
}

fn removed_hint_of(name: &[u8]) -> (r: Option<&'static str>)
    ensures
        match removed_hint(name@) {
            Some(h) => r matches Some(s) && s.spec_bytes() == h,
            None => r is None,
        },
{
    if word_is(name, "--cc") {
        Some("use --linker <PATH>; Cranelift only needs a tool to link")
    } else if word_is(name, "--lli") {
        Some("removed with the LLVM backend; --run uses the built-in JIT")
    } else if word_is(name, "--keep-ll") {
        Some("use --keep-object to keep the generated object file")
    } else if word_is(name, "--gba-gcc") || word_is(name, "--gba-objcopy") {
        Some("the gba target was removed; Cranelift has no 32-bit ARM backend")
    } else {
        None
    }
}

/// Explain an option that went away with the old backend, or report the
/// argument as unknown with `fallback`.
fn removed_or(arg: &String, fallback: String) -> (r: String)
    ensures
        string_bytes(r) == unknown_option(string_bytes(*arg), string_bytes(fallback)),
{
    let (name, _) = split_at_equals(arg.as_str());
    let nb = bytes_of(&name);
    match removed_hint_of(nb) {
        Some(hint) => {
            let mut out: Vec<u8> = Vec::new();
            proof {
                assert(valid_utf8(seq![]));
            }
            push_str(&mut out, "`");
            let ghost mid = out@;
            push_all(&mut out, nb);
            proof {
                valid_utf8_concat(mid, nb@);
            }
            push_str(&mut out, "` was removed: ");
            push_str(&mut out, hint);
            string_from_utf8(out)
        },
        None => fallback,
    }
}

/// Apply an option's value to the state.
fn apply(option: ValueOption, value: &String, st: State) -> (r: Result<State, String>)
    ensures
        match apply_value(option, string_bytes(*value), st.view()) {
            Ok(f) => r matches Ok(s) && s.view() == f,
            Err(m) => r matches Err(s) && string_bytes(s) == m,
        },
{
    let v = bytes_of(value);
    proof {
        encode_utf8_decode_utf8(value@);
    }
    match option {
        ValueOption::Output => Ok(State { output: Some(value.clone()), ..st }),
        ValueOption::Emit => match EmitKind::parse(value.as_str()) {
            Some(k) => Ok(State { emit: Some(k), ..st }),
            None => Err(around("invalid --emit value `", v, "`; expected exe, obj, or jit")),
        },
        ValueOption::Target => Ok(State { target: Some(value.clone()), ..st }),
        ValueOption::TapeSize => match parse_usize(v) {
            Some(n) => Ok(State { tape_size: n, ..st }),
            None => Err(around("invalid --tape-size value `", v, "`")),
        },
        ValueOption::Entry => Ok(State { entry: value.clone(), configured: true, ..st }),
        ValueOption::Putchar => Ok(State { putchar: value.clone(), configured: true, ..st }),
        ValueOption::Getchar => Ok(State { getchar: value.clone(), configured: true, ..st }),
        ValueOption::OptLevel => match OptLevel::parse(value.as_str()) {
            Some(l) => Ok(State { opt_level: l, ..st }),
            None => Err(around("invalid --opt-level value `", v, "`; expected 0, 1, 2, 3, s, or z")),
        },
        ValueOption::Linker => Ok(State { linker: Some(value.clone()), ..st }),
    }
}

/// The effect of the argument at `i`.
#[verifier::rlimit(60)]
fn step(args: &[String], i: usize, st: State) -> (r: Step)
    requires
        i < args@.len(),
    ensures
        match flag_step(arg_bytes(args@), i as int, st.view()) {
            Scan::Next(f, j) => r matches Step::Next(s, k) && s.view() == f && k == j,
            Scan::Done(f) => r matches Step::Done(s) && s.view() == f,
            Scan::Stop(o) => r matches Step::Stop(res) && ends_in(res, o),
        },
        r matches Step::Next(_, k) ==> i < k <= args@.len(),
{
    let ghost all = arg_bytes(args@);
    let a = bytes_of(&args[i]);
    proof {
        reveal(flag_step);
        assert(all[i as int] == a@);
        assert(all.len() == args@.len());
    }
    if word_is(a, "-h") || word_is(a, "--help") {
        return Step::Stop(Ok(Action::Help));
    }
    if word_is(a, "--version") {
        return Step::Stop(Ok(Action::Version));
    }
    if word_is(a, "--list-targets") {
        return Step::Stop(Ok(Action::ListTargets));
    }
    if let Some(option) = value_option_of(a) {
        if i + 1 >= args.len() {
            return Step::Stop(usage(joined("missing value for ", a)));
        }
        proof {
            assert(all[i + 1] == string_bytes(args@[i + 1]));
        }
        return match apply(option, &args[i + 1], st) {
            Ok(s) => Step::Next(s, i + 2),
            Err(m) => Step::Stop(usage(m)),
        };
    }
    if word_is(a, "--jit") || word_is(a, "--run") {
        return Step::Next(State { emit: Some(EmitKind::Jit), ..st }, i + 1);
    }
    if word_is(a, "--bounds-check") {
        return Step::Next(State { bounds_check: true, ..st }, i + 1);
    }
    if word_is(a, "--freestanding") {
        return Step::Next(State { freestanding: true, ..st }, i + 1);
    }
    if word_is(a, "--keep-object") {
        return Step::Next(State { keep_object: true, ..st }, i + 1);
    }
    if word_is(a, "--") {
        return rest_step(args, i + 1, st);
    }
    if let Some(option) = prefixed_option_of(a) {
        let (_, value) = split_at_equals(args[i].as_str());
        return match apply(option, &value, st) {
            Ok(s) => Step::Next(s, i + 1),
            Err(m) => Step::Stop(usage(m)),
        };
    }
    if let Some(m) = valueless_error(a) {
        return Step::Stop(usage(m));
    }
    if word_is(a, "-O0") {
        return Step::Next(State { opt_level: OptLevel::Off, ..st }, i + 1);
    }
    if word_is(a, "-O1") || word_is(a, "-O2") || word_is(a, "-O3") {
        return Step::Next(State { opt_level: OptLevel::Speed, ..st }, i + 1);
    }
    if word_is(a, "-Os") || word_is(a, "-Oz") {
        return Step::Next(State { opt_level: OptLevel::SpeedAndSize, ..st }, i + 1);
    }
    if a.len() > 0 && a[0] == 45u8 && !word_is(a, "-") {
        let fallback = around("unknown option `", a, "`");
        return Step::Stop(usage(removed_or(&args[i], fallback)));
    }
    if st.input.is_some() {
        return Step::Stop(usage(text("multiple input files provided")));
    }
    Step::Next(State { input: Some(args[i].clone()), ..st }, i + 1)
}

/// Everything from `start` on is an input file.
fn rest_step(args: &[String], start: usize, st: State) -> (r: Step)
    requires
        start <= args@.len(),
    ensures
        match rest_as_inputs(arg_bytes(args@).subrange(start as int, args@.len() as int), st.view()) {
            Scan::Next(f, j) => false,
            Scan::Done(f) => r matches Step::Done(s) && s.view() == f,
            Scan::Stop(o) => r matches Step::Stop(res) && ends_in(res, o),
        },
{
    let ghost rest = arg_bytes(args@).subrange(start as int, args@.len() as int);
    if start == args.len() {
        return Step::Done(st);
    }
    if st.input.is_some() || args.len() - start > 1 {
        return Step::Stop(usage(text("multiple input files provided")));
    }
    proof {
        assert(rest[0] == string_bytes(args@[start as int]));
    }
    Step::Done(State { input: Some(args[start].clone()), ..st })
}

/// Read the `tools doctor` options from `i` on.
fn doctor_step(args: &[String], i: usize, linker: Option<String>) -> (r: Result<Action, Error>)
    requires
        i <= args@.len(),
    ensures
        ends_in(r, doctor_outcome(arg_bytes(args@), i as int, opt_bytes(linker))),
    decreases args@.len() - i,
{
    let ghost all = arg_bytes(args@);
    if i >= args.len() {
        return Ok(Action::ToolsDoctor(ToolDoctorConfig { linker }));
    }
    let a = bytes_of(&args[i]);
    proof {
        assert(all[i as int] == a@);
    }
    if word_is(a, "-h") || word_is(a, "--help") {
        return Ok(Action::ToolsHelp);
    }
    if word_is(a, "--linker") {
        if i + 1 >= args.len() {
            return usage(joined("missing value for ", a));
        }
        proof {
            assert(all[i + 1] == string_bytes(args@[i + 1]));
        }
        return doctor_step(args, i + 2, Some(args[i + 1].clone()));
    }
    if prefixed(a, "--linker=") {
        let (_, value) = split_at_equals(args[i].as_str());
        return doctor_step(args, i + 1, Some(value));
    }
    if a.len() > 0 && a[0] == 45u8 {
        let fallback = around("unknown tools doctor option `", a, "`");
        return usage(removed_or(&args[i], fallback));
    }
    usage(around("unexpected tools doctor argument `", a, "`"))
}

/// Read a `tools` command line, the arguments after `tools`.
fn parse_tools_args(args: &[String]) -> (r: Result<Action, Error>)
    requires
        args@.len() >= 1,
    ensures
        ends_in(r, tools_outcome(arg_bytes(args@).drop_first())),
{
    let ghost all = arg_bytes(args@);
    let ghost rest = all.drop_first();
    proof {
        assert forall|k: int| 0 <= k < args@.len() - 1 implies #[trigger] rest[k] == string_bytes(args@[k + 1]) by {
            assert(rest[k] == all[k + 1]);
        }
    }
    if args.len() == 1 {
        return usage(text("missing tools command; expected `doctor`"));
    }
    let command = bytes_of(&args[1]);
    proof {
        assert(rest[0] == command@);
    }
    if word_is(command, "-h") || word_is(command, "--help") {
        return Ok(Action::ToolsHelp);
    }
    if !word_is(command, "doctor") {
        return usage(around("unknown tools command `", command, "`; expected `doctor`"));
    }
    let r = doctor_step(args, 2, None);
    proof {
        lemma_doctor_shift(all, 2, None);
    }
    r
}

/// Reading the doctor options of `args` from `i` is reading those of the
/// arguments after `tools` from `i - 1`.
proof fn lemma_doctor_shift(all: Seq<Seq<u8>>, i: int, l: Option<Seq<u8>>)
    requires
        1 <= i <= all.len(),
    ensures
        doctor_outcome(all, i, l) == doctor_outcome(all.drop_first(), i - 1, l),
    decreases all.len() - i,
{
    let rest = all.drop_first();
    if i < all.len() {
        let a = all[i];
        assert(rest[i - 1] == a);
        if lit(a, "--linker") && i + 1 < all.len() {
            assert(rest[i] == all[i + 1]);
            lemma_doctor_shift(all, i + 2, Some(all[i + 1]));
        } else if has_prefix(a, "--linker=") {
            lemma_doctor_shift(all, i + 1, Some(after_equals(a)));
        }
    }
}

/// Read the compiler's command line (the arguments after the program name).
pub fn parse_args(args: &[String]) -> (r: Result<Action, Error>)
    ensures
        parse_result(arg_bytes(args@), r),
{
    let ghost all = arg_bytes(args@);
    if args.len() > 0 && word_is(bytes_of(&args[0]), "tools") {
        proof {
            assert(all[0] == string_bytes(args@[0]));
        }
        return parse_tools_args(args);
    }
    let mut st = State {
        input: None,
        output: None,
        emit: None,
        target: None,
        tape_size: crate::DEFAULT_TAPE_SIZE,
        bounds_check: false,
        freestanding: false,
        configured: false,
        entry: text("bf_main"),
        putchar: text("bf_putchar"),
        getchar: text("bf_getchar"),
        opt_level: OptLevel::Speed,
        linker: None,
        keep_object: false,
    };
    let mut i: usize = 0;
    proof {
        assert(st.view() == initial_flags());
    }
    while i < args.len()
        invariant
            i <= args@.len(),
            all == arg_bytes(args@),
            args@.len() == 0 || !lit(all[0], "tools"),
            scan_flags(all, 0, initial_flags()) == scan_flags(all, i as int, st.view()),
        decreases args@.len() - i,
    {
        match step(args, i, st) {
            Step::Next(next, j) => {
                st = next;
                i = j;
            },
            Step::Done(done) => {
                st = done;
                i = args.len();
                return finish(st);
            },
            Step::Stop(result) => {
                return result;
            },
        }
    }
    finish(st)
}

/// Turn the finished options into a compile, or refuse them.
fn finish(st: State) -> (r: Result<Action, Error>)
    ensures
        match flags_refusal(st.view()) {
            Some(m) => ends_in(r, Outcome::Usage(m)),
            None => r matches Ok(Action::Run(config)) && config_from(*config, st.view()),
        },
{
    let input = match st.input {
        Some(input) => input,
        None => return usage(text("missing input file")),
    };
    let ghost f = st.view();
    let mut target = match &st.target {
        Some(t) => TargetProfile::resolve(t.as_str()),
        None => TargetProfile::native(),
    };
    proof {
        match st.target {
            Some(t) => {
                encode_utf8_decode_utf8(t@);
            },
            None => {
                encode_utf8_decode_utf8("native"@);
            },
        }
    }
    let base_freestanding = target.is_freestanding();
    assert(base_freestanding == target_freestanding(f.target));
    if st.freestanding || (target.is_freestanding() && st.configured) {
        target.set_runtime_abi(
            RuntimeAbi::Freestanding(
                FreestandingOptions {
                    entry_symbol: st.entry,
                    putchar_symbol: st.putchar,
                    getchar_symbol: st.getchar,
                },
            ),
        );
    } else if st.configured {
        return usage(
            text(
                "--entry, --putchar-symbol, and --getchar-symbol require a freestanding target or --freestanding",
            ),
        );
    }
    let emit = match st.emit {
        Some(k) => k,
        None => target.default_emit(),
    };
    if target.is_freestanding() && (emit == EmitKind::Executable || emit == EmitKind::Jit) {
        let name = target.name();
        proof {
            encode_utf8_valid_utf8(name@);
        }
        let mut out: Vec<u8> = Vec::new();
        proof {
            assert(valid_utf8(seq![]));
        }
        push_str(&mut out, "target `");
        push_str(&mut out, name);
        push_str(&mut out, "` uses a freestanding runtime and supports --emit obj");
        proof {
            match f.target {
                Some(t) => {
                    decode_utf8_encode_utf8(t);
                },
                None => {},
            }
        }
        return usage(string_from_utf8(out));
    }
    Ok(
        Action::Run(
            Box::new(
                CompilerConfig {
                    input,
                    output: st.output,
                    emit,
                    target,
                    tape_size: st.tape_size,
                    bounds_check: st.bounds_check,
                    opt_level: st.opt_level,
                    linker: st.linker,
                    keep_object: st.keep_object,
                },
            ),
        ),
    )
}

} // verus!
