//! Compiler-driver configuration and the policy applied before compiling:
//! which output kinds a target accepts and where the output goes.

use vstd::prelude::*;
use vstd::string::StringSliceAdditionalSpecFns;
use vstd::utf8::encode_utf8;
use crate::bytes::str_eq;
use crate::paths::{has_extension, host_is_windows, same_path, with_extension, plain_name, name_has_extension,
    name_stem, name_with_extension};
use crate::bytes::{seq_contains, str_contains};
use super::target::TargetProfile;

verus! {

/// Commands tried, in order, when no linker is configured: C compiler drivers,
/// since a hosted program needs the C runtime and its startup files.
pub const LINKER_CANDIDATES: [&'static str; 3] = ["cc", "clang", "gcc"];

/// Output kind requested from the compiler driver.
#[derive(Debug, Clone, Copy, PartialEq, Eq, Structural)]
pub enum EmitKind {
    /// Compile and link a hosted executable.
    Executable,
    /// Compile to a relocatable object file.
    Object,
    /// Compile for the host and run the result in this process.
    Jit,
}

/// The emit kind a spelling names.
pub open spec fn emit_named(value: Seq<char>) -> Option<EmitKind> {
    if value == "exe"@ || value == "executable"@ {
        Some(EmitKind::Executable)
    } else if value == "obj"@ || value == "object"@ {
        Some(EmitKind::Object)
    } else if value == "jit"@ || value == "run"@ {
        Some(EmitKind::Jit)
    } else {
        None
    }
}

impl EmitKind {
    /// Parse an emit kind: `exe`/`executable`, `obj`/`object`, `jit`/`run`.
    pub fn parse(value: &str) -> (r: Option<Self>)
        ensures
            r == emit_named(value@),
    {
        if str_eq(value, "exe") || str_eq(value, "executable") {
            Some(EmitKind::Executable)
        } else if str_eq(value, "obj") || str_eq(value, "object") {
            Some(EmitKind::Object)
        } else if str_eq(value, "jit") || str_eq(value, "run") {
            Some(EmitKind::Jit)
        } else {
            None
        }
    }

    /// The canonical spelling of this emit kind.
    pub fn as_str(self) -> (r: &'static str)
        ensures
            r@ == match self {
                EmitKind::Executable => "exe"@,
                EmitKind::Object => "obj"@,
                EmitKind::Jit => "jit"@,
            },
    {
        match self {
            EmitKind::Executable => "exe",
            EmitKind::Object => "obj",
            EmitKind::Jit => "jit",
        }
    }
}

/// Optimization level the code generator compiles at. The familiar `-O`
/// spellings fold onto these three.
#[derive(Debug, Clone, Copy, PartialEq, Eq, Structural)]
pub enum OptLevel {
    /// No optimization; the fastest compile.
    Off,
    /// Optimize for speed.
    Speed,
    /// Optimize for speed, preferring smaller code when it is a close call.
    SpeedAndSize,
}

/// The optimization level a spelling names.
pub open spec fn opt_level_named(value: Seq<char>) -> Option<OptLevel> {
    if value == "0"@ || value == "none"@ {
        Some(OptLevel::Off)
    } else if value == "1"@ || value == "2"@ || value == "3"@ || value == "speed"@ {
        Some(OptLevel::Speed)
    } else if value == "s"@ || value == "S"@ || value == "z"@ || value == "Z"@ || value == "size"@
        || value == "speed-and-size"@ {
        Some(OptLevel::SpeedAndSize)
    } else {
        None
    }
}

impl OptLevel {
    /// Parse an optimization level: `0`/`none`; `1`, `2`, `3`, `speed`;
    /// `s`, `S`, `z`, `Z`, `size`, `speed-and-size`.
    pub fn parse(value: &str) -> (r: Option<Self>)
        ensures
            r == opt_level_named(value@),
    {
        if str_eq(value, "0") || str_eq(value, "none") {
            Some(OptLevel::Off)
        } else if str_eq(value, "1") || str_eq(value, "2") || str_eq(value, "3") || str_eq(
            value,
            "speed",
        ) {
            Some(OptLevel::Speed)
        } else if str_eq(value, "s") || str_eq(value, "S") || str_eq(value, "z") || str_eq(value, "Z")
            || str_eq(value, "size") || str_eq(value, "speed-and-size") {
            Some(OptLevel::SpeedAndSize)
        } else {
            None
        }
    }

    /// The code generator's `opt_level` setting for this level.
    pub fn cranelift_setting(self) -> (r: &'static str)
        ensures
            r@ == match self {
                OptLevel::Off => "none"@,
                OptLevel::Speed => "speed"@,
                OptLevel::SpeedAndSize => "speed_and_size"@,
            },
    {
        match self {
            OptLevel::Off => "none",
            OptLevel::Speed => "speed",
            OptLevel::SpeedAndSize => "speed_and_size",
        }
    }
}

/// Complete compiler-driver configuration.
#[derive(Debug, Clone)]
pub struct CompilerConfig {
    /// Brainfuck source file to compile.
    pub input: String,
    /// Output path; when omitted one is chosen from the input, emit kind and
    /// target.
    pub output: Option<String>,
    /// Requested output kind.
    pub emit: EmitKind,
    /// Target profile: triple and runtime ABI.
    pub target: TargetProfile,
    /// Number of byte cells in the generated tape.
    pub tape_size: usize,
    /// Trap on out-of-range tape access.
    pub bounds_check: bool,
    /// Optimization level.
    pub opt_level: OptLevel,
    /// Linker command for executables; `None` tries [`LINKER_CANDIDATES`].
    pub linker: Option<String>,
    /// Keep the object file beside the linked executable.
    pub keep_object: bool,
}

impl CompilerConfig {
    /// Whether this is the default configuration for `input` and `target`.
    pub open spec fn is_default_for(&self, input: Seq<char>, target: TargetProfile) -> bool {
        &&& self.input@ == input
        &&& self.output is None
        &&& self.emit == target.default_emit_view()
        &&& self.target == target
        &&& self.tape_size == crate::DEFAULT_TAPE_SIZE
        &&& !self.bounds_check
        &&& self.opt_level == OptLevel::Speed
        &&& self.linker is None
        &&& !self.keep_object
    }

    /// The default hosted-native configuration for `input`.
    pub fn new(input: &str) -> (r: Self)
        ensures
            r.target.is_native(),
            r.is_default_for(input@, r.target),
    {
        Self::for_target(input, TargetProfile::native())
    }

    /// The default configuration for `input` and `target`.
    pub fn for_target(input: &str, target: TargetProfile) -> (r: Self)
        ensures
            r.is_default_for(input@, target),
    {
        let emit = target.default_emit();
        CompilerConfig {
            input: input.to_owned(),
            output: None,
            emit,
            target,
            tape_size: crate::DEFAULT_TAPE_SIZE,
            bounds_check: false,
            opt_level: OptLevel::Speed,
            linker: None,
            keep_object: false,
        }
    }
}

impl CompilerConfig {
    /// The code generator options this configuration asks for: its tape,
    /// bounds checking and target runtime, with binary standard streams.
    pub fn codegen_options(&self) -> (r: super::codegen::CodegenOptions)
        ensures
            r.tape_size == self.tape_size,
            r.bounds_check == self.bounds_check,
            r.binary_stdio,
            match (self.target.abi_view(), r.runtime) {
                (super::target::RuntimeAbi::Hosted, super::codegen::Runtime::Hosted) => true,
                (
                    super::target::RuntimeAbi::Freestanding(a),
                    super::codegen::Runtime::Freestanding(b),
                ) => a.entry_symbol@ == b.entry_symbol@ && a.putchar_symbol@ == b.putchar_symbol@
                    && a.getchar_symbol@ == b.getchar_symbol@,
                _ => false,
            },
    {
        super::codegen::CodegenOptions {
            tape_size: self.tape_size,
            bounds_check: self.bounds_check,
            binary_stdio: true,
            runtime: self.target.runtime_abi().to_codegen_runtime(),
        }
    }
}

/// Whether a configuration is refused before anything is compiled, and with
/// which message.
pub open spec fn config_refusal(config: CompilerConfig) -> Option<Seq<char>> {
    if config.emit == EmitKind::Jit && config.output is Some {
        Some("--emit jit runs the program directly and does not accept --output"@)
    } else if config.output matches Some(path) && path@ == "-"@ {
        Some("--output - is not supported; every output kind is binary"@)
    } else if config.target.is_freestanding_view() && (config.emit == EmitKind::Executable
        || config.emit == EmitKind::Jit) {
        Some("target `"@ + config.target.name_view() + "` uses a freestanding runtime and supports --emit obj"@)
    } else if config.emit == EmitKind::Jit && config.target.triple_view() is Some {
        Some("--emit jit runs the program in this process and cannot target `"@
            + config.target.name_view() + "`"@)
    } else {
        None
    }
}

/// Refuse a configuration that cannot be compiled as asked, before any work:
/// a JIT run with an output path, `-` as the output, hosted output for a
/// freestanding target, and a JIT run for a foreign triple, checked in that
/// order. Whether the host can link for the target is checked afterwards by
/// the caller, against the host's own toolchain.
pub fn validate_config(config: &CompilerConfig) -> (r: Result<(), String>)
    ensures
        match config_refusal(*config) {
            Some(message) => r matches Err(m) && m@ == message,
            None => r is Ok,
        },
{
    if config.emit == EmitKind::Jit && config.output.is_some() {
        return Err("--emit jit runs the program directly and does not accept --output".to_owned());
    }
    if let Some(path) = &config.output {
        if str_eq(path.as_str(), "-") {
            return Err("--output - is not supported; every output kind is binary".to_owned());
        }
    }
    if config.target.is_freestanding() && (config.emit == EmitKind::Executable || config.emit
        == EmitKind::Jit) {
        let mut message = "target `".to_owned();
        message.append(config.target.name());
        message.append("` uses a freestanding runtime and supports --emit obj");
        return Err(message);
    }
    if config.emit == EmitKind::Jit && config.target.triple().is_some() {
        let mut message = "--emit jit runs the program in this process and cannot target `".to_owned();
        message.append(config.target.name());
        message.append("`");
        return Err(message);
    }
    Ok(())
}

/// Whether executables for `target` end in `.exe`: its triple names Windows,
/// or, with no triple, the host is Windows.
pub fn wants_exe_extension(target: &TargetProfile) -> (r: bool)
    ensures
        target.triple_view() matches Some(t) ==> r == seq_contains(encode_utf8(t), "windows".spec_bytes()),
{
    match target.triple() {
        Some(triple) => str_contains(triple, "windows"),
        None => host_is_windows(),
    }
}

/// A requested executable path with `.exe` added when executables need it
/// and the name has no extension.
pub open spec fn exe_named(p: Seq<char>, wants: bool) -> Seq<char> {
    if wants && !name_has_extension(p) {
        name_with_extension(p, "exe"@)
    } else {
        p
    }
}

/// Whether a target's triple names Windows.
pub open spec fn triple_is_windows(t: Seq<char>) -> bool {
    seq_contains(encode_utf8(t), "windows".spec_bytes())
}

/// Add `.exe` to a requested executable path that has no extension, where
/// executables need one. A path with an extension is left as written, and so
/// is the output of any other kind. With no triple the host decides whether
/// executables need `.exe`.
pub fn with_executable_extension(output: String, emit: EmitKind, target: &TargetProfile) -> (r: String)
    ensures
        emit != EmitKind::Executable ==> r@ == output@,
        emit == EmitKind::Executable && plain_name(output@) ==> (r@ == exe_named(output@, true) || r@
            == exe_named(output@, false)),
        emit == EmitKind::Executable && plain_name(output@) ==> (target.triple_view() matches Some(t) ==> r@
            == exe_named(output@, triple_is_windows(t))),
{
    if emit != EmitKind::Executable || has_extension(output.as_str()) || !wants_exe_extension(target) {
        return output;
    }
    proof {
        reveal_strlit("exe");
    }
    with_extension(output.as_str(), "exe")
}

/// The default executable path for an input: without its extension, with
/// `.exe` where executables need it, or with `.out` when stripping the
/// extension would leave the input itself.
pub open spec fn default_executable(input: Seq<char>, wants: bool) -> Seq<char> {
    let stripped = name_stem(input);
    if wants {
        name_with_extension(stripped, "exe"@)
    } else if stripped == input {
        name_with_extension(stripped, "out"@)
    } else {
        stripped
    }
}

/// The default output path for a compile request: the input without its
/// extension for an executable (`.exe` where executables need it, `.out` when
/// stripping changes nothing), and with `.o` for an object.
pub fn default_output_path(input: &str, emit: EmitKind, target: &TargetProfile) -> (r: String)
    ensures
        emit != EmitKind::Executable && plain_name(input@) ==> r@ == name_with_extension(input@, "o"@),
        emit == EmitKind::Executable && plain_name(input@) && plain_name(name_stem(input@)) ==> (r@
            == default_executable(input@, true) || r@ == default_executable(input@, false)),
        emit == EmitKind::Executable && plain_name(input@) && plain_name(name_stem(input@)) ==> (
        target.triple_view() matches Some(t) ==> r@ == default_executable(input@, triple_is_windows(t))),
{
    proof {
        reveal_strlit("");
        reveal_strlit("exe");
        reveal_strlit("out");
        reveal_strlit("o");
    }
    match emit {
        EmitKind::Executable => {
            let stripped = with_extension(input, "");
            if wants_exe_extension(target) {
                with_extension(stripped.as_str(), "exe")
            } else if same_path(stripped.as_str(), input) {
                with_extension(stripped.as_str(), "out")
            } else {
                stripped
            }
        },
        EmitKind::Object | EmitKind::Jit => with_extension(input, "o"),
    }
}

} // verus!
