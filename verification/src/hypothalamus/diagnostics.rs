//! Toolchain diagnostics for the `tools doctor` command.
//!
//! What can be answered here is how the report reads: which column says
//! what, given what the probes found. The probes themselves (building a code
//! generator for a triple, looking for a linker on disk) belong to the
//! command-line tool, which hands their results in as plain values.

use vstd::prelude::*;
use vstd::std_specs::iter::IteratorSpec;
use super::driver::LINKER_CANDIDATES;
use super::driver::EmitKind;
use super::target::{RuntimeAbiKind, TargetPreset};

verus! {

/// Configuration for toolchain diagnostics.
#[derive(Debug, Clone)]
pub struct ToolDoctorConfig {
    /// Linker command to inspect, or `None` to report discovery.
    pub linker: Option<String>,
}

impl Default for ToolDoctorConfig {
    fn default() -> (r: Self)
        ensures
            r.linker is None,
    {
        ToolDoctorConfig { linker: None }
    }
}

/// `s` padded on the right with spaces to at least `width` characters.
pub open spec fn padded(s: Seq<char>, width: nat) -> Seq<char> {
    if s.len() >= width {
        s
    } else {
        s + Seq::new((width - s.len()) as nat, |_i: int| ' ')
    }
}

/// The items of `items` with `sep` between each two.
pub open spec fn joined(items: Seq<Seq<char>>, sep: Seq<char>) -> Seq<char>
    decreases items.len(),
{
    if items.len() == 0 {
        Seq::empty()
    } else if items.len() == 1 {
        items[0]
    } else {
        joined(items.drop_last(), sep) + sep + items.last()
    }
}

/// The "exe:" column for a target.
pub open spec fn executable_status_spec(freestanding: bool, codegen_ok: bool, has_linker: bool) -> Seq<
    char,
> {
    if freestanding {
        "n/a (freestanding)"@
    } else if !codegen_ok {
        "n/a"@
    } else if has_linker {
        "ok"@
    } else {
        "needs a linker"@
    }
}

/// The "codegen:" column for a probe result.
pub open spec fn codegen_status_spec(codegen: Result<(), Seq<char>>) -> Seq<char> {
    match codegen {
        Ok(()) => "ok"@,
        Err(e) => "unsupported ("@ + e + ")"@,
    }
}

/// The report's line for the linker.
pub open spec fn linker_line_spec(found: Option<Seq<char>>, configured: Option<Seq<char>>) -> Seq<char> {
    match found {
        Some(path) => "  linker: ok ("@ + path + ")\n"@,
        None => match configured {
            Some(command) => "  linker: missing (`"@ + command
                + "` was not found; only --emit exe needs it)\n"@,
            None => "  linker: missing (tried "@ + joined(candidate_names(), ", "@)
                + "; only --emit exe needs it)\n"@,
        },
    }
}

/// The linker commands tried when none is configured.
pub open spec fn candidate_names() -> Seq<Seq<char>> {
    seq![LINKER_CANDIDATES[0]@, LINKER_CANDIDATES[1]@, LINKER_CANDIDATES[2]@]
}

/// How an output kind is spelled on the command line.
pub open spec fn emit_name(e: EmitKind) -> Seq<char> {
    match e {
        EmitKind::Executable => "exe"@,
        EmitKind::Object => "obj"@,
        EmitKind::Jit => "jit"@,
    }
}

/// The report's line for one target.
pub open spec fn target_line_spec(
    target: TargetPreset,
    codegen: Result<(), Seq<char>>,
    has_linker: bool,
) -> Seq<char> {
    let freestanding = target.runtime_abi == RuntimeAbiKind::Freestanding;
    "  "@ + padded(target.name@, 12) + " "@ + padded(
        match target.triple {
            Some(t) => t@,
            None => "host default"@,
        },
        24,
    ) + " "@ + padded(if freestanding { "freestanding"@ } else { "hosted"@ }, 13) + " default: "@
        + padded(emit_name(target.default_emit), 4) + " codegen: "@ + padded(
        codegen_status_spec(codegen),
        8,
    ) + " exe: "@ + executable_status_spec(freestanding, codegen is Ok, has_linker) + "\n"@
}

/// The lines for the first `n` targets.
pub open spec fn target_lines_spec(
    targets: Seq<TargetPreset>,
    codegen: Seq<Result<(), Seq<char>>>,
    has_linker: bool,
    n: nat,
) -> Seq<char>
    decreases n,
{
    if n == 0 {
        Seq::empty()
    } else {
        target_lines_spec(targets, codegen, has_linker, (n - 1) as nat) + target_line_spec(
            targets[n - 1],
            codegen[n - 1],
            has_linker,
        )
    }
}

/// The backend section, given whether a code generator could be built for
/// the host and, if so, its triple.
pub open spec fn backend_spec(host: Result<Seq<char>, Seq<char>>) -> Seq<char> {
    match host {
        Ok(triple) => "  cranelift: ok (host "@ + triple + ")\n"@
            + "  jit: ok (in-process; no external tool required)\n"@
            + "  obj: ok (no external tool required)\n"@,
        Err(e) => "  cranelift: unsupported ("@ + e + ")\n"@,
    }
}

/// The whole report.
pub open spec fn doctor_report_spec(
    configured: Option<Seq<char>>,
    host: Result<Seq<char>, Seq<char>>,
    linker: Option<Seq<char>>,
    targets: Seq<TargetPreset>,
    codegen: Seq<Result<(), Seq<char>>>,
) -> Seq<char> {
    "Hypothalamus tool doctor\n\n"@ + "Backend:\n"@ + backend_spec(host) + "\nTools:\n"@
        + linker_line_spec(linker, configured) + "\nTargets:\n"@ + target_lines_spec(
        targets,
        codegen,
        linker is Some,
        targets.len(),
    )
}

/// A string as plain text.
pub open spec fn text_of(s: Option<String>) -> Option<Seq<char>> {
    match s {
        Some(t) => Some(t@),
        None => None,
    }
}

/// A probe result as plain text.
pub open spec fn probe_of(r: Result<String, String>) -> Result<Seq<char>, Seq<char>> {
    match r {
        Ok(t) => Ok(t@),
        Err(e) => Err(e@),
    }
}

/// A code generator probe as plain text.
pub open spec fn codegen_of(r: Result<(), String>) -> Result<(), Seq<char>> {
    match r {
        Ok(()) => Ok(()),
        Err(e) => Err(e@),
    }
}

/// The characters of a string, one by one.
fn chars_of(s: &str) -> (r: Vec<char>)
    ensures
        r@ == s@,
{
    let mut it = s.chars();
    let mut out: Vec<char> = Vec::new();
    proof {
        vstd::string::axiom_spec_iter(s);
    }
    loop
        invariant
            out@ + it.remaining() == s@,
            it.decrease() is Some,
        ensures
            out@ == s@,
        decreases it.decrease()->0,
    {
        let ghost before = it.remaining();
        match it.next() {
            Some(c) => {
                proof {
                    assert(before == seq![c] + it.remaining());
                }
                out.push(c);
                assert(out@ + it.remaining() == s@);
            },
            None => {
                assert(out@ == s@);
                break ;
            },
        }
    }
    out
}

/// Append `s`, padded on the right with spaces to `width` characters.
fn push_padded(out: &mut String, s: &str, width: usize)
    ensures
        final(out)@ == old(out)@ + padded(s@, width as nat),
{
    let n = chars_of(s).len();
    out.append(s);
    if n < width {
        let mut k: usize = n;
        proof {
            reveal_strlit(" ");
        }
        while k < width
            invariant
                n <= k <= width,
                n == s@.len(),
                out@ == old(out)@ + s@ + Seq::new((k - n) as nat, |_i: int| ' '),
            decreases width - k,
        {
            out.append(" ");
            proof {
                reveal_strlit(" ");
            }
            assert(Seq::new((k - n) as nat, |_i: int| ' ') + " "@ =~= Seq::new(
                (k + 1 - n) as nat,
                |_i: int| ' ',
            ));
            k += 1;
        }
        assert(old(out)@ + s@ + Seq::new((k - n) as nat, |_i: int| ' ') =~= old(out)@ + padded(
            s@,
            width as nat,
        ));
    } else {
        assert(old(out)@ + s@ =~= old(out)@ + padded(s@, width as nat));
    }
}

/// The "exe:" column: whether a target can be linked into an executable.
pub fn executable_status(freestanding: bool, codegen_ok: bool, has_linker: bool) -> (r: &'static str)
    ensures
        r@ == executable_status_spec(freestanding, codegen_ok, has_linker),
{
    if freestanding {
        "n/a (freestanding)"
    } else if !codegen_ok {
        "n/a"
    } else if has_linker {
        "ok"
    } else {
        "needs a linker"
    }
}

/// The "codegen:" column: `ok`, or why no code generator could be built.
pub fn codegen_status(codegen: &Result<(), String>) -> (r: String)
    ensures
        r@ == codegen_status_spec(codegen_of(*codegen)),
{
    match codegen {
        Ok(()) => "ok".to_owned(),
        Err(e) => {
            let mut m = "unsupported (".to_owned();
            m.append(e.as_str());
            m.append(")");
            m
        },
    }
}

/// The report's line for the linker that was found, or for the one that was
/// not.
pub fn linker_line(found: &Option<String>, configured: &Option<String>) -> (r: String)
    ensures
        r@ == linker_line_spec(text_of(*found), text_of(*configured)),
{
    match found {
        Some(path) => {
            let mut m = "  linker: ok (".to_owned();
            m.append(path.as_str());
            m.append(")\n");
            m
        },
        None => match configured {
            Some(command) => {
                let mut m = "  linker: missing (`".to_owned();
                m.append(command.as_str());
                m.append("` was not found; only --emit exe needs it)\n");
                m
            },
            None => {
                let mut m = "  linker: missing (tried ".to_owned();
                let ghost start = m@;
                let mut k: usize = 0;
                while k < 3
                    invariant
                        k <= 3,
                        m@ == start + joined(candidate_names().take(k as int), ", "@),
                    decreases 3 - k,
                {
                    if k > 0 {
                        m.append(", ");
                    }
                    m.append(LINKER_CANDIDATES[k]);
                    proof {
                        let names = candidate_names();
                        assert(names.take(k + 1).drop_last() =~= names.take(k as int));
                        assert(names.take(k + 1).last() == LINKER_CANDIDATES[k as int]@);
                        if k == 0 {
                            assert(names.take(1) =~= seq![LINKER_CANDIDATES[0]@]);
                        }
                    }
                    k += 1;
                }
                assert(candidate_names().take(3) =~= candidate_names());
                m.append("; only --emit exe needs it)\n");
                m
            },
        },
    }
}

/// The report's line for one target: its name, triple, runtime and default
/// output, then whether code can be generated for it and whether it can be
/// linked into an executable.
pub fn target_line(target: &TargetPreset, codegen: &Result<(), String>, has_linker: bool) -> (r: String)
    ensures
        r@ == target_line_spec(*target, codegen_of(*codegen), has_linker),
{
    let freestanding = match target.runtime_abi {
        RuntimeAbiKind::Freestanding => true,
        RuntimeAbiKind::Hosted => false,
    };
    let mut m = "  ".to_owned();
    push_padded(&mut m, target.name, 12);
    m.append(" ");
    let triple = match target.triple {
        Some(t) => t,
        None => "host default",
    };
    push_padded(&mut m, triple, 24);
    m.append(" ");
    push_padded(&mut m, if freestanding { "freestanding" } else { "hosted" }, 13);
    m.append(" default: ");
    push_padded(&mut m, target.default_emit.as_str(), 4);
    m.append(" codegen: ");
    let status = codegen_status(codegen);
    push_padded(&mut m, status.as_str(), 8);
    m.append(" exe: ");
    m.append(executable_status(freestanding, codegen.is_ok(), has_linker));
    m.append("\n");
    m
}

/// Build the human-readable toolchain report from what the probes found:
/// `host` is the host triple a code generator was built for, or why none
/// could be; `linker` is the linker found on disk, if any; `codegen` holds,
/// for each of `targets` in turn, whether a code generator could be built
/// for it.
pub fn doctor_report(
    config: &ToolDoctorConfig,
    host: &Result<String, String>,
    linker: &Option<String>,
    targets: &Vec<TargetPreset>,
    codegen: &Vec<Result<(), String>>,
) -> (r: String)
    requires
        targets.len() == codegen.len(),
    ensures
        r@ == doctor_report_spec(
            text_of(config.linker),
            probe_of(*host),
            text_of(*linker),
            targets@,
            codegen@.map_values(|c: Result<(), String>| codegen_of(c)),
        ),
{
    let mut out = "Hypothalamus tool doctor\n\n".to_owned();
    out.append("Backend:\n");
    match host {
        Ok(triple) => {
            out.append("  cranelift: ok (host ");
            out.append(triple.as_str());
            out.append(")\n");
            out.append("  jit: ok (in-process; no external tool required)\n");
            out.append("  obj: ok (no external tool required)\n");
        },
        Err(e) => {
            out.append("  cranelift: unsupported (");
            out.append(e.as_str());
            out.append(")\n");
        },
    }
    out.append("\nTools:\n");
    let line = linker_line(linker, &config.linker);
    out.append(line.as_str());
    out.append("\nTargets:\n");
    let has_linker = linker.is_some();
    let ghost head = out@;
    let ghost cg = codegen@.map_values(|c: Result<(), String>| codegen_of(c));
    let mut k: usize = 0;
    while k < targets.len()
        invariant
            k <= targets.len() == codegen.len(),
            cg == codegen@.map_values(|c: Result<(), String>| codegen_of(c)),
            has_linker == linker is Some,
            out@ == head + target_lines_spec(targets@, cg, has_linker, k as nat),
        decreases targets.len() - k,
    {
        let line = target_line(&targets[k], &codegen[k], has_linker);
        out.append(line.as_str());
        k += 1;
    }
    proof {
        assert(head == "Hypothalamus tool doctor\n\n"@ + "Backend:\n"@ + backend_spec(probe_of(*host))
            + "\nTools:\n"@ + linker_line_spec(text_of(*linker), text_of(config.linker))
            + "\nTargets:\n"@);
    }
    out
}

} // verus!
