//! Command-line argument handling for the lifter.

use vstd::prelude::*;
use vstd::string::StringSliceAdditionalSpecFns;
use vstd::utf8::*;
use crate::bytes::{bytes_equal, push_all, push_str, string_bytes, string_from_utf8};
use crate::paths::{name_with_extension, plain_name, with_extension};

verus! {

/// What the lifter was asked to do.
#[derive(Debug, Clone)]
pub struct Options {
    /// The Brainfuck file to lift.
    pub input: String,
    /// Where to write the Cranium, when given.
    pub output: Option<String>,
    /// Write the Cranium to standard output instead of a file.
    pub stdout: bool,
    /// Report how many cells and statements came out.
    pub stats: bool,
}

/// The options as byte strings, while the arguments are read.
pub struct Scanned {
    pub input: Option<Seq<u8>>,
    pub output: Option<Seq<u8>>,
    pub stdout: bool,
    pub stats: bool,
}

/// Whether an argument is an option the lifter does not know: it starts with
/// `-` and is not `-` itself.
pub open spec fn is_unknown_option(a: Seq<u8>) -> bool {
    a.len() > 0 && a[0] == 45u8 && a != "-".spec_bytes()
}

/// Read the arguments from `i` on, on top of what was read before.
pub open spec fn scan(args: Seq<Seq<u8>>, i: int, st: Scanned) -> Result<Scanned, Seq<u8>>
    decreases args.len() - i,
{
    if i < 0 || i >= args.len() {
        Ok(st)
    } else {
        let a = args[i];
        if a == "-o".spec_bytes() || a == "--output".spec_bytes() {
            if i + 1 >= args.len() {
                Err("`".spec_bytes() + a + "` needs a path".spec_bytes())
            } else if args[i + 1] == "-".spec_bytes() {
                scan(args, i + 2, Scanned { stdout: true, ..st })
            } else {
                scan(args, i + 2, Scanned { output: Some(args[i + 1]), ..st })
            }
        } else if a == "--stats".spec_bytes() {
            scan(args, i + 1, Scanned { stats: true, ..st })
        } else if is_unknown_option(a) {
            Err("unknown option `".spec_bytes() + a + "`".spec_bytes())
        } else if st.input is Some {
            Err("more than one input file".spec_bytes())
        } else {
            scan(args, i + 1, Scanned { input: Some(a), ..st })
        }
    }
}

/// Nothing read yet.
pub open spec fn nothing_scanned() -> Scanned {
    Scanned { input: None, output: None, stdout: false, stats: false }
}

/// The arguments, each as its UTF-8 bytes.
pub open spec fn arg_bytes(args: Seq<String>) -> Seq<Seq<u8>> {
    args.map_values(|a: String| string_bytes(a))
}

/// What `parse_args` gives for the arguments, with strings as their bytes.
pub open spec fn parsed(args: Seq<Seq<u8>>) -> Result<Scanned, Seq<u8>> {
    match scan(args, 0, nothing_scanned()) {
        Err(e) => Err(e),
        Ok(st) => if st.input is None {
            Err("no input file".spec_bytes())
        } else {
            Ok(st)
        },
    }
}

/// Whether `options` holds what was scanned.
pub open spec fn options_match(options: Options, st: Scanned) -> bool {
    &&& st.input == Some(string_bytes(options.input))
    &&& match options.output {
        Some(path) => st.output == Some(string_bytes(path)),
        None => st.output is None,
    }
    &&& options.stdout == st.stdout
    &&& options.stats == st.stats
}

fn text_bytes(s: &String) -> (r: &[u8])
    ensures
        r@ == string_bytes(*s),
        valid_utf8(r@),
{
    proof {
        encode_utf8_valid_utf8(s@);
    }
    s.as_str().as_bytes()
}

fn same(arg: &[u8], word: &str) -> (r: bool)
    ensures
        r == (arg@ == word.spec_bytes()),
{
    bytes_equal(arg, word.as_bytes())
}

/// `before`, the argument, and `after`, as a `String`.
fn quoted(before: &str, arg: &[u8], after: &str) -> (r: String)
    requires
        valid_utf8(arg@),
    ensures
        string_bytes(r) == before.spec_bytes() + arg@ + after.spec_bytes(),
{
    let mut out: Vec<u8> = Vec::new();
    proof {
        assert(valid_utf8(seq![]));
    }
    push_str(&mut out, before);
    let ghost mid = out@;
    push_all(&mut out, arg);
    proof {
        valid_utf8_concat(mid, arg@);
    }
    push_str(&mut out, after);
    string_from_utf8(out)
}

fn message(text: &str) -> (r: String)
    ensures
        string_bytes(r) == text.spec_bytes(),
{
    let r = text.to_owned();
    r
}

/// Read the lifter's command line: one input file, `-o`/`--output` with a
/// path (`-` for standard output) and `--stats`.
pub fn parse_args(args: &[String]) -> (r: Result<Options, String>)
    ensures
        match parsed(arg_bytes(args@)) {
            Ok(st) => r matches Ok(options) && options_match(options, st),
            Err(e) => r matches Err(m) && string_bytes(m) == e,
        },
{
    let ghost all = arg_bytes(args@);
    let mut input: Option<String> = None;
    let mut output: Option<String> = None;
    let mut stdout = false;
    let mut stats = false;
    let mut index: usize = 0;
    let ghost start = nothing_scanned();
    while index < args.len()
        invariant
            index <= args@.len(),
            all == arg_bytes(args@),
            start == nothing_scanned(),
            scan(all, 0, start) == scan(
                all,
                index as int,
                Scanned {
                    input: match input {
                        Some(s) => Some(string_bytes(s)),
                        None => None,
                    },
                    output: match output {
                        Some(s) => Some(string_bytes(s)),
                        None => None,
                    },
                    stdout,
                    stats,
                },
            ),
        decreases args@.len() - index,
    {
        let arg = text_bytes(&args[index]);
        proof {
            assert(all[index as int] == arg@);
            assert(all.len() == args@.len());
        }
        index += 1;
        if same(arg, "-o") || same(arg, "--output") {
            if index >= args.len() {
                let m = quoted("`", arg, "` needs a path");
                return Err(m);
            }
            let value = &args[index];
            proof {
                assert(all[index as int] == string_bytes(*value));
            }
            index += 1;
            if same(text_bytes(value), "-") {
                stdout = true;
            } else {
                output = Some(value.clone());
            }
        } else if same(arg, "--stats") {
            stats = true;
        } else if arg.len() > 0 && arg[0] == 45u8 && !same(arg, "-") {
            return Err(quoted("unknown option `", arg, "`"));
        } else {
            if input.is_some() {
                return Err(message("more than one input file"));
            }
            input = Some(args[index - 1].clone());
        }
    }
    match input {
        None => Err(message("no input file")),
        Some(input) => Ok(Options { input, output, stdout, stats }),
    }
}

/// Where the Cranium goes when no output path is given: the input with a
/// `.cra` extension.
pub fn default_output(input: &str) -> (r: String)
    ensures
        plain_name(input@) ==> r@ == name_with_extension(input@, "cra"@),
{
    proof {
        reveal_strlit("cra");
    }
    with_extension(input, "cra")
}

} // verus!
