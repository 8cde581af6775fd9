//! Cranium: a small structured language that compiles to Brainfuck.
//!
//! Cranium exists so that real programs can be *written* for the Brainfuck
//! runtimes in this crate. It has variables, arrays, signed and unsigned
//! arithmetic, comparisons, structured control flow, and functions, and it
//! lowers all of that onto a flat byte tape.
//!
//! A program can span several files: [`module`] resolves `import` by reading
//! each file once and splicing its items into one program, which is then
//! compiled exactly as a single file would be.
//!
//! The pipeline is [`lexer::tokenize`], [`parser::parse`], then
//! [`codegen::compile`]. Programs are lowered by inlining every call, so
//! recursion is rejected at compile time; everything else in the language works
//! the way it looks like it works.

pub mod ast;
pub mod lexer;
pub mod parser;
pub mod bf;
pub mod num;
pub mod array;
pub mod codegen;
pub mod module;

use vstd::prelude::*;
use crate::bytes::{decimal_chars, string_bytes};
use crate::cranium::bf::all_commands;
use crate::cranium::codegen::{compile, Output};
use crate::cranium::lexer::Span;
use vstd::string::StringSliceAdditionalSpecFns;
use crate::cranium::module::{gather, GatherError, Loader, Memory, SourceMap};

verus! {

/// The emitted program with a line break after every 72 commands, where the
/// first `n` bytes of `b` have been placed.
pub open spec fn wrapped_prefix(b: Seq<u8>, n: nat) -> Seq<u8>
    decreases n,
{
    if n == 0 {
        seq![]
    } else {
        wrapped_prefix(b, (n - 1) as nat) + (if n - 1 > 0 && (n - 1) % 72 == 0 {
            seq![10u8]
        } else {
            seq![]
        }) + seq![b[n - 1]]
    }
}

/// The emitted program broken into lines of 72, ending in a line break.
pub open spec fn wrapped(b: Seq<u8>) -> Seq<u8> {
    wrapped_prefix(b, b.len()) + seq![10u8]
}

/// Break an emitted program into lines so the file stays readable in an
/// editor; Brainfuck ignores everything that is not a command.
pub fn wrap(code: &str) -> (r: String)
    requires
        code.is_ascii(),
    ensures
        vstd::utf8::encode_utf8(r@) == wrapped(code.spec_bytes()),
{
    proof {
        vstd::string::is_ascii_spec_bytes(code);
    }
    let b = code.as_bytes();
    let mut out: Vec<u8> = Vec::new();
    let mut i: usize = 0;
    while i < b.len()
        invariant
            i <= b.len(),
            b@ == code.spec_bytes(),
            crate::bytes::all_ascii(b@),
            crate::bytes::all_ascii(out@),
            out@ == wrapped_prefix(b@, i as nat),
        decreases b.len() - i,
    {
        if i > 0 && i % 72 == 0 {
            out.push(10);
        }
        out.push(b[i]);
        i += 1;
    }
    out.push(10);
    crate::bytes::string_from_ascii(out)
}

/// A problem in the source, located in whichever file it came from.
#[derive(Debug, Clone, PartialEq, Eq)]
pub struct Error {
    /// Name of the file the problem is in.
    pub file: String,
    /// Line and column, when the problem has a position.
    pub position: Option<(usize, usize)>,
    /// Human readable description.
    pub message: String,
}

impl Error {
    /// The error as `file:line:column: message`, or `file: message` when it
    /// has no position.
    pub fn text(&self) -> (r: String)
        ensures
            r@ == error_text(*self),
    {
        let mut r = self.file.clone();
        r.append(":");
        if let Some((line, column)) = self.position {
            let l = decimal_string(line as u64);
            r.append(l.as_str());
            r.append(":");
            let c = decimal_string(column as u64);
            r.append(c.as_str());
            r.append(":");
        }
        r.append(" ");
        r.append(self.message.as_str());
        r
    }

    pub(crate) fn at(sources: &SourceMap, span: Span, message: String) -> (r: Self)
        ensures
            r.position == Some((span.line, span.column)),
            r.message == message,
            r.file@ == sources.file_name(span.file),
    {
        Error { file: sources.name(span.file).to_owned(), position: Some((span.line, span.column)), message }
    }

    pub(crate) fn from_gather(sources: &SourceMap, entry: &str, err: GatherError) -> (r: Self)
        ensures
            match err {
                GatherError::Lex(e) => r.position == Some((e.span.line, e.span.column)) && r.message
                    == e.message && r.file@ == sources.file_name(e.span.file),
                GatherError::Parse(e) => r.position == Some((e.span.line, e.span.column)) && r.message
                    == e.message && r.file@ == sources.file_name(e.span.file),
                GatherError::Load(e) => match e.span {
                    Some(span) => r.position == Some((span.line, span.column)) && r.message == e.message
                        && r.file@ == sources.file_name(span.file),
                    None => r.position is None && r.message == e.message && r.file@ == entry@,
                },
            },
    {
        match err {
            GatherError::Lex(err) => Self::at(sources, err.span, err.message),
            GatherError::Parse(err) => Self::at(sources, err.span, err.message),
            GatherError::Load(err) => match err.span {
                Some(span) => Self::at(sources, span, err.message),
                None => Error { file: entry.to_owned(), position: None, message: err.message },
            },
        }
    }
}

/// The decimal spelling of `n`.
fn decimal_string(n: u64) -> (r: String)
    ensures
        r@ == decimal_chars(n as nat),
{
    crate::bytes::decimal_text(n)
}

/// An error as `file:line:column: message`, or `file: message`.
pub open spec fn error_text(e: Error) -> Seq<char> {
    match e.position {
        Some((line, column)) => e.file@ + ":"@ + decimal_chars(line as nat) + ":"@ + decimal_chars(
            column as nat,
        ) + ":"@ + " "@ + e.message@,
        None => e.file@ + ":"@ + " "@ + e.message@,
    }
}

/// Compile a program that starts at `entry`, following its imports.
///
/// # Errors
///
/// Returns the first problem found, naming the file it is in.
pub fn compile_with<L: Loader>(entry: &str, loader: &mut L) -> (r: Result<Output, Error>)
    ensures
        r matches Ok(out) ==> all_commands(string_bytes(out.code)),
{
    // A failed gather still hands back the files it read, so an error inside an
    // imported file names that file rather than the entry point.
    let loaded = match gather(entry, loader) {
        Ok(loaded) => loaded,
        Err(failure) => {
            return Err(Error::from_gather(&failure.sources, entry, failure.error));
        },
    };
    match compile(&loaded.program) {
        Ok(out) => Ok(out),
        Err(err) => Err(Error::at(&loaded.sources, err.span, err.message)),
    }
}

/// Compile a single detached source string.
///
/// The source has no file to resolve imports against, so an `import` in it is
/// an error; use [`compile_with`] for a project.
///
/// # Errors
///
/// Returns the first lexical, syntactic, or semantic problem found.
pub fn compile_str(source: &str) -> (r: Result<Output, Error>)
    ensures
        r matches Ok(out) ==> all_commands(string_bytes(out.code)),
{
    let files = [("<source>", source)];
    let mut loader = Memory::new(&files);
    compile_with("<source>", &mut loader)
}

} // verus!
