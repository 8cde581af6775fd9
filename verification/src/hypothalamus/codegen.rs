//! Options for native code generation.
//!
//! These describe the target-neutral pieces of a generated module: the tape,
//! bounds checking, stream mode, and which runtime the program calls into. The
//! lowering onto a native code generator itself lives with the command-line
//! tool.

use vstd::prelude::*;
use vstd::string::StringSliceAdditionalSpecFns;
use crate::bytes::str_eq;

verus! {

/// Symbol names for freestanding module generation.
#[derive(Debug, Clone)]
pub struct FreestandingOptions {
    /// Name of the generated entry function, of signature `void ()`.
    pub entry_symbol: String,
    /// Name of the external byte-output hook, of signature `void (i8)`.
    pub putchar_symbol: String,
    /// Name of the external byte-input hook, of signature `i32 ()`, returning
    /// `-1` for end of input.
    pub getchar_symbol: String,
}

impl FreestandingOptions {
    /// Whether these are the conventional `bf_main`, `bf_putchar` and
    /// `bf_getchar`.
    pub open spec fn is_default(&self) -> bool {
        &&& self.entry_symbol@ == "bf_main"@
        &&& self.putchar_symbol@ == "bf_putchar"@
        &&& self.getchar_symbol@ == "bf_getchar"@
    }
}

impl Default for FreestandingOptions {
    fn default() -> (r: Self)
        ensures
            r.is_default(),
    {
        FreestandingOptions {
            entry_symbol: "bf_main".to_owned(),
            putchar_symbol: "bf_putchar".to_owned(),
            getchar_symbol: "bf_getchar".to_owned(),
        }
    }
}

/// Runtime ABI used by generated modules.
#[derive(Debug, Clone)]
pub enum Runtime {
    /// A hosted C-style `main` calling libc `putchar` and `getchar`.
    Hosted,
    /// A freestanding entry point calling externally supplied I/O hooks.
    Freestanding(FreestandingOptions),
}

/// Options controlling module generation.
#[derive(Debug, Clone)]
pub struct CodegenOptions {
    /// Number of byte cells in the tape; must be greater than zero.
    pub tape_size: usize,
    /// Trap on any access outside the tape.
    pub bounds_check: bool,
    /// Put the hosted standard streams into binary mode on Windows.
    pub binary_stdio: bool,
    /// Runtime ABI of the generated module.
    pub runtime: Runtime,
}

impl Default for CodegenOptions {
    fn default() -> (r: Self)
        ensures
            r.tape_size == crate::DEFAULT_TAPE_SIZE,
            !r.bounds_check,
            r.binary_stdio,
            r.runtime is Hosted,
    {
        CodegenOptions {
            tape_size: crate::DEFAULT_TAPE_SIZE,
            bounds_check: false,
            binary_stdio: true,
            runtime: Runtime::Hosted,
        }
    }
}


/// Why a runtime's symbol names cannot be used.
#[derive(Debug, Clone, PartialEq, Eq)]
pub enum SymbolError {
    /// A name an object symbol cannot carry.
    InvalidSymbolName {
        /// Human-readable role for the invalid symbol.
        kind: &'static str,
        /// Invalid symbol name.
        name: String,
    },
    /// Two runtime symbols were configured with the same name.
    DuplicateSymbolName(String),
}

impl SymbolError {
    /// The error as text.
    pub fn text(&self) -> (r: String)
        ensures
            r@ == match self {
                SymbolError::InvalidSymbolName { kind, name } => "invalid "@ + kind@ + " symbol name `"@
                    + name@ + "`"@,
                SymbolError::DuplicateSymbolName(name) => "runtime symbol name `"@ + name@
                    + "` is used more than once"@,
            },
    {
        match self {
            SymbolError::InvalidSymbolName { kind, name } => {
                let mut m = "invalid ".to_owned();
                m.append(kind);
                m.append(" symbol name `");
                m.append(name.as_str());
                m.append("`");
                m
            },
            SymbolError::DuplicateSymbolName(name) => {
                let mut m = "runtime symbol name `".to_owned();
                m.append(name.as_str());
                m.append("` is used more than once");
                m
            },
        }
    }
}

/// A byte an assembler and a linker both take in a symbol: an ASCII letter
/// or digit, `_`, `.` or `$`.
pub open spec fn linker_symbol_byte(b: u8) -> bool {
    (48 <= b <= 57) || (65 <= b <= 90) || (97 <= b <= 122) || b == 95 || b == 46 || b == 36
}

/// A name an assembler and a linker both take verbatim: nonempty, not
/// starting with a digit, and made of [`linker_symbol_byte`]s.
pub open spec fn linker_symbol(name: Seq<u8>) -> bool {
    &&& name.len() >= 1
    &&& !(48 <= name[0] <= 57)
    &&& forall|i: int| 0 <= i < name.len() ==> linker_symbol_byte(#[trigger] name[i])
}

/// Accept the symbol names an assembler and a linker will both take verbatim.
pub fn is_valid_symbol_name(name: &str) -> (r: bool)
    ensures
        r == linker_symbol(name.spec_bytes()),
{
    let b = name.as_bytes();
    if b.len() == 0 {
        return false;
    }
    if 48 <= b[0] && b[0] <= 57 {
        return false;
    }
    let mut k: usize = 0;
    while k < b.len()
        invariant
            k <= b@.len(),
            b@ == name.spec_bytes(),
            forall|i: int| 0 <= i < k ==> linker_symbol_byte(#[trigger] b@[i]),
        decreases b@.len() - k,
    {
        let c = b[k];
        if !((48 <= c && c <= 57) || (65 <= c && c <= 90) || (97 <= c && c <= 122) || c == 95 || c == 46 || c
            == 36) {
            assert(!linker_symbol_byte(b@[k as int]));
            return false;
        }
        k += 1;
    }
    true
}

/// What is wrong with a runtime's names, checked in order: the entry,
/// putchar and getchar names (`1`, `2`, `3`), then a repeated name (`4`).
pub open spec fn symbol_problem(rt: Runtime) -> Option<(int, Seq<char>)> {
    match rt {
        Runtime::Hosted => None,
        Runtime::Freestanding(o) => if !linker_symbol(vstd::utf8::encode_utf8(o.entry_symbol@)) {
            Some((1, o.entry_symbol@))
        } else if !linker_symbol(vstd::utf8::encode_utf8(o.putchar_symbol@)) {
            Some((2, o.putchar_symbol@))
        } else if !linker_symbol(vstd::utf8::encode_utf8(o.getchar_symbol@)) {
            Some((3, o.getchar_symbol@))
        } else if o.entry_symbol@ == o.putchar_symbol@ || o.entry_symbol@ == o.getchar_symbol@ {
            Some((4, o.entry_symbol@))
        } else if o.putchar_symbol@ == o.getchar_symbol@ {
            Some((4, o.putchar_symbol@))
        } else {
            None
        },
    }
}

/// An error as plain values: the problem code and the name it is about.
pub open spec fn symbol_error_view(e: SymbolError) -> (int, Seq<char>) {
    match e {
        SymbolError::InvalidSymbolName { kind, name } => (
            if kind@ == "entry"@ {
                1int
            } else if kind@ == "putchar"@ {
                2
            } else {
                3
            },
            name@,
        ),
        SymbolError::DuplicateSymbolName(name) => (4, name@),
    }
}

fn check_symbol(kind: &'static str, name: &String) -> (r: Result<(), SymbolError>)
    ensures
        r is Ok <==> linker_symbol(vstd::utf8::encode_utf8(name@)),
        r matches Err(SymbolError::InvalidSymbolName { kind: k, name: n }) ==> k == kind && n@ == name@,
        r matches Err(e) ==> e is InvalidSymbolName,
{
    if is_valid_symbol_name(name.as_str()) {
        Ok(())
    } else {
        Err(SymbolError::InvalidSymbolName { kind, name: name.clone() })
    }
}

/// Check that a freestanding runtime's names can all be emitted and are
/// distinct; a hosted runtime has nothing to check.
pub fn validate_runtime(runtime: &Runtime) -> (r: Result<(), SymbolError>)
    ensures
        match symbol_problem(*runtime) {
            Some(p) => r matches Err(e) && symbol_error_view(e) == p,
            None => r is Ok,
        },
{
    let options = match runtime {
        Runtime::Hosted => {
            return Ok(());
        },
        Runtime::Freestanding(options) => options,
    };
    if let Err(e) = check_symbol("entry", &options.entry_symbol) {
        proof {
            reveal_strlit("entry");
        }
        return Err(e);
    }
    if let Err(e) = check_symbol("putchar", &options.putchar_symbol) {
        proof {
            assert("putchar"@ != "entry"@) by {
                reveal_strlit("putchar");
                reveal_strlit("entry");
                assert("putchar"@[0] != "entry"@[0]);
            }
        }
        return Err(e);
    }
    if let Err(e) = check_symbol("getchar", &options.getchar_symbol) {
        proof {
            assert("getchar"@ != "entry"@ && "getchar"@ != "putchar"@) by {
                reveal_strlit("putchar");
                reveal_strlit("entry");
                reveal_strlit("getchar");
                assert("getchar"@[0] != "entry"@[0]);
                assert("getchar"@[0] != "putchar"@[0]);
            }
        }
        return Err(e);
    }
    if str_eq(options.entry_symbol.as_str(), options.putchar_symbol.as_str()) || str_eq(
        options.entry_symbol.as_str(),
        options.getchar_symbol.as_str(),
    ) {
        return Err(SymbolError::DuplicateSymbolName(options.entry_symbol.clone()));
    }
    if str_eq(options.putchar_symbol.as_str(), options.getchar_symbol.as_str()) {
        return Err(SymbolError::DuplicateSymbolName(options.putchar_symbol.clone()));
    }
    Ok(())
}

} // verus!
