//! Turning a file and its `import`s into one program.
//!
//! Cranium has no runtime linker to defer anything to, so imports are resolved
//! before compiling: every file is read once, its items are spliced into a
//! single [`Program`], and the result is compiled exactly as a single file
//! would be. There is one namespace across the whole program, so two files
//! cannot both define `helper`.
//!
//! A file's imports are placed ahead of its own items, which is what makes
//! `const` and global initializers see the definitions they depend on.
//! Importing the same file twice is not an error - the second import is
//! ignored, so diamonds work - but a cycle is, because there is no order in
//! which such files could be laid out.

use vstd::prelude::*;
use vstd::string::StringSliceAdditionalSpecFns;
use crate::bytes::str_eq;
use crate::cranium::ast::{Item, Program};
use crate::cranium::lexer::{LexError, Span, Token, in_file, lemma_lexed_ends_with_eof, lex_from, tokenize};
use crate::cranium::parser::{ParseError, parse, stream_ok, lx};

verus! {

/// Index of a file in a [`SourceMap`].
pub type FileId = usize;

/// The files a program was built from, so a [`Span`] can name one.
#[derive(Debug, Clone)]
pub struct SourceMap {
    names: Vec<String>,
}

impl Default for SourceMap {
    fn default() -> (r: Self)
        ensures
            r.view().len() == 0,
    {
        SourceMap { names: Vec::new() }
    }
}

impl SourceMap {
    /// The file names, in the order they were read.
    pub closed spec fn view(&self) -> Seq<Seq<char>> {
        Seq::new(self.names@.len(), |i: int| self.names@[i]@)
    }

    /// Record a file and return the id spans in it will carry.
    fn add(&mut self, name: &str) -> (r: FileId)
        ensures
            final(self).view() == old(self).view().push(name@),
            r == old(self).view().len(),
    {
        self.names.push(name.to_owned());
        proof {
            assert(self.view() =~= old(self).view().push(name@));
        }
        self.names.len() - 1
    }

    /// The name a file was read under, or `<unknown>` for no file.
    pub open spec fn file_name(&self, file: FileId) -> Seq<char> {
        if file < self.view().len() {
            self.view()[file as int]
        } else {
            "<unknown>"@
        }
    }

    /// The name a file was read under.
    pub fn name(&self, file: FileId) -> (r: &str)
        ensures
            r@ == self.file_name(file),
            file < self.view().len() ==> r@ == self.view()[file as int],
            file >= self.view().len() ==> r@ == "<unknown>"@,
    {
        if file < self.names.len() {
            self.names[file].as_str()
        } else {
            "<unknown>"
        }
    }

    /// How many files the program was built from.
    pub fn len(&self) -> (r: usize)
        ensures
            r == self.view().len(),
    {
        self.names.len()
    }

    /// True when no file has been recorded.
    pub fn is_empty(&self) -> (r: bool)
        ensures
            r == (self.view().len() == 0),
    {
        self.names.len() == 0
    }

    /// Every file name, in the order they were read.
    pub fn names(&self) -> (r: Vec<String>)
        ensures
            r@.len() == self.view().len(),
            forall|i: int| 0 <= i < r@.len() ==> (#[trigger] r@[i])@ == self.view()[i],
    {
        let mut out: Vec<String> = Vec::new();
        let mut k: usize = 0;
        while k < self.names.len()
            invariant
                k <= self.names@.len(),
                out@.len() == k,
                forall|i: int| 0 <= i < k ==> (#[trigger] out@[i])@ == self.names@[i]@,
            decreases self.names@.len() - k,
        {
            out.push(self.names[k].clone());
            k += 1;
        }
        out
    }
}

/// A problem finding or reading an imported file.
#[derive(Debug, Clone, PartialEq, Eq)]
pub struct LoadError {
    /// Human readable description.
    pub message: String,
    /// The import that caused it, when there was one.
    pub span: Option<Span>,
}

impl LoadError {
    /// The error's message.
    pub fn text(&self) -> (r: String)
        ensures
            r@ == self.message@,
    {
        self.message.clone()
    }
}

/// The prefix that names the bundled library.
///
/// It is reserved: a directory called `std` beside a program does not shadow
/// it, so an import means the same thing wherever the program is compiled.
pub const STD_PREFIX: &'static str = "std/";

/// The name of the bundled graphics file.
pub const STD_GFX_NAME: &'static str = "std/gfx.cra";

/// The bundled graphics file: terminal graphics out of half blocks.
pub const STD_GFX: &'static str = "// Terminal graphics out of half blocks.
//
// Each character cell shows two pixels: the upper one in the foreground
// colour and the lower one in the background colour of U+2580. A program
// defines `shade(x: byte, y: byte)`, which picks a pixel's colour with
// `set_rgb`, and calls `present` to draw a frame of `gfx_w` by `gfx_h`
// pixels. `home` before each frame draws it in place.

let gfx_w: byte = 64;
let gfx_h: byte = 32;
let gfx_r: byte = 0;
let gfx_g: byte = 0;
let gfx_b: byte = 0;

fn set_rgb(r: byte, g: byte, b: byte) {
    gfx_r = r;
    gfx_g = g;
    gfx_b = b;
}

fn hide_cursor() {
    print(\"\\e[?25l\");
}

fn show_cursor() {
    print(\"\\e[?25h\");
}

fn home() {
    print(\"\\e[H\");
}

fn clear() {
    print(\"\\e[2J\");
    home();
}

fn reset_color() {
    print(\"\\e[0m\");
}

fn present() {
    let y: byte = 0;
    while y < gfx_h {
        let x: byte = 0;
        while x < gfx_w {
            shade(x, y);
            print(\"\\e[38;2;\", gfx_r, \";\", gfx_g, \";\", gfx_b, \"m\");
            shade(x, y + 1);
            print(\"\\e[48;2;\", gfx_r, \";\", gfx_g, \";\", gfx_b, \"m\");
            print(\"\\xe2\\x96\\x80\");
            x += 1;
        }
        reset_color();
        print(\"\\n\");
        y += 2;
    }
}
";

/// Return the bundled source for `name`, if there is one.
///
/// `import "std/gfx.cra"` is answered from here rather than from a
/// [`Loader`], so a program can use the library with nothing installed beside
/// it and no copy to keep up to date.
pub fn std_source(name: &str) -> (r: Option<&'static str>)
    ensures
        match r {
            Some(s) => name@ == STD_GFX_NAME@ && s@ == STD_GFX@,
            None => name@ != STD_GFX_NAME@,
        },
{
    if crate::bytes::str_eq(name, STD_GFX_NAME) {
        Some(STD_GFX)
    } else {
        None
    }
}

/// The library name an import written inside `from` means: the path itself
/// when its UTF-8 starts with the library's prefix, the path beside `from` when
/// `from` is in the library, and otherwise none.
pub open spec fn std_import_name(from: Seq<char>, path: Seq<char>) -> Option<Seq<char>> {
    let p = vstd::utf8::encode_utf8(path);
    let f = vstd::utf8::encode_utf8(from);
    let std = STD_PREFIX.spec_bytes();
    if std.len() <= p.len() && p.subrange(0, std.len() as int) == std {
        Some(path)
    } else if std.len() <= f.len() && f.subrange(0, std.len() as int) == std {
        Some(STD_PREFIX@ + path)
    } else {
        None
    }
}

/// Resolve an import written inside `from` against the bundled library.
///
/// Returns `None` when the import is nothing to do with the library, so the
/// caller should ask the loader instead.
pub fn resolve_std(from: &str, path: &str) -> (r: Option<Result<String, String>>)
    ensures
        match std_import_name(from@, path@) {
            None => r is None,
            Some(name) => if name == STD_GFX_NAME@ {
                r matches Some(Ok(n)) && n@ == name
            } else {
                r matches Some(Err(m)) && m@ == "no `"@ + name
                    + "` in the standard library; it has "@ + STD_GFX_NAME@
            },
        },
{
    // A file in the library may import a sibling by its bare name.
    let name = if crate::bytes::starts_with(path.as_bytes(), STD_PREFIX.as_bytes()) {
        path.to_owned()
    } else if crate::bytes::starts_with(from.as_bytes(), STD_PREFIX.as_bytes()) {
        let mut n = STD_PREFIX.to_owned();
        n.append(path);
        n
    } else {
        return None;
    };
    if std_source(name.as_str()).is_some() {
        return Some(Ok(name));
    }
    let mut m = "no `".to_owned();
    m.append(name.as_str());
    m.append("` in the standard library; it has ");
    m.append(STD_GFX_NAME);
    Some(Err(m))
}

/// Where source text comes from.
///
/// Splitting this out keeps the compiler testable without a filesystem, and
/// leaves room for reading a project out of somewhere other than disk.
pub trait Loader {
    /// Turn `path`, as written in an import inside `from`, into the canonical
    /// name of the file it means. The same file must always produce the same
    /// name, since that is what stops it being read twice.
    fn resolve(&mut self, from: &str, path: &str) -> Result<String, String>;

    /// Read a file by canonical name.
    fn read(&mut self, name: &str) -> Result<String, String>;
}

/// Serves files held in memory, keyed by exactly the name an import writes.
#[derive(Debug, Clone)]
pub struct Memory {
    files: Vec<(String, String)>,
}

impl Memory {
    /// The files served, as `(name, source)` pairs.
    pub closed spec fn view(&self) -> Seq<(Seq<char>, Seq<char>)> {
        Seq::new(self.files@.len(), |i: int| (self.files@[i].0@, self.files@[i].1@))
    }

    /// Build a loader over `(name, source)` pairs.
    pub fn new(files: &[(&str, &str)]) -> (r: Self)
        ensures
            r.view() == Seq::new(files@.len(), |i: int| (files@[i].0@, files@[i].1@)),
    {
        let mut out: Vec<(String, String)> = Vec::new();
        let mut k: usize = 0;
        while k < files.len()
            invariant
                k <= files@.len(),
                out@.len() == k,
                forall|i: int| 0 <= i < k ==> (#[trigger] out@[i]).0@ == files@[i].0@ && out@[i].1@ == files@[i].1@,
            decreases files@.len() - k,
        {
            let (name, source) = files[k];
            out.push((name.to_owned(), source.to_owned()));
            k += 1;
        }
        let r = Memory { files: out };
        proof {
            assert(r.view() =~= Seq::new(files@.len(), |i: int| (files@[i].0@, files@[i].1@)));
        }
        r
    }

    fn find(&self, name: &str) -> (r: Option<usize>)
        ensures
            r matches Some(i) ==> i < self.files@.len() && self.view()[i as int].0 == name@ && (forall|
                j: int,
            | 0 <= j < i ==> self.view()[j].0 != name@),
            r is None ==> forall|j: int| 0 <= j < self.view().len() ==> self.view()[j].0 != name@,
    {
        let mut k: usize = 0;
        while k < self.files.len()
            invariant
                k <= self.files@.len(),
                forall|j: int| 0 <= j < k ==> self.view()[j].0 != name@,
            decreases self.files@.len() - k,
        {
            if str_eq(self.files[k].0.as_str(), name) {
                return Some(k);
            }
            k += 1;
        }
        None
    }

    /// Whether a file is served under `name`.
    pub open spec fn serves(&self, name: Seq<char>) -> bool {
        exists|i: int| 0 <= i < self.view().len() && self.view()[i].0 == name
    }

    /// The source served under `name`: that of the first file so named.
    pub open spec fn first_source(&self, name: Seq<char>, source: Seq<char>) -> bool {
        exists|i: int|
            0 <= i < self.view().len() && self.view()[i].0 == name && self.view()[i].1 == source && (forall|
                j: int,
            | 0 <= j < i ==> self.view()[j].0 != name)
    }
}

impl Loader for Memory {
    fn resolve(&mut self, from: &str, path: &str) -> (r: Result<String, String>)
        ensures
            *final(self) == *old(self),
            old(self).serves(path@) ==> (r matches Ok(n) && n@ == path@),
            !old(self).serves(path@) ==> (r matches Err(m) && m@ == "cannot find `"@ + path@ + "`"@),
    {
        if self.find(path).is_some() {
            Ok(path.to_owned())
        } else {
            let mut m = "cannot find `".to_owned();
            m.append(path);
            m.append("`");
            Err(m)
        }
    }

    fn read(&mut self, name: &str) -> (r: Result<String, String>)
        ensures
            *final(self) == *old(self),
            old(self).serves(name@) ==> (r matches Ok(t) && old(self).first_source(name@, t@)),
            !old(self).serves(name@) ==> (r matches Err(m) && m@ == "cannot read `"@ + name@ + "`"@),
    {
        match self.find(name) {
            Some(k) => {
                let t = self.files[k].1.clone();
                assert(self.view()[k as int].1 == t@);
                Ok(t)
            },
            None => {
                let mut m = "cannot read `".to_owned();
                m.append(name);
                m.append("`");
                Err(m)
            },
        }
    }
}
/// Refuses every import, for callers compiling a single detached string.
#[derive(Debug, Clone, Copy)]
pub struct NoImports;

impl Loader for NoImports {
    fn resolve(&mut self, from: &str, path: &str) -> (r: Result<String, String>)
        ensures
            r matches Err(m) && m@ == "cannot import `"@ + path@
                + "`: this source has no file to resolve it against"@,
    {
        let mut m = "cannot import `".to_owned();
        m.append(path);
        m.append("`: this source has no file to resolve it against");
        Err(m)
    }

    fn read(&mut self, name: &str) -> (r: Result<String, String>)
        ensures
            r matches Err(m) && m@ == "cannot read `"@ + name@ + "`"@,
    {
        let mut m = "cannot read `".to_owned();
        m.append(name);
        m.append("`");
        Err(m)
    }
}

/// A program gathered from one or more files.
#[derive(Debug)]
pub struct Loaded {
    /// Every item, imports first and already spliced in.
    pub program: Program,
    /// The files it came from.
    pub sources: SourceMap,
}

/// What went wrong while gathering a program.
#[derive(Debug, Clone, PartialEq)]
pub enum GatherError {
    /// A file could not be found or read.
    Load(LoadError),
    /// A file could not be tokenized.
    Lex(LexError),
    /// A file could not be parsed.
    Parse(ParseError),
}

impl GatherError {
    /// The error's message.
    pub fn text(&self) -> (r: String)
        ensures
            r@ == match self {
                GatherError::Load(err) => err.message@,
                GatherError::Lex(err) => err.message@,
                GatherError::Parse(err) => err.message@,
            },
    {
        match self {
            GatherError::Load(err) => err.message.clone(),
            GatherError::Lex(err) => err.message.clone(),
            GatherError::Parse(err) => err.message.clone(),
        }
    }
}

/// A failed gather, carrying the files read so far so the error can still name
/// the one it happened in.
#[derive(Debug, Clone)]
pub struct GatherFailure {
    /// Files read before the failure.
    pub sources: SourceMap,
    /// What went wrong.
    pub error: GatherError,
}

/// How deeply imports may nest before gathering gives up.
pub const MAX_IMPORT_DEPTH: usize = 256;

struct Gatherer {
    sources: SourceMap,
    items: Vec<Item>,
    finished: Vec<String>,
    in_progress: Vec<String>,
}

/// Where `name` is among `names`, if anywhere.
fn position(names: &Vec<String>, name: &str) -> (r: Option<usize>)
    ensures
        r matches Some(i) ==> i < names@.len() && names@[i as int]@ == name@,
        r is None ==> forall|i: int| 0 <= i < names@.len() ==> (#[trigger] names@[i])@ != name@,
{
    let mut k: usize = 0;
    while k < names.len()
        invariant
            k <= names@.len(),
            forall|i: int| 0 <= i < k ==> (#[trigger] names@[i])@ != name@,
        decreases names@.len() - k,
    {
        if str_eq(names[k].as_str(), name) {
            return Some(k);
        }
        k += 1;
    }
    None
}

/// Read `entry` and everything it imports into a single program.
///
/// The entry is read first and every file at most once, however many files
/// import it; the program that comes back holds no imports.
///
/// # Errors
///
/// Returns the first file that could not be found, read, tokenized, or parsed,
/// or a [`GatherError::Load`] describing an import cycle.
pub fn gather<L: Loader>(entry: &str, loader: &mut L) -> (r: Result<Loaded, GatherFailure>)
    ensures
        r matches Ok(l) ==> no_imports(l.program.items@) && l.sources.view().len() >= 1
            && l.sources.view()[0] == entry@ && distinct_names(l.sources.view()),
{
    let mut gatherer = Gatherer {
        sources: SourceMap::default(),
        items: Vec::new(),
        finished: Vec::new(),
        in_progress: Vec::new(),
    };
    match gatherer.visit(loader, entry, None) {
        Ok(()) => Ok(Loaded { program: Program { items: gatherer.items }, sources: gatherer.sources }),
        Err(error) => Err(GatherFailure { sources: gatherer.sources, error }),
    }
}

/// Whether a list of items holds no import: what gathering leaves behind.
pub open spec fn no_imports(items: Seq<Item>) -> bool {
    forall|i: int| 0 <= i < items.len() ==> !(#[trigger] items[i] is Import)
}

/// Whether `name` is among `names`.
spec fn listed(names: Seq<String>, name: Seq<char>) -> bool {
    exists|i: int| 0 <= i < names.len() && (#[trigger] names[i])@ == name
}

/// Whether no name occurs twice.
pub open spec fn distinct_names(v: Seq<Seq<char>>) -> bool {
    forall|i: int, j: int| 0 <= i < j < v.len() ==> v[i] != v[j]
}

/// Every file read so far is finished or still being read.
spec fn covered(v: Seq<Seq<char>>, finished: Seq<String>, in_progress: Seq<String>) -> bool {
    forall|i: int| 0 <= i < v.len() ==> listed(finished, #[trigger] v[i]) || listed(in_progress, v[i])
}

/// Every name listed in `a` is listed in `b`.
spec fn grows(a: Seq<String>, b: Seq<String>) -> bool {
    forall|n: Seq<char>| listed(a, n) ==> #[trigger] listed(b, n)
}

proof fn lemma_listed_push(names: Seq<String>, x: String)
    ensures
        listed(names.push(x), x@),
        grows(names, names.push(x)),
        forall|n: Seq<char>| #[trigger] listed(names.push(x), n) ==> listed(names, n) || n == x@,
{
    let p = names.push(x);
    assert(p[names.len() as int] == x);
    assert forall|n: Seq<char>| listed(names, n) implies #[trigger] listed(p, n) by {
        let i = choose|i: int| 0 <= i < names.len() && (#[trigger] names[i])@ == n;
        assert(p[i] == names[i]);
    }
    assert forall|n: Seq<char>| #[trigger] listed(p, n) implies listed(names, n) || n == x@ by {
        let i = choose|i: int| 0 <= i < p.len() && (#[trigger] p[i])@ == n;
        if i < names.len() {
            assert(p[i] == names[i]);
        }
    }
}

impl Gatherer {
    fn visit<L: Loader>(&mut self, loader: &mut L, name: &str, from: Option<Span>) -> (r: Result<(), GatherError>)
        requires
            old(self).in_progress@.len() <= MAX_IMPORT_DEPTH,
            no_imports(old(self).items@),
            distinct_names(old(self).sources.view()),
            covered(old(self).sources.view(), old(self).finished@, old(self).in_progress@),
        ensures
            r is Ok ==> final(self).in_progress@ == old(self).in_progress@,
            r is Ok ==> distinct_names(final(self).sources.view()) && covered(
                final(self).sources.view(),
                final(self).finished@,
                final(self).in_progress@,
            ) && grows(old(self).finished@, final(self).finished@),
            no_imports(final(self).items@),
            old(self).sources.view().len() <= final(self).sources.view().len(),
            final(self).sources.view().take(old(self).sources.view().len() as int)
                == old(self).sources.view(),
            r is Ok && !listed(old(self).finished@, name@) ==> old(self).sources.view().len()
                < final(self).sources.view().len() && final(self).sources.view()[old(
                self,
            ).sources.view().len() as int] == name@,
            !listed(old(self).finished@, name@) && listed(old(self).in_progress@, name@) ==> (r
                matches Err(GatherError::Load(e)) && e.span == from && exists|chain: Seq<char>|
                e.message@ == "import cycle: "@ + chain + name@),
        decreases MAX_IMPORT_DEPTH - old(self).in_progress@.len(),
    {
        if position(&self.finished, name).is_some() {
            return Ok(());
        }
        if let Some(start) = position(&self.in_progress, name) {
            let mut m = "import cycle: ".to_owned();
            let ghost mut chain: Seq<char> = Seq::empty();
            proof {
                reveal_strlit("import cycle: ");
            }
            let mut k = start;
            while k < self.in_progress.len()
                invariant
                    k <= self.in_progress@.len(),
                    m@ == "import cycle: "@ + chain,
                decreases self.in_progress@.len() - k,
            {
                let ghost before = m@;
                m.append(self.in_progress[k].as_str());
                m.append(" -> ");
                proof {
                    chain = chain + self.in_progress@[k as int]@ + " -> "@;
                    assert(m@ =~= "import cycle: "@ + chain);
                }
                k += 1;
            }
            m.append(name);
            proof {
                assert(m@ =~= "import cycle: "@ + chain + name@);
            }
            return Err(GatherError::Load(LoadError { message: m, span: from }));
        }
        if self.in_progress.len() >= MAX_IMPORT_DEPTH {
            return Err(
                GatherError::Load(LoadError { message: "imports are nested too deeply".to_owned(), span: from }),
            );
        }

        let source = match std_source(name) {
            Some(source) => source.to_owned(),
            None => match loader.read(name) {
                Ok(text) => text,
                Err(message) => {
                    return Err(GatherError::Load(LoadError { message, span: from }));
                },
            },
        };

        let ghost before_add = self.sources.view();
        let file = self.sources.add(name);
        let ghost after_add = self.sources.view();
        proof {
            assert(after_add.take(old(self).sources.view().len() as int) =~= old(self).sources.view());
            assert forall|i: int, j: int| 0 <= i < j < after_add.len() implies after_add[i] != after_add[j] by {
                if j == before_add.len() {
                    assert(after_add[i] == before_add[i]);
                    assert(listed(self.finished@, before_add[i]) || listed(self.in_progress@, before_add[i]));
                } else {
                    assert(after_add[i] == before_add[i] && after_add[j] == before_add[j]);
                }
            }
        }
        let text: &str = source.as_str();
        if text.as_bytes().len() > 0x7fff_ffff {
            return Err(
                GatherError::Load(LoadError { message: "the file is too large to compile".to_owned(), span: from }),
            );
        }
        let tokens = match tokenize(text) {
            Ok(tokens) => tokens,
            Err(err) => {
                let span = Span { file, line: err.span.line, column: err.span.column };
                return Err(GatherError::Lex(LexError { message: err.message, span }));
            },
        };
        proof {
            lemma_lexed_ends_with_eof(text.spec_bytes(), 0);
        }
        let tokens = in_file(tokens, file);
        proof {
            let n = tokens@.len() - 1;
            assert(lx(tokens@, n) is Eof);
        }
        let program = match parse(tokens) {
            Ok(program) => program,
            Err(err) => {
                return Err(GatherError::Parse(err));
            },
        };

        let ghost progress_before = self.in_progress@;
        self.in_progress.push(name.to_owned());
        proof {
            assert(self.in_progress@.drop_last() =~= old(self).in_progress@);
            lemma_listed_push(progress_before, self.in_progress@.last());
            assert(self.in_progress@ =~= progress_before.push(self.in_progress@.last()));
            assert forall|i: int| 0 <= i < after_add.len() implies listed(self.finished@, #[trigger] after_add[i])
                || listed(self.in_progress@, after_add[i]) by {
                if i < before_add.len() {
                    assert(after_add[i] == before_add[i]);
                }
            }
            assert(grows(old(self).finished@, self.finished@));
        }
        let mut own: Vec<Item> = Vec::new();
        let mut reversed: Vec<Item> = Vec::new();
        let mut items = program.items;
        while items.len() > 0
            invariant
                no_imports(self.items@),
                self.sources.view() == after_add,
            decreases items@.len(),
        {
            let item = items.pop().unwrap();
            reversed.push(item);
        }
        while reversed.len() > 0
            invariant
                self.in_progress@.len() == old(self).in_progress@.len() + 1,
                self.in_progress@.drop_last() == old(self).in_progress@,
                self.in_progress@.len() <= MAX_IMPORT_DEPTH,
                no_imports(self.items@),
                no_imports(own@),
                after_add.len() <= self.sources.view().len(),
                self.sources.view().take(after_add.len() as int) == after_add,
                after_add.len() == old(self).sources.view().len() + 1,
                after_add[old(self).sources.view().len() as int] == name@,
                !listed(old(self).in_progress@, name@),
                after_add.take(old(self).sources.view().len() as int) == old(self).sources.view(),
                self.in_progress@.last()@ == name@,
                distinct_names(self.sources.view()),
                covered(self.sources.view(), self.finished@, self.in_progress@),
                grows(old(self).finished@, self.finished@),
            decreases reversed@.len(),
        {
            let item = reversed.pop().unwrap();
            match item {
                Item::Import { path, span } => {
                    // The bundled library is answered before the loader is
                    // asked, so it reaches every loader and cannot be shadowed
                    // by a directory that happens to be called `std`.
                    let resolved = match resolve_std(name, path.as_str()) {
                        Some(r) => r,
                        None => loader.resolve(name, path.as_str()),
                    };
                    let target = match resolved {
                        Ok(t) => t,
                        Err(message) => {
                            return Err(GatherError::Load(LoadError { message, span: Some(span) }));
                        },
                    };
                    let ghost before = self.sources.view();
                    self.visit(loader, target.as_str(), Some(span))?;
                    proof {
                        assert(self.sources.view().take(after_add.len() as int) =~= before.take(
                            after_add.len() as int,
                        ));
                    }
                },
                other => {
                    own.push(other);
                },
            }
        }
        let ghost full = self.in_progress@;
        let ghost finished_before = self.finished@;
        self.in_progress.pop();
        proof {
            assert(self.in_progress@ =~= old(self).in_progress@);
            assert(full =~= old(self).in_progress@.push(full.last()));
            lemma_listed_push(old(self).in_progress@, full.last());
        }
        self.finished.push(name.to_owned());
        proof {
            lemma_listed_push(finished_before, self.finished@.last());
            assert(self.finished@ =~= finished_before.push(self.finished@.last()));
            let v = self.sources.view();
            assert forall|i: int| 0 <= i < v.len() implies listed(self.finished@, #[trigger] v[i]) || listed(
                self.in_progress@,
                v[i],
            ) by {
                if listed(full, v[i]) {
                    assert(listed(old(self).in_progress@, v[i]) || v[i] == full.last()@);
                }
            }
            assert forall|n: Seq<char>| listed(old(self).finished@, n) implies #[trigger] listed(self.finished@, n) by {
                assert(listed(finished_before, n));
            }
        }

        // A file's own items come after everything it imported, so constants
        // and globals it depends on are already in place.
        let ghost kept = self.items@;
        let ghost added = own@;
        self.items.append(&mut own);
        proof {
            assert forall|i: int| 0 <= i < self.items@.len() implies !(#[trigger] self.items@[i] is Import) by {
                if i >= kept.len() {
                    assert(self.items@[i] == added[i - kept.len()]);
                }
            }
            assert(self.sources.view()[old(self).sources.view().len() as int] == after_add[old(self).sources.view().len() as int]);
        }
        Ok(())
    }
}

} // verus!
