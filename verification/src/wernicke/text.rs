//! Translating between what an editor says and what the compiler says.
//!
//! The editor protocol counts lines from zero and characters in UTF-16 code
//! units; Cranium counts lines from one and columns in bytes. Files arrive as
//! `file:` URIs rather than paths. Both conversions live here, on the UTF-8
//! bytes of the text.

use vstd::prelude::*;
use vstd::string::StringSliceAdditionalSpecFns;
use vstd::utf8::*;
use crate::bytes::{lemma_append_ascii, lemma_ascii_literal, all_ascii, lemma_ascii_prefix_split, lemma_swap_ascii, lemma_ascii_is_boundary, lemma_boundary_after_ascii, lemma_drop_ascii_last, lemma_valid_between, push_str, starts_with, string_bytes, string_from_utf8, sub_string, utf8_check};
use crate::paths::path_separator;

verus! {

// ----- Lines -----

/// Where each line of `t` starts: at zero, and just after every line feed.
pub open spec fn line_starts(t: Seq<u8>) -> Seq<int>
    decreases t.len(),
{
    if t.len() == 0 {
        seq![0]
    } else if t.last() == 10 {
        line_starts(t.drop_last()).push(t.len() as int)
    } else {
        line_starts(t.drop_last())
    }
}

/// `s` without trailing carriage returns and line feeds.
pub open spec fn trim_line_end(s: Seq<u8>) -> Seq<u8>
    decreases s.len(),
{
    if s.len() > 0 && (s.last() == 10 || s.last() == 13) {
        trim_line_end(s.drop_last())
    } else {
        s
    }
}

/// Line `i` of `t`, counting from zero, without its terminator; nothing past
/// the last line.
pub open spec fn line_of(t: Seq<u8>, i: int) -> Seq<u8> {
    let starts = line_starts(t);
    if 0 <= i < starts.len() {
        let end = if i + 1 < starts.len() {
            starts[i + 1]
        } else {
            t.len() as int
        };
        trim_line_end(t.subrange(starts[i], end))
    } else {
        seq![]
    }
}

/// UTF-16 code units the UTF-8 bytes `s` encode: two for a four-byte
/// character, one for any other, counted at the character's first byte.
pub open spec fn utf16_units(s: Seq<u8>) -> nat
    decreases s.len(),
{
    if s.len() == 0 {
        0
    } else {
        utf16_units(s.drop_last()) + unit_weight(s.last())
    }
}

/// The UTF-16 units a byte starts: none for a continuation byte.
pub open spec fn unit_weight(b: u8) -> nat {
    if 0x80 <= b <= 0xbf {
        0
    } else if b >= 0xf0 {
        2
    } else {
        1
    }
}

/// The first byte offset, from `k` on, that starts a character with at least
/// `character` UTF-16 units before it; the line's length when there is none.
pub open spec fn byte_column_from(s: Seq<u8>, k: int, character: nat) -> int
    decreases s.len() - k,
{
    if k >= s.len() || k < 0 {
        s.len() as int
    } else if !(0x80 <= s[k] <= 0xbf) && utf16_units(s.subrange(0, k)) >= character {
        k
    } else {
        byte_column_from(s, k + 1, character)
    }
}

/// Whether a byte can be part of an identifier.
pub open spec fn is_word(b: u8) -> bool {
    (48 <= b <= 57) || (65 <= b <= 90) || (97 <= b <= 122) || b == 95
}

/// Where the word run that ends at `c` starts.
pub open spec fn word_start(s: Seq<u8>, c: int) -> int
    decreases c,
{
    if c > 0 && c <= s.len() && is_word(s[c - 1]) {
        word_start(s, c - 1)
    } else {
        c
    }
}

/// Where the word run that starts at `c` ends.
pub open spec fn word_end(s: Seq<u8>, c: int) -> int
    decreases s.len() - c,
{
    if 0 <= c < s.len() && is_word(s[c]) {
        word_end(s, c + 1)
    } else {
        c
    }
}

/// A document's text, indexed by line so positions can be converted.
#[derive(Debug, Clone)]
pub struct Lines {
    text: String,
    starts: Vec<usize>,
}

proof fn lemma_starts_bounded(t: Seq<u8>)
    ensures
        line_starts(t).len() >= 1,
        line_starts(t)[0] == 0,
        forall|i: int| 0 <= i < line_starts(t).len() ==> 0 <= #[trigger] line_starts(t)[i] <= t.len(),
        forall|i: int, j: int| 0 <= i < j < line_starts(t).len() ==> #[trigger] line_starts(t)[i] < #[trigger] line_starts(t)[j],
        forall|i: int| 0 < i < line_starts(t).len() ==> t[#[trigger] line_starts(t)[i] - 1] == 10,
        line_starts(t).last() <= t.len(),
    decreases t.len(),
{
    if t.len() > 0 {
        lemma_starts_bounded(t.drop_last());
    }
}

impl Lines {
    /// The text's bytes.
    pub closed spec fn bytes(&self) -> Seq<u8> {
        string_bytes(self.text)
    }

    /// The lines' invariant: the recorded starts are the text's.
    pub closed spec fn wf(&self) -> bool {
        &&& self.starts@.map_values(|s: usize| s as int) == line_starts(self.bytes())
        &&& self.bytes().len() <= isize::MAX
    }

    /// Index `text` by line.
    pub fn new(text: &str) -> (r: Self)
        requires
            text.spec_bytes().len() <= isize::MAX,
        ensures
            r.wf(),
            r.bytes() == text.spec_bytes(),
    {
        let b = text.as_bytes();
        let mut starts: Vec<usize> = Vec::new();
        starts.push(0);
        let mut k: usize = 0;
        proof {
            assert(b@.take(0) =~= seq![]);
            assert(starts@.map_values(|s: usize| s as int) =~= line_starts(b@.take(0)));
        }
        while k < b.len()
            invariant
                k <= b@.len(),
                starts@.map_values(|s: usize| s as int) == line_starts(b@.take(k as int)),
            decreases b@.len() - k,
        {
            proof {
                assert(b@.take(k + 1).drop_last() =~= b@.take(k as int));
            }
            if b[k] == 10 {
                starts.push(k + 1);
            }
            k += 1;
            proof {
                assert(starts@.map_values(|s: usize| s as int) =~= line_starts(b@.take(k as int)));
            }
        }
        proof {
            assert(b@.take(k as int) =~= b@);
        }
        Lines { text: text.to_owned(), starts }
    }

    /// The whole document.
    pub fn text(&self) -> (r: &str)
        ensures
            r.spec_bytes() == self.bytes(),
    {
        self.text.as_str()
    }

    /// Number of lines.
    pub fn count(&self) -> (r: usize)
        requires
            self.wf(),
        ensures
            r == line_starts(self.bytes()).len(),
    {
        self.starts.len()
    }

    /// One line, without its terminator. Lines count from zero; past the
    /// last line there is nothing.
    pub fn line(&self, index: usize) -> (r: String)
        requires
            self.wf(),
        ensures
            string_bytes(r) == line_of(self.bytes(), index as int),
            string_bytes(r).len() <= isize::MAX,
    {
        let b = self.text.as_str().as_bytes();
        let ghost t = b@;
        proof {
            lemma_starts_bounded(t);
            encode_utf8_valid_utf8(self.text@);
            assert(self.starts@.len() == line_starts(t).len());
            assert(forall|i: int| 0 <= i < self.starts@.len() ==> self.starts@[i] as int == #[trigger] line_starts(t)[i]);
        }
        if index >= self.starts.len() {
            return String::new();
        }
        let start = self.starts[index];
        let end = if index + 1 < self.starts.len() {
            self.starts[index + 1]
        } else {
            b.len()
        };
        proof {
            assert(start as int == line_starts(t)[index as int]);
            if index + 1 < self.starts@.len() {
                assert(end as int == line_starts(t)[index + 1]);
                assert(line_starts(t)[index as int] < line_starts(t)[index + 1]);
                assert(t[end - 1] == 10);
            }
            if index > 0 {
                assert(t[line_starts(t)[index as int] - 1] == 10);
            }
        }
        let mut trimmed = end;
        while trimmed > start && (b[trimmed - 1] == 10 || b[trimmed - 1] == 13)
            invariant
                start <= trimmed <= end <= t.len(),
                b@ == t,
                forall|k: int| trimmed <= k < end ==> #[trigger] t[k] == 10 || t[k] == 13,
                trim_line_end(t.subrange(start as int, end as int)) == trim_line_end(t.subrange(start as int, trimmed as int)),
            decreases trimmed,
        {
            proof {
                assert(t.subrange(start as int, trimmed as int).drop_last() =~= t.subrange(start as int, trimmed - 1));
            }
            trimmed -= 1;
        }
        proof {
            let s = t.subrange(start as int, trimmed as int);
            assert(trim_line_end(s) == s);
            is_char_boundary_start_end_of_seq(t);
            if start > 0 {
                assert(t[start - 1] == 10);
                lemma_boundary_after_ascii(t, start as int);
            }
            if trimmed == end {
                if end < t.len() {
                    assert(t[end - 1] == 10);
                    lemma_boundary_after_ascii(t, end as int);
                }
            } else {
                lemma_ascii_is_boundary(t, trimmed as int);
            }
        }
        sub_string(b, start, trimmed)
    }
}

impl Lines {
    /// Convert the compiler's one-based line and byte column into the
    /// protocol's zero-based line and UTF-16 character. A column inside a
    /// character is refused.
    pub fn to_position(&self, line: usize, column: usize) -> (r: (usize, usize))
        requires
            self.wf(),
            is_char_boundary(
                line_of(self.bytes(), if line > 0 { line - 1 } else { 0 }),
                clamp_column(line_of(self.bytes(), if line > 0 { line - 1 } else { 0 }), column),
            ),
        ensures
            r.0 == (if line > 0 { line - 1 } else { 0 }),
            r.1 == utf16_units(line_of(self.bytes(), r.0 as int).subrange(0, clamp_column(line_of(self.bytes(), r.0 as int), column))),
    {
        let line_index = if line > 0 { line - 1 } else { 0 };
        let text = self.line(line_index);
        let b = text.as_str().as_bytes();
        let byte_offset = if column > 0 { column - 1 } else { 0 };
        let byte_offset = if byte_offset < b.len() { byte_offset } else { b.len() };
        let units = count_units(b, byte_offset);
        (line_index, units)
    }

    /// Convert the protocol's zero-based line and UTF-16 character into a byte
    /// offset within that line: the first character start with at least that
    /// many units before it, or the line's length.
    pub fn to_byte_column(&self, line: usize, character: usize) -> (r: usize)
        requires
            self.wf(),
        ensures
            r == byte_column_from(line_of(self.bytes(), line as int), 0, character as nat),
    {
        let text = self.line(line);
        let b = text.as_str().as_bytes();
        let ghost s = b@;
        let mut k: usize = 0;
        let mut seen: usize = 0;
        proof {
            assert(s.subrange(0, 0) =~= seq![]);
        }
        while k < b.len()
            invariant
                b@ == s,
                s == line_of(self.bytes(), line as int),
                k <= s.len(),
                seen == utf16_units(s.subrange(0, k as int)),
                seen <= 2 * k,
                s.len() <= isize::MAX,
                byte_column_from(s, 0, character as nat) == byte_column_from(s, k as int, character as nat),
            decreases s.len() - k,
        {
            let byte = b[k];
            if !(0x80 <= byte && byte <= 0xbf) && seen >= character {
                assert(byte_column_from(s, k as int, character as nat) == k as int);
                return k;
            }
            proof {
                assert(s.subrange(0, k + 1).drop_last() =~= s.subrange(0, k as int));
            }
            seen = seen + if 0x80 <= byte && byte <= 0xbf {
                0
            } else if byte >= 0xf0 {
                2
            } else {
                1
            };
            k += 1;
        }
        b.len()
    }

    /// The identifier around a byte offset on a line, and where it starts:
    /// the run of ASCII letters, digits and underscores that reaches the
    /// offset from either side. Nothing when that run is empty or the offset
    /// is past the line.
    pub fn word_at(&self, line: usize, byte_column: usize) -> (r: Option<(String, usize)>)
        requires
            self.wf(),
        ensures
            ({
                let s = line_of(self.bytes(), line as int);
                if byte_column > s.len() || word_start(s, byte_column as int) == word_end(s, byte_column as int) {
                    r is None
                } else {
                    r matches Some((w, start)) && start == word_start(s, byte_column as int) && string_bytes(w)
                        == s.subrange(start as int, word_end(s, byte_column as int))
                }
            }),
    {
        let text = self.line(line);
        proof {
            encode_utf8_valid_utf8(text@);
        }
        let b = text.as_str().as_bytes();
        let ghost s = b@;
        if byte_column > b.len() {
            return None;
        }
        let mut start = byte_column;
        while start > 0 && is_word_byte(b[start - 1])
            invariant
                b@ == s,
                start <= byte_column <= s.len(),
                word_start(s, byte_column as int) == word_start(s, start as int),
                forall|k: int| start <= k < byte_column ==> is_word(#[trigger] s[k]),
            decreases start,
        {
            start -= 1;
        }
        let mut end = byte_column;
        while end < b.len() && is_word_byte(b[end])
            invariant
                b@ == s,
                byte_column <= end <= s.len(),
                word_end(s, byte_column as int) == word_end(s, end as int),
                forall|k: int| byte_column <= k < end ==> is_word(#[trigger] s[k]),
            decreases s.len() - end,
        {
            end += 1;
        }
        if start == end {
            return None;
        }
        proof {
            lemma_ascii_is_boundary(s, start as int);
            lemma_boundary_after_ascii(s, end as int);
        }
        Some((sub_string(b, start, end), start))
    }
}

/// The byte offset a one-based column names on a line, clamped to it.
pub open spec fn clamp_column(s: Seq<u8>, column: usize) -> int {
    let offset = if column > 0 { column - 1 } else { 0 };
    if offset < s.len() { offset } else { s.len() as int }
}

fn is_word_byte(b: u8) -> (r: bool)
    ensures
        r == is_word(b),
{
    (48 <= b && b <= 57) || (65 <= b && b <= 90) || (97 <= b && b <= 122) || b == 95
}

fn count_units(b: &[u8], n: usize) -> (r: usize)
    requires
        n <= b@.len(),
        b@.len() <= isize::MAX,
    ensures
        r == utf16_units(b@.subrange(0, n as int)),
{
    let mut k: usize = 0;
    let mut seen: usize = 0;
    proof {
        assert(b@.subrange(0, 0) =~= seq![]);
    }
    while k < n
        invariant
            k <= n <= b@.len(),
            seen == utf16_units(b@.subrange(0, k as int)),
            seen <= 2 * k,
            b@.len() <= isize::MAX,
        decreases n - k,
    {
        proof {
            assert(b@.subrange(0, k + 1).drop_last() =~= b@.subrange(0, k as int));
        }
        let byte = b[k];
        seen = seen + if 0x80 <= byte && byte <= 0xbf {
            0
        } else if byte >= 0xf0 {
            2
        } else {
            1
        };
        k += 1;
    }
    seen
}

// ----- URIs -----

/// The value of an ASCII hexadecimal digit.
pub open spec fn hex_value(b: u8) -> Option<nat> {
    if 48 <= b <= 57 {
        Some((b - 48) as nat)
    } else if 65 <= b <= 70 {
        Some((b - 55) as nat)
    } else if 97 <= b <= 102 {
        Some((b - 87) as nat)
    } else {
        None
    }
}

/// The byte two characters after a `%` spell, read the way
/// `u8::from_str_radix(.., 16)` reads them: two hex digits, or a `+` and one.
pub open spec fn escaped_byte(h1: u8, h2: u8) -> Option<u8> {
    match (hex_value(h1), hex_value(h2)) {
        (Some(a), Some(b)) => Some((16 * a + b) as u8),
        (None, Some(b)) => if h1 == 43 { Some(b as u8) } else { None },
        _ => None,
    }
}

/// `s` from byte `i` on with every well-formed `%XX` escape decoded.
pub open spec fn percent_decoded(s: Seq<u8>, i: int) -> Seq<u8>
    decreases s.len() - i,
{
    if i < 0 || i >= s.len() {
        seq![]
    } else if s[i] == 37 && i + 2 < s.len() && escaped_byte(s[i + 1], s[i + 2]) is Some {
        seq![escaped_byte(s[i + 1], s[i + 2]).unwrap()] + percent_decoded(s, i + 3)
    } else {
        seq![s[i]] + percent_decoded(s, i + 1)
    }
}

/// Whether text starts with a drive letter and a colon.
pub open spec fn looks_like_drive(t: Seq<u8>) -> bool {
    t.len() >= 2 && ((65 <= t[0] <= 90) || (97 <= t[0] <= 122)) && t[1] == 58
}

/// The path a `file:` URI names, with `/` turned into the platform's
/// separator `sep`: what follows `file://`, percent-decoded (or left as it was
/// when decoding does not give UTF-8), without the slash before a drive
/// letter.
pub open spec fn uri_path(uri: Seq<u8>, sep: u8) -> Option<Seq<u8>> {
    let prefix = "file://".spec_bytes();
    if uri.len() >= prefix.len() && uri.subrange(0, prefix.len() as int) == prefix {
        let rest = uri.subrange(prefix.len() as int, uri.len() as int);
        let decoded = if valid_utf8(percent_decoded(rest, 0)) { percent_decoded(rest, 0) } else { rest };
        let trimmed = if decoded.len() > 0 && decoded[0] == 47 && looks_like_drive(decoded.drop_first()) {
            decoded.drop_first()
        } else {
            decoded
        };
        Some(trimmed.map_values(|b: u8| if b == 47 { sep } else { b }))
    } else {
        None
    }
}

fn hex_of(b: u8) -> (r: Option<u8>)
    ensures
        match hex_value(b) {
            Some(v) => r == Some(v as u8),
            None => r is None,
        },
{
    if 48 <= b && b <= 57 {
        Some(b - 48)
    } else if 65 <= b && b <= 70 {
        Some(b - 55)
    } else if 97 <= b && b <= 102 {
        Some(b - 87)
    } else {
        None
    }
}

fn escaped_of(h1: u8, h2: u8) -> (r: Option<u8>)
    ensures
        r == escaped_byte(h1, h2),
{
    match (hex_of(h1), hex_of(h2)) {
        (Some(a), Some(b)) => Some(16 * a + b),
        (None, Some(b)) => if h1 == 43 { Some(b) } else { None },
        _ => None,
    }
}

fn percent_decode(s: &[u8]) -> (r: Vec<u8>)
    ensures
        r@ == percent_decoded(s@, 0),
{
    let mut out: Vec<u8> = Vec::new();
    let mut i: usize = 0;
    while i < s.len()
        invariant
            i <= s@.len(),
            out@ + percent_decoded(s@, i as int) == percent_decoded(s@, 0),
        decreases s@.len() - i,
    {
        if s[i] == 37 && s.len() - i > 2 {
            if let Some(byte) = escaped_of(s[i + 1], s[i + 2]) {
                let ghost prev = out@;
                out.push(byte);
                proof {
                    assert(prev + percent_decoded(s@, i as int) =~= out@ + percent_decoded(s@, i + 3));
                }
                i += 3;
                continue;
            }
        }
        let ghost prev = out@;
        out.push(s[i]);
        proof {
            assert(prev + percent_decoded(s@, i as int) =~= out@ + percent_decoded(s@, i + 1));
        }
        i += 1;
    }
    proof {
        assert(out@ + percent_decoded(s@, i as int) =~= out@);
    }
    out
}

/// Whether a byte sequence is valid UTF-8.
fn is_utf8(b: &[u8]) -> (r: bool)
    ensures
        r == valid_utf8(b@),
{
    utf8_check(b)
}

/// Turn a `file:` URI into a path; any other scheme names nothing to compile.
pub fn uri_to_path(uri: &str) -> (r: Option<String>)
    ensures
        match uri_path(uri.spec_bytes(), 47) {
            None => r is None,
            Some(_) => r matches Some(p) && (string_bytes(p) == uri_path(uri.spec_bytes(), 47).unwrap()
                || string_bytes(p) == uri_path(uri.spec_bytes(), 92).unwrap()),
        },
{
    let b = uri.as_bytes();
    proof {
        encode_utf8_valid_utf8(uri@);
    }
    if !starts_with(b, "file://".as_bytes()) {
        return None;
    }
    let prefix_len = "file://".len();
    proof {
        reveal_strlit("file://");
        lemma_ascii_literal("file://");
    }
    let mut rest: Vec<u8> = Vec::new();
    let mut i: usize = prefix_len;
    while i < b.len()
        invariant
            prefix_len <= i <= b@.len(),
            prefix_len == 7,
            rest@ == b@.subrange(7, i as int),
        decreases b@.len() - i,
    {
        rest.push(b[i]);
        i += 1;
        proof {
            assert(rest@ =~= b@.subrange(7, i as int));
        }
    }
    let decoded = percent_decode(rest.as_slice());
    let chosen = if is_utf8(decoded.as_slice()) { decoded } else { rest };
    let ghost chosen_view = chosen@;
    let drop = chosen.len() > 0 && chosen[0] == 47 && chosen.len() >= 3 && ((65 <= chosen[1] && chosen[1] <= 90) || (97 <= chosen[1] && chosen[1] <= 122)) && chosen[2] == 58;
    let sep = path_separator();
    let mut out: Vec<u8> = Vec::new();
    let mut k: usize = if drop { 1 } else { 0 };
    let start = k;
    let ghost trimmed = chosen@.subrange(start as int, chosen@.len() as int);
    proof {
        if drop {
            assert(trimmed =~= chosen@.drop_first());
        } else {
            assert(trimmed =~= chosen@);
        }
    }
    while k < chosen.len()
        invariant
            start <= k <= chosen@.len(),
            trimmed == chosen@.subrange(start as int, chosen@.len() as int),
            out@ == chosen@.subrange(start as int, k as int).map_values(|c: u8| if c == 47 { sep } else { c }),
        decreases chosen@.len() - k,
    {
        let c = chosen[k];
        out.push(if c == 47 { sep } else { c });
        k += 1;
        proof {
            assert(out@ =~= chosen@.subrange(start as int, k as int).map_values(|c: u8| if c == 47 { sep } else { c }));
        }
    }
    proof {
        assert(chosen@.subrange(start as int, k as int) =~= trimmed);
        let uri_bytes = b@;
        assert(uri_bytes.subrange(0, 7) == "file://".spec_bytes());
        assert forall|i: int| 0 <= i < 7 implies #[trigger] uri_bytes[i] < 128 by {
            assert(uri_bytes[i] == uri_bytes.subrange(0, 7)[i]);
        }
        lemma_ascii_prefix_split(uri_bytes, 7);
        assert(rest@ == uri_bytes.subrange(7, uri_bytes.len() as int));
        assert(valid_utf8(chosen_view));
        if drop {
            lemma_boundary_after_ascii(chosen_view, 1);
            valid_utf8_split(chosen_view, 1);
        } else {
            assert(chosen_view.subrange(0, chosen_view.len() as int) =~= chosen_view);
        }
        lemma_swap_ascii(trimmed, 47, sep);
    }
    Some(string_from_utf8(out))
}

/// Whether a byte goes into a URI as it is.
pub open spec fn uri_safe(b: u8) -> bool {
    (65 <= b <= 90) || (97 <= b <= 122) || (48 <= b <= 57) || b == 45 || b == 46 || b == 95 || b == 126
        || b == 47 || b == 58
}

/// An uppercase hexadecimal digit.
pub open spec fn hex_digit(v: int) -> u8 {
    if v < 10 { (48 + v) as u8 } else { (55 + v) as u8 }
}

/// The bytes of a path written into a URI: safe bytes as they are, every
/// other byte as `%` and two uppercase hex digits.
pub open spec fn uri_escaped(t: Seq<u8>) -> Seq<u8>
    decreases t.len(),
{
    if t.len() == 0 {
        seq![]
    } else {
        let b = t.last();
        uri_escaped(t.drop_last()) + if uri_safe(b) {
            seq![b]
        } else {
            seq![37u8, hex_digit(b as int / 16), hex_digit(b as int % 16)]
        }
    }
}

/// The `file:` URI of a path: its backslashes as slashes, a slash after
/// `file://` when the path does not start with one, and the path escaped.
pub open spec fn path_uri(path: Seq<u8>) -> Seq<u8> {
    let text = path.map_values(|c: u8| if c == 92 { 47u8 } else { c });
    "file://".spec_bytes() + (if text.len() > 0 && text[0] == 47 { seq![] } else { seq![47u8] }) + uri_escaped(text)
}

fn hex_digit_of(v: u8) -> (r: u8)
    requires
        v < 16,
    ensures
        r == hex_digit(v as int),
{
    if v < 10 { 48 + v } else { 55 + v }
}

/// Turn a path into a `file:` URI.
pub fn path_to_uri(path: &str) -> (r: String)
    ensures
        string_bytes(r) == path_uri(path.spec_bytes()),
{
    let b = path.as_bytes();
    let ghost text = b@.map_values(|c: u8| if c == 92 { 47u8 } else { c });
    let mut out: Vec<u8> = Vec::new();
    proof {
        assert(valid_utf8(seq![]));
    }
    push_str(&mut out, "file://");
    let ghost head = out@;
    let first = if b.len() > 0 { if b[0] == 92 { 47 } else { b[0] } } else { 0 };
    if !(b.len() > 0 && first == 47) {
        out.push(47);
    }
    let ghost lead = out@;
    proof {
        if b@.len() > 0 && first == 47 {
            assert(lead =~= head + seq![]);
        }
    }
    let mut k: usize = 0;
    proof {
        assert(text.take(0) =~= seq![]);
        assert(lead + uri_escaped(text.take(0)) =~= lead);
    }
    while k < b.len()
        invariant
            k <= b@.len(),
            text == b@.map_values(|c: u8| if c == 92 { 47u8 } else { c }),
            out@ == lead + uri_escaped(text.take(k as int)),
        decreases b@.len() - k,
    {
        let c = if b[k] == 92 { 47 } else { b[k] };
        proof {
            assert(text.take(k + 1).drop_last() =~= text.take(k as int));
            assert(text.take(k + 1).last() == c);
        }
        if (65 <= c && c <= 90) || (97 <= c && c <= 122) || (48 <= c && c <= 57) || c == 45 || c == 46 || c == 95 || c == 126 || c == 47 || c == 58 {
            out.push(c);
        } else {
            out.push(37);
            out.push(hex_digit_of(c / 16));
            out.push(hex_digit_of(c % 16));
        }
        k += 1;
        proof {
            assert(out@ =~= lead + uri_escaped(text.take(k as int)));
        }
    }
    proof {
        assert(text.take(k as int) =~= text);
        reveal_strlit("file://");
        lemma_ascii_literal("file://");
        assert(out@ =~= path_uri(b@));
        lemma_escaped_ascii(text);
        let opt: Seq<u8> = if b@.len() > 0 && first == 47 { seq![] } else { seq![47u8] };
        assert(lead =~= head + opt);
        assert(all_ascii(opt));
        assert(valid_utf8(head));
        lemma_append_ascii(head, opt);
        lemma_append_ascii(lead, uri_escaped(text));
    }
    string_from_utf8(out)
}

proof fn lemma_escaped_ascii(t: Seq<u8>)
    ensures
        all_ascii(uri_escaped(t)),
    decreases t.len(),
{
    if t.len() > 0 {
        lemma_escaped_ascii(t.drop_last());
    }
}

/// A line index for text that is not attached to a file.
pub fn lines_of(text: &str) -> (r: Lines)
    requires
        text.spec_bytes().len() <= isize::MAX,
    ensures
        r.wf(),
        r.bytes() == text.spec_bytes(),
{
    Lines::new(text)
}

/// Counting UTF-16 units over a longer prefix never gives fewer.
proof fn lemma_units_grow(s: Seq<u8>, a: int, b: int)
    requires
        0 <= a <= b <= s.len(),
    ensures
        utf16_units(s.subrange(0, a)) <= utf16_units(s.subrange(0, b)),
    decreases b - a,
{
    if a < b {
        lemma_units_grow(s, a, b - 1);
        assert(s.subrange(0, b).drop_last() =~= s.subrange(0, b - 1));
    }
}

proof fn lemma_column_from(s: Seq<u8>, k: int, c: int)
    requires
        0 <= k <= c <= s.len(),
        c == s.len() || !(0x80 <= s[c] <= 0xbf),
    ensures
        byte_column_from(s, k, utf16_units(s.subrange(0, c))) == c,
    decreases c - k,
{
    if k < c {
        assert(s.subrange(0, k + 1).drop_last() =~= s.subrange(0, k));
        lemma_units_grow(s, k + 1, c);
        lemma_column_from(s, k + 1, c);
    }
}

/// A byte offset that starts a character, or ends the line, comes back
/// unchanged from its count of UTF-16 units: [`Lines::to_byte_column`] undoes
/// [`Lines::to_position`] on every column that is not inside a character.
pub proof fn lemma_column_round_trip(s: Seq<u8>, c: int)
    requires
        0 <= c <= s.len(),
        c == s.len() || !(0x80 <= s[c] <= 0xbf),
    ensures
        byte_column_from(s, 0, utf16_units(s.subrange(0, c))) == c,
{
    lemma_column_from(s, 0, c);
}

/// How one byte is written into a URI.
spec fn escape_piece(b: u8) -> Seq<u8> {
    if uri_safe(b) {
        seq![b]
    } else {
        seq![37u8, hex_digit(b as int / 16), hex_digit(b as int % 16)]
    }
}

proof fn lemma_escaped_front(t: Seq<u8>)
    requires
        t.len() > 0,
    ensures
        uri_escaped(t) == escape_piece(t[0]) + uri_escaped(t.drop_first()),
    decreases t.len(),
{
    if t.len() == 1 {
        assert(t.drop_last() =~= seq![]);
        assert(t.drop_first() =~= seq![]);
        assert(uri_escaped(t.drop_last()) =~= Seq::<u8>::empty());
        assert(uri_escaped(t.drop_first()) =~= Seq::<u8>::empty());
        assert(t.last() == t[0]);
        assert(uri_escaped(t) =~= escape_piece(t[0]));
    } else {
        lemma_escaped_front(t.drop_last());
        assert(t.drop_last().drop_first() =~= t.drop_first().drop_last());
        assert(t.drop_first().last() == t.last());
        assert(t.drop_last()[0] == t[0]);
        assert(uri_escaped(t) =~= escape_piece(t[0]) + uri_escaped(t.drop_first()));
    }
}

/// Decoding from `i` on reads only what lies from `i` on.
proof fn lemma_decoded_skip(s: Seq<u8>, i: int)
    requires
        0 <= i <= s.len(),
    ensures
        percent_decoded(s, i) == percent_decoded(s.skip(i), 0),
    decreases s.len() - i,
{
    let t = s.skip(i);
    if i < s.len() {
        if s[i] == 37 && i + 2 < s.len() && escaped_byte(s[i + 1], s[i + 2]) is Some {
            lemma_decoded_skip(s, i + 3);
            lemma_decoded_skip(t, 3);
            assert(t.skip(3) =~= s.skip(i + 3));
        } else {
            lemma_decoded_skip(s, i + 1);
            lemma_decoded_skip(t, 1);
            assert(t.skip(1) =~= s.skip(i + 1));
        }
    }
}

proof fn lemma_hex_round_trip(v: int)
    requires
        0 <= v < 16,
    ensures
        hex_value(hex_digit(v)) == Some(v as nat),
{
}

/// Decoding undoes escaping.
proof fn lemma_decode_escaped(t: Seq<u8>)
    ensures
        percent_decoded(uri_escaped(t), 0) == t,
    decreases t.len(),
{
    if t.len() == 0 {
        assert(percent_decoded(uri_escaped(t), 0) =~= t);
    } else {
        lemma_escaped_front(t);
        let b = t[0];
        let rest = uri_escaped(t.drop_first());
        let s = escape_piece(b) + rest;
        lemma_decode_escaped(t.drop_first());
        if uri_safe(b) {
            lemma_decoded_skip(s, 1);
            assert(s.skip(1) =~= rest);
        } else {
            lemma_hex_round_trip(b as int / 16);
            lemma_hex_round_trip(b as int % 16);
            assert(escaped_byte(s[1], s[2]) == Some(b));
            lemma_decoded_skip(s, 3);
            assert(s.skip(3) =~= rest);
        }
        assert(percent_decoded(s, 0) =~= t);
    }
}

/// A path written into a URI comes back out of it: an absolute path with
/// forward slashes, valid UTF-8 and no drive letter reads back as itself.
pub proof fn lemma_uri_round_trip(path: Seq<u8>)
    requires
        valid_utf8(path),
        path.len() > 0,
        path[0] == 47u8,
        forall|k: int| 0 <= k < path.len() ==> #[trigger] path[k] != 92u8,
        !looks_like_drive(path.drop_first()),
    ensures
        uri_path(path_uri(path), 47) == Some(path),
{
    let text = path.map_values(|c: u8| if c == 92 { 47u8 } else { c });
    assert(text =~= path);
    let prefix = "file://".spec_bytes();
    let uri = path_uri(path);
    assert(uri =~= prefix + uri_escaped(path));
    assert(uri.subrange(0, prefix.len() as int) =~= prefix);
    assert(uri.subrange(prefix.len() as int, uri.len() as int) =~= uri_escaped(path));
    lemma_decode_escaped(path);
    assert(path.map_values(|b: u8| if b == 47 { 47u8 } else { b }) =~= path);
}

} // verus!
