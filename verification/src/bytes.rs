//! Byte-level text helpers shared by the emitters: decimal numbers, literal
//! byte strings, and the step from a UTF-8 byte buffer to a `String`.

use vstd::prelude::*;
use vstd::utf8::*;
use vstd::string::StringSliceAdditionalSpecFns;

verus! {

broadcast use vstd::seq_lib::group_seq_properties;

/// The ASCII decimal spelling of `n`, most significant digit first.
pub open spec fn decimal(n: nat) -> Seq<u8>
    decreases n,
{
    if n < 10 {
        seq![(48 + n) as u8]
    } else {
        decimal(n / 10) + seq![(48 + n % 10) as u8]
    }
}

/// The ASCII decimal spelling of a signed number, with a leading `-` when it
/// is negative.
pub open spec fn signed_decimal(n: int) -> Seq<u8> {
    if n < 0 {
        seq![45u8] + decimal((-n) as nat)
    } else {
        decimal(n as nat)
    }
}

/// The UTF-8 bytes of a `String`.
pub open spec fn string_bytes(s: String) -> Seq<u8> {
    encode_utf8(s@)
}

/// True when every byte is below 0x80.
pub open spec fn all_ascii(s: Seq<u8>) -> bool {
    forall|i: int| 0 <= i < s.len() ==> #[trigger] s[i] < 128
}

pub proof fn lemma_decimal_ascii(n: nat)
    ensures
        all_ascii(decimal(n)),
        decimal(n).len() >= 1,
    decreases n,
{
    if n >= 10 {
        lemma_decimal_ascii(n / 10);
    }
}

pub proof fn lemma_signed_decimal_ascii(n: int)
    ensures
        all_ascii(signed_decimal(n)),
{
    if n < 0 {
        lemma_decimal_ascii((-n) as nat);
    } else {
        lemma_decimal_ascii(n as nat);
    }
}

/// An ASCII byte sequence is valid UTF-8.
pub proof fn lemma_ascii_valid_utf8(s: Seq<u8>)
    requires
        all_ascii(s),
    ensures
        valid_utf8(s),
    decreases s.len(),
{
    if s.len() != 0 {
        assert(valid_first_scalar(s));
        assert(length_of_first_scalar(s) == 1);
        assert(pop_first_scalar(s) =~= s.subrange(1, s.len() as int));
        lemma_ascii_valid_utf8(s.subrange(1, s.len() as int));
    }
}

/// Append the decimal spelling of `n`.
pub fn push_decimal(out: &mut Vec<u8>, n: u64)
    ensures
        final(out)@ == old(out)@ + decimal(n as nat),
    decreases n,
{
    if n >= 10 {
        push_decimal(out, n / 10);
    }
    let digit: u8 = (n % 10) as u8;
    out.push(48 + digit);
}

/// Append the decimal spelling of a signed number.
pub fn push_signed_decimal(out: &mut Vec<u8>, n: i64)
    ensures
        final(out)@ == old(out)@ + signed_decimal(n as int),
{
    if n < 0 {
        out.push(45);
        let magnitude: u64 = if n == i64::MIN {
            9223372036854775808u64
        } else {
            (-n) as u64
        };
        let ghost mid = out@;
        push_decimal(out, magnitude);
        assert(out@ == old(out)@ + (seq![45u8] + decimal((-n) as nat)));
    } else {
        push_decimal(out, n as u64);
    }
}

/// Append every byte of `bytes`.
pub fn push_all(out: &mut Vec<u8>, bytes: &[u8])
    ensures
        final(out)@ == old(out)@ + bytes@,
{
    let mut i: usize = 0;
    while i < bytes.len()
        invariant
            i <= bytes.len(),
            out@ == old(out)@ + bytes@.subrange(0, i as int),
        decreases bytes.len() - i,
    {
        out.push(bytes[i]);
        i += 1;
        assert(bytes@.subrange(0, i as int) =~= bytes@.subrange(0, i - 1) + seq![bytes@[i - 1]]);
    }
    assert(bytes@.subrange(0, i as int) =~= bytes@);
}

/// Append `count` copies of `byte`.
pub fn push_repeat(out: &mut Vec<u8>, byte: u8, count: usize)
    ensures
        final(out)@ == old(out)@ + Seq::new(count as nat, |_i: int| byte),
{
    let mut i: usize = 0;
    while i < count
        invariant
            i <= count,
            out@ == old(out)@ + Seq::new(i as nat, |_i: int| byte),
        decreases count - i,
    {
        out.push(byte);
        i += 1;
        assert(Seq::new(i as nat, |_i: int| byte) =~= Seq::new((i - 1) as nat, |_i: int| byte)
            + seq![byte]);
    }
}

/// True when two byte slices hold the same bytes.
pub fn bytes_equal(a: &[u8], b: &[u8]) -> (r: bool)
    ensures
        r == (a@ == b@),
{
    if a.len() != b.len() {
        return false;
    }
    let mut i: usize = 0;
    while i < a.len()
        invariant
            i <= a.len(),
            a.len() == b.len(),
            forall|j: int| 0 <= j < i ==> a@[j] == b@[j],
        decreases a.len() - i,
    {
        if a[i] != b[i] {
            return false;
        }
        i += 1;
    }
    assert(a@ =~= b@);
    true
}

/// True when `s` begins with `prefix`.
pub fn starts_with(s: &[u8], prefix: &[u8]) -> (r: bool)
    ensures
        r == (prefix@.len() <= s@.len() && s@.subrange(0, prefix@.len() as int) == prefix@),
{
    if prefix.len() > s.len() {
        return false;
    }
    let mut i: usize = 0;
    while i < prefix.len()
        invariant
            i <= prefix.len(),
            prefix.len() <= s.len(),
            forall|j: int| 0 <= j < i ==> s@[j] == prefix@[j],
        decreases prefix.len() - i,
    {
        if s[i] != prefix[i] {
            assert(s@.subrange(0, prefix@.len() as int)[i as int] != prefix@[i as int]);
            return false;
        }
        i += 1;
    }
    assert(s@.subrange(0, prefix@.len() as int) =~= prefix@);
    true
}

/// Copy the bytes of a string slice.
pub fn str_bytes(s: &str) -> (r: Vec<u8>)
    ensures
        r@ == s.spec_bytes(),
{
    let b = s.as_bytes();
    let mut out: Vec<u8> = Vec::new();
    push_all(&mut out, b);
    assert(out@ =~= b@);
    out
}

/// `String::from_utf8`: the bytes become the string they encode.
#[verifier::external_body]
pub(crate) fn utf8_string(bytes: Vec<u8>) -> (s: String)
    requires
        valid_utf8(bytes@),
    ensures
        s@ == decode_utf8(bytes@),
{
    String::from_utf8(bytes).unwrap()
}

/// `std::str::from_utf8`: whether the bytes are valid UTF-8.
#[verifier::external_body]
pub(crate) fn utf8_check(b: &[u8]) -> (r: bool)
    ensures
        r == valid_utf8(b@),
{
    std::str::from_utf8(b).is_ok()
}

/// Turn a buffer of UTF-8 bytes into a `String`, keeping the same bytes.
pub fn string_from_utf8(bytes: Vec<u8>) -> (s: String)
    requires
        valid_utf8(bytes@),
    ensures
        encode_utf8(s@) == bytes@,
{
    let ghost b = bytes@;
    let s = utf8_string(bytes);
    proof {
        decode_utf8_encode_utf8(b);
    }
    s
}

/// Turn a buffer of ASCII bytes into a `String`.
pub fn string_from_ascii(bytes: Vec<u8>) -> (s: String)
    requires
        all_ascii(bytes@),
    ensures
        encode_utf8(s@) == bytes@,
{
    proof {
        lemma_ascii_valid_utf8(bytes@);
    }
    string_from_utf8(bytes)
}

/// Append the decimal spelling of a 128-bit number.
pub fn push_decimal_u128(out: &mut Vec<u8>, n: u128)
    ensures
        final(out)@ == old(out)@ + decimal(n as nat),
    decreases n,
{
    if n >= 10 {
        push_decimal_u128(out, n / 10);
    }
    let digit: u8 = (n % 10) as u8;
    out.push(48 + digit);
}

/// Append the bytes of a string slice.
pub fn push_str(out: &mut Vec<u8>, s: &str)
    ensures
        final(out)@ == old(out)@ + s.spec_bytes(),
        valid_utf8(old(out)@) ==> valid_utf8(final(out)@),
{
    proof {
        encode_utf8_valid_utf8(s@);
        if valid_utf8(old(out)@) {
            valid_utf8_concat(old(out)@, s.spec_bytes());
        }
    }
    push_all(out, s.as_bytes());
}

/// Whether two strings hold the same characters.
pub fn str_eq(a: &str, b: &str) -> (r: bool)
    ensures
        r == (a@ == b@),
{
    let r = bytes_equal(a.as_bytes(), b.as_bytes());
    proof {
        encode_utf8_decode_utf8(a@);
        encode_utf8_decode_utf8(b@);
    }
    r
}

/// Whether `needle` occurs in `hay` at position `i`.
pub open spec fn occurs_at(hay: Seq<u8>, needle: Seq<u8>, i: int) -> bool {
    0 <= i && i + needle.len() <= hay.len() && hay.subrange(i, i + needle.len()) == needle
}

/// Whether `needle` occurs anywhere in `hay`.
pub open spec fn seq_contains(hay: Seq<u8>, needle: Seq<u8>) -> bool {
    exists|i: int| occurs_at(hay, needle, i)
}

/// Whether `needle` occurs in `hay` at position `i`.
pub fn bytes_occur_at(hay: &[u8], needle: &[u8], i: usize) -> (r: bool)
    ensures
        r == occurs_at(hay@, needle@, i as int),
{
    if needle.len() > hay.len() || i > hay.len() - needle.len() {
        return false;
    }
    let mut j: usize = 0;
    while j < needle.len()
        invariant
            j <= needle@.len(),
            i + needle@.len() <= hay@.len(),
            hay@.len() <= usize::MAX,
            forall|k: int| 0 <= k < j ==> hay@[i + k] == needle@[k],
        decreases needle@.len() - j,
    {
        assert(i + j < hay@.len());
        if hay[i + j] != needle[j] {
            assert(hay@.subrange(i as int, i + needle@.len())[j as int] != needle@[j as int]);
            return false;
        }
        j += 1;
    }
    assert(hay@.subrange(i as int, i + needle@.len()) =~= needle@);
    true
}

/// Whether the bytes of `needle` occur in the bytes of `hay`.
pub fn str_contains(hay: &str, needle: &str) -> (r: bool)
    ensures
        r == seq_contains(hay.spec_bytes(), needle.spec_bytes()),
{
    let h = hay.as_bytes();
    let n = needle.as_bytes();
    let mut i: usize = 0;
    while i < h.len()
        invariant
            i <= h@.len(),
            h@ == hay.spec_bytes(),
            n@ == needle.spec_bytes(),
            forall|k: int| 0 <= k < i ==> !occurs_at(h@, n@, k),
        decreases h@.len() - i,
    {
        if bytes_occur_at(h, n, i) {
            return true;
        }
        i += 1;
    }
    let r = bytes_occur_at(h, n, i);
    assert(!r ==> forall|k: int| !occurs_at(h@, n@, k)) by {
        if !r {
            assert forall|k: int| !occurs_at(h@, n@, k) by {
                if 0 <= k && k + n@.len() <= h@.len() && k > i {
                    assert(false);
                }
            }
        }
    }
    r
}

/// After an ASCII prefix, a valid UTF-8 buffer is at a character boundary,
/// so what follows is valid UTF-8 too.
pub proof fn lemma_ascii_prefix_split(bytes: Seq<u8>, n: int)
    requires
        valid_utf8(bytes),
        0 <= n <= bytes.len(),
        forall|i: int| 0 <= i < n ==> #[trigger] bytes[i] < 128,
    ensures
        is_char_boundary(bytes, n),
        valid_utf8(bytes.subrange(n, bytes.len() as int)),
    decreases n,
{
    if n > 0 {
        assert(is_leading_byte_width_1(bytes[0]));
        let rest = pop_first_scalar(bytes);
        assert(rest =~= bytes.subrange(1, bytes.len() as int));
        assert forall|i: int| 0 <= i < n - 1 implies #[trigger] rest[i] < 128 by {
            assert(rest[i] == bytes[i + 1]);
        }
        lemma_ascii_prefix_split(rest, n - 1);
        assert(rest.subrange(n - 1, rest.len() as int) =~= bytes.subrange(n, bytes.len() as int));
    } else {
        assert(bytes.subrange(n, bytes.len() as int) =~= bytes);
    }
}

/// In valid UTF-8, the position just after an ASCII byte is a character
/// boundary.
pub proof fn lemma_boundary_after_ascii(b: Seq<u8>, n: int)
    requires
        valid_utf8(b),
        0 < n <= b.len(),
        b[n - 1] < 128,
    ensures
        is_char_boundary(b, n),
    decreases b.len(),
{
    let l = length_of_first_scalar(b);
    if n - 1 < l {
        if l >= 2 {
            if n - 1 == 0 {
                assert(b[0] >= 0xc0);
            } else {
                assert(is_continuation_byte(b[n - 1]));
            }
        }
        assert(l == 1);
        assert(is_char_boundary(pop_first_scalar(b), 0));
    } else {
        let rest = pop_first_scalar(b);
        assert(rest[n - 1 - l] == b[n - 1]);
        lemma_boundary_after_ascii(rest, n - l);
    }
}

/// Where the first `=` is, if anywhere.
pub open spec fn first_equals(b: Seq<u8>) -> Option<int>
    decreases b.len(),
{
    if b.len() == 0 {
        None
    } else if b[0] == 61u8 {
        Some(0)
    } else {
        match first_equals(b.drop_first()) {
            Some(k) => Some(k + 1),
            None => None,
        }
    }
}

/// What follows the first `=`, or nothing when there is none.
pub open spec fn after_equals(b: Seq<u8>) -> Seq<u8> {
    match first_equals(b) {
        Some(k) => b.subrange(k + 1, b.len() as int),
        None => seq![],
    }
}

/// What precedes the first `=`, or everything when there is none.
pub open spec fn before_equals(b: Seq<u8>) -> Seq<u8> {
    match first_equals(b) {
        Some(k) => b.subrange(0, k),
        None => b,
    }
}

proof fn lemma_first_equals(b: Seq<u8>, k: int)
    requires
        0 <= k <= b.len(),
        forall|j: int| 0 <= j < k ==> b[j] != 61u8,
    ensures
        k < b.len() && b[k] == 61u8 ==> first_equals(b) == Some(k),
        k == b.len() ==> first_equals(b) is None,
    decreases k,
{
    if k > 0 {
        lemma_first_equals(b.drop_first(), k - 1);
    }
}

/// Split a string at its first `=`: the text before it and after it, or the
/// whole string and nothing when there is none.
pub fn split_at_equals(s: &str) -> (r: (String, String))
    ensures
        string_bytes(r.0) == before_equals(s.spec_bytes()),
        string_bytes(r.1) == after_equals(s.spec_bytes()),
{
    let b = s.as_bytes();
    let mut k: usize = 0;
    while k < b.len() && b[k] != 61u8
        invariant
            k <= b@.len(),
            forall|j: int| 0 <= j < k ==> b@[j] != 61u8,
        decreases b@.len() - k,
    {
        k += 1;
    }
    proof {
        lemma_first_equals(b@, k as int);
        encode_utf8_valid_utf8(s@);
    }
    let mut before: Vec<u8> = Vec::new();
    let mut i: usize = 0;
    while i < k
        invariant
            i <= k <= b@.len(),
            before@ == b@.subrange(0, i as int),
        decreases k - i,
    {
        before.push(b[i]);
        i += 1;
        proof {
            assert(before@ =~= b@.subrange(0, i as int));
        }
    }
    let mut after: Vec<u8> = Vec::new();
    if k < b.len() {
        let mut j: usize = k + 1;
        while j < b.len()
            invariant
                k < b@.len(),
                k + 1 <= j <= b@.len(),
                after@ == b@.subrange(k + 1, j as int),
            decreases b@.len() - j,
        {
            after.push(b[j]);
            j += 1;
            proof {
                assert(after@ =~= b@.subrange(k + 1, j as int));
            }
        }
        proof {
            lemma_boundary_after_ascii(b@, k + 1);
            valid_utf8_split(b@, k + 1);
            lemma_eq_prefix_valid(b@, k as int);
        }
    } else {
        proof {
            assert(b@.subrange(0, k as int) =~= b@);
            assert(valid_utf8(seq![]));
        }
    }
    (string_from_utf8(before), string_from_utf8(after))
}

/// The bytes before an ASCII byte of valid UTF-8 are valid UTF-8.
pub proof fn lemma_eq_prefix_valid(b: Seq<u8>, k: int)
    requires
        valid_utf8(b),
        0 <= k < b.len(),
        b[k] < 128,
    ensures
        valid_utf8(b.subrange(0, k)),
{
    if k == 0 {
        assert(b.subrange(0, 0) =~= seq![]);
    } else {
        lemma_boundary_after_ascii(b, k + 1);
        valid_utf8_split(b, k + 1);
        let pre = b.subrange(0, k + 1);
        assert(valid_utf8(pre));
        // The last byte of `pre` is a one-byte scalar; dropping it keeps validity.
        lemma_drop_ascii_last(pre);
        assert(pre.subrange(0, k) =~= b.subrange(0, k));
    }
}

/// Dropping a trailing ASCII byte keeps a valid UTF-8 buffer valid.
pub proof fn lemma_drop_ascii_last(b: Seq<u8>)
    requires
        valid_utf8(b),
        b.len() > 0,
        b[b.len() - 1] < 128,
    ensures
        valid_utf8(b.subrange(0, b.len() - 1)),
    decreases b.len(),
{
    let l = length_of_first_scalar(b);
    let rest = pop_first_scalar(b);
    if rest.len() == 0 {
        assert(l == b.len());
        if l >= 2 {
            assert(is_continuation_byte(b[l - 1]));
        }
        assert(b.subrange(0, b.len() - 1) =~= seq![]);
    } else {
        assert(rest[rest.len() - 1] == b[b.len() - 1]);
        lemma_drop_ascii_last(rest);
        let head = take_first_scalar(b);
        take_first_scalar_valid_utf8_pub(b);
        valid_utf8_concat(head, rest.subrange(0, rest.len() - 1));
        assert(head + rest.subrange(0, rest.len() - 1) =~= b.subrange(0, b.len() - 1));
    }
}

/// The first scalar of valid UTF-8 is valid UTF-8 on its own.
proof fn take_first_scalar_valid_utf8_pub(b: Seq<u8>)
    requires
        valid_utf8(b),
        b.len() > 0,
    ensures
        valid_utf8(take_first_scalar(b)),
{
    let t = take_first_scalar(b);
    let l = length_of_first_scalar(b);
    assert(t.len() == l);
    assert(forall|i: int| 0 <= i < l ==> t[i] == b[i]);
    if l >= 1 {
        assert(t[0] == b[0]);
    }
    if l >= 2 {
        assert(t[1] == b[1]);
    }
    if l >= 3 {
        assert(t[2] == b[2]);
    }
    if l >= 4 {
        assert(t[3] == b[3]);
    }
    assert(valid_first_scalar(t));
    assert(length_of_first_scalar(t) == l);
    assert(pop_first_scalar(t) =~= seq![]);
    assert(valid_utf8(pop_first_scalar(t)));
}

/// Whether every byte is an ASCII digit.
pub open spec fn all_digits(d: Seq<u8>) -> bool {
    forall|i: int| 0 <= i < d.len() ==> 48 <= #[trigger] d[i] <= 57
}

/// The number a run of ASCII digits spells.
pub open spec fn digits_value(d: Seq<u8>) -> nat
    decreases d.len(),
{
    if d.len() == 0 {
        0
    } else {
        digits_value(d.drop_last()) * 10 + (d.last() - 48) as nat
    }
}

/// What `str::parse::<usize>` gives: an optional `+`, then one or more ASCII
/// digits whose value fits a `usize`.
pub open spec fn parse_usize_spec(v: Seq<u8>) -> Option<usize> {
    let d = if v.len() > 0 && v[0] == 43u8 {
        v.drop_first()
    } else {
        v
    };
    if d.len() > 0 && all_digits(d) && digits_value(d) <= usize::MAX {
        Some(digits_value(d) as usize)
    } else {
        None
    }
}

proof fn lemma_digits_grow(d: Seq<u8>, i: int, j: int)
    requires
        0 <= i <= j <= d.len(),
        all_digits(d),
    ensures
        digits_value(d.take(i)) <= digits_value(d.take(j)),
    decreases j - i,
{
    if i < j {
        lemma_digits_grow(d, i, j - 1);
        assert(d.take(j).drop_last() =~= d.take(j - 1));
    }
}

fn digit_step(value: usize, c: u8) -> (r: Option<usize>)
    requires
        48 <= c <= 57,
    ensures
        value * 10 + (c - 48) <= usize::MAX ==> r == Some((value * 10 + (c - 48)) as usize),
        value * 10 + (c - 48) > usize::MAX ==> r is None,
{
    match value.checked_mul(10) {
        Some(m) => m.checked_add((c - 48) as usize),
        None => {
            assert(value * 10 + (c - 48) > usize::MAX) by (nonlinear_arith)
                requires
                    value * 10 > usize::MAX,
                    48 <= c,
            ;
            None
        },
    }
}

fn parse_digits(d: &[u8]) -> (r: Option<usize>)
    ensures
        r == (if d@.len() > 0 && all_digits(d@) && digits_value(d@) <= usize::MAX {
            Some(digits_value(d@) as usize)
        } else {
            None
        }),
{
    if d.len() == 0 {
        return None;
    }
    let mut value: usize = 0;
    let mut i: usize = 0;
    proof {
        assert(d@.take(0) =~= seq![]);
    }
    while i < d.len()
        invariant
            i <= d@.len(),
            all_digits(d@.take(i as int)),
            value == digits_value(d@.take(i as int)),
        decreases d@.len() - i,
    {
        let c = d[i];
        if c < 48 || c > 57 {
            assert(!all_digits(d@));
            return None;
        }
        proof {
            assert(d@.take(i + 1).drop_last() =~= d@.take(i as int));
            assert(d@.take(i + 1).last() == c);
        }
        match digit_step(value, c) {
            Some(n) => {
                value = n;
            },
            None => {
                proof {
                    if all_digits(d@) {
                        lemma_digits_grow(d@, i + 1, d@.len() as int);
                        assert(d@.take(d@.len() as int) =~= d@);
                    }
                }
                return None;
            },
        }
        i += 1;
        proof {
            assert forall|k: int| 0 <= k < i implies 48 <= #[trigger] d@.take(i as int)[k] <= 57 by {
                if k < i - 1 {
                    assert(d@.take(i as int)[k] == d@.take(i - 1)[k]);
                }
            }
        }
    }
    proof {
        assert(d@.take(i as int) =~= d@);
    }
    Some(value)
}

/// Parse a decimal `usize` the way `str::parse` does.
pub fn parse_usize(v: &[u8]) -> (r: Option<usize>)
    ensures
        r == parse_usize_spec(v@),
{
    let start: usize = if v.len() > 0 && v[0] == 43u8 {
        1
    } else {
        0
    };
    let mut digits: Vec<u8> = Vec::new();
    let mut i: usize = start;
    while i < v.len()
        invariant
            start <= i <= v@.len(),
            digits@ == v@.subrange(start as int, i as int),
        decreases v@.len() - i,
    {
        digits.push(v[i]);
        i += 1;
        proof {
            assert(digits@ =~= v@.subrange(start as int, i as int));
        }
    }
    proof {
        if start == 1 {
            assert(digits@ =~= v@.drop_first());
        } else {
            assert(digits@ =~= v@);
        }
    }
    parse_digits(digits.as_slice())
}

/// The bytes between two character boundaries of valid UTF-8 are valid
/// UTF-8.
pub proof fn lemma_valid_between(b: Seq<u8>, start: int, end: int)
    requires
        valid_utf8(b),
        0 <= start <= end <= b.len(),
        is_char_boundary(b, start),
        is_char_boundary(b, end),
    ensures
        valid_utf8(b.subrange(start, end)),
{
    if start == end {
        assert(b.subrange(start, end) =~= seq![]);
    } else {
        valid_utf8_split(b, end);
        let p = b.subrange(0, end);
        if start > 0 {
            is_char_boundary_iff_not_is_continuation_byte(b, start);
            assert(p[start] == b[start]);
            is_char_boundary_iff_not_is_continuation_byte(p, start);
        }
        valid_utf8_split(p, start);
        assert(p.subrange(start, end) =~= b.subrange(start, end));
    }
}

/// Turning one ASCII byte into another ASCII byte throughout keeps UTF-8
/// valid.
pub proof fn lemma_swap_ascii(b: Seq<u8>, from: u8, to: u8)
    requires
        valid_utf8(b),
        from < 128,
        to < 128,
    ensures
        valid_utf8(b.map_values(|c: u8| if c == from { to } else { c })),
    decreases b.len(),
{
    let m = b.map_values(|c: u8| if c == from { to } else { c });
    if b.len() > 0 {
        let l = length_of_first_scalar(b);
        let rest = pop_first_scalar(b);
        lemma_swap_ascii(rest, from, to);
        let mr = rest.map_values(|c: u8| if c == from { to } else { c });
        if l == 1 {
            assert(is_leading_byte_width_1(m[0]));
            assert(m.subrange(1, m.len() as int) =~= mr);
        } else {
            assert(b[0] >= 0xc0);
            assert(m[0] == b[0]);
            assert(m[1] == b[1]);
            if l >= 3 {
                assert(m[2] == b[2]);
            }
            if l >= 4 {
                assert(m[3] == b[3]);
            }
            assert(length_of_first_scalar(m) == l);
            assert(m.subrange(l, m.len() as int) =~= mr);
        }
        assert(valid_first_scalar(m));
        assert(pop_first_scalar(m) =~= mr);
    }
}

/// The bytes of an ASCII string are its characters.
pub proof fn lemma_ascii_literal(s: &str)
    requires
        is_ascii_chars(s@),
    ensures
        s.spec_bytes().len() == s@.len(),
        all_ascii(s.spec_bytes()),
        forall|i: int| 0 <= i < s@.len() ==> #[trigger] s.spec_bytes()[i] == s@[i] as u8,
{
    is_ascii_chars_encode_utf8(s@);
}

/// An ASCII byte of valid UTF-8 starts a character.
pub proof fn lemma_ascii_is_boundary(b: Seq<u8>, i: int)
    requires
        valid_utf8(b),
        0 <= i < b.len(),
        b[i] < 128,
    ensures
        is_char_boundary(b, i),
{
    if i > 0 {
        is_char_boundary_iff_not_is_continuation_byte(b, i);
    }
}

/// The text between two character boundaries of a UTF-8 buffer.
pub fn sub_string(b: &[u8], start: usize, end: usize) -> (r: String)
    requires
        valid_utf8(b@),
        start <= end <= b@.len(),
        is_char_boundary(b@, start as int),
        is_char_boundary(b@, end as int),
    ensures
        string_bytes(r) == b@.subrange(start as int, end as int),
{
    let mut out: Vec<u8> = Vec::new();
    let mut i: usize = start;
    while i < end
        invariant
            start <= i <= end <= b@.len(),
            out@ == b@.subrange(start as int, i as int),
        decreases end - i,
    {
        out.push(b[i]);
        i += 1;
        proof {
            assert(out@ =~= b@.subrange(start as int, i as int));
        }
    }
    proof {
        lemma_valid_between(b@, start as int, end as int);
    }
    string_from_utf8(out)
}

/// The part of a string after its first `n` bytes, when those are ASCII.
pub fn suffix_after_ascii(s: &str, n: usize) -> (r: String)
    requires
        n <= s.spec_bytes().len(),
        forall|i: int| 0 <= i < n ==> #[trigger] s.spec_bytes()[i] < 128,
    ensures
        string_bytes(r) == s.spec_bytes().subrange(n as int, s.spec_bytes().len() as int),
{
    let b = s.as_bytes();
    proof {
        encode_utf8_valid_utf8(s@);
        lemma_ascii_prefix_split(b@, n as int);
    }
    let mut out: Vec<u8> = Vec::new();
    let mut i: usize = n;
    while i < b.len()
        invariant
            n <= i <= b@.len(),
            out@ == b@.subrange(n as int, i as int),
        decreases b@.len() - i,
    {
        out.push(b[i]);
        i += 1;
        proof {
            assert(out@ =~= b@.subrange(n as int, i as int));
        }
    }
    string_from_utf8(out)
}

/// Append the decimal spelling of `n`, keeping a buffer valid UTF-8.
pub fn push_decimal_text(out: &mut Vec<u8>, n: u64)
    ensures
        final(out)@ == old(out)@ + decimal(n as nat),
        valid_utf8(old(out)@) ==> valid_utf8(final(out)@),
{
    proof {
        lemma_decimal_ascii(n as nat);
        if valid_utf8(old(out)@) {
            lemma_append_ascii(old(out)@, decimal(n as nat));
        }
    }
    push_decimal(out, n);
}

/// The decimal spelling of `n`, as characters.
pub open spec fn decimal_chars(n: nat) -> Seq<char>
    decreases n,
{
    if n < 10 {
        seq![((48 + n) as u8) as char]
    } else {
        decimal_chars(n / 10) + seq![((48 + n % 10) as u8) as char]
    }
}

/// The single digit `d` as a string.
fn digit_str(d: u64) -> (r: &'static str)
    requires
        d < 10,
    ensures
        r@ == seq![((48 + d) as u8) as char],
{
    proof {
        reveal_strlit("0");
        reveal_strlit("1");
        reveal_strlit("2");
        reveal_strlit("3");
        reveal_strlit("4");
        reveal_strlit("5");
        reveal_strlit("6");
        reveal_strlit("7");
        reveal_strlit("8");
        reveal_strlit("9");
    }
    if d == 0 {
        "0"
    } else if d == 1 {
        "1"
    } else if d == 2 {
        "2"
    } else if d == 3 {
        "3"
    } else if d == 4 {
        "4"
    } else if d == 5 {
        "5"
    } else if d == 6 {
        "6"
    } else if d == 7 {
        "7"
    } else if d == 8 {
        "8"
    } else {
        "9"
    }
}

/// Append the decimal spelling of `n` to a string.
pub fn append_decimal(out: &mut String, n: u64)
    ensures
        final(out)@ == old(out)@ + decimal_chars(n as nat),
    decreases n,
{
    if n >= 10 {
        append_decimal(out, n / 10);
    }
    out.append(digit_str(n % 10));
}

/// The decimal spelling of `n` as a string.
pub fn decimal_text(n: u64) -> (r: String)
    ensures
        r@ == decimal_chars(n as nat),
{
    let mut r = String::new();
    append_decimal(&mut r, n);
    r
}

/// The signed decimal spelling of `n`, as characters.
pub open spec fn signed_decimal_chars(n: int) -> Seq<char> {
    if n < 0 {
        "-"@ + decimal_chars((-n) as nat)
    } else {
        decimal_chars(n as nat)
    }
}

/// The signed decimal spelling of `n` as a string.
pub fn signed_decimal_text(n: i64) -> (r: String)
    ensures
        r@ == signed_decimal_chars(n as int),
{
    if n < 0 {
        let magnitude: u64 = if n == i64::MIN {
            0x8000_0000_0000_0000u64
        } else {
            (-n) as u64
        };
        let mut r = "-".to_owned();
        append_decimal(&mut r, magnitude);
        r
    } else {
        decimal_text(n as u64)
    }
}

/// Append one ASCII byte.
pub fn push_ascii(out: &mut Vec<u8>, b: u8)
    requires
        b < 128,
    ensures
        final(out)@ == old(out)@.push(b),
        valid_utf8(old(out)@) ==> valid_utf8(final(out)@),
{
    proof {
        assert(all_ascii(seq![b]));
        if valid_utf8(old(out)@) {
            lemma_append_ascii(old(out)@, seq![b]);
            assert(old(out)@ + seq![b] =~= old(out)@.push(b));
        }
    }
    out.push(b);
}

/// Appending ASCII keeps a buffer valid UTF-8.
pub proof fn lemma_append_ascii(a: Seq<u8>, b: Seq<u8>)
    requires
        valid_utf8(a),
        all_ascii(b),
    ensures
        valid_utf8(a + b),
{
    lemma_ascii_valid_utf8(b);
    valid_utf8_concat(a, b);
}

} // verus!
