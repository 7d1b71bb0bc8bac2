//! Small text helpers shared by the library: ASCII byte strings, hex digits.

use vstd::prelude::*;
use vstd::string::StringExecFns;
use vstd::string::StrSliceExecFns;

verus! {

/// Every byte is a 7-bit ASCII code.
pub open spec fn all_ascii(bytes: Seq<u8>) -> bool {
    forall|i: int| 0 <= i < bytes.len() ==> bytes[i] < 128
}

/// The characters that ASCII bytes stand for, one per byte.
pub open spec fn ascii_chars(bytes: Seq<u8>) -> Seq<char> {
    Seq::new(bytes.len(), |i: int| bytes[i] as char)
}

/// Wraps `String::from_utf8`. Its documentation states that valid UTF-8 is
/// accepted unchanged; ASCII bytes are valid UTF-8 and each byte is one char.
#[verifier::external_body]
pub fn ascii_string(bytes: Vec<u8>) -> (text: String)
    requires
        all_ascii(bytes@),
    ensures
        text@ == ascii_chars(bytes@),
{
    String::from_utf8(bytes).unwrap_or_default()
}

/// Lower-case hexadecimal digit for `value < 16`.
pub open spec fn hex_digit(value: int) -> u8 {
    if value < 10 {
        (48 + value) as u8
    } else {
        (87 + value) as u8
    }
}

pub fn hex_digit_byte(value: u8) -> (digit: u8)
    requires
        value < 16,
    ensures
        digit == hex_digit(value as int),
        digit < 128,
{
    if value < 10 {
        48 + value
    } else {
        87 + value
    }
}

/// Two lower-case hex digits of a byte.
pub open spec fn hex_byte(value: u8) -> Seq<u8> {
    seq![hex_digit(value as int / 16), hex_digit(value as int % 16)]
}

/// Lower-case hex of every byte, in order.
pub open spec fn hex_bytes(bytes: Seq<u8>) -> Seq<u8>
    decreases bytes.len(),
{
    if bytes.len() == 0 {
        seq![]
    } else {
        hex_byte(bytes[0]) + hex_bytes(bytes.skip(1))
    }
}

pub proof fn lemma_hex_bytes_push(bytes: Seq<u8>, b: u8)
    ensures
        hex_bytes(bytes.push(b)) == hex_bytes(bytes) + hex_byte(b),
    decreases bytes.len(),
{
    if bytes.len() == 0 {
        assert(bytes.push(b).skip(1) =~= Seq::<u8>::empty());
        assert(hex_bytes(Seq::<u8>::empty()) == Seq::<u8>::empty());
        assert(hex_bytes(bytes.push(b)) =~= hex_byte(b));
    } else {
        assert(bytes.push(b).skip(1) =~= bytes.skip(1).push(b));
        lemma_hex_bytes_push(bytes.skip(1), b);
        assert(hex_bytes(bytes.push(b)) =~= hex_bytes(bytes) + hex_byte(b));
    }
}

/// Append the lower-case hex of `bytes` to `out`.
pub fn push_hex(out: &mut Vec<u8>, bytes: &[u8])
    ensures
        final(out)@ == old(out)@ + hex_bytes(bytes@),
        all_ascii(old(out)@) ==> all_ascii(final(out)@),
{
    let ghost start = out@;
    let mut i: usize = 0;
    while i < bytes.len()
        invariant
            i <= bytes@.len(),
            out@ == start + hex_bytes(bytes@.take(i as int)),
            all_ascii(start) ==> all_ascii(out@),
        decreases bytes@.len() - i,
    {
        let b = bytes[i];
        let hi = hex_digit_byte(b / 16);
        let lo = hex_digit_byte(b % 16);
        out.push(hi);
        out.push(lo);
        proof {
            assert(bytes@.take(i + 1) =~= bytes@.take(i as int).push(b));
            lemma_hex_bytes_push(bytes@.take(i as int), b);
        }
        i = i + 1;
    }
    assert(bytes@.take(bytes@.len() as int) =~= bytes@);
}

} // verus!

verus! {

/// ASCII decimal digits of a natural number, most significant first.
pub open spec fn decimal_digits(value: nat) -> Seq<u8>
    decreases value,
{
    if value < 10 {
        seq![(48 + value) as u8]
    } else {
        decimal_digits(value / 10).push((48 + value % 10) as u8)
    }
}

/// Decimal text of a signed integer, with a leading `-` when negative.
pub open spec fn decimal_text(value: int) -> Seq<char> {
    if value < 0 {
        seq!['-'] + ascii_chars(decimal_digits((-value) as nat))
    } else {
        ascii_chars(decimal_digits(value as nat))
    }
}

proof fn lemma_decimal_ascii(value: nat)
    ensures
        all_ascii(decimal_digits(value)),
        decimal_digits(value).len() >= 1,
    decreases value,
{
    if value >= 10 {
        lemma_decimal_ascii(value / 10);
    }
}

fn decimal_bytes(value: u64) -> (digits: Vec<u8>)
    ensures
        digits@ == decimal_digits(value as nat),
    decreases value,
{
    if value < 10 {
        let d: Vec<u8> = vec![(48 + value) as u8];
        assert(d@ =~= seq![(48 + value) as u8]);
        d
    } else {
        let mut d = decimal_bytes(value / 10);
        d.push((48 + value % 10) as u8);
        d
    }
}

/// Decimal text of an unsigned integer.
pub fn decimal_u64(value: u64) -> (text: String)
    ensures
        text@ == decimal_text(value as int),
{
    proof {
        lemma_decimal_ascii(value as nat);
    }
    ascii_string(decimal_bytes(value))
}

/// Decimal text of a signed integer.
pub fn decimal_i64(value: i64) -> (text: String)
    ensures
        text@ == decimal_text(value as int),
{
    if value >= 0 {
        decimal_u64(value as u64)
    } else {
        let magnitude: u64 = ((0i128 - value as i128) as u64);
        let mut bytes: Vec<u8> = vec![45u8];
        let digits = decimal_bytes(magnitude);
        proof {
            lemma_decimal_ascii(magnitude as nat);
        }
        let mut i: usize = 0;
        while i < digits.len()
            invariant
                i <= digits@.len(),
                bytes@ == seq![45u8] + digits@.take(i as int),
            decreases digits@.len() - i,
        {
            bytes.push(digits[i]);
            proof {
                assert(digits@.take(i + 1) =~= digits@.take(i as int).push(digits@[i as int]));
            }
            i = i + 1;
        }
        proof {
            assert(digits@.take(digits@.len() as int) =~= digits@);
            assert(all_ascii(bytes@));
            assert(ascii_chars(bytes@) =~= seq!['-'] + ascii_chars(decimal_digits((-(value as int)) as nat)));
        }
        ascii_string(bytes)
    }
}

} // verus!

verus! {

/// Debug-style text of a coordinate: `[x, y, z]`.
pub open spec fn coord_text(c: [i64; 3]) -> Seq<char> {
    "["@ + decimal_text(c[0] as int) + ", "@ + decimal_text(c[1] as int) + ", "@ + decimal_text(c[2] as int) + "]"@
}

pub fn coord_string(c: [i64; 3]) -> (text: String)
    ensures
        text@ == coord_text(c),
{
    let mut text = String::from_str("[");
    text.append(decimal_i64(c[0]).as_str());
    text.append(", ");
    text.append(decimal_i64(c[1]).as_str());
    text.append(", ");
    text.append(decimal_i64(c[2]).as_str());
    text.append("]");
    text
}

} // verus!

verus! {

/// The `Debug` rendering of a string: quoted, with escapes.
pub uninterp spec fn debug_text(value: Seq<char>) -> Seq<char>;

/// Wraps the standard `Debug` formatting of `str` (`format!("{:?}")`),
/// which quotes the text and escapes quotes, backslashes and control and
/// non-printable characters; only its dependence on the text is stated.
#[verifier::external_body]
pub(crate) fn debug_string(value: &str) -> (text: String)
    ensures
        text@ == debug_text(value@),
{
    format!("{:?}", value)
}

/// Unicode `White_Space` code points, as `char::is_whitespace` documents.
pub open spec fn white_space(c: char) -> bool {
    let v = c as u32;
    (0x09 <= v <= 0x0d) || v == 0x20 || v == 0x85 || v == 0xa0 || v == 0x1680 || (0x2000 <= v <= 0x200a)
        || v == 0x2028 || v == 0x2029 || v == 0x202f || v == 0x205f || v == 0x3000
}

pub fn is_white_space(c: char) -> (ws: bool)
    ensures
        ws == white_space(c),
{
    let v = c as u32;
    (0x09 <= v && v <= 0x0d) || v == 0x20 || v == 0x85 || v == 0xa0 || v == 0x1680 || (0x2000 <= v && v <= 0x200a)
        || v == 0x2028 || v == 0x2029 || v == 0x202f || v == 0x205f || v == 0x3000
}

/// Non-empty, with no white space at either end (the text equals its
/// `trim`).
pub open spec fn canonical_text(v: Seq<char>) -> bool {
    v.len() > 0 && !white_space(v[0]) && !white_space(v.last())
}

pub fn is_canonical_text(value: &str) -> (ok: bool)
    ensures
        ok == canonical_text(value@),
{
    let n = value.unicode_len();
    if n == 0 {
        return false;
    }
    !is_white_space(value.get_char(0)) && !is_white_space(value.get_char(n - 1))
}


/// Character-by-character equality of two texts.
pub fn text_equals(a: &str, b: &str) -> (same: bool)
    ensures
        same == (a@ == b@),
{
    let n = a.unicode_len();
    if n != b.unicode_len() {
        return false;
    }
    let mut i: usize = 0;
    while i < n
        invariant
            n == a@.len() == b@.len(),
            i <= n,
            forall|j: int| 0 <= j < i ==> a@[j] == b@[j],
        decreases n - i,
    {
        if a.get_char(i) != b.get_char(i) {
            return false;
        }
        i = i + 1;
    }
    assert(a@ =~= b@);
    true
}


/// The text begins with `prefix`.
pub open spec fn starts_with(text: Seq<char>, prefix: Seq<char>) -> bool {
    prefix.len() <= text.len() && text.subrange(0, prefix.len() as int) == prefix
}

pub fn text_starts_with(text: &str, prefix: &str) -> (found: bool)
    ensures
        found == starts_with(text@, prefix@),
{
    let n = prefix.unicode_len();
    if n > text.unicode_len() {
        return false;
    }
    let mut i: usize = 0;
    while i < n
        invariant
            n == prefix@.len() <= text@.len(),
            i <= n,
            forall|j: int| 0 <= j < i ==> text@[j] == prefix@[j],
        decreases n - i,
    {
        if text.get_char(i) != prefix.get_char(i) {
            assert(text@.subrange(0, n as int)[i as int] != prefix@[i as int]);
            return false;
        }
        i = i + 1;
    }
    assert(text@.subrange(0, n as int) =~= prefix@);
    true
}

} // verus!
