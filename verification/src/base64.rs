//! Minimal RFC 4648 standard base64 codec (with `=` padding).

use vstd::prelude::*;
use vstd::string::StringSliceAdditionalSpecFns;

use crate::text::{all_ascii, ascii_chars, ascii_string, hex_byte, push_hex};

verus! {

/// The alphabet byte for a six-bit value.
pub open spec fn alphabet(value: int) -> u8 {
    if value < 26 {
        (65 + value) as u8
    } else if value < 52 {
        (97 + value - 26) as u8
    } else if value < 62 {
        (48 + value - 52) as u8
    } else if value == 62 {
        43u8
    } else {
        47u8
    }
}

/// The six-bit value of an alphabet byte, or `None` for any other byte.
pub open spec fn symbol_value(symbol: u8) -> Option<int> {
    if 65 <= symbol <= 90 {
        Some(symbol - 65)
    } else if 97 <= symbol <= 122 {
        Some(symbol - 97 + 26)
    } else if 48 <= symbol <= 57 {
        Some(symbol - 48 + 52)
    } else if symbol == 43 {
        Some(62)
    } else if symbol == 47 {
        Some(63)
    } else {
        None
    }
}

pub open spec fn pad() -> u8 {
    61u8
}

/// The 24-bit group formed by up to three bytes (missing bytes are zero).
pub open spec fn group_value(chunk: Seq<u8>) -> int {
    let b0: int = chunk[0] as int;
    let b1: int = if chunk.len() > 1 { chunk[1] as int } else { 0 };
    let b2: int = if chunk.len() > 2 { chunk[2] as int } else { 0 };
    b0 * 65536 + b1 * 256 + b2
}

/// Encoding of one chunk of one to three bytes: four symbols, padded.
#[verifier::opaque]
pub open spec fn encode_chunk(chunk: Seq<u8>) -> Seq<u8> {
    let t = group_value(chunk);
    seq![
        alphabet(t / 262144),
        alphabet((t / 4096) % 64),
        if chunk.len() > 1 { alphabet((t / 64) % 64) } else { pad() },
        if chunk.len() > 2 { alphabet(t % 64) } else { pad() },
    ]
}

/// Standard base64 of `bytes`: one four-symbol group per three input bytes.
pub open spec fn spec_encode(bytes: Seq<u8>) -> Seq<u8>
    decreases bytes.len(),
{
    if bytes.len() == 0 {
        seq![]
    } else if bytes.len() <= 3 {
        encode_chunk(bytes)
    } else {
        encode_chunk(bytes.take(3)) + spec_encode(bytes.skip(3))
    }
}

/// Why an input is not canonical base64.
pub enum DecodeFault {
    /// The input length is not a multiple of four.
    Length,
    /// Padding appears outside the last group, or more than two pads.
    PaddingPlacement,
    /// A pad is followed by a non-pad symbol inside a group.
    PaddingNotTrailing,
    /// A byte outside the alphabet.
    Symbol(u8),
}

pub open spec fn is_pad(symbol: u8) -> int {
    if symbol == pad() { 1 } else { 0 }
}

pub open spec fn pad_count(quad: Seq<u8>) -> int {
    is_pad(quad[0]) + is_pad(quad[1]) + is_pad(quad[2]) + is_pad(quad[3])
}

/// The first fault among the symbols at positions `position..4` of a group.
pub open spec fn symbol_fault(quad: Seq<u8>, padding: int, position: int) -> Option<DecodeFault>
    decreases 4 - position,
{
    if position >= 4 {
        None
    } else if quad[position] == pad() {
        if position < 4 - padding {
            Some(DecodeFault::PaddingNotTrailing)
        } else {
            symbol_fault(quad, padding, position + 1)
        }
    } else if symbol_value(quad[position]) is None {
        Some(DecodeFault::Symbol(quad[position]))
    } else {
        symbol_fault(quad, padding, position + 1)
    }
}

/// Six-bit value of a group position; pads count as zero.
pub open spec fn position_value(symbol: u8) -> int {
    if symbol == pad() {
        0
    } else {
        symbol_value(symbol).unwrap()
    }
}

pub open spec fn quad_value(quad: Seq<u8>) -> int {
    position_value(quad[0]) * 262144 + position_value(quad[1]) * 4096 + position_value(quad[2])
        * 64 + position_value(quad[3])
}

/// Bytes produced by one admitted group.
pub open spec fn quad_bytes(quad: Seq<u8>) -> Seq<u8> {
    let t = quad_value(quad);
    let padding = pad_count(quad);
    let first = seq![(t / 65536) as u8];
    let second = if padding < 2 { first.push(((t / 256) % 256) as u8) } else { first };
    if padding < 1 { second.push((t % 256) as u8) } else { second }
}

/// Decoding of one group; `last` tells whether it ends the input.
#[verifier::opaque]
pub open spec fn decode_quad(quad: Seq<u8>, last: bool) -> Result<Seq<u8>, DecodeFault> {
    let padding = pad_count(quad);
    if padding > 0 && (!last || padding > 2) {
        Err(DecodeFault::PaddingPlacement)
    } else {
        match symbol_fault(quad, padding, 0) {
            Some(fault) => Err(fault),
            None => Ok(quad_bytes(quad)),
        }
    }
}

/// Decoding of a sequence of whole groups, stopping at the first fault.
#[verifier::opaque]
pub open spec fn decode_groups(text: Seq<u8>) -> Result<Seq<u8>, DecodeFault>
    decreases text.len(),
{
    if text.len() < 4 {
        Ok(seq![])
    } else {
        match decode_quad(text.take(4), text.len() == 4) {
            Err(fault) => Err(fault),
            Ok(head) => match decode_groups(text.skip(4)) {
                Err(fault) => Err(fault),
                Ok(tail) => Ok(head + tail),
            },
        }
    }
}

/// Strict standard base64 decoding of the bytes of a text.
pub open spec fn spec_decode(text: Seq<u8>) -> Result<Seq<u8>, DecodeFault> {
    if text.len() % 4 != 0 {
        Err(DecodeFault::Length)
    } else {
        decode_groups(text)
    }
}

fn alphabet_byte(value: u32) -> (symbol: u8)
    requires
        value < 64,
    ensures
        symbol == alphabet(value as int),
        symbol < 128,
{
    if value < 26 {
        (65 + value) as u8
    } else if value < 52 {
        (97 + value - 26) as u8
    } else if value < 62 {
        (48 + value - 52) as u8
    } else if value == 62 {
        43
    } else {
        47
    }
}

proof fn lemma_alphabet_ascii(value: int)
    requires
        0 <= value < 64,
    ensures
        alphabet(value) < 128,
        alphabet(value) != pad(),
        symbol_value(alphabet(value)) == Some(value),
{
}

proof fn lemma_encode_chunk_ascii(chunk: Seq<u8>)
    requires
        1 <= chunk.len() <= 3,
    ensures
        all_ascii(encode_chunk(chunk)),
        encode_chunk(chunk).len() == 4,
{
    reveal(encode_chunk);
    let t = group_value(chunk);
    assert(0 <= t < 16777216);
    lemma_alphabet_ascii(t / 262144);
    lemma_alphabet_ascii((t / 4096) % 64);
    lemma_alphabet_ascii((t / 64) % 64);
    lemma_alphabet_ascii(t % 64);
}

/// The encoding has four symbols per started three-byte group and is ASCII.
pub proof fn lemma_encode_shape(bytes: Seq<u8>)
    ensures
        spec_encode(bytes).len() == (bytes.len() + 2) / 3 * 4,
        all_ascii(spec_encode(bytes)),
    decreases bytes.len(),
{
    if bytes.len() == 0 {
    } else if bytes.len() <= 3 {
        lemma_encode_chunk_ascii(bytes);
    } else {
        lemma_encode_chunk_ascii(bytes.take(3));
        lemma_encode_shape(bytes.skip(3));
        let a = encode_chunk(bytes.take(3));
        let b = spec_encode(bytes.skip(3));
        assert forall|i: int| 0 <= i < (a + b).len() implies (a + b)[i] < 128 by {
            if i < a.len() {
                assert((a + b)[i] == a[i]);
            } else {
                assert((a + b)[i] == b[i - a.len()]);
            }
        }
    }
}

/// Encode `bytes` as standard, padded base64 text.
pub fn encode(bytes: &[u8]) -> (text: String)
    ensures
        text@ == ascii_chars(spec_encode(bytes@)),
        text@.len() == (bytes@.len() + 2) / 3 * 4,
{
    reveal(encode_chunk);
    let mut output: Vec<u8> = Vec::new();
    let n = bytes.len();
    let mut i: usize = 0;
    proof {
        assert(bytes@.skip(0) =~= bytes@);
    }
    while i < n
        invariant
            n == bytes@.len(),
            i <= n,
            spec_encode(bytes@) == output@ + spec_encode(bytes@.skip(i as int)),
            all_ascii(output@),
        decreases n - i,
    {
        let rest = n - i;
        let first = bytes[i] as u32;
        let second: u32 = if rest > 1 { bytes[i + 1] as u32 } else { 0 };
        let third: u32 = if rest > 2 { bytes[i + 2] as u32 } else { 0 };
        let triple: u32 = (first << 16) | (second << 8) | third;
        let ghost tail = bytes@.skip(i as int);
        let ghost chunk = if rest > 3 { tail.take(3) } else { tail };
        proof {
            assert(first < 256 && second < 256 && third < 256);
            assert((first << 16) | (second << 8) | third == first * 65536 + second * 256 + third)
                by (bit_vector)
                requires
                    first < 256 && second < 256 && third < 256,
            ;
            assert(chunk[0] == bytes@[i as int]);
            if rest > 1 {
                assert(chunk[1] == bytes@[i + 1]);
            }
            if rest > 2 {
                assert(chunk[2] == bytes@[i + 2]);
            }
            assert(triple == group_value(chunk));
            assert((triple >> 18) & 0x3f == triple / 262144) by (bit_vector)
                requires
                    triple < 16777216,
            ;
            assert((triple >> 12) & 0x3f == (triple / 4096) % 64) by (bit_vector);
            assert((triple >> 6) & 0x3f == (triple / 64) % 64) by (bit_vector);
            assert(triple & 0x3f == triple % 64) by (bit_vector);
        }
        let c0 = alphabet_byte((triple >> 18) & 0x3f);
        let c1 = alphabet_byte((triple >> 12) & 0x3f);
        let c2 = if rest > 1 { alphabet_byte((triple >> 6) & 0x3f) } else { 61u8 };
        let c3 = if rest > 2 { alphabet_byte(triple & 0x3f) } else { 61u8 };
        let ghost before = output@;
        output.push(c0);
        output.push(c1);
        output.push(c2);
        output.push(c3);
        proof {
            reveal(encode_chunk);
            assert(output@ =~= before + encode_chunk(chunk));
            if rest > 3 {
                assert(tail.skip(3) =~= bytes@.skip(i + 3));
                assert(spec_encode(tail) == encode_chunk(chunk) + spec_encode(tail.skip(3)));
            } else {
                assert(spec_encode(tail) == encode_chunk(chunk));
                assert(bytes@.skip(n as int) =~= Seq::<u8>::empty());
            }
            assert forall|k: int| 0 <= k < output@.len() implies output@[k] < 128 by {
                if k >= before.len() {
                    lemma_encode_chunk_ascii(chunk);
                }
            }
        }
        if rest > 3 {
            i = i + 3;
        } else {
            i = n;
        }
    }
    proof {
        assert(bytes@.skip(n as int) =~= Seq::<u8>::empty());
        assert(output@ =~= spec_encode(bytes@));
        lemma_encode_shape(bytes@);
    }
    ascii_string(output)
}


/// Bytes of the message prefix `invalid base64 symbol 0x`.
pub open spec fn symbol_message_prefix() -> Seq<u8> {
    seq![105u8, 110, 118, 97, 108, 105, 100, 32, 98, 97, 115, 101, 54, 52, 32, 115, 121, 109, 98, 111, 108, 32, 48, 120]
}

/// `invalid base64 symbol 0x` followed by the byte in two lower-case hex digits.
pub open spec fn symbol_message(symbol: u8) -> Seq<char> {
    ascii_chars(symbol_message_prefix() + hex_byte(symbol))
}

/// The error text reported for each fault.
pub open spec fn fault_message(fault: DecodeFault) -> Seq<char> {
    match fault {
        DecodeFault::Length => "base64 length must be a multiple of four"@,
        DecodeFault::PaddingPlacement => "base64 padding only allowed at the end"@,
        DecodeFault::PaddingNotTrailing => "base64 padding must be trailing"@,
        DecodeFault::Symbol(symbol) => symbol_message(symbol),
    }
}

fn symbol_error(symbol: u8) -> (message: String)
    ensures
        message@ == symbol_message(symbol),
{
    let mut bytes: Vec<u8> = vec![105u8, 110, 118, 97, 108, 105, 100, 32, 98, 97, 115, 101, 54, 52, 32, 115, 121, 109, 98, 111, 108, 32, 48, 120];
    assert(bytes@ =~= symbol_message_prefix());
    let one = [symbol];
    push_hex(&mut bytes, &one);
    proof {
        assert(one@ =~= seq![symbol]);
        assert(one@.skip(1) =~= Seq::<u8>::empty());
        assert(crate::text::hex_bytes(one@.skip(1)) =~= Seq::<u8>::empty());
        assert(crate::text::hex_bytes(one@) =~= hex_byte(symbol));
        assert forall|k: int| 0 <= k < bytes@.len() implies bytes@[k] < 128 by {
            if k >= 24 {
                assert(symbol / 16 < 16 && symbol % 16 < 16);
            }
        }
    }
    ascii_string(bytes)
}

fn decode_symbol(symbol: u8) -> (value: Result<u32, String>)
    ensures
        match symbol_value(symbol) {
            Some(v) => value == Ok::<u32, String>(v as u32),
            None => value is Err && value->Err_0@ == symbol_message(symbol),
        },
{
    if 65 <= symbol && symbol <= 90 {
        Ok((symbol - 65) as u32)
    } else if 97 <= symbol && symbol <= 122 {
        Ok((symbol - 97) as u32 + 26)
    } else if 48 <= symbol && symbol <= 57 {
        Ok((symbol - 48) as u32 + 52)
    } else if symbol == 43 {
        Ok(62)
    } else if symbol == 47 {
        Ok(63)
    } else {
        Err(symbol_error(symbol))
    }
}

/// Value of the first `count` group positions read big-endian in base 64.
pub open spec fn partial_value(quad: Seq<u8>, count: int) -> int
    decreases count,
{
    if count <= 0 {
        0
    } else {
        partial_value(quad, count - 1) * 64 + position_value(quad[count - 1])
    }
}

/// Prepend already-decoded bytes to the outcome of decoding the rest.
pub open spec fn after(head: Seq<u8>, rest: Result<Seq<u8>, DecodeFault>) -> Result<Seq<u8>, DecodeFault> {
    match rest {
        Ok(tail) => Ok(head + tail),
        Err(fault) => Err(fault),
    }
}

fn quad_step(triple: u32, symbol: u8, position: usize, padding: usize) -> (next: Result<u32, String>)
    requires
        position < 4,
        padding <= 4,
        triple < 262144,
    ensures
        symbol == pad() && position < 4 - padding ==> next is Err && next->Err_0@
            == fault_message(DecodeFault::PaddingNotTrailing),
        symbol == pad() && position >= 4 - padding ==> next == Ok::<u32, String>((triple * 64) as u32),
        symbol != pad() && symbol_value(symbol) is None ==> next is Err && next->Err_0@
            == fault_message(DecodeFault::Symbol(symbol)),
        symbol != pad() && symbol_value(symbol) is Some ==> next == Ok::<u32, String>(
            (triple * 64 + symbol_value(symbol).unwrap()) as u32,
        ),
{
    if symbol == 61 {
        if position < 4 - padding {
            return Err(String::from_str("base64 padding must be trailing"));
        }
        assert(triple << 6 == triple * 64) by (bit_vector)
            requires
                triple < 262144,
        ;
        Ok(triple << 6)
    } else {
        match decode_symbol(symbol) {
            Ok(value) => {
                assert((triple << 6) | value == triple * 64 + value) by (bit_vector)
                    requires
                        triple < 262144,
                        value < 64,
                ;
                Ok((triple << 6) | value)
            },
            Err(message) => Err(message),
        }
    }
}

fn decode_group(quad_bytes_exec: [u8; 4], last: bool, output: &mut Vec<u8>) -> (result: Result<(), String>)
    ensures
        match decode_quad(quad_bytes_exec@, last) {
            Ok(value) => result is Ok && final(output)@ == old(output)@ + value,
            Err(fault) => result is Err && result->Err_0@ == fault_message(fault),
        },
{
    reveal(decode_quad);
    let ghost quad = quad_bytes_exec@;
    let q0 = quad_bytes_exec[0];
    let q1 = quad_bytes_exec[1];
    let q2 = quad_bytes_exec[2];
    let q3 = quad_bytes_exec[3];
    let mut padding: usize = 0;
    if q0 == 61 { padding = padding + 1; }
    if q1 == 61 { padding = padding + 1; }
    if q2 == 61 { padding = padding + 1; }
    if q3 == 61 { padding = padding + 1; }
    assert(padding as int == pad_count(quad));
    if padding > 0 && (!last || padding > 2) {
        return Err(String::from_str("base64 padding only allowed at the end"));
    }
    let ghost p = padding as int;
    let t1 = match quad_step(0, q0, 0, padding) {
        Ok(t) => t,
        Err(m) => {
            return Err(m);
        },
    };
    assert(quad[0] == q0 && quad[1] == q1 && quad[2] == q2 && quad[3] == q3);
    assert(partial_value(quad, 0) == 0);
    assert(t1 == partial_value(quad, 1));
    let t2 = match quad_step(t1, q1, 1, padding) {
        Ok(t) => t,
        Err(m) => {
            assert(symbol_fault(quad, p, 0) == symbol_fault(quad, p, 1));
            return Err(m);
        },
    };
    assert(t2 == partial_value(quad, 1) * 64 + position_value(quad[1]));
    assert(t2 == partial_value(quad, 2));
    let t3 = match quad_step(t2, q2, 2, padding) {
        Ok(t) => t,
        Err(m) => {
            assert(symbol_fault(quad, p, 0) == symbol_fault(quad, p, 2));
            return Err(m);
        },
    };
    assert(t3 == partial_value(quad, 2) * 64 + position_value(quad[2]));
    assert(t3 == partial_value(quad, 3));
    let triple = match quad_step(t3, q3, 3, padding) {
        Ok(t) => t,
        Err(m) => {
            assert(symbol_fault(quad, p, 0) == symbol_fault(quad, p, 3));
            return Err(m);
        },
    };
    proof {
        assert(symbol_fault(quad, p, 0) == symbol_fault(quad, p, 4));
        assert(triple == partial_value(quad, 3) * 64 + position_value(quad[3]));
        assert(triple == partial_value(quad, 4));
        assert(partial_value(quad, 4) == quad_value(quad));
        assert(((triple >> 16) as u8) as int == (triple / 65536) as u8) by (bit_vector);
        assert(((triple >> 8) as u8) as int == ((triple / 256) % 256) as u8) by (bit_vector);
        assert((triple as u8) as int == (triple % 256) as u8) by (bit_vector);
    }
    let ghost before = output@;
    output.push((triple >> 16) as u8);
    if padding < 2 {
        output.push((triple >> 8) as u8);
    }
    if padding < 1 {
        output.push(triple as u8);
    }
    assert(output@ =~= before + quad_bytes(quad));
    Ok(())
}

proof fn lemma_decode_step(b: Seq<u8>, i: int, before: Seq<u8>, outcome: Result<Seq<u8>, DecodeFault>)
    requires
        0 <= i,
        i + 4 <= b.len(),
        decode_groups(b) == after(before, decode_groups(b.skip(i))),
        outcome == decode_quad(b.skip(i).take(4), b.len() == i + 4),
    ensures
        outcome matches Ok(head) ==> decode_groups(b) == after(before + head, decode_groups(b.skip(i + 4))),
        outcome matches Err(fault) ==> decode_groups(b) == Err::<Seq<u8>, DecodeFault>(fault),
{
    reveal(decode_groups);
    let rest = b.skip(i);
    assert(rest.skip(4) =~= b.skip(i + 4));
    if let Ok(head) = outcome {
        match decode_groups(b.skip(i + 4)) {
            Ok(t) => {
                assert(before + (head + t) =~= (before + head) + t);
            },
            Err(_) => {},
        }
    }
}

/// Decode strict, padded standard base64 text.
pub fn decode(text: &str) -> (bytes: Result<Vec<u8>, String>)
    ensures
        match spec_decode(text.spec_bytes()) {
            Ok(value) => bytes is Ok && bytes->Ok_0@ == value,
            Err(fault) => bytes is Err && bytes->Err_0@ == fault_message(fault),
        },
{
    let input = text.as_bytes();
    let ghost b = input@;
    let n = input.len();
    if n % 4 != 0 {
        return Err(String::from_str("base64 length must be a multiple of four"));
    }
    let mut output: Vec<u8> = Vec::new();
    let mut i: usize = 0;
    proof {
        assert(b.skip(0) =~= b);
    }
    while i < n
        invariant
            n == b.len(),
            input@ == b,
            b == text.spec_bytes(),
            n % 4 == 0,
            i % 4 == 0,
            i <= n,
            decode_groups(b) == after(output@, decode_groups(b.skip(i as int))),
        decreases n - i,
    {
        let ghost rest = b.skip(i as int);
        let quad = [input[i], input[i + 1], input[i + 2], input[i + 3]];
        let last = i + 4 == n;
        let ghost before = output@;
        proof {
            assert(quad@ =~= rest.take(4));
            lemma_decode_step(b, i as int, before, decode_quad(quad@, last));
        }
        let ghost outcome = decode_quad(quad@, last);
        match decode_group(quad, last, &mut output) {
            Ok(()) => {},
            Err(message) => {
                proof {
                    assert(outcome is Err);
                    assert(b == text.spec_bytes());
                    if let Err(f) = outcome {
                        assert(decode_groups(b) == Err::<Seq<u8>, DecodeFault>(f));
                        assert(spec_decode(b) == Err::<Seq<u8>, DecodeFault>(f));
                        assert(message@ == fault_message(f));
                    }
                }
                return Err(message);
            },
        }
        i = i + 4;
    }
    proof {
        reveal(decode_groups);
        assert(b.skip(n as int).len() == 0);
        assert(output@ + Seq::<u8>::empty() =~= output@);
    }
    Ok(output)
}

proof fn lemma_chunk_roundtrip(chunk: Seq<u8>, last: bool)
    requires
        1 <= chunk.len() <= 3,
        chunk.len() < 3 ==> last,
    ensures
        decode_quad(encode_chunk(chunk), last) == Ok::<Seq<u8>, DecodeFault>(chunk),
{
    reveal(decode_quad);
    reveal(encode_chunk);
    let t = group_value(chunk);
    let quad = encode_chunk(chunk);
    let b0: int = chunk[0] as int;
    let b1: int = if chunk.len() > 1 { chunk[1] as int } else { 0 };
    let b2: int = if chunk.len() > 2 { chunk[2] as int } else { 0 };
    assert(0 <= t < 16777216);
    let v0 = t / 262144;
    let v1 = (t / 4096) % 64;
    let v2 = (t / 64) % 64;
    let v3 = t % 64;
    lemma_alphabet_ascii(v0);
    lemma_alphabet_ascii(v1);
    lemma_alphabet_ascii(v2);
    lemma_alphabet_ascii(v3);
    let padding = 3 - chunk.len();
    assert(pad_count(quad) == padding);
    assert(symbol_fault(quad, padding, 4) is None);
    assert(symbol_fault(quad, padding, 3) is None);
    assert(symbol_fault(quad, padding, 2) is None);
    assert(symbol_fault(quad, padding, 1) is None);
    assert(symbol_fault(quad, padding, 0) is None);
    assert(t == v0 * 262144 + v1 * 4096 + v2 * 64 + v3) by (nonlinear_arith)
        requires
            0 <= t < 16777216,
            v0 == t / 262144,
            v1 == (t / 4096) % 64,
            v2 == (t / 64) % 64,
            v3 == t % 64,
    ;
    let q = quad_value(quad);
    if chunk.len() == 1 {
        assert(t == b0 * 65536);
        assert(v2 == 0 && v3 == 0) by (nonlinear_arith)
            requires
                t == b0 * 65536,
                0 <= b0 < 256,
                v2 == (t / 64) % 64,
                v3 == t % 64,
        ;
        assert(q == t);
        assert(q / 65536 == b0) by (nonlinear_arith)
            requires
                q == b0 * 65536,
                0 <= b0 < 256,
        ;
        assert(quad_bytes(quad) =~= chunk);
    } else if chunk.len() == 2 {
        assert(v3 == 0) by (nonlinear_arith)
            requires
                t == b0 * 65536 + b1 * 256,
                0 <= b0 < 256,
                0 <= b1 < 256,
                v3 == t % 64,
        ;
        assert(q == t);
        assert(q / 65536 == b0 && (q / 256) % 256 == b1) by (nonlinear_arith)
            requires
                q == b0 * 65536 + b1 * 256,
                0 <= b0 < 256,
                0 <= b1 < 256,
        ;
        assert(quad_bytes(quad) =~= chunk);
    } else {
        assert(q == t);
        assert(q / 65536 == b0 && (q / 256) % 256 == b1 && q % 256 == b2) by (nonlinear_arith)
            requires
                q == b0 * 65536 + b1 * 256 + b2,
                0 <= b0 < 256,
                0 <= b1 < 256,
                0 <= b2 < 256,
        ;
        assert(quad_bytes(quad) =~= chunk);
    }
}

proof fn lemma_groups_step(text: Seq<u8>, head: Seq<u8>, rest: Result<Seq<u8>, DecodeFault>)
    requires
        text.len() >= 4,
        decode_quad(text.take(4), text.len() == 4) == Ok::<Seq<u8>, DecodeFault>(head),
        rest == decode_groups(text.skip(4)),
    ensures
        decode_groups(text) == after(head, rest),
{
    reveal(decode_groups);
}

proof fn lemma_groups_roundtrip(bytes: Seq<u8>)
    ensures
        decode_groups(spec_encode(bytes)) == Ok::<Seq<u8>, DecodeFault>(bytes),
    decreases bytes.len(),
{
    if bytes.len() == 0 {
        reveal(decode_groups);
        assert(bytes =~= Seq::<u8>::empty());
    } else if bytes.len() <= 3 {
        let text = encode_chunk(bytes);
        assert(spec_encode(bytes) == text);
        lemma_chunk_roundtrip(bytes, true);
        lemma_encode_chunk_ascii(bytes);
        assert(text.take(4) =~= text);
        assert(decode_groups(text.skip(4)) == Ok::<Seq<u8>, DecodeFault>(Seq::<u8>::empty())) by {
            reveal(decode_groups);
        }
        lemma_groups_step(text, bytes, decode_groups(text.skip(4)));
        assert(bytes + Seq::<u8>::empty() =~= bytes);
        assert(decode_groups(text) == Ok::<Seq<u8>, DecodeFault>(bytes + Seq::<u8>::empty()));
    } else {
        let head = bytes.take(3);
        let tail = bytes.skip(3);
        let first = encode_chunk(head);
        let text = first + spec_encode(tail);
        assert(spec_encode(bytes) == text);
        lemma_encode_chunk_ascii(head);
        lemma_encode_shape(tail);
        lemma_chunk_roundtrip(head, false);
        lemma_groups_roundtrip(tail);
        assert(text.take(4) =~= first);
        assert(text.skip(4) =~= spec_encode(tail));
        lemma_groups_step(text, head, decode_groups(text.skip(4)));
        assert(head + tail =~= bytes);
        assert(decode_groups(text) == Ok::<Seq<u8>, DecodeFault>(head + tail));
    }
}

/// Decoding the encoding of any byte string gives the bytes back.
pub proof fn law_decode_inverts_encode(bytes: Seq<u8>)
    ensures
        spec_decode(spec_encode(bytes)) == Ok::<Seq<u8>, DecodeFault>(bytes),
{
    lemma_encode_shape(bytes);
    lemma_groups_roundtrip(bytes);
}

} // verus!

verus! {

/// How many pads an encoding of `n` bytes ends with.
pub open spec fn pad_len(n: int) -> int {
    (3 - n % 3) % 3
}

proof fn lemma_alphabet_symbol(value: int)
    requires
        0 <= value < 64,
    ensures
        symbol_value(alphabet(value)) is Some,
        alphabet(value) != pad(),
{
}

proof fn lemma_chunk_symbols(chunk: Seq<u8>)
    requires
        1 <= chunk.len() <= 3,
    ensures
        forall|i: int| 0 <= i < 4 ==> (encode_chunk(chunk)[i] == pad() <==> i >= 4 - pad_len(chunk.len() as int)),
        forall|i: int| 0 <= i < 4 ==> encode_chunk(chunk)[i] == pad() || symbol_value(#[trigger] encode_chunk(chunk)[i]) is Some,
{
    reveal(encode_chunk);
    let t = group_value(chunk);
    assert(0 <= t < 16777216);
    lemma_alphabet_symbol(t / 262144);
    lemma_alphabet_symbol((t / 4096) % 64);
    lemma_alphabet_symbol((t / 64) % 64);
    lemma_alphabet_symbol(t % 64);
}

/// Standard base64 uses only the 64-symbol alphabet, then as many `=` as
/// the last group lacks bytes (none, one or two), and nothing after them.
pub proof fn law_encode_alphabet_and_padding(bytes: Seq<u8>)
    ensures
        forall|i: int| 0 <= i < spec_encode(bytes).len() ==> (spec_encode(bytes)[i] == pad() <==> i >= spec_encode(
            bytes,
        ).len() - pad_len(bytes.len() as int)),
        forall|i: int| 0 <= i < spec_encode(bytes).len() ==> spec_encode(bytes)[i] == pad() || symbol_value(
            #[trigger] spec_encode(bytes)[i],
        ) is Some,
    decreases bytes.len(),
{
    lemma_encode_shape(bytes);
    if bytes.len() == 0 {
    } else if bytes.len() <= 3 {
        lemma_chunk_symbols(bytes);
    } else {
        let a = encode_chunk(bytes.take(3));
        let rest = bytes.skip(3);
        lemma_chunk_symbols(bytes.take(3));
        lemma_encode_chunk_ascii(bytes.take(3));
        law_encode_alphabet_and_padding(rest);
        lemma_encode_shape(rest);
        let b = spec_encode(rest);
        assert(pad_len(bytes.len() as int) == pad_len(rest.len() as int));
        assert forall|i: int| 0 <= i < (a + b).len() implies ((a + b)[i] == pad() <==> i >= (a + b).len() - pad_len(
            bytes.len() as int,
        )) && ((a + b)[i] == pad() || symbol_value((a + b)[i]) is Some) by {
            if i < 4 {
                assert((a + b)[i] == a[i]);
                assert(b.len() >= 4);
            } else {
                assert((a + b)[i] == b[i - 4]);
            }
        }
    }
}

} // verus!
