//! Hexadecimal text of byte strings, as the object store names objects and
//! as hashes are printed and read back.
use vstd::prelude::*;

verus! {

/// The lowercase hex digit of a value below 16.
pub open spec fn hex_digit(n: int) -> char {
    if n < 10 {
        (('0' as int) + n) as char
    } else {
        (('a' as int) + (n - 10)) as char
    }
}

/// The value of a hex digit, upper or lower case; `None` for any other
/// character.
pub open spec fn hex_value(c: char) -> Option<int> {
    if '0' <= c && c <= '9' {
        Some(c as int - '0' as int)
    } else if 'a' <= c && c <= 'f' {
        Some(c as int - 'a' as int + 10)
    } else if 'A' <= c && c <= 'F' {
        Some(c as int - 'A' as int + 10)
    } else {
        None
    }
}

/// Lowercase hex text of the bytes, two digits per byte, high digit first.
pub open spec fn hex_lower(bytes: Seq<u8>) -> Seq<char> {
    Seq::new(
        2 * bytes.len(),
        |i: int|
            if i % 2 == 0 {
                hex_digit(bytes[i / 2] as int / 16)
            } else {
                hex_digit(bytes[i / 2] as int % 16)
            },
    )
}

/// The text with a leading `0x` or `0X` taken off.
pub open spec fn strip_0x(s: Seq<char>) -> Seq<char> {
    if s.len() >= 2 && s[0] == '0' && (s[1] == 'x' || s[1] == 'X') {
        s.skip(2)
    } else {
        s
    }
}

/// Is the text, after an optional `0x`, exactly `2 * n` hex digits?
pub open spec fn is_hex_of_len(s: Seq<char>, n: nat) -> bool {
    let t = strip_0x(s);
    t.len() == 2 * n && forall|i: int| 0 <= i < t.len() ==> (#[trigger] hex_value(t[i])) is Some
}

/// The bytes that hex text (after an optional `0x`) spells.
pub open spec fn hex_bytes(s: Seq<char>) -> Seq<u8> {
    let t = strip_0x(s);
    Seq::new(
        t.len() / 2,
        |i: int| (16 * hex_value(t[2 * i]).unwrap() + hex_value(t[2 * i + 1]).unwrap()) as u8,
    )
}

/// Lowercase hex encoding of bytes.
///
/// Trusted: wraps `const_hex::encode`, which writes each byte as two
/// lowercase hex digits, high digit first.
#[verifier::external_body]
pub(crate) fn hex_encode(bytes: &[u8]) -> (r: String)
    ensures
        r@ == hex_lower(bytes@),
{
    const_hex::encode(bytes)
}

#[verifier::external_type_specification]
#[verifier::external_body]
pub struct ExFromHexError(const_hex::FromHexError);

/// Decodes hex text into 32 bytes.
///
/// Trusted: wraps `const_hex::FromHex` for `[u8; 32]` (`decode_to_array`).
/// Its documentation: upper and lower case digits are accepted, a `0x`
/// prefix is stripped, and the input must be exactly 32 bytes' worth of hex
/// digits.
#[verifier::external_body]
pub(crate) fn hex_decode_32(s: &str) -> (r: Result<[u8; 32], const_hex::FromHexError>)
    ensures
        r is Ok == is_hex_of_len(s@, 32),
        r matches Ok(b) ==> b@ == hex_bytes(s@),
{
    <[u8; 32] as const_hex::FromHex>::from_hex(s)
}

/// Reading back lowercase hex gives the bytes that were written.
pub proof fn lemma_hex_roundtrip(bytes: Seq<u8>)
    ensures
        is_hex_of_len(hex_lower(bytes), bytes.len()),
        hex_bytes(hex_lower(bytes)) == bytes,
{
    let h = hex_lower(bytes);
    assert forall|i: int| 0 <= i < h.len() implies (#[trigger] hex_value(h[i])) is Some
        && hex_value(h[i]).unwrap() == if i % 2 == 0 { bytes[i / 2] as int / 16 } else { bytes[i / 2] as int % 16 } by {
        let d: int = if i % 2 == 0 { bytes[i / 2] as int / 16 } else { bytes[i / 2] as int % 16 };
        assert(0 <= d < 16);
        assert(h[i] == hex_digit(d));
    }
    if h.len() >= 2 {
        assert(hex_value(h[1]) is Some);
        assert(h[1] != 'x' && h[1] != 'X');
    }
    assert(strip_0x(h) == h);
    let b = hex_bytes(h);
    assert forall|i: int| 0 <= i < bytes.len() implies b[i] == bytes[i] by {
        assert(hex_value(h[2 * i]) is Some);
        assert(hex_value(h[2 * i + 1]) is Some);
        assert((2 * i) / 2 == i);
        assert((2 * i + 1) / 2 == i);
        assert((2 * i) % 2 == 0);
        assert((2 * i + 1) % 2 == 1);
        let v = bytes[i] as int;
        assert(16 * (v / 16) + v % 16 == v);
    }
    assert(b =~= bytes);
}

} // verus!
