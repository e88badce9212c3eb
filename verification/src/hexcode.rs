//! Hexadecimal text encoding of byte strings.
//!
//! Ciphertexts and nonces are carried inside table cells as printable text,
//! so they are rendered as lowercase hex with two digits per byte. The
//! encoding is specified exactly: `hex_of` gives the text of a byte string,
//! `valid_hex` and `unhex_of` describe which texts decode and to what.

use vstd::prelude::*;

verus! {

/// The lowercase hex digit of a value below sixteen.
pub open spec fn hex_digit(n: u8) -> char
    recommends
        n < 16,
{
    if n == 0 {
        '0'
    } else if n == 1 {
        '1'
    } else if n == 2 {
        '2'
    } else if n == 3 {
        '3'
    } else if n == 4 {
        '4'
    } else if n == 5 {
        '5'
    } else if n == 6 {
        '6'
    } else if n == 7 {
        '7'
    } else if n == 8 {
        '8'
    } else if n == 9 {
        '9'
    } else if n == 10 {
        'a'
    } else if n == 11 {
        'b'
    } else if n == 12 {
        'c'
    } else if n == 13 {
        'd'
    } else if n == 14 {
        'e'
    } else {
        'f'
    }
}

/// Lowercase hex text of a byte string: two digits per byte, high nibble
/// first, no separators.
pub open spec fn hex_of(bytes: Seq<u8>) -> Seq<char> {
    Seq::new(
        2 * bytes.len(),
        |i: int|
            if i % 2 == 0 {
                hex_digit(bytes[i / 2] / 16)
            } else {
                hex_digit(bytes[i / 2] % 16)
            },
    )
}

/// A character that counts as a hex digit on decoding (either case).
pub open spec fn is_hex_char(c: char) -> bool {
    ('0' <= c && c <= '9') || ('a' <= c && c <= 'f') || ('A' <= c && c <= 'F')
}

/// The value of a hex digit character.
pub open spec fn hex_val(c: char) -> u8
    recommends
        is_hex_char(c),
{
    if '0' <= c && c <= '9' {
        (c as u32 - '0' as u32) as u8
    } else if 'a' <= c && c <= 'f' {
        (c as u32 - 'a' as u32 + 10) as u8
    } else {
        (c as u32 - 'A' as u32 + 10) as u8
    }
}

/// Texts that decode: even length, hex digits throughout.
pub open spec fn valid_hex(s: Seq<char>) -> bool {
    s.len() % 2 == 0 && (forall|i: int| 0 <= i < s.len() ==> is_hex_char(#[trigger] s[i]))
}

/// The byte string a valid hex text decodes to.
pub open spec fn unhex_of(s: Seq<char>) -> Seq<u8>
    recommends
        valid_hex(s),
{
    Seq::new(
        s.len() / 2,
        |i: int| (16 * (hex_val(s[2 * i]) as int) + (hex_val(s[2 * i + 1]) as int)) as u8,
    )
}

/// A hex digit's character is a hex character and decodes to the digit.
pub proof fn lemma_hex_digit_char(n: u8)
    requires
        n < 16,
    ensures
        is_hex_char(hex_digit(n)),
        hex_val(hex_digit(n)) == n,
{
}

/// Encoding then decoding a byte string is the identity, and the encoding
/// is always a valid hex text.
pub proof fn lemma_unhex_of_hex_of(b: Seq<u8>)
    ensures
        valid_hex(hex_of(b)),
        unhex_of(hex_of(b)) == b,
{
    let h = hex_of(b);
    assert forall|i: int| 0 <= i < h.len() implies is_hex_char(#[trigger] h[i]) by {
        if i % 2 == 0 {
            lemma_hex_digit_char(b[i / 2] / 16);
        } else {
            lemma_hex_digit_char(b[i / 2] % 16);
        }
    }
    let u = unhex_of(h);
    assert forall|i: int| 0 <= i < b.len() implies u[i] == b[i] by {
        assert(h[2 * i] == hex_digit(b[i] / 16));
        assert(h[2 * i + 1] == hex_digit(b[i] % 16));
        lemma_hex_digit_char(b[i] / 16);
        lemma_hex_digit_char(b[i] % 16);
        assert(16 * ((b[i] / 16) as int) + ((b[i] % 16) as int) == b[i]);
    }
    assert(u =~= b);
}

/// Relies on `hex::encode`: renders bytes as lowercase hex, two digits per
/// byte, high nibble first.
#[verifier::external_body]
pub(crate) fn to_hex(bytes: &Vec<u8>) -> (r: String)
    ensures
        r@ == hex_of(bytes@),
{
    hex::encode(bytes)
}

/// Relies on `hex::decode`: succeeds exactly on even-length strings of hex
/// digits (either case), returning the decoded bytes.
#[verifier::external_body]
pub(crate) fn from_hex(text: &str) -> (r: Option<Vec<u8>>)
    ensures
        r matches Some(b) ==> valid_hex(text@) && b@ == unhex_of(text@),
        r is None ==> !valid_hex(text@),
{
    hex::decode(text).ok()
}

} // verus!
