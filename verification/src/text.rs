//! Text made of ASCII bytes: strings from bytes, hexadecimal digits and
//! the escaped form of byte strings that diagnostics show.

use std::string::FromUtf8Error;
use vstd::prelude::*;
use vstd::utf8::{
    decode_utf8, encode_utf8, encode_utf8_decode_utf8, encode_utf8_valid_utf8, is_ascii_chars,
    is_ascii_chars_encode_utf8, valid_utf8,
};

verus! {

/// The error of `String::from_utf8`; nothing is known of what it holds.
#[verifier::external_type_specification]
#[verifier::external_body]
pub struct ExFromUtf8Error(FromUtf8Error);

/// `String::from_utf8` succeeds exactly on the byte vectors that are valid
/// UTF-8, and the string then holds the characters that the bytes encode.
pub assume_specification[ String::from_utf8 ](vec: Vec<u8>) -> (r: Result<String, FromUtf8Error>)
    ensures
        r is Ok <==> valid_utf8(vec@),
        r matches Ok(s) ==> s@ == decode_utf8(vec@),
;

/// Whether every byte is an ASCII character.
pub open spec fn spec_is_ascii(bytes: Seq<u8>) -> bool {
    forall|i: int| 0 <= i < bytes.len() ==> #[trigger] bytes[i] < 0x80
}

/// The characters that ASCII bytes stand for, one for each byte.
pub open spec fn spec_ascii(bytes: Seq<u8>) -> Seq<char> {
    Seq::new(bytes.len(), |i: int| bytes[i] as char)
}

/// ASCII bytes are valid UTF-8 and encode one character each.
pub proof fn lemma_ascii_is_utf8(bytes: Seq<u8>)
    requires
        spec_is_ascii(bytes),
    ensures
        valid_utf8(bytes),
        decode_utf8(bytes) == spec_ascii(bytes),
{
    let chars = spec_ascii(bytes);
    assert(is_ascii_chars(chars));
    is_ascii_chars_encode_utf8(chars);
    assert(encode_utf8(chars) =~= bytes);
    encode_utf8_valid_utf8(chars);
    encode_utf8_decode_utf8(chars);
}

/// The string whose characters are the given ASCII bytes.
pub fn string_from_ascii(bytes: Vec<u8>) -> (s: String)
    requires
        spec_is_ascii(bytes@),
    ensures
        s@ == spec_ascii(bytes@),
{
    proof {
        lemma_ascii_is_utf8(bytes@);
    }
    String::from_utf8(bytes).unwrap()
}

/// The ASCII character of the hexadecimal digit `d`, in lower case.
pub open spec fn spec_hex_digit(d: int) -> u8
    recommends
        0 <= d < 16,
{
    if d < 10 {
        (0x30 + d) as u8
    } else {
        (0x61 + d - 10) as u8
    }
}

/// The ASCII character of the hexadecimal digit `d`, in lower case.
pub fn hex_digit(d: u8) -> (c: u8)
    requires
        d < 16,
    ensures
        c == spec_hex_digit(d as int),
        c < 0x80,
{
    if d < 10 {
        0x30 + d
    } else {
        0x61 + (d - 10)
    }
}

/// The hexadecimal form of `bytes` as ASCII characters: two lower-case
/// digits for each byte, the high one first.
pub open spec fn spec_hex(bytes: Seq<u8>) -> Seq<u8> {
    Seq::new(
        2 * bytes.len(),
        |i: int|
            if i % 2 == 0 {
                spec_hex_digit(bytes[i / 2] as int / 16)
            } else {
                spec_hex_digit(bytes[i / 2] as int % 16)
            },
    )
}

/// `hex::encode`: the string holds, for each byte of `data` in order, its
/// two hexadecimal digits in lower case, the high one first.
#[verifier::external_body]
pub(crate) fn hex_encode(data: &[u8]) -> (s: String)
    ensures
        s@ == spec_ascii(spec_hex(data@)),
{
    hex::encode(data)
}

/// The escaped form of one byte as ASCII characters: a backslash and a
/// letter for tab, line feed and carriage return; a backslash before a
/// quote or a backslash; other printable characters as they are; and every
/// other byte as `\x` with its two hexadecimal digits.
pub open spec fn spec_escape_byte(b: u8) -> Seq<u8> {
    if b == 0x09 {
        seq![0x5cu8, 0x74u8]
    } else if b == 0x0a {
        seq![0x5cu8, 0x6eu8]
    } else if b == 0x0d {
        seq![0x5cu8, 0x72u8]
    } else if b == 0x22 || b == 0x27 || b == 0x5c {
        seq![0x5cu8, b]
    } else if 0x20 <= b <= 0x7e {
        seq![b]
    } else {
        seq![0x5cu8, 0x78u8, spec_hex_digit(b as int / 16), spec_hex_digit(b as int % 16)]
    }
}

/// The escaped form of a byte string: that of each byte, in order.
pub open spec fn spec_escape_ascii(bytes: Seq<u8>) -> Seq<u8>
    decreases bytes.len(),
{
    if bytes.len() == 0 {
        Seq::empty()
    } else {
        spec_escape_ascii(bytes.drop_last()) + spec_escape_byte(bytes.last())
    }
}

/// Appends the escaped form of `b` to `out`.
fn escape_byte(out: &mut Vec<u8>, b: u8)
    requires
        spec_is_ascii(old(out)@),
    ensures
        final(out)@ == old(out)@ + spec_escape_byte(b),
        spec_is_ascii(final(out)@),
{
    if b == 0x09 {
        out.push(0x5c);
        out.push(0x74);
    } else if b == 0x0a {
        out.push(0x5c);
        out.push(0x6e);
    } else if b == 0x0d {
        out.push(0x5c);
        out.push(0x72);
    } else if b == 0x22 || b == 0x27 || b == 0x5c {
        out.push(0x5c);
        out.push(b);
    } else if 0x20 <= b && b <= 0x7e {
        out.push(b);
    } else {
        out.push(0x5c);
        out.push(0x78);
        out.push(hex_digit(b / 16));
        out.push(hex_digit(b % 16));
    }
    assert(out@ =~= old(out)@ + spec_escape_byte(b));
}

/// The escaped form of `bytes`, which is made of ASCII characters.
pub fn escape_ascii(bytes: &[u8]) -> (out: Vec<u8>)
    ensures
        out@ == spec_escape_ascii(bytes@),
        spec_is_ascii(out@),
{
    let mut out: Vec<u8> = Vec::new();
    let mut i: usize = 0;
    while i < bytes.len()
        invariant
            i <= bytes@.len(),
            out@ == spec_escape_ascii(bytes@.take(i as int)),
            spec_is_ascii(out@),
        decreases bytes@.len() - i,
    {
        assert(bytes@.take(i + 1).drop_last() =~= bytes@.take(i as int));
        escape_byte(&mut out, bytes[i]);
        i += 1;
    }
    assert(bytes@.take(i as int) =~= bytes@);
    out
}

} // verus!
