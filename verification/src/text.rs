//! Strings, and what the library relies on of the standard library's.
use vstd::prelude::*;
use vstd::utf8::{
    codepoint_width_1, decode_first_scalar, decode_utf8, decode_utf8_first_scalar, encode_scalar,
    pop_first_scalar, valid_first_scalar, valid_utf8,
};

verus! {

/// What each of several strings holds.
pub open spec fn texts(strings: Seq<String>) -> Seq<Seq<char>> {
    Seq::new(strings.len(), |i: int| strings[i]@)
}

/// The error of `core::str::from_utf8`, of which nothing is read.
#[verifier::external_type_specification]
#[verifier::external_body]
pub struct ExUtf8Error(core::str::Utf8Error);

/// `core::str::from_utf8` accepts exactly the bytes that are valid UTF-8, and
/// returns the characters that they encode.
pub assume_specification[ core::str::from_utf8 ](v: &[u8]) -> (r: Result<
    &str,
    core::str::Utf8Error,
>)
    ensures
        r is Ok <==> valid_utf8(v@),
        r matches Ok(s) ==> s@ == decode_utf8(v@),
;

/// The characters that the standard library reads in bytes, of which those
/// that are not UTF-8 are replaced.
pub uninterp spec fn utf8_lossy(bytes: Seq<u8>) -> Seq<char>;

/// `String::from_utf8_lossy` is a function of the bytes, and on valid UTF-8
/// returns the characters that they encode. Which characters stand for other
/// bytes is left to it.
#[verifier::external_body]
pub(crate) fn lossy(bytes: &[u8]) -> (r: String)
    ensures
        r@ == utf8_lossy(bytes@),
        valid_utf8(bytes@) ==> r@ == decode_utf8(bytes@),
{
    String::from_utf8_lossy(bytes).into_owned()
}

/// The text of bytes: the characters that they encode where they are valid
/// UTF-8, and those that the standard library reads in them otherwise.
pub open spec fn text_of(bytes: Seq<u8>) -> Seq<char> {
    if valid_utf8(bytes) {
        decode_utf8(bytes)
    } else {
        utf8_lossy(bytes)
    }
}

/// The form in which the standard library shows a text to a programmer, in
/// quotes and with escapes.
pub uninterp spec fn debug_text(text: Seq<char>) -> Seq<char>;

/// The `Debug` form of a `str`, as `format!` writes it, is a function of the
/// text. Which characters it escapes, and how, is left to it.
#[verifier::external_body]
pub(crate) fn debug(text: &str) -> (r: String)
    ensures
        r@ == debug_text(text@),
{
    format!("{:?}", text)
}

/// The upper case of an ASCII letter; any other character as it is.
pub open spec fn upper_char(c: char) -> char {
    if 'a' <= c <= 'z' {
        (c as u32 - 0x20) as char
    } else {
        c
    }
}

/// Each character in its ASCII upper case.
pub open spec fn ascii_upper(text: Seq<char>) -> Seq<char> {
    text.map_values(|c: char| upper_char(c))
}

/// The upper case of an ASCII letter; any other byte as it is.
pub open spec fn upper(b: u8) -> u8 {
    if 0x61 <= b <= 0x7a {
        (b - 0x20) as u8
    } else {
        b
    }
}

/// The upper case of an ASCII letter; any other byte as it is.
pub fn upper_byte(b: u8) -> (r: u8)
    ensures
        r == upper(b),
{
    if 0x61 <= b && b <= 0x7a {
        b - 0x20
    } else {
        b
    }
}

/// Each byte in its ASCII upper case.
pub open spec fn upper_bytes(bytes: Seq<u8>) -> Seq<u8> {
    bytes.map_values(|b: u8| upper(b))
}

/// The text of bytes in upper case: that of the characters that they encode
/// where they are valid UTF-8, and what the standard library reads in their
/// upper case otherwise.
pub open spec fn upper_text(bytes: Seq<u8>) -> Seq<char> {
    if valid_utf8(bytes) {
        ascii_upper(decode_utf8(bytes))
    } else {
        utf8_lossy(upper_bytes(bytes))
    }
}

/// The upper case of bytes is valid UTF-8 where the bytes are, and encodes the
/// upper case of the characters that they encode.
pub proof fn lemma_upper_bytes(bytes: Seq<u8>)
    ensures
        valid_utf8(upper_bytes(bytes)) == valid_utf8(bytes),
        valid_utf8(bytes) ==> decode_utf8(upper_bytes(bytes)) == ascii_upper(decode_utf8(bytes)),
    decreases bytes.len(),
{
    let ups = upper_bytes(bytes);
    if bytes.len() > 0 {
        assert(valid_first_scalar(ups) == valid_first_scalar(bytes)) by {
            lemma_narrow_codepoint(bytes[0]);
            lemma_narrow_codepoint(ups[0]);
        }
        if valid_first_scalar(bytes) {
            let rest = pop_first_scalar(bytes);
            assert(pop_first_scalar(ups) =~= upper_bytes(rest));
            lemma_upper_bytes(rest);
            if valid_utf8(bytes) {
                lemma_narrow_codepoint(bytes[0]);
                lemma_narrow_codepoint(ups[0]);
                let c = decode_first_scalar(bytes) as char;
                if bytes[0] > 0x7f {
                    decode_utf8_first_scalar(bytes);
                    assert(encode_scalar(c as u32).len() > 1);
                    assert(decode_first_scalar(ups) == decode_first_scalar(bytes));
                }
                assert(decode_first_scalar(ups) as char == upper_char(c));
                assert(ascii_upper(seq![c] + decode_utf8(rest)) =~= seq![upper_char(c)]
                    + ascii_upper(decode_utf8(rest)));
            }
        }
    } else {
        assert(ups =~= bytes);
    }
}

/// An ASCII byte stands for the character with its code.
proof fn lemma_narrow_codepoint(byte: u8)
    ensures
        byte <= 0x7f ==> codepoint_width_1(byte) == byte as u32,
{
    assert(byte <= 0x7f ==> (byte & 0x7f) as u32 == byte as u32) by (bit_vector);
}

/// The text of bytes in upper case. An ASCII letter is a byte of its own wherever
/// it stands, so that the upper case of the bytes reads as that of their text.
pub fn to_upper_text(bytes: &[u8]) -> (r: String)
    ensures
        r@ == upper_text(bytes@),
{
    let mut ups: Vec<u8> = Vec::new();
    let mut i: usize = 0;
    while i < bytes.len()
        invariant
            i <= bytes@.len(),
            ups@ == upper_bytes(bytes@.take(i as int)),
        decreases bytes@.len() - i,
    {
        ups.push(upper_byte(bytes[i]));
        i = i + 1;
    }
    proof {
        assert(bytes@.take(i as int) =~= bytes@);
        lemma_upper_bytes(bytes@);
    }
    lossy(ups.as_slice())
}

/// The lower case of an ASCII letter; any other character as it is.
pub open spec fn lower_char(c: char) -> char {
    if 'A' <= c <= 'Z' {
        (c as u32 + 0x20) as char
    } else {
        c
    }
}

/// Each character in its ASCII lower case.
pub open spec fn ascii_lower(text: Seq<char>) -> Seq<char> {
    text.map_values(|c: char| lower_char(c))
}

/// `str::to_ascii_lowercase` takes each of the letters `A` to `Z` to its lower
/// case, and leaves every other character as it is.
pub assume_specification[ str::to_ascii_lowercase ](s: &str) -> (r: String)
    ensures
        r@ == ascii_lower(s@),
;

/// `String::push` appends one character.
pub assume_specification[ String::push ](s: &mut String, c: char)
    ensures
        final(s)@ == old(s)@.push(c),
;

} // verus!
