use vstd::prelude::*;
use vstd::string::StringSliceAdditionalSpecFns;
use vstd::utf8::{
    char_is_scalar, decode_utf8, encode_scalar, encode_utf8, encode_utf8_decode_utf8,
    has_width_1_encoding, valid_utf8,
};
use crate::error::ParseError;

verus! {

/// The bytes a hostname may hold: ASCII letters and digits, `.`, `-`, `_`
/// (ASCII codes 46, 45 and 95).
pub open spec fn legal_name_byte(b: u8) -> bool {
    (48 <= b && b <= 57) || (97 <= b && b <= 122) || (65 <= b && b <= 90) || b == 46 || b == 45
        || b == 95
}

/// The hostname validity predicate: valid UTF-8, at most 255 bytes, and
/// every byte drawn from the permitted set.
pub open spec fn valid_hostname_bytes(value: Seq<u8>) -> bool {
    &&& valid_utf8(value)
    &&& value.len() <= 255
    &&& forall|i: int| 0 <= i < value.len() ==> legal_name_byte(value[i])
}

/// What `parse_server_name` decides for a hostname entry's bytes: the bytes
/// themselves when they form a valid hostname, else the first failed check.
pub open spec fn spec_parse_server_name(value: Seq<u8>) -> Result<Seq<u8>, ParseError> {
    if !valid_utf8(value) {
        Err(ParseError::NotUtf8)
    } else if value.len() > 255 {
        Err(ParseError::TooLong)
    } else if exists|i: int| 0 <= i < value.len() && !legal_name_byte(value[i]) {
        Err(ParseError::IllegalChar)
    } else {
        Ok(value)
    }
}

/// The characters a hostname may hold: ASCII characters whose codes are
/// legal name bytes.
pub open spec fn legal_name_char(c: char) -> bool {
    (c as u32) < 128 && legal_name_byte((c as u32) as u8)
}

/// An all-ASCII byte sequence encodes exactly one character per byte, each
/// character carrying that byte's code.
proof fn lemma_ascii_encoding(chars: Seq<char>, bytes: Seq<u8>)
    requires
        encode_utf8(chars) == bytes,
        forall|i: int| 0 <= i < bytes.len() ==> bytes[i] < 128,
    ensures
        chars.len() == bytes.len(),
        forall|i: int| 0 <= i < chars.len() ==> (#[trigger] chars[i]) as u32 == bytes[i] as u32,
    decreases chars.len(),
{
    if chars.len() > 0 {
        let c0 = chars[0];
        let s = c0 as u32;
        char_is_scalar(c0);
        assert(encode_scalar(s).len() >= 1);
        assert(bytes[0] == encode_scalar(s)[0]);
        if !has_width_1_encoding(s) {
            // a wider encoding opens with a byte of the form 11xxxxxx
            assert((0xC0 | (((s >> 6) & 0x1F) as u8)) >= 128) by (bit_vector);
            assert((0xE0 | (((s >> 12) & 0x0F) as u8)) >= 128) by (bit_vector);
            assert((0xF0 | (((s >> 18) & 0x7) as u8)) >= 128) by (bit_vector);
        }
        assert(has_width_1_encoding(s));
        assert(((s & 0x7F) as u8) as u32 == s) by (bit_vector)
            requires
                s <= 0x7F,
        ;
        let rest_chars = chars.drop_first();
        let rest_bytes = bytes.subrange(1, bytes.len() as int);
        assert(encode_utf8(rest_chars) =~= rest_bytes);
        lemma_ascii_encoding(rest_chars, rest_bytes);
        assert forall|i: int| 0 <= i < chars.len() implies (#[trigger] chars[i]) as u32 == bytes[i]
            as u32 by {
            if i > 0 {
                assert(chars[i] == rest_chars[i - 1]);
                assert(bytes[i] == rest_bytes[i - 1]);
            }
        }
    }
}

/// A string whose byte encoding satisfies the hostname validity predicate
/// holds one character per byte, each the byte's own code and drawn from
/// the permitted set.
pub proof fn lemma_hostname_chars(chars: Seq<char>, bytes: Seq<u8>)
    requires
        encode_utf8(chars) == bytes,
        valid_hostname_bytes(bytes),
    ensures
        chars.len() == bytes.len(),
        forall|i: int| 0 <= i < chars.len() ==> (#[trigger] chars[i]) as u32 == bytes[i] as u32,
        forall|i: int| 0 <= i < chars.len() ==> legal_name_char(#[trigger] chars[i]),
{
    lemma_ascii_encoding(chars, bytes);
    assert forall|i: int| 0 <= i < chars.len() implies legal_name_char(#[trigger] chars[i]) by {
        assert(chars[i] as u32 == bytes[i] as u32);
        assert((chars[i] as u32) as u8 == bytes[i]);
    }
}

/// Relies on std::str::from_utf8: when the bytes are valid UTF-8 it returns
/// a string slice viewing exactly those bytes, and otherwise it reports an
/// error.
#[verifier::external_body]
fn bytes_as_str<'a>(b: &'a [u8]) -> (r: Option<&'a str>)
    ensures
        (match r {
            Some(s) => valid_utf8(b@) && s.spec_bytes() == b@,
            None => !valid_utf8(b@),
        }),
{
    std::str::from_utf8(b).ok()
}

fn is_legal_name_byte(b: u8) -> (r: bool)
    ensures
        r == legal_name_byte(b),
{
    (48 <= b && b <= 57) || (97 <= b && b <= 122) || (65 <= b && b <= 90) || b == 46 || b == 45
        || b == 95
}

/// Decodes a hostname entry's bytes as a borrowed string and enforces the
/// hostname validity predicate.
pub fn parse_server_name<'a>(value: &'a [u8]) -> (r: Result<&'a str, ParseError>)
    ensures
        (match r {
            Ok(s) => {
                &&& spec_parse_server_name(value@) == Ok::<Seq<u8>, ParseError>(value@)
                &&& valid_hostname_bytes(value@)
                &&& s.spec_bytes() == value@
                &&& s@ == decode_utf8(value@)
                &&& s@.len() == value@.len()
                &&& forall|i: int| 0 <= i < s@.len() ==> legal_name_char(#[trigger] s@[i])
            },
            Err(e) => spec_parse_server_name(value@) == Err::<Seq<u8>, ParseError>(e),
        }),
{
    let s = match bytes_as_str(value) {
        Some(s) => s,
        None => return Err(ParseError::NotUtf8),
    };
    if value.len() > 255 {
        return Err(ParseError::TooLong);
    }
    let mut i: usize = 0;
    while i < value.len()
        invariant
            0 <= i <= value@.len(),
            value@.len() <= 255,
            valid_utf8(value@),
            s.spec_bytes() == value@,
            forall|j: int| 0 <= j < i ==> legal_name_byte(value@[j]),
        decreases value@.len() - i,
    {
        if !is_legal_name_byte(value[i]) {
            return Err(ParseError::IllegalChar);
        }
        i += 1;
    }
    proof {
        // the string's byte encoding is the input, so its characters are
        // the input's decoding, one legal character per byte
        encode_utf8_decode_utf8(s@);
        lemma_hostname_chars(s@, value@);
    }
    Ok(s)
}

} // verus!
