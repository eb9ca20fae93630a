//! Slugs and tags as they appear in URLs and in file names.

use vstd::prelude::*;

use vstd::utf8::{decode_utf8, encode_utf8, valid_utf8};
use crate::cache::{content_digest, hash_file};
use crate::text::{chars_of, push_range, push_str, string_of};

verus! {

/// The upper-case hexadecimal digit for a value below 16.
pub open spec fn hex_upper(n: u8) -> char {
    if n < 10 {
        (48 + n) as u8 as char
    } else {
        (55 + n) as u8 as char
    }
}

/// A byte written as `%` and two upper-case hexadecimal digits.
pub open spec fn escaped_byte(byte: u8) -> Seq<char> {
    seq!['%', hex_upper(byte / 16), hex_upper(byte % 16)]
}

/// `percent_encoding::percent_encode_byte`: the byte as `%` and two
/// upper-case hexadecimal digits, as the crate's table of 256 entries has it.
pub assume_specification[ percent_encoding::percent_encode_byte ](byte: u8) -> (text: &'static str)
    ensures
        text@ == escaped_byte(byte),
;

/// The value of a hexadecimal digit given as a byte, in either case.
pub open spec fn hex_value(byte: u8) -> Option<int> {
    if 48 <= byte <= 57 {
        Some(byte - 48)
    } else if 97 <= byte <= 102 {
        Some(byte - 87)
    } else if 65 <= byte <= 70 {
        Some(byte - 55)
    } else {
        None
    }
}

/// `bytes` from `i` on with each `%` that two hexadecimal digits follow
/// replaced, together with the digits, by the byte that they write.
pub open spec fn percent_decoded_from(bytes: Seq<u8>, i: int) -> Seq<u8>
    decreases bytes.len() - i,
{
    if i < 0 || i >= bytes.len() {
        Seq::empty()
    } else if bytes[i] == 37 && i + 2 < bytes.len() && hex_value(bytes[i + 1]) is Some
        && hex_value(bytes[i + 2]) is Some {
        seq![(hex_value(bytes[i + 1])->0 * 16 + hex_value(bytes[i + 2])->0) as u8]
            + percent_decoded_from(bytes, i + 3)
    } else {
        seq![bytes[i]] + percent_decoded_from(bytes, i + 1)
    }
}

/// `percent_encoding::percent_decode_str` followed by
/// `PercentDecode::decode_utf8`: the bytes of `input` with each `%XX`
/// replaced by the byte it writes, read as UTF-8; `None` where they are not
/// valid UTF-8.
#[verifier::external_body]
fn percent_decode_utf8(input: &str) -> (decoded: Option<String>)
    ensures
        match decoded {
            Some(text) => valid_utf8(percent_decoded_from(encode_utf8(input@), 0)) && text@
                == decode_utf8(percent_decoded_from(encode_utf8(input@), 0)),
            None => !valid_utf8(percent_decoded_from(encode_utf8(input@), 0)),
        },
{
    match percent_encoding::percent_decode_str(input).decode_utf8() {
        Ok(text) => Some(text.into_owned()),
        Err(_) => None,
    }
}

/// Whether a byte is escaped in a path: every byte that is not ASCII, the
/// control characters, and the space, `"`, `<`, `>`, the backquote, `#`, `?`,
/// `{` and `}`.
pub open spec fn is_escaped_in_path(byte: u8) -> bool {
    ||| byte >= 0x80
    ||| byte < 0x20
    ||| byte == 0x7f
    ||| byte == 0x20
    ||| byte == 0x22
    ||| byte == 0x3c
    ||| byte == 0x3e
    ||| byte == 0x60
    ||| byte == 0x23
    ||| byte == 0x3f
    ||| byte == 0x7b
    ||| byte == 0x7d
}

/// One byte as it stands in an encoded path.
pub open spec fn path_encoded_byte(byte: u8) -> Seq<char> {
    if is_escaped_in_path(byte) {
        escaped_byte(byte)
    } else {
        seq![byte as char]
    }
}

/// The bytes as they stand in an encoded path.
pub open spec fn path_encoded(bytes: Seq<u8>) -> Seq<char>
    decreases bytes.len(),
{
    if bytes.len() == 0 {
        Seq::empty()
    } else {
        path_encoded(bytes.drop_last()) + path_encoded_byte(bytes.last())
    }
}

/// Longest encoded name that is kept as it is.
pub const MAX_NAME_LEN: usize = 200;

/// How much of a longer encoded name is kept.
pub const KEPT_NAME_LEN: usize = 180;

/// How many digits of the digest are appended to a shortened name.
pub const DIGEST_SUFFIX_LEN: usize = 16;

/// A slug or tag as it is written in URLs and file names: its UTF-8 bytes
/// percent-encoded for a path. Where that is longer than 200 characters, its
/// first 180 characters, a hyphen, and the first 16 digits of the digest of
/// the whole encoded text.
pub open spec fn url_encoded(input: Seq<char>) -> Seq<char> {
    let encoded = path_encoded(encode_utf8(input));
    if encoded.len() > MAX_NAME_LEN {
        encoded.subrange(0, KEPT_NAME_LEN as int) + seq!['-'] + content_digest(
            encode_utf8(encoded),
        ).subrange(0, DIGEST_SUFFIX_LEN as int)
    } else {
        encoded
    }
}

/// An encoded slug or tag read back: each `%XX` replaced by its byte and
/// the bytes read as UTF-8; the text itself where they are not valid UTF-8.
pub open spec fn url_decoded(input: Seq<char>) -> Seq<char> {
    let bytes = percent_decoded_from(encode_utf8(input), 0);
    if valid_utf8(bytes) {
        decode_utf8(bytes)
    } else {
        input
    }
}

/// Whether a byte is escaped in a path.
pub fn escapes_in_path(byte: u8) -> (escaped: bool)
    ensures
        escaped == is_escaped_in_path(byte),
{
    byte >= 0x80 || byte < 0x20 || byte == 0x7f || byte == 0x20 || byte == 0x22 || byte == 0x3c
        || byte == 0x3e || byte == 0x60 || byte == 0x23 || byte == 0x3f || byte == 0x7b || byte
        == 0x7d
}

/// Encodes a slug or tag for use in URLs and file names.
pub fn encode_for_url(input: &str) -> (encoded: String)
    ensures
        encoded@ == url_encoded(input@),
{
    let bytes = input.as_bytes();
    let mut out: Vec<char> = Vec::new();
    let mut i: usize = 0;
    assert(bytes@.subrange(0, 0) == Seq::<u8>::empty());
    while i < bytes.len()
        invariant
            i <= bytes@.len(),
            bytes@ == encode_utf8(input@),
            out@ == path_encoded(bytes@.subrange(0, i as int)),
        decreases bytes.len() - i,
    {
        let byte = bytes[i];
        proof {
            let upto = bytes@.subrange(0, i + 1);
            assert(upto.drop_last() == bytes@.subrange(0, i as int));
            assert(upto.last() == byte);
        }
        if escapes_in_path(byte) {
            push_str(&mut out, percent_encoding::percent_encode_byte(byte));
        } else {
            out.push(byte as char);
            assert(out@ == path_encoded(bytes@.subrange(0, i as int)) + seq![byte as char]);
        }
        i += 1;
    }
    assert(bytes@.subrange(0, bytes@.len() as int) == bytes@);
    if out.len() > MAX_NAME_LEN {
        let whole = string_of(&out);
        let digest = hash_file(whole.as_str().as_bytes());
        let digits = chars_of(digest.as_str());
        let mut short: Vec<char> = Vec::new();
        push_range(&mut short, &out, 0, KEPT_NAME_LEN);
        short.push('-');
        push_range(&mut short, &digits, 0, DIGEST_SUFFIX_LEN);
        assert(short@ == out@.subrange(0, KEPT_NAME_LEN as int) + seq!['-'] + digits@.subrange(
            0,
            DIGEST_SUFFIX_LEN as int,
        ));
        string_of(&short)
    } else {
        string_of(&out)
    }
}

/// Decodes a percent-encoded slug or tag.
pub fn decode_from_url(input: &str) -> (decoded: String)
    ensures
        decoded@ == url_decoded(input@),
{
    match percent_decode_utf8(input) {
        Some(text) => text,
        None => input.to_owned(),
    }
}

} // verus!
