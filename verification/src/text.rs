//! Text and bytes: decoding received bytes, and what the UTF-8 encoding of a
//! text holds.

use vstd::prelude::*;
use vstd::utf8::*;

verus! {

/// `core::str::Utf8Error`, the error of `core::str::from_utf8`. Nothing is
/// read from it.
#[verifier::external_type_specification]
#[verifier::external_body]
pub struct ExUtf8Error(core::str::Utf8Error);

/// `core::str::from_utf8` accepts exactly the well-formed UTF-8 byte
/// strings, and the string slice it returns has the bytes it was given.
pub assume_specification[ core::str::from_utf8 ](v: &[u8]) -> (r: Result<
    &str,
    core::str::Utf8Error,
>)
    ensures
        r is Ok <==> valid_utf8(v@),
        r matches Ok(s) ==> encode_utf8(s@) == v@,
;

/// What `String::from_utf8_lossy` makes of an ill-formed byte string: the
/// text in which every ill-formed part is replaced by U+FFFD.
pub uninterp spec fn repaired_text(bytes: Seq<u8>) -> Seq<char>;

/// The text that a byte string stands for: its decoding where it is
/// well-formed UTF-8, and the repaired text where it is not.
pub open spec fn text_of(bytes: Seq<u8>) -> Seq<char> {
    if valid_utf8(bytes) {
        decode_utf8(bytes)
    } else {
        repaired_text(bytes)
    }
}

/// Whether `text` is what lenient decoding makes of `bytes`: the text of
/// the bytes, in which every ASCII character is one of the bytes, and which
/// holds U+FFFD where the bytes are not well-formed.
pub open spec fn decodes_to(bytes: Seq<u8>, text: Seq<char>) -> bool {
    &&& text == text_of(bytes)
    &&& !valid_utf8(bytes) ==> text.contains('\u{fffd}')
    &&& forall|b: u8| b < 0x80 && text.contains(b as char) ==> #[trigger] bytes.contains(b)
}

/// `String::from_utf8_lossy` returns a well-formed input as the string it
/// encodes. In any other input it replaces every ill-formed part by U+FFFD
/// and decodes the rest: the result is the repaired text, it holds U+FFFD,
/// and every ASCII character in it is a byte of the input.
#[verifier::external_body]
pub(crate) fn copy_to_string(input: &[u8]) -> (s: String)
    ensures
        valid_utf8(input@) ==> s@ == decode_utf8(input@),
        !valid_utf8(input@) ==> s@ == repaired_text(input@) && s@.contains('\u{fffd}'),
        forall|b: u8| b < 0x80 && s@.contains(b as char) ==> #[trigger] input@.contains(b),
{
    String::from_utf8_lossy(input).into_owned()
}

/// Decodes `input` where it is well-formed UTF-8.
pub fn to_text(input: &[u8]) -> (r: Option<String>)
    ensures
        r is Some <==> valid_utf8(input@),
        r matches Some(s) ==> s@ == decode_utf8(input@),
{
    match core::str::from_utf8(input) {
        Ok(s) => {
            proof {
                encode_utf8_decode_utf8(s@);
            }
            Some(s.to_owned())
        },
        Err(_) => None,
    }
}

/// Whether every byte of `bytes` is below 0x80.
pub open spec fn ascii_bytes(bytes: Seq<u8>) -> bool {
    forall|i: int| 0 <= i < bytes.len() ==> #[trigger] bytes[i] < 0x80
}

/// The text whose characters are the bytes of an ASCII byte string.
pub open spec fn ascii_text(bytes: Seq<u8>) -> Seq<char> {
    Seq::new(bytes.len(), |i: int| bytes[i] as char)
}

/// An ASCII byte string is well-formed UTF-8 and decodes byte by byte.
pub proof fn lemma_decode_ascii(bytes: Seq<u8>)
    requires
        ascii_bytes(bytes),
    ensures
        valid_utf8(bytes),
        decode_utf8(bytes) == ascii_text(bytes),
        text_of(bytes) == ascii_text(bytes),
{
    let chars = ascii_text(bytes);
    assert(is_ascii_chars(chars)) by {
        assert forall|i: int| 0 <= i < chars.len() implies '\0' <= #[trigger] chars[i]
            <= '\u{7f}' by {
            assert(bytes[i] < 0x80);
        }
    }
    is_ascii_chars_encode_utf8(chars);
    assert(encode_utf8(chars) =~= bytes) by {
        assert forall|i: int| 0 <= i < bytes.len() implies encode_utf8(chars)[i] == bytes[i] by {
            assert(bytes[i] < 0x80);
            assert(chars[i] as u8 == bytes[i]);
        }
    }
    encode_utf8_valid_utf8(chars);
    encode_utf8_decode_utf8(chars);
}

/// The encoding of one scalar is the scalar itself as a single byte where
/// it is below 0x80, and otherwise two to four bytes of 0x80 or above.
pub proof fn lemma_encode_scalar_bytes(c: u32)
    requires
        is_scalar(c),
    ensures
        1 <= encode_scalar(c).len() <= 4,
        c < 0x80 ==> encode_scalar(c) == seq![c as u8],
        c >= 0x80 ==> forall|i: int|
            0 <= i < encode_scalar(c).len() ==> #[trigger] encode_scalar(c)[i] >= 0x80,
{
    if has_width_1_encoding(c) {
        assert(leading_byte_width_1(c) == c as u8) by (bit_vector)
            requires
                has_width_1_encoding(c),
        ;
    } else {
        assert(leading_byte_width_2(c) >= 0x80 && leading_byte_width_3(c) >= 0x80
            && leading_byte_width_4(c) >= 0x80 && last_continuation_byte(c) >= 0x80
            && second_last_continuation_byte(c) >= 0x80 && third_last_continuation_byte(c)
            >= 0x80) by (bit_vector);
    }
}

/// The encoding of a concatenation is the concatenation of the encodings.
pub proof fn lemma_encode_concat(a: Seq<char>, b: Seq<char>)
    ensures
        encode_utf8(a + b) == encode_utf8(a) + encode_utf8(b),
    decreases a.len(),
{
    if a.len() == 0 {
        assert(a + b =~= b);
        assert(encode_utf8(a) + encode_utf8(b) =~= encode_utf8(b));
    } else {
        lemma_encode_concat(a.drop_first(), b);
        assert((a + b).drop_first() =~= a.drop_first() + b);
        assert(encode_utf8(a + b) =~= encode_utf8(a) + encode_utf8(b));
    }
}

/// A byte below 0x80 occurs in the encoding of a text exactly where the
/// text holds the character of that byte.
pub proof fn lemma_ascii_byte_in_encoding(text: Seq<char>, b: u8)
    requires
        b < 0x80,
    ensures
        encode_utf8(text).contains(b) <==> text.contains(b as char),
    decreases text.len(),
{
    if text.len() > 0 {
        let c = text[0] as u32;
        let head = encode_scalar(c);
        let rest = text.drop_first();
        let tail = encode_utf8(rest);
        char_is_scalar(text[0]);
        char_u32_cast(text[0], c);
        lemma_encode_scalar_bytes(c);
        lemma_ascii_byte_in_encoding(rest, b);
        assert(encode_utf8(text) == head + tail);
        if encode_utf8(text).contains(b) {
            let i = choose|i: int| 0 <= i < (head + tail).len() && (head + tail)[i] == b;
            if i < head.len() {
                assert(head[i] == b);
                assert(c == b as u32);
                assert(text[0] == b as char);
            } else {
                assert(tail[i - head.len()] == b);
                let j = choose|j: int| 0 <= j < rest.len() && rest[j] == b as char;
                assert(text[j + 1] == b as char);
            }
        }
        if text.contains(b as char) {
            let j = choose|j: int| 0 <= j < text.len() && text[j] == b as char;
            if j == 0 {
                assert((head + tail)[0] == b);
            } else {
                assert(rest[j - 1] == b as char);
                let i = choose|i: int| 0 <= i < tail.len() && tail[i] == b;
                assert((head + tail)[head.len() + i] == b);
            }
        }
    }
}

/// Whether `text` holds the character `c`, which must be ASCII.
pub(crate) fn contains_ascii(text: &str, c: u8) -> (r: bool)
    requires
        c < 0x80,
    ensures
        r == text@.contains(c as char),
{
    let bytes = text.as_bytes();
    let mut i: usize = 0;
    while i < bytes.len()
        invariant
            c < 0x80,
            bytes@ == encode_utf8(text@),
            i <= bytes@.len(),
            forall|k: int| 0 <= k < i ==> #[trigger] bytes@[k] != c,
        decreases bytes@.len() - i,
    {
        if bytes[i] == c {
            proof {
                assert(bytes@.contains(c));
                lemma_ascii_byte_in_encoding(text@, c);
            }
            return true;
        }
        i = i + 1;
    }
    proof {
        lemma_ascii_byte_in_encoding(text@, c);
    }
    false
}

} // verus!
