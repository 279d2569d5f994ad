//! ASCII text, held as bytes while it is computed and as a `String` at the
//! library's edge.

use vstd::prelude::*;
use vstd::utf8::encode_utf8;
use vstd::utf8::is_ascii_chars;
use vstd::utf8::is_ascii_chars_encode_utf8;

verus! {

/// Whether every byte stands for an ASCII character.
pub open spec fn is_ascii_bytes(bytes: Seq<u8>) -> bool {
    forall|i: int| 0 <= i < bytes.len() ==> bytes[i] < 128
}

/// The characters that ASCII bytes stand for, one per byte: each is the
/// character with the byte as its code point.
pub open spec fn ascii_string(bytes: Seq<u8>) -> Seq<char> {
    Seq::new(bytes.len(), |i: int| bytes[i] as char)
}

/// The UTF-8 encoding of ASCII text is the text's bytes themselves.
pub proof fn lemma_ascii_string_bytes(bytes: Seq<u8>)
    requires
        is_ascii_bytes(bytes),
    ensures
        is_ascii_chars(ascii_string(bytes)),
        encode_utf8(ascii_string(bytes)) == bytes,
{
    let chars = ascii_string(bytes);
    assert forall|i: int| 0 <= i < chars.len() implies '\0' <= #[trigger] chars[i] <= '\u{7f}' by {
        assert(bytes[i] < 128);
    }
    is_ascii_chars_encode_utf8(chars);
    assert forall|i: int| 0 <= i < bytes.len() implies encode_utf8(chars)[i] == bytes[i] by {
        assert(chars[i] as u8 == encode_utf8(chars)[i]);
        assert(bytes[i] < 128);
    }
    assert(encode_utf8(chars) =~= bytes);
}

/// Text whose UTF-8 encoding holds ASCII bytes only is ASCII text, with one
/// byte for each character.
pub proof fn lemma_ascii_bytes_chars(chars: Seq<char>)
    requires
        is_ascii_bytes(encode_utf8(chars)),
    ensures
        is_ascii_chars(chars),
        encode_utf8(chars).len() == chars.len(),
    decreases chars.len(),
{
    if chars.len() > 0 {
        let bytes = encode_utf8(chars);
        let c = chars[0] as u32;
        let rest = chars.drop_first();
        vstd::utf8::char_is_scalar(chars[0]);
        assert(bytes == vstd::utf8::encode_scalar(c) + encode_utf8(rest));
        assert(bytes[0] == vstd::utf8::encode_scalar(c)[0]);
        assert(bytes[0] < 128);
        if !(c <= 0x7F) {
            assert((0xC0u8 | ((c >> 6) & 0x1F) as u8) >= 0x80) by (bit_vector);
            assert((0xE0u8 | ((c >> 12) & 0x0F) as u8) >= 0x80) by (bit_vector);
            assert((0xF0u8 | ((c >> 18) & 0x7) as u8) >= 0x80) by (bit_vector);
            assert(false);
        }
        assert(vstd::utf8::encode_scalar(c).len() == 1);
        assert(encode_utf8(rest) =~= bytes.skip(1));
        assert forall|i: int| 0 <= i < encode_utf8(rest).len() implies encode_utf8(rest)[i]
            < 128 by {
            assert(encode_utf8(rest)[i] == bytes[i + 1]);
        }
        lemma_ascii_bytes_chars(rest);
        assert forall|i: int| 0 <= i < chars.len() implies '\0' <= #[trigger] chars[i]
            <= '\u{7f}' by {
            if i > 0 {
                assert(chars[i] == rest[i - 1]);
            } else {
                vstd::utf8::char_u32_cast(chars[0], c);
                assert(c as char == chars[0]);
            }
        }
    }
}

/// `String::push` appends one character to the end of the string.
pub assume_specification[ String::push ](text: &mut String, c: char)
    ensures
        final(text)@ == old(text)@.push(c),
;

/// Builds the string that has one character for each byte: the character
/// with the byte as its code point, which for an ASCII byte is the character
/// that the byte stands for.
pub fn ascii_to_string(bytes: &Vec<u8>) -> (text: String)
    ensures
        text@ == ascii_string(bytes@),
{
    let mut text = String::new();
    let mut i: usize = 0;
    while i < bytes.len()
        invariant
            i <= bytes.len(),
            text@ == ascii_string(bytes@.take(i as int)),
        decreases bytes.len() - i,
    {
        let b = bytes[i];
        text.push(b as char);
        assert(bytes@.take(i + 1) == bytes@.take(i as int).push(b));
        assert(ascii_string(bytes@.take(i as int).push(b)) == ascii_string(
            bytes@.take(i as int),
        ).push(b as char));
        i += 1;
    }
    assert(bytes@.take(i as int) == bytes@);
    text
}

} // verus!
