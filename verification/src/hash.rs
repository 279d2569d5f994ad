//! A 32-byte content hash and its text form of 64 hexadecimal digits.

use crate::ascii::ascii_string;
use crate::ascii::ascii_to_string;
use crate::ascii::is_ascii_bytes;
use crate::lexical::bytes_lt;
use vstd::prelude::*;
use vstd::string::StringSliceAdditionalSpecFns;

verus! {

/// The number of bytes of a [`Hash`].
pub const HASH_LEN: usize = 32;

/// Whether `b` is the ASCII code of a hexadecimal digit, of either case.
pub open spec fn is_hex_digit(b: u8) -> bool {
    ||| 48 <= b <= 57
    ||| 65 <= b <= 70
    ||| 97 <= b <= 102
}

/// The value of the hexadecimal digit with ASCII code `b`.
pub open spec fn hex_digit_value(b: u8) -> int
    recommends
        is_hex_digit(b),
{
    if 48 <= b <= 57 {
        b - 48
    } else if 65 <= b <= 70 {
        b - 65 + 10
    } else {
        b - 97 + 10
    }
}

/// The ASCII code of the lower-case hexadecimal digit with value `nibble`.
pub open spec fn lower_hex_digit(nibble: u8) -> u8
    recommends
        nibble < 16,
{
    if nibble < 10 {
        (48 + nibble) as u8
    } else {
        (97 + nibble - 10) as u8
    }
}

/// The text form of `bytes`: two lower-case hexadecimal digits for each
/// byte, the more significant digit first, in the order of the bytes.
pub open spec fn hex_text(bytes: Seq<u8>) -> Seq<u8> {
    Seq::new(
        2 * bytes.len(),
        |i: int|
            if i % 2 == 0 {
                lower_hex_digit(bytes[i / 2] / 16)
            } else {
                lower_hex_digit(bytes[i / 2] % 16)
            },
    )
}

/// Whether `text` consists of hexadecimal digits only.
pub open spec fn all_hex_digits(text: Seq<u8>) -> bool {
    forall|i: int| 0 <= i < text.len() ==> is_hex_digit(#[trigger] text[i])
}

/// Whether `text` is the text form of some hash, in any mix of cases.
pub open spec fn is_hash_text(text: Seq<u8>) -> bool {
    text.len() == 2 * HASH_LEN && all_hex_digits(text)
}

/// The number of hexadecimal digits that `text` starts with, which is the
/// index of its first byte that is none.
pub open spec fn hex_prefix_len(text: Seq<u8>) -> int
    decreases text.len(),
{
    if text.len() == 0 || !is_hex_digit(text[0]) {
        0
    } else {
        1 + hex_prefix_len(text.drop_first())
    }
}

/// The bytes that the pairs of hexadecimal digits in `text` stand for.
pub open spec fn hex_bytes(text: Seq<u8>) -> Seq<u8> {
    Seq::new(
        text.len() / 2,
        |i: int| (hex_digit_value(text[2 * i]) * 16 + hex_digit_value(text[2 * i + 1])) as u8,
    )
}

/// `text` with every upper-case ASCII letter replaced by its lower-case form.
pub open spec fn lower_case(text: Seq<u8>) -> Seq<u8> {
    Seq::new(
        text.len(),
        |i: int|
            if 65 <= text[i] <= 90 {
                (text[i] + 32) as u8
            } else {
                text[i]
            },
    )
}

/// Why a text is not the text form of a hash.
#[derive(Debug, Clone, Copy, PartialEq, Eq)]
pub enum HashDecodeError {
    /// The byte at `index` is no hexadecimal digit; `c` is the character with
    /// that byte as its code point.
    InvalidHexCharacter { c: char, index: usize },
    /// The text has an odd number of bytes.
    OddLength,
    /// The text has an even number of bytes, but not 64.
    InvalidStringLength,
}

/// What decoding `text` into `len` bytes gives: the bytes, or the first
/// reason in the order of length parity, length and digits why there are none.
pub open spec fn decode_outcome(text: Seq<u8>, len: int) -> Result<Seq<u8>, HashDecodeError> {
    if text.len() % 2 != 0 {
        Err(HashDecodeError::OddLength)
    } else if text.len() / 2 != len {
        Err(HashDecodeError::InvalidStringLength)
    } else if hex_prefix_len(text) < text.len() {
        Err(
            HashDecodeError::InvalidHexCharacter {
                c: text[hex_prefix_len(text)] as char,
                index: hex_prefix_len(text) as usize,
            },
        )
    } else {
        Ok(hex_bytes(text))
    }
}

/// The text that stands for "the byte at `index`, which is the code point of
/// `c`, is no hexadecimal digit".
pub uninterp spec fn invalid_character_text(c: char, index: usize) -> Seq<char>;

impl HashDecodeError {
    /// The human-readable cause.
    pub open spec fn text(self) -> Seq<char> {
        match self {
            HashDecodeError::InvalidHexCharacter { c, index } => invalid_character_text(c, index),
            HashDecodeError::OddLength => "Odd number of digits"@,
            HashDecodeError::InvalidStringLength => "Invalid string length"@,
        }
    }

    /// Returns the human-readable cause.
    pub fn message(&self) -> (message: String)
        ensures
            message@ == self.text(),
    {
        hex_error_text(self)
    }
}

/// Renders the cause through the `Display` of `hex::FromHexError`, which
/// writes a fixed sentence for each of the two length errors and, for an
/// invalid character, a sentence that holds the character in its debug form
/// and the index in decimal.
#[verifier::external_body]
fn hex_error_text(cause: &HashDecodeError) -> (text: String)
    ensures
        cause is InvalidHexCharacter ==> text@ == invalid_character_text(cause->c, cause->index),
        cause is OddLength ==> text@ == "Odd number of digits"@,
        cause is InvalidStringLength ==> text@ == "Invalid string length"@,
{
    let cause = match *cause {
        HashDecodeError::InvalidHexCharacter { c, index } => {
            hex::FromHexError::InvalidHexCharacter { c, index }
        },
        HashDecodeError::OddLength => hex::FromHexError::OddLength,
        HashDecodeError::InvalidStringLength => hex::FromHexError::InvalidStringLength,
    };
    format!("{cause}")
}

/// Calls `hex::decode_to_slice` on `text` with room for 32 bytes. It fails on
/// a text of odd length, then on one whose half length is not 32, then on the
/// first byte that is no hexadecimal digit of either case; otherwise each
/// pair of digits gives one byte, the first digit its upper half.
#[verifier::external_body]
fn hex_decode_to_slice(text: &[u8]) -> (res: Result<Hash, HashDecodeError>)
    ensures
        decoded(res) == decode_outcome(text@, 32),
{
    let mut bytes = [0u8; 32];
    match hex::decode_to_slice(text, &mut bytes) {
        Ok(()) => Ok(Hash(bytes)),
        Err(hex::FromHexError::InvalidHexCharacter { c, index }) => Err(
            HashDecodeError::InvalidHexCharacter { c, index },
        ),
        Err(hex::FromHexError::OddLength) => Err(HashDecodeError::OddLength),
        Err(hex::FromHexError::InvalidStringLength) => Err(HashDecodeError::InvalidStringLength),
    }
}

/// A content hash of 32 bytes. Hashes are equal, and ordered, as their
/// bytes are.
#[derive(Debug, PartialEq, Eq, Hash, PartialOrd, Ord)]
pub struct Hash(pub [u8; 32]);

impl View for Hash {
    type V = Seq<u8>;

    open spec fn view(&self) -> Seq<u8> {
        self.0@
    }
}

impl Clone for Hash {
    fn clone(&self) -> (copy: Self)
        ensures
            copy == *self,
    {
        Hash(self.0)
    }
}

/// The bytes of a decoded hash, or the cause that there is none.
pub open spec fn decoded(res: Result<Hash, HashDecodeError>) -> Result<Seq<u8>, HashDecodeError> {
    match res {
        Ok(hash) => Ok(hash@),
        Err(cause) => Err(cause),
    }
}

/// The hexadecimal digit of `nibble`, in lower case.
fn lower_hex_digit_of(nibble: u8) -> (digit: u8)
    requires
        nibble < 16,
    ensures
        digit == lower_hex_digit(nibble),
        digit < 128,
{
    if nibble < 10 {
        48 + nibble
    } else {
        97 + (nibble - 10)
    }
}

impl Hash {
    /// The text form of the hash: 64 lower-case hexadecimal digits.
    pub fn encode(&self) -> (text: String)
        ensures
            text@ == ascii_string(hex_text(self@)),
    {
        let mut digits: Vec<u8> = Vec::new();
        let mut i: usize = 0;
        while i < 32
            invariant
                i <= 32,
                self@.len() == 32,
                digits@ == hex_text(self@.take(i as int)),
                is_ascii_bytes(digits@),
            decreases 32 - i,
        {
            let b = self.0[i];
            let high = lower_hex_digit_of(b / 16);
            let low = lower_hex_digit_of(b % 16);
            digits.push(high);
            digits.push(low);
            assert(digits@ =~= hex_text(self@.take(i + 1))) by {
                assert(self@.take(i + 1) == self@.take(i as int).push(b));
            }
            i += 1;
        }
        assert(self@.take(32) == self@);
        ascii_to_string(&digits)
    }

    /// Reads a hash from its text form: exactly 64 hexadecimal digits, in
    /// any mix of cases. No part of a text that is anything else is decoded.
    pub fn decode(text: &str) -> (res: Result<Hash, HashDecodeError>)
        ensures
            decoded(res) == decode_outcome(text.spec_bytes(), 32),
            res is Ok <==> is_hash_string(text@),
            res matches Ok(hash) ==> hash@ == hex_bytes(text.spec_bytes()),
    {
        proof {
            lemma_decode_outcome(text.spec_bytes());
            lemma_hash_string(text@);
        }
        hex_decode_to_slice(text.as_bytes())
    }
}

impl TryFrom<&str> for Hash {
    type Error = String;

    /// Reads a hash from its text form, as [`Hash::decode`] does; a failure
    /// comes as its human-readable cause.
    fn try_from(value: &str) -> (res: Result<Hash, String>)
        ensures
            res is Ok <==> is_hash_string(value@),
            res matches Ok(hash) ==> hash@ == hex_bytes(value.spec_bytes()),
            res matches Err(message) ==> decode_outcome(value.spec_bytes(), 32) matches Err(cause)
                && message@ == cause.text(),
    {
        match Hash::decode(value) {
            Ok(hash) => Ok(hash),
            Err(cause) => Err(cause.message()),
        }
    }
}

impl vstd::std_specs::convert::TryFromSpecImpl<&str> for Hash {
    open spec fn obeys_try_from_spec() -> bool {
        false
    }

    open spec fn try_from_spec(v: &str) -> Result<Self, String> {
        Err(arbitrary())
    }
}

impl From<Hash> for String {
    /// The text form of the hash, as [`Hash::encode`] gives it.
    fn from(value: Hash) -> (text: String)
        ensures
            text@ == ascii_string(hex_text(value@)),
    {
        value.encode()
    }
}

impl vstd::std_specs::convert::FromSpecImpl<Hash> for String {
    open spec fn obeys_from_spec() -> bool {
        false
    }

    open spec fn from_spec(v: Hash) -> String {
        arbitrary()
    }
}

/// Whether `c` is a hexadecimal digit, of either case.
pub open spec fn is_hex_char(c: char) -> bool {
    ||| '0' <= c <= '9'
    ||| 'A' <= c <= 'F'
    ||| 'a' <= c <= 'f'
}

/// Whether `text` is 64 hexadecimal digits, in any mix of cases.
pub open spec fn is_hash_string(text: Seq<char>) -> bool {
    text.len() == 2 * HASH_LEN && forall|i: int|
        0 <= i < text.len() ==> is_hex_char(#[trigger] text[i])
}

/// The strings whose bytes are the text form of a hash are those of 64
/// hexadecimal digits: one of another length, or with any other character in
/// it, is none.
pub proof fn lemma_hash_string(text: Seq<char>)
    ensures
        is_hash_text(vstd::utf8::encode_utf8(text)) <==> is_hash_string(text),
{
    let bytes = vstd::utf8::encode_utf8(text);
    if is_hash_text(bytes) {
        assert forall|i: int| 0 <= i < bytes.len() implies bytes[i] < 128 by {
            assert(is_hex_digit(bytes[i]));
        }
        crate::ascii::lemma_ascii_bytes_chars(text);
        vstd::utf8::is_ascii_chars_encode_utf8(text);
        assert forall|i: int| 0 <= i < text.len() implies is_hex_char(#[trigger] text[i]) by {
            assert(text[i] as u8 == bytes[i]);
            assert(is_hex_digit(bytes[i]));
        }
    }
    if is_hash_string(text) {
        assert forall|i: int| 0 <= i < text.len() implies '\0' <= #[trigger] text[i]
            <= '\u{7f}' by {
            assert(is_hex_char(text[i]));
        }
        vstd::utf8::is_ascii_chars_encode_utf8(text);
        assert forall|i: int| 0 <= i < bytes.len() implies is_hex_digit(#[trigger] bytes[i]) by {
            assert(text[i] as u8 == bytes[i]);
            assert(is_hex_char(text[i]));
        }
    }
}

/// The number of leading hexadecimal digits of a text is at most its length,
/// reaches it exactly when all of it is digits, and otherwise is the index of
/// the first byte that is none.
pub proof fn lemma_hex_prefix_len(text: Seq<u8>)
    ensures
        0 <= hex_prefix_len(text) <= text.len(),
        all_hex_digits(text.take(hex_prefix_len(text))),
        hex_prefix_len(text) < text.len() ==> !is_hex_digit(text[hex_prefix_len(text)]),
        hex_prefix_len(text) == text.len() <==> all_hex_digits(text),
    decreases text.len(),
{
    if text.len() == 0 || !is_hex_digit(text[0]) {
        assert(text.take(0).len() == 0);
    } else {
        let rest = text.drop_first();
        lemma_hex_prefix_len(rest);
        let n = hex_prefix_len(rest);
        assert forall|i: int| 0 <= i < n + 1 implies is_hex_digit(
            #[trigger] text.take(n + 1)[i],
        ) by {
            if i > 0 {
                assert(text.take(n + 1)[i] == rest.take(n)[i - 1]);
            }
        }
        if all_hex_digits(text) {
            assert forall|i: int| 0 <= i < rest.len() implies is_hex_digit(#[trigger] rest[i]) by {
                assert(rest[i] == text[i + 1]);
            }
        }
        if n == rest.len() {
            assert(text.take(n + 1) == text);
        }
    }
}

/// Decoding succeeds on the text forms of hashes and on nothing else.
pub proof fn lemma_decode_outcome(text: Seq<u8>)
    ensures
        decode_outcome(text, 32) is Ok <==> is_hash_text(text),
        decode_outcome(text, 32) matches Ok(bytes) ==> bytes == hex_bytes(text),
{
    lemma_hex_prefix_len(text);
}

/// The text form of any bytes is ASCII text made of hexadecimal digits, two
/// for each byte.
pub proof fn lemma_hex_text(bytes: Seq<u8>)
    ensures
        hex_text(bytes).len() == 2 * bytes.len(),
        all_hex_digits(hex_text(bytes)),
        is_ascii_bytes(hex_text(bytes)),
        lower_case(hex_text(bytes)) == hex_text(bytes),
{
    let text = hex_text(bytes);
    assert forall|i: int| 0 <= i < text.len() implies is_hex_digit(#[trigger] text[i]) && text[i]
        < 128 && !(65 <= text[i] <= 90) by {
        let b = bytes[i / 2];
        assert(b / 16 < 16 && b % 16 < 16);
    }
    assert(lower_case(text) =~= text);
}

/// Decoding the text form of a hash gives the hash back.
pub proof fn lemma_decode_encode(bytes: Seq<u8>)
    requires
        bytes.len() == HASH_LEN,
    ensures
        is_hash_text(hex_text(bytes)),
        hex_bytes(hex_text(bytes)) == bytes,
        decode_outcome(hex_text(bytes), 32) matches Ok(read) && read == bytes,
        vstd::utf8::encode_utf8(ascii_string(hex_text(bytes))) == hex_text(bytes),
{
    let text = hex_text(bytes);
    lemma_hex_text(bytes);
    assert forall|i: int| 0 <= i < bytes.len() implies hex_bytes(text)[i] == bytes[i] by {
        let b = bytes[i];
        assert(text[2 * i] == lower_hex_digit(b / 16));
        assert(text[2 * i + 1] == lower_hex_digit(b % 16));
        assert(b / 16 < 16 && b % 16 < 16);
        assert((b / 16) * 16 + b % 16 == b);
    }
    assert(hex_bytes(text) =~= bytes);
    lemma_decode_outcome(text);
    crate::ascii::lemma_ascii_string_bytes(text);
}

/// Encoding what a text form decodes to gives the text back in lower case.
pub proof fn lemma_encode_decode(text: Seq<u8>)
    requires
        is_hash_text(text),
    ensures
        hex_bytes(text).len() == HASH_LEN,
        hex_text(hex_bytes(text)) == lower_case(text),
{
    let bytes = hex_bytes(text);
    assert forall|i: int| 0 <= i < text.len() implies hex_text(bytes)[i] == lower_case(text)[i] by {
        let k = i / 2;
        assert(is_hex_digit(text[2 * k]));
        assert(is_hex_digit(text[2 * k + 1]));
        let high = hex_digit_value(text[2 * k]);
        let low = hex_digit_value(text[2 * k + 1]);
        assert(0 <= high < 16 && 0 <= low < 16);
        assert(bytes[k] == high * 16 + low);
        assert(bytes[k] / 16 == high && bytes[k] % 16 == low);
    }
    assert(hex_text(bytes) =~= lower_case(text));
}

/// The text forms of hashes are ordered as the hashes are: one text comes
/// before another, byte by byte, exactly when its bytes do.
pub proof fn lemma_hex_text_keeps_order(a: Seq<u8>, b: Seq<u8>)
    ensures
        bytes_lt(hex_text(a), hex_text(b)) <==> bytes_lt(a, b),
    decreases a.len(),
{
    let ta = hex_text(a);
    let tb = hex_text(b);
    if a.len() > 0 && b.len() > 0 {
        let x = a[0];
        let y = b[0];
        assert(x / 16 < 16 && x % 16 < 16 && y / 16 < 16 && y % 16 < 16);
        assert(x == (x / 16) * 16 + x % 16 && y == (y / 16) * 16 + y % 16);
        assert(ta[0] == lower_hex_digit(x / 16) && ta[1] == lower_hex_digit(x % 16));
        assert(tb[0] == lower_hex_digit(y / 16) && tb[1] == lower_hex_digit(y % 16));
        let ta1 = ta.drop_first();
        let tb1 = tb.drop_first();
        assert(ta1[0] == ta[1] && tb1[0] == tb[1]);
        assert(ta1.drop_first() =~= hex_text(a.drop_first()));
        assert(tb1.drop_first() =~= hex_text(b.drop_first()));
        lemma_hex_text_keeps_order(a.drop_first(), b.drop_first());
        assert(bytes_lt(ta, tb) == if ta[0] != tb[0] {
            ta[0] < tb[0]
        } else {
            bytes_lt(ta1, tb1)
        });
        assert(bytes_lt(ta1, tb1) == if ta1[0] != tb1[0] {
            ta1[0] < tb1[0]
        } else {
            bytes_lt(ta1.drop_first(), tb1.drop_first())
        });
    }
}

} // verus!
