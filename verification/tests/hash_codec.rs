use change_model::hash;
use change_model::HashDecodeError;

fn sample_bytes() -> [u8; 32] {
    let mut bytes = [0u8; 32];
    for (i, b) in bytes.iter_mut().enumerate() {
        *b = (i as u8).wrapping_mul(37).wrapping_add(11);
    }
    bytes
}

const SAMPLE_TEXT: &str = "0b30557a9fc4e90e33587da2c7ec11365b80a5caef14395e83a8cdf2173c6186";

#[test]
fn encode_gives_lower_case_digits() {
    let mut bytes = [0u8; 32];
    bytes[0] = 0xab;
    bytes[1] = 0x01;
    bytes[31] = 0xf0;
    let text = hash::Hash(bytes).encode();
    assert_eq!(text, "ab010000000000000000000000000000000000000000000000000000000000f0");
}

#[test]
fn encode_sample() {
    assert_eq!(hash::Hash(sample_bytes()).encode(), SAMPLE_TEXT);
    assert_eq!(hash::Hash([0u8; 32]).encode(), "0".repeat(64));
    assert_eq!(hash::Hash([0xffu8; 32]).encode(), "f".repeat(64));
}

#[test]
fn encode_agrees_with_hex() {
    let bytes = sample_bytes();
    assert_eq!(hash::Hash(bytes).encode(), hex::encode(bytes));
}

#[test]
fn decode_inverts_encode() {
    let hash = hash::Hash(sample_bytes());
    let text = hash.encode();
    assert_eq!(text.len(), 64);
    assert_eq!(hash::Hash::decode(&text), Ok(hash));
}

#[test]
fn decode_inverts_encode_for_every_byte_value() {
    for start in 0..8u32 {
        let mut bytes = [0u8; 32];
        for (i, b) in bytes.iter_mut().enumerate() {
            *b = (start * 32 + i as u32) as u8;
        }
        let hash = hash::Hash(bytes);
        assert_eq!(hash::Hash::decode(&hash.encode()), Ok(hash));
    }
}

#[test]
fn decode_reads_digits_of_either_case() {
    let upper = SAMPLE_TEXT.to_uppercase();
    assert_eq!(hash::Hash::decode(&upper), Ok(hash::Hash(sample_bytes())));
    let mixed: String = SAMPLE_TEXT
        .chars()
        .enumerate()
        .map(|(i, c)| if i % 3 == 0 { c.to_ascii_uppercase() } else { c })
        .collect();
    assert_ne!(mixed, SAMPLE_TEXT);
    assert_eq!(hash::Hash::decode(&mixed), Ok(hash::Hash(sample_bytes())));
}

#[test]
fn encode_after_decode_gives_the_lower_case_text() {
    let mixed = "0B30557A9FC4E90E33587DA2C7EC11365b80a5caef14395e83a8cdf2173c6186";
    let hash = hash::Hash::decode(mixed).expect("64 hexadecimal digits");
    assert_eq!(hash.encode(), mixed.to_lowercase());
}

#[test]
fn decode_rejects_odd_length() {
    let text = "a".repeat(63);
    assert_eq!(hash::Hash::decode(&text), Err(HashDecodeError::OddLength));
    let text = "a".repeat(65);
    assert_eq!(hash::Hash::decode(&text), Err(HashDecodeError::OddLength));
}

#[test]
fn decode_rejects_other_even_lengths() {
    assert_eq!(hash::Hash::decode(""), Err(HashDecodeError::InvalidStringLength));
    assert_eq!(hash::Hash::decode(&"a".repeat(62)), Err(HashDecodeError::InvalidStringLength));
    assert_eq!(hash::Hash::decode(&"a".repeat(66)), Err(HashDecodeError::InvalidStringLength));
}

#[test]
fn decode_names_the_first_character_that_is_no_digit() {
    let mut text = "0".repeat(64);
    text.replace_range(10..11, "g");
    text.replace_range(40..41, "z");
    assert_eq!(
        hash::Hash::decode(&text),
        Err(HashDecodeError::InvalidHexCharacter { c: 'g', index: 10 })
    );
    let mut text = "0".repeat(64);
    text.replace_range(63..64, " ");
    assert_eq!(
        hash::Hash::decode(&text),
        Err(HashDecodeError::InvalidHexCharacter { c: ' ', index: 63 })
    );
}

#[test]
fn decode_goes_by_bytes() {
    // 62 digits and one character of two bytes: 64 bytes, 63 characters.
    let text = format!("{}é", "0".repeat(62));
    assert_eq!(text.len(), 64);
    assert_eq!(
        hash::Hash::decode(&text),
        Err(HashDecodeError::InvalidHexCharacter { c: '\u{c3}', index: 62 })
    );
    // 64 characters, one of them of two bytes: 65 bytes.
    let text = format!("{}é", "0".repeat(63));
    assert_eq!(text.chars().count(), 64);
    assert_eq!(hash::Hash::decode(&text), Err(HashDecodeError::OddLength));
}

#[test]
fn messages_name_the_cause() {
    assert_eq!(HashDecodeError::OddLength.message(), "Odd number of digits");
    assert_eq!(HashDecodeError::InvalidStringLength.message(), "Invalid string length");
    assert_eq!(
        HashDecodeError::InvalidHexCharacter { c: 'g', index: 10 }.message(),
        "Invalid character 'g' at position 10"
    );
    assert_eq!(
        HashDecodeError::InvalidHexCharacter { c: '\n', index: 5 }.message(),
        "Invalid character '\\n' at position 5"
    );
}

#[test]
fn try_from_reads_a_hash() {
    assert_eq!(hash::Hash::try_from(SAMPLE_TEXT), Ok(hash::Hash(sample_bytes())));
}

#[test]
fn try_from_fails_with_the_cause_in_words() {
    assert_eq!(hash::Hash::try_from("abc"), Err("Odd number of digits".to_string()));
    assert_eq!(hash::Hash::try_from("abcd"), Err("Invalid string length".to_string()));
    let text = format!("{}x", "1".repeat(63));
    assert_eq!(
        hash::Hash::try_from(text.as_str()),
        Err("Invalid character 'x' at position 63".to_string())
    );
}

#[test]
fn string_from_hash_is_the_text_form() {
    assert_eq!(String::from(hash::Hash(sample_bytes())), SAMPLE_TEXT);
}

#[test]
fn hashes_are_equal_by_their_bytes() {
    let mut other = sample_bytes();
    assert_eq!(hash::Hash(sample_bytes()), hash::Hash(other));
    other[31] ^= 1;
    assert_ne!(hash::Hash(sample_bytes()), hash::Hash(other));
    let hash = hash::Hash(other);
    assert_eq!(hash.clone(), hash);
}
