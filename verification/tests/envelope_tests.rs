use codec_core::chars::str_to_chars;
use codec_core::envelope::parse;
use codec_core::errors::CodecError;
use codec_core::hexcodec::{hex_decode, hex_encode};
use codec_core::numparse::parse_usize;

#[test]
fn inline_envelope_recovers_key_and_cipher() {
    // "02" + "abcd" + "200" + hex("Hello") + "ffff", hint "4".
    let raw = "02abcd20048656c6c6fffff";
    let parsed = parse(raw, Some("4"), false).expect("inline envelope must parse");
    assert_eq!(parsed.key.as_deref(), Some("abcd"));
    assert_eq!(parsed.ciphertext, "48656c6c6f");
    let bytes = hex_decode(&str_to_chars(&parsed.ciphertext)).expect("cipher region is hex");
    assert_eq!(bytes, b"Hello".to_vec());
}

#[test]
fn inline_envelope_separator_is_not_validated() {
    // The three characters after the key are skipped without being checked.
    let raw = "02abcdXYZ48656c6c6fffff";
    let parsed = parse(raw, Some("4"), false).expect("corrupt separator still parses");
    assert_eq!(parsed.key.as_deref(), Some("abcd"));
    assert_eq!(parsed.ciphertext, "48656c6c6f");
}

#[test]
fn envelope_shorter_than_hint_minimum_is_too_short() {
    let raw = "02abff";
    assert_eq!(parse(raw, Some("4"), false), Err(CodecError::TooShort));
}

#[test]
fn envelope_with_empty_cipher_region_is_too_short() {
    // Exactly 2 + 4 + 3 + 4 characters: nothing remains for the ciphertext.
    let raw = "02abcd200ffff";
    assert_eq!(parse(raw, Some("4"), false), Err(CodecError::TooShort));
}

#[test]
fn not_an_envelope_without_marker() {
    assert_eq!(parse("zz02abcd20048ffff", Some("4"), false), Err(CodecError::NotAnEnvelope));
    assert_eq!(parse("", Some("4"), false), Err(CodecError::NotAnEnvelope));
    assert_eq!(parse("0", None, false), Err(CodecError::NotAnEnvelope));
    assert_eq!(parse("hello world", None, false), Err(CodecError::NotAnEnvelope));
}

#[test]
fn strip_mode_discards_two_cipher_characters() {
    let raw = "02abcd200XX48656c6c6fffff";
    let parsed = parse(raw, Some("4"), true).expect("inline envelope must parse");
    assert_eq!(parsed.ciphertext, "48656c6c6f");
}

#[test]
fn strip_mode_keeps_short_cipher_regions() {
    // Two characters or fewer are kept as they are.
    let raw = "02abcd200XYffff";
    let parsed = parse(raw, Some("4"), true).expect("inline envelope must parse");
    assert_eq!(parsed.ciphertext, "XY");
}

#[test]
fn fixed_offset_mode_without_hint() {
    // Six leading and four trailing characters are discarded.
    let raw = "02xxxx48656c6c6fffff";
    let parsed = parse(raw, None, false).expect("fixed-offset envelope must parse");
    assert_eq!(parsed.key, None);
    assert_eq!(parsed.ciphertext, "48656c6c6f");
}

#[test]
fn unparsable_hint_falls_back_to_fixed_offset() {
    let raw = "02xxxx48656c6c6fffff";
    let parsed = parse(raw, Some("not-a-number"), false).expect("must fall back");
    assert_eq!(parsed.key, None);
    assert_eq!(parsed.ciphertext, "48656c6c6f");
}

#[test]
fn fixed_offset_too_short() {
    assert_eq!(parse("02xxffff", None, false), Err(CodecError::TooShort));
    // Ten characters leave an empty ciphertext region.
    assert_eq!(parse("02xxxxffff", None, false), Err(CodecError::TooShort));
}

#[test]
fn zero_length_hint_keeps_empty_key() {
    let raw = "0220048656c6c6fffff";
    let parsed = parse(raw, Some("0"), false).expect("zero-length key parses");
    assert_eq!(parsed.key.as_deref(), Some(""));
    assert_eq!(parsed.ciphertext, "48656c6c6f");
}

#[test]
fn hex_codec_roundtrip_and_rejection() {
    let bytes = vec![0u8, 1, 0x7f, 0x80, 0xff, 0x48];
    let enc = hex_encode(&bytes);
    let enc_s: String = enc.iter().collect();
    assert_eq!(enc_s, "00017f80ff48");
    assert_eq!(hex_decode(&enc), Some(bytes));
    assert_eq!(hex_decode(&str_to_chars("abc")), None); // odd length
    assert_eq!(hex_decode(&str_to_chars("zz")), None); // not hex
    assert_eq!(hex_decode(&str_to_chars("AbCd")), Some(vec![0xab, 0xcd]));
    assert_eq!(hex_decode(&str_to_chars("")), Some(vec![]));
}

#[test]
fn decimal_parse_exact_bounds() {
    assert_eq!(parse_usize(&str_to_chars("0")), Some(0));
    assert_eq!(parse_usize(&str_to_chars("007")), Some(7));
    assert_eq!(parse_usize(&str_to_chars("18446744073709551615")), Some(usize::MAX));
    assert_eq!(parse_usize(&str_to_chars("18446744073709551616")), None);
    assert_eq!(parse_usize(&str_to_chars("")), None);
    assert_eq!(parse_usize(&str_to_chars("12a")), None);
    assert_eq!(parse_usize(&str_to_chars("-1")), None);
}
