use codec_core::asym;
use codec_core::errors::CodecError;
use codec_core::pipeline::{
    add, decrypt_fixed_offset_response, generate_nonce, generate_sign, md5_hash,
    parse_and_decrypt_response, sm2_decrypt, sm2_decrypt_with_mode, sm3_hash, uu1,
    uu1_decrypt_response, uu2, uu2_encrypt_request, uu3, uu3_decrypt_simple, uu4,
    uu4_decrypt_response, verify_sign,
};
use codec_core::recovery::recover;
use codec_core::symmetric::{aes_decrypt, aes_encrypt};

fn keypair() -> (String, String) {
    smcrypto::sm2::gen_keypair()
}

fn c1c2c3_hex(plain: &str, public_key: &str) -> String {
    let ctx = smcrypto::sm2::Encrypt::new(public_key);
    hex::encode(ctx.encrypt_c1c2c3(plain.as_bytes()))
}

#[test]
fn malformed_hex_ciphertext_yields_empty_not_a_fault() {
    assert_eq!(asym::decrypt("zz! not hex", "abcd"), "");
    assert_eq!(
        asym::decrypt_classified("zz! not hex", "abcd"),
        Err(CodecError::HexDecodeError)
    );
    assert_eq!(sm2_decrypt("odd", "abcd"), "");
}

#[test]
fn short_ciphertext_cannot_be_sliced() {
    // Valid hex, but fewer than the 96 bytes the C1C2C3 layout demands.
    assert_eq!(
        asym::decrypt_classified("48656c6c6f", "abcd"),
        Err(CodecError::IndexOutOfRange)
    );
    assert_eq!(asym::decrypt("48656c6c6f", "abcd"), "");
}

#[test]
fn unusable_key_is_an_asymmetric_failure() {
    let cipher = "00".repeat(96);
    assert_eq!(
        asym::decrypt_classified(&cipher, "not hex at all"),
        Err(CodecError::AsymmetricDecryptFailure)
    );
    assert_eq!(
        asym::decrypt_classified(&cipher, ""),
        Err(CodecError::AsymmetricDecryptFailure)
    );
}

#[test]
fn sm2_roundtrip_through_the_primitive() {
    let (sk, pk) = keypair();
    let cipher_hex = c1c2c3_hex("attack at dawn", &pk);
    assert_eq!(sm2_decrypt(&cipher_hex, &sk), "attack at dawn");
    assert_eq!(sm2_decrypt_with_mode(&cipher_hex, &sk, 0), "attack at dawn");
    assert_eq!(sm2_decrypt_with_mode(&cipher_hex, &sk, 1), "attack at dawn");
}

#[test]
fn sm2_encrypt_shape_and_key_validation() {
    let (_, pk) = keypair();
    let enc = asym::sm2_encrypt("hi", &pk);
    // hex of (2 bytes + 96-byte frame).
    assert_eq!(enc.len(), 2 * (2 + 96));
    assert!(enc.chars().all(|c| c.is_ascii_hexdigit()));
    let enc04 = asym::sm2_encrypt("hi", &format!("04{}", pk));
    assert_eq!(enc04.len(), 2 * (2 + 96));
    assert_eq!(asym::sm2_encrypt("hi", "tooshort"), "");
    assert_eq!(asym::sm2_encrypt("hi", &"zz".repeat(64)), "");
}

#[test]
fn inline_pipeline_end_to_end() {
    let (sk, pk) = keypair();
    let cipher_hex = c1c2c3_hex("the payload", &pk);
    let body = format!("02{}200{}ffff", sk, cipher_hex);
    let hint = format!("{}", sk.len());
    let out = parse_and_decrypt_response(&body, Some(&hint), None, None);
    assert!(out.success);
    assert_eq!(out.error, None);
    assert_eq!(out.data, "the payload");
}

#[test]
fn pipeline_error_variants() {
    // Not an envelope.
    let out = parse_and_decrypt_response("nope", Some("4"), None, None);
    assert_eq!(out.error, Some(CodecError::NotAnEnvelope));
    assert!(!out.success);
    assert_eq!(out.data, "");
    // Too short for the hinted key.
    let out = parse_and_decrypt_response("02ab", Some("4"), None, None);
    assert_eq!(out.error, Some(CodecError::TooShort));
    // A header that is not a decimal integer.
    let out = parse_and_decrypt_response("02abcd200aaffff", Some("4x"), None, None);
    assert_eq!(out.error, Some(CodecError::KeyLengthParseError));
    // A ciphertext region that is not hex.
    let out = parse_and_decrypt_response("02abcd200zzzzffff", Some("4"), None, None);
    assert_eq!(out.error, Some(CodecError::HexDecodeError));
    // Hex, but too short to slice into C1, C2 and C3.
    let out = parse_and_decrypt_response("02abcd20048656c6c6fffff", Some("4"), None, None);
    assert_eq!(out.error, Some(CodecError::IndexOutOfRange));
    // Fixed-offset mode without key material.
    let out = parse_and_decrypt_response("02xxxx48656c6c6fffff", None, None, None);
    assert_eq!(out.error, Some(CodecError::SymmetricDecryptFailure));
    // An inline key that the primitive cannot consume.
    let body = format!("02!!!!200{}ffff", "00".repeat(96));
    let out = parse_and_decrypt_response(&body, Some("4"), None, None);
    assert_eq!(out.error, Some(CodecError::AsymmetricDecryptFailure));
}

#[test]
fn fixed_offset_pipeline_end_to_end() {
    let (sk, pk) = keypair();
    let cipher_hex = c1c2c3_hex("fixed payload", &pk);
    // "02" + four filler characters, ciphertext, four-character trailer.
    let body = format!("02xxxx{}ffff", cipher_hex);
    let ts = "20240101";
    let token = aes_encrypt(&sk, ts);
    let out = parse_and_decrypt_response(&body, None, Some(&token), Some(ts));
    assert!(out.success);
    assert_eq!(out.data, "fixed payload");
    assert_eq!(decrypt_fixed_offset_response(&body, &token, ts), "fixed payload");
    // A token the timestamp cannot open is a symmetric failure.
    let out = parse_and_decrypt_response(&body, None, Some(&token), Some("other ts"));
    assert_eq!(out.error, Some(CodecError::SymmetricDecryptFailure));
    assert_eq!(decrypt_fixed_offset_response(&body, &token, "other ts"), "");
}

#[test]
fn uu1_decrypt_response_frames_the_plaintext() {
    let (sk, pk) = keypair();
    let cipher_hex = c1c2c3_hex("said \"hi\"", &pk);
    let data = format!("02{}200{}ffff", sk, cipher_hex);
    let hint = format!("{}", sk.len());
    let out = uu1_decrypt_response(&data, "", &hint);
    assert_eq!(out, "{\"data\":\"said \\\"hi\\\"\",\"success\":true}");
    // An unparsable length field yields nothing.
    assert_eq!(uu1_decrypt_response(&data, "", "soon"), "");
    // A failing decryption yields the empty string, never a framed success.
    let bad = format!("02{}200{}ffff", sk, "zz".repeat(50));
    assert_eq!(uu1_decrypt_response(&bad, "", &hint), "");
}

#[test]
fn uu4_decrypt_response_returns_bare_plaintext() {
    let (sk, pk) = keypair();
    let cipher_hex = c1c2c3_hex("bare", &pk);
    let data = format!("02{}200{}ffff", sk, cipher_hex);
    let hint = format!("{}", sk.len());
    assert_eq!(uu4_decrypt_response(&data, "", &hint), "bare");
    assert_eq!(uu4_decrypt_response("no envelope", "", &hint), "");
}

#[test]
fn uu1_interceptor_decrypts_and_passes_through() {
    let (sk, pk) = keypair();
    let cipher_hex = c1c2c3_hex("intercepted", &pk);
    let ts = "1700000000";
    let origin_key = aes_encrypt(&sk, ts);
    // Eight leading characters (marker plus six filler), four trailing.
    let data = format!("\"02xxxxxx{}ffff\"", cipher_hex);
    assert_eq!(uu1(200, &data, &origin_key, ts), "intercepted");
    // Pass-through branches.
    assert_eq!(uu1(500, &data, &origin_key, ts), data);
    assert_eq!(uu1(200, "plain body", &origin_key, ts), "plain body");
    assert_eq!(uu1(200, &data, "", ts), data);
    assert_eq!(uu1(200, "\"0", &origin_key, ts), "\"0");
    // A key token the timestamp cannot open means the key cannot be
    // recovered: the response passes through unchanged.
    assert_eq!(uu1(200, &data, &origin_key, "some other ts"), data);
}

#[test]
fn uu4_interceptor_returns_empty_object_on_failure() {
    let (sk, pk) = keypair();
    let cipher_hex = c1c2c3_hex("special", &pk);
    let ts = "1700000001";
    let uuid = aes_encrypt(&sk, ts);
    let data = format!("02xxxxxx{}ffff", cipher_hex);
    assert_eq!(uu4(&data, &uuid, ts), "special");
    assert_eq!(uu4("not enveloped", &uuid, ts), "{}");
    assert_eq!(uu4(&data, "", ts), "{}");
    assert_eq!(uu4("02short", &uuid, ts), "{}");
    // An unrecoverable session key is also a failure.
    assert_eq!(uu4(&data, &uuid, "some other ts"), "{}");
}

#[test]
fn uu2_encrypts_request_bodies() {
    let body = "{\"user\":1}";
    let enc = uu2(body, "/api/data", true, "req key");
    assert!(enc.starts_with("{\"data\":\""));
    assert!(enc.ends_with("\"}"));
    let inner = &enc["{\"data\":\"".len()..enc.len() - 2];
    assert_eq!(codec_core::symmetric::sm4_decrypt(inner, "req key"), body);
    // Pass-through branches.
    assert_eq!(uu2(body, "/v2/setting/theme", true, "req key"), body);
    assert_eq!(uu2("", "/api/data", true, "req key"), "");
    assert_eq!(uu2(body, "/api/data", false, "req key"), body);
    assert_eq!(uu2(body, "/api/data", true, ""), body);
}

#[test]
fn uu3_uses_the_fixed_fallback_key() {
    let enc = aes_encrypt("fallback text", "1234567890Oil#@1");
    assert_eq!(uu3(&enc), "fallback text");
    assert_eq!(uu3_decrypt_simple(&enc), "fallback text");
    assert_eq!(uu3("garbage"), "");
}

#[test]
fn uu2_encrypt_request_is_aes() {
    let enc = uu2_encrypt_request("abc", "k");
    assert_eq!(aes_decrypt(&enc, "k"), "abc");
}

#[test]
fn key_recovery_modes() {
    // A decimal field means the key stands inline: recovery is a no-op.
    assert_eq!(recover("whatever", "123"), None);
    // Otherwise the field symmetrically opens the token.
    let token = aes_encrypt("the session key", "ts-9");
    assert_eq!(recover(&token, "ts-9").as_deref(), Some("the session key"));
    // A token the field cannot open recovers nothing.
    assert_eq!(recover("junk token", "ts-9"), None);
}

#[test]
fn sm3_hash_known_vector() {
    assert_eq!(
        sm3_hash("abc"),
        "66c7f0f462eeedd9d1f2d46bdc10e4e24167c4875cf2f7a2297da02b8f4ba8e0"
    );
    assert_eq!(sm3_hash("").len(), 64);
}

#[test]
fn md5_hash_known_vector() {
    assert_eq!(md5_hash("abc"), "900150983cd24fb0d6963f7d28e17f72");
    assert_eq!(md5_hash(""), "d41d8cd98f00b204e9800998ecf8427e");
}

#[test]
fn nonce_is_fresh_hex() {
    let a = generate_nonce();
    let b = generate_nonce();
    assert_eq!(a.len(), 32);
    assert!(a.chars().all(|c| c.is_ascii_hexdigit()));
    assert_ne!(a, b);
}

#[test]
fn sign_and_verify_roundtrip() {
    let (sk, pk) = keypair();
    let sig = generate_sign("message body", &sk);
    assert!(!sig.is_empty());
    assert!(sig.chars().all(|c| c.is_ascii_hexdigit()));
    assert!(verify_sign("message body", &sig, &pk));
    assert!(!verify_sign("another body", &sig, &pk));
    assert!(!verify_sign("message body", "zz", &pk));
    assert!(!verify_sign("message body", &sig, "bad key"));
    assert!(!verify_sign("", &sig, &pk));
    // A point-format key with the 04 prefix verifies too.
    assert!(verify_sign("message body", &sig, &format!("04{}", pk)));
    assert_eq!(generate_sign("", &sk), "");
    assert_eq!(generate_sign("message body", "not hex"), "");
    // The one key value the primitive cannot take (one less than the group
    // order) is rejected as empty instead of faulting, in either case.
    let excluded = "fffffffeffffffffffffffffffffffff7203df6b21c6052b53bbf40939d54122";
    assert_eq!(generate_sign("message body", excluded), "");
    assert_eq!(generate_sign("message body", &excluded.to_uppercase()), "");
    // Keys longer than 64 hex digits are rejected rather than risked.
    assert_eq!(generate_sign("message body", &"ab".repeat(40)), "");
}

#[test]
fn add_is_addition() {
    assert_eq!(add(2, 3), 5);
    assert_eq!(add(-7, 7), 0);
}

#[test]
fn error_labels_are_fixed() {
    assert_eq!(CodecError::NotAnEnvelope.label(), "not_an_envelope");
    assert_eq!(CodecError::TooShort.label(), "too_short");
    assert_eq!(CodecError::IndexOutOfRange.label(), "index_out_of_range");
    assert_eq!(CodecError::HexDecodeError.label(), "hex_decode_error");
    assert_eq!(CodecError::KeyLengthParseError.label(), "key_length_parse_error");
    assert_eq!(
        CodecError::SymmetricDecryptFailure.label(),
        "symmetric_decrypt_failure"
    );
    assert_eq!(
        CodecError::AsymmetricDecryptFailure.label(),
        "asymmetric_decrypt_failure"
    );
}
