use base64::Engine;
use codec_core::symmetric::{
    aes_decrypt, aes_encrypt, pkcs7_pad_exec, pkcs7_unpad_exec, sm4_decrypt, sm4_encrypt,
    tail_pad_exec, tail_unpad_exec, to_16_key,
};

#[test]
fn aes_roundtrip() {
    let plain = "hello world";
    let enc = aes_encrypt(plain, "some key");
    assert_ne!(enc, plain);
    assert_eq!(aes_decrypt(&enc, "some key"), plain);
}

#[test]
fn aes_roundtrip_with_multibyte_text() {
    let plain = "数字 42 与符号 \u{4E00}";
    let enc = aes_encrypt(plain, "1234567890Oil#@1");
    assert_eq!(aes_decrypt(&enc, "1234567890Oil#@1"), plain);
}

#[test]
fn aes_wrong_key_does_not_recover() {
    let enc = aes_encrypt("payload", "key-one");
    assert_ne!(aes_decrypt(&enc, "key-two"), "payload");
}

#[test]
fn aes_decrypt_malformed_inputs_yield_empty() {
    assert_eq!(aes_decrypt("", "k"), "");
    assert_eq!(aes_decrypt("!!! not base64 !!!", "k"), "");
    // Valid base64, but not a whole number of cipher blocks.
    assert_eq!(aes_decrypt("AAAA", "k"), "");
    // Whole blocks of noise: the padding check fails almost surely.
    assert_eq!(aes_decrypt("AAAAAAAAAAAAAAAAAAAAAA==", "k"), "");
}

#[test]
fn aes_empty_plaintext_roundtrip() {
    let enc = aes_encrypt("", "k");
    // One whole block of padding, base64-encoded.
    assert_eq!(enc.len(), 24);
    assert_eq!(aes_decrypt(&enc, "k"), "");
}

#[test]
fn sm4_roundtrip() {
    let plain = "block cipher test";
    let enc = sm4_encrypt(plain, "another key");
    assert_ne!(enc, plain);
    assert_eq!(sm4_decrypt(&enc, "another key"), plain);
}

#[test]
fn sm4_ciphertext_is_hex_of_whole_blocks() {
    // One byte pads to one block: 32 hex characters.
    let enc = sm4_encrypt("a", "k");
    assert_eq!(enc.len(), 32);
    assert!(enc.chars().all(|c| c.is_ascii_hexdigit()));
    // Exactly one block of input gains no padding at all.
    let enc16 = sm4_encrypt("0123456789abcdef", "k");
    assert_eq!(enc16.len(), 32);
}

#[test]
fn sm4_decrypt_malformed_inputs_yield_empty() {
    assert_eq!(sm4_decrypt("", "k"), "");
    assert_eq!(sm4_decrypt("zz", "k"), "");
    assert_eq!(sm4_decrypt("abc", "k"), "");
    // Valid hex, but not a whole number of blocks.
    assert_eq!(sm4_decrypt("abcd", "k"), "");
}

#[test]
fn key_normalization_truncates_and_pads() {
    let short = to_16_key(&b"abc".to_vec());
    assert_eq!(short.len(), 16);
    assert_eq!(&short[..3], b"abc");
    assert!(short[3..].iter().all(|&b| b == 0));
    let long = to_16_key(&b"0123456789abcdefEXTRA".to_vec());
    assert_eq!(long, b"0123456789abcdef".to_vec());
    // Keys agreeing on their first sixteen bytes encrypt identically.
    assert_eq!(
        aes_encrypt("x", "0123456789abcdefXX"),
        aes_encrypt("x", "0123456789abcdefYYYY")
    );
}

#[test]
fn pkcs7_padding_exact_values() {
    let padded = pkcs7_pad_exec(&vec![1u8, 2, 3]);
    assert_eq!(padded.len(), 16);
    assert_eq!(&padded[..3], &[1, 2, 3]);
    assert!(padded[3..].iter().all(|&b| b == 13));
    assert_eq!(pkcs7_unpad_exec(&padded), Some(vec![1, 2, 3]));
    // A whole block of input still gains a whole block of padding.
    let full = pkcs7_pad_exec(&vec![7u8; 16]);
    assert_eq!(full.len(), 32);
    assert!(full[16..].iter().all(|&b| b == 16));
    assert_eq!(pkcs7_unpad_exec(&full), Some(vec![7u8; 16]));
    // Corrupt padding is rejected.
    let mut bad = pkcs7_pad_exec(&vec![1u8, 2, 3]);
    bad[5] = 99;
    assert_eq!(pkcs7_unpad_exec(&bad), None);
    assert_eq!(pkcs7_unpad_exec(&vec![]), None);
    assert_eq!(pkcs7_unpad_exec(&vec![0u8; 16]), None);
}

#[test]
fn tail_padding_exact_values() {
    // A whole block gains nothing; a trailing byte outside the pad range
    // keeps the block whole on the way back.
    let full = tail_pad_exec(&vec![0x99u8; 16]);
    assert_eq!(full.len(), 16);
    assert_eq!(tail_unpad_exec(&full), vec![0x99u8; 16]);
    // The lax unpad trusts a trailing byte in pad range even without
    // padding: a block of nines loses its last nine bytes.
    assert_eq!(tail_unpad_exec(&vec![9u8; 16]), vec![9u8; 7]);
    // A ragged tail is filled with the fill count.
    let padded = tail_pad_exec(&vec![1u8, 2]);
    assert_eq!(padded.len(), 16);
    assert!(padded[2..].iter().all(|&b| b == 14));
    assert_eq!(tail_unpad_exec(&padded), vec![1, 2]);
    // A trailing byte out of pad range passes through unchanged.
    assert_eq!(tail_unpad_exec(&vec![1u8, 2, 99]), vec![1, 2, 99]);
    let empty: Vec<u8> = vec![];
    assert_eq!(tail_unpad_exec(&empty), empty);
}

#[test]
fn aes_really_enciphers_its_blocks() {
    // Were the block step the identity, the ciphertext would be the base64
    // of the padded plaintext.
    let plain = "AAAAAAAAAAAAAAAA";
    let mut padded = plain.as_bytes().to_vec();
    padded.extend(std::iter::repeat(16u8).take(16));
    let identity_form = base64::engine::general_purpose::STANDARD.encode(&padded);
    assert_ne!(aes_encrypt(plain, "some key"), identity_form);
}

#[test]
fn sm4_really_enciphers_its_blocks() {
    // Were the block step the identity, the ciphertext would be the hex of
    // the plaintext, which fills a whole block by itself.
    let plain = "0123456789abcdef";
    let identity_form = hex::encode(plain.as_bytes());
    assert_ne!(sm4_encrypt(plain, "some key"), identity_form);
}
