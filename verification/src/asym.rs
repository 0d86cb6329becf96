use vstd::prelude::*;
use crate::chars::{str_to_chars, subvec};
use crate::errors::CodecError;
use crate::hexcodec::{hex_decode, hex_decode_seq, hex_encode, is_hex_digit, valid_hex_seq};
use crate::outside::{lossy_text_of, sm2_decrypt_c1c2c3, sm2_encrypt_raw, sm2_plain_of, utf8_lossy};

verus! {

/// A key string the asymmetric primitive can consume: non-empty hex.
pub open spec fn usable_key(key: Seq<char>) -> bool {
    key.len() > 0 && (forall|i: int| 0 <= i < key.len() ==> is_hex_digit(#[trigger] key[i]))
}

/// What asymmetric decryption yields, failure by failure: the ciphertext
/// must be hex, its bytes must cover the C1 point and C3 digest of the
/// C1C2C3 layout, the key must be usable, and the recovered plaintext must
/// be non-empty; the plaintext is then read as lossy UTF-8.
pub open spec fn decrypt_classified_spec(cipher_hex: Seq<char>, key: Seq<char>) -> Result<
    Seq<char>,
    CodecError,
> {
    if !valid_hex_seq(cipher_hex) {
        Err(CodecError::HexDecodeError)
    } else if hex_decode_seq(cipher_hex).len() < 96 {
        Err(CodecError::IndexOutOfRange)
    } else if !usable_key(key) {
        Err(CodecError::AsymmetricDecryptFailure)
    } else {
        let plain = sm2_plain_of(key, hex_decode_seq(cipher_hex));
        if plain.len() == 0 {
            Err(CodecError::AsymmetricDecryptFailure)
        } else {
            Ok(lossy_text_of(plain))
        }
    }
}

/// What the string-only interface yields: the classified result, or the
/// empty string in place of every failure.
pub open spec fn decrypt_spec(cipher_hex: Seq<char>, key: Seq<char>) -> Seq<char> {
    match decrypt_classified_spec(cipher_hex, key) {
        Ok(s) => s,
        Err(_) => Seq::empty(),
    }
}

/// Whether every character of a vector is a hex digit.
pub(crate) fn all_hex(v: &Vec<char>) -> (r: bool)
    ensures
        r == (forall|i: int| 0 <= i < v@.len() ==> is_hex_digit(#[trigger] v@[i])),
{
    let mut i: usize = 0;
    while i < v.len()
        invariant
            i <= v@.len(),
            forall|k: int| 0 <= k < i ==> is_hex_digit(#[trigger] v@[k]),
        decreases v@.len() - i,
    {
        if !crate::hexcodec::hex_digit(v[i]) {
            return false;
        }
        i += 1;
    }
    true
}

/// Decrypt a hex-encoded asymmetric ciphertext under a key, naming the
/// failure when one arises.
pub fn decrypt_classified(cipher_hex: &str, key: &str) -> (r: Result<String, CodecError>)
    ensures
        match r {
            Ok(s) => decrypt_classified_spec(cipher_hex@, key@) == Ok::<_, CodecError>(s@),
            Err(e) => decrypt_classified_spec(cipher_hex@, key@) == Err::<Seq<char>, _>(e),
        },
{
    let cc = str_to_chars(cipher_hex);
    let bytes = match hex_decode(&cc) {
        Some(b) => b,
        None => {
            return Err(CodecError::HexDecodeError);
        },
    };
    if bytes.len() < 96 {
        return Err(CodecError::IndexOutOfRange);
    }
    let kc = str_to_chars(key);
    if kc.len() == 0 || !all_hex(&kc) {
        return Err(CodecError::AsymmetricDecryptFailure);
    }
    let plain = sm2_decrypt_c1c2c3(key, &bytes);
    if plain.len() == 0 {
        return Err(CodecError::AsymmetricDecryptFailure);
    }
    Ok(utf8_lossy(&plain))
}

/// Decrypt a hex-encoded asymmetric ciphertext under a key. Every failure --
/// malformed hex, a short ciphertext, an unusable key, an empty plaintext --
/// is surfaced as the empty string, never a fault.
pub fn decrypt(cipher_hex: &str, key: &str) -> (r: String)
    ensures
        r@ == decrypt_spec(cipher_hex@, key@),
{
    match decrypt_classified(cipher_hex, key) {
        Ok(s) => s,
        Err(_) => String::new(),
    }
}

/// A public key string the asymmetric encryptor can consume: 128 hex
/// characters, with or without an `04` point-format prefix.
pub open spec fn encryptable_pubkey(key: Seq<char>) -> bool {
    let stripped = if key.len() == 130 && key[0] == '0' && key[1] == '4' {
        key.skip(2)
    } else {
        key
    };
    stripped.len() == 128 && usable_key(stripped)
}

/// Encrypt bytes of a text under a public key, hex-encoding the result.
/// The key must be 128 hex characters, with or without an `04` point-format
/// prefix; an unusable key yields the empty string. The primitive draws a
/// fresh nonce, so of the result only its shape is stated: hex of the
/// 96-byte frame around the payload, or empty.
pub fn sm2_encrypt(data: &str, public_key: &str) -> (r: String)
    ensures
        r@.len() == 0 || (valid_hex_seq(r@) && r@.len() == 2 * (
        vstd::utf8::encode_utf8(data@).len() + 96)),
        !encryptable_pubkey(public_key@) ==> r@.len() == 0,
{
    let kc = str_to_chars(public_key);
    let stripped: Vec<char> = if kc.len() == 130 {
        let h0 = kc[0];
        let h1 = kc[1];
        if h0 == '0' && h1 == '4' {
            let s = subvec(&kc, 2, kc.len());
            proof {
                assert(kc@.subrange(2, kc@.len() as int) =~= kc@.skip(2));
            }
            s
        } else {
            return String::new();
        }
    } else {
        kc
    };
    if stripped.len() != 128 || !all_hex(&stripped) {
        return String::new();
    }
    let key_s = crate::chars::chars_to_string(&stripped);
    let data_bytes = vstd::string::StrSliceExecFns::as_bytes_vec(data);
    let cipher = sm2_encrypt_raw(key_s.as_str(), &data_bytes);
    if cipher.len() == 0 {
        return String::new();
    }
    let out = hex_encode(&cipher);
    crate::chars::chars_to_string(&out)
}

} // verus!
