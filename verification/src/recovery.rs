use vstd::prelude::*;
use crate::chars::str_to_chars;
use crate::numparse::{all_dec_digits, dec_val, parse_usize};
use crate::symmetric::aes_decrypt_spec;

verus! {

/// Whether the second recovery argument is a key-length field: a decimal
/// integer in machine range. In that mode the session key stands inline in
/// the envelope and nothing is recovered here.
pub open spec fn is_length_field(field: Seq<char>) -> bool {
    all_dec_digits(field) && dec_val(field) <= usize::MAX
}

/// What key recovery yields. A length field makes recovery a no-op (the key
/// comes straight out of the envelope); otherwise the field is a timestamp
/// used as a symmetric key to decrypt the token, and an empty result means
/// the key cannot be recovered.
pub open spec fn recover_spec(token: Seq<char>, field: Seq<char>) -> Option<Seq<char>> {
    if is_length_field(field) {
        None
    } else {
        let plain = aes_decrypt_spec(token, field);
        if plain.len() == 0 {
            None
        } else {
            Some(plain)
        }
    }
}

/// Recover the real session key from an encrypted key token.
///
/// When `timestamp_or_length_field` is a decimal integer it is a key length
/// and this function is deliberately a no-op: the caller takes the key from
/// the envelope instead. Otherwise the field serves as the symmetric key
/// that decrypts the token. Nothing is ever raised; callers must treat
/// `None` as "cannot proceed", not as an empty plaintext.
pub fn recover(encrypted_key_token: &str, timestamp_or_length_field: &str) -> (r: Option<String>)
    ensures
        match r {
            Some(k) => recover_spec(encrypted_key_token@, timestamp_or_length_field@) == Some(k@),
            None => recover_spec(encrypted_key_token@, timestamp_or_length_field@) is None,
        },
{
    let fc = str_to_chars(timestamp_or_length_field);
    if let Some(_) = parse_usize(&fc) {
        return None;
    }
    let plain = crate::symmetric::aes_decrypt(encrypted_key_token, timestamp_or_length_field);
    if plain.as_str().unicode_len() == 0 {
        None
    } else {
        Some(plain)
    }
}

} // verus!
