use vstd::prelude::*;
use vstd::utf8::{decode_utf8, valid_utf8};
use base64::Engine;
use cipher::{BlockCipherDecrypt, BlockCipherEncrypt, KeyInit};
use sm3::Digest;

verus! {

/// Relies on `getrandom::getrandom`: fills a buffer from the operating
/// system's secure entropy source, or reports its error. Nothing is promised
/// of the bytes beyond their number.
#[verifier::external_body]
pub fn os_random_bytes(n: usize) -> (r: Option<Vec<u8>>)
    ensures
        r matches Some(v) ==> v@.len() == n,
{
    let mut buf = vec![0u8; n];
    match getrandom::getrandom(&mut buf) {
        Ok(()) => Some(buf),
        Err(_) => None,
    }
}

/// The SM3 digest of a byte string, a function of the input alone.
pub uninterp spec fn sm3_digest_of(data: Seq<u8>) -> Seq<u8>;

/// Relies on `sm3::Sm3` through the `Digest` interface: a 32-byte digest
/// determined by the input bytes alone.
#[verifier::external_body]
pub fn sm3_digest(data: &Vec<u8>) -> (r: Vec<u8>)
    ensures
        r@ == sm3_digest_of(data@),
        r@.len() == 32,
{
    let mut hasher = sm3::Sm3::new();
    hasher.update(data.as_slice());
    hasher.finalize().to_vec()
}

/// The MD5 digest of a byte string, a function of the input alone.
pub uninterp spec fn md5_digest_of(data: Seq<u8>) -> Seq<u8>;

/// Relies on `md5::Md5` through the `Digest` interface: a 16-byte digest
/// determined by the input bytes alone.
#[verifier::external_body]
pub fn md5_digest(data: &Vec<u8>) -> (r: Vec<u8>)
    ensures
        r@ == md5_digest_of(data@),
        r@.len() == 16,
{
    let mut hasher = md5::Md5::new();
    hasher.update(data.as_slice());
    hasher.finalize().to_vec()
}

/// One AES-128 block encryption, a function of key and block alone.
pub uninterp spec fn aes_block_enc_of(key: Seq<u8>, block: Seq<u8>) -> Seq<u8>;

/// Relies on `aes::Aes128`: enciphers one 16-byte block under a 16-byte
/// key, and block decryption under the same key inverts it.
#[verifier::external_body]
pub fn aes128_encrypt_block(key: &Vec<u8>, block: &Vec<u8>) -> (r: Vec<u8>)
    requires
        key@.len() == 16,
        block@.len() == 16,
    ensures
        r@ == aes_block_enc_of(key@, block@),
        r@.len() == 16,
        aes_block_dec_of(key@, r@) == block@,
{
    let cipher = aes::Aes128::new_from_slice(key.as_slice()).unwrap();
    let mut b = aes::Block::default();
    b.copy_from_slice(block.as_slice());
    cipher.encrypt_block(&mut b);
    b.to_vec()
}

/// One AES-128 block decryption, a function of key and block alone.
pub uninterp spec fn aes_block_dec_of(key: Seq<u8>, block: Seq<u8>) -> Seq<u8>;

/// Relies on `aes::Aes128`: deciphers one 16-byte block under a 16-byte key.
#[verifier::external_body]
pub fn aes128_decrypt_block(key: &Vec<u8>, block: &Vec<u8>) -> (r: Vec<u8>)
    requires
        key@.len() == 16,
        block@.len() == 16,
    ensures
        r@ == aes_block_dec_of(key@, block@),
        r@.len() == 16,
{
    let cipher = aes::Aes128::new_from_slice(key.as_slice()).unwrap();
    let mut b = aes::Block::default();
    b.copy_from_slice(block.as_slice());
    cipher.decrypt_block(&mut b);
    b.to_vec()
}

/// One SM4 block encryption, a function of key and block alone.
pub uninterp spec fn sm4_block_enc_of(key: Seq<u8>, block: Seq<u8>) -> Seq<u8>;

/// Relies on `sm4::Sm4`: enciphers one 16-byte block under a 16-byte key,
/// and block decryption under the same key inverts it.
#[verifier::external_body]
pub fn sm4_encrypt_block(key: &Vec<u8>, block: &Vec<u8>) -> (r: Vec<u8>)
    requires
        key@.len() == 16,
        block@.len() == 16,
    ensures
        r@ == sm4_block_enc_of(key@, block@),
        r@.len() == 16,
        sm4_block_dec_of(key@, r@) == block@,
{
    let cipher = sm4::Sm4::new_from_slice(key.as_slice()).unwrap();
    let mut b = sm4::cipher::Block::<sm4::Sm4>::default();
    b.copy_from_slice(block.as_slice());
    cipher.encrypt_block(&mut b);
    b.to_vec()
}

/// One SM4 block decryption, a function of key and block alone.
pub uninterp spec fn sm4_block_dec_of(key: Seq<u8>, block: Seq<u8>) -> Seq<u8>;

/// Relies on `sm4::Sm4`: deciphers one 16-byte block under a 16-byte key.
#[verifier::external_body]
pub fn sm4_decrypt_block(key: &Vec<u8>, block: &Vec<u8>) -> (r: Vec<u8>)
    requires
        key@.len() == 16,
        block@.len() == 16,
    ensures
        r@ == sm4_block_dec_of(key@, block@),
        r@.len() == 16,
{
    let cipher = sm4::Sm4::new_from_slice(key.as_slice()).unwrap();
    let mut b = sm4::cipher::Block::<sm4::Sm4>::default();
    b.copy_from_slice(block.as_slice());
    cipher.decrypt_block(&mut b);
    b.to_vec()
}

/// The standard base64 encoding of a byte string.
pub uninterp spec fn b64_of(data: Seq<u8>) -> Seq<char>;

/// Relies on `base64`'s standard alphabet engine: the encoding is
/// determined by the bytes alone, four characters stand for every three
/// bytes begun, and decoding with the same engine inverts it.
#[verifier::external_body]
pub fn b64_encode(data: &Vec<u8>) -> (r: String)
    ensures
        r@ == b64_of(data@),
        r@.len() == 4 * ((data@.len() + 2) / 3),
        b64_decode_of(r@) == Some(data@),
{
    base64::engine::general_purpose::STANDARD.encode(data.as_slice())
}

/// What the standard base64 engine decodes a string to, if anything.
pub uninterp spec fn b64_decode_of(s: Seq<char>) -> Option<Seq<u8>>;

/// Relies on `base64`'s standard alphabet engine: what a string decodes to,
/// if anything, is determined by the string alone.
#[verifier::external_body]
pub fn b64_decode(s: &str) -> (r: Option<Vec<u8>>)
    ensures
        r is Some <==> b64_decode_of(s@) is Some,
        r matches Some(v) ==> Some(v@) == b64_decode_of(s@),
{
    match base64::engine::general_purpose::STANDARD.decode(s) {
        Ok(v) => Some(v),
        Err(_) => None,
    }
}

/// The SM2 plaintext that a private key recovers from C1C2C3-ordered cipher
/// bytes, a function of key and bytes alone.
pub uninterp spec fn sm2_plain_of(key: Seq<char>, data: Seq<u8>) -> Seq<u8>;

/// Relies on `smcrypto::sm2::Decrypt::decrypt_c1c2c3`: recovers the
/// plaintext from cipher bytes laid out as curve point, payload, digest.
/// The key must be non-empty hex (the crate parses it unconditionally) and
/// the data must cover the 64-byte point and the 32-byte digest.
#[verifier::external_body]
pub fn sm2_decrypt_c1c2c3(key: &str, data: &Vec<u8>) -> (r: Vec<u8>)
    requires
        data@.len() >= 96,
        key@.len() > 0,
        forall|i: int| 0 <= i < key@.len() ==> crate::hexcodec::is_hex_digit(#[trigger] key@[i]),
    ensures
        r@ == sm2_plain_of(key@, data@),
{
    let ctx = smcrypto::sm2::Decrypt::new(key);
    ctx.decrypt_c1c2c3(data.as_slice())
}

/// Relies on `smcrypto::sm2::Encrypt::encrypt`: producing C1C3C2-ordered
/// cipher bytes under a fresh random nonce. Randomness enters the result, so
/// only its shape is stated: a 96-byte frame around the payload, or empty in
/// the crate's degenerate key-derivation case. The key must be 128
/// characters of hex (the crate slices and parses it unconditionally).
#[verifier::external_body]
pub fn sm2_encrypt_raw(key: &str, data: &Vec<u8>) -> (r: Vec<u8>)
    requires
        key@.len() == 128,
        forall|i: int| 0 <= i < key@.len() ==> crate::hexcodec::is_hex_digit(#[trigger] key@[i]),
    ensures
        r@.len() == data@.len() + 96 || r@.len() == 0,
{
    let ctx = smcrypto::sm2::Encrypt::new(key);
    ctx.encrypt(data.as_slice())
}

/// The hex spelling of one less than the SM2 group order, the one private
/// key value the signing primitive cannot take.
pub open spec fn sm2_order_minus_one_hex() -> Seq<char> {
    "fffffffeffffffffffffffffffffffff7203df6b21c6052b53bbf40939d54122"@
}

/// Whether a hex key string spells, digit value for digit value, one less
/// than the SM2 group order.
pub open spec fn spells_sm2_order_minus_one(key: Seq<char>) -> bool {
    key.len() == 64 && (forall|i: int|
        0 <= i < 64 ==> crate::hexcodec::hex_digit_val(#[trigger] key[i])
            == crate::hexcodec::hex_digit_val(sm2_order_minus_one_hex()[i]))
}

/// Relies on `smcrypto::sm2::Sign::sign`: a DER-encoded signature drawn
/// under a fresh random nonce, so nothing can be promised of its value.
/// The key must be hex of one to 64 digits (the crate parses it
/// unconditionally), and must not denote one less than the group order: for
/// that single value the crate's modular inverse of `key + 1` is zero and
/// an unsigned subtraction in it underflows. Keys of at most 64 digits
/// denote values below twice the order, so that residue has exactly the one
/// spelling excluded here.
#[verifier::external_body]
pub fn sm2_sign_raw(key: &str, data: &Vec<u8>) -> (r: Vec<u8>)
    requires
        0 < key@.len() <= 64,
        forall|i: int| 0 <= i < key@.len() ==> crate::hexcodec::is_hex_digit(#[trigger] key@[i]),
        !spells_sm2_order_minus_one(key@),
{
    let ctx = smcrypto::sm2::Sign::new(key);
    ctx.sign(data.as_slice())
}

/// Whether a signature verifies, a function of key, data and signature
/// alone.
pub uninterp spec fn sm2_verify_of(pubkey: Seq<char>, data: Seq<u8>, sig: Seq<u8>) -> bool;

/// Relies on `smcrypto::sm2::Verify::verify`: deterministic in its three
/// arguments; a malformed DER signature simply verifies false. The key must
/// be 128 characters of hex (the crate slices and parses it
/// unconditionally).
#[verifier::external_body]
pub fn sm2_verify_raw(pubkey: &str, data: &Vec<u8>, sig: &Vec<u8>) -> (r: bool)
    requires
        pubkey@.len() == 128,
        forall|i: int|
            0 <= i < pubkey@.len() ==> crate::hexcodec::is_hex_digit(#[trigger] pubkey@[i]),
    ensures
        r == sm2_verify_of(pubkey@, data@, sig@),
{
    let ctx = smcrypto::sm2::Verify::new(pubkey);
    ctx.verify(data.as_slice(), sig.as_slice())
}

/// The text lossy decoding yields for bytes that are not valid UTF-8, a
/// function of the bytes alone.
pub uninterp spec fn lossy_fallback_of(data: Seq<u8>) -> Seq<char>;

/// The text that lossy UTF-8 decoding yields: valid UTF-8 is exactly its
/// decoding; anything else goes through the replacement-character fallback.
pub open spec fn lossy_text_of(data: Seq<u8>) -> Seq<char> {
    if valid_utf8(data) {
        decode_utf8(data)
    } else {
        lossy_fallback_of(data)
    }
}

/// Relies on `String::from_utf8_lossy`: valid UTF-8 decodes to exactly its
/// text; invalid sequences are replaced, never raised as an error.
#[verifier::external_body]
pub fn utf8_lossy(data: &Vec<u8>) -> (r: String)
    ensures
        r@ == lossy_text_of(data@),
        !valid_utf8(data@) ==> r@ == lossy_fallback_of(data@),
{
    String::from_utf8_lossy(data.as_slice()).into_owned()
}

} // verus!
