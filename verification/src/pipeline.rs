use vstd::prelude::*;
use vstd::string::StrSliceExecFns;
use crate::asym;
use crate::asym::{decrypt_classified_spec, decrypt_spec};
use crate::chars::{chars_to_string, str_to_chars, subvec};
use crate::envelope::{parse, parse_spec, starts_with_marker};
use crate::errors::CodecError;
use crate::hexcodec::{hex_encode, hex_encode_seq, valid_hex_seq};
use crate::numparse::{all_dec_digits, dec_val, parse_usize};
use crate::outside::{md5_digest, md5_digest_of, os_random_bytes, sm3_digest, sm3_digest_of};
use crate::symmetric::{aes_decrypt, aes_decrypt_spec, aes_encrypt, aes_encrypt_spec, sm4_encrypt, sm4_encrypt_spec};

verus! {

// ---------------------------------------------------------------------------
// Small building blocks.
// ---------------------------------------------------------------------------
/// A character with every double quote preceded by a backslash.
pub open spec fn esc_char(c: char) -> Seq<char> {
    if c == '"' {
        seq!['\\', '"']
    } else {
        seq![c]
    }
}

/// A text with every double quote escaped, so it can stand inside a JSON
/// string literal.
pub open spec fn escape_quotes(s: Seq<char>) -> Seq<char>
    decreases s.len(),
{
    if s.len() == 0 {
        Seq::empty()
    } else {
        esc_char(s[0]) + escape_quotes(s.skip(1))
    }
}

proof fn lemma_escape_append(s1: Seq<char>, s2: Seq<char>)
    ensures
        escape_quotes(s1 + s2) == escape_quotes(s1) + escape_quotes(s2),
    decreases s1.len(),
{
    if s1.len() == 0 {
        assert(s1 + s2 =~= s2);
        assert(escape_quotes(s1) + escape_quotes(s2) =~= escape_quotes(s2));
    } else {
        assert((s1 + s2).skip(1) =~= s1.skip(1) + s2);
        lemma_escape_append(s1.skip(1), s2);
        assert((s1 + s2)[0] == s1[0]);
        assert(escape_quotes(s1 + s2) =~= escape_quotes(s1) + escape_quotes(s2));
    }
}

/// Escape the double quotes of a text.
fn escape_quotes_exec(s: &Vec<char>) -> (r: Vec<char>)
    ensures
        r@ == escape_quotes(s@),
{
    let mut out: Vec<char> = Vec::new();
    let mut i: usize = 0;
    while i < s.len()
        invariant
            i <= s@.len(),
            out@ == escape_quotes(s@.take(i as int)),
        decreases s@.len() - i,
    {
        let c = s[i];
        if c == '"' {
            out.push('\\');
            out.push('"');
        } else {
            out.push(c);
        }
        proof {
            let pre = s@.take(i as int);
            let one = seq![s@[i as int]];
            assert(s@.take(i + 1 as int) =~= pre + one);
            lemma_escape_append(pre, one);
            assert(one.skip(1) =~= Seq::<char>::empty());
            assert(escape_quotes(one.skip(1)) =~= Seq::<char>::empty());
            assert(escape_quotes(one) =~= esc_char(s@[i as int]));
        }
        i += 1;
    }
    assert(s@.take(s@.len() as int) =~= s@);
    out
}

/// The framing of a decrypted payload handed back to the host.
pub open spec fn json_wrap_spec(inner: Seq<char>) -> Seq<char> {
    "{\"data\":\""@ + inner + "\",\"success\":true}"@
}

/// The framing of an encrypted request body handed back to the host.
pub open spec fn data_wrap_spec(inner: Seq<char>) -> Seq<char> {
    "{\"data\":\""@ + inner + "\"}"@
}

// ---------------------------------------------------------------------------
// Orchestration of parsing, key recovery and asymmetric decryption.
// ---------------------------------------------------------------------------
/// What a response decryption attempt settles on.
pub struct DecryptOutcome {
    pub data: String,
    pub success: bool,
    pub error: Option<CodecError>,
}

/// The classified outcome of the whole response pipeline. With a length
/// header present it must be a decimal integer, the envelope is parsed in
/// inline-key mode and the inline key drives the asymmetric step. Without
/// one the fixed-offset variant applies and the session key is first
/// recovered by symmetrically decrypting the key token with the timestamp.
pub open spec fn pipeline_spec(
    body: Seq<char>,
    hdr: Option<Seq<char>>,
    token: Option<Seq<char>>,
    ts: Option<Seq<char>>,
) -> Result<Seq<char>, CodecError> {
    match hdr {
        Some(h) => {
            if !(all_dec_digits(h) && dec_val(h) <= usize::MAX) {
                Err(CodecError::KeyLengthParseError)
            } else {
                match parse_spec(body, Some(h), false) {
                    Err(e) => Err(e),
                    Ok(pair) => decrypt_classified_spec(pair.1, pair.0->0),
                }
            }
        },
        None => match parse_spec(body, None, false) {
            Err(e) => Err(e),
            Ok(pair) => match (token, ts) {
                (Some(t), Some(s)) => {
                    let key = aes_decrypt_spec(t, s);
                    if key.len() == 0 {
                        Err(CodecError::SymmetricDecryptFailure)
                    } else {
                        decrypt_classified_spec(pair.1, key)
                    }
                },
                _ => Err(CodecError::SymmetricDecryptFailure),
            },
        },
    }
}

/// Parse a response body and decrypt its payload, reporting either the
/// plaintext or the first failure met, never a fault.
pub fn parse_and_decrypt_response(
    body: &str,
    inline_key_len_header: Option<&str>,
    encrypted_key_token: Option<&str>,
    timestamp: Option<&str>,
) -> (r: DecryptOutcome)
    ensures
        match pipeline_spec(
            body@,
            crate::envelope::opt_str_view(inline_key_len_header),
            crate::envelope::opt_str_view(encrypted_key_token),
            crate::envelope::opt_str_view(timestamp),
        ) {
            Ok(s) => r.data@ == s && r.success && r.error is None,
            Err(e) => r.data@.len() == 0 && !r.success && r.error == Some(e),
        },
{
    let classified: Result<String, CodecError> = match inline_key_len_header {
        Some(h) => {
            let hc = str_to_chars(h);
            match parse_usize(&hc) {
                None => Err(CodecError::KeyLengthParseError),
                Some(_) => {
                    match parse(body, Some(h), false) {
                        Err(e) => Err(e),
                        Ok(p) => {
                            match p.key {
                                Some(k) => asym::decrypt_classified(
                                    p.ciphertext.as_str(),
                                    k.as_str(),
                                ),
                                None => vstd::pervasive::unreached(),
                            }
                        },
                    }
                },
            }
        },
        None => {
            match parse(body, None, false) {
                Err(e) => Err(e),
                Ok(p) => {
                    match (encrypted_key_token, timestamp) {
                        (Some(t), Some(s)) => {
                            let key = aes_decrypt(t, s);
                            if key.as_str().unicode_len() == 0 {
                                Err(CodecError::SymmetricDecryptFailure)
                            } else {
                                asym::decrypt_classified(p.ciphertext.as_str(), key.as_str())
                            }
                        },
                        _ => Err(CodecError::SymmetricDecryptFailure),
                    }
                },
            }
        },
    };
    match classified {
        Ok(s) => DecryptOutcome { data: s, success: true, error: None },
        Err(e) => DecryptOutcome { data: String::new(), success: false, error: Some(e) },
    }
}

/// What decrypting a fixed-offset response settles on: the plaintext, or
/// the empty string in place of every failure.
pub open spec fn fixed_offset_spec(body: Seq<char>, token: Seq<char>, ts: Seq<char>) -> Seq<char> {
    match parse_spec(body, None, false) {
        Err(_) => Seq::empty(),
        Ok(pair) => {
            let key = aes_decrypt_spec(token, ts);
            if key.len() == 0 {
                Seq::empty()
            } else {
                decrypt_spec(pair.1, key)
            }
        },
    }
}

/// Decrypt a fixed-offset response body: recover the session key from the
/// token and the timestamp, then decrypt the framed ciphertext.
pub fn decrypt_fixed_offset_response(body: &str, encrypted_key_token: &str, timestamp: &str) -> (r:
    String)
    ensures
        r@ == fixed_offset_spec(body@, encrypted_key_token@, timestamp@),
{
    match parse(body, None, false) {
        Err(_) => String::new(),
        Ok(p) => {
            let key = aes_decrypt(encrypted_key_token, timestamp);
            if key.as_str().unicode_len() == 0 {
                String::new()
            } else {
                asym::decrypt(p.ciphertext.as_str(), key.as_str())
            }
        },
    }
}

// ---------------------------------------------------------------------------
// The response/request interceptor family.
// ---------------------------------------------------------------------------
/// What the plain-string response interceptor yields for an inline-key
/// envelope: the deliberately strict variant that demands a parsable length
/// field, decrypts the full ciphertext region with the inline key, escapes
/// the plaintext and frames it for the host. Every failure, of parsing or
/// of decryption, surfaces as the empty string, never as a framed success.
pub open spec fn uu1_decrypt_response_spec(data: Seq<char>, ts: Seq<char>) -> Seq<char> {
    if !(all_dec_digits(ts) && dec_val(ts) <= usize::MAX) {
        Seq::empty()
    } else {
        match parse_spec(data, Some(ts), false) {
            Err(_) => Seq::empty(),
            Ok(pair) => match decrypt_classified_spec(pair.1, pair.0->0) {
                Ok(plain) => json_wrap_spec(escape_quotes(plain)),
                Err(_) => Seq::empty(),
            },
        }
    }
}

/// Decrypt an inline-key response and frame the plaintext as a JSON object
/// for the host. The timestamp header field carries the inline key length;
/// anything that fails to parse or to decrypt yields the empty string. The
/// two-character stripping quirk is not applied here; a call path that
/// needs it parses through `envelope::parse` in stripping mode itself.
pub fn uu1_decrypt_response(data: &str, _origin_key: &str, ts: &str) -> (r: String)
    ensures
        r@ == uu1_decrypt_response_spec(data@, ts@),
{
    let tc = str_to_chars(ts);
    if parse_usize(&tc).is_none() {
        return String::new();
    }
    match parse(data, Some(ts), false) {
        Err(_) => String::new(),
        Ok(p) => {
            let key = match p.key {
                Some(k) => k,
                None => vstd::pervasive::unreached(),
            };
            match asym::decrypt_classified(p.ciphertext.as_str(), key.as_str()) {
                Err(_) => String::new(),
                Ok(plain) => {
                    let escaped = escape_quotes_exec(&str_to_chars(plain.as_str()));
                    let mut out = str_to_chars("{\"data\":\"");
                    let mut mid = escaped;
                    out.append(&mut mid);
                    let mut tail = str_to_chars("\",\"success\":true}");
                    out.append(&mut tail);
                    chars_to_string(&out)
                },
            }
        },
    }
}

/// What the bare variant yields: as above, but the plaintext stands alone,
/// without framing or escaping.
pub open spec fn uu4_decrypt_response_spec(data: Seq<char>, ts: Seq<char>) -> Seq<char> {
    if !(all_dec_digits(ts) && dec_val(ts) <= usize::MAX) {
        Seq::empty()
    } else {
        match parse_spec(data, Some(ts), false) {
            Err(_) => Seq::empty(),
            Ok(pair) => decrypt_spec(pair.1, pair.0->0),
        }
    }
}

/// Decrypt an inline-key response and return the bare plaintext; the full
/// ciphertext region is used, without the stripping quirk.
pub fn uu4_decrypt_response(data: &str, _uuid: &str, ts: &str) -> (r: String)
    ensures
        r@ == uu4_decrypt_response_spec(data@, ts@),
{
    let tc = str_to_chars(ts);
    if parse_usize(&tc).is_none() {
        return String::new();
    }
    match parse(data, Some(ts), false) {
        Err(_) => String::new(),
        Ok(p) => {
            let key = match p.key {
                Some(k) => k,
                None => vstd::pervasive::unreached(),
            };
            asym::decrypt(p.ciphertext.as_str(), key.as_str())
        },
    }
}

/// What the stateful response interceptor yields. The body may arrive as a
/// JSON-encoded string; surrounding quotes are stripped before the envelope
/// is inspected. A response that is not an encrypted envelope, or arrives
/// without key material, passes through unchanged, as does one whose
/// session key cannot be recovered from the origin key and timestamp;
/// otherwise the fixed-offset payload (eight leading, four trailing
/// characters) is decrypted under the recovered key.
pub open spec fn uu1_spec(
    status: int,
    data: Seq<char>,
    origin_key: Seq<char>,
    ts: Seq<char>,
) -> Seq<char> {
    if status != 200 {
        data
    } else if data.len() == 0 || !(data[0] == '"' || data[0] == '{' || data[0] == '[') {
        data
    } else {
        let actual = if data.len() >= 2 && data[0] == '"' && data[data.len() - 1] == '"' {
            data.subrange(1, data.len() - 1)
        } else {
            data
        };
        if !starts_with_marker(actual) {
            data
        } else if origin_key.len() == 0 {
            data
        } else if actual.len() <= 12 {
            data
        } else {
            let key = aes_decrypt_spec(origin_key, ts);
            if key.len() == 0 {
                data
            } else {
                decrypt_spec(actual.subrange(8, actual.len() - 4), key)
            }
        }
    }
}

/// The response interceptor: pass non-envelope responses through, recover
/// the session key, and decrypt the fixed-offset payload.
pub fn uu1(response_status: i32, response_data: &str, origin_key: &str, timestamp: &str) -> (r:
    String)
    ensures
        r@ == uu1_spec(response_status as int, response_data@, origin_key@, timestamp@),
{
    if response_status != 200 {
        return response_data.to_owned();
    }
    let dc = str_to_chars(response_data);
    if dc.len() == 0 {
        return response_data.to_owned();
    }
    let first = dc[0];
    if !(first == '"' || first == '{' || first == '[') {
        return response_data.to_owned();
    }
    let actual: Vec<char> = if dc.len() >= 2 && first == '"' && dc[dc.len() - 1] == '"' {
        subvec(&dc, 1, dc.len() - 1)
    } else {
        subvec(&dc, 0, dc.len())
    };
    proof {
        assert(dc@.subrange(0, dc@.len() as int) =~= dc@);
    }
    if actual.len() < 2 || !(actual[0] == '0' && actual[1] == '2') {
        return response_data.to_owned();
    }
    if origin_key.unicode_len() == 0 {
        return response_data.to_owned();
    }
    if actual.len() <= 12 {
        return response_data.to_owned();
    }
    let key = aes_decrypt(origin_key, timestamp);
    if key.as_str().unicode_len() == 0 {
        // The session key could not be recovered: cannot proceed, so the
        // response passes through unchanged.
        return response_data.to_owned();
    }
    let cipher = subvec(&actual, 8, actual.len() - 4);
    let cipher_s = chars_to_string(&cipher);
    asym::decrypt(cipher_s.as_str(), key.as_str())
}

/// What the special response interceptor yields: like the stateful one, but
/// on an un-enveloped response, or one whose key material is missing or
/// cannot be recovered, an empty JSON object stands in for the data.
pub open spec fn uu4_spec(data: Seq<char>, uuid: Seq<char>, ts: Seq<char>) -> Seq<char> {
    if !starts_with_marker(data) {
        "{}"@
    } else if uuid.len() == 0 {
        "{}"@
    } else if data.len() <= 12 {
        "{}"@
    } else {
        let key = aes_decrypt_spec(uuid, ts);
        if key.len() == 0 {
            "{}"@
        } else {
            decrypt_spec(data.subrange(8, data.len() - 4), key)
        }
    }
}

/// The special response interceptor: an empty JSON object for anything that
/// cannot be decrypted.
pub fn uu4(response_data: &str, uuid: &str, timestamp: &str) -> (r: String)
    ensures
        r@ == uu4_spec(response_data@, uuid@, timestamp@),
{
    let dc = str_to_chars(response_data);
    if dc.len() < 2 || !(dc[0] == '0' && dc[1] == '2') {
        return "{}".to_owned();
    }
    if uuid.unicode_len() == 0 {
        return "{}".to_owned();
    }
    if dc.len() <= 12 {
        return "{}".to_owned();
    }
    let key = aes_decrypt(uuid, timestamp);
    if key.as_str().unicode_len() == 0 {
        // The session key could not be recovered: cannot proceed.
        return "{}".to_owned();
    }
    let cipher = subvec(&dc, 8, dc.len() - 4);
    let cipher_s = chars_to_string(&cipher);
    asym::decrypt(cipher_s.as_str(), key.as_str())
}

/// What the request interceptor yields: settings endpoints, empty bodies
/// and disabled or key-less configurations pass through; everything else is
/// symmetrically encrypted and framed for the host.
pub open spec fn uu2_spec(
    data: Seq<char>,
    url: Seq<char>,
    config_open: bool,
    key: Seq<char>,
) -> Seq<char> {
    if url.len() >= 11 && url.subrange(0, 11) == "/v2/setting"@ {
        data
    } else if data.len() == 0 {
        data
    } else if !config_open || key.len() == 0 {
        data
    } else {
        data_wrap_spec(sm4_encrypt_spec(data, key))
    }
}

/// The request interceptor: encrypt a request body under the configured
/// key, unless the endpoint or the configuration says otherwise.
pub fn uu2(request_data: &str, request_url: &str, config_open: bool, codec_request_key: &str) -> (r:
    String)
    requires
        vstd::utf8::encode_utf8(request_data@).len() + 16 <= usize::MAX,
    ensures
        r@ == uu2_spec(request_data@, request_url@, config_open, codec_request_key@),
{
    let uc = str_to_chars(request_url);
    if uc.len() >= 11 {
        let prefix = subvec(&uc, 0, 11);
        let marker = str_to_chars("/v2/setting");
        if crate::chars::chars_eq(&prefix, &marker) {
            return request_data.to_owned();
        }
    }
    if request_data.unicode_len() == 0 {
        return request_data.to_owned();
    }
    if !config_open || codec_request_key.unicode_len() == 0 {
        return request_data.to_owned();
    }
    let enc = sm4_encrypt(request_data, codec_request_key);
    let mut out = str_to_chars("{\"data\":\"");
    let mut mid = str_to_chars(enc.as_str());
    out.append(&mut mid);
    let mut tail = str_to_chars("\"}");
    out.append(&mut tail);
    chars_to_string(&out)
}

/// The fallback key the simple decryptor uses.
pub open spec fn default_simple_key() -> Seq<char> {
    "1234567890Oil#@1"@
}

/// Decrypt a value under the fixed fallback key.
pub fn uu3(value: &str) -> (r: String)
    ensures
        r@ == aes_decrypt_spec(value@, default_simple_key()),
{
    aes_decrypt(value, "1234567890Oil#@1")
}

/// Decrypt a value under the fixed fallback key.
pub fn uu3_decrypt_simple(value: &str) -> (r: String)
    ensures
        r@ == aes_decrypt_spec(value@, default_simple_key()),
{
    aes_decrypt(value, "1234567890Oil#@1")
}

/// Encrypt a request body under a key.
pub fn uu2_encrypt_request(data: &str, key: &str) -> (r: String)
    requires
        vstd::utf8::encode_utf8(data@).len() + 16 <= usize::MAX,
    ensures
        r@ == aes_encrypt_spec(data@, key@),
{
    aes_encrypt(data, key)
}

// ---------------------------------------------------------------------------
// Hashes, nonces, arithmetic.
// ---------------------------------------------------------------------------
/// The SM3 digest of a text, hex-encoded.
pub fn sm3_hash(data: &str) -> (r: String)
    ensures
        r@ == hex_encode_seq(sm3_digest_of(vstd::utf8::encode_utf8(data@))),
        r@.len() == 64,
        valid_hex_seq(r@),
{
    let bytes = data.as_bytes_vec();
    let digest = sm3_digest(&bytes);
    chars_to_string(&hex_encode(&digest))
}

/// The MD5 digest of a text, hex-encoded.
pub fn md5_hash(data: &str) -> (r: String)
    ensures
        r@ == hex_encode_seq(md5_digest_of(vstd::utf8::encode_utf8(data@))),
        r@.len() == 32,
        valid_hex_seq(r@),
{
    let bytes = data.as_bytes_vec();
    let digest = md5_digest(&bytes);
    chars_to_string(&hex_encode(&digest))
}

/// A fresh random nonce: sixteen secure random bytes, hex-encoded. When the
/// entropy source fails the empty string is returned rather than a fault.
pub fn generate_nonce() -> (r: String)
    ensures
        r@.len() == 0 || (r@.len() == 32 && valid_hex_seq(r@)),
{
    match os_random_bytes(16) {
        Some(b) => chars_to_string(&hex_encode(&b)),
        None => String::new(),
    }
}

/// Decrypt an asymmetric ciphertext; the hex-encoded C1C2C3 layout under a
/// hex private key.
pub fn sm2_decrypt(encrypted_data: &str, private_key: &str) -> (r: String)
    ensures
        r@ == decrypt_spec(encrypted_data@, private_key@),
{
    asym::decrypt(encrypted_data, private_key)
}

/// Decrypt an asymmetric ciphertext; the cipher mode argument is carried
/// for interface compatibility and deliberately ignored.
pub fn sm2_decrypt_with_mode(encrypted_data: &str, private_key: &str, _cipher_mode: i32) -> (r:
    String)
    ensures
        r@ == decrypt_spec(encrypted_data@, private_key@),
{
    asym::decrypt(encrypted_data, private_key)
}

/// Whether a hex key, digit value for digit value, spells the one private
/// key the signing primitive cannot take (one less than the group order).
fn is_excluded_sign_key(kc: &Vec<char>) -> (r: bool)
    requires
        forall|i: int|
            0 <= i < kc@.len() ==> crate::hexcodec::is_hex_digit(#[trigger] kc@[i]),
    ensures
        r == crate::outside::spells_sm2_order_minus_one(kc@),
{
    if kc.len() != 64 {
        return false;
    }
    let nm1 = str_to_chars("fffffffeffffffffffffffffffffffff7203df6b21c6052b53bbf40939d54122");
    proof {
        reveal_strlit("fffffffeffffffffffffffffffffffff7203df6b21c6052b53bbf40939d54122");
        assert(nm1@ == crate::outside::sm2_order_minus_one_hex());
        assert forall|i: int| 0 <= i < nm1@.len() implies crate::hexcodec::is_hex_digit(
            #[trigger] nm1@[i],
        ) by {
            assert(crate::hexcodec::is_hex_digit(nm1@[i]));
        }
    }
    let mut i: usize = 0;
    while i < 64
        invariant
            kc@.len() == 64,
            nm1@.len() == 64,
            nm1@ == crate::outside::sm2_order_minus_one_hex(),
            forall|k: int| 0 <= k < kc@.len() ==> crate::hexcodec::is_hex_digit(#[trigger] kc@[k]),
            forall|k: int|
                0 <= k < nm1@.len() ==> crate::hexcodec::is_hex_digit(#[trigger] nm1@[k]),
            i <= 64,
            forall|k: int|
                0 <= k < i ==> crate::hexcodec::hex_digit_val(#[trigger] kc@[k])
                    == crate::hexcodec::hex_digit_val(nm1@[k]),
        decreases 64 - i,
    {
        if crate::hexcodec::hex_digit_value(kc[i]) != crate::hexcodec::hex_digit_value(nm1[i]) {
            return false;
        }
        i += 1;
    }
    true
}

/// Sign a text under a hex private key, hex-encoding the DER signature in
/// lower case. An empty text yields the empty string, as does a key the
/// primitive cannot take: one that is not hex of at most 64 digits, or the
/// single value one less than the group order, on which it would fault.
/// The signature itself draws a fresh nonce, so only its shape is stated.
pub fn generate_sign(data: &str, private_key: &str) -> (r: String)
    ensures
        valid_hex_seq(r@),
        crate::hexcodec::is_lower_hex_seq(r@),
        (data@.len() == 0 || !asym::usable_key(private_key@) || private_key@.len() > 64
            || crate::outside::spells_sm2_order_minus_one(private_key@)) ==> r@.len() == 0,
{
    if data.unicode_len() == 0 {
        return String::new();
    }
    let kc = str_to_chars(private_key);
    if kc.len() == 0 || kc.len() > 64 || !crate::asym::all_hex(&kc) {
        return String::new();
    }
    if is_excluded_sign_key(&kc) {
        return String::new();
    }
    let bytes = data.as_bytes_vec();
    let sig = crate::outside::sm2_sign_raw(private_key, &bytes);
    chars_to_string(&hex_encode(&sig))
}

/// Whether a hex-encoded signature verifies a text under a public key: the
/// inputs must be non-empty, the signature well-formed hex, and the key 128
/// characters of hex, with or without an `04` point-format prefix; then
/// the primitive decides.
pub open spec fn verify_sign_spec(data: Seq<char>, sig_hex: Seq<char>, pubkey: Seq<char>) -> bool {
    if data.len() == 0 || sig_hex.len() == 0 || pubkey.len() == 0 {
        false
    } else if !valid_hex_seq(sig_hex) {
        false
    } else {
        let stripped = if pubkey.len() == 130 && pubkey[0] == '0' && pubkey[1] == '4' {
            pubkey.skip(2)
        } else {
            pubkey
        };
        if !(stripped.len() == 128 && asym::usable_key(stripped)) {
            false
        } else {
            crate::outside::sm2_verify_of(
                stripped,
                vstd::utf8::encode_utf8(data),
                crate::hexcodec::hex_decode_seq(sig_hex),
            )
        }
    }
}

/// Verify a hex-encoded signature over a text under a public key. Malformed
/// input of any kind verifies false, never a fault.
pub fn verify_sign(data: &str, sign: &str, public_key: &str) -> (r: bool)
    ensures
        r == verify_sign_spec(data@, sign@, public_key@),
{
    if data.unicode_len() == 0 || sign.unicode_len() == 0 || public_key.unicode_len() == 0 {
        return false;
    }
    let sc = str_to_chars(sign);
    let sig = match crate::hexcodec::hex_decode(&sc) {
        Some(b) => b,
        None => {
            return false;
        },
    };
    let kc = str_to_chars(public_key);
    let stripped: Vec<char> = if kc.len() == 130 && kc[0] == '0' && kc[1] == '4' {
        let s = subvec(&kc, 2, kc.len());
        proof {
            assert(kc@.subrange(2, kc@.len() as int) =~= kc@.skip(2));
        }
        s
    } else {
        let s = subvec(&kc, 0, kc.len());
        proof {
            assert(kc@.subrange(0, kc@.len() as int) =~= kc@);
        }
        s
    };
    if stripped.len() != 128 || !crate::asym::all_hex(&stripped) {
        return false;
    }
    let key_s = chars_to_string(&stripped);
    let bytes = data.as_bytes_vec();
    crate::outside::sm2_verify_raw(key_s.as_str(), &bytes, &sig)
}

/// The sum of two integers.
pub fn add(a: i32, b: i32) -> (r: i32)
    requires
        i32::MIN <= a + b <= i32::MAX,
    ensures
        r == a + b,
{
    a + b
}

} // verus!
