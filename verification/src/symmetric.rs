use vstd::prelude::*;
use vstd::string::StrSliceExecFns;
use crate::chars::{chars_to_string, str_to_chars, subvec};
use crate::hexcodec::{hex_decode, hex_decode_seq, hex_encode, hex_encode_seq, valid_hex_seq};
use crate::outside::{
    aes128_decrypt_block, aes128_encrypt_block, aes_block_dec_of, aes_block_enc_of, b64_decode,
    b64_decode_of, b64_encode, b64_of, lossy_text_of, sm4_block_dec_of, sm4_block_enc_of,
    sm4_decrypt_block, sm4_encrypt_block, utf8_lossy,
};

verus! {

// ---------------------------------------------------------------------------
// Key normalization: a key string contributes its first sixteen bytes, and
// shorter keys are zero-padded.
// ---------------------------------------------------------------------------
/// The sixteen-byte key a key string denotes.
pub open spec fn key16_of(key_bytes: Seq<u8>) -> Seq<u8> {
    Seq::new(
        16,
        |i: int|
            if i < key_bytes.len() {
                key_bytes[i]
            } else {
                0u8
            },
    )
}

/// Normalize key bytes to exactly sixteen.
pub fn to_16_key(key_bytes: &Vec<u8>) -> (r: Vec<u8>)
    ensures
        r@ == key16_of(key_bytes@),
        r@.len() == 16,
{
    let mut r: Vec<u8> = Vec::new();
    let mut i: usize = 0;
    while i < 16
        invariant
            i <= 16,
            r@.len() == i,
            forall|k: int| 0 <= k < i ==> r@[k] == key16_of(key_bytes@)[k],
        decreases 16 - i,
    {
        if i < key_bytes.len() {
            r.push(key_bytes[i]);
        } else {
            r.push(0u8);
        }
        i += 1;
    }
    assert(r@ =~= key16_of(key_bytes@));
    r
}

// ---------------------------------------------------------------------------
// Padding.
// ---------------------------------------------------------------------------
/// PKCS#7 padding to a sixteen-byte block: between one and sixteen bytes are
/// appended, each holding the number appended.
pub open spec fn pkcs7_pad(data: Seq<u8>) -> Seq<u8> {
    let p = 16 - (data.len() % 16);
    data + Seq::new(p as nat, |i: int| p as u8)
}

/// Strict PKCS#7 unpadding: defined only for non-empty whole-block input
/// whose last byte names between one and sixteen trailing bytes that all
/// carry that same value.
pub open spec fn pkcs7_unpad(data: Seq<u8>) -> Option<Seq<u8>> {
    if data.len() == 0 || data.len() % 16 != 0 {
        None
    } else {
        let p = data[data.len() - 1] as int;
        if 1 <= p <= 16 && p <= data.len() && (forall|i: int|
            data.len() - p <= i < data.len() ==> #[trigger] data[i] == data[data.len() - 1]) {
            Some(data.take(data.len() - p))
        } else {
            None
        }
    }
}

/// Unpadding inverts padding.
pub proof fn lemma_pkcs7_roundtrip(data: Seq<u8>)
    ensures
        pkcs7_pad(data).len() == data.len() + 16 - (data.len() % 16),
        pkcs7_pad(data).len() % 16 == 0,
        pkcs7_unpad(pkcs7_pad(data)) == Some(data),
{
    let p = 16 - (data.len() % 16);
    let w = pkcs7_pad(data);
    assert(w.len() == data.len() + p);
    assert(w[w.len() - 1] == p as u8);
    assert(forall|i: int| w.len() - p <= i < w.len() ==> #[trigger] w[i] == w[w.len() - 1]);
    assert(w.take(w.len() - p) =~= data);
}

/// The laxer trailing pad the SM4 path uses: nothing is appended to
/// whole-block input, otherwise the fill count is appended as with PKCS#7.
pub open spec fn tail_pad(data: Seq<u8>) -> Seq<u8> {
    let p = (16 - (data.len() % 16)) % 16;
    data + Seq::new(p as nat, |i: int| p as u8)
}

/// The laxer trailing unpad the SM4 path uses: when the last byte names
/// between one and sixteen bytes and that many exist they are dropped,
/// without checking their values; anything else passes through unchanged.
pub open spec fn tail_unpad(data: Seq<u8>) -> Seq<u8> {
    if data.len() == 0 {
        data
    } else {
        let p = data[data.len() - 1] as int;
        if 1 <= p <= 16 && p <= data.len() {
            data.take(data.len() - p)
        } else {
            data
        }
    }
}

/// For input that does not already fill whole blocks, the lax unpad
/// inverts the lax pad. (On whole-block input the pad appends nothing and
/// the unpad may still drop a trailing run, which is why the SM4 round
/// trip holds only off whole-block lengths.)
pub proof fn lemma_tail_roundtrip(data: Seq<u8>)
    requires
        data.len() % 16 != 0,
    ensures
        tail_pad(data).len() % 16 == 0,
        tail_unpad(tail_pad(data)) == data,
{
    let p = (16 - (data.len() % 16)) % 16;
    let w = tail_pad(data);
    assert(1 <= p <= 15);
    assert(w.len() == data.len() + p);
    assert(w[w.len() - 1] == p as u8);
    assert(w.take(w.len() - p) =~= data);
}

/// Append PKCS#7 padding.
pub fn pkcs7_pad_exec(data: &Vec<u8>) -> (r: Vec<u8>)
    requires
        data@.len() + 16 <= usize::MAX,
    ensures
        r@ == pkcs7_pad(data@),
        r@.len() % 16 == 0,
        r@.len() > 0,
{
    let n = data.len();
    let p: usize = 16 - (n % 16);
    let mut r = subvec(data, 0, n);
    assert(r@ =~= data@);
    let mut i: usize = 0;
    while i < p
        invariant
            i <= p,
            p == 16 - (data@.len() % 16),
            r@.len() == data@.len() + i,
            r@ == data@ + Seq::new(i as nat, |k: int| p as u8),
        decreases p - i,
    {
        r.push(p as u8);
        assert(data@ + Seq::new((i + 1) as nat, |k: int| p as u8) =~= (data@ + Seq::new(
            i as nat,
            |k: int| p as u8,
        )).push(p as u8));
        i += 1;
    }
    proof {
        lemma_pkcs7_roundtrip(data@);
    }
    r
}

/// Remove strict PKCS#7 padding, if it is well-formed.
pub fn pkcs7_unpad_exec(data: &Vec<u8>) -> (r: Option<Vec<u8>>)
    ensures
        r is Some <==> pkcs7_unpad(data@) is Some,
        r matches Some(v) ==> Some(v@) == pkcs7_unpad(data@),
{
    let n = data.len();
    if n == 0 || n % 16 != 0 {
        return None;
    }
    let p = data[n - 1] as usize;
    if p < 1 || p > 16 || p > n {
        return None;
    }
    let mut i: usize = n - p;
    while i < n
        invariant
            n == data@.len(),
            n - p <= i <= n,
            p == data@[n - 1] as int,
            1 <= p <= 16,
            p <= n,
            forall|k: int| n - p <= k < i ==> #[trigger] data@[k] == data@[n - 1],
        decreases n - i,
    {
        if data[i] != data[n - 1] {
            return None;
        }
        i += 1;
    }
    Some(subvec(data, 0, n - p))
}

/// Apply the lax trailing pad.
pub fn tail_pad_exec(data: &Vec<u8>) -> (r: Vec<u8>)
    requires
        data@.len() + 16 <= usize::MAX,
    ensures
        r@ == tail_pad(data@),
        r@.len() % 16 == 0,
{
    let n = data.len();
    let p: usize = (16 - (n % 16)) % 16;
    let mut r = subvec(data, 0, n);
    assert(r@ =~= data@);
    let mut i: usize = 0;
    while i < p
        invariant
            i <= p,
            p == (16 - (data@.len() % 16)) % 16,
            r@.len() == data@.len() + i,
            r@ == data@ + Seq::new(i as nat, |k: int| p as u8),
        decreases p - i,
    {
        r.push(p as u8);
        assert(data@ + Seq::new((i + 1) as nat, |k: int| p as u8) =~= (data@ + Seq::new(
            i as nat,
            |k: int| p as u8,
        )).push(p as u8));
        i += 1;
    }
    assert(r@ =~= tail_pad(data@));
    r
}

/// Apply the lax trailing unpad.
pub fn tail_unpad_exec(data: &Vec<u8>) -> (r: Vec<u8>)
    ensures
        r@ == tail_unpad(data@),
{
    let n = data.len();
    if n == 0 {
        return subvec(data, 0, n);
    }
    let p = data[n - 1] as usize;
    if 1 <= p && p <= 16 && p <= n {
        subvec(data, 0, n - p)
    } else {
        let r = subvec(data, 0, n);
        assert(r@ =~= data@);
        r
    }
}

// ---------------------------------------------------------------------------
// ECB chaining over the trusted block ciphers.
// ---------------------------------------------------------------------------
/// AES-128 over whole blocks, block by block.
pub open spec fn ecb_aes_enc(key: Seq<u8>, data: Seq<u8>) -> Seq<u8>
    decreases data.len(),
{
    if data.len() < 16 {
        Seq::empty()
    } else {
        aes_block_enc_of(key, data.take(16)) + ecb_aes_enc(key, data.skip(16))
    }
}

/// AES-128 decryption over whole blocks, block by block.
pub open spec fn ecb_aes_dec(key: Seq<u8>, data: Seq<u8>) -> Seq<u8>
    decreases data.len(),
{
    if data.len() < 16 {
        Seq::empty()
    } else {
        aes_block_dec_of(key, data.take(16)) + ecb_aes_dec(key, data.skip(16))
    }
}

/// SM4 over whole blocks, block by block.
pub open spec fn ecb_sm4_enc(key: Seq<u8>, data: Seq<u8>) -> Seq<u8>
    decreases data.len(),
{
    if data.len() < 16 {
        Seq::empty()
    } else {
        sm4_block_enc_of(key, data.take(16)) + ecb_sm4_enc(key, data.skip(16))
    }
}

/// SM4 decryption over whole blocks, block by block.
pub open spec fn ecb_sm4_dec(key: Seq<u8>, data: Seq<u8>) -> Seq<u8>
    decreases data.len(),
{
    if data.len() < 16 {
        Seq::empty()
    } else {
        sm4_block_dec_of(key, data.take(16)) + ecb_sm4_dec(key, data.skip(16))
    }
}

proof fn lemma_ecb_aes_enc_append(key: Seq<u8>, s1: Seq<u8>, s2: Seq<u8>)
    requires
        s1.len() % 16 == 0,
    ensures
        ecb_aes_enc(key, s1 + s2) == ecb_aes_enc(key, s1) + ecb_aes_enc(key, s2),
    decreases s1.len(),
{
    if s1.len() == 0 {
        assert(s1 + s2 =~= s2);
        assert(ecb_aes_enc(key, s1) + ecb_aes_enc(key, s2) =~= ecb_aes_enc(key, s2));
    } else {
        assert((s1 + s2).take(16) =~= s1.take(16));
        assert((s1 + s2).skip(16) =~= s1.skip(16) + s2);
        lemma_ecb_aes_enc_append(key, s1.skip(16), s2);
        assert(ecb_aes_enc(key, s1 + s2) =~= ecb_aes_enc(key, s1) + ecb_aes_enc(key, s2));
    }
}

proof fn lemma_ecb_aes_dec_append(key: Seq<u8>, s1: Seq<u8>, s2: Seq<u8>)
    requires
        s1.len() % 16 == 0,
    ensures
        ecb_aes_dec(key, s1 + s2) == ecb_aes_dec(key, s1) + ecb_aes_dec(key, s2),
    decreases s1.len(),
{
    if s1.len() == 0 {
        assert(s1 + s2 =~= s2);
        assert(ecb_aes_dec(key, s1) + ecb_aes_dec(key, s2) =~= ecb_aes_dec(key, s2));
    } else {
        assert((s1 + s2).take(16) =~= s1.take(16));
        assert((s1 + s2).skip(16) =~= s1.skip(16) + s2);
        lemma_ecb_aes_dec_append(key, s1.skip(16), s2);
        assert(ecb_aes_dec(key, s1 + s2) =~= ecb_aes_dec(key, s1) + ecb_aes_dec(key, s2));
    }
}

proof fn lemma_ecb_sm4_enc_append(key: Seq<u8>, s1: Seq<u8>, s2: Seq<u8>)
    requires
        s1.len() % 16 == 0,
    ensures
        ecb_sm4_enc(key, s1 + s2) == ecb_sm4_enc(key, s1) + ecb_sm4_enc(key, s2),
    decreases s1.len(),
{
    if s1.len() == 0 {
        assert(s1 + s2 =~= s2);
        assert(ecb_sm4_enc(key, s1) + ecb_sm4_enc(key, s2) =~= ecb_sm4_enc(key, s2));
    } else {
        assert((s1 + s2).take(16) =~= s1.take(16));
        assert((s1 + s2).skip(16) =~= s1.skip(16) + s2);
        lemma_ecb_sm4_enc_append(key, s1.skip(16), s2);
        assert(ecb_sm4_enc(key, s1 + s2) =~= ecb_sm4_enc(key, s1) + ecb_sm4_enc(key, s2));
    }
}

proof fn lemma_ecb_sm4_dec_append(key: Seq<u8>, s1: Seq<u8>, s2: Seq<u8>)
    requires
        s1.len() % 16 == 0,
    ensures
        ecb_sm4_dec(key, s1 + s2) == ecb_sm4_dec(key, s1) + ecb_sm4_dec(key, s2),
    decreases s1.len(),
{
    if s1.len() == 0 {
        assert(s1 + s2 =~= s2);
        assert(ecb_sm4_dec(key, s1) + ecb_sm4_dec(key, s2) =~= ecb_sm4_dec(key, s2));
    } else {
        assert((s1 + s2).take(16) =~= s1.take(16));
        assert((s1 + s2).skip(16) =~= s1.skip(16) + s2);
        lemma_ecb_sm4_dec_append(key, s1.skip(16), s2);
        assert(ecb_sm4_dec(key, s1 + s2) =~= ecb_sm4_dec(key, s1) + ecb_sm4_dec(key, s2));
    }
}

fn ecb_aes_enc_exec(key: &Vec<u8>, data: &Vec<u8>) -> (r: Vec<u8>)
    requires
        key@.len() == 16,
        data@.len() % 16 == 0,
    ensures
        r@ == ecb_aes_enc(key@, data@),
        r@.len() == data@.len(),
        ecb_aes_dec(key@, r@) == data@,
{
    let mut out: Vec<u8> = Vec::new();
    let mut i: usize = 0;
    while i < data.len()
        invariant
            key@.len() == 16,
            data@.len() % 16 == 0,
            i % 16 == 0,
            i <= data@.len(),
            out@.len() == i,
            out@ == ecb_aes_enc(key@, data@.take(i as int)),
            ecb_aes_dec(key@, out@) == data@.take(i as int),
        decreases data@.len() - i,
    {
        let block = subvec(data, i, i + 16);
        let eb = aes128_encrypt_block(key, &block);
        let ghost pre_out = out@;
        let mut ebm = eb;
        out.append(&mut ebm);
        proof {
            let pre = data@.take(i as int);
            let one = data@.subrange(i as int, i + 16 as int);
            assert(data@.take(i + 16 as int) =~= pre + one);
            lemma_ecb_aes_enc_append(key@, pre, one);
            assert(one.take(16) =~= one);
            assert(one.skip(16) =~= Seq::<u8>::empty());
            assert(ecb_aes_enc(key@, Seq::<u8>::empty()) =~= Seq::<u8>::empty());
            assert(ecb_aes_enc(key@, one) =~= aes_block_enc_of(key@, one));
            // Deciphering what was just appended gives the block back.
            lemma_ecb_aes_dec_append(key@, pre_out, eb@);
            assert(eb@.take(16) =~= eb@);
            assert(eb@.skip(16) =~= Seq::<u8>::empty());
            assert(ecb_aes_dec(key@, Seq::<u8>::empty()) =~= Seq::<u8>::empty());
            assert(ecb_aes_dec(key@, eb@) =~= aes_block_dec_of(key@, eb@));
            assert(ecb_aes_dec(key@, out@) =~= pre + one);
        }
        i += 16;
    }
    assert(data@.take(data@.len() as int) =~= data@);
    out
}

fn ecb_aes_dec_exec(key: &Vec<u8>, data: &Vec<u8>) -> (r: Vec<u8>)
    requires
        key@.len() == 16,
        data@.len() % 16 == 0,
    ensures
        r@ == ecb_aes_dec(key@, data@),
{
    let mut out: Vec<u8> = Vec::new();
    let mut i: usize = 0;
    while i < data.len()
        invariant
            key@.len() == 16,
            data@.len() % 16 == 0,
            i % 16 == 0,
            i <= data@.len(),
            out@ == ecb_aes_dec(key@, data@.take(i as int)),
        decreases data@.len() - i,
    {
        let block = subvec(data, i, i + 16);
        let eb = aes128_decrypt_block(key, &block);
        let mut ebm = eb;
        out.append(&mut ebm);
        proof {
            let pre = data@.take(i as int);
            let one = data@.subrange(i as int, i + 16 as int);
            assert(data@.take(i + 16 as int) =~= pre + one);
            lemma_ecb_aes_dec_append(key@, pre, one);
            assert(one.take(16) =~= one);
            assert(one.skip(16) =~= Seq::<u8>::empty());
            assert(ecb_aes_dec(key@, Seq::<u8>::empty()) =~= Seq::<u8>::empty());
            assert(ecb_aes_dec(key@, one) =~= aes_block_dec_of(key@, one));
        }
        i += 16;
    }
    assert(data@.take(data@.len() as int) =~= data@);
    out
}

fn ecb_sm4_enc_exec(key: &Vec<u8>, data: &Vec<u8>) -> (r: Vec<u8>)
    requires
        key@.len() == 16,
        data@.len() % 16 == 0,
    ensures
        r@ == ecb_sm4_enc(key@, data@),
        r@.len() == data@.len(),
        ecb_sm4_dec(key@, r@) == data@,
{
    let mut out: Vec<u8> = Vec::new();
    let mut i: usize = 0;
    while i < data.len()
        invariant
            key@.len() == 16,
            data@.len() % 16 == 0,
            i % 16 == 0,
            i <= data@.len(),
            out@.len() == i,
            out@ == ecb_sm4_enc(key@, data@.take(i as int)),
            ecb_sm4_dec(key@, out@) == data@.take(i as int),
        decreases data@.len() - i,
    {
        let block = subvec(data, i, i + 16);
        let eb = sm4_encrypt_block(key, &block);
        let ghost pre_out = out@;
        let mut ebm = eb;
        out.append(&mut ebm);
        proof {
            let pre = data@.take(i as int);
            let one = data@.subrange(i as int, i + 16 as int);
            assert(data@.take(i + 16 as int) =~= pre + one);
            lemma_ecb_sm4_enc_append(key@, pre, one);
            assert(one.take(16) =~= one);
            assert(one.skip(16) =~= Seq::<u8>::empty());
            assert(ecb_sm4_enc(key@, Seq::<u8>::empty()) =~= Seq::<u8>::empty());
            assert(ecb_sm4_enc(key@, one) =~= sm4_block_enc_of(key@, one));
            // Deciphering what was just appended gives the block back.
            lemma_ecb_sm4_dec_append(key@, pre_out, eb@);
            assert(eb@.take(16) =~= eb@);
            assert(eb@.skip(16) =~= Seq::<u8>::empty());
            assert(ecb_sm4_dec(key@, Seq::<u8>::empty()) =~= Seq::<u8>::empty());
            assert(ecb_sm4_dec(key@, eb@) =~= sm4_block_dec_of(key@, eb@));
            assert(ecb_sm4_dec(key@, out@) =~= pre + one);
        }
        i += 16;
    }
    assert(data@.take(data@.len() as int) =~= data@);
    out
}

fn ecb_sm4_dec_exec(key: &Vec<u8>, data: &Vec<u8>) -> (r: Vec<u8>)
    requires
        key@.len() == 16,
        data@.len() % 16 == 0,
    ensures
        r@ == ecb_sm4_dec(key@, data@),
{
    let mut out: Vec<u8> = Vec::new();
    let mut i: usize = 0;
    while i < data.len()
        invariant
            key@.len() == 16,
            data@.len() % 16 == 0,
            i % 16 == 0,
            i <= data@.len(),
            out@ == ecb_sm4_dec(key@, data@.take(i as int)),
        decreases data@.len() - i,
    {
        let block = subvec(data, i, i + 16);
        let eb = sm4_decrypt_block(key, &block);
        let mut ebm = eb;
        out.append(&mut ebm);
        proof {
            let pre = data@.take(i as int);
            let one = data@.subrange(i as int, i + 16 as int);
            assert(data@.take(i + 16 as int) =~= pre + one);
            lemma_ecb_sm4_dec_append(key@, pre, one);
            assert(one.take(16) =~= one);
            assert(one.skip(16) =~= Seq::<u8>::empty());
            assert(ecb_sm4_dec(key@, Seq::<u8>::empty()) =~= Seq::<u8>::empty());
            assert(ecb_sm4_dec(key@, one) =~= sm4_block_dec_of(key@, one));
        }
        i += 16;
    }
    assert(data@.take(data@.len() as int) =~= data@);
    out
}

// ---------------------------------------------------------------------------
// The string-level symmetric interfaces.
// ---------------------------------------------------------------------------
/// What AES encryption of a text under a key string yields: UTF-8 bytes,
/// PKCS#7 padded, enciphered block by block, base64-encoded.
pub open spec fn aes_encrypt_spec(data: Seq<char>, key: Seq<char>) -> Seq<char> {
    b64_of(
        ecb_aes_enc(
            key16_of(vstd::utf8::encode_utf8(key)),
            pkcs7_pad(vstd::utf8::encode_utf8(data)),
        ),
    )
}

/// What AES decryption of a base64 text under a key string yields: the
/// deciphered bytes read as lossy UTF-8, or the empty string wherever the
/// base64, the block length or the padding is malformed.
pub open spec fn aes_decrypt_spec(data: Seq<char>, key: Seq<char>) -> Seq<char> {
    if data.len() == 0 {
        Seq::empty()
    } else {
        match b64_decode_of(data) {
            Some(bytes) => {
                if bytes.len() % 16 == 0 && bytes.len() > 0 {
                    match pkcs7_unpad(ecb_aes_dec(key16_of(vstd::utf8::encode_utf8(key)), bytes)) {
                        Some(plain) => lossy_text_of(plain),
                        None => Seq::empty(),
                    }
                } else {
                    Seq::empty()
                }
            },
            None => Seq::empty(),
        }
    }
}

/// AES-encrypt a text under a key string. Decryption under the same key
/// recovers the text: the round trip is part of the contract.
pub fn aes_encrypt(data: &str, key: &str) -> (r: String)
    requires
        vstd::utf8::encode_utf8(data@).len() + 16 <= usize::MAX,
    ensures
        r@ == aes_encrypt_spec(data@, key@),
        r@.len() == 4 * ((pkcs7_pad(vstd::utf8::encode_utf8(data@)).len() + 2) / 3),
        aes_decrypt_spec(r@, key@) == data@,
{
    let data_bytes = data.as_bytes_vec();
    let key_bytes = key.as_bytes_vec();
    let k16 = to_16_key(&key_bytes);
    let padded = pkcs7_pad_exec(&data_bytes);
    let cipher = ecb_aes_enc_exec(&k16, &padded);
    let r = b64_encode(&cipher);
    proof {
        lemma_pkcs7_roundtrip(data_bytes@);
        vstd::utf8::encode_utf8_valid_utf8(data@);
        vstd::utf8::encode_utf8_decode_utf8(data@);
        assert(aes_decrypt_spec(r@, key@) == data@);
    }
    r
}

/// AES-decrypt a base64 text under a key string. Malformed input of any of
/// the three layers yields the empty string, never a fault.
pub fn aes_decrypt(data: &str, key: &str) -> (r: String)
    ensures
        r@ == aes_decrypt_spec(data@, key@),
{
    if data.unicode_len() == 0 {
        return String::new();
    }
    let decoded = match b64_decode(data) {
        Some(b) => b,
        None => {
            return String::new();
        },
    };
    if decoded.len() % 16 != 0 || decoded.len() == 0 {
        return String::new();
    }
    let key_bytes = key.as_bytes_vec();
    let k16 = to_16_key(&key_bytes);
    let plain_padded = ecb_aes_dec_exec(&k16, &decoded);
    match pkcs7_unpad_exec(&plain_padded) {
        Some(plain) => utf8_lossy(&plain),
        None => String::new(),
    }
}

/// What SM4 encryption of a text under a key string yields: UTF-8 bytes
/// under the lax trailing pad, enciphered block by block, hex-encoded.
pub open spec fn sm4_encrypt_spec(data: Seq<char>, key: Seq<char>) -> Seq<char> {
    hex_encode_seq(
        ecb_sm4_enc(
            key16_of(vstd::utf8::encode_utf8(key)),
            tail_pad(vstd::utf8::encode_utf8(data)),
        ),
    )
}

/// What SM4 decryption of a hex text under a key string yields: the
/// deciphered bytes, the lax trailing pad dropped, read as lossy UTF-8; or
/// the empty string when the hex is malformed or not whole blocks.
pub open spec fn sm4_decrypt_spec(data: Seq<char>, key: Seq<char>) -> Seq<char> {
    if data.len() == 0 {
        Seq::empty()
    } else if valid_hex_seq(data) && hex_decode_seq(data).len() % 16 == 0 {
        lossy_text_of(
            tail_unpad(ecb_sm4_dec(key16_of(vstd::utf8::encode_utf8(key)), hex_decode_seq(data))),
        )
    } else {
        Seq::empty()
    }
}

/// SM4-encrypt a text under a key string. Off whole-block byte lengths,
/// where the lax trailing pad is invertible, decryption under the same key
/// recovers the text: that round trip is part of the contract.
pub fn sm4_encrypt(data: &str, key: &str) -> (r: String)
    requires
        vstd::utf8::encode_utf8(data@).len() + 16 <= usize::MAX,
    ensures
        r@ == sm4_encrypt_spec(data@, key@),
        r@.len() == 2 * tail_pad(vstd::utf8::encode_utf8(data@)).len(),
        vstd::utf8::encode_utf8(data@).len() % 16 != 0 ==> sm4_decrypt_spec(r@, key@) == data@,
{
    let data_bytes = data.as_bytes_vec();
    let key_bytes = key.as_bytes_vec();
    let k16 = to_16_key(&key_bytes);
    let padded = tail_pad_exec(&data_bytes);
    let cipher = ecb_sm4_enc_exec(&k16, &padded);
    let r = chars_to_string(&hex_encode(&cipher));
    proof {
        crate::hexcodec::lemma_hex_roundtrip(cipher@);
        if data_bytes@.len() % 16 != 0 {
            lemma_tail_roundtrip(data_bytes@);
            vstd::utf8::encode_utf8_valid_utf8(data@);
            vstd::utf8::encode_utf8_decode_utf8(data@);
            assert(sm4_decrypt_spec(r@, key@) == data@);
        }
    }
    r
}

/// SM4-decrypt a hex text under a key string. Malformed hex or a ragged
/// block length yields the empty string, never a fault.
pub fn sm4_decrypt(data: &str, key: &str) -> (r: String)
    ensures
        r@ == sm4_decrypt_spec(data@, key@),
{
    let dc = str_to_chars(data);
    let decoded = match hex_decode(&dc) {
        Some(b) => b,
        None => {
            return String::new();
        },
    };
    if decoded.len() % 16 != 0 {
        return String::new();
    }
    let key_bytes = key.as_bytes_vec();
    let k16 = to_16_key(&key_bytes);
    let plain_padded = ecb_sm4_dec_exec(&k16, &decoded);
    let plain = tail_unpad_exec(&plain_padded);
    utf8_lossy(&plain)
}

} // verus!
