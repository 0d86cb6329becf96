use vstd::prelude::*;
use crate::chars::{subvec, chars_to_string, str_to_chars};
use crate::errors::CodecError;
use crate::hexcodec::{hex_decode_seq, hex_encode_seq, lemma_hex_roundtrip, valid_hex_seq};
use crate::numparse::{all_dec_digits, dec_val, parse_usize};

verus! {

/// What envelope parsing yields: the inline session key, if the envelope
/// carried one, and the ciphertext region.
#[derive(Debug, PartialEq, Eq)]
pub struct ParsedEnvelope {
    pub key: Option<String>,
    pub ciphertext: String,
}

impl View for ParsedEnvelope {
    type V = (Option<Seq<char>>, Seq<char>);

    open spec fn view(&self) -> Self::V {
        (
            match self.key {
                Some(k) => Some(k@),
                None => None,
            },
            self.ciphertext@,
        )
    }
}

/// The two-character marker every envelope opens with.
pub open spec fn starts_with_marker(raw: Seq<char>) -> bool {
    raw.len() >= 2 && raw[0] == '0' && raw[1] == '2'
}

/// Whether a length hint is present and denotes a machine-range integer.
pub open spec fn hint_parses(hint: Option<Seq<char>>) -> bool {
    match hint {
        Some(h) => all_dec_digits(h) && dec_val(h) <= usize::MAX,
        None => false,
    }
}

/// The ciphertext region of an inline-key envelope with key length `n`: the
/// characters after the marker, the key and the three separator characters,
/// and before the four-character trailer; in stripping mode, additionally
/// without its first two characters when it has more than two.
pub open spec fn inline_cipher_region(raw: Seq<char>, n: nat, strip: bool) -> Seq<char>
    recommends
        raw.len() >= n + 9,
{
    let c0 = raw.subrange(n + 5 as int, raw.len() - 4);
    if strip && c0.len() > 2 {
        c0.skip(2)
    } else {
        c0
    }
}

/// The envelope parser, as a function of the input alone.
///
/// Inline-key mode applies when the hint parses as an integer `n`: the key is
/// the `n` characters after the marker, the three characters after it (the
/// separator, expected to read `200` but deliberately not validated) are
/// skipped, and the ciphertext runs to the four-character trailer. Otherwise
/// six leading and four trailing characters frame the ciphertext and no key
/// is produced.
pub open spec fn parse_spec(raw: Seq<char>, hint: Option<Seq<char>>, strip: bool) -> Result<
    (Option<Seq<char>>, Seq<char>),
    CodecError,
> {
    if !starts_with_marker(raw) {
        Err(CodecError::NotAnEnvelope)
    } else if hint_parses(hint) {
        let n = dec_val(hint->0);
        if raw.len() < n + 9 {
            Err(CodecError::TooShort)
        } else {
            let cipher = inline_cipher_region(raw, n, strip);
            if cipher.len() == 0 {
                Err(CodecError::TooShort)
            } else {
                Ok((Some(raw.subrange(2, n + 2 as int)), cipher))
            }
        }
    } else {
        if raw.len() < 11 {
            Err(CodecError::TooShort)
        } else {
            Ok((None, raw.subrange(6, raw.len() - 4)))
        }
    }
}

/// Decompose a response envelope into inline key material and ciphertext.
///
/// `key_len_hint` is the out-of-band key length field; when it is absent or
/// does not parse as a decimal integer the fixed-offset variant applies.
/// `strip_prefix` selects the call-site quirk that discards two further
/// characters at the head of the inline ciphertext region.
pub fn parse(raw: &str, key_len_hint: Option<&str>, strip_prefix: bool) -> (r: Result<
    ParsedEnvelope,
    CodecError,
>)
    ensures
        match r {
            Ok(p) => parse_spec(raw@, opt_str_view(key_len_hint), strip_prefix) == Ok::<
                _,
                CodecError,
            >(p@),
            Err(e) => parse_spec(raw@, opt_str_view(key_len_hint), strip_prefix) == Err::<
                (Option<Seq<char>>, Seq<char>),
                _,
            >(e),
        },
{
    let rc = str_to_chars(raw);
    if rc.len() < 2 || rc[0] != '0' || rc[1] != '2' {
        return Err(CodecError::NotAnEnvelope);
    }
    let parsed_hint: Option<usize> = match key_len_hint {
        Some(h) => parse_usize(&str_to_chars(h)),
        None => None,
    };
    match parsed_hint {
        Some(n) => {
            // Inline-key mode: marker (2) + key (n) + separator (3) + trailer (4).
            if rc.len() < 9 || n > rc.len() - 9 {
                return Err(CodecError::TooShort);
            }
            let key = subvec(&rc, 2, 2 + n);
            let cipher0 = subvec(&rc, n + 5, rc.len() - 4);
            let cipher = if strip_prefix && cipher0.len() > 2 {
                subvec(&cipher0, 2, cipher0.len())
            } else {
                cipher0
            };
            proof {
                assert(cipher@ == inline_cipher_region(rc@, n as nat, strip_prefix)) by {
                    let c0 = rc@.subrange(n + 5, rc@.len() - 4);
                    if strip_prefix && c0.len() > 2 {
                        assert(c0.subrange(2, c0.len() as int) =~= c0.skip(2));
                    }
                };
            }
            if cipher.len() == 0 {
                return Err(CodecError::TooShort);
            }
            Ok(
                ParsedEnvelope {
                    key: Some(chars_to_string(&key)),
                    ciphertext: chars_to_string(&cipher),
                },
            )
        },
        None => {
            // Fixed-offset mode: six leading and four trailing characters are
            // discarded unconditionally; the key comes from recovery instead.
            if rc.len() < 11 {
                return Err(CodecError::TooShort);
            }
            let cipher = subvec(&rc, 6, rc.len() - 4);
            Ok(ParsedEnvelope { key: None, ciphertext: chars_to_string(&cipher) })
        },
    }
}

/// The view of an optional string argument.
pub open spec fn opt_str_view(h: Option<&str>) -> Option<Seq<char>> {
    match h {
        Some(s) => Some(s@),
        None => None,
    }
}

/// A valid inline envelope parses back to exactly the key and the hex
/// ciphertext it was assembled from, and hex-decoding that ciphertext region
/// recovers the original cipher bytes.
pub proof fn lemma_inline_roundtrip(key: Seq<char>, cipher: Seq<u8>, hint: Seq<char>)
    requires
        all_dec_digits(hint),
        dec_val(hint) == key.len(),
        dec_val(hint) <= usize::MAX,
        cipher.len() > 0,
    ensures
        ({
            let raw = seq!['0', '2'] + key + seq!['2', '0', '0'] + hex_encode_seq(cipher)
                + seq!['f', 'f', 'f', 'f'];
            &&& parse_spec(raw, Some(hint), false) == Ok::<_, CodecError>(
                (Some(key), hex_encode_seq(cipher)),
            )
            &&& valid_hex_seq(hex_encode_seq(cipher))
            &&& hex_decode_seq(hex_encode_seq(cipher)) == cipher
        }),
{
    lemma_hex_roundtrip(cipher);
    let n = key.len();
    let enc = hex_encode_seq(cipher);
    let raw = seq!['0', '2'] + key + seq!['2', '0', '0'] + enc + seq!['f', 'f', 'f', 'f'];
    assert(raw.len() == n + 9 + enc.len());
    assert(starts_with_marker(raw));
    assert(hint_parses(Some(hint)));
    let c0 = raw.subrange(n + 5 as int, raw.len() - 4);
    assert(c0 =~= enc);
    assert(inline_cipher_region(raw, n, false) == c0);
    assert(raw.subrange(2, n + 2 as int) =~= key);
    assert(parse_spec(raw, Some(hint), false) == Ok::<_, CodecError>((Some(key), enc)));
}

/// A string that does not open with the envelope marker is rejected as not
/// being an envelope at all, whatever the hint and mode; and conversely that
/// rejection only ever means the marker was absent.
pub proof fn lemma_not_an_envelope(raw: Seq<char>, hint: Option<Seq<char>>, strip: bool)
    ensures
        parse_spec(raw, hint, strip) == Err::<(Option<Seq<char>>, Seq<char>), _>(
            CodecError::NotAnEnvelope,
        ) <==> !starts_with_marker(raw),
{
}

} // verus!
