use vstd::prelude::*;

verus! {

/// Failure taxonomy of the codec pipeline.
///
/// Every parsing or decoding failure is recovered locally and surfaced as a
/// value of this type (or as an empty string at the outermost string-only
/// interfaces); no failure is a fault of the process.
#[derive(Clone, Copy, PartialEq, Eq, Structural, Debug)]
pub enum CodecError {
    /// The input does not begin with the two-character envelope marker.
    NotAnEnvelope,
    /// The envelope is shorter than the minimum length its framing requires,
    /// or the ciphertext region it frames is empty.
    TooShort,
    /// A component layout cannot be sliced out of the data at hand: the
    /// asymmetric ciphertext is too short to split into its C1, C2 and C3
    /// parts.
    IndexOutOfRange,
    /// The ciphertext region is not a well-formed hex string.
    HexDecodeError,
    /// The inline-key length field was present but is not a decimal integer.
    KeyLengthParseError,
    /// Recovering the session key through the symmetric primitive failed or
    /// yielded an empty key.
    SymmetricDecryptFailure,
    /// The asymmetric primitive could not be applied (the key is not usable
    /// hex) or yielded an empty plaintext.
    AsymmetricDecryptFailure,
}

impl CodecError {
    /// A fixed label for each failure, for host-side reporting.
    pub fn label(&self) -> (r: &'static str)
        ensures
            r@ == self.label_spec(),
    {
        match self {
            CodecError::NotAnEnvelope => "not_an_envelope",
            CodecError::TooShort => "too_short",
            CodecError::IndexOutOfRange => "index_out_of_range",
            CodecError::HexDecodeError => "hex_decode_error",
            CodecError::KeyLengthParseError => "key_length_parse_error",
            CodecError::SymmetricDecryptFailure => "symmetric_decrypt_failure",
            CodecError::AsymmetricDecryptFailure => "asymmetric_decrypt_failure",
        }
    }

    pub open spec fn label_spec(&self) -> Seq<char> {
        match self {
            CodecError::NotAnEnvelope => "not_an_envelope"@,
            CodecError::TooShort => "too_short"@,
            CodecError::IndexOutOfRange => "index_out_of_range"@,
            CodecError::HexDecodeError => "hex_decode_error"@,
            CodecError::KeyLengthParseError => "key_length_parse_error"@,
            CodecError::SymmetricDecryptFailure => "symmetric_decrypt_failure"@,
            CodecError::AsymmetricDecryptFailure => "asymmetric_decrypt_failure"@,
        }
    }
}

} // verus!
