//! A verified codec core: a length-prefixed text envelope format carrying an
//! inline session key and hex-encoded ciphertext, key recovery through a
//! symmetric primitive, asymmetric payload decryption in C1C2C3 layout, and a
//! reversible substitution obfuscation engine over fixed symbol alphabets.
//!
//! The cryptographic primitives themselves (SM2, SM3, MD5, AES) are outside
//! collaborators reached through trusted wrappers; everything around them --
//! envelope offsets, hex and decimal codecs, the bijective substitution maps
//! and the orchestration -- is verified.

pub mod chars;
pub mod errors;
pub mod hexcodec;
pub mod asym;
pub mod envelope;
pub mod numparse;
pub mod outside;
pub mod pipeline;
pub mod recovery;
pub mod substitution;
pub mod symmetric;
