//! Verification of the client's signature over username and nonce.

use vstd::prelude::*;
use vstd::string::*;
use vstd::utf8::*;
use crate::trusted::{sha256_signature_check, signature_check};
use crate::decision::DecodeError;

verus! {

/// The bytes that a client signs: the bytes of the username followed at once
/// by the bytes of the nonce text, with nothing between them.
pub open spec fn signed_payload(username: Seq<char>, nonce: Seq<char>) -> Seq<u8> {
    encode_utf8(username) + encode_utf8(nonce)
}

/// Builds the bytes that a client signs for a username and a nonce.
pub fn build_payload(username: &str, nonce: &str) -> (payload: Vec<u8>)
    ensures
        payload@ == signed_payload(username@, nonce@),
{
    let mut payload: Vec<u8> = Vec::new();
    payload.extend_from_slice(username.as_bytes());
    payload.extend_from_slice(nonce.as_bytes());
    payload
}

/// How a verifier's answer counts: only a signature that it found valid is
/// accepted; one that it found wrong and one that it could not judge are
/// both refused.
pub open spec fn spec_accepts(answer: Result<bool, DecodeError>) -> bool {
    answer == Ok::<bool, DecodeError>(true)
}

/// Whether a verifier's answer accepts the signature.
pub fn accepts(answer: Result<bool, DecodeError>) -> (accepted: bool)
    ensures
        accepted == spec_accepts(answer),
{
    match answer {
        Ok(valid) => valid,
        Err(_) => false,
    }
}

/// The verifier's answer on a key, a payload and a signature: whether the
/// signature is valid for the SHA-256 digest of the payload under the key,
/// or an error where the key or the signature is too malformed to try.
pub open spec fn spec_verify(public_key: Seq<u8>, payload: Seq<u8>, signature: Seq<u8>) -> Result<
    bool,
    DecodeError,
> {
    match sha256_signature_check(public_key, payload, signature) {
        Some(valid) => Ok(valid),
        None => Err(DecodeError),
    }
}

/// Verifies a signature over a payload under a public key, given as a
/// DER-encoded SubjectPublicKeyInfo. A wrong signature is `Ok(false)`, never
/// an error.
pub fn verify(public_key: &[u8], payload: &[u8], signature: &[u8]) -> (answer: Result<
    bool,
    DecodeError,
>)
    ensures
        answer == spec_verify(public_key@, payload@, signature@),
{
    match signature_check(public_key, payload, signature) {
        Ok(valid) => Ok(valid),
        Err(_) => Err(DecodeError),
    }
}

} // verus!
