//! What the library takes on trust: the calls into OpenSSL that
//! authentication relies on, and two calls into the standard library.
//!
//! Nothing in this module is proved. Each function hands plain bytes or text
//! to the outside code and returns plain values. Where the answer takes
//! pages to state, the contract only gives it a name, so that the verified
//! code around it can say exactly which answer decided a request. A name
//! stands for one fixed function: the same input always has the same answer.

use vstd::prelude::*;
use vstd::string::*;
use vstd::utf8::*;

verus! {

/// OpenSSL's error queue, carried through without being inspected.
#[verifier::external_type_specification]
#[verifier::external_body]
pub struct ExErrorStack(openssl::error::ErrorStack);

/// The longest input, in bytes, that OpenSSL's block decoder accepts: it
/// takes lengths as a C `int`.
pub const MAX_ENCODED_LEN: usize = 0x7fff_ffff;

/// What `openssl::base64::decode_block` makes of a text: the decoded bytes,
/// or `None` where it reports an error.
pub uninterp spec fn base64_decoding(text: Seq<char>) -> Option<Seq<u8>>;

/// The public key that OpenSSL reads out of a DER-encoded X.509 certificate,
/// as a DER-encoded SubjectPublicKeyInfo; `None` where the bytes are no
/// certificate or its key cannot be had.
pub uninterp spec fn x509_subject_key(certificate: Seq<u8>) -> Option<Seq<u8>>;

/// The text of the first `account` entry in the subject name of a DER-encoded
/// X.509 certificate, as OpenSSL converts it to UTF-8; `None` where the bytes
/// are no certificate, the subject has no such entry, or the conversion fails.
pub uninterp spec fn x509_account_name(certificate: Seq<u8>) -> Option<Seq<char>>;

/// Whether OpenSSL finds the signature on a DER-encoded X.509 certificate to
/// be made by the RSA key given as a DER-encoded SubjectPublicKeyInfo; `None`
/// where either cannot be parsed or the check itself reports an error.
pub uninterp spec fn x509_signed_by(certificate: Seq<u8>, issuer_key: Seq<u8>) -> Option<bool>;

/// Whether OpenSSL reads the bytes as a DER-encoded SubjectPublicKeyInfo that
/// holds an RSA key.
pub uninterp spec fn rsa_key_accepted(key: Seq<u8>) -> bool;

/// Whether OpenSSL finds `signature` to be a signature over the SHA-256 digest
/// of `payload`, in the native scheme of the key given as a DER-encoded
/// SubjectPublicKeyInfo; `None` where the key cannot be parsed or used, or the
/// check itself reports an error.
pub uninterp spec fn sha256_signature_check(
    key: Seq<u8>,
    payload: Seq<u8>,
    signature: Seq<u8>,
) -> Option<bool>;

/// Calls `openssl::base64::decode_block`. The contract claims only that the
/// outcome is a function of the text. Inputs of more than `MAX_ENCODED_LEN`
/// bytes make the decoder panic and are excluded.
#[verifier::external_body]
pub(crate) fn decode_block(text: &str) -> (r: Result<Vec<u8>, openssl::error::ErrorStack>)
    requires
        text.spec_bytes().len() <= MAX_ENCODED_LEN,
    ensures
        match r {
            Ok(bytes) => base64_decoding(text@) == Some(bytes@),
            Err(_) => base64_decoding(text@) is None,
        },
{
    openssl::base64::decode_block(text)
}

/// Parses a certificate with `X509::from_der`, takes its key with
/// `X509Ref::public_key` and encodes the key with
/// `PKeyRef::public_key_to_der`. The contract claims only that the outcome
/// is a function of the certificate's bytes.
#[verifier::external_body]
pub(crate) fn certificate_key(certificate: &[u8]) -> (r: Result<
    Vec<u8>,
    openssl::error::ErrorStack,
>)
    ensures
        match r {
            Ok(key) => x509_subject_key(certificate@) == Some(key@),
            Err(_) => x509_subject_key(certificate@) is None,
        },
{
    openssl::x509::X509::from_der(certificate)?.public_key()?.public_key_to_der()
}

/// Parses a certificate with `X509::from_der`, looks up the first `account`
/// entry of `X509Ref::subject_name` with `X509NameRef::entries_by_nid` and
/// converts its data with `Asn1StringRef::to_string`, which keeps the whole
/// field. The contract claims only that the outcome is a function of the
/// certificate's bytes.
#[verifier::external_body]
pub(crate) fn certificate_account(certificate: &[u8]) -> (r: Option<String>)
    ensures
        match r {
            Some(name) => x509_account_name(certificate@) == Some(name@),
            None => x509_account_name(certificate@) is None,
        },
{
    let parsed = openssl::x509::X509::from_der(certificate).ok()?;
    let entry = parsed.subject_name().entries_by_nid(openssl::nid::Nid::ACCOUNT).next()?;
    entry.data().to_string().ok()
}

/// Parses a certificate with `X509::from_der` and an RSA key with
/// `Rsa::public_key_from_der` and `PKey::from_rsa`, then checks the
/// certificate's signature with `X509Ref::verify`. The contract claims only
/// that the outcome is a function of the two byte strings.
#[verifier::external_body]
pub(crate) fn certificate_signed_by(certificate: &[u8], issuer_key: &[u8]) -> (r: Result<
    bool,
    openssl::error::ErrorStack,
>)
    ensures
        match r {
            Ok(signed) => x509_signed_by(certificate@, issuer_key@) == Some(signed),
            Err(_) => x509_signed_by(certificate@, issuer_key@) is None,
        },
{
    let parsed = openssl::x509::X509::from_der(certificate)?;
    let rsa = openssl::rsa::Rsa::public_key_from_der(issuer_key)?;
    let key = openssl::pkey::PKey::from_rsa(rsa)?;
    parsed.verify(&key)
}

/// Parses an RSA key with `Rsa::public_key_from_der` and wraps it with
/// `PKey::from_rsa`. The contract claims only that success is a function of
/// the bytes.
#[verifier::external_body]
pub(crate) fn rsa_key_usable(key: &[u8]) -> (r: Result<(), openssl::error::ErrorStack>)
    ensures
        r is Ok <==> rsa_key_accepted(key@),
{
    openssl::pkey::PKey::from_rsa(openssl::rsa::Rsa::public_key_from_der(key)?)?;
    Ok(())
}

/// Parses a key with `PKey::public_key_from_der`, sets up
/// `openssl::sign::Verifier` with SHA-256, feeds it the payload and lets it
/// judge the signature. The contract claims only that the outcome is a
/// function of the three byte strings.
#[verifier::external_body]
pub(crate) fn signature_check(key: &[u8], payload: &[u8], signature: &[u8]) -> (r: Result<
    bool,
    openssl::error::ErrorStack,
>)
    ensures
        match r {
            Ok(valid) => sha256_signature_check(key@, payload@, signature@) == Some(valid),
            Err(_) => sha256_signature_check(key@, payload@, signature@) is None,
        },
{
    let parsed = openssl::pkey::PKey::public_key_from_der(key)?;
    let digest = openssl::hash::MessageDigest::sha256();
    let mut verifier = openssl::sign::Verifier::new(digest, &parsed)?;
    verifier.update(payload)?;
    verifier.verify(signature)
}

/// Calls `String::from_utf8`: the text that the bytes encode, where they are
/// valid UTF-8, and nothing otherwise.
#[verifier::external_body]
pub(crate) fn utf8_text(bytes: Vec<u8>) -> (r: Option<String>)
    ensures
        r is Some <==> valid_utf8(bytes@),
        r matches Some(text) ==> text@ == decode_utf8(bytes@),
{
    String::from_utf8(bytes).ok()
}

/// What Rust's `Debug` formatting writes for a text: the text in double
/// quotes, with escapes.
pub uninterp spec fn debug_quoted(text: Seq<char>) -> Seq<char>;

/// Formats a text with `{:?}`. The contract claims only that the outcome is
/// a function of the text.
#[verifier::external_body]
pub(crate) fn quote(text: &str) -> (quoted: String)
    ensures
        quoted@ == debug_quoted(text@),
{
    format!("{:?}", text)
}

} // verus!
