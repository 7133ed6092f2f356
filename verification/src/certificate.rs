//! Client certificates: trust in the issuer and the identity claim.

use vstd::prelude::*;
use vstd::string::*;
use crate::anchor::TrustAnchor;
use crate::trusted::{
    certificate_account,
    certificate_key,
    certificate_signed_by,
    x509_account_name,
    x509_signed_by,
    x509_subject_key,
};
use crate::decision::DecodeError;
use crate::text::text_equal;

verus! {

/// A client's X.509 certificate: its DER encoding and the public key that it
/// certifies, as a DER-encoded SubjectPublicKeyInfo.
#[derive(Debug)]
pub struct ClientCertificate {
    der: Vec<u8>,
    public_key: Vec<u8>,
}

/// A `ClientCertificate` as a mathematical value.
pub struct CertificateView {
    pub der: Seq<u8>,
    pub public_key: Seq<u8>,
}

impl View for ClientCertificate {
    type V = CertificateView;

    closed spec fn view(&self) -> CertificateView {
        CertificateView { der: self.der@, public_key: self.public_key@ }
    }
}

/// Whether the certificate was issued by the anchor: the signature on it
/// verifies under the anchor's key. An error of the check counts as a
/// certificate that was not.
pub open spec fn spec_verify_trust(certificate: Seq<u8>, anchor: Seq<u8>) -> bool {
    x509_signed_by(certificate, anchor) == Some(true)
}

/// The identity claim of a certificate: the account name in its subject.
pub open spec fn spec_extract_identity(certificate: Seq<u8>) -> Result<Seq<char>, DecodeError> {
    match x509_account_name(certificate) {
        Some(name) => Ok(name),
        None => Err(DecodeError),
    }
}

/// Whether an extracted identity is the claimed username, character for
/// character. An identity that could not be extracted matches no username.
pub open spec fn spec_identity_matches(
    identity: Result<Seq<char>, DecodeError>,
    username: Seq<char>,
) -> bool {
    identity == Ok::<Seq<char>, DecodeError>(username)
}

/// Whether a certificate is valid for a request: issued by the anchor, and
/// carrying the claimed username as its identity.
pub open spec fn spec_verify_cert(
    certificate: Seq<u8>,
    username: Seq<char>,
    anchor: Seq<u8>,
) -> bool {
    spec_verify_trust(certificate, anchor) && spec_identity_matches(
        spec_extract_identity(certificate),
        username,
    )
}

/// The text of an extracted identity, for contracts.
pub open spec fn identity_view(identity: Result<String, DecodeError>) -> Result<
    Seq<char>,
    DecodeError,
> {
    match identity {
        Ok(name) => Ok(name@),
        Err(e) => Err(e),
    }
}

/// Whether an extracted identity is the claimed username.
pub fn identity_matches(identity: &Result<String, DecodeError>, username: &str) -> (same: bool)
    ensures
        same == spec_identity_matches(identity_view(*identity), username@),
{
    match identity {
        Ok(name) => text_equal(name.as_str(), username),
        Err(_) => false,
    }
}

impl ClientCertificate {
    #[verifier::type_invariant]
    spec fn holds_its_key(self) -> bool {
        x509_subject_key(self.der@) == Some(self.public_key@)
    }

    /// Parses a DER-encoded certificate and reads out its public key.
    pub fn from_der(der: Vec<u8>) -> (certificate: Result<ClientCertificate, DecodeError>)
        ensures
            match certificate {
                Ok(c) => c@.der == der@ && x509_subject_key(der@) == Some(c@.public_key),
                Err(_) => x509_subject_key(der@) is None,
            },
    {
        match certificate_key(der.as_slice()) {
            Ok(public_key) => Ok(ClientCertificate { der, public_key }),
            Err(_) => Err(DecodeError),
        }
    }

    /// The certificate's DER encoding.
    pub fn der(&self) -> (der: &[u8])
        ensures
            der@ == self@.der,
    {
        self.der.as_slice()
    }

    /// The certified public key, as a DER-encoded SubjectPublicKeyInfo.
    pub fn public_key(&self) -> (key: &[u8])
        ensures
            key@ == self@.public_key,
            x509_subject_key(self@.der) == Some(key@),
    {
        proof {
            use_type_invariant(self);
        }
        self.public_key.as_slice()
    }

    /// Whether the certificate was issued by the anchor.
    pub fn verify_trust(&self, anchor: &TrustAnchor) -> (trusted: bool)
        ensures
            trusted == spec_verify_trust(self@.der, anchor@),
    {
        match certificate_signed_by(self.der.as_slice(), anchor.key()) {
            Ok(signed) => signed,
            Err(_) => false,
        }
    }

    /// Reads the identity claim out of the certificate's subject.
    pub fn extract_identity(&self) -> (identity: Result<String, DecodeError>)
        ensures
            identity_view(identity) == spec_extract_identity(self@.der),
    {
        match certificate_account(self.der.as_slice()) {
            Some(name) => Ok(name),
            None => Err(DecodeError),
        }
    }
}

/// Whether a certificate is valid for a request that claims `username`: it
/// must be issued by the anchor and carry that username as its identity.
pub fn verify_cert(certificate: &ClientCertificate, username: &str, anchor: &TrustAnchor) -> (valid:
    bool)
    ensures
        valid == spec_verify_cert(certificate@.der, username@, anchor@),
{
    if !certificate.verify_trust(anchor) {
        return false;
    }
    let identity = certificate.extract_identity();
    identity_matches(&identity, username)
}

} // verus!
