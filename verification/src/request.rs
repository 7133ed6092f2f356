//! What a request presents for authentication.

use vstd::prelude::*;
use vstd::string::*;
use crate::certificate::{CertificateView, ClientCertificate};

verus! {

/// The header that carries the claimed identity.
pub const USERNAME_HEADER: &'static str = "X-Username";

/// The header that carries the client certificate, DER in base64.
pub const CERTIFICATE_HEADER: &'static str = "X-Auth-Cert";

/// The header that carries the signature, in base64.
pub const SIGNATURE_HEADER: &'static str = "X-Auth-Signature";

/// The header that carries the nonce, milliseconds in decimal.
pub const NONCE_HEADER: &'static str = "X-Nonce";

/// The four authentication headers of a request, each as its text, or
/// `None` where the header is absent or its value is not text.
#[derive(Clone, Debug)]
pub struct RequestHeaders {
    /// `X-Username`: the claimed identity.
    pub username: Option<String>,
    /// `X-Auth-Cert`: the client certificate, DER in base64.
    pub certificate: Option<String>,
    /// `X-Auth-Signature`: the signature, in base64.
    pub signature: Option<String>,
    /// `X-Nonce`: the client's clock in milliseconds, in decimal.
    pub nonce: Option<String>,
}

/// `RequestHeaders` as a mathematical value.
pub struct HeadersView {
    pub username: Option<Seq<char>>,
    pub certificate: Option<Seq<char>>,
    pub signature: Option<Seq<char>>,
    pub nonce: Option<Seq<char>>,
}

/// The text that an optional header holds.
pub open spec fn header_view(value: Option<String>) -> Option<Seq<char>> {
    match value {
        Some(text) => Some(text@),
        None => None,
    }
}

impl View for RequestHeaders {
    type V = HeadersView;

    open spec fn view(&self) -> HeadersView {
        HeadersView {
            username: header_view(self.username),
            certificate: header_view(self.certificate),
            signature: header_view(self.signature),
            nonce: header_view(self.nonce),
        }
    }
}

/// A request whose four headers were present and decoded.
#[derive(Debug)]
pub struct SignedRequest {
    /// The identity that the client claims.
    pub claimed_username: String,
    /// The nonce text, as it was sent and signed.
    pub nonce: String,
    /// The signature over username and nonce.
    pub signature: Vec<u8>,
    /// The certificate that the client presents.
    pub certificate: ClientCertificate,
}

/// A `SignedRequest` as a mathematical value.
pub struct SignedRequestView {
    pub claimed_username: Seq<char>,
    pub nonce: Seq<char>,
    pub signature: Seq<u8>,
    pub certificate: CertificateView,
}

impl View for SignedRequest {
    type V = SignedRequestView;

    open spec fn view(&self) -> SignedRequestView {
        SignedRequestView {
            claimed_username: self.claimed_username@,
            nonce: self.nonce@,
            signature: self.signature@,
            certificate: self.certificate@,
        }
    }
}

} // verus!
