//! The trust anchor: the public key against which client certificates are
//! validated.
//!
//! The anchor is served from one fixed location as base64 text around a
//! DER-encoded RSA public key. Reading that location is the caller's part;
//! decoding what was read is done here.

use vstd::prelude::*;
use vstd::string::*;
use vstd::utf8::*;
use crate::trusted::{rsa_key_accepted, rsa_key_usable, utf8_text};
use crate::decision::AnchorError;
use crate::encoding::{decode, spec_decode};

verus! {

/// Where the current anchor is served.
pub const ANCHOR_LOCATION: &'static str =
    "https://social-media-account-provisioning-public-key.s3.us-west-2.amazonaws.com/server_public_key.der";

/// The public key that client certificates must be signed with.
#[derive(Debug)]
pub struct TrustAnchor {
    key: Vec<u8>,
}

impl View for TrustAnchor {
    type V = Seq<u8>;

    /// The key as a DER-encoded SubjectPublicKeyInfo.
    closed spec fn view(&self) -> Seq<u8> {
        self.key@
    }
}

/// The key that a transport encoding carries: the bytes must be UTF-8 text,
/// the text must be base64, and what it decodes to must be an RSA public
/// key. `None` for any other bytes.
pub open spec fn spec_anchor_key(transport: Seq<u8>) -> Option<Seq<u8>> {
    if valid_utf8(transport) {
        match spec_decode(decode_utf8(transport)) {
            Some(key) => if rsa_key_accepted(key) {
                Some(key)
            } else {
                None
            },
            None => None,
        }
    } else {
        None
    }
}

/// The anchor, or the error, that comes of an attempt to read the anchor's
/// location: `None` stands for a read that failed.
pub open spec fn spec_receive(fetched: Option<Seq<u8>>) -> Result<Seq<u8>, AnchorError> {
    match fetched {
        None => Err(AnchorError::Fetch),
        Some(transport) => match spec_anchor_key(transport) {
            Some(key) => Ok(key),
            None => Err(AnchorError::Decode),
        },
    }
}

impl TrustAnchor {
    #[verifier::type_invariant]
    spec fn holds_rsa_key(self) -> bool {
        rsa_key_accepted(self.key@)
    }

    /// Takes a DER-encoded RSA public key as the anchor.
    pub fn from_der(key: Vec<u8>) -> (anchor: Result<TrustAnchor, AnchorError>)
        ensures
            match anchor {
                Ok(a) => a@ == key@ && rsa_key_accepted(key@),
                Err(e) => e == AnchorError::Decode && !rsa_key_accepted(key@),
            },
    {
        match rsa_key_usable(key.as_slice()) {
            Ok(_) => Ok(TrustAnchor { key }),
            Err(_) => Err(AnchorError::Decode),
        }
    }

    /// Decodes the anchor from its transport encoding.
    pub fn decode(transport: Vec<u8>) -> (anchor: Result<TrustAnchor, AnchorError>)
        ensures
            match anchor {
                Ok(a) => spec_anchor_key(transport@) == Some(a@),
                Err(e) => e == AnchorError::Decode && spec_anchor_key(transport@) is None,
            },
    {
        let text = match utf8_text(transport) {
            Some(text) => text,
            None => {
                return Err(AnchorError::Decode);
            },
        };
        match decode(text.as_str()) {
            Ok(key) => TrustAnchor::from_der(key),
            Err(_) => Err(AnchorError::Decode),
        }
    }

    /// Turns the outcome of reading the anchor's location into an anchor:
    /// `None` stands for a read that failed.
    pub fn receive(fetched: Option<Vec<u8>>) -> (anchor: Result<TrustAnchor, AnchorError>)
        ensures
            match anchor {
                Ok(a) => spec_receive(option_view(fetched)) == Ok::<Seq<u8>, AnchorError>(a@),
                Err(e) => spec_receive(option_view(fetched)) == Err::<Seq<u8>, AnchorError>(e),
            },
    {
        match fetched {
            None => Err(AnchorError::Fetch),
            Some(transport) => TrustAnchor::decode(transport),
        }
    }

    /// The key as a DER-encoded SubjectPublicKeyInfo. It is always one that
    /// OpenSSL reads as an RSA public key.
    pub fn key(&self) -> (key: &[u8])
        ensures
            key@ == self@,
            rsa_key_accepted(key@),
    {
        proof {
            use_type_invariant(self);
        }
        self.key.as_slice()
    }
}

/// The bytes that an optional buffer holds.
pub open spec fn option_view(bytes: Option<Vec<u8>>) -> Option<Seq<u8>> {
    match bytes {
        Some(b) => Some(b@),
        None => None,
    }
}

} // verus!
