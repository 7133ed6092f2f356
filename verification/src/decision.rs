//! The verdict on a request, and the errors of the checks behind it.

use vstd::prelude::*;

verus! {

/// Why a request was turned away.
#[derive(Clone, Copy, Debug, PartialEq, Eq, Structural)]
pub enum DenyReason {
    /// One of the four authentication headers is absent or is not text.
    MissingHeader,
    /// The certificate or the signature could not be decoded.
    MalformedInput,
    /// The certificate was not issued by the trust anchor.
    UntrustedCertificate,
    /// The certificate's identity claim is absent or differs from the
    /// claimed username.
    IdentityMismatch,
    /// The nonce is not a number or lies outside the freshness window.
    NonceInvalid,
    /// The signature does not verify over username and nonce.
    BadSignature,
}

impl DenyReason {
    /// The HTTP status that goes with a reason: 400 for request metadata
    /// that is missing or malformed, 401 for every failure of authentication.
    pub open spec fn spec_status(self) -> u16 {
        match self {
            DenyReason::MissingHeader | DenyReason::MalformedInput => 400,
            _ => 401,
        }
    }

    /// The HTTP status that goes with this reason.
    pub fn status(&self) -> (code: u16)
        ensures
            code == self.spec_status(),
    {
        match self {
            DenyReason::MissingHeader | DenyReason::MalformedInput => 400,
            _ => 401,
        }
    }
}

/// How the nonce check can fail.
#[derive(Clone, Copy, Debug, PartialEq, Eq, Structural)]
pub enum NonceError {
    /// The nonce is not an unsigned decimal count of milliseconds.
    Format,
    /// The nonce is more than the freshness window away from now.
    Expired,
}

/// Bytes that could not be decoded into what they were presented as.
#[derive(Clone, Copy, Debug, PartialEq, Eq, Structural)]
pub struct DecodeError;

/// Why no trust anchor could be had. Both are operational faults of the
/// service, not verdicts on the client.
#[derive(Clone, Copy, Debug, PartialEq, Eq, Structural)]
pub enum AnchorError {
    /// The anchor's location could not be read.
    Fetch,
    /// What was read is not an encoded public key.
    Decode,
}

/// The verdict on one request.
#[derive(Clone, Debug, PartialEq, Eq)]
pub enum AuthDecision {
    /// The request is authentic; `identity` is the verified username.
    Allow { identity: String },
    /// The request is refused with an HTTP status and the reason for it.
    Deny { status: u16, reason: DenyReason },
}

/// An `AuthDecision` as a mathematical value.
pub enum DecisionView {
    Allow { identity: Seq<char> },
    Deny { status: u16, reason: DenyReason },
}

impl DecisionView {
    /// Whether a decision is consistent: a denial carries the status that
    /// goes with its reason.
    pub open spec fn well_formed(self) -> bool {
        match self {
            DecisionView::Allow { .. } => true,
            DecisionView::Deny { status, reason } => status == reason.spec_status(),
        }
    }
}

/// The denial that belongs to a reason, with the reason's own status.
pub open spec fn spec_deny(reason: DenyReason) -> DecisionView {
    DecisionView::Deny { status: reason.spec_status(), reason }
}

impl View for AuthDecision {
    type V = DecisionView;

    open spec fn view(&self) -> DecisionView {
        match *self {
            AuthDecision::Allow { identity } => DecisionView::Allow { identity: identity@ },
            AuthDecision::Deny { status, reason } => DecisionView::Deny { status, reason },
        }
    }
}

impl AuthDecision {
    /// Refuses a request for the given reason.
    pub fn deny(reason: DenyReason) -> (decision: AuthDecision)
        ensures
            decision@ == spec_deny(reason),
            decision@.well_formed(),
    {
        AuthDecision::Deny { status: reason.status(), reason }
    }

    /// Admits a request under a verified identity.
    pub fn allow(identity: String) -> (decision: AuthDecision)
        ensures
            decision@ == (DecisionView::Allow { identity: identity@ }),
            decision@.well_formed(),
    {
        AuthDecision::Allow { identity }
    }

    /// Whether the request was admitted.
    pub fn is_allowed(&self) -> (allowed: bool)
        ensures
            allowed == (self@ is Allow),
    {
        match self {
            AuthDecision::Allow { .. } => true,
            AuthDecision::Deny { .. } => false,
        }
    }
}

} // verus!
