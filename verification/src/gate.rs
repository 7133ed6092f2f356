//! The authentication gate.
//!
//! A request passes eight stages in order, and the first failure decides:
//! the four headers must be present; certificate and signature must decode;
//! the trust anchor must be had; the certificate must be issued by it; the
//! certificate's identity must be the claimed username; the nonce must be
//! fresh; the signature over username and nonce must verify under the
//! certificate's key; then the request is allowed.
//!
//! The anchor is read from the network between the second and the fourth
//! stage. Reading it is the caller's part: `extract_request` runs the
//! stages before the read, the caller reads, and `conclude` runs the stages
//! after it. `evaluate` is the whole gate for a caller that has the outcome
//! of the read at hand. Nothing is kept between requests.

use vstd::prelude::*;
use vstd::string::*;
use vstd::utf8::*;
use crate::anchor::{option_view, spec_receive, TrustAnchor};
use crate::certificate::{
    identity_matches,
    identity_view,
    spec_extract_identity,
    spec_identity_matches,
    spec_verify_trust,
    CertificateView,
    ClientCertificate,
};
use crate::trusted::x509_subject_key;
use crate::decision::{
    spec_deny,
    AnchorError,
    AuthDecision,
    DecisionView,
    DecodeError,
    DenyReason,
};
use crate::encoding::{decode, spec_decode};
use crate::nonce::{check, spec_check};
use crate::request::{HeadersView, RequestHeaders, SignedRequest, SignedRequestView};
use crate::signature::{accepts, build_payload, signed_payload, spec_accepts, spec_verify, verify};

verus! {

/// What the cryptographic checks found on a request.
#[derive(Debug)]
pub struct Evidence {
    /// Whether the certificate was issued by the trust anchor.
    pub trusted: bool,
    /// The identity claim read from the certificate.
    pub identity: Result<String, DecodeError>,
    /// The signature verifier's answer.
    pub signature: Result<bool, DecodeError>,
}

/// `Evidence` as a mathematical value.
pub struct EvidenceView {
    pub trusted: bool,
    pub identity: Result<Seq<char>, DecodeError>,
    pub signature: Result<bool, DecodeError>,
}

impl View for Evidence {
    type V = EvidenceView;

    open spec fn view(&self) -> EvidenceView {
        EvidenceView {
            trusted: self.trusted,
            identity: identity_view(self.identity),
            signature: self.signature,
        }
    }
}

/// How authentication ends for one request: with a decision on the client,
/// or with the service's own failure to obtain its trust anchor.
#[derive(Debug)]
pub enum GateOutcome {
    /// The request was judged.
    Decided(AuthDecision),
    /// No trust anchor could be had; the request was not judged.
    Unavailable(AnchorError),
}

/// A `GateOutcome` as a mathematical value.
pub enum OutcomeView {
    Decided(DecisionView),
    Unavailable(AnchorError),
}

impl View for GateOutcome {
    type V = OutcomeView;

    open spec fn view(&self) -> OutcomeView {
        match *self {
            GateOutcome::Decided(decision) => OutcomeView::Decided(decision@),
            GateOutcome::Unavailable(error) => OutcomeView::Unavailable(error),
        }
    }
}

/// The first two stages. All four headers must be present, else the request
/// is denied for a missing header, whatever the others hold. Then the
/// certificate text and the signature text must be base64 and the decoded
/// certificate must be an X.509 certificate with a readable key, else the
/// request is denied as malformed.
pub open spec fn spec_extract_request(headers: HeadersView) -> Result<
    SignedRequestView,
    DenyReason,
> {
    if headers.username is Some && headers.certificate is Some && headers.signature is Some
        && headers.nonce is Some {
        let der = spec_decode(headers.certificate->0);
        let signature = spec_decode(headers.signature->0);
        if der is Some && signature is Some && x509_subject_key(der->0) is Some {
            Ok(
                SignedRequestView {
                    claimed_username: headers.username->0,
                    nonce: headers.nonce->0,
                    signature: signature->0,
                    certificate: CertificateView {
                        der: der->0,
                        public_key: x509_subject_key(der->0)->0,
                    },
                },
            )
        } else {
            Err(DenyReason::MalformedInput)
        }
    } else {
        Err(DenyReason::MissingHeader)
    }
}

/// The stages after the anchor is had, as a function of what the checks
/// found: trust in the certificate, then the identity, then the nonce, then
/// the signature. The first stage that fails gives the reason.
pub open spec fn spec_decide(
    username: Seq<char>,
    nonce: Seq<char>,
    now_ms: u64,
    evidence: EvidenceView,
) -> DecisionView {
    if !evidence.trusted {
        spec_deny(DenyReason::UntrustedCertificate)
    } else if !spec_identity_matches(evidence.identity, username) {
        spec_deny(DenyReason::IdentityMismatch)
    } else if spec_check(encode_utf8(nonce), now_ms) is Err {
        spec_deny(DenyReason::NonceInvalid)
    } else if !spec_accepts(evidence.signature) {
        spec_deny(DenyReason::BadSignature)
    } else {
        DecisionView::Allow { identity: username }
    }
}

/// What the cryptographic checks find on a decoded request under an anchor.
/// The signature is checked over the claimed username followed by the nonce
/// text, under the key of the request's own certificate.
pub open spec fn evidence_of(request: SignedRequestView, anchor: Seq<u8>) -> EvidenceView {
    EvidenceView {
        trusted: spec_verify_trust(request.certificate.der, anchor),
        identity: spec_extract_identity(request.certificate.der),
        signature: spec_verify(
            request.certificate.public_key,
            signed_payload(request.claimed_username, request.nonce),
            request.signature,
        ),
    }
}

/// The verdict on a decoded request under an anchor at a given time.
pub open spec fn spec_authorize(
    request: SignedRequestView,
    anchor: Seq<u8>,
    now_ms: u64,
) -> DecisionView {
    spec_decide(request.claimed_username, request.nonce, now_ms, evidence_of(request, anchor))
}

/// The stages from the third on: a failed read of the anchor, or an
/// anchor that does not decode, ends it without a verdict.
pub open spec fn spec_conclude(
    request: SignedRequestView,
    fetched: Option<Seq<u8>>,
    now_ms: u64,
) -> OutcomeView {
    match spec_receive(fetched) {
        Ok(anchor) => OutcomeView::Decided(spec_authorize(request, anchor, now_ms)),
        Err(error) => OutcomeView::Unavailable(error),
    }
}

/// The whole gate: a function of the headers, of what reading the anchor's
/// location gave, and of the time.
pub open spec fn spec_gate(
    headers: HeadersView,
    fetched: Option<Seq<u8>>,
    now_ms: u64,
) -> OutcomeView {
    match spec_extract_request(headers) {
        Ok(request) => spec_conclude(request, fetched, now_ms),
        Err(reason) => OutcomeView::Decided(spec_deny(reason)),
    }
}

/// Runs the stages that come before the trust anchor is read: header
/// extraction and decoding. On `Ok` the caller reads the anchor and goes on
/// with `conclude`; on `Err` the request is denied for the reason given and
/// the anchor is not needed.
pub fn extract_request(headers: &RequestHeaders) -> (extracted: Result<SignedRequest, DenyReason>)
    ensures
        match extracted {
            Ok(request) => spec_extract_request(headers@) == Ok::<SignedRequestView, DenyReason>(
                request@,
            ),
            Err(reason) => spec_extract_request(headers@) == Err::<SignedRequestView, DenyReason>(
                reason,
            ),
        },
{
    let (username, certificate_text, signature_text, nonce) = match (
        &headers.username,
        &headers.certificate,
        &headers.signature,
        &headers.nonce,
    ) {
        (Some(u), Some(c), Some(s), Some(n)) => (u, c, s, n),
        _ => {
            return Err(DenyReason::MissingHeader);
        },
    };
    let der = match decode(certificate_text.as_str()) {
        Ok(der) => der,
        Err(_) => {
            return Err(DenyReason::MalformedInput);
        },
    };
    let signature = match decode(signature_text.as_str()) {
        Ok(signature) => signature,
        Err(_) => {
            return Err(DenyReason::MalformedInput);
        },
    };
    let certificate = match ClientCertificate::from_der(der) {
        Ok(certificate) => certificate,
        Err(_) => {
            return Err(DenyReason::MalformedInput);
        },
    };
    Ok(
        SignedRequest {
            claimed_username: username.clone(),
            nonce: nonce.clone(),
            signature,
            certificate,
        },
    )
}

/// Judges a request from what the cryptographic checks found.
pub fn decide(username: &str, nonce: &str, now_ms: u64, evidence: &Evidence) -> (decision:
    AuthDecision)
    ensures
        decision@ == spec_decide(username@, nonce@, now_ms, evidence@),
{
    if !evidence.trusted {
        return AuthDecision::deny(DenyReason::UntrustedCertificate);
    }
    if !identity_matches(&evidence.identity, username) {
        return AuthDecision::deny(DenyReason::IdentityMismatch);
    }
    if check(nonce, now_ms).is_err() {
        return AuthDecision::deny(DenyReason::NonceInvalid);
    }
    if !accepts(evidence.signature) {
        return AuthDecision::deny(DenyReason::BadSignature);
    }
    AuthDecision::allow(username.to_owned())
}

/// Runs the stages that come after the trust anchor is had. A stage runs
/// only if all before it passed.
pub fn authorize(request: &SignedRequest, anchor: &TrustAnchor, now_ms: u64) -> (decision:
    AuthDecision)
    ensures
        decision@ == spec_authorize(request@, anchor@, now_ms),
{
    let username = request.claimed_username.as_str();
    let nonce = request.nonce.as_str();
    if !request.certificate.verify_trust(anchor) {
        return AuthDecision::deny(DenyReason::UntrustedCertificate);
    }
    let identity = request.certificate.extract_identity();
    if !identity_matches(&identity, username) {
        return AuthDecision::deny(DenyReason::IdentityMismatch);
    }
    if check(nonce, now_ms).is_err() {
        return AuthDecision::deny(DenyReason::NonceInvalid);
    }
    let payload = build_payload(username, nonce);
    let answer = verify(
        request.certificate.public_key(),
        payload.as_slice(),
        request.signature.as_slice(),
    );
    if !accepts(answer) {
        return AuthDecision::deny(DenyReason::BadSignature);
    }
    AuthDecision::allow(username.to_owned())
}

/// Ends authentication for an extracted request, given what reading the anchor's
/// location gave: `None` stands for a read that failed.
pub fn conclude(request: &SignedRequest, fetched: Option<Vec<u8>>, now_ms: u64) -> (outcome:
    GateOutcome)
    ensures
        outcome@ == spec_conclude(request@, option_view(fetched), now_ms),
{
    match TrustAnchor::receive(fetched) {
        Ok(anchor) => GateOutcome::Decided(authorize(request, &anchor, now_ms)),
        Err(error) => GateOutcome::Unavailable(error),
    }
}

/// The whole gate in one call.
pub fn evaluate(headers: &RequestHeaders, fetched: Option<Vec<u8>>, now_ms: u64) -> (outcome:
    GateOutcome)
    ensures
        outcome@ == spec_gate(headers@, option_view(fetched), now_ms),
{
    match extract_request(headers) {
        Ok(request) => conclude(&request, fetched, now_ms),
        Err(reason) => GateOutcome::Decided(AuthDecision::deny(reason)),
    }
}

} // verus!
