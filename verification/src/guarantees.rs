//! What authentication guarantees, stated over its model and proved.
//!
//! The executable gate returns exactly what `spec_gate` and its parts give,
//! so each statement here holds of every run of `extract_request`,
//! `authorize`, `conclude` and `evaluate`.

use vstd::prelude::*;
use vstd::utf8::*;
use crate::anchor::spec_receive;
use crate::certificate::{spec_extract_identity, spec_verify_trust};
use crate::trusted::x509_subject_key;
use crate::decision::{AnchorError, DecisionView, DecodeError, DenyReason};
use crate::encoding::spec_decode;
use crate::gate::{spec_authorize, spec_extract_request, spec_gate, OutcomeView};
use crate::nonce::{clock_delta, spec_check, spec_parse_millis};
use crate::request::{HeadersView, SignedRequestView};
use crate::signature::{signed_payload, spec_verify};

verus! {

/// Whether the signature of a decoded request verifies over its username
/// followed by its nonce, under the key of its certificate.
pub open spec fn signature_valid(request: SignedRequestView) -> bool {
    spec_verify(
        request.certificate.public_key,
        signed_payload(request.claimed_username, request.nonce),
        request.signature,
    ) == Ok::<bool, DecodeError>(true)
}

/// Whether the certificate of a decoded request carries the claimed
/// username as its identity.
pub open spec fn identity_bound(request: SignedRequestView) -> bool {
    spec_extract_identity(request.certificate.der) == Ok::<Seq<char>, DecodeError>(
        request.claimed_username,
    )
}

/// Whether the nonce of a decoded request is fresh at a given time.
pub open spec fn nonce_fresh(request: SignedRequestView, now_ms: u64) -> bool {
    spec_check(encode_utf8(request.nonce), now_ms) is Ok
}

/// A request is allowed, under the username it claims, whenever its headers
/// decode, the anchor is had, the certificate is issued by the anchor and
/// carries the claimed username, the nonce is fresh, and the signature
/// verifies over username and nonce.
pub proof fn valid_request_is_allowed(
    headers: HeadersView,
    fetched: Option<Seq<u8>>,
    now_ms: u64,
    request: SignedRequestView,
    anchor: Seq<u8>,
)
    requires
        spec_extract_request(headers) == Ok::<SignedRequestView, DenyReason>(request),
        spec_receive(fetched) == Ok::<Seq<u8>, AnchorError>(anchor),
        spec_verify_trust(request.certificate.der, anchor),
        identity_bound(request),
        nonce_fresh(request, now_ms),
        signature_valid(request),
    ensures
        spec_authorize(request, anchor, now_ms) == (DecisionView::Allow {
            identity: request.claimed_username,
        }),
        spec_gate(headers, fetched, now_ms) == OutcomeView::Decided(
            DecisionView::Allow { identity: request.claimed_username },
        ),
{
}

/// A request whose signature does not verify is denied with 401 for a bad
/// signature when everything else about it is valid. This holds of every
/// signature that the verifier does not accept, whether it finds it wrong
/// or cannot judge it.
pub proof fn bad_signature_is_denied(
    headers: HeadersView,
    fetched: Option<Seq<u8>>,
    now_ms: u64,
    request: SignedRequestView,
    anchor: Seq<u8>,
)
    requires
        spec_extract_request(headers) == Ok::<SignedRequestView, DenyReason>(request),
        spec_receive(fetched) == Ok::<Seq<u8>, AnchorError>(anchor),
        spec_verify_trust(request.certificate.der, anchor),
        identity_bound(request),
        nonce_fresh(request, now_ms),
        !signature_valid(request),
    ensures
        spec_gate(headers, fetched, now_ms) == OutcomeView::Decided(
            DecisionView::Deny { status: 401, reason: DenyReason::BadSignature },
        ),
{
}

/// The freshness window is closed at both ends: a request that is valid in
/// all else is allowed when its nonce is exactly 60,000 ms from now, before
/// or after, and denied with 401 for its nonce at 60,001 ms.
pub proof fn window_boundary(
    headers: HeadersView,
    fetched: Option<Seq<u8>>,
    now_ms: u64,
    request: SignedRequestView,
    anchor: Seq<u8>,
    nonce_ms: u64,
)
    requires
        spec_extract_request(headers) == Ok::<SignedRequestView, DenyReason>(request),
        spec_receive(fetched) == Ok::<Seq<u8>, AnchorError>(anchor),
        spec_verify_trust(request.certificate.der, anchor),
        identity_bound(request),
        spec_parse_millis(encode_utf8(request.nonce)) == Some(nonce_ms),
        signature_valid(request),
    ensures
        clock_delta(now_ms, nonce_ms) <= 60_000 ==> spec_gate(headers, fetched, now_ms)
            == OutcomeView::Decided(DecisionView::Allow { identity: request.claimed_username }),
        clock_delta(now_ms, nonce_ms) >= 60_001 ==> spec_gate(headers, fetched, now_ms)
            == OutcomeView::Decided(
            DecisionView::Deny { status: 401, reason: DenyReason::NonceInvalid },
        ),
{
}

/// A request whose certificate names another identity than the claimed
/// username, or none, is denied with 401 for the mismatch once the
/// certificate is trusted, whatever its nonce and its signature are.
pub proof fn identity_mismatch_is_denied(
    headers: HeadersView,
    fetched: Option<Seq<u8>>,
    now_ms: u64,
    request: SignedRequestView,
    anchor: Seq<u8>,
)
    requires
        spec_extract_request(headers) == Ok::<SignedRequestView, DenyReason>(request),
        spec_receive(fetched) == Ok::<Seq<u8>, AnchorError>(anchor),
        spec_verify_trust(request.certificate.der, anchor),
        !identity_bound(request),
    ensures
        spec_gate(headers, fetched, now_ms) == OutcomeView::Decided(
            DecisionView::Deny { status: 401, reason: DenyReason::IdentityMismatch },
        ),
{
}

/// A request that lacks any of the four headers is denied with 400 for a
/// missing header. Nothing else is looked at: not the other headers, not the
/// anchor, not the time.
pub proof fn missing_header_is_denied(headers: HeadersView, fetched: Option<Seq<u8>>, now_ms: u64)
    requires
        headers.username is None || headers.certificate is None || headers.signature is None
            || headers.nonce is None,
    ensures
        spec_extract_request(headers) == Err::<SignedRequestView, DenyReason>(
            DenyReason::MissingHeader,
        ),
        spec_gate(headers, fetched, now_ms) == OutcomeView::Decided(
            DecisionView::Deny { status: 400, reason: DenyReason::MissingHeader },
        ),
{
}

/// A request with all four headers whose certificate header is not base64,
/// or whose signature header is not, or whose certificate bytes are no
/// certificate with a readable key, is denied with 400 as malformed,
/// whatever the anchor and the time.
pub proof fn malformed_input_is_denied(headers: HeadersView, fetched: Option<Seq<u8>>, now_ms: u64)
    requires
        headers.username is Some,
        headers.certificate is Some,
        headers.signature is Some,
        headers.nonce is Some,
        spec_decode(headers.certificate->0) is None || spec_decode(headers.signature->0) is None
            || x509_subject_key(spec_decode(headers.certificate->0)->0) is None,
    ensures
        spec_extract_request(headers) == Err::<SignedRequestView, DenyReason>(
            DenyReason::MalformedInput,
        ),
        spec_gate(headers, fetched, now_ms) == OutcomeView::Decided(
            DecisionView::Deny { status: 400, reason: DenyReason::MalformedInput },
        ),
{
}

/// No record of nonces is kept: a request that was allowed at one time is
/// allowed again, with the same identity, at every other time at which its
/// nonce is fresh.
pub proof fn replay_is_allowed(
    headers: HeadersView,
    fetched: Option<Seq<u8>>,
    first_ms: u64,
    second_ms: u64,
)
    requires
        spec_gate(headers, fetched, first_ms) is Decided,
        spec_gate(headers, fetched, first_ms)->Decided_0 is Allow,
        headers.nonce is Some,
        spec_check(encode_utf8(headers.nonce->0), second_ms) is Ok,
    ensures
        spec_gate(headers, fetched, second_ms) == spec_gate(headers, fetched, first_ms),
{
}

/// A request is allowed only under the username it claims, and only if it
/// passed every check: its headers decoded, the anchor was had, the
/// certificate is issued by the anchor and carries the claimed username,
/// the nonce is a count of milliseconds within 60,000 ms of now, and the
/// signature verifies over username and nonce under the certificate's key.
pub proof fn allowed_request_passed_every_check(
    headers: HeadersView,
    fetched: Option<Seq<u8>>,
    now_ms: u64,
    identity: Seq<char>,
)
    requires
        spec_gate(headers, fetched, now_ms) == OutcomeView::Decided(
            DecisionView::Allow { identity },
        ),
    ensures
        spec_extract_request(headers) is Ok,
        spec_receive(fetched) is Ok,
        ({
            let request = spec_extract_request(headers)->Ok_0;
            let anchor = spec_receive(fetched)->Ok_0;
            &&& headers.username == Some(identity)
            &&& request.claimed_username == identity
            &&& spec_verify_trust(request.certificate.der, anchor)
            &&& identity_bound(request)
            &&& spec_parse_millis(encode_utf8(request.nonce)) is Some
            &&& clock_delta(now_ms, spec_parse_millis(encode_utf8(request.nonce))->0) <= 60_000
            &&& signature_valid(request)
        }),
{
}

/// Without a trust anchor no request that got as far as needing one is
/// judged: the outcome is the service's fault, not a denial.
pub proof fn no_anchor_no_decision(headers: HeadersView, fetched: Option<Seq<u8>>, now_ms: u64)
    requires
        spec_extract_request(headers) is Ok,
        spec_receive(fetched) is Err,
    ensures
        spec_gate(headers, fetched, now_ms) == OutcomeView::Unavailable(
            spec_receive(fetched)->Err_0,
        ),
{
}

/// Every decision is consistent, and every denial carries the status of
/// its reason: 400 when request metadata is missing or malformed, 401 for
/// every failure of authentication.
pub proof fn denial_status(headers: HeadersView, fetched: Option<Seq<u8>>, now_ms: u64)
    ensures
        spec_gate(headers, fetched, now_ms) matches OutcomeView::Decided(decision)
            ==> decision.well_formed(),
        spec_gate(headers, fetched, now_ms) matches OutcomeView::Decided(
            DecisionView::Deny { status, reason },
        ) ==> {
            &&& status == 400 || status == 401
            &&& status == 400 <==> (reason == DenyReason::MissingHeader || reason
                == DenyReason::MalformedInput)
        },
{
}

} // verus!
