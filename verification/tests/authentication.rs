use openssl::asn1::Asn1Time;
use openssl::bn::BigNum;
use openssl::hash::MessageDigest;
use openssl::nid::Nid;
use openssl::pkey::{PKey, Private};
use openssl::rsa::Rsa;
use openssl::sign::Signer;
use openssl::x509::{X509NameBuilder, X509};
use social_media_backend::anchor::TrustAnchor;
use social_media_backend::certificate::{identity_matches, verify_cert, ClientCertificate};
use social_media_backend::decision::{AnchorError, AuthDecision, DecodeError, DenyReason};
use social_media_backend::encoding::decode;
use social_media_backend::gate::{
    authorize, conclude, decide, evaluate, extract_request, Evidence, GateOutcome,
};
use social_media_backend::request::RequestHeaders;
use social_media_backend::router::{dispatch, Disposition, Route};
use social_media_backend::signature::{accepts, build_payload, verify};

const NONCE: &str = "1718000000000";
const NONCE_MS: u64 = 1_718_000_000_000;

fn new_key() -> PKey<Private> {
    PKey::from_rsa(Rsa::generate(2048).unwrap()).unwrap()
}

fn anchor_der(authority: &PKey<Private>) -> Vec<u8> {
    authority.rsa().unwrap().public_key_to_der().unwrap()
}

fn anchor_transport(authority: &PKey<Private>) -> Vec<u8> {
    openssl::base64::encode_block(&anchor_der(authority)).into_bytes()
}

fn certificate(authority: &PKey<Private>, client: &PKey<Private>, account: Option<&str>) -> Vec<u8> {
    let mut subject = X509NameBuilder::new().unwrap();
    subject.append_entry_by_nid(Nid::COMMONNAME, "client").unwrap();
    if let Some(account) = account {
        subject.append_entry_by_nid(Nid::ACCOUNT, account).unwrap();
    }
    let subject = subject.build();
    let mut issuer = X509NameBuilder::new().unwrap();
    issuer.append_entry_by_nid(Nid::COMMONNAME, "account provisioning").unwrap();
    let issuer = issuer.build();
    let mut builder = X509::builder().unwrap();
    builder.set_version(2).unwrap();
    let serial = BigNum::from_u32(7).unwrap().to_asn1_integer().unwrap();
    builder.set_serial_number(&serial).unwrap();
    builder.set_subject_name(&subject).unwrap();
    builder.set_issuer_name(&issuer).unwrap();
    builder.set_pubkey(client).unwrap();
    builder.set_not_before(&Asn1Time::days_from_now(0).unwrap()).unwrap();
    builder.set_not_after(&Asn1Time::days_from_now(30).unwrap()).unwrap();
    builder.sign(authority, MessageDigest::sha256()).unwrap();
    builder.build().to_der().unwrap()
}

fn sign(client: &PKey<Private>, payload: &[u8]) -> Vec<u8> {
    let mut signer = Signer::new(MessageDigest::sha256(), client).unwrap();
    signer.update(payload).unwrap();
    signer.sign_to_vec().unwrap()
}

fn headers(username: &str, certificate: &[u8], signature: &[u8], nonce: &str) -> RequestHeaders {
    RequestHeaders {
        username: Some(username.to_string()),
        certificate: Some(openssl::base64::encode_block(certificate)),
        signature: Some(openssl::base64::encode_block(signature)),
        nonce: Some(nonce.to_string()),
    }
}

struct Scene {
    authority: PKey<Private>,
    client: PKey<Private>,
    certificate: Vec<u8>,
    signature: Vec<u8>,
}

fn scene(account: Option<&str>, username: &str, nonce: &str) -> Scene {
    let authority = new_key();
    let client = new_key();
    let certificate = certificate(&authority, &client, account);
    let mut payload = username.as_bytes().to_vec();
    payload.extend_from_slice(nonce.as_bytes());
    let signature = sign(&client, &payload);
    Scene { authority, client, certificate, signature }
}

fn alice() -> Scene {
    scene(Some("alice"), "alice", NONCE)
}

fn allowed(identity: &str) -> AuthDecision {
    AuthDecision::Allow { identity: identity.to_string() }
}

fn denied(status: u16, reason: DenyReason) -> AuthDecision {
    AuthDecision::Deny { status, reason }
}

fn decision(outcome: GateOutcome) -> AuthDecision {
    match outcome {
        GateOutcome::Decided(decision) => decision,
        GateOutcome::Unavailable(error) => panic!("anchor unavailable, {:?}", error),
    }
}

fn run(s: &Scene, h: &RequestHeaders, now_ms: u64) -> AuthDecision {
    decision(evaluate(h, Some(anchor_transport(&s.authority)), now_ms))
}

#[test]
fn valid_request_is_allowed() {
    let s = alice();
    let h = headers("alice", &s.certificate, &s.signature, NONCE);
    assert_eq!(run(&s, &h, NONCE_MS), allowed("alice"));
    assert_eq!(run(&s, &h, NONCE_MS + 59_999), allowed("alice"));
    assert_eq!(run(&s, &h, NONCE_MS - 12_345), allowed("alice"));
}

#[test]
fn end_to_end_alice() {
    let s = alice();
    let h = headers("alice", &s.certificate, &s.signature, "1718000000000");
    let request = extract_request(&h).unwrap();
    assert_eq!(request.claimed_username, "alice");
    assert_eq!(request.nonce, "1718000000000");
    assert_eq!(request.signature, s.signature);
    assert_eq!(request.certificate.der(), &s.certificate[..]);
    assert_eq!(build_payload("alice", "1718000000000"), b"alice1718000000000".to_vec());
    let outcome = conclude(&request, Some(anchor_transport(&s.authority)), 1_718_000_030_000);
    match dispatch(outcome, "/get-info") {
        Disposition::Forward { route, identity } => {
            assert_eq!(route, Route::FetchInfo);
            assert_eq!(identity, "alice");
        }
        other => panic!("unexpected {:?}", other),
    }
    let outcome = conclude(&request, Some(anchor_transport(&s.authority)), 1_717_999_970_000);
    assert_eq!(decision(outcome), allowed("alice"));
}

#[test]
fn every_flipped_signature_bit_is_a_bad_signature() {
    let s = alice();
    let h = headers("alice", &s.certificate, &s.signature, NONCE);
    let anchor = TrustAnchor::decode(anchor_transport(&s.authority)).unwrap();
    let mut request = extract_request(&h).unwrap();
    assert_eq!(authorize(&request, &anchor, NONCE_MS), allowed("alice"));
    for byte in 0..s.signature.len() {
        for bit in 0..8 {
            request.signature[byte] ^= 1 << bit;
            assert_eq!(
                authorize(&request, &anchor, NONCE_MS),
                denied(401, DenyReason::BadSignature),
                "byte {} bit {}",
                byte,
                bit
            );
            request.signature[byte] ^= 1 << bit;
        }
    }
    assert_eq!(authorize(&request, &anchor, NONCE_MS), allowed("alice"));
}

#[test]
fn flipped_signature_bit_through_the_headers() {
    let s = alice();
    let mut signature = s.signature.clone();
    signature[10] ^= 0x04;
    let h = headers("alice", &s.certificate, &signature, NONCE);
    assert_eq!(run(&s, &h, NONCE_MS), denied(401, DenyReason::BadSignature));
}

#[test]
fn signature_over_other_payload_is_bad() {
    let s = alice();
    let other = sign(&s.client, b"alice 1718000000000");
    let h = headers("alice", &s.certificate, &other, NONCE);
    assert_eq!(run(&s, &h, NONCE_MS), denied(401, DenyReason::BadSignature));
    let truncated = &s.signature[..s.signature.len() - 1];
    let h = headers("alice", &s.certificate, truncated, NONCE);
    assert_eq!(run(&s, &h, NONCE_MS), denied(401, DenyReason::BadSignature));
    let h = headers("alice", &s.certificate, b"", NONCE);
    assert_eq!(run(&s, &h, NONCE_MS), denied(401, DenyReason::BadSignature));
}

#[test]
fn signature_by_another_key_is_bad() {
    let s = alice();
    let stranger = new_key();
    let forged = sign(&stranger, b"alice1718000000000");
    let h = headers("alice", &s.certificate, &forged, NONCE);
    assert_eq!(run(&s, &h, NONCE_MS), denied(401, DenyReason::BadSignature));
}

#[test]
fn nonce_window_boundary() {
    let s = alice();
    let h = headers("alice", &s.certificate, &s.signature, NONCE);
    assert_eq!(run(&s, &h, NONCE_MS + 60_000), allowed("alice"));
    assert_eq!(run(&s, &h, NONCE_MS - 60_000), allowed("alice"));
    assert_eq!(run(&s, &h, NONCE_MS + 60_001), denied(401, DenyReason::NonceInvalid));
    assert_eq!(run(&s, &h, NONCE_MS - 60_001), denied(401, DenyReason::NonceInvalid));
    assert_eq!(run(&s, &h, 0), denied(401, DenyReason::NonceInvalid));
    assert_eq!(run(&s, &h, u64::MAX), denied(401, DenyReason::NonceInvalid));
}

#[test]
fn nonce_that_is_no_number_is_invalid() {
    let s = alice();
    for nonce in ["soon", "", "-5", "17180000000000000000000000", "1718000000000 ", "1.5"] {
        let mut payload = b"alice".to_vec();
        payload.extend_from_slice(nonce.as_bytes());
        let signature = sign(&s.client, &payload);
        let h = headers("alice", &s.certificate, &signature, nonce);
        assert_eq!(run(&s, &h, NONCE_MS), denied(401, DenyReason::NonceInvalid), "{:?}", nonce);
    }
}

#[test]
fn signed_nonce_text_is_what_counts() {
    let s = scene(Some("alice"), "alice", "+1718000000000");
    let h = headers("alice", &s.certificate, &s.signature, "+1718000000000");
    assert_eq!(run(&s, &h, NONCE_MS), allowed("alice"));
    let h = headers("alice", &s.certificate, &s.signature, "1718000000000");
    assert_eq!(run(&s, &h, NONCE_MS), denied(401, DenyReason::BadSignature));
}

#[test]
fn identity_differing_by_one_character_is_a_mismatch() {
    let s = alice();
    for username in ["alicf", "Alice", "alice ", "alic", "alicee", "", "bob"] {
        let mut payload = username.as_bytes().to_vec();
        payload.extend_from_slice(NONCE.as_bytes());
        let signature = sign(&s.client, &payload);
        let h = headers(username, &s.certificate, &signature, NONCE);
        assert_eq!(
            run(&s, &h, NONCE_MS),
            denied(401, DenyReason::IdentityMismatch),
            "{:?}",
            username
        );
    }
}

#[test]
fn certificate_without_identity_is_a_mismatch() {
    let s = scene(None, "alice", NONCE);
    let h = headers("alice", &s.certificate, &s.signature, NONCE);
    assert_eq!(run(&s, &h, NONCE_MS), denied(401, DenyReason::IdentityMismatch));
    let certificate = ClientCertificate::from_der(s.certificate.clone()).unwrap();
    assert_eq!(certificate.extract_identity(), Err(DecodeError));
}

#[test]
fn identity_is_compared_in_full() {
    let s = scene(Some("alice\0mallory"), "alice", NONCE);
    let h = headers("alice", &s.certificate, &s.signature, NONCE);
    assert_eq!(run(&s, &h, NONCE_MS), denied(401, DenyReason::IdentityMismatch));
    let certificate = ClientCertificate::from_der(s.certificate.clone()).unwrap();
    assert_eq!(certificate.extract_identity(), Ok("alice\0mallory".to_string()));
}

#[test]
fn identity_mismatch_comes_before_nonce_and_signature() {
    let s = alice();
    let h = headers("bob", &s.certificate, b"no signature", "never");
    assert_eq!(run(&s, &h, NONCE_MS), denied(401, DenyReason::IdentityMismatch));
}

#[test]
fn any_missing_header_is_denied_first() {
    let s = alice();
    let full = headers("alice", &s.certificate, &s.signature, NONCE);
    let missing = denied(400, DenyReason::MissingHeader);
    let mut h = full.clone();
    h.username = None;
    assert_eq!(run(&s, &h, NONCE_MS), missing);
    let mut h = full.clone();
    h.certificate = None;
    assert_eq!(run(&s, &h, NONCE_MS), missing);
    let mut h = full.clone();
    h.signature = None;
    assert_eq!(run(&s, &h, NONCE_MS), missing);
    let mut h = full.clone();
    h.nonce = None;
    assert_eq!(run(&s, &h, NONCE_MS), missing);
    let none = RequestHeaders { username: None, certificate: None, signature: None, nonce: None };
    assert_eq!(run(&s, &none, NONCE_MS), missing);
}

#[test]
fn missing_header_is_found_before_decoding_and_before_the_anchor() {
    let h = RequestHeaders {
        username: Some("alice".to_string()),
        certificate: Some("%%% not base64 %%%".to_string()),
        signature: Some("%%%".to_string()),
        nonce: None,
    };
    assert_eq!(extract_request(&h).unwrap_err(), DenyReason::MissingHeader);
    assert_eq!(decision(evaluate(&h, None, 0)), denied(400, DenyReason::MissingHeader));
    let garbage = Some(vec![0xff, 0xfe]);
    assert_eq!(decision(evaluate(&h, garbage, 0)), denied(400, DenyReason::MissingHeader));
}

#[test]
fn malformed_certificate_text_is_denied() {
    let s = alice();
    let mut h = headers("alice", &s.certificate, &s.signature, NONCE);
    h.certificate = Some("this is not base64!".to_string());
    assert_eq!(run(&s, &h, NONCE_MS), denied(400, DenyReason::MalformedInput));
    assert_eq!(extract_request(&h).unwrap_err(), DenyReason::MalformedInput);
    assert_eq!(decision(evaluate(&h, None, NONCE_MS)), denied(400, DenyReason::MalformedInput));
}

#[test]
fn bytes_that_are_no_certificate_are_denied() {
    let s = alice();
    let h = headers("alice", b"certainly not a certificate", &s.signature, NONCE);
    assert_eq!(run(&s, &h, NONCE_MS), denied(400, DenyReason::MalformedInput));
    let h = headers("alice", b"", &s.signature, NONCE);
    assert_eq!(run(&s, &h, NONCE_MS), denied(400, DenyReason::MalformedInput));
    let cut = &s.certificate[..s.certificate.len() / 2];
    let h = headers("alice", cut, &s.signature, NONCE);
    assert_eq!(run(&s, &h, NONCE_MS), denied(400, DenyReason::MalformedInput));
}

#[test]
fn malformed_signature_text_is_denied() {
    let s = alice();
    let mut h = headers("alice", &s.certificate, &s.signature, NONCE);
    h.signature = Some("***".to_string());
    assert_eq!(run(&s, &h, NONCE_MS), denied(400, DenyReason::MalformedInput));
}

#[test]
fn replayed_request_is_allowed_again() {
    let s = alice();
    let h = headers("alice", &s.certificate, &s.signature, NONCE);
    let first = run(&s, &h, NONCE_MS + 1_000);
    let second = run(&s, &h, NONCE_MS + 1_000);
    let third = run(&s, &h, NONCE_MS + 45_000);
    assert_eq!(first, allowed("alice"));
    assert_eq!(second, allowed("alice"));
    assert_eq!(third, allowed("alice"));
    assert_eq!(run(&s, &h, NONCE_MS + 61_000), denied(401, DenyReason::NonceInvalid));
}

#[test]
fn certificate_of_another_authority_is_untrusted() {
    let s = alice();
    let other = new_key();
    let h = headers("alice", &s.certificate, &s.signature, NONCE);
    let outcome = evaluate(&h, Some(anchor_transport(&other)), NONCE_MS);
    assert_eq!(decision(outcome), denied(401, DenyReason::UntrustedCertificate));
}

#[test]
fn self_signed_certificate_is_untrusted() {
    let s = alice();
    let own = certificate(&s.client, &s.client, Some("alice"));
    let h = headers("alice", &own, &s.signature, NONCE);
    assert_eq!(run(&s, &h, NONCE_MS), denied(401, DenyReason::UntrustedCertificate));
}

#[test]
fn untrusted_comes_before_every_later_check() {
    let s = alice();
    let other = new_key();
    let h = headers("bob", &s.certificate, b"x", "never");
    let outcome = evaluate(&h, Some(anchor_transport(&other)), NONCE_MS);
    assert_eq!(decision(outcome), denied(401, DenyReason::UntrustedCertificate));
}

#[test]
fn tampered_certificate_is_untrusted() {
    let s = alice();
    let mut tampered = s.certificate.clone();
    let at = tampered.windows(5).position(|w| w == b"alice").unwrap();
    tampered[at] = b'b';
    let h = headers("blice", &tampered, &s.signature, NONCE);
    assert_eq!(run(&s, &h, NONCE_MS), denied(401, DenyReason::UntrustedCertificate));
}

#[test]
fn missing_anchor_is_no_verdict() {
    let s = alice();
    let h = headers("alice", &s.certificate, &s.signature, NONCE);
    match evaluate(&h, None, NONCE_MS) {
        GateOutcome::Unavailable(error) => assert_eq!(error, AnchorError::Fetch),
        other => panic!("unexpected {:?}", other),
    }
    for body in [b"not base64 at all!".to_vec(), vec![0xff, 0xfe, 0xfd], b"Zm9v".to_vec(), vec![]] {
        match evaluate(&h, Some(body), NONCE_MS) {
            GateOutcome::Unavailable(error) => assert_eq!(error, AnchorError::Decode),
            other => panic!("unexpected {:?}", other),
        }
    }
}

#[test]
fn anchor_is_decoded_from_its_transport() {
    let authority = new_key();
    let der = anchor_der(&authority);
    let anchor = TrustAnchor::decode(anchor_transport(&authority)).unwrap();
    assert_eq!(anchor.key(), &der[..]);
    let mut padded = b"  ".to_vec();
    padded.extend_from_slice(&anchor_transport(&authority));
    padded.push(b'\n');
    assert_eq!(TrustAnchor::decode(padded).unwrap().key(), &der[..]);
    assert_eq!(TrustAnchor::from_der(der.clone()).unwrap().key(), &der[..]);
    assert_eq!(TrustAnchor::from_der(b"junk".to_vec()).unwrap_err(), AnchorError::Decode);
    assert_eq!(TrustAnchor::receive(None).unwrap_err(), AnchorError::Fetch);
    assert_eq!(TrustAnchor::receive(Some(b"junk".to_vec())).unwrap_err(), AnchorError::Decode);
    assert_eq!(TrustAnchor::receive(Some(anchor_transport(&authority))).unwrap().key(), &der[..]);
}

#[test]
fn anchor_must_be_an_rsa_key() {
    let group = openssl::ec::EcGroup::from_curve_name(Nid::X9_62_PRIME256V1).unwrap();
    let curve_key = PKey::from_ec_key(openssl::ec::EcKey::generate(&group).unwrap()).unwrap();
    let der = curve_key.public_key_to_der().unwrap();
    assert_eq!(TrustAnchor::from_der(der).unwrap_err(), AnchorError::Decode);
}

#[test]
fn base64_is_decoded() {
    assert_eq!(decode("Zm9v"), Ok(b"foo".to_vec()));
    assert_eq!(decode("Zm9vYg=="), Ok(b"foob".to_vec()));
    assert_eq!(decode(" Zm9vYmFy\n"), Ok(b"foobar".to_vec()));
    assert_eq!(decode(""), Ok(vec![]));
    assert_eq!(decode("Zm9v!"), Err(DecodeError));
    assert_eq!(decode("Z"), Err(DecodeError));
}

#[test]
fn certificate_yields_its_key_and_identity() {
    let s = alice();
    let certificate = ClientCertificate::from_der(s.certificate.clone()).unwrap();
    assert_eq!(certificate.der(), &s.certificate[..]);
    assert_eq!(certificate.public_key(), &s.client.public_key_to_der().unwrap()[..]);
    assert_eq!(certificate.extract_identity(), Ok("alice".to_string()));
    assert!(ClientCertificate::from_der(b"junk".to_vec()).is_err());
    assert!(ClientCertificate::from_der(vec![]).is_err());
}

#[test]
fn trust_is_the_issuer_signature() {
    let s = alice();
    let certificate = ClientCertificate::from_der(s.certificate.clone()).unwrap();
    let anchor = TrustAnchor::from_der(anchor_der(&s.authority)).unwrap();
    let other = TrustAnchor::from_der(anchor_der(&new_key())).unwrap();
    let own = TrustAnchor::from_der(anchor_der(&s.client)).unwrap();
    assert!(certificate.verify_trust(&anchor));
    assert!(!certificate.verify_trust(&other));
    assert!(!certificate.verify_trust(&own));
}

#[test]
fn certificate_is_valid_for_its_own_identity_only() {
    let s = alice();
    let certificate = ClientCertificate::from_der(s.certificate.clone()).unwrap();
    let anchor = TrustAnchor::from_der(anchor_der(&s.authority)).unwrap();
    let other = TrustAnchor::from_der(anchor_der(&new_key())).unwrap();
    assert!(verify_cert(&certificate, "alice", &anchor));
    assert!(!verify_cert(&certificate, "alicia", &anchor));
    assert!(!verify_cert(&certificate, "", &anchor));
    assert!(!verify_cert(&certificate, "alice", &other));
}

#[test]
fn identity_match_is_exact() {
    assert!(identity_matches(&Ok("alice".to_string()), "alice"));
    assert!(!identity_matches(&Ok("alice".to_string()), "Alice"));
    assert!(!identity_matches(&Ok("alice".to_string()), "alice\n"));
    assert!(!identity_matches(&Ok("".to_string()), "alice"));
    assert!(identity_matches(&Ok("".to_string()), ""));
    assert!(identity_matches(&Ok("zo\u{eb}".to_string()), "zo\u{eb}"));
    assert!(!identity_matches(&Ok("zo\u{eb}".to_string()), "zoe"));
    assert!(!identity_matches(&Err(DecodeError), "alice"));
    assert!(!identity_matches(&Err(DecodeError), ""));
}

#[test]
fn signature_verifier_tells_wrong_from_malformed() {
    let client = new_key();
    let key = client.public_key_to_der().unwrap();
    let signature = sign(&client, b"alice1718000000000");
    assert_eq!(verify(&key, b"alice1718000000000", &signature), Ok(true));
    assert_eq!(verify(&key, b"alice1718000000001", &signature), Ok(false));
    let mut wrong = signature.clone();
    wrong[0] ^= 0x80;
    assert_eq!(verify(&key, b"alice1718000000000", &wrong), Ok(false));
    assert_eq!(verify(b"no key", b"alice1718000000000", &signature), Err(DecodeError));
    assert!(accepts(Ok(true)));
    assert!(!accepts(Ok(false)));
    assert!(!accepts(Err(DecodeError)));
}

#[test]
fn payload_is_username_then_nonce() {
    assert_eq!(build_payload("alice", "1718000000000"), b"alice1718000000000".to_vec());
    assert_eq!(build_payload("", ""), Vec::<u8>::new());
    assert_eq!(build_payload("a", ""), b"a".to_vec());
    assert_eq!(build_payload("", "1"), b"1".to_vec());
    assert_eq!(build_payload("zo\u{eb}", "7"), vec![b'z', b'o', 0xc3, 0xab, b'7']);
}

#[test]
fn decision_follows_the_order_of_the_stages() {
    let good = Evidence { trusted: true, identity: Ok("alice".to_string()), signature: Ok(true) };
    assert_eq!(decide("alice", NONCE, NONCE_MS, &good), allowed("alice"));
    let untrusted =
        Evidence { trusted: false, identity: Ok("bob".to_string()), signature: Ok(false) };
    assert_eq!(
        decide("alice", "late", NONCE_MS, &untrusted),
        denied(401, DenyReason::UntrustedCertificate)
    );
    let other = Evidence { trusted: true, identity: Ok("bob".to_string()), signature: Ok(false) };
    assert_eq!(decide("alice", "late", NONCE_MS, &other), denied(401, DenyReason::IdentityMismatch));
    let unnamed = Evidence { trusted: true, identity: Err(DecodeError), signature: Ok(true) };
    assert_eq!(decide("alice", NONCE, NONCE_MS, &unnamed), denied(401, DenyReason::IdentityMismatch));
    let unsigned = Evidence { trusted: true, identity: Ok("alice".to_string()), signature: Ok(false) };
    assert_eq!(decide("alice", "late", NONCE_MS, &unsigned), denied(401, DenyReason::NonceInvalid));
    assert_eq!(
        decide("alice", NONCE, NONCE_MS + 60_001, &unsigned),
        denied(401, DenyReason::NonceInvalid)
    );
    assert_eq!(decide("alice", NONCE, NONCE_MS, &unsigned), denied(401, DenyReason::BadSignature));
    let unjudged =
        Evidence { trusted: true, identity: Ok("alice".to_string()), signature: Err(DecodeError) };
    assert_eq!(decide("alice", NONCE, NONCE_MS, &unjudged), denied(401, DenyReason::BadSignature));
}

#[test]
fn denials_carry_the_status_of_their_reason() {
    assert_eq!(DenyReason::MissingHeader.status(), 400);
    assert_eq!(DenyReason::MalformedInput.status(), 400);
    assert_eq!(DenyReason::UntrustedCertificate.status(), 401);
    assert_eq!(DenyReason::IdentityMismatch.status(), 401);
    assert_eq!(DenyReason::NonceInvalid.status(), 401);
    assert_eq!(DenyReason::BadSignature.status(), 401);
    assert_eq!(AuthDecision::deny(DenyReason::MissingHeader), denied(400, DenyReason::MissingHeader));
    assert_eq!(AuthDecision::deny(DenyReason::BadSignature), denied(401, DenyReason::BadSignature));
    assert_eq!(AuthDecision::allow("alice".to_string()), allowed("alice"));
    assert!(allowed("alice").is_allowed());
    assert!(!denied(401, DenyReason::BadSignature).is_allowed());
}
