use arcrelay_network::discovery::{DeviceMetadata, PeerAdvertisement};
use arcrelay_network::error::NetworkError;
use arcrelay_network::identity::{DeviceIdentity, SigningDomains};
use arcrelay_network::peer::{
    DeviceId, DevicePublicKey, DeviceSignature, PeerRecord, TrustState,
};
use arcrelay_network::runtime::protocol::{
    accept_session, accepted_with, admit_session, append_message, authenticate_inbound,
    authenticate_outbound, authenticate_outbound_paired, authenticate_outbound_probe,
    begin_authentication,
    check_advertised_certificate, check_remote_auth, code_of_digest, conclude_session,
    finish_authentication, hello_with_nonce, is_paired_session, local_hello,
    negotiate_protocol_minor, observed_certificate_sha256, require_paired, session_transcript,
    validate_hello, validate_process_instance_id, verification_code, Direction, IdentityClaims,
    SessionAccepted, SessionHello,
};
use arcrelay_network::runtime::session::{SessionKind, SessionKindNumbers, SessionPeer};
use arcrelay_network::wire::WireProtocol;

fn wire() -> WireProtocol {
    WireProtocol {
        major: 1,
        min_minor: 0,
        max_minor: 2,
        discovery_protocol: "1".to_string(),
        service_type: "_arcrelay._udp.local.".to_string(),
        kinds: SessionKindNumbers {
            pairing: 1,
            control: 2,
            realtime_input: 3,
            file_transfer: 4,
            print: 5,
            discovery_probe: 6,
        },
    }
}

fn domains() -> SigningDomains {
    SigningDomains {
        endpoint_binding: b"e\0".to_vec(),
        session_authentication: b"s\0".to_vec(),
        feature_payload: b"f\0".to_vec(),
    }
}

fn identity(name: &str, seed: u8) -> DeviceIdentity {
    DeviceIdentity::new(
        [seed; 32],
        DeviceId::from_text(name.to_string()),
        vec![seed; 100],
        domains(),
    )
}

fn metadata(name: &str) -> DeviceMetadata {
    DeviceMetadata {
        name: name.to_string(),
        platform: "test".to_string(),
        model: "test".to_string(),
    }
}

fn claims(hello: &SessionHello) -> IdentityClaims {
    IdentityClaims {
        device_id: Ok(DeviceId::from_text(hello.device_id.clone())),
        public_key: Ok(DevicePublicKey::from_bytes(hello.root_public_key.clone())),
        key_binding: Ok(()),
        signature: Ok(DeviceSignature::from_bytes(hello.endpoint_binding_signature.clone())),
    }
}

fn hello(own: &DeviceIdentity) -> SessionHello {
    hello_with_nonce(own, &metadata("Own"), SessionKind::Control, [4; 32], &wire())
}

fn checked(hello: &SessionHello) -> Result<SessionPeer, NetworkError> {
    validate_hello(hello, Some(SessionKind::Control), claims(hello), &wire(), &domains())
}

fn minors(min: u32, max: u32) -> SessionHello {
    let mut hello = hello(&identity("arc-a", 1));
    hello.min_protocol_minor = min;
    hello.max_protocol_minor = max;
    hello
}

#[test]
fn process_instance_allows_legacy_absence_and_rejects_malformed_ids() {
    assert_eq!(validate_process_instance_id(&[]).unwrap(), None);
    assert_eq!(validate_process_instance_id(&[7; 16]).unwrap(), Some([7; 16]));
    for length in [1, 15, 17, 32] {
        assert!(validate_process_instance_id(&vec![7; length]).is_err());
    }
}

#[test]
fn minor_negotiation_selects_highest_common_version() {
    let local = minors(1, 4);
    let remote = minors(2, 3);
    assert_eq!(negotiate_protocol_minor(&local, &remote).unwrap(), 3);
}

#[test]
fn minor_negotiation_rejects_disjoint_ranges() {
    let local = minors(0, 1);
    let remote = minors(2, 3);
    assert!(negotiate_protocol_minor(&local, &remote).is_err());
}

#[test]
fn own_hello_is_accepted() {
    let own = identity("arc-a", 1);
    let sent = local_hello(&own, &metadata("Own"), SessionKind::Control, &wire());
    assert_ne!(
        sent.nonce,
        local_hello(&own, &metadata("Own"), SessionKind::Control, &wire()).nonce
    );
    let peer = checked(&sent).unwrap();
    assert_eq!(peer.device_id.as_str(), "arc-a");
    assert_eq!(peer.public_key, own.public_key_value());
    assert_eq!(peer.metadata.name, "Own");
    assert_eq!(peer.certificate_sha256, own.certificate_sha256());
    assert_eq!(peer.listen_port, 0);
}

#[test]
fn malformed_hellos_are_refused() {
    let refused = |change: &dyn Fn(&mut SessionHello)| {
        let mut wrong = hello(&identity("arc-a", 1));
        change(&mut wrong);
        match checked(&wrong) {
            Err(NetworkError::Protocol(text)) => text,
            Err(NetworkError::InvalidIdentity(text)) => text,
            _ => panic!("the hello is refused"),
        }
    };
    let invalid = "invalid session hello";
    assert_eq!(refused(&|h| h.protocol_major = 2), invalid);
    assert_eq!(refused(&|h| h.min_protocol_minor = 3), invalid);
    assert_eq!(
        refused(&|h| {
            h.min_protocol_minor = 4;
            h.max_protocol_minor = 5;
        }),
        invalid
    );
    assert_eq!(refused(&|h| h.nonce = vec![0; 31]), invalid);
    assert_eq!(refused(&|h| h.endpoint_certificate_sha256 = vec![0; 33]), invalid);
    assert_eq!(refused(&|h| h.device_name = "x".repeat(256)), invalid);
    assert_eq!(refused(&|h| h.platform = "x".repeat(65)), invalid);
    assert_eq!(refused(&|h| h.model = "x".repeat(256)), invalid);
    assert_eq!(refused(&|h| h.session_kind = 9), "invalid session kind");
    assert_eq!(refused(&|h| h.session_kind = 1), "session kind mismatch");
    assert_eq!(
        refused(&|h| h.endpoint_certificate_sha256 = vec![0; 32]),
        "signature verification"
    );
    let mut edge = hello(&identity("arc-a", 1));
    edge.device_name = "\u{e9}".repeat(127);
    edge.max_protocol_minor = u32::MAX;
    assert!(checked(&edge).is_ok());
}

#[test]
fn refused_claims_tell_why() {
    let sent = hello(&identity("arc-a", 1));
    let outcome = |claims: IdentityClaims| {
        match validate_hello(&sent, None, claims, &wire(), &domains()) {
            Err(NetworkError::InvalidIdentity(text)) => text,
            _ => panic!("the claim is refused"),
        }
    };
    let mut wrong = claims(&sent);
    wrong.device_id = Err("no id".to_string());
    wrong.signature = Err("no signature".to_string());
    assert_eq!(outcome(wrong), "no id");
    let mut wrong = claims(&sent);
    wrong.public_key = Err("no key".to_string());
    assert_eq!(outcome(wrong), "no key");
    let mut wrong = claims(&sent);
    wrong.key_binding = Err("not its key".to_string());
    assert_eq!(outcome(wrong), "not its key");
    let mut wrong = claims(&sent);
    wrong.signature = Err("no signature".to_string());
    assert_eq!(outcome(wrong), "no signature");
}

#[test]
fn messages_are_framed() {
    let mut target = vec![1];
    append_message(&mut target, &[5, 6]);
    assert_eq!(target, vec![1, 0, 0, 0, 0, 0, 0, 0, 2, 5, 6]);
}

#[test]
fn both_sides_sign_the_same_bytes() {
    let exporter = Some([8; 32]);
    let here = session_transcript("arc-a", "arc-b", b"A", b"BB", &exporter).unwrap();
    let there = session_transcript("arc-b", "arc-a", b"BB", b"A", &exporter).unwrap();
    assert_eq!(here, there);
    let mut expected = b"arcrelay.session-transcript.v1\0".to_vec();
    expected.extend([0, 0, 0, 0, 0, 0, 0, 1]);
    expected.extend(b"A");
    expected.extend([0, 0, 0, 0, 0, 0, 0, 2]);
    expected.extend(b"BB");
    expected.extend([8; 32]);
    assert_eq!(here, expected);
    assert_ne!(
        here,
        session_transcript("arc-a", "arc-b", b"A", b"BB", &Some([9; 32])).unwrap()
    );
    assert!(matches!(
        session_transcript("arc-a", "arc-b", b"A", b"BB", &None),
        Err(NetworkError::Tls(text)) if text == "TLS exporter is unavailable"
    ));
}

#[test]
fn codes_have_six_digits() {
    let mut digest = [0_u8; 32];
    assert_eq!(code_of_digest(&digest), "000000");
    digest[3] = 7;
    assert_eq!(code_of_digest(&digest), "000007");
    // 0xffffffff is 4294967295.
    digest[..4].copy_from_slice(&[0xff; 4]);
    assert_eq!(code_of_digest(&digest), "967295");
    // SHA-256 of "abc" begins with ba7816bf, which is 3128432319.
    assert_eq!(verification_code(b"abc"), "432319");
}

struct Side {
    own: DeviceIdentity,
    hello: SessionHello,
    encoded: Vec<u8>,
}

fn side(name: &str, seed: u8) -> Side {
    let own = identity(name, seed);
    let hello = hello_with_nonce(&own, &metadata(name), SessionKind::Control, [seed; 32], &wire());
    Side { own, hello, encoded: vec![seed; 40] }
}

fn paired_with(peer: &SessionPeer) -> PeerRecord {
    PeerRecord {
        device_id: peer.device_id.clone(),
        public_key: peer.public_key.clone(),
        display_name: "Peer".to_string(),
        platform: "test".to_string(),
        model: "test".to_string(),
        trust_state: TrustState::Paired,
        auto_connect: true,
        paired_at_ms: 1,
        updated_at_ms: 1,
    }
}

#[test]
fn honest_sides_authenticate() {
    let exporter = Some([8; 32]);
    let a = side("arc-a", 1);
    let b = side("arc-b", 2);
    let b_seen = checked(&b.hello).unwrap();
    let a_seen = checked(&a.hello).unwrap();
    let begin = |here: &Side, seen: &SessionPeer, there: &Side, direction: Direction| {
        begin_authentication(
            &here.own,
            seen.clone(),
            direction,
            &here.hello,
            &there.hello,
            &here.encoded,
            &there.encoded,
            &exporter,
            &wire(),
        )
        .ok()
        .unwrap()
    };
    let at_a = begin(&a, &b_seen, &b, Direction::Outbound);
    let at_b = begin(&b, &a_seen, &a, Direction::Inbound);
    assert_eq!(at_a.transcript(), at_b.transcript());
    assert_eq!(at_a.protocol_minor(), 2);
    assert_eq!(at_a.kind(), SessionKind::Control);
    let signed = |bytes: &Vec<u8>| Ok(DeviceSignature::from_bytes(bytes.clone()));
    let by_a = at_a.auth().signature.clone();
    let by_b = at_b.auth().signature.clone();
    assert_eq!(at_b.auth().device_id, "arc-b");
    assert!(check_remote_auth(&b_seen, "arc-b", signed(&by_b), at_a.transcript(), &domains())
        .is_ok());
    let refused = |id: &str, signature: Result<DeviceSignature, String>| {
        match begin(&a, &b_seen, &b, Direction::Outbound).verify(id, signature) {
            Err(NetworkError::InvalidIdentity(text)) => text,
            _ => panic!("a refusal"),
        }
    };
    assert_eq!(refused("arc-c", signed(&by_b)), "session auth device id mismatch");
    assert_eq!(refused("arc-b", Err("bad".to_string())), "bad");
    assert_eq!(refused("arc-b", signed(&by_a)), "signature verification");
    assert!(matches!(
        begin(&a, &b_seen, &b, Direction::Outbound)
            .verify("arc-b", signed(&by_b))
            .ok()
            .unwrap()
            .authorize(Ok(None)),
        Err(NetworkError::Unpaired)
    ));

    let code = verification_code(at_a.transcript());
    let at_a = at_a.verify("arc-b", signed(&by_b)).ok().unwrap();
    let at_b = at_b.verify("arc-a", signed(&by_a)).ok().unwrap();
    assert_eq!(at_a.kind(), SessionKind::Control);
    let at_a = at_a.authorize(Ok(Some(paired_with(&b_seen)))).ok().unwrap();
    let at_b = at_b.authorize(Ok(Some(paired_with(&a_seen)))).ok().unwrap();
    let a_accepts = accept_session(at_a.protocol_minor(), 8765, &[1; 16]);
    let b_accepts = accept_session(at_b.protocol_minor(), 8766, &[2; 16]);
    assert_ne!(a_accepts.session_id, 0);
    assert!(a_accepts.accepted_at_ms > 0);
    let session_a = finish_authentication(at_a, &a_accepts, &b_accepts).unwrap();
    let session_b = finish_authentication(at_b, &b_accepts, &a_accepts).unwrap();
    assert_eq!(session_a.verification_code(), session_b.verification_code());
    assert_eq!(session_a.verification_code(), code);
    assert_eq!(session_a.initiator_id().as_str(), "arc-a");
    assert_eq!(session_b.initiator_id().as_str(), "arc-a");
    assert_eq!(session_a.rank.initiator_nonce, session_b.rank.initiator_nonce);
    assert_eq!(session_a.peer().listen_port, 8766);
    assert_eq!(session_b.peer_process_instance_id, Some([1; 16]));
    assert_eq!(session_a.id(), a_accepts.session_id);
}

#[test]
fn a_device_does_not_authenticate_itself() {
    let a = side("arc-a", 1);
    let seen = checked(&a.hello).unwrap();
    assert!(matches!(
        begin_authentication(
            &a.own,
            seen,
            Direction::Outbound,
            &a.hello,
            &a.hello,
            &a.encoded,
            &a.encoded,
            &Some([8; 32]),
            &wire(),
        ),
        Err(NetworkError::SelfConnection)
    ));
}

#[test]
fn the_third_message_says_what_it_is_given() {
    let message = accepted_with(2, 8765, &[3; 16], 77, 12);
    assert_eq!(message.session_id, 77);
    assert_eq!(message.accepted_at_ms, 12);
    assert_eq!(message.listen_port, 8765);
    assert_eq!(message.protocol_minor, 2);
    assert_eq!(message.process_instance_id, vec![3; 16]);
}

#[test]
fn the_last_message_is_checked() {
    let peer = checked(&hello(&identity("arc-a", 1))).unwrap();
    let conclude = |remote: SessionAccepted| {
        conclude_session(
            SessionKind::Control,
            2,
            "000000".to_string(),
            DeviceId::from_text("arc-b".to_string()),
            peer.clone(),
            Direction::Outbound,
            &[1; 32],
            &[2; 32],
            77,
            &remote,
        )
    };
    let accepted = || SessionAccepted {
        session_id: 5,
        accepted_at_ms: 1,
        listen_port: 8765,
        protocol_minor: 2,
        process_instance_id: vec![],
    };
    let session = conclude(accepted()).unwrap();
    assert_eq!(session.id(), 77);
    assert_eq!(session.peer().listen_port, 8765);
    assert_eq!(session.peer_process_instance_id, None);
    assert_eq!(conclude(SessionAccepted { listen_port: 65_536, ..accepted() }).unwrap().peer().listen_port, 0);
    let text = |remote: SessionAccepted| match conclude(remote) {
        Err(NetworkError::Protocol(text)) => text,
        _ => panic!("the message is refused"),
    };
    assert_eq!(text(SessionAccepted { session_id: 0, ..accepted() }), "invalid remote session id");
    assert_eq!(text(SessionAccepted { accepted_at_ms: 0, ..accepted() }), "invalid remote session id");
    assert_eq!(
        text(SessionAccepted { protocol_minor: 1, ..accepted() }),
        "peer selected a different protocol minor version"
    );
    assert_eq!(
        text(SessionAccepted { process_instance_id: vec![0; 3], ..accepted() }),
        "invalid peer process instance id"
    );
}

fn advertisement(own: &DeviceIdentity) -> PeerAdvertisement {
    PeerAdvertisement {
        device_id: own.device_id(),
        public_key: own.public_key_value(),
        metadata: metadata("Peer"),
        addresses: vec![],
        connection_addresses: vec![],
        port: 1,
        certificate_sha256: own.certificate_sha256(),
        last_seen_at_ms: 0,
    }
}

fn record(own: &DeviceIdentity, trust_state: TrustState) -> PeerRecord {
    PeerRecord {
        device_id: own.device_id(),
        public_key: own.public_key_value(),
        display_name: "Peer".to_string(),
        platform: "test".to_string(),
        model: "test".to_string(),
        trust_state,
        auto_connect: true,
        paired_at_ms: 1,
        updated_at_ms: 1,
    }
}

fn identity_text(outcome: Result<(), NetworkError>) -> String {
    match outcome {
        Err(NetworkError::InvalidIdentity(text)) => text,
        _ => panic!("the identity is refused"),
    }
}

#[test]
fn the_dialed_peer_must_be_the_expected_one() {
    let own = identity("arc-a", 1);
    let other = identity("arc-b", 2);
    let peer = checked(&hello(&own)).unwrap();
    let digest = own.certificate_sha256();
    assert!(check_advertised_certificate(&digest, &advertisement(&own)).is_ok());
    assert_eq!(
        identity_text(check_advertised_certificate(&digest, &advertisement(&other))),
        "TLS certificate differs from discovery advertisement"
    );
    assert!(authenticate_outbound(&digest, &peer, &advertisement(&own)).is_ok());
    assert_eq!(
        identity_text(authenticate_outbound(&digest, &peer, &advertisement(&other))),
        "authenticated identity differs from discovery advertisement"
    );
    assert_eq!(
        identity_text(authenticate_outbound(&[0; 32], &peer, &advertisement(&own))),
        "TLS certificate differs from authenticated endpoint binding"
    );
    assert!(authenticate_outbound_probe(&digest, &peer).is_ok());
    assert_eq!(
        identity_text(authenticate_outbound_probe(&[0; 32], &peer)),
        "TLS certificate differs from authenticated endpoint binding"
    );
    assert!(authenticate_outbound_paired(&digest, &peer, &record(&own, TrustState::Paired)).is_ok());
    for refused in [
        authenticate_outbound_paired(&[0; 32], &peer, &record(&own, TrustState::Paired)),
        authenticate_outbound_paired(&digest, &peer, &record(&other, TrustState::Paired)),
    ] {
        assert_eq!(identity_text(refused), "remembered endpoint belongs to another device");
    }
}

#[test]
fn certificates_are_observed_by_their_digest() {
    let own = identity("arc-a", 1);
    assert_eq!(observed_certificate_sha256(Some(&[1; 100])).unwrap(), own.certificate_sha256());
    assert!(matches!(
        observed_certificate_sha256(None),
        Err(NetworkError::InvalidIdentity(text)) if text == "peer TLS certificate is missing"
    ));
}

#[test]
fn a_hidden_device_takes_no_new_nearby_connections() {
    assert!(authenticate_inbound(true, false, SessionKind::Pairing).is_ok());
    assert!(authenticate_inbound(false, true, SessionKind::DiscoveryProbe).is_ok());
    assert!(authenticate_inbound(false, false, SessionKind::Control).is_ok());
    for kind in [SessionKind::Pairing, SessionKind::FileTransfer, SessionKind::DiscoveryProbe] {
        assert!(matches!(
            authenticate_inbound(false, false, kind),
            Err(NetworkError::Unauthorized(text))
                if text == "device is not accepting new nearby connections"
        ));
    }
}

#[test]
fn lasting_sessions_need_pairing() {
    let own = identity("arc-a", 1);
    let peer = checked(&hello(&own)).unwrap();
    let paired = || Ok(Some(record(&own, TrustState::Paired)));
    assert!(admit_session(SessionKind::Control, &peer, paired()).is_ok());
    assert!(admit_session(SessionKind::FileTransfer, &peer, Ok(None)).is_ok());
    assert!(admit_session(SessionKind::Pairing, &peer, Err("disk".to_string())).is_ok());
    assert!(matches!(
        admit_session(SessionKind::Control, &peer, Ok(None)),
        Err(NetworkError::Unpaired)
    ));
    assert!(matches!(
        admit_session(SessionKind::Print, &peer, Err("disk".to_string())),
        Err(NetworkError::Repository(text)) if text == "disk"
    ));
    let other = identity("arc-a", 2);
    assert!(matches!(
        admit_session(
            SessionKind::Print,
            &peer,
            Ok(Some(record(&other, TrustState::Paired)))
        ),
        Err(NetworkError::InvalidIdentity(text)) if text == "paired device key changed"
    ));
}

#[test]
fn only_a_paired_device_with_its_key_is_paired() {
    let own = identity("arc-a", 1);
    let paired = || Ok(Some(record(&own, TrustState::Paired)));
    assert!(require_paired(paired(), None).is_ok());
    assert!(require_paired(paired(), Some(&own.public_key_value())).is_ok());
    assert!(matches!(require_paired(Ok(None), None), Err(NetworkError::Unpaired)));
    assert!(matches!(
        require_paired(Ok(Some(record(&own, TrustState::Revoked))), None),
        Err(NetworkError::Unpaired)
    ));
    let changed = require_paired(paired(), Some(&identity("arc-a", 2).public_key_value()));
    assert!(matches!(
        &changed,
        Err(NetworkError::InvalidIdentity(text)) if text == "paired device key changed"
    ));
    assert!(is_paired_session(&changed).is_err());
    let broken = require_paired(Err("disk".to_string()), None);
    assert!(matches!(&broken, Err(NetworkError::Repository(text)) if text == "disk"));
    assert!(is_paired_session(&require_paired(paired(), None)).unwrap());
    assert!(!is_paired_session(&require_paired(Ok(None), None)).unwrap());
}
