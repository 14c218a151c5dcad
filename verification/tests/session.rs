use arcrelay_network::discovery::DeviceMetadata;
use arcrelay_network::error::NetworkError;
use arcrelay_network::peer::{DeviceId, DevicePublicKey};
use arcrelay_network::runtime::accept::{
    next_accept_step, AcceptAction, AcceptEvent, AcceptPhase,
};
use arcrelay_network::runtime::session::{
    highest_common, valid_feature_id, valid_operation, FeatureHeader, Session, SessionKind,
    SessionKindNumbers, SessionPeer, SessionRank,
};

const NUMBERS: SessionKindNumbers = SessionKindNumbers {
    pairing: 1,
    control: 2,
    realtime_input: 3,
    file_transfer: 4,
    print: 5,
    discovery_probe: 6,
};

fn session() -> Session {
    Session {
        id: 7,
        kind: SessionKind::Control,
        peer: SessionPeer {
            device_id: DeviceId::from_text("arc-peer".to_string()),
            public_key: DevicePublicKey::from_bytes(vec![1; 32]),
            metadata: DeviceMetadata {
                name: "Peer".to_string(),
                platform: "test".to_string(),
                model: "test".to_string(),
            },
            certificate_sha256: [2; 32],
            listen_port: 8765,
        },
        verification_code: "012345".to_string(),
        rank: SessionRank {
            initiator_id: DeviceId::from_text("arc-own".to_string()),
            initiator_nonce: vec![0; 32],
        },
        protocol_minor: 3,
        peer_process_instance_id: None,
        relayed: false,
    }
}

fn header() -> FeatureHeader {
    FeatureHeader {
        feature_id: "arcrelay.clipboard".to_string(),
        body: b"subscribe".to_vec(),
        feature_major: 1,
        min_feature_minor: 0,
        max_feature_minor: 2,
        stream_id: 9,
        operation: "offer".to_string(),
    }
}

#[test]
fn kinds_read_back_from_their_numbers() {
    for (kind, number) in [
        (SessionKind::Pairing, 1),
        (SessionKind::Control, 2),
        (SessionKind::RealtimeInput, 3),
        (SessionKind::FileTransfer, 4),
        (SessionKind::Print, 5),
        (SessionKind::DiscoveryProbe, 6),
    ] {
        assert_eq!(kind.encode(&NUMBERS), number);
        assert_eq!(SessionKind::decode(number, &NUMBERS).unwrap(), kind);
        assert_eq!(kind.is_nearby(), matches!(number, 1 | 4 | 6));
    }
    assert!(matches!(
        SessionKind::decode(0, &NUMBERS),
        Err(NetworkError::Protocol(text)) if text == "invalid session kind"
    ));
}

#[test]
fn session_tells_what_it_holds() {
    let session = session();
    assert_eq!(session.id(), 7);
    assert_eq!(session.kind(), SessionKind::Control);
    assert_eq!(session.protocol_minor(), 3);
    assert_eq!(session.peer().device_id.as_str(), "arc-peer");
    assert_eq!(session.initiator_id().as_str(), "arc-own");
    assert_eq!(session.verification_code(), "012345");
    assert!(!session.is_relayed());
}

#[test]
fn opened_stream_is_accepted_at_the_other_end() {
    let sent = session().open_feature_stream("arcrelay.clipboard".to_string(), b"subscribe").unwrap();
    assert_eq!(sent.feature_major, 1);
    assert_eq!(sent.operation, "");
    let accepted = Session::read_feature_header(sent).unwrap();
    assert_eq!(accepted.feature_id, "arcrelay.clipboard");
    assert_eq!(accepted.feature_major, 1);
    assert_eq!(accepted.min_feature_minor, 0);
    assert_eq!(accepted.max_feature_minor, 0);
    assert_eq!(accepted.negotiate_minor(1, 0, 0).unwrap(), 0);
    assert_ne!(accepted.stream_id, 0);
    assert_eq!(accepted.opening_payload, b"subscribe");

    let versioned = session()
        .open_feature_stream_versioned(
            "arcrelay.transfer".to_string(),
            2,
            1,
            3,
            "offer".to_string(),
            b"",
        )
        .unwrap();
    let stream = Session::read_feature_header(versioned).unwrap();
    assert_eq!(stream.operation, "offer");
    assert_eq!(stream.negotiate_minor(2, 2, 9).unwrap(), 3);
}

#[test]
fn invalid_headers_are_refused_at_both_ends() {
    let local = |id: &str, major: u32, min: u32, max: u32, operation: &str| {
        Session::feature_header(id.to_string(), major, min, max, operation.to_string(), b"", 5)
    };
    assert!(local("a", 1, 0, 0, "").is_ok());
    for refused in [
        local("", 1, 0, 0, ""),
        local("A", 1, 0, 0, ""),
        local("a", 0, 0, 0, ""),
        local("a", 1, 2, 1, ""),
        local("a", 1, 0, 0, "x y"),
    ] {
        assert!(matches!(
            refused,
            Err(NetworkError::Protocol(text)) if text == "invalid local feature stream header"
        ));
    }
    assert!(Session::read_feature_header(header()).is_ok());
    let refused = |change: &dyn Fn(&mut FeatureHeader)| {
        let mut wrong = header();
        change(&mut wrong);
        matches!(
            Session::read_feature_header(wrong),
            Err(NetworkError::Protocol(text)) if text == "invalid feature stream header"
        )
    };
    assert!(refused(&|h| h.stream_id = 0));
    assert!(refused(&|h| h.feature_major = 0));
    assert!(refused(&|h| h.min_feature_minor = 3));
    assert!(refused(&|h| h.feature_id = "x".repeat(129)));
    assert!(refused(&|h| h.operation = "x".repeat(65)));
}

#[test]
fn names_of_features_and_operations() {
    assert!(valid_feature_id("arcrelay.input-relay_2"));
    assert!(valid_feature_id(&"x".repeat(128)));
    assert!(!valid_feature_id(&"x".repeat(129)));
    assert!(!valid_feature_id(""));
    assert!(!valid_feature_id("arc relay"));
    assert!(!valid_feature_id("\u{e9}"));
    assert!(valid_operation(""));
    assert!(valid_operation(&"x".repeat(64)));
    assert!(!valid_operation(&"x".repeat(65)));
    assert!(!valid_operation("Offer"));
}

#[test]
fn feature_versions_are_negotiated() {
    let stream = Session::read_feature_header(header()).unwrap();
    assert_eq!(stream.negotiate_minor(1, 0, 1).unwrap(), 1);
    assert_eq!(stream.negotiate_minor(1, 2, 5).unwrap(), 2);
    assert!(matches!(
        stream.negotiate_minor(2, 0, 1),
        Err(NetworkError::Protocol(text)) if text == "unsupported feature major version"
    ));
    assert!(matches!(
        stream.negotiate_minor(1, 2, 1),
        Err(NetworkError::Protocol(text)) if text == "unsupported feature major version"
    ));
    assert!(matches!(
        stream.negotiate_minor(1, 3, 4),
        Err(NetworkError::Protocol(text)) if text == "no compatible feature minor version"
    ));
    assert_eq!(highest_common(1, 4, 2, 3), Some(3));
    assert_eq!(highest_common(0, 1, 2, 3), None);
}

#[test]
fn a_bounded_number_of_headers_is_read_at_once() {
    assert!(Session::may_accept_header(7));
    assert!(!Session::may_accept_header(8));
}

#[test]
fn ranks_compare_ids_first() {
    let rank = |id: &str, nonce: u8| SessionRank {
        initiator_id: DeviceId::from_text(id.to_string()),
        initiator_nonce: vec![nonce; 32],
    };
    assert!(rank("arc-a", 9).is_before(&rank("arc-b", 0)));
    assert!(rank("arc-a", 0).is_before(&rank("arc-a", 1)));
    assert!(!rank("arc-a", 1).is_before(&rank("arc-a", 1)));
}

#[test]
fn inbound_connections_are_taken_step_by_step() {
    assert_eq!(
        next_accept_step(AcceptPhase::QuicHandshake, AcceptEvent::Connected),
        (AcceptPhase::PeerAuthentication, AcceptAction::Authenticate)
    );
    assert_eq!(
        next_accept_step(AcceptPhase::PeerAuthentication, AcceptEvent::Authenticated(SessionKind::Control)),
        (AcceptPhase::SessionRegistration, AcceptAction::Register)
    );
    assert_eq!(
        next_accept_step(
            AcceptPhase::PeerAuthentication,
            AcceptEvent::Authenticated(SessionKind::DiscoveryProbe)
        ),
        (AcceptPhase::SessionRegistration, AcceptAction::CloseProbe)
    );
    assert_eq!(
        next_accept_step(AcceptPhase::SessionRegistration, AcceptEvent::Registered { own: 1, in_place: 1 }),
        (AcceptPhase::SessionRegistration, AcceptAction::Publish)
    );
    assert_eq!(
        next_accept_step(AcceptPhase::SessionRegistration, AcceptEvent::Registered { own: 1, in_place: 2 }),
        (AcceptPhase::SessionRegistration, AcceptAction::Done)
    );
    assert_eq!(
        next_accept_step(AcceptPhase::SessionRegistration, AcceptEvent::Unhandled),
        (AcceptPhase::SessionRegistration, AcceptAction::CloseUnhandled)
    );
    assert_eq!(
        next_accept_step(AcceptPhase::PeerAuthentication, AcceptEvent::Failed),
        (AcceptPhase::PeerAuthentication, AcceptAction::Report)
    );
    assert_eq!(AcceptPhase::QuicHandshake.label(), "quic_handshake");
    assert_eq!(AcceptPhase::PeerAuthentication.label(), "peer_authentication");
    assert_eq!(AcceptPhase::SessionRegistration.label(), "session_registration");
}
