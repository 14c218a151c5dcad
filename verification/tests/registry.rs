use arcrelay_network::discovery::DeviceMetadata;
use arcrelay_network::error::NetworkError;
use arcrelay_network::peer::{CapabilityId, CapabilityRole, DeviceId, DevicePublicKey};
use arcrelay_network::runtime::registry::{
    Close, CloseReason, HolderStatus, Registration, SessionRegistry,
};
use arcrelay_network::runtime::relay::register_input_relay;
use arcrelay_network::runtime::session::{Session, SessionKind, SessionPeer, SessionRank};

const OPEN: HolderStatus = HolderStatus { held: true, open: true };
const CLOSED: HolderStatus = HolderStatus { held: true, open: false };
const GONE: HolderStatus = HolderStatus { held: false, open: false };

fn id(text: &str) -> DeviceId {
    DeviceId::from_text(text.to_string())
}

fn session(peer: &str, kind: SessionKind, initiator: &str, nonce: u8, process: u8) -> Session {
    Session {
        id: 1,
        kind,
        peer: SessionPeer {
            device_id: id(peer),
            public_key: DevicePublicKey::from_bytes(vec![1; 32]),
            metadata: DeviceMetadata {
                name: "Peer".to_string(),
                platform: "test".to_string(),
                model: "test".to_string(),
            },
            certificate_sha256: [2; 32],
            listen_port: 8765,
        },
        verification_code: "012345".to_string(),
        rank: SessionRank { initiator_id: id(initiator), initiator_nonce: vec![nonce; 32] },
        protocol_minor: 0,
        peer_process_instance_id: Some([process; 16]),
        relayed: false,
    }
}

fn control(initiator: &str, nonce: u8, process: u8) -> Session {
    session("arc-peer", SessionKind::Control, initiator, nonce, process)
}

fn winner(result: &Registration) -> u64 {
    match &result.outcome {
        Ok(handle) => *handle,
        Err(_) => panic!("a session is in place"),
    }
}

#[test]
fn a_restarted_process_replaces_the_old_one_and_is_not_displaced_by_it() {
    for initiator in ["arc-peer", "arc-own"] {
        let mut registry = SessionRegistry::new();
        // The old session has the lowest rank there is.
        assert_eq!(winner(&registry.register_session(1, &control(initiator, 0, 1), GONE)), 1);
        let fresh = registry.register_session(2, &control("arc-peer", 5, 2), OPEN);
        assert_eq!(winner(&fresh), 2);
        assert_eq!(fresh.closes, vec![Close { handle: 1, reason: CloseReason::PeerRestarted }]);
        // Registering the winner again is harmless.
        let again = registry.register_session(2, &control("arc-peer", 5, 2), OPEN);
        assert_eq!(winner(&again), 2);
        assert!(again.closes.is_empty());
        // A late session of the retired process is refused.
        let late = registry.register_session(3, &control(initiator, 0, 1), OPEN);
        assert_eq!(winner(&late), 2);
        assert_eq!(late.closes, vec![Close { handle: 3, reason: CloseReason::ObsoleteInstance }]);
        let later = registry.register_session(4, &control(initiator, 0, 1), CLOSED);
        assert!(matches!(
            later.outcome,
            Err(NetworkError::Connect(text)) if text == "obsolete peer process instance"
        ));
        assert_eq!(registry.holder(&id("arc-peer"), SessionKind::Control), Some(2));
    }
}

#[test]
fn a_fresh_session_of_the_same_initiator_is_a_reconnect() {
    let mut registry = SessionRegistry::new();
    registry.register_session(1, &control("arc-peer", 0, 1), GONE);
    let result = registry.register_session(2, &control("arc-peer", 9, 1), OPEN);
    assert_eq!(winner(&result), 2);
    assert_eq!(result.closes, vec![Close { handle: 1, reason: CloseReason::SessionReplaced }]);
    let result = registry.register_session(3, &control("arc-peer", 9, 1), CLOSED);
    assert_eq!(winner(&result), 3);
    assert!(result.closes.is_empty());
}

#[test]
fn opposing_dials_converge_on_the_lower_id() {
    let a = control("arc-a", 9, 1);
    let b = control("arc-b", 0, 1);
    let mut registry = SessionRegistry::new();
    registry.register_session(1, &a, GONE);
    let second = registry.register_session(2, &b, OPEN);
    assert_eq!(winner(&second), 1);
    assert_eq!(second.closes, vec![Close { handle: 2, reason: CloseReason::DuplicateSession }]);
    let mut registry = SessionRegistry::new();
    registry.register_session(2, &b, GONE);
    let second = registry.register_session(1, &a, OPEN);
    assert_eq!(winner(&second), 1);
    assert_eq!(second.closes, vec![Close { handle: 2, reason: CloseReason::SessionReplaced }]);
}

#[test]
fn opposing_dials_converge_where_a_process_is_not_told() {
    let mut a = control("arc-a", 9, 1);
    a.peer_process_instance_id = None;
    let b = control("arc-b", 0, 1);
    let mut registry = SessionRegistry::new();
    registry.register_session(1, &a, GONE);
    assert_eq!(winner(&registry.register_session(2, &b, OPEN)), 1);
    let mut registry = SessionRegistry::new();
    registry.register_session(2, &b, GONE);
    assert_eq!(winner(&registry.register_session(1, &a, OPEN)), 1);
    let relayed = register_input_relay(a);
    let mut registry = SessionRegistry::new();
    registry.register_session(2, &b, GONE);
    assert_eq!(winner(&registry.register_session(3, &relayed, OPEN)), 2);
    let mut registry = SessionRegistry::new();
    registry.register_session(3, &relayed, GONE);
    assert_eq!(winner(&registry.register_session(2, &b, OPEN)), 2);
}

#[test]
fn a_direct_session_is_preferred_to_a_relayed_one() {
    let direct = control("arc-b", 9, 1);
    let relayed = register_input_relay(control("arc-a", 0, 1));
    assert!(relayed.is_relayed());
    let mut registry = SessionRegistry::new();
    registry.register_session(1, &direct, GONE);
    assert_eq!(winner(&registry.register_session(2, &relayed, OPEN)), 1);
    let mut registry = SessionRegistry::new();
    registry.register_session(2, &relayed, GONE);
    assert_eq!(winner(&registry.register_session(1, &direct, OPEN)), 1);
    // A restarted process may come back through a relay.
    let mut registry = SessionRegistry::new();
    registry.register_session(1, &direct, GONE);
    let restarted = register_input_relay(control("arc-a", 0, 2));
    assert_eq!(winner(&registry.register_session(2, &restarted, OPEN)), 2);
}

#[test]
fn only_so_many_retired_processes_are_remembered() {
    let mut registry = SessionRegistry::new();
    for process in 0..40_u8 {
        let handle = u64::from(process);
        assert_eq!(winner(&registry.register_session(handle, &control("arc-peer", 0, process), OPEN)), handle);
    }
    // Processes 7 to 38 are remembered, 0 to 6 are not.
    assert_eq!(winner(&registry.register_session(100, &control("arc-peer", 0, 7), OPEN)), 39);
    assert_eq!(winner(&registry.register_session(101, &control("arc-peer", 0, 6), OPEN)), 101);
}

#[test]
fn closed_sessions_are_not_used() {
    let mut registry = SessionRegistry::new();
    registry.register_session(1, &control("arc-peer", 0, 1), GONE);
    let peer = id("arc-peer");
    assert_eq!(registry.active(&peer, SessionKind::Control, OPEN), Some(1));
    assert_eq!(registry.active(&peer, SessionKind::Print, OPEN), None);
    assert_eq!(registry.connected_peers(&vec![1]), vec![peer.clone()]);
    assert!(registry.connected_peers(&vec![]).is_empty());
    assert_eq!(registry.active(&peer, SessionKind::Control, CLOSED), None);
    assert_eq!(registry.holder(&peer, SessionKind::Control), None);
}

#[test]
fn connected_peers_are_listed_once_in_order() {
    let mut registry = SessionRegistry::new();
    registry.register_session(1, &session("arc-b", SessionKind::Control, "arc-b", 0, 1), GONE);
    registry.register_session(2, &session("arc-b", SessionKind::Print, "arc-b", 0, 1), GONE);
    registry.register_session(3, &session("arc-a", SessionKind::Print, "arc-a", 0, 1), GONE);
    registry.register_session(4, &session("arc-c", SessionKind::Print, "arc-c", 0, 1), GONE);
    assert_eq!(registry.connected_peers(&vec![3, 2, 1]), vec![id("arc-a"), id("arc-b")]);
}

#[test]
fn a_cross_screen_grant_leaves_control_alone() {
    let inject = CapabilityId { order: 3, role: CapabilityRole::CrossScreenInject };
    let other = CapabilityId { order: 1, role: CapabilityRole::Other };
    let mut registry = SessionRegistry::new();
    registry.register_session(1, &control("arc-peer", 0, 1), GONE);
    let input = session("arc-peer", SessionKind::RealtimeInput, "arc-peer", 0, 1);
    registry.register_session(2, &input, GONE);
    let peer = id("arc-peer");
    assert_eq!(registry.grant_changed(&peer, inject), vec![2]);
    assert_eq!(registry.holder(&peer, SessionKind::Control), Some(1));
    assert_eq!(registry.holder(&peer, SessionKind::RealtimeInput), None);
    assert_eq!(registry.grant_changed(&peer, other), vec![1]);
    assert_eq!(registry.holder(&peer, SessionKind::Control), None);
}

#[test]
fn disconnecting_ends_every_session_of_the_peer() {
    let mut registry = SessionRegistry::new();
    let kinds = [
        SessionKind::Pairing,
        SessionKind::Control,
        SessionKind::RealtimeInput,
        SessionKind::FileTransfer,
        SessionKind::Print,
        SessionKind::DiscoveryProbe,
    ];
    for (handle, kind) in kinds.iter().enumerate() {
        registry.register_session(handle as u64, &session("arc-peer", *kind, "arc-peer", 0, 1), GONE);
    }
    registry.register_session(9, &session("arc-else", SessionKind::Print, "arc-else", 0, 1), GONE);
    assert_eq!(registry.disconnect(&id("arc-peer")).len(), 6);
    assert!(registry.disconnect(&id("arc-peer")).is_empty());
    assert_eq!(registry.holder(&id("arc-else"), SessionKind::Print), Some(9));
}

#[test]
fn a_closed_relay_releases_only_its_own_session() {
    let mut registry = SessionRegistry::new();
    registry.register_session(1, &control("arc-peer", 0, 1), GONE);
    assert!(!registry.release(&id("arc-peer"), SessionKind::Control, 2));
    assert!(registry.release(&id("arc-peer"), SessionKind::Control, 1));
    assert!(!registry.release(&id("arc-peer"), SessionKind::Control, 1));
}

#[test]
fn reasons_for_closing() {
    for (reason, code, text) in [
        (CloseReason::ObsoleteInstance, 409, "obsolete peer process instance"),
        (CloseReason::PeerRestarted, 409, "peer process restarted"),
        (CloseReason::DuplicateSession, 409, "duplicate session"),
        (CloseReason::SessionReplaced, 409, "session replaced"),
        (CloseReason::PeerForgotten, 403, "peer forgotten"),
        (CloseReason::AuthorizationChanged, 0, "authorization changed"),
    ] {
        assert_eq!(reason.code(), code);
        assert_eq!(reason.message(), text);
    }
}
