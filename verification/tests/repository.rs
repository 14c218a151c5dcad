use arcrelay_network::address::{ipv4, SocketAddress};
use arcrelay_network::endpoint::EndpointSource;
use arcrelay_network::error::NetworkError;
use arcrelay_network::peer::{
    CapabilityId, CapabilityRole, DeviceId, DevicePublicKey, Grant, GrantConstraints,
    GrantDirection, TrustState,
};
use arcrelay_network::repository::{
    decode_direction, decode_endpoint, decode_grant, decode_peer, decode_trust, encode_direction,
    encode_trust, oldest_success, save_pairing, EndpointRow, GrantRow, PeerRow,
};

fn id(text: &str) -> DeviceId {
    DeviceId::from_text(text.to_string())
}

fn peer_row() -> PeerRow {
    PeerRow {
        device_id: Ok(id("arc-peer")),
        public_key: Ok(DevicePublicKey::from_bytes(vec![3; 32])),
        key_binding: Ok(()),
        display_name: Ok("Manual peer".to_string()),
        platform: Ok("test".to_string()),
        model: Ok("test".to_string()),
        trust_state: Ok(1),
        auto_connect: Ok(0),
        paired_at_ms: Ok(1),
        updated_at_ms: Ok(2),
    }
}

fn endpoint_row() -> EndpointRow {
    EndpointRow {
        peer_id: Ok(id("arc-peer")),
        address: Ok(SocketAddress::V4 { ip: ipv4(10, 42, 7, 8), port: 8767 }),
        certificate_sha256: Ok(vec![3; 32]),
        consecutive_failures: Ok(2),
        source: Ok(5),
        network_scope: Ok("10.42.7.0/24".to_string()),
        first_seen_at_ms: Ok(1),
        last_seen_at_ms: Ok(2),
        last_success_at_ms: Ok(3),
        retry_after_ms: Ok(4),
    }
}

#[test]
fn stored_numbers_read_back() {
    for (state, number) in [(TrustState::Paired, 1), (TrustState::Revoked, 2)] {
        assert_eq!(encode_trust(state), number);
        assert_eq!(decode_trust(number).unwrap(), state);
    }
    for (direction, number) in [(GrantDirection::Inbound, 1), (GrantDirection::Outbound, 2)] {
        assert_eq!(encode_direction(direction), number);
        assert_eq!(decode_direction(number).unwrap(), direction);
    }
    assert_eq!(decode_trust(3).unwrap_err(), "unknown trust state");
    assert_eq!(decode_direction(0).unwrap_err(), "unknown grant direction");
}

#[test]
fn rows_of_peers_are_read() {
    let peer = decode_peer(peer_row()).unwrap();
    assert_eq!(peer.display_name, "Manual peer");
    assert!(!peer.auto_connect);
    assert_eq!(peer.trust_state, TrustState::Paired);
    let mut row = peer_row();
    row.auto_connect = Ok(-3);
    assert!(decode_peer(row).unwrap().auto_connect);
    let mut row = peer_row();
    row.trust_state = Ok(9);
    assert_eq!(decode_peer(row).unwrap_err(), "unknown trust state");
    let mut row = peer_row();
    row.key_binding = Err("not its key".to_string());
    row.model = Err("no model".to_string());
    assert_eq!(decode_peer(row).unwrap_err(), "not its key");
}

#[test]
fn rows_of_grants_are_read() {
    let sync = CapabilityId { order: 1, role: CapabilityRole::Other };
    let row = || GrantRow {
        capability: Ok(Ok(sync)),
        peer_id: Ok(id("arc-peer")),
        direction: Ok(2),
        constraints: Ok(GrantConstraints::Unlimited),
        granted_at_ms: Ok(2),
    };
    let grant = decode_grant(row()).unwrap();
    assert_eq!(grant.capability, sync);
    assert_eq!(grant.direction, GrantDirection::Outbound);
    let mut wrong = row();
    wrong.capability = Ok(Err("new.thing".to_string()));
    wrong.peer_id = Err("bad id".to_string());
    assert_eq!(decode_grant(wrong).unwrap_err(), "unknown capability new.thing");
    let mut wrong = row();
    wrong.direction = Ok(0);
    assert_eq!(decode_grant(wrong).unwrap_err(), "unknown grant direction");
}

#[test]
fn rows_of_endpoints_are_read() {
    let endpoint = decode_endpoint(endpoint_row()).unwrap();
    assert_eq!(endpoint.source, EndpointSource::Manual);
    assert_eq!(endpoint.certificate_sha256, [3; 32]);
    assert_eq!(endpoint.consecutive_failures, 2);
    for failures in [-1, i64::from(u32::MAX) + 1] {
        let mut row = endpoint_row();
        row.consecutive_failures = Ok(failures);
        assert_eq!(decode_endpoint(row).unwrap().consecutive_failures, u32::MAX);
    }
    let mut row = endpoint_row();
    row.certificate_sha256 = Ok(vec![3; 31]);
    assert!(matches!(
        decode_endpoint(row),
        Err(NetworkError::Repository(text)) if text == "remembered certificate digest length"
    ));
    let mut row = endpoint_row();
    row.source = Ok(7);
    assert!(matches!(
        decode_endpoint(row),
        Err(NetworkError::Repository(text)) if text == "unknown remembered endpoint source"
    ));
}

#[test]
fn grants_of_a_pairing_belong_to_the_peer() {
    let grant = |peer: &str| Grant {
        peer_id: id(peer),
        capability: CapabilityId { order: 1, role: CapabilityRole::Other },
        direction: GrantDirection::Inbound,
        constraints: GrantConstraints::Unlimited,
        granted_at_ms: 1,
    };
    assert!(save_pairing(&id("arc-peer"), Ok(()), &vec![grant("arc-peer")]).is_ok());
    assert_eq!(
        save_pairing(&id("arc-peer"), Ok(()), &vec![grant("arc-peer"), grant("arc-else")])
            .unwrap_err(),
        "pairing grant belongs to another peer"
    );
    assert_eq!(
        save_pairing(&id("arc-peer"), Err("not its key".to_string()), &vec![grant("arc-else")])
            .unwrap_err(),
        "not its key"
    );
}

#[test]
fn endpoints_age_after_ninety_days() {
    assert_eq!(oldest_success(7_776_000_001), 1);
    assert_eq!(oldest_success(i64::MIN), i64::MIN);
}

#[test]
fn errors_have_stable_codes() {
    let text = || "x".to_string();
    for (error, code, message) in [
        (NetworkError::Io(text()), "network.unavailable", "network I/O failed: x"),
        (NetworkError::Tls(text()), "network.tls_configuration", "TLS configuration failed: x"),
        (NetworkError::InvalidIdentity(text()), "network.invalid_identity", "invalid device identity: x"),
        (NetworkError::Discovery(text()), "network.unavailable", "discovery failed: x"),
        (NetworkError::Quic(text()), "network.unavailable", "QUIC failed: x"),
        (NetworkError::Protocol(text()), "network.protocol", "protocol violation: x"),
        (NetworkError::Connect(text()), "network.unavailable", "connection failed: x"),
        (NetworkError::Unpaired, "network.unpaired", "peer is not paired"),
        (NetworkError::Unauthorized(text()), "network.permission_denied", "peer is not authorized: x"),
        (NetworkError::Repository(text()), "network.repository", "peer repository failed: x"),
        (NetworkError::Timeout, "network.deadline_exceeded", "operation timed out"),
        (NetworkError::SelfConnection, "network.self_connection", "cannot connect to this device"),
        (NetworkError::Busy(text()), "network.busy", "network runtime is busy: x"),
        (
            NetworkError::RuntimeUnavailable,
            "network.runtime_unavailable",
            "an active Tokio runtime is required",
        ),
        (NetworkError::Frame(text()), "network.protocol", "x"),
    ] {
        assert_eq!(error.code(), code);
        assert_eq!(error.message(), message);
    }
}
