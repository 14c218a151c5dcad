use arcrelay_network::address::{ipv4, IpAddress, SocketAddress};
use arcrelay_network::discovery::{DeviceMetadata, PeerAdvertisement, Publication};
use arcrelay_network::endpoint::{EndpointSource, InMemoryEndpointRepository};
use arcrelay_network::error::NetworkError;
use arcrelay_network::identity::{verify_signature, DeviceIdentity, SigningDomains};
use arcrelay_network::peer::{
    CapabilityId, CapabilityRole, DeviceId, DevicePublicKey, PeerRecord, SigningContext,
    TrustState,
};
use arcrelay_network::runtime::dial::ExpectedPeer;
use arcrelay_network::runtime::node::{
    learned_from, remembered_peer, ConnectPlan, ManualTarget, NetworkRuntime,
};
use arcrelay_network::runtime::pairing::PairingGrantRequest;
use arcrelay_network::runtime::registry::HolderStatus;
use arcrelay_network::runtime::session::{
    Session, SessionKind, SessionKindNumbers, SessionPeer, SessionRank,
};
use arcrelay_network::wire::WireProtocol;

const OWN: &str = "arc-0123456789abcdefghijklmnopqrstuvwxyz";
const OPEN: HolderStatus = HolderStatus { held: true, open: true };
const GONE: HolderStatus = HolderStatus { held: false, open: false };

fn wire() -> WireProtocol {
    WireProtocol {
        major: 1,
        min_minor: 0,
        max_minor: 0,
        discovery_protocol: "1".to_string(),
        service_type: "_arcrelay._udp.local.".to_string(),
        kinds: SessionKindNumbers {
            pairing: 1,
            control: 2,
            realtime_input: 3,
            file_transfer: 4,
            print: 5,
            discovery_probe: 6,
        },
    }
}

fn domains() -> SigningDomains {
    SigningDomains {
        endpoint_binding: b"e\0".to_vec(),
        session_authentication: b"s\0".to_vec(),
        feature_payload: b"f\0".to_vec(),
    }
}

fn metadata(name: &str) -> DeviceMetadata {
    DeviceMetadata {
        name: name.to_string(),
        platform: "test".to_string(),
        model: "test".to_string(),
    }
}

fn bind(port: u16) -> Result<NetworkRuntime, NetworkError> {
    let identity = DeviceIdentity::new(
        [5; 32],
        DeviceId::from_text(OWN.to_string()),
        b"certificate".to_vec(),
        domains(),
    );
    match NetworkRuntime::bind(identity, metadata("Own"), port, wire()) {
        Ok((node, info)) => {
            assert_eq!(info.get_port(), port);
            Ok(node)
        }
        Err(error) => Err(error),
    }
}

fn node() -> NetworkRuntime {
    bind(4711).unwrap_or_else(|_| panic!("the runtime is bound"))
}

fn peer_id() -> DeviceId {
    DeviceId::from_text("arc-peer".to_string())
}

fn v4(d: u8, port: u16) -> SocketAddress {
    SocketAddress::V4 { ip: ipv4(10, 0, 0, d), port }
}

fn advertisement(id: &str) -> PeerAdvertisement {
    PeerAdvertisement {
        device_id: DeviceId::from_text(id.to_string()),
        public_key: DevicePublicKey::from_bytes(vec![1; 32]),
        metadata: metadata("Peer"),
        addresses: vec![IpAddress::V4(ipv4(10, 0, 0, 1))],
        connection_addresses: vec![v4(1, 8765)],
        port: 8765,
        certificate_sha256: [9; 32],
        last_seen_at_ms: 1,
    }
}

fn record() -> PeerRecord {
    PeerRecord {
        device_id: peer_id(),
        public_key: DevicePublicKey::from_bytes(vec![1; 32]),
        display_name: "Stored".to_string(),
        platform: "test".to_string(),
        model: "test".to_string(),
        trust_state: TrustState::Paired,
        auto_connect: true,
        paired_at_ms: 1,
        updated_at_ms: 1,
    }
}

fn session(kind: SessionKind, listen_port: u16) -> Session {
    Session {
        id: 1,
        kind,
        peer: SessionPeer {
            device_id: peer_id(),
            public_key: DevicePublicKey::from_bytes(vec![1; 32]),
            metadata: metadata("Peer"),
            certificate_sha256: [9; 32],
            listen_port,
        },
        verification_code: "000000".to_string(),
        rank: SessionRank { initiator_id: peer_id(), initiator_nonce: vec![] },
        protocol_minor: 0,
        peer_process_instance_id: None,
        relayed: false,
    }
}

fn dialed(plan: ConnectPlan) -> Vec<SocketAddress> {
    match plan {
        ConnectPlan::Dial(list) => list,
        ConnectPlan::Reuse(_) => panic!("a dial"),
    }
}

#[test]
fn a_runtime_starts_visible() {
    let mut runtime = node();
    assert_eq!(runtime.device_id().as_str(), OWN);
    assert_eq!(runtime.identity().public_key_value(), runtime.public_key());
    assert_eq!(runtime.identity().certificate_sha256(), runtime.certificate_sha256());
    assert_eq!(runtime.metadata().name, "Own");
    assert!(runtime.is_discoverable());
    assert!(!runtime.is_stopped());
    assert_ne!(runtime.process_instance_id(), node().process_instance_id());
    assert_eq!(runtime.set_discoverable(false), Publication::Unregister);
    assert!(!runtime.is_discoverable());
    runtime.set_local_published(false);
    assert_eq!(runtime.set_discoverable(false), Publication::Keep);
    assert!(runtime.announce_metadata(&metadata("New"), 4711).unwrap().is_none());
    assert_eq!(runtime.set_discoverable(true), Publication::Register);
    runtime.set_local_published(true);
    let info = runtime.announce_metadata(&metadata("New"), 4711).unwrap().unwrap();
    assert_eq!(info.get_property_val_str("device_name"), Some("New"));
    runtime.update_metadata(metadata("New"));
    assert_eq!(runtime.metadata().name, "New");
    runtime.shutdown();
    assert!(runtime.is_stopped());
    assert!(matches!(bind(0), Err(NetworkError::Discovery(_))));
}

#[test]
fn feature_payloads_are_signed() {
    let runtime = node();
    let signature = runtime.sign_feature_payload(b"payload");
    let outcome = verify_signature(
        &domains(),
        &runtime.public_key(),
        SigningContext::FeaturePayload,
        b"payload",
        &signature,
    );
    assert!(outcome.is_ok());
    let hello = runtime.local_hello(SessionKind::Print);
    assert_eq!(hello.device_id, OWN);
    assert_eq!(hello.session_kind, 5);
    assert_eq!(hello.nonce.len(), 32);
}

#[test]
fn connecting_needs_pairing_except_nearby() {
    let mut runtime = node();
    assert!(matches!(
        runtime.connect(&advertisement(OWN), SessionKind::Pairing, Ok(None), GONE),
        Err(NetworkError::SelfConnection)
    ));
    let peer = advertisement("arc-peer");
    assert!(matches!(
        runtime.connect(&peer, SessionKind::Control, Ok(None), GONE),
        Err(NetworkError::Unpaired)
    ));
    let plan = runtime.connect(&peer, SessionKind::FileTransfer, Ok(None), GONE).unwrap();
    assert_eq!(dialed(plan), vec![v4(1, 8765)]);
    let plan = runtime.connect(&peer, SessionKind::Control, Ok(Some(record())), GONE).unwrap();
    assert_eq!(dialed(plan), vec![v4(1, 8765)]);
    runtime.register_session(42, &session(SessionKind::Control, 0), GONE);
    assert_eq!(runtime.holder(&peer_id(), SessionKind::Control), Some(42));
    let plan = runtime.connect(&peer, SessionKind::Control, Ok(Some(record())), OPEN).unwrap();
    assert!(matches!(plan, ConnectPlan::Reuse(42)));
    assert_eq!(runtime.active(&peer_id(), SessionKind::Control, OPEN), Some(42));
    let plan = runtime.connect(&peer, SessionKind::Control, Ok(Some(record())), GONE).unwrap();
    assert_eq!(dialed(plan), vec![v4(1, 8765)]);
    assert_eq!(runtime.holder(&peer_id(), SessionKind::Control), None);
}

#[test]
fn remembered_endpoints_are_dialed() {
    let mut runtime = node();
    let mut repository = InMemoryEndpointRepository::new();
    repository.record_authenticated(&peer_id(), v4(1, 8765), [9; 32], EndpointSource::Mdns, 1);
    repository.record_authenticated(&peer_id(), v4(2, 8766), [8; 32], EndpointSource::Mdns, 2);
    let endpoints = repository.endpoints(&peer_id(), 5);
    let (known, plan) = runtime
        .connect_remembered(&peer_id(), SessionKind::Print, Ok(Some(record())), GONE, &endpoints)
        .unwrap();
    assert_eq!(known.device_id, peer_id());
    assert_eq!(dialed(plan), vec![v4(2, 8766), v4(1, 8765)]);
    assert!(matches!(
        runtime.connect_remembered(&peer_id(), SessionKind::Print, Ok(None), GONE, &endpoints),
        Err(NetworkError::Unpaired)
    ));
    assert!(matches!(
        runtime.connect_remembered(&peer_id(), SessionKind::Print, Ok(Some(record())), GONE, &vec![]),
        Err(NetworkError::Connect(_))
    ));
    let peer = remembered_peer(record(), &endpoints).unwrap();
    assert_eq!(peer.metadata.name, "Stored");
    assert_eq!(peer.port, 8766);
    assert_eq!(peer.certificate_sha256, [8; 32]);
    assert_eq!(peer.last_seen_at_ms, 2);
    assert_eq!(peer.connection_addresses, vec![v4(2, 8766), v4(1, 8765)]);
    assert_eq!(peer.addresses, vec![v4(1, 0).ip(), v4(2, 0).ip()]);
    assert!(remembered_peer(record(), &vec![]).is_none());
    // Without an announcement the remembered endpoints are used.
    let (expected, plan) = runtime
        .connect_discovered(&peer_id(), SessionKind::Print, Ok(Some(record())), GONE, &endpoints)
        .unwrap();
    assert!(matches!(expected, ExpectedPeer::Paired(_)));
    assert_eq!(dialed(plan).len(), 2);
    runtime.resolve("peer".to_string(), advertisement("arc-peer"));
    let (expected, plan) = runtime
        .connect_discovered(&peer_id(), SessionKind::Print, Ok(Some(record())), GONE, &endpoints)
        .unwrap();
    assert!(matches!(expected, ExpectedPeer::Advertised(_)));
    assert_eq!(dialed(plan), vec![v4(1, 8765)]);
}

#[test]
fn relayed_routes_need_pairing() {
    let mut runtime = node();
    let route = vec![v4(1, 8765)];
    assert!(matches!(
        runtime.connect_paired_at(&peer_id(), &route, SessionKind::RealtimeInput, Ok(None), GONE),
        Err(NetworkError::Unpaired)
    ));
    let (_, plan) = runtime
        .connect_paired_at(&peer_id(), &route, SessionKind::RealtimeInput, Ok(Some(record())), GONE)
        .unwrap();
    assert_eq!(dialed(plan), route);
    assert!(matches!(
        runtime.connect_input_relay(&peer_id(), Ok(None), GONE),
        Err(NetworkError::Unpaired)
    ));
    let (_, reuse) = runtime.connect_input_relay(&peer_id(), Ok(Some(record())), GONE).unwrap();
    assert_eq!(reuse, None);
    runtime.register_session(7, &session(SessionKind::RealtimeInput, 0), GONE);
    let (_, reuse) = runtime.connect_input_relay(&peer_id(), Ok(Some(record())), OPEN).unwrap();
    assert_eq!(reuse, Some(7));
}

#[test]
fn a_relayed_session_is_registered_only_once_it_is_authorized() {
    let mut runtime = node();
    let source = |kind: SessionKind| session(kind, 0);
    let input = SessionKind::RealtimeInput;
    assert!(matches!(
        runtime.accept_input_relay(7, source(input), &record(), Err("no".to_string()), GONE),
        Err(NetworkError::Unauthorized(text)) if text == "no"
    ));
    assert!(matches!(
        runtime.accept_input_relay(7, source(SessionKind::Control), &record(), Ok(()), GONE),
        Err(NetworkError::InvalidIdentity(_))
    ));
    assert_eq!(runtime.holder(&peer_id(), input), None);
    let (relayed, result) =
        runtime.accept_input_relay(7, source(input), &record(), Ok(()), GONE).unwrap();
    assert!(relayed.is_relayed());
    assert!(matches!(result.outcome, Ok(7)));
    assert_eq!(runtime.holder(&peer_id(), input), Some(7));
}

#[test]
fn without_a_port_the_id_does_not_matter() {
    let id = DeviceId::from_text("arc-x".to_string());
    let identity = DeviceIdentity::new([7; 32], id, b"certificate".to_vec(), domains());
    assert!(matches!(
        NetworkRuntime::bind(identity, metadata("Own"), 0, wire()),
        Err(NetworkError::Discovery(text)) if text == "endpoint port cannot be zero"
    ));
}

#[test]
fn an_authenticated_session_teaches_a_route() {
    let mut runtime = node();
    let mut relayed = session(SessionKind::RealtimeInput, 8765);
    relayed.relayed = true;
    assert!(runtime.remember_authenticated_session(&relayed, v4(3, 50_000), 76).is_none());
    assert!(runtime.discovery().peer(&peer_id()).is_none());
    let (peer, told) = runtime
        .remember_authenticated_session(&session(SessionKind::Control, 8765), v4(3, 50_000), 77)
        .unwrap();
    assert!(told);
    assert_eq!(peer.connection_addresses, vec![v4(3, 8765)]);
    assert_eq!(peer.addresses, vec![v4(3, 0).ip()]);
    assert_eq!(peer.port, 8765);
    assert_eq!(peer.last_seen_at_ms, 77);
    assert_eq!(runtime.discovery().peer(&peer_id()).unwrap().port, 8765);
    let unknown = learned_from(&session(SessionKind::Control, 0), v4(3, 50_000), 77);
    assert_eq!(unknown.connection_addresses, vec![v4(3, 50_000)]);
    let known = runtime.discover_at(&vec![v4(3, 8765)]).unwrap();
    assert!(matches!(known, ManualTarget::Known(peer) if peer.device_id == peer_id()));
    let probe = runtime.discover_at(&vec![v4(4, 8765)]).unwrap();
    assert!(matches!(probe, ManualTarget::Probe(list) if list == vec![v4(4, 8765)]));
    assert!(runtime.discover_at(&vec![]).is_err());
}

#[test]
fn forgetting_a_peer_ends_everything() {
    let mut runtime = node();
    runtime.remember_authenticated_session(&session(SessionKind::Control, 1), v4(3, 1), 1);
    runtime.register_session(1, &session(SessionKind::Control, 1), GONE);
    runtime.register_session(2, &session(SessionKind::Print, 1), GONE);
    assert_eq!(runtime.connected_peers(&vec![1, 2]), vec![peer_id()]);
    let (mut handles, told) = runtime.forget(&peer_id());
    assert!(told);
    handles.sort();
    assert_eq!(handles, vec![1, 2]);
    assert!(runtime.connected_peers(&vec![1, 2]).is_empty());
    assert!(runtime.discovery().peer(&peer_id()).is_none());
    assert!(!runtime.forget(&peer_id()).1);
}

#[test]
fn the_web_gateway_replaces_an_earlier_one() {
    let mut runtime = node();
    let (earlier, info) = runtime.publish_web_gateway("Site", 8080);
    assert!(earlier.is_none());
    runtime.web_gateway_published(info.unwrap().get_fullname().to_string());
    let (earlier, info) = runtime.publish_web_gateway("Site", 8081);
    assert_eq!(
        earlier,
        Some("arc-web-0123456789abcdefghij._arcrelay-web._tcp.local.".to_string())
    );
    assert_eq!(info.unwrap().get_port(), 8081);
    assert!(runtime.unpublish_web_gateway().is_none());
}

#[test]
fn changed_grants_end_sessions() {
    let inject = CapabilityId { order: 3, role: CapabilityRole::CrossScreenInject };
    let mut runtime = node();
    runtime.register_session(1, &session(SessionKind::Control, 1), GONE);
    runtime.register_session(2, &session(SessionKind::RealtimeInput, 1), GONE);
    assert_eq!(runtime.grant(&peer_id(), inject), vec![2]);
    assert!(runtime.revoke(&peer_id(), false).is_empty());
    assert_eq!(runtime.revoke(&peer_id(), true), vec![1]);
    assert!(runtime.disconnect(&peer_id()).is_empty());
    runtime.register_session(3, &session(SessionKind::Print, 1), GONE);
    assert!(!runtime.release(&peer_id(), SessionKind::Print, 4));
    assert!(runtime.release(&peer_id(), SessionKind::Print, 3));
}

#[test]
fn pairing_begins_with_an_offer() {
    let sync = CapabilityId { order: 1, role: CapabilityRole::Other };
    let mut runtime = node();
    let (offer, plan) = runtime
        .begin_pairing(
            &advertisement("arc-peer"),
            vec![PairingGrantRequest::inbound(sync)],
            GONE,
        )
        .unwrap();
    assert_eq!(offer.offered.len(), 1);
    assert_eq!(dialed(plan), vec![v4(1, 8765)]);
    let session = session(SessionKind::FileTransfer, 1);
    assert!(runtime.is_paired_session(&session, Ok(Some(record()))).unwrap());
    assert!(!runtime.is_paired_session(&session, Ok(None)).unwrap());
    assert!(runtime.is_paired_session(&session, Err("disk".to_string())).is_err());
}

#[test]
fn scans_and_probes_are_limited() {
    let mut runtime = node();
    let source = IpAddress::V4(ipv4(10, 0, 0, 1));
    for _ in 0..4 {
        assert!(runtime.admit_discovery_probe(source, 5).is_ok());
    }
    assert!(matches!(runtime.admit_discovery_probe(source, 5), Err(NetworkError::Busy(_))));
    runtime.cancel_lan_scan();
    assert!(runtime.is_scan_cancelled());
    assert!(runtime.scan_local_ipv4(5).is_none());
    assert!(!runtime.is_scan_cancelled());
    assert!(runtime.scan_local_ipv4(6).unwrap().throttled);
}

#[test]
fn a_hello_is_answered_unless_the_device_is_hidden() {
    let mut runtime = node();
    let source = IpAddress::V4(ipv4(10, 0, 0, 1));
    let peer = session(SessionKind::Control, 0).peer;
    let mut answer = |runtime: &mut NetworkRuntime, kind, record, has_permit| {
        match runtime.authenticate_inbound(kind, &peer, record, source, 5, has_permit) {
            Ok(hello) => hello.device_id,
            Err(error) => error.message(),
        }
    };
    assert_eq!(answer(&mut runtime, SessionKind::Pairing, Ok(None), false), OWN);
    let limit = "network runtime is busy: discovery probe limit reached";
    assert_eq!(answer(&mut runtime, SessionKind::DiscoveryProbe, Ok(None), false), limit);
    for _ in 0..3 {
        assert_eq!(answer(&mut runtime, SessionKind::DiscoveryProbe, Ok(None), true), OWN);
    }
    let rate = "network runtime is busy: discovery probe source is rate limited";
    assert_eq!(answer(&mut runtime, SessionKind::DiscoveryProbe, Ok(None), true), rate);
    runtime.set_discoverable(false);
    let hidden = "peer is not authorized: device is not accepting new nearby connections";
    assert_eq!(answer(&mut runtime, SessionKind::DiscoveryProbe, Ok(None), true), hidden);
    assert_eq!(answer(&mut runtime, SessionKind::Pairing, Ok(None), true), hidden);
    assert_eq!(answer(&mut runtime, SessionKind::Pairing, Ok(Some(record())), true), OWN);
    assert_eq!(answer(&mut runtime, SessionKind::Control, Ok(None), true), OWN);
}

#[test]
fn announcements_come_and_go() {
    let mut runtime = node();
    assert!(runtime.resolve("peer".to_string(), advertisement("arc-peer")));
    assert!(!runtime.resolve("peer".to_string(), advertisement("arc-peer")));
    runtime.refresh();
    assert_eq!(runtime.discovery().snapshot().len(), 1);
    assert!(runtime.remove("peer"));
    assert!(runtime.discovery().snapshot().is_empty());
}
