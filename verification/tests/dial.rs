use arcrelay_network::address::{ipv4, socket_text, IpAddress, SocketAddress};
use arcrelay_network::discovery::{DeviceMetadata, PeerAdvertisement};
use arcrelay_network::endpoint::EndpointSource;
use arcrelay_network::error::NetworkError;
use arcrelay_network::peer::{DeviceId, DevicePublicKey, PeerRecord, TrustState};
use arcrelay_network::runtime::diagnostics::{
    address_family, canonical_endpoint, diagnostic_id, endpoint_id, label_of_digest,
    quic_failure_kind, scope_id, QuicFailure,
};
use arcrelay_network::runtime::dial::{
    check_probe_target, connect_paired_at, dial_candidates, endpoints_of, failure_detail,
    launch_delay_ms, manual_endpoints, manual_target, new_recovery_endpoint, next_candidate_step,
    probes_failed, remembered_endpoints, retries_from_fresh_port, select_known, CandidateAction,
    CandidateEvent, CandidateFailure, DialAction, DialPhase, DialRace, DialStep, EndpointDial,
    ExpectedPeer, ManualProbes, ProbeStep,
};
use arcrelay_network::runtime::limits::ProbeLimiter;
use arcrelay_network::runtime::relay::{
    accept_input_relay, admit_relay_handshake, authorize_input_relay, check_relayed_packet,
    forwards_datagram, new_input_relay_tunnel,
};
use arcrelay_network::runtime::session::{Session, SessionKind, SessionPeer, SessionRank};

fn v4(a: u8, b: u8, c: u8, d: u8, port: u16) -> SocketAddress {
    SocketAddress::V4 { ip: ipv4(a, b, c, d), port }
}

fn mapped(a: u8, b: u8, c: u8, d: u8, port: u16) -> SocketAddress {
    let ip = 0xffff_0000_0000 | u128::from(ipv4(a, b, c, d));
    SocketAddress::V6 { ip, port, flow_info: 0, scope_id: 0 }
}

fn link_local(scope_id: u32) -> SocketAddress {
    SocketAddress::V6 { ip: 0xfe80 << 112 | 1, port: 8765, flow_info: 0, scope_id }
}

#[test]
fn endpoint_diagnostics_correlate_mapped_ipv4_without_exposing_addresses() {
    let ipv4 = v4(10, 1, 1, 54, 8765);
    assert_eq!(socket_text(ipv4), "10.1.1.54:8765");
    let mapped = mapped(10, 1, 1, 54, 8765);
    assert_eq!(socket_text(mapped), "[::ffff:10.1.1.54]:8765");
    assert_eq!(endpoint_id(ipv4), endpoint_id(mapped));
    assert!(!endpoint_id(ipv4).contains("10.1.1.54"));
    assert_eq!(address_family(mapped), "ipv4");
    let scoped = link_local(12);
    assert_eq!(socket_text(scoped), "[fe80::1%12]:8765");
    assert_eq!(scope_id(scoped), 12);
    assert_eq!(address_family(scoped), "ipv6");
    assert_ne!(endpoint_id(scoped), endpoint_id(link_local(13)));
}

#[test]
fn mapped_ipv4_does_not_consume_two_dial_slots() {
    assert_eq!(socket_text(mapped(192, 0, 2, 1, 8765)), "[::ffff:192.0.2.1]:8765");
    assert_eq!(socket_text(v4(192, 0, 2, 1, 8765)), "192.0.2.1:8765");
    assert_eq!(canonical_endpoint(mapped(192, 0, 2, 1, 8765)), v4(192, 0, 2, 1, 8765));
    assert_eq!(socket_text(link_local(4)), "[fe80::1%4]:8765");
    assert_eq!(canonical_endpoint(link_local(4)), link_local(4));
    let both = vec![mapped(192, 0, 2, 1, 8765), v4(192, 0, 2, 1, 8765)];
    assert_eq!(dial_candidates(&both).unwrap(), vec![v4(192, 0, 2, 1, 8765)]);
}

#[test]
fn recovery_socket_requires_the_live_runtime_context() {
    assert!(matches!(
        new_recovery_endpoint(false, false),
        Err(NetworkError::RuntimeUnavailable)
    ));
    assert!(matches!(new_recovery_endpoint(false, true), Err(NetworkError::RuntimeUnavailable)));
    assert!(matches!(
        new_recovery_endpoint(true, true),
        Err(NetworkError::Connect(text)) if text == "network runtime is shut down"
    ));
    assert!(new_recovery_endpoint(true, false).is_ok());
}

#[test]
fn input_relay_endpoint_requires_a_current_runtime() {
    assert!(matches!(
        new_input_relay_tunnel(false, true, false),
        Err(NetworkError::RuntimeUnavailable)
    ));
    assert!(matches!(
        new_input_relay_tunnel(true, false, true),
        Err(NetworkError::Busy(text)) if text == "input relay tunnel limit reached"
    ));
    assert!(matches!(
        new_input_relay_tunnel(true, true, true),
        Err(NetworkError::Connect(text)) if text == "network runtime is shut down"
    ));
    assert!(new_input_relay_tunnel(true, true, false).is_ok());
}

#[test]
fn labels_are_digests() {
    let mut digest = [0_u8; 32];
    digest[..6].copy_from_slice(&[1, 2, 0xab, 0xcd, 0xef, 0xff]);
    assert_eq!(label_of_digest(&digest), "peer-0102abcdefff");
    // SHA-256 of "abc".
    assert_eq!(diagnostic_id("abc"), "peer-ba7816bf8f01");
}

#[test]
fn transport_failures_have_names() {
    for (failure, name) in [
        (QuicFailure::VersionMismatch, "version_mismatch"),
        (QuicFailure::TransportError, "transport_error"),
        (QuicFailure::ConnectionClosed, "peer_transport_close"),
        (QuicFailure::ApplicationClosed, "peer_application_close"),
        (QuicFailure::Reset, "peer_reset"),
        (QuicFailure::TimedOut, "idle_timeout"),
        (QuicFailure::LocallyClosed, "local_close"),
        (QuicFailure::CidsExhausted, "connection_ids_exhausted"),
    ] {
        assert_eq!(quic_failure_kind(failure), name);
    }
}

#[test]
fn a_dial_is_bounded_and_keeps_the_order() {
    let many: Vec<SocketAddress> = (1..=20).map(|n| v4(192, 0, 2, n, 1)).collect();
    let chosen = dial_candidates(&many).unwrap();
    assert_eq!(chosen, many[..16].to_vec());
    assert!(matches!(
        dial_candidates(&vec![]),
        Err(NetworkError::Connect(text)) if text == "no dial endpoints"
    ));
    assert_eq!(launch_delay_ms(0), 0);
    assert_eq!(launch_delay_ms(15), 3_000);
}

fn failure(
    address: SocketAddress,
    phase: DialPhase,
    quic: Option<QuicFailure>,
    error: NetworkError,
) -> CandidateFailure {
    CandidateFailure { address, phase, quic, error }
}

#[test]
fn a_candidate_wins_once_its_peer_is_authenticated() {
    let mut phase = DialPhase::CandidateCapacityWait;
    for (event, next, action) in [
        (
            CandidateEvent::Admitted,
            DialPhase::GlobalCapacityWait,
            CandidateAction::WaitForHandshake,
        ),
        (CandidateEvent::Admitted, DialPhase::QuicHandshake, CandidateAction::Connect),
        (CandidateEvent::Connected, DialPhase::PeerAuthentication, CandidateAction::Authenticate),
        (CandidateEvent::Authenticated, DialPhase::PeerAuthentication, CandidateAction::Register),
    ] {
        assert_eq!(
            next_candidate_step(phase, CandidateEvent::Failed),
            (phase, CandidateAction::Fail)
        );
        assert_eq!(next_candidate_step(phase, event), (next, action));
        phase = next;
    }
}

#[test]
fn failures_of_a_dial_are_collected() {
    let addresses = vec![v4(10, 0, 0, 1, 1), v4(10, 0, 0, 2, 2)];
    let (mut race, candidates) = DialRace::start(&addresses, EndpointSource::History).unwrap();
    assert_eq!(candidates, addresses);
    assert_eq!(
        race.candidate_failed(failure(
            addresses[0],
            DialPhase::QuicHandshake,
            None,
            NetworkError::Timeout
        )),
        DialAction::RecordFailure(addresses[0])
    );
    race.task_failed("task panicked".to_string());
    let (error, may_recover) = race.exhausted();
    assert_eq!(
        error.message(),
        "connection failed: 10.0.0.1:1: operation timed out; task panicked"
    );
    assert!(may_recover);
    race.candidate_failed(failure(
        addresses[1],
        DialPhase::PeerAuthentication,
        None,
        NetworkError::InvalidIdentity("x".to_string()),
    ));
    assert!(!race.exhausted().1);

    let (mut race, _) = DialRace::start(&addresses, EndpointSource::Mdns).unwrap();
    assert_eq!(
        race.candidate_failed(failure(
            addresses[0],
            DialPhase::CandidateCapacityWait,
            None,
            NetworkError::Timeout
        )),
        DialAction::Wait
    );
    assert!(!race.exhausted().1);
    race.candidate_failed(failure(
        addresses[1],
        DialPhase::QuicHandshake,
        Some(QuicFailure::TimedOut),
        NetworkError::Quic("timed out".to_string()),
    ));
    assert!(race.exhausted().1);
}

#[test]
fn failure_details_do_not_show_addresses() {
    let text = failure_detail(&failure(
        link_local(12),
        DialPhase::QuicHandshake,
        Some(QuicFailure::Reset),
        NetworkError::Quic("reset".to_string()),
    ));
    assert_eq!(
        text,
        format!(
            "{} ipv6 port=8765 scope=12 phase=quic_handshake code=network.unavailable quic=peer_reset",
            endpoint_id(link_local(12))
        )
    );
    let text = failure_detail(&failure(
        v4(10, 0, 0, 1, 9),
        DialPhase::GlobalCapacityWait,
        None,
        NetworkError::Timeout,
    ));
    assert!(text.ends_with(
        " ipv4 port=9 scope=0 phase=global_capacity_wait code=network.deadline_exceeded quic=none"
    ));
    assert_eq!(DialPhase::CandidateCapacityWait.label(), "candidate_capacity_wait");
    assert_eq!(DialPhase::PeerAuthentication.label(), "peer_authentication");
}

#[test]
fn only_lasting_sessions_get_a_second_path() {
    assert!(retries_from_fresh_port(SessionKind::Control, true));
    assert!(!retries_from_fresh_port(SessionKind::Control, false));
    assert!(!retries_from_fresh_port(SessionKind::Pairing, true));
    assert!(!retries_from_fresh_port(SessionKind::DiscoveryProbe, true));
}

fn advertisement(addresses: Vec<IpAddress>, connection_addresses: Vec<SocketAddress>) -> PeerAdvertisement {
    PeerAdvertisement {
        device_id: DeviceId::from_text("arc-peer".to_string()),
        public_key: DevicePublicKey::from_bytes(vec![1; 32]),
        metadata: DeviceMetadata {
            name: "Peer".to_string(),
            platform: "test".to_string(),
            model: "test".to_string(),
        },
        addresses,
        connection_addresses,
        port: 8765,
        certificate_sha256: [9; 32],
        last_seen_at_ms: 1,
    }
}

#[test]
fn announced_addresses_stand_in_for_missing_endpoints() {
    let plain = vec![IpAddress::V4(ipv4(10, 0, 0, 1))];
    assert_eq!(
        endpoints_of(&advertisement(plain.clone(), vec![])),
        vec![v4(10, 0, 0, 1, 8765)]
    );
    assert_eq!(
        endpoints_of(&advertisement(plain, vec![v4(10, 0, 0, 2, 1)])),
        vec![v4(10, 0, 0, 2, 1)]
    );
    assert!(matches!(
        remembered_endpoints(&vec![]),
        Err(NetworkError::Connect(text)) if text == "peer has no remembered authenticated endpoint"
    ));
}

#[test]
fn relayed_routes_are_checked() {
    let list = connect_paired_at(&vec![
        v4(10, 0, 0, 2, 1),
        v4(127, 0, 0, 1, 1),
        v4(10, 0, 0, 1, 1),
        v4(10, 0, 0, 2, 1),
        v4(10, 0, 0, 3, 0),
    ])
    .unwrap();
    assert_eq!(list, vec![v4(10, 0, 0, 1, 1), v4(10, 0, 0, 2, 1)]);
    assert!(matches!(
        connect_paired_at(&vec![v4(224, 0, 0, 1, 1)]),
        Err(NetworkError::Connect(text)) if text == "relayed peer route has no dialable address"
    ));
    assert!(matches!(
        connect_paired_at(&vec![v4(10, 0, 0, 1, 1); 17]),
        Err(NetworkError::Protocol(text)) if text == "relayed peer route exceeds endpoint limit"
    ));
    assert!(connect_paired_at(&vec![v4(10, 0, 0, 1, 1); 16]).is_ok());
}

#[test]
fn manual_hosts_are_checked() {
    assert_eq!(manual_target(" desk.local\n", Some(80)).unwrap(), ("desk.local", vec![80]));
    let ports: Vec<u16> = (8765..=8775).collect();
    assert_eq!(manual_target("desk", None).unwrap(), ("desk", ports));
    for host in ["", "  ", "a b", "a\u{a0}b", &"x".repeat(254)] {
        assert!(matches!(
            manual_target(host, None),
            Err(NetworkError::Connect(text)) if text == "invalid manual host"
        ));
    }
    assert!(manual_target(&"x".repeat(253), None).is_ok());
    assert!(matches!(
        manual_target("desk", Some(0)),
        Err(NetworkError::Connect(text)) if text == "endpoint port cannot be zero"
    ));
    let resolved: Vec<SocketAddress> = (0..40).rev().map(|n| v4(10, 0, 0, n, 1)).collect();
    let list = manual_endpoints(&resolved).unwrap();
    assert_eq!(list.len(), 32);
    assert_eq!(list[0], v4(10, 0, 0, 0, 1));
    assert!(matches!(
        manual_endpoints(&vec![v4(127, 0, 0, 1, 1)]),
        Err(NetworkError::Connect(text)) if text == "manual host did not resolve to a dialable address"
    ));
}

#[test]
fn a_selected_host_is_dialed_whatever_else_is_known_of_the_device() {
    let selected = v4(10, 0, 0, 99, 8765);
    let mut known: Vec<SocketAddress> = (1..=20).map(|n| v4(192, 0, 2, n, 8765)).collect();
    known.push(selected);
    let snapshot = vec![advertisement(vec![], known)];
    let peer = select_known(&snapshot, &vec![v4(10, 9, 9, 9, 1), selected]).unwrap();
    assert_eq!(peer.connection_addresses, vec![selected]);
    assert_eq!(peer.addresses, vec![selected.ip()]);
    assert_eq!(peer.port, 8765);
    assert_eq!(dial_candidates(&endpoints_of(&peer)).unwrap(), vec![selected]);
    let by_address = vec![advertisement(vec![selected.ip()], vec![])];
    assert!(select_known(&by_address, &vec![selected]).is_some());
    assert!(select_known(&by_address, &vec![v4(10, 0, 0, 99, 1)]).is_none());
}

#[test]
fn failed_probes_are_told() {
    let error = probes_failed(&vec![
        (v4(10, 0, 0, 1, 1), NetworkError::Timeout),
        (v4(10, 0, 0, 2, 1), NetworkError::SelfConnection),
    ]);
    assert_eq!(
        error.message(),
        "connection failed: 10.0.0.1:1: operation timed out; 10.0.0.2:1: cannot connect to this device"
    );
    assert!(check_probe_target(v4(10, 0, 0, 1, 1)).is_ok());
    assert!(matches!(
        check_probe_target(v4(127, 0, 0, 1, 1)),
        Err(NetworkError::Connect(text)) if text == "endpoint is not dialable"
    ));
}

#[test]
fn endpoints_are_probed_until_one_answers() {
    let endpoints = vec![v4(10, 0, 0, 1, 1), v4(10, 0, 0, 2, 1), v4(10, 0, 0, 3, 1)];
    let mut probes = ManualProbes::start(endpoints.clone());
    assert!(matches!(probes.next_step(), ProbeStep::Probe(address) if address == endpoints[0]));
    assert_eq!(probes.probe_ended::<u8>(Err(NetworkError::Timeout)), None);
    assert!(matches!(probes.next_step(), ProbeStep::Probe(address) if address == endpoints[1]));
    assert_eq!(probes.probe_ended(Ok(7_u8)), Some(7));

    let mut probes = ManualProbes::start(endpoints[..2].to_vec());
    assert_eq!(probes.probe_ended::<u8>(Err(NetworkError::Timeout)), None);
    assert_eq!(probes.probe_ended::<u8>(Err(NetworkError::SelfConnection)), None);
    match probes.next_step() {
        ProbeStep::Fail(error) => assert_eq!(
            error.message(),
            "connection failed: 10.0.0.1:1: operation timed out; 10.0.0.2:1: cannot connect to this device"
        ),
        ProbeStep::Probe(_) => panic!("no endpoint is left"),
    }
}

#[test]
fn a_dial_is_made_at_most_twice() {
    let route = vec![v4(10, 0, 0, 1, 1)];
    let start = |kind: SessionKind| EndpointDial::start(route.clone(), kind, EndpointSource::Mdns);
    let failed = |recover: bool| Err::<u8, (&str, bool)>(("no answer", recover));
    let dial = start(SessionKind::Control);
    assert!(!dial.from_fresh_port());
    assert!(matches!(dial.ended(Ok::<u8, (&str, bool)>(7)), DialStep::Done(Ok(7))));
    assert!(matches!(
        start(SessionKind::Control).ended(failed(false)),
        DialStep::Done(Err("no answer"))
    ));
    for kind in [SessionKind::DiscoveryProbe, SessionKind::Pairing] {
        assert!(matches!(start(kind).ended(failed(true)), DialStep::Done(Err("no answer"))));
    }
    let again = match start(SessionKind::Control).ended(failed(true)) {
        DialStep::Again(again) => again,
        DialStep::Done(_) => panic!("a second attempt"),
    };
    assert!(again.from_fresh_port());
    assert_eq!(again.addresses(), &route);
    assert_eq!(again.kind(), SessionKind::Control);
    assert_eq!(again.source(), EndpointSource::Mdns);
    assert!(matches!(again.ended(failed(true)), DialStep::Done(Err("no answer"))));
}

#[test]
fn four_probes_are_admitted_in_a_window() {
    let mut limiter = ProbeLimiter::new();
    let source = IpAddress::V4(ipv4(10, 0, 0, 1));
    let second = 1_000_000_000_u64;
    for n in 0..4 {
        assert!(limiter.admit_discovery_probe(source, n * second).is_ok());
    }
    assert!(matches!(
        limiter.admit_discovery_probe(source, 9 * second),
        Err(NetworkError::Busy(text)) if text == "discovery probe source is rate limited"
    ));
    assert!(limiter.admit_discovery_probe(IpAddress::V4(ipv4(10, 0, 0, 2)), 9 * second).is_ok());
    assert!(limiter.admit_discovery_probe(source, 10 * second).is_ok());
    for n in 0..600_u32 {
        assert!(limiter.admit_discovery_probe(IpAddress::V4(n), 100 * second).is_ok());
    }
}

fn session(kind: SessionKind, id: &str, key: u8) -> Session {
    Session {
        id: 1,
        kind,
        peer: SessionPeer {
            device_id: DeviceId::from_text(id.to_string()),
            public_key: DevicePublicKey::from_bytes(vec![key; 32]),
            metadata: DeviceMetadata {
                name: "Peer".to_string(),
                platform: "test".to_string(),
                model: "test".to_string(),
            },
            certificate_sha256: [9; 32],
            listen_port: 0,
        },
        verification_code: "000000".to_string(),
        rank: SessionRank {
            initiator_id: DeviceId::from_text(id.to_string()),
            initiator_nonce: vec![],
        },
        protocol_minor: 0,
        peer_process_instance_id: None,
        relayed: false,
    }
}

fn record() -> PeerRecord {
    PeerRecord {
        device_id: DeviceId::from_text("arc-peer".to_string()),
        public_key: DevicePublicKey::from_bytes(vec![1; 32]),
        display_name: "Peer".to_string(),
        platform: "test".to_string(),
        model: "test".to_string(),
        trust_state: TrustState::Paired,
        auto_connect: true,
        paired_at_ms: 1,
        updated_at_ms: 1,
    }
}

#[test]
fn a_relay_cannot_substitute_another_identity() {
    assert!(accept_input_relay(&session(SessionKind::RealtimeInput, "arc-peer", 1), &record()).is_ok());
    for refused in [
        accept_input_relay(&session(SessionKind::Control, "arc-peer", 1), &record()),
        accept_input_relay(&session(SessionKind::RealtimeInput, "arc-middle", 1), &record()),
        accept_input_relay(&session(SessionKind::RealtimeInput, "arc-peer", 2), &record()),
    ] {
        assert!(matches!(
            refused,
            Err(NetworkError::InvalidIdentity(text))
                if text == "input relay authenticated an unexpected source"
        ));
    }
    let source = || session(SessionKind::RealtimeInput, "arc-peer", 1);
    assert!(authorize_input_relay(source(), &record(), Ok(())).unwrap().is_relayed());
    assert!(matches!(
        authorize_input_relay(source(), &record(), Err("no grant".to_string())),
        Err(NetworkError::Unauthorized(text)) if text == "no grant"
    ));
    assert!(matches!(
        authorize_input_relay(
            session(SessionKind::RealtimeInput, "arc-middle", 1),
            &record(),
            Err("no grant".to_string())
        ),
        Err(NetworkError::InvalidIdentity(_))
    ));
    assert!(admit_relay_handshake(true).is_ok());
    assert!(matches!(
        admit_relay_handshake(false),
        Err(NetworkError::Busy(text)) if text == "input relay handshake limit reached"
    ));
    assert!(check_relayed_packet(&[1]).is_ok());
    assert!(matches!(
        check_relayed_packet(&[]),
        Err(NetworkError::Protocol(text)) if text == "empty input relay packet"
    ));
    let local = v4(127, 0, 0, 1, 5);
    assert!(forwards_datagram(local, local, 1));
    assert!(!forwards_datagram(local, local, 0));
    assert!(!forwards_datagram(v4(127, 0, 0, 1, 6), local, 1));
}

#[test]
fn the_expected_peer_is_authenticated() {
    let peer = session(SessionKind::Control, "arc-peer", 1).peer;
    let stranger = session(SessionKind::Control, "arc-wrong", 1).peer;
    for expected in [
        ExpectedPeer::Advertised(advertisement(vec![], vec![])),
        ExpectedPeer::Paired(record()),
    ] {
        assert_eq!(expected.id().as_str(), "arc-peer");
        assert!(expected.authenticate(&[9; 32], &peer).is_ok());
        assert!(expected.authenticate(&[9; 32], &stranger).is_err());
        assert!(expected.authenticate(&[8; 32], &peer).is_err());
    }
}
