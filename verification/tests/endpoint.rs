use arcrelay_network::address::{
    ipv4, is_dialable, socket_text, IpAddress, SocketAddress,
};
use arcrelay_network::endpoint::{
    backoff, network_scope, EndpointSource, InMemoryEndpointRepository,
};
use arcrelay_network::error::NetworkError;
use arcrelay_network::peer::DeviceId;

fn v4(a: u8, b: u8, c: u8, d: u8, port: u16) -> SocketAddress {
    SocketAddress::V4 { ip: ipv4(a, b, c, d), port }
}

fn peer(text: &str) -> DeviceId {
    DeviceId::from_text(text.to_string())
}

#[test]
fn authenticated_endpoints_are_updated_and_backed_off() {
    let mut repository = InMemoryEndpointRepository::new();
    let id = peer("arc-peer");
    let address = v4(10, 42, 7, 8, 8767);
    repository.record_authenticated(&id, address, [3; 32], EndpointSource::Manual, 1_000);
    let endpoints = repository.endpoints(&id, 1_000);
    assert_eq!(endpoints.len(), 1);
    assert_eq!(endpoints[0].address, address);
    assert_eq!(endpoints[0].network_scope, "10.42.7.0/24");

    repository.record_failure(&id, address, 1_000);
    assert!(repository.endpoints(&id, 1_000).is_empty());
    assert!(repository.endpoints(&id, 2_999).is_empty());
    let waiting = repository.endpoints(&id, 3_000);
    assert_eq!(waiting[0].consecutive_failures, 1);
    repository.record_authenticated(&id, address, [4; 32], EndpointSource::History, 1_500);
    let endpoints = repository.endpoints(&id, 1_500);
    assert_eq!(endpoints.len(), 1);
    assert_eq!(endpoints[0].certificate_sha256, [4; 32]);
    assert_eq!(endpoints[0].consecutive_failures, 0);
    assert_eq!(endpoints[0].first_seen_at_ms, 1_000);
    assert_eq!(endpoints[0].last_seen_at_ms, 1_500);
    assert_eq!(endpoints[0].source, EndpointSource::History);
}

#[test]
fn the_latest_sixteen_endpoints_are_kept() {
    let mut repository = InMemoryEndpointRepository::default();
    let id = peer("arc-peer");
    for n in 0..20_u8 {
        let at = 100 + i64::from(n);
        repository.record_authenticated(&id, v4(10, 0, 0, n, 1), [n; 32], EndpointSource::Mdns, at);
    }
    let endpoints = repository.endpoints(&id, 1_000);
    assert_eq!(endpoints.len(), 16);
    assert_eq!(endpoints[0].address, v4(10, 0, 0, 19, 1));
    assert_eq!(endpoints[15].address, v4(10, 0, 0, 4, 1));
    repository.record_authenticated(&peer("arc-other"), v4(10, 1, 0, 1, 1), [0; 32], EndpointSource::Scan, 5);
    repository.forget(&id);
    assert!(repository.endpoints(&id, 1_000).is_empty());
    assert_eq!(repository.endpoints(&peer("arc-other"), 1_000).len(), 1);
}

#[test]
fn the_latest_success_is_offered_first_and_failures_wait_longer() {
    let mut repository = InMemoryEndpointRepository::new();
    let id = peer("arc-peer");
    let first = v4(10, 0, 0, 1, 1);
    let second = v4(10, 0, 0, 2, 1);
    repository.record_authenticated(&id, first, [1; 32], EndpointSource::Mdns, 10);
    repository.record_authenticated(&id, second, [2; 32], EndpointSource::Mdns, 20);
    assert_eq!(repository.endpoints(&id, 20)[0].address, second);
    repository.record_failure(&id, first, 100);
    repository.record_failure(&id, first, 200);
    assert_eq!(repository.endpoints(&id, 4_199).len(), 1);
    assert_eq!(repository.endpoints(&id, 4_200).len(), 2);
    repository.record_authenticated(&id, first, [3; 32], EndpointSource::History, 300);
    let offered = repository.endpoints(&id, 300);
    assert_eq!(offered[0].address, first);
    assert_eq!(offered[0].certificate_sha256, [3; 32]);
    assert_eq!(offered.len(), 2);
}

#[test]
fn failures_of_unknown_endpoints_change_nothing() {
    let mut repository = InMemoryEndpointRepository::new();
    let id = peer("arc-peer");
    repository.record_failure(&id, v4(10, 0, 0, 1, 1), 0);
    assert!(repository.endpoints(&id, 0).is_empty());
    repository.record_authenticated(&id, v4(10, 0, 0, 1, 1), [0; 32], EndpointSource::Mdns, 1);
    repository.record_failure(&id, v4(10, 0, 0, 2, 1), 1);
    assert_eq!(repository.endpoints(&id, 1).len(), 1);
    // A wait never runs past the end of time.
    repository.record_failure(&id, v4(10, 0, 0, 1, 1), i64::MAX);
    assert_eq!(repository.endpoints(&id, i64::MAX)[0].retry_after_ms, i64::MAX);
}

#[test]
fn waits_double_up_to_a_limit() {
    assert_eq!(backoff(0), 1_000);
    assert_eq!(backoff(1), 2_000);
    assert_eq!(backoff(5), 32_000);
    assert_eq!(backoff(8), 256_000);
    assert_eq!(backoff(9), 256_000);
    assert_eq!(backoff(u32::MAX), 256_000);
}

#[test]
fn sources_read_back_from_storage() {
    for (source, number) in [
        (EndpointSource::Mdns, 1),
        (EndpointSource::Inbound, 2),
        (EndpointSource::History, 3),
        (EndpointSource::Scan, 4),
        (EndpointSource::Manual, 5),
        (EndpointSource::Relayed, 6),
    ] {
        assert_eq!(source.encode(), number);
        assert_eq!(EndpointSource::decode(number).unwrap(), source);
    }
    for number in [0, 7, -1, i64::MAX] {
        assert!(matches!(
            EndpointSource::decode(number),
            Err(NetworkError::Repository(text)) if text == "unknown remembered endpoint source"
        ));
    }
}

#[test]
fn scopes_name_the_network() {
    assert_eq!(network_scope(v4(192, 168, 10, 20, 8765)), "192.168.10.0/24");
    assert_eq!(
        network_scope(SocketAddress::V6 { ip: 1 << 100, port: 1, flow_info: 0, scope_id: 12 }),
        "ipv6-if-12"
    );
}

#[test]
fn addresses_as_text() {
    let v6 = |ip: u128, scope_id: u32| SocketAddress::V6 { ip, port: 443, flow_info: 0, scope_id };
    assert_eq!(socket_text(v4(10, 1, 1, 54, 8765)), "10.1.1.54:8765");
    assert_eq!(socket_text(v6(0, 0)), "[::]:443");
    assert_eq!(socket_text(v6(1, 0)), "[::1]:443");
    assert_eq!(socket_text(v6(0xfe80 << 112 | 1, 12)), "[fe80::1%12]:443");
    assert_eq!(socket_text(v6(0xffff_c000_0201, 0)), "[::ffff:192.0.2.1]:443");
    assert_eq!(
        socket_text(v6(0x2001_0db8_0000_0001_0000_0000_0000_0001, 0)),
        "[2001:db8:0:1::1]:443"
    );
    assert_eq!(
        socket_text(v6(0x0001_0002_0003_0004_0005_0006_0007_0008, 0)),
        "[1:2:3:4:5:6:7:8]:443"
    );
}

#[test]
fn only_other_hosts_can_be_dialed() {
    assert!(is_dialable(v4(10, 0, 0, 1, 8765)));
    assert!(!is_dialable(v4(10, 0, 0, 1, 0)));
    assert!(!is_dialable(v4(127, 0, 0, 1, 1)));
    assert!(!is_dialable(v4(0, 0, 0, 0, 1)));
    assert!(!is_dialable(v4(224, 0, 0, 1, 1)));
    assert!(!is_dialable(v4(239, 255, 255, 255, 1)));
    assert!(is_dialable(v4(240, 0, 0, 1, 1)));
    let v6 = |ip: u128| SocketAddress::V6 { ip, port: 1, flow_info: 0, scope_id: 0 };
    assert!(!is_dialable(v6(0)));
    assert!(!is_dialable(v6(1)));
    assert!(!is_dialable(v6(0xff02 << 112 | 1)));
    assert!(is_dialable(v6(0xfe80 << 112 | 1)));
    assert!(IpAddress::V4(ipv4(1, 2, 3, 4)).is_before(&IpAddress::V6(0)));
    assert!(!IpAddress::V6(0).is_before(&IpAddress::V4(ipv4(1, 2, 3, 4))));
}
