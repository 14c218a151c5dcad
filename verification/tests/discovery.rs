use arcrelay_network::address::{ipv4, IpAddress, SocketAddress};
use arcrelay_network::discovery::{
    merge_observed_peer, same_discovery_route, DeviceMetadata, DiscoveryService,
    PeerAdvertisement, Publication,
};
use arcrelay_network::dns_sd::{
    advertised_identity, decode_service, device_hostname, hex, read_fields, service_info,
    service_record, to_service, unhex, web_gateway_record, ScopedAddress, ServiceFields,
    ServiceRecord,
};
use arcrelay_network::error::NetworkError;
use arcrelay_network::identity::{DeviceIdentity, SigningDomains};
use arcrelay_network::peer::{DeviceId, DevicePublicKey};
use arcrelay_network::runtime::session::SessionKindNumbers;
use arcrelay_network::table::Table;
use arcrelay_network::wire::WireProtocol;

const ID: &str = "arc-0123456789abcdefghijklmnopqrstuvwxyz";

fn wire() -> WireProtocol {
    WireProtocol {
        major: 1,
        min_minor: 0,
        max_minor: 0,
        discovery_protocol: "1".to_string(),
        service_type: "_arcrelay._udp.local.".to_string(),
        kinds: SessionKindNumbers {
            pairing: 1,
            control: 2,
            realtime_input: 3,
            file_transfer: 4,
            print: 5,
            discovery_probe: 6,
        },
    }
}

fn identity() -> DeviceIdentity {
    DeviceIdentity::new(
        [5; 32],
        DeviceId::from_text(ID.to_string()),
        b"certificate".to_vec(),
        SigningDomains {
            endpoint_binding: b"e\0".to_vec(),
            session_authentication: b"s\0".to_vec(),
            feature_payload: b"f\0".to_vec(),
        },
    )
}

fn metadata(name: &str) -> DeviceMetadata {
    DeviceMetadata {
        name: name.to_string(),
        platform: "test".to_string(),
        model: "test".to_string(),
    }
}

fn v4(a: u8, b: u8, c: u8, d: u8, port: u16) -> SocketAddress {
    SocketAddress::V4 { ip: ipv4(a, b, c, d), port }
}

fn advertisement(id: &str, name: &str) -> PeerAdvertisement {
    PeerAdvertisement {
        device_id: DeviceId::from_text(id.to_string()),
        public_key: DevicePublicKey::from_bytes(vec![1; 32]),
        metadata: metadata(name),
        addresses: vec![IpAddress::V4(ipv4(10, 1, 1, 54))],
        connection_addresses: vec![v4(10, 1, 1, 54, 8765)],
        port: 8765,
        certificate_sha256: [9; 32],
        last_seen_at_ms: 1,
    }
}

#[test]
fn authenticated_refresh_only_notifies_when_the_route_changes() {
    let identity = identity();
    let device_id = identity.device_id();
    let mut peers: Table<DeviceId, PeerAdvertisement> = Table::new();
    let mut peer = PeerAdvertisement {
        device_id: device_id.clone(),
        public_key: identity.public_key_value(),
        metadata: metadata("Peer"),
        addresses: vec![IpAddress::V4(ipv4(10, 1, 1, 54))],
        connection_addresses: vec![v4(10, 1, 1, 54, 8765)],
        port: 8765,
        certificate_sha256: identity.certificate_sha256(),
        last_seen_at_ms: 1,
    };

    assert!(merge_observed_peer(&mut peers, peer.clone()));
    peer.last_seen_at_ms = 2;
    assert!(!merge_observed_peer(&mut peers, peer.clone()));
    assert_eq!(peers.get(&device_id).unwrap().last_seen_at_ms, 2);

    peer.connection_addresses.push(v4(10, 1, 1, 54, 8766));
    assert!(merge_observed_peer(&mut peers, peer));
    assert_eq!(peers.get(&device_id).unwrap().connection_addresses.len(), 2);
}

#[test]
fn service_identity_uses_one_v1_endpoint() {
    let info = service_info(&identity(), &metadata("Desk"), 4711, &wire()).unwrap();
    let property = |key: &str| info.get_properties().get_property_val_str(key);
    assert_eq!(property("protocol"), Some("1"));
    assert_eq!(property("protocol_minor_min"), Some("0"));
    assert_eq!(property("protocol_minor_max"), Some("0"));
    assert_eq!(property("port"), Some("4711"));
    assert!(property("control_port").is_none());
    assert!(property("transfer_port").is_none());
    assert_eq!(property("device_id"), Some(ID));
    assert_eq!(property("device_name"), Some("Desk"));
    assert_eq!(info.get_fullname(), "arc-0123456789abcdefghij._arcrelay._udp.local.");
    assert_eq!(info.get_hostname(), "arcrelay-0123456789abcdefghijklmnopqrstuv.local.");
    assert_eq!(info.get_port(), 4711);
    assert!(info.is_addr_auto());
}

#[test]
fn an_endpoint_without_a_port_is_not_announced() {
    assert!(matches!(
        service_info(&identity(), &metadata("Desk"), 0, &wire()),
        Err(NetworkError::Discovery(text)) if text == "endpoint port cannot be zero"
    ));
    assert!(matches!(
        web_gateway_record(&DeviceId::from_text(ID.to_string()), "Site", 0),
        Err(NetworkError::Discovery(text)) if text == "web gateway port cannot be zero"
    ));
}

#[test]
fn properties_that_do_not_fit_are_refused() {
    let long = "x".repeat(300);
    assert!(matches!(
        service_info(&identity(), &metadata(&long), 1, &wire()),
        Err(NetworkError::Discovery(_))
    ));
    // "device_name" and "=" leave 243 bytes.
    assert!(service_info(&identity(), &metadata(&"x".repeat(243)), 1, &wire()).is_ok());
    assert!(service_info(&identity(), &metadata(&"x".repeat(244)), 1, &wire()).is_err());
}

#[test]
fn an_announcement_is_read_back() {
    let own = identity();
    let info = service_info(&own, &metadata("Desk"), 4711, &wire()).unwrap();
    let fields = read_fields(info.get_properties());
    let (id, key) = advertised_identity(&fields).unwrap();
    assert_eq!(id, ID);
    assert_eq!(key, own.public_key_value().as_bytes());
    let addresses = vec![
        ScopedAddress::V6 { ip: 0xfe80 << 112 | 1, scope: 7 },
        ScopedAddress::V4(ipv4(10, 0, 0, 2)),
        ScopedAddress::V4(ipv4(127, 0, 0, 1)),
        ScopedAddress::V4(0),
        ScopedAddress::V4(ipv4(10, 0, 0, 2)),
    ];
    let peer = decode_service(
        &fields,
        Some((DeviceId::from_text(id), DevicePublicKey::from_bytes(key))),
        &addresses,
        &wire(),
        77,
    )
    .unwrap();
    assert_eq!(peer.device_id.as_str(), ID);
    assert_eq!(peer.public_key, own.public_key_value());
    assert_eq!(peer.metadata.name, "Desk");
    assert_eq!(peer.port, 4711);
    assert_eq!(peer.certificate_sha256, own.certificate_sha256());
    assert_eq!(peer.last_seen_at_ms, 77);
    assert_eq!(
        peer.addresses,
        vec![IpAddress::V4(ipv4(10, 0, 0, 2)), IpAddress::V6(0xfe80 << 112 | 1)]
    );
    assert_eq!(
        peer.connection_addresses,
        vec![
            v4(10, 0, 0, 2, 4711),
            SocketAddress::V6 { ip: 0xfe80 << 112 | 1, port: 4711, flow_info: 0, scope_id: 7 },
        ]
    );
}

fn fields() -> ServiceFields {
    let text = |value: &str| Some(value.to_string());
    ServiceFields {
        protocol: text("1"),
        protocol_minor_min: None,
        protocol_minor_max: None,
        device_id: text(ID),
        device_name: None,
        platform: None,
        model: None,
        public_key: text("AQID"),
        port: text("80"),
        certificate: Some("0a".repeat(32)),
    }
}

fn decoded(fields: &ServiceFields) -> Option<PeerAdvertisement> {
    decode_service(
        fields,
        Some((DeviceId::from_text(ID.to_string()), DevicePublicKey::from_bytes(vec![1, 2, 3]))),
        &vec![ScopedAddress::V4(ipv4(10, 0, 0, 2))],
        &wire(),
        1,
    )
}

#[test]
fn announcements_of_other_kinds_are_ignored() {
    let peer = decoded(&fields()).unwrap();
    assert_eq!(peer.metadata.name, "ArcRelay Device");
    assert_eq!(peer.metadata.platform, "unknown");
    assert_eq!(peer.metadata.model, "unknown");
    assert_eq!(peer.certificate_sha256, [10; 32]);
    assert_eq!(advertised_identity(&fields()).unwrap().1, vec![1, 2, 3]);

    let mut other = fields();
    other.protocol = Some("2".to_string());
    assert!(decoded(&other).is_none());
    other.protocol = None;
    assert!(decoded(&other).is_none());

    let mut versions = fields();
    versions.protocol_minor_min = Some("1".to_string());
    assert!(decoded(&versions).is_none());
    versions.protocol_minor_max = Some("4".to_string());
    assert!(decoded(&versions).is_none());
    versions.protocol_minor_min = Some("0".to_string());
    assert!(decoded(&versions).is_some());
    versions.protocol_minor_max = Some("4294967296".to_string());
    assert!(decoded(&versions).is_none());
    versions.protocol_minor_max = Some("+4".to_string());
    assert!(decoded(&versions).is_some());

    for port in ["0", "65536", "", "8o", "-1"] {
        let mut wrong = fields();
        wrong.port = Some(port.to_string());
        assert!(decoded(&wrong).is_none());
    }
    for certificate in ["", "0a", "0", "zz"] {
        let mut wrong = fields();
        wrong.certificate = Some(certificate.to_string());
        assert!(decoded(&wrong).is_none());
    }
    let mut keyless = fields();
    keyless.public_key = Some("*".to_string());
    assert!(advertised_identity(&keyless).is_none());
    keyless.public_key = None;
    assert!(advertised_identity(&keyless).is_none());
    assert!(decode_service(&fields(), None, &vec![ScopedAddress::V4(1)], &wire(), 1).is_none());
    let identity =
        || Some((DeviceId::from_text(ID.to_string()), DevicePublicKey::from_bytes(vec![1])));
    let local = vec![ScopedAddress::V4(ipv4(127, 0, 0, 1)), ScopedAddress::V6 { ip: 1, scope: 0 }];
    assert!(decode_service(&fields(), identity(), &local, &wire(), 1).is_none());
}

#[test]
fn bytes_as_hexadecimal_text() {
    assert_eq!(hex(&[0, 0x1f, 0xff]), "001fff");
    assert_eq!(unhex("001fff").unwrap(), vec![0, 0x1f, 0xff]);
    assert_eq!(unhex("AbcD").unwrap(), vec![0xab, 0xcd]);
    assert_eq!(unhex("").unwrap(), Vec::<u8>::new());
    assert_eq!(unhex("+f").unwrap(), vec![15]);
    for text in ["0", "0g", "+", "++", "-1", "f+", "\u{e9}"] {
        assert!(unhex(text).is_none());
    }
}

#[test]
fn hosts_are_named_after_their_devices() {
    let name = |id: &str| device_hostname(&DeviceId::from_text(id.to_string()));
    assert_eq!(name(ID), "arcrelay-0123456789abcdefghijklmnopqrstuv.local");
    assert_eq!(name("arc-abc"), "arcrelay-abc.local");
    assert_eq!(name("arc-arc-abc"), "arcrelay-abc.local");
    assert_eq!(name("plain"), "arcrelay-plain.local");
}

#[test]
fn the_web_gateway_is_announced_on_its_own() {
    let record = web_gateway_record(&DeviceId::from_text(ID.to_string()), "Site", 8080).unwrap();
    assert_eq!(record.instance, "arc-web-0123456789abcdefghij");
    assert_eq!(record.host, "arcrelay-0123456789abcdefghijklmnopqrstuv.local.");
    let info = to_service(&record).unwrap();
    assert_eq!(info.get_property_val_str("feature"), Some("files"));
    assert_eq!(info.get_property_val_str("site_name"), Some("Site"));
    assert_eq!(info.get_property_val_str("version"), Some("1"));
    assert_eq!(info.get_fullname(), "arc-web-0123456789abcdefghij._arcrelay-web._tcp.local.");
    let too_long = ServiceRecord {
        service_type: "_x._tcp.local.".to_string(),
        instance: "x".to_string(),
        host: "x.local.".to_string(),
        port: 1,
        properties: vec![("k".to_string(), "v".repeat(254))],
    };
    assert!(matches!(to_service(&too_long), Err(NetworkError::Discovery(_))));
}

#[test]
fn the_record_lists_every_property_once() {
    let record = service_record(&identity(), &metadata("Desk"), 4711, &wire()).unwrap();
    let keys: Vec<&str> = record.properties.iter().map(|pair| pair.0.as_str()).collect();
    assert_eq!(
        keys,
        vec![
            "protocol",
            "protocol_minor_min",
            "protocol_minor_max",
            "device_id",
            "device_name",
            "platform",
            "model",
            "public_key",
            "port",
            "certificate",
        ]
    );
    let key_text = &record.properties[7].1;
    assert_eq!(key_text.len(), 43);
    assert!(key_text.chars().all(|c| c.is_ascii_alphanumeric() || c == '-' || c == '_'));
}

#[test]
fn a_direct_route_outlives_the_announcement() {
    let (mut service, info) =
        DiscoveryService::start(&identity(), &metadata("Desk"), 4711, &wire()).unwrap();
    assert_eq!(service.local_fullname(), info.get_fullname());
    assert_eq!(service.local_hostname(), "arcrelay-0123456789abcdefghijklmnopqrstuv.local");
    let peer = advertisement("arc-b", "Phone");
    let mut announced = peer.clone();
    announced.connection_addresses = vec![v4(10, 9, 9, 9, 8765)];
    assert!(service.resolve("b._arcrelay".to_string(), announced));
    assert!(service.observe_authenticated(peer.clone()));
    assert_eq!(service.peer(&peer.device_id).unwrap().connection_addresses.len(), 2);
    assert!(!service.remove("unknown"));
    assert!(service.remove("b._arcrelay"));
    assert!(!service.remove("b._arcrelay"));
    let left = service.peer(&peer.device_id).unwrap();
    assert!(same_discovery_route(&left, &peer));
    assert!(service.forget_authenticated(&peer.device_id));
    assert!(!service.forget_authenticated(&peer.device_id));
    assert!(service.peer(&peer.device_id).is_none());
}

#[test]
fn the_snapshot_is_ordered_and_excludes_this_device() {
    let (mut service, _) =
        DiscoveryService::start(&identity(), &metadata("Desk"), 4711, &wire()).unwrap();
    assert!(!service.observe_authenticated(advertisement(ID, "Self")));
    assert!(!service.resolve("self".to_string(), advertisement(ID, "Self")));
    assert!(service.observe_authenticated(advertisement("arc-c", "Beta")));
    assert!(service.resolve("a".to_string(), advertisement("arc-a", "Beta")));
    assert!(service.resolve("b".to_string(), advertisement("arc-b", "Alpha")));
    assert!(!service.resolve("b".to_string(), advertisement("arc-b", "Alpha")));
    let order: Vec<&str> = service.snapshot().iter().map(|p| p.device_id.as_str()).collect();
    assert_eq!(order, vec!["arc-b", "arc-a", "arc-c"]);
    service.refresh();
    assert_eq!(service.snapshot().len(), 3);
}

#[test]
fn publication_follows_visibility() {
    let (mut service, _) =
        DiscoveryService::start(&identity(), &metadata("Desk"), 4711, &wire()).unwrap();
    assert_eq!(service.publication(true), Publication::Keep);
    assert_eq!(service.publication(false), Publication::Unregister);
    assert_eq!(service.update_local_metadata(), Publication::Register);
    service.set_local_published(false);
    assert_eq!(service.publication(true), Publication::Register);
    assert_eq!(service.update_local_metadata(), Publication::Keep);
    assert!(service.unpublish_web_gateway().is_none());
    let (earlier, info) = service.publish_web_gateway("Site", 8080);
    assert!(earlier.is_none());
    assert_eq!(info.unwrap().get_port(), 8080);
    service.web_gateway_published("web".to_string());
    let (earlier, info) = service.publish_web_gateway("Site", 0);
    assert!(earlier.is_none());
    assert!(matches!(
        info,
        Err(NetworkError::Discovery(text)) if text == "web gateway port cannot be zero"
    ));
    let (earlier, info) = service.publish_web_gateway(&"x".repeat(300), 8080);
    assert_eq!(earlier, Some("web".to_string()));
    assert!(info.is_err());
    service.web_gateway_published("web".to_string());
    assert_eq!(service.unpublish_web_gateway(), Some("web".to_string()));
    assert!(service.unpublish_web_gateway().is_none());
}

#[test]
fn older_news_do_not_replace_newer_ones() {
    let mut peers: Table<DeviceId, PeerAdvertisement> = Table::new();
    let mut newer = advertisement("arc-b", "New name");
    newer.last_seen_at_ms = 10;
    assert!(merge_observed_peer(&mut peers, newer));
    let mut older = advertisement("arc-b", "Old name");
    older.addresses = vec![IpAddress::V4(ipv4(10, 1, 1, 55))];
    assert!(merge_observed_peer(&mut peers, older));
    let known = peers.get(&DeviceId::from_text("arc-b".to_string())).unwrap();
    assert_eq!(known.metadata.name, "New name");
    assert_eq!(known.last_seen_at_ms, 10);
    assert_eq!(known.addresses.len(), 2);
}
