//! The state of the process-wide runtime, and what it decides.
//!
//! Sockets, timers and storage belong to the program around it. They hand in
//! what they found, and carry out what is decided.
use vstd::prelude::*;
use vstd::string::*;
use vstd::utf8::*;

use crate::address::{
    address_set, is_address_set, is_endpoint_set, law_address_set, IpAddress, SocketAddress,
};
use crate::discovery::{
    is_listed, is_observed, is_snapshot, DeviceMetadata, DeviceMetadataView, DiscoveryService,
    DiscoveryView, PeerAdvertisement, PeerAdvertisementView, Publication,
};
use crate::dns_sd::{
    announcement, carries, cut, fits, has_room, hostname, id_suffix, is_gateway, names_service,
    property_map, service_fullname, service_info, text_option,
};
use crate::endpoint::{RememberedEndpoint, RememberedEndpointView};
use crate::error::{plain_result, NetworkError, NetworkErrorView};
use crate::identity::{transcript, DeviceIdentity};
use crate::order::{is_stable_sort, is_strictly_sorted};
use crate::peer::{
    id_key, views, CapabilityId, CapabilityRole, DeviceId, DevicePublicKey, DeviceSignature,
    PeerRecord, PeerRecordView, SigningContext, TrustState,
};
use crate::primitives::{
    base64_bytes, base64_text, ed25519_public_key, ed25519_signature, random_instance_id,
    sha256_digest,
};
use crate::runtime::accept::admit_concurrent_probe;
use crate::runtime::dial::{
    announced_endpoints, connect_paired_at, dialable_ones, endpoints_of, is_first_known,
    is_manual_list, known_at, manual_endpoints, remembered_endpoints, select_known, selected_at,
    ExpectedPeer,
};
use crate::runtime::limits::{
    lets_in, rate_after, rate_of, remembered_sources, ProbeLimiter, ProbeRate,
};
use crate::runtime::pairing::{
    begin_pairing, first_error, offers, request_key, PairingGrantRequest, PairingOffer,
};
use crate::runtime::protocol::{
    authenticate_inbound, check_view, is_paired_session, local_hello, own_hello, pairing_of,
    record_view, require_paired, SessionHello,
};
use crate::runtime::registry::{
    handles_among, handles_of, holder_of, is_connected, registration, without_peer, HolderStatus,
    Registration, SessionMap, SessionRegistry,
};
use crate::runtime::relay::{authorize_input_relay, relay_verdict};
use crate::runtime::scan::{may_scan, LanScanReport, ScanState};
use crate::runtime::session::{Session, SessionKind, SessionPeer, SessionPeerView};
use crate::wire::WireProtocol;

verus! {

/// The runtime of this process: its identity, what it knows of other devices,
/// and the sessions with them.
pub struct NetworkRuntime {
    process_instance_id: [u8; 16],
    identity: DeviceIdentity,
    wire: WireProtocol,
    metadata: DeviceMetadata,
    discovery: DiscoveryService,
    sessions: SessionRegistry,
    probes: ProbeLimiter,
    scan: ScanState,
    discoverable: bool,
    scan_cancelled: bool,
    stopped: bool,
}

/// What a [`NetworkRuntime`] holds beside its identity.
pub struct RuntimeView {
    pub instance: Seq<u8>,
    pub metadata: DeviceMetadataView,
    pub discovery: DiscoveryView,
    pub sessions: SessionMap,
    pub probes: Map<IpAddress, ProbeRate>,
    pub last_scan: Option<u64>,
    pub discoverable: bool,
    pub scan_cancelled: bool,
    pub stopped: bool,
}

impl View for NetworkRuntime {
    type V = RuntimeView;

    closed spec fn view(&self) -> RuntimeView {
        RuntimeView {
            instance: self.process_instance_id@,
            metadata: self.metadata@,
            discovery: self.discovery@,
            sessions: self.sessions@,
            probes: self.probes@,
            last_scan: self.scan.last_started,
            discoverable: self.discoverable,
            scan_cancelled: self.scan_cancelled,
            stopped: self.stopped,
        }
    }
}

/// How a connection comes about.
#[derive(Debug)]
pub enum ConnectPlan {
    /// Use the session of this handle.
    Reuse(u64),
    /// Dial these endpoints.
    Dial(Vec<SocketAddress>),
}

/// What becomes of a host that the user named.
#[derive(Debug)]
pub enum ManualTarget {
    /// This device is known there.
    Known(PeerAdvertisement),
    /// These endpoints are probed.
    Probe(Vec<SocketAddress>),
}

/// The advertisement that a session is evidence of: the device can be dialed at
/// the address that it connected from, at the port that it listens on.
pub open spec fn learned(
    peer: SessionPeerView,
    remote: SocketAddress,
    now: i64,
) -> PeerAdvertisementView {
    let port = if peer.listen_port == 0 {
        remote.spec_port()
    } else {
        peer.listen_port
    };
    PeerAdvertisementView {
        device_id: peer.device_id,
        public_key: peer.public_key,
        metadata: peer.metadata,
        addresses: seq![remote.spec_ip()],
        connection_addresses: seq![SocketAddress::spec_new(remote.spec_ip(), port)],
        port,
        certificate_sha256: peer.certificate_sha256,
        last_seen_at_ms: now,
    }
}

/// The advertisement that a session is evidence of.
pub fn learned_from(session: &Session, remote: SocketAddress, now: i64) -> (peer: PeerAdvertisement)
    ensures
        peer@ == learned(session@.peer, remote, now),
{
    let port: u16 = if session.peer.listen_port == 0 {
        remote.port()
    } else {
        session.peer.listen_port
    };
    let mut addresses: Vec<IpAddress> = Vec::new();
    addresses.push(remote.ip());
    let mut connection_addresses: Vec<SocketAddress> = Vec::new();
    connection_addresses.push(SocketAddress::new(remote.ip(), port));
    assert(addresses@ =~= seq![remote.spec_ip()]);
    assert(connection_addresses@ =~= seq![SocketAddress::spec_new(remote.spec_ip(), port)]);
    PeerAdvertisement {
        device_id: session.peer.device_id.clone(),
        public_key: session.peer.public_key.clone(),
        metadata: session.peer.metadata.clone(),
        addresses,
        connection_addresses,
        port,
        certificate_sha256: session.peer.certificate_sha256,
        last_seen_at_ms: now,
    }
}

/// The advertisement of a paired device that its remembered endpoints are
/// evidence of. The first endpoint gives the port and the certificate.
pub open spec fn is_recalled(
    record: PeerRecordView,
    endpoints: Seq<RememberedEndpointView>,
    peer: PeerAdvertisementView,
) -> bool {
    let all = endpoints.map_values(|endpoint: RememberedEndpointView| endpoint.address);
    &&& is_address_set(all.map_values(|address: SocketAddress| address.spec_ip()), peer.addresses)
    &&& peer == PeerAdvertisementView {
        device_id: record.device_id,
        public_key: record.public_key,
        metadata: DeviceMetadataView {
            name: record.display_name,
            platform: record.platform,
            model: record.model,
        },
        addresses: peer.addresses,
        connection_addresses: all,
        port: endpoints[0].address.spec_port(),
        certificate_sha256: endpoints[0].certificate_sha256,
        last_seen_at_ms: endpoints[0].last_seen_at_ms,
    }
}

/// The advertisement of a paired device that its remembered endpoints are
/// evidence of, where there are any.
pub fn remembered_peer(record: PeerRecord, endpoints: &Vec<RememberedEndpoint>) -> (peer: Option<
    PeerAdvertisement,
>)
    ensures
        match peer {
            Some(peer) => endpoints@.len() > 0 && is_recalled(record@, views(endpoints@), peer@),
            None => endpoints@.len() == 0,
        },
{
    if endpoints.len() == 0 {
        return None;
    }
    let ghost all = views(endpoints@).map_values(|endpoint: RememberedEndpointView| endpoint.address);
    let mut connection_addresses: Vec<SocketAddress> = Vec::new();
    let mut ips: Vec<IpAddress> = Vec::new();
    let mut i: usize = 0;
    while i < endpoints.len()
        invariant
            i <= endpoints.len(),
            all == views(endpoints@).map_values(
                |endpoint: RememberedEndpointView| endpoint.address,
            ),
            connection_addresses.len() == i,
            ips.len() == i,
            forall|j: int| 0 <= j < i ==> #[trigger] connection_addresses@[j] == all[j],
            forall|j: int| 0 <= j < i ==> #[trigger] ips@[j] == all[j].spec_ip(),
        decreases endpoints.len() - i,
    {
        assert(all[i as int] == endpoints@[i as int].address);
        connection_addresses.push(endpoints[i].address);
        ips.push(endpoints[i].address.ip());
        i += 1;
    }
    assert(connection_addresses@ =~= all);
    assert(ips@ =~= all.map_values(|address: SocketAddress| address.spec_ip()));
    assert(views(endpoints@)[0] == endpoints@[0]@);
    Some(
        PeerAdvertisement {
            device_id: record.device_id,
            public_key: record.public_key,
            metadata: DeviceMetadata {
                name: record.display_name,
                platform: record.platform,
                model: record.model,
            },
            addresses: address_set(ips),
            connection_addresses,
            port: endpoints[0].address.port(),
            certificate_sha256: endpoints[0].certificate_sha256,
            last_seen_at_ms: endpoints[0].last_seen_at_ms,
        },
    )
}

/// The handle of the session to use for a peer and a purpose.
pub open spec fn usable(
    sessions: SessionMap,
    peer: Seq<char>,
    kind: SessionKind,
    status: HolderStatus,
) -> Option<u64> {
    match holder_of(sessions, peer, kind) {
        Some(active) => if status.held && status.open {
            Some(active.handle)
        } else {
            None
        },
        None => None,
    }
}

/// The sessions once it was asked for the one of a peer and a purpose.
pub open spec fn after_use(
    sessions: SessionMap,
    peer: Seq<char>,
    kind: SessionKind,
    status: HolderStatus,
) -> SessionMap {
    if usable(sessions, peer, kind, status) is Some {
        sessions
    } else {
        sessions.remove((peer, kind))
    }
}

/// Why an announced device is not dialed: it is this device, or the kind of
/// session needs a pairing that does not stand.
pub open spec fn refusal(
    own_id: Seq<char>,
    peer: PeerAdvertisementView,
    kind: SessionKind,
    record: Result<Option<PeerRecordView>, Seq<char>>,
) -> Option<NetworkErrorView> {
    if peer.device_id == own_id {
        Some(NetworkErrorView::SelfConnection)
    } else if kind.nearby() {
        None
    } else {
        match pairing_of(record, Some(peer.public_key)) {
            Ok(_) => None,
            Err(error) => Some(error),
        }
    }
}

impl NetworkRuntime {
    /// The root secret.
    pub closed spec fn root(&self) -> Seq<u8> {
        self.identity.root()
    }

    /// The device id.
    pub closed spec fn own_id(&self) -> Seq<char> {
        self.identity.id()
    }

    /// The endpoint certificate.
    pub closed spec fn certificate(&self) -> Seq<u8> {
        self.identity.certificate()
    }

    /// The domain of a purpose.
    pub closed spec fn domain_of(&self, context: SigningContext) -> Seq<u8> {
        self.identity.domain_of(context)
    }

    /// The protocol that the runtime speaks.
    pub closed spec fn speaks(&self) -> WireProtocol {
        self.wire
    }

    /// The runtime is the same but for what it holds.
    pub open spec fn same_identity(&self, other: NetworkRuntime) -> bool {
        &&& self.root() == other.root()
        &&& self.own_id() == other.own_id()
        &&& self.certificate() == other.certificate()
        &&& forall|context: SigningContext| #[trigger]
            self.domain_of(context) == other.domain_of(context)
        &&& self.speaks() == other.speaks()
    }

    /// The runtime of a device that listens at `port`, and the service to
    /// register for it.
    pub fn bind(
        identity: DeviceIdentity,
        metadata: DeviceMetadata,
        port: u16,
        wire: WireProtocol,
    ) -> (bound: Result<(Self, mdns_sd::ServiceInfo), NetworkError>)
        requires
            port != 0 ==> names_service(identity.id()),
        ensures
            ({
                let record = announcement(
                    identity.id(),
                    base64_text(ed25519_public_key(identity.root())),
                    metadata@,
                    port,
                    sha256_digest(identity.certificate()),
                    wire,
                );
                match bound {
                    Ok((runtime, info)) => {
                        &&& port != 0 && fits(record.properties)
                        &&& carries(
                            info,
                            record.service_type,
                            record.instance,
                            record.host,
                            port,
                            property_map(record.properties),
                        )
                        &&& runtime.root() == identity.root() && runtime.own_id() == identity.id()
                            && runtime.certificate() == identity.certificate() && runtime.speaks()
                            == wire
                        &&& forall|context: SigningContext| #[trigger]
                            runtime.domain_of(context) == identity.domain_of(context)
                        &&& runtime@ == (RuntimeView {
                            instance: runtime@.instance,
                            metadata: metadata@,
                            discovery: DiscoveryView {
                                local_id: identity.id(),
                                fullname: service_fullname(info),
                                hostname: hostname(identity.id()),
                                web_fullname: None,
                                local_published: true,
                                mdns: Map::empty(),
                                authenticated: Map::empty(),
                                services: Map::empty(),
                                snapshot: seq![],
                            },
                            sessions: SessionMap::empty(),
                            probes: Map::empty(),
                            last_scan: None,
                            discoverable: true,
                            scan_cancelled: false,
                            stopped: false,
                        })
                    },
                    Err(error) => if port == 0 {
                        error@ == NetworkErrorView::Discovery("endpoint port cannot be zero"@)
                    } else {
                        !fits(record.properties) && error@ is Discovery
                    },
                }
            }),
            bound is Ok <==> port != 0 && has_room(identity.id(), metadata@, wire),
            bound is Ok ==> sha256_digest(identity.certificate()).len() == 32 && base64_bytes(
                base64_text(ed25519_public_key(identity.root())),
            ) == Some(ed25519_public_key(identity.root())),
    {
        match DiscoveryService::start(&identity, &metadata, port, &wire) {
            Err(error) => Err(error),
            Ok((discovery, info)) => Ok(
                (
                    NetworkRuntime {
                        process_instance_id: random_instance_id(),
                        identity,
                        wire,
                        metadata,
                        discovery,
                        sessions: SessionRegistry::new(),
                        probes: ProbeLimiter::new(),
                        scan: ScanState::new(),
                        discoverable: true,
                        scan_cancelled: false,
                        stopped: false,
                    },
                    info,
                ),
            ),
        }
    }

    /// The device id.
    pub fn device_id(&self) -> (id: DeviceId)
        ensures
            id@ == self.own_id(),
    {
        self.identity.device_id()
    }

    /// The public key.
    pub fn public_key(&self) -> (key: DevicePublicKey)
        ensures
            key@ == ed25519_public_key(self.root()),
    {
        self.identity.public_key_value()
    }

    /// The digest of the endpoint certificate.
    pub fn certificate_sha256(&self) -> (digest: [u8; 32])
        ensures
            digest@ == sha256_digest(self.certificate()),
    {
        self.identity.certificate_sha256()
    }

    /// The identity, for handshakes.
    pub fn identity(&self) -> (identity: &DeviceIdentity)
        ensures
            identity.root() == self.root(),
            identity.id() == self.own_id(),
            identity.certificate() == self.certificate(),
            forall|context: SigningContext| #[trigger]
                identity.domain_of(context) == self.domain_of(context),
    {
        &self.identity
    }

    /// The process, as it tells its peers.
    pub fn process_instance_id(&self) -> (instance: [u8; 16])
        ensures
            instance@ == self@.instance,
    {
        self.process_instance_id
    }

    /// Signs the payload of a feature.
    pub fn sign_feature_payload(&self, message: &[u8]) -> (signature: DeviceSignature)
        ensures
            signature@ == ed25519_signature(
                self.root(),
                transcript(self.domain_of(SigningContext::FeaturePayload), message@),
            ),
    {
        self.identity.sign(SigningContext::FeaturePayload, message)
    }

    /// The registry of devices.
    pub fn discovery(&self) -> (discovery: &DiscoveryService)
        ensures
            discovery@ == self@.discovery,
    {
        &self.discovery
    }

    /// How this device presents itself.
    pub fn metadata(&self) -> (metadata: DeviceMetadata)
        ensures
            metadata@ == self@.metadata,
    {
        self.metadata.clone()
    }

    /// The service to register before the metadata are replaced, where this
    /// device announces itself.
    pub fn announce_metadata(&self, metadata: &DeviceMetadata, port: u16) -> (info: Result<
        Option<mdns_sd::ServiceInfo>,
        NetworkError,
    >)
        requires
            self@.discovery.local_published && port != 0 ==> names_service(self.own_id()),
        ensures
            ({
                let record = announcement(
                    self.own_id(),
                    base64_text(ed25519_public_key(self.root())),
                    metadata@,
                    port,
                    sha256_digest(self.certificate()),
                    self.speaks(),
                );
                match info {
                    Ok(None) => !self@.discovery.local_published,
                    Ok(Some(info)) => self@.discovery.local_published && port != 0 && fits(
                        record.properties,
                    ) && carries(
                        info,
                        record.service_type,
                        record.instance,
                        record.host,
                        port,
                        property_map(record.properties),
                    ),
                    Err(error) => self@.discovery.local_published && if port == 0 {
                        error@ == NetworkErrorView::Discovery("endpoint port cannot be zero"@)
                    } else {
                        !fits(record.properties) && error@ is Discovery
                    },
                }
            }),
            info is Ok <==> !self@.discovery.local_published || (port != 0 && has_room(
                self.own_id(),
                metadata@,
                self.speaks(),
            )),
    {
        match self.discovery.update_local_metadata() {
            Publication::Register => match service_info(&self.identity, metadata, port, &self.wire) {
                Ok(info) => Ok(Some(info)),
                Err(error) => Err(error),
            },
            _ => Ok(None),
        }
    }

    /// Replaces the metadata, once they are announced.
    pub fn update_metadata(&mut self, metadata: DeviceMetadata)
        ensures
            final(self).same_identity(*old(self)),
            final(self)@ == (RuntimeView { metadata: metadata@, ..old(self)@ }),
    {
        self.metadata = metadata;
    }

    /// Makes this device visible to unpaired devices, or hides it, and says what
    /// is to be done about its announcement.
    pub fn set_discoverable(&mut self, discoverable: bool) -> (publication: Publication)
        ensures
            final(self).same_identity(*old(self)),
            final(self)@ == (RuntimeView { discoverable, ..old(self)@ }),
            publication == if old(self)@.discovery.local_published == discoverable {
                Publication::Keep
            } else if discoverable {
                Publication::Register
            } else {
                Publication::Unregister
            },
    {
        self.discoverable = discoverable;
        self.discovery.publication(discoverable)
    }

    /// Notes that this device is announced now, or is not.
    pub fn set_local_published(&mut self, published: bool)
        ensures
            final(self).same_identity(*old(self)),
            final(self)@ == (RuntimeView {
                discovery: DiscoveryView {
                    local_published: published,
                    ..old(self)@.discovery
                },
                ..old(self)@
            }),
    {
        self.discovery.set_local_published(published);
    }

    /// Whether unpaired devices may find this device.
    pub fn is_discoverable(&self) -> (answer: bool)
        ensures
            answer == self@.discoverable,
    {
        self.discoverable
    }

    /// Asks the scan in progress to end.
    pub fn cancel_lan_scan(&mut self)
        ensures
            final(self).same_identity(*old(self)),
            final(self)@ == (RuntimeView { scan_cancelled: true, ..old(self)@ }),
    {
        self.scan_cancelled = true;
    }

    /// Whether the scan in progress was asked to end.
    pub fn is_scan_cancelled(&self) -> (answer: bool)
        ensures
            answer == self@.scan_cancelled,
    {
        self.scan_cancelled
    }

    /// Starts a scan at `now`, if none started shortly before.
    pub fn scan_local_ipv4(&mut self, now: u64) -> (refused: Option<LanScanReport>)
        ensures
            final(self).same_identity(*old(self)),
            match refused {
                None => may_scan(old(self)@.last_scan, now) && final(self)@ == (RuntimeView {
                    last_scan: Some(now),
                    scan_cancelled: false,
                    ..old(self)@
                }),
                Some(report) => !may_scan(old(self)@.last_scan, now) && final(self)@ == old(self)@
                    && report == (LanScanReport {
                    attempted_endpoints: 0,
                    discovered_devices: 0,
                    scanned_subnets: 0,
                    throttled: true,
                }),
            },
    {
        let refused = self.scan.begin(now);
        if refused.is_none() {
            self.scan_cancelled = false;
        }
        refused
    }

    /// Whether the runtime has been shut down.
    pub fn is_stopped(&self) -> (answer: bool)
        ensures
            answer == self@.stopped,
    {
        self.stopped
    }

    /// Shuts the runtime down: no further socket is opened.
    pub fn shutdown(&mut self)
        ensures
            final(self).same_identity(*old(self)),
            final(self)@ == (RuntimeView { stopped: true, ..old(self)@ }),
    {
        self.stopped = true;
    }

    /// The hello of this device for a session of this kind, with a random nonce.
    pub fn local_hello(&self, kind: SessionKind) -> (hello: SessionHello)
        ensures
            hello@.nonce.len() == 32,
            hello@ == own_hello(
                self.own_id(),
                ed25519_public_key(self.root()),
                sha256_digest(self.certificate()),
                ed25519_signature(
                    self.root(),
                    transcript(
                        self.domain_of(SigningContext::EndpointBinding),
                        sha256_digest(self.certificate()),
                    ),
                ),
                self@.metadata,
                kind,
                hello@.nonce,
                self.speaks(),
            ),
    {
        local_hello(&self.identity, &self.metadata, kind, &self.wire)
    }

    /// Takes a probe from `source` at `now`, and says whether it is let in.
    pub fn admit_discovery_probe(&mut self, source: IpAddress, now: u64) -> (outcome: Result<
        (),
        NetworkError,
    >)
        ensures
            final(self).same_identity(*old(self)),
            ({
                let known = remembered_sources(old(self)@.probes, now);
                let rate = rate_of(known, source);
                &&& final(self)@ == (RuntimeView {
                    probes: known.insert(source, rate_after(rate, now)),
                    ..old(self)@
                })
                &&& plain_result(outcome) == if lets_in(rate, now) {
                    Ok(())
                } else {
                    Err(NetworkErrorView::Busy("discovery probe source is rate limited"@))
                }
            }),
    {
        self.probes.admit_discovery_probe(source, now)
    }

    /// Answers the hello of a device that connected from `source`. `record` is
    /// what the repository holds of it, and `has_permit` tells whether another
    /// probe can be answered now. While this device is hidden, only a paired
    /// device gets an answer to a hello that needs no pairing.
    pub fn authenticate_inbound(
        &mut self,
        kind: SessionKind,
        peer: &SessionPeer,
        record: Result<Option<PeerRecord>, String>,
        source: IpAddress,
        now: u64,
        has_permit: bool,
    ) -> (hello: Result<SessionHello, NetworkError>)
        ensures
            final(self).same_identity(*old(self)),
            ({
                let before = old(self)@;
                let paired = pairing_of(record_view(record), Some(peer@.public_key)) is Ok;
                let hidden = !before.discoverable && !paired && kind.nearby();
                let known = remembered_sources(before.probes, now);
                let rate = rate_of(known, source);
                let probes = !hidden && kind == SessionKind::DiscoveryProbe;
                &&& final(self)@ == (RuntimeView {
                    probes: if probes {
                        known.insert(source, rate_after(rate, now))
                    } else {
                        before.probes
                    },
                    ..before
                })
                &&& match hello {
                    Ok(hello) => {
                        &&& !hidden && (probes ==> lets_in(rate, now) && has_permit)
                        &&& hello@.nonce.len() == 32
                        &&& hello@ == own_hello(
                            old(self).own_id(),
                            ed25519_public_key(old(self).root()),
                            sha256_digest(old(self).certificate()),
                            ed25519_signature(
                                old(self).root(),
                                transcript(
                                    old(self).domain_of(SigningContext::EndpointBinding),
                                    sha256_digest(old(self).certificate()),
                                ),
                            ),
                            before.metadata,
                            kind,
                            hello@.nonce,
                            old(self).speaks(),
                        )
                    },
                    Err(error) => {
                        &&& hidden || (probes && !(lets_in(rate, now) && has_permit))
                        &&& error@ == if hidden {
                            NetworkErrorView::Unauthorized(
                                "device is not accepting new nearby connections"@,
                            )
                        } else if !lets_in(rate, now) {
                            NetworkErrorView::Busy("discovery probe source is rate limited"@)
                        } else {
                            NetworkErrorView::Busy("discovery probe limit reached"@)
                        }
                    },
                }
            }),
    {
        let paired = require_paired(record, Some(&peer.public_key)).is_ok();
        if let Err(error) = authenticate_inbound(self.discoverable, paired, kind) {
            return Err(error);
        }
        if kind == SessionKind::DiscoveryProbe {
            if let Err(error) = self.admit_discovery_probe(source, now) {
                return Err(error);
            }
            if let Err(error) = admit_concurrent_probe(has_permit) {
                return Err(error);
            }
        }
        Ok(self.local_hello(kind))
    }

    /// How an announced device is connected to. `record` is what the repository
    /// holds of it, and `status` that of the session in place.
    pub fn connect(
        &mut self,
        peer: &PeerAdvertisement,
        kind: SessionKind,
        record: Result<Option<PeerRecord>, String>,
        status: HolderStatus,
    ) -> (plan: Result<ConnectPlan, NetworkError>)
        ensures
            final(self).same_identity(*old(self)),
            match refusal(old(self).own_id(), peer@, kind, record_view(record)) {
                Some(error) => plan matches Err(got) && got@ == error && final(self)@ == old(
                    self,
                )@,
                None => {
                    &&& final(self)@ == (RuntimeView {
                        sessions: after_use(old(self)@.sessions, peer@.device_id, kind, status),
                        ..old(self)@
                    })
                    &&& match usable(old(self)@.sessions, peer@.device_id, kind, status) {
                        Some(handle) => plan matches Ok(ConnectPlan::Reuse(got)) && got == handle,
                        None => plan matches Ok(ConnectPlan::Dial(list)) && list@
                            == announced_endpoints(peer@),
                    }
                },
            },
    {
        let own = self.identity.device_id();
        if peer.device_id.same(&own) {
            return Err(NetworkError::SelfConnection);
        }
        if !kind.is_nearby() {
            if let Err(error) = require_paired(record, Some(&peer.public_key)) {
                return Err(error);
            }
        }
        match self.sessions.active(&peer.device_id, kind, status) {
            Some(handle) => Ok(ConnectPlan::Reuse(handle)),
            None => Ok(ConnectPlan::Dial(endpoints_of(peer))),
        }
    }

    /// How a paired device is connected to at the endpoints that were
    /// remembered. The device is the stored one: its certificate may change, its
    /// key may not.
    pub fn connect_remembered(
        &mut self,
        peer_id: &DeviceId,
        kind: SessionKind,
        record: Result<Option<PeerRecord>, String>,
        status: HolderStatus,
        endpoints: &Vec<RememberedEndpoint>,
    ) -> (plan: Result<(PeerRecord, ConnectPlan), NetworkError>)
        ensures
            final(self).same_identity(*old(self)),
            match pairing_of(record_view(record), None) {
                Err(error) => plan matches Err(got) && got@ == error && final(self)@ == old(self)@,
                Ok(peer) => {
                    &&& final(self)@ == (RuntimeView {
                        sessions: after_use(old(self)@.sessions, peer_id@, kind, status),
                        ..old(self)@
                    })
                    &&& match usable(old(self)@.sessions, peer_id@, kind, status) {
                        Some(handle) => plan matches Ok((got, ConnectPlan::Reuse(h))) && got@
                            == peer && h == handle,
                        None => if endpoints@.len() == 0 {
                            plan matches Err(got) && got@ == NetworkErrorView::Connect(
                                "peer has no remembered authenticated endpoint"@,
                            )
                        } else {
                            plan matches Ok((got, ConnectPlan::Dial(list))) && got@ == peer
                                && list@ == endpoints@.map_values(
                                |endpoint: RememberedEndpoint| endpoint.address,
                            )
                        },
                    }
                },
            },
    {
        let peer = match require_paired(record, None) {
            Ok(peer) => peer,
            Err(error) => {
                return Err(error);
            },
        };
        match self.sessions.active(peer_id, kind, status) {
            Some(handle) => Ok((peer, ConnectPlan::Reuse(handle))),
            None => match remembered_endpoints(endpoints) {
                Ok(list) => Ok((peer, ConnectPlan::Dial(list))),
                Err(error) => Err(error),
            },
        }
    }

    /// How a paired device is connected to at endpoints that another peer told.
    pub fn connect_paired_at(
        &mut self,
        peer_id: &DeviceId,
        addresses: &Vec<SocketAddress>,
        kind: SessionKind,
        record: Result<Option<PeerRecord>, String>,
        status: HolderStatus,
    ) -> (plan: Result<(PeerRecord, ConnectPlan), NetworkError>)
        ensures
            final(self).same_identity(*old(self)),
            match pairing_of(record_view(record), None) {
                Err(error) => plan matches Err(got) && got@ == error && final(self)@ == old(self)@,
                Ok(peer) => if addresses@.len() > 16 {
                    plan matches Err(got) && got@ == NetworkErrorView::Protocol(
                        "relayed peer route exceeds endpoint limit"@,
                    ) && final(self)@ == old(self)@
                } else if dialable_ones(addresses@).len() == 0 {
                    plan matches Err(got) && got@ == NetworkErrorView::Connect(
                        "relayed peer route has no dialable address"@,
                    ) && final(self)@ == old(self)@
                } else {
                    &&& final(self)@ == (RuntimeView {
                        sessions: after_use(old(self)@.sessions, peer_id@, kind, status),
                        ..old(self)@
                    })
                    &&& match usable(old(self)@.sessions, peer_id@, kind, status) {
                        Some(handle) => plan matches Ok((got, ConnectPlan::Reuse(h))) && got@
                            == peer && h == handle,
                        None => plan matches Ok((got, ConnectPlan::Dial(list))) && got@ == peer
                            && is_endpoint_set(dialable_ones(addresses@), list@),
                    }
                },
            },
    {
        let peer = match require_paired(record, None) {
            Ok(peer) => peer,
            Err(error) => {
                return Err(error);
            },
        };
        let list = match connect_paired_at(addresses) {
            Ok(list) => list,
            Err(error) => {
                return Err(error);
            },
        };
        match self.sessions.active(peer_id, kind, status) {
            Some(handle) => Ok((peer, ConnectPlan::Reuse(handle))),
            None => Ok((peer, ConnectPlan::Dial(list))),
        }
    }

    /// How a device is connected to by its id: where it is known on the network,
    /// otherwise at the endpoints that were remembered.
    pub fn connect_discovered(
        &mut self,
        peer_id: &DeviceId,
        kind: SessionKind,
        record: Result<Option<PeerRecord>, String>,
        status: HolderStatus,
        endpoints: &Vec<RememberedEndpoint>,
    ) -> (plan: Result<(ExpectedPeer, ConnectPlan), NetworkError>)
        ensures
            final(self).same_identity(*old(self)),
            final(self)@ == (RuntimeView {
                sessions: if plan is Ok || (!is_listed(old(self)@.discovery.snapshot, peer_id@)
                    && pairing_of(record_view(record), None) is Ok) {
                    after_use(old(self)@.sessions, peer_id@, kind, status)
                } else {
                    old(self)@.sessions
                },
                ..old(self)@
            }),
            plan matches Ok((expected, _)) ==> {
                &&& is_listed(old(self)@.discovery.snapshot, peer_id@) ==> {
                    &&& expected matches ExpectedPeer::Advertised(peer)
                    &&& peer@.device_id == peer_id@
                    &&& old(self)@.discovery.snapshot.contains(peer@)
                    &&& refusal(old(self).own_id(), peer@, kind, record_view(record)) is None
                }
                &&& !is_listed(old(self)@.discovery.snapshot, peer_id@) ==> {
                    &&& expected matches ExpectedPeer::Paired(peer)
                    &&& pairing_of(record_view(record), None) == Ok::<_, NetworkErrorView>(peer@)
                }
            },
            plan matches Err(error) ==> {
                &&& is_listed(old(self)@.discovery.snapshot, peer_id@) ==> exists|
                    peer: PeerAdvertisementView,
                |
                    old(self)@.discovery.snapshot.contains(peer) && peer.device_id == peer_id@
                        && #[trigger] refusal(
                        old(self).own_id(),
                        peer,
                        kind,
                        record_view(record),
                    ) == Some(error@)
                &&& !is_listed(old(self)@.discovery.snapshot, peer_id@) ==> match pairing_of(
                    record_view(record),
                    None,
                ) {
                    Err(reason) => error@ == reason,
                    Ok(_) => endpoints@.len() == 0 && error@ == NetworkErrorView::Connect(
                        "peer has no remembered authenticated endpoint"@,
                    ) && usable(old(self)@.sessions, peer_id@, kind, status) is None,
                }
            },
            match plan {
                Ok((_, ConnectPlan::Reuse(handle))) => usable(
                    old(self)@.sessions,
                    peer_id@,
                    kind,
                    status,
                ) == Some(handle),
                Ok((expected, ConnectPlan::Dial(list))) => {
                    &&& usable(old(self)@.sessions, peer_id@, kind, status) is None
                    &&& match expected {
                        ExpectedPeer::Advertised(peer) => list@ == announced_endpoints(peer@),
                        ExpectedPeer::Paired(_) => list@ == endpoints@.map_values(
                            |endpoint: RememberedEndpoint| endpoint.address,
                        ),
                    }
                },
                Err(_) => true,
            },
    {
        match self.discovery.peer(peer_id) {
            Some(peer) => match self.connect(&peer, kind, record, status) {
                Ok(plan) => Ok((ExpectedPeer::Advertised(peer), plan)),
                Err(error) => Err(error),
            },
            None => match self.connect_remembered(peer_id, kind, record, status, endpoints) {
                Ok((peer, plan)) => Ok((ExpectedPeer::Paired(peer), plan)),
                Err(error) => Err(error),
            },
        }
    }

    /// What becomes of a host that the user named, once it is resolved: a device
    /// that is known there, or the endpoints to probe.
    pub fn discover_at(&self, resolved: &Vec<SocketAddress>) -> (target: Result<
        ManualTarget,
        NetworkError,
    >)
        ensures
            match target {
                Err(error) => dialable_ones(resolved@).len() == 0 && error@
                    == NetworkErrorView::Connect(
                    "manual host did not resolve to a dialable address"@,
                ),
                Ok(ManualTarget::Known(peer)) => dialable_ones(resolved@).len() > 0 && exists|
                    list: Seq<SocketAddress>,
                    e: int,
                    p: int,
                |
                    #![trigger is_manual_list(resolved@, list), is_first_known(
                        self@.discovery.snapshot,
                        list,
                        e,
                        p,
                    )]
                    is_manual_list(resolved@, list) && is_first_known(
                        self@.discovery.snapshot,
                        list,
                        e,
                        p,
                    ) && peer@ == selected_at(self@.discovery.snapshot[p], list[e]),
                Ok(ManualTarget::Probe(list)) => dialable_ones(resolved@).len() > 0
                    && is_manual_list(resolved@, list@) && forall|e: int, p: int|
                    0 <= e < list@.len() && 0 <= p < self@.discovery.snapshot.len()
                        ==> !#[trigger] known_at(self@.discovery.snapshot[p], list@[e]),
            },
    {
        let list = match manual_endpoints(resolved) {
            Ok(list) => list,
            Err(error) => {
                return Err(error);
            },
        };
        match select_known(self.discovery.snapshot(), &list) {
            Some(peer) => Ok(ManualTarget::Known(peer)),
            None => Ok(ManualTarget::Probe(list)),
        }
    }

    /// Starts a pairing: the grants to ask for, and how the device is connected
    /// to. The code must be shown before the pairing is completed.
    pub fn begin_pairing(
        &mut self,
        peer: &PeerAdvertisement,
        requested: Vec<PairingGrantRequest>,
        status: HolderStatus,
    ) -> (started: Result<(PairingOffer, ConnectPlan), NetworkError>)
        ensures
            final(self).same_identity(*old(self)),
            match started {
                Err(error) => final(self)@ == old(self)@ && match first_error(
                    views(requested@),
                    requested@.len(),
                ) {
                    Some(reason) => error@ == reason,
                    None => peer@.device_id == old(self).own_id() && error@
                        == NetworkErrorView::SelfConnection,
                },
                Ok((offer, plan)) => {
                    &&& first_error(views(requested@), requested@.len()) is None
                    &&& peer@.device_id != old(self).own_id()
                    &&& is_stable_sort(views(requested@), views(offer.requested@), request_key())
                    &&& is_strictly_sorted(views(offer.requested@), request_key())
                    &&& offer.offered@.len() == offer.requested@.len()
                    &&& forall|i: int|
                        0 <= i < offer.offered@.len() ==> offers(
                            #[trigger] offer.offered@[i],
                            offer.requested@[i]@,
                        )
                    &&& final(self)@ == (RuntimeView {
                        sessions: after_use(
                            old(self)@.sessions,
                            peer@.device_id,
                            SessionKind::Pairing,
                            status,
                        ),
                        ..old(self)@
                    })
                    &&& match usable(
                        old(self)@.sessions,
                        peer@.device_id,
                        SessionKind::Pairing,
                        status,
                    ) {
                        Some(handle) => plan matches ConnectPlan::Reuse(got) && got == handle,
                        None => plan matches ConnectPlan::Dial(list) && list@
                            == announced_endpoints(peer@),
                    }
                },
            },
    {
        let offer = match begin_pairing(requested) {
            Ok(offer) => offer,
            Err(error) => {
                return Err(error);
            },
        };
        match self.connect(peer, SessionKind::Pairing, Ok(None), status) {
            Ok(plan) => Ok((offer, plan)),
            Err(error) => Err(error),
        }
    }

    /// Whether a session belongs to a device that is paired now. `record` is what
    /// the repository holds of it.
    pub fn is_paired_session(
        &self,
        session: &Session,
        record: Result<Option<PeerRecord>, String>,
    ) -> (answer: Result<bool, NetworkError>)
        ensures
            plain_result(answer) == match pairing_of(
                record_view(record),
                Some(session@.peer.public_key),
            ) {
                Ok(_) => Ok(true),
                Err(error) => if error == NetworkErrorView::Unpaired {
                    Ok(false)
                } else {
                    Err(error)
                },
            },
    {
        let paired = require_paired(record, Some(&session.peer.public_key));
        is_paired_session(&paired)
    }

    /// How an input session through another device comes about. `record` is what
    /// the repository holds of the device at the far end: the device in the
    /// middle never supplies its key.
    pub fn connect_input_relay(
        &mut self,
        target: &DeviceId,
        record: Result<Option<PeerRecord>, String>,
        status: HolderStatus,
    ) -> (plan: Result<(PeerRecord, Option<u64>), NetworkError>)
        ensures
            final(self).same_identity(*old(self)),
            match pairing_of(record_view(record), None) {
                Err(error) => plan matches Err(got) && got@ == error && final(self)@ == old(self)@,
                Ok(peer) => {
                    &&& plan matches Ok((got, handle))
                    &&& got@ == peer
                    &&& handle == usable(
                        old(self)@.sessions,
                        target@,
                        SessionKind::RealtimeInput,
                        status,
                    )
                    &&& final(self)@ == (RuntimeView {
                        sessions: after_use(
                            old(self)@.sessions,
                            target@,
                            SessionKind::RealtimeInput,
                            status,
                        ),
                        ..old(self)@
                    })
                },
            },
    {
        let peer = match require_paired(record, None) {
            Ok(peer) => peer,
            Err(error) => {
                return Err(error);
            },
        };
        let handle = self.sessions.active(target, SessionKind::RealtimeInput, status);
        Ok((peer, handle))
    }

    /// The session to use for a peer and a purpose, where there is one.
    pub fn active(&mut self, peer: &DeviceId, kind: SessionKind, status: HolderStatus) -> (handle: Option<
        u64,
    >)
        ensures
            final(self).same_identity(*old(self)),
            handle == usable(old(self)@.sessions, peer@, kind, status),
            final(self)@ == (RuntimeView {
                sessions: after_use(old(self)@.sessions, peer@, kind, status),
                ..old(self)@
            }),
    {
        self.sessions.active(peer, kind, status)
    }

    /// The handle of the session that stands for a peer and a purpose.
    pub fn holder(&self, peer: &DeviceId, kind: SessionKind) -> (handle: Option<u64>)
        ensures
            handle == match holder_of(self@.sessions, peer@, kind) {
                Some(active) => Some(active.handle),
                None => None,
            },
    {
        self.sessions.holder(peer, kind)
    }

    /// Registers an authenticated session.
    pub fn register_session(&mut self, handle: u64, session: &Session, status: HolderStatus) -> (result:
        Registration)
        ensures
            final(self).same_identity(*old(self)),
            ({
                let key = (session@.peer.device_id, session@.kind);
                let settled = registration(
                    holder_of(old(self)@.sessions, key.0, key.1),
                    status,
                    handle,
                    session@,
                );
                &&& plain_result(result.outcome) == settled.outcome
                &&& result.closes@ == settled.closes
                &&& final(self)@ == (RuntimeView {
                    sessions: old(self)@.sessions.insert(key, settled.entry),
                    ..old(self)@
                })
            }),
    {
        self.sessions.register_session(handle, session, status)
    }

    /// Registers a session that came through a tunnel, once the device behind it
    /// is the one that was asked for and has its own grant. Otherwise nothing is
    /// registered.
    pub fn accept_input_relay(
        &mut self,
        handle: u64,
        session: Session,
        expected: &PeerRecord,
        authorization: Result<(), String>,
        status: HolderStatus,
    ) -> (accepted: Result<(Session, Registration), NetworkError>)
        ensures
            final(self).same_identity(*old(self)),
            match relay_verdict(session@, expected@, check_view(authorization)) {
                Err(refusal) => accepted matches Err(error) && error@ == refusal && final(self)@
                    == old(self)@,
                Ok(relayed) => {
                    let key = (relayed.peer.device_id, relayed.kind);
                    let settled = registration(
                        holder_of(old(self)@.sessions, key.0, key.1),
                        status,
                        handle,
                        relayed,
                    );
                    &&& accepted matches Ok((session, result))
                    &&& session@ == relayed
                    &&& plain_result(result.outcome) == settled.outcome
                    &&& result.closes@ == settled.closes
                    &&& final(self)@ == (RuntimeView {
                        sessions: old(self)@.sessions.insert(key, settled.entry),
                        ..old(self)@
                    })
                },
            },
    {
        match authorize_input_relay(session, expected, authorization) {
            Err(error) => Err(error),
            Ok(relayed) => {
                let result = self.sessions.register_session(handle, &relayed, status);
                Ok((relayed, result))
            },
        }
    }

    /// Drops the session of a peer and a purpose where it is the one of this
    /// handle.
    pub fn release(&mut self, peer: &DeviceId, kind: SessionKind, handle: u64) -> (released: bool)
        ensures
            final(self).same_identity(*old(self)),
            released == (holder_of(old(self)@.sessions, peer@, kind) matches Some(active)
                && active.handle == handle),
            final(self)@ == (RuntimeView {
                sessions: if released {
                    old(self)@.sessions.remove((peer@, kind))
                } else {
                    old(self)@.sessions
                },
                ..old(self)@
            }),
    {
        self.sessions.release(peer, kind, handle)
    }

    /// Drops every session with a peer, and says which transports to close.
    pub fn disconnect(&mut self, peer: &DeviceId) -> (handles: Vec<u64>)
        ensures
            final(self).same_identity(*old(self)),
            handles@ == handles_of(old(self)@.sessions, peer@),
            final(self)@ == (RuntimeView {
                sessions: without_peer(old(self)@.sessions, peer@),
                ..old(self)@
            }),
    {
        self.sessions.disconnect(peer)
    }

    /// Forgets a peer whose record and endpoints were deleted: what was learned
    /// by authenticating it and every session with it. The transports to close
    /// are handed back, and whether consumers were told.
    pub fn forget(&mut self, peer: &DeviceId) -> (outcome: (Vec<u64>, bool))
        ensures
            final(self).same_identity(*old(self)),
            outcome.0@ == handles_of(old(self)@.sessions, peer@),
            outcome.1 == old(self)@.discovery.authenticated.contains_key(peer@),
            ({
                let before = old(self)@;
                let after = final(self)@;
                &&& after == (RuntimeView {
                    sessions: without_peer(before.sessions, peer@),
                    discovery: DiscoveryView {
                        authenticated: before.discovery.authenticated.remove(peer@),
                        snapshot: after.discovery.snapshot,
                        ..before.discovery
                    },
                    ..before
                })
                &&& if outcome.1 {
                    is_snapshot(
                        after.discovery.authenticated,
                        after.discovery.mdns,
                        after.discovery.snapshot,
                    )
                } else {
                    after.discovery.snapshot == before.discovery.snapshot
                }
            }),
    {
        let told = self.discovery.forget_authenticated(peer);
        (self.sessions.disconnect(peer), told)
    }

    /// The peers with a session whose transport is open, in order. `open` holds
    /// the handles whose transport has not been closed.
    pub fn connected_peers(&self, open: &Vec<u64>) -> (peers: Vec<DeviceId>)
        ensures
            is_strictly_sorted(views(peers@), id_key()),
            forall|peer: Seq<char>| #[trigger]
                views(peers@).contains(peer) <==> is_connected(self@.sessions, peer, open@),
    {
        self.sessions.connected_peers(open)
    }

    /// Drops the sessions that carry an older authorization, once a grant was
    /// saved.
    pub fn grant(&mut self, peer: &DeviceId, capability: CapabilityId) -> (handles: Vec<u64>)
        ensures
            final(self).same_identity(*old(self)),
            ({
                let injects = capability.role == CapabilityRole::CrossScreenInject;
                &&& handles@ == if injects {
                    handles_among(old(self)@.sessions, peer@, seq![SessionKind::RealtimeInput])
                } else {
                    handles_of(old(self)@.sessions, peer@)
                }
                &&& final(self)@ == (RuntimeView {
                    sessions: if injects {
                        old(self)@.sessions.remove((peer@, SessionKind::RealtimeInput))
                    } else {
                        without_peer(old(self)@.sessions, peer@)
                    },
                    ..old(self)@
                })
            }),
    {
        self.sessions.grant_changed(peer, capability)
    }

    /// Drops the sessions with a peer, once a grant was revoked. Nothing changes
    /// where there was none to revoke.
    pub fn revoke(&mut self, peer: &DeviceId, revoked: bool) -> (handles: Vec<u64>)
        ensures
            final(self).same_identity(*old(self)),
            handles@ == if revoked {
                handles_of(old(self)@.sessions, peer@)
            } else {
                seq![]
            },
            final(self)@ == (RuntimeView {
                sessions: if revoked {
                    without_peer(old(self)@.sessions, peer@)
                } else {
                    old(self)@.sessions
                },
                ..old(self)@
            }),
    {
        if revoked {
            self.sessions.disconnect(peer)
        } else {
            let none: Vec<u64> = Vec::new();
            assert(none@ =~= seq![]);
            none
        }
    }

    /// Learns from an authenticated session where its device can be dialed. Tells
    /// what was learned, and whether consumers were told. Nothing is learned from
    /// a session that runs through another device: the address of a tunnel is not
    /// one of the device.
    pub fn remember_authenticated_session(
        &mut self,
        session: &Session,
        remote: SocketAddress,
        now: i64,
    ) -> (outcome: Option<(PeerAdvertisement, bool)>)
        ensures
            final(self).same_identity(*old(self)),
            outcome is None <==> session@.relayed,
            outcome is None ==> final(self)@ == old(self)@,
            outcome matches Some((peer, told)) ==> {
                let peer = peer@;
                let before = old(self)@.discovery;
                let after = final(self)@.discovery;
                &&& peer == learned(session@.peer, remote, now)
                &&& final(self)@ == (RuntimeView { discovery: after, ..old(self)@ })
                &&& if peer.device_id == before.local_id {
                    after == before && !told
                } else {
                    &&& is_observed(before.authenticated, after.authenticated, peer, told)
                    &&& after == (DiscoveryView {
                        authenticated: after.authenticated,
                        snapshot: after.snapshot,
                        ..before
                    })
                    &&& if told {
                        is_snapshot(after.authenticated, after.mdns, after.snapshot)
                    } else {
                        after.snapshot == before.snapshot
                    }
                }
            },
    {
        if session.relayed {
            return None;
        }
        let peer = learned_from(session, remote, now);
        let told = self.discovery.observe_authenticated(peer.clone());
        Some((peer, told))
    }

    /// Takes the announcement of a device. Tells whether consumers were told.
    pub fn resolve(&mut self, fullname: String, peer: PeerAdvertisement) -> (told: bool)
        ensures
            final(self).same_identity(*old(self)),
            ({
                let before = old(self)@.discovery;
                let after = final(self)@.discovery;
                &&& final(self)@ == (RuntimeView { discovery: after, ..old(self)@ })
                &&& if peer@.device_id == before.local_id {
                    after == before && !told
                } else {
                    &&& is_observed(before.mdns, after.mdns, peer@, told)
                    &&& after == (DiscoveryView {
                        mdns: after.mdns,
                        services: before.services.insert(fullname@, peer@.device_id),
                        snapshot: after.snapshot,
                        ..before
                    })
                    &&& if told {
                        is_snapshot(after.authenticated, after.mdns, after.snapshot)
                    } else {
                        after.snapshot == before.snapshot
                    }
                }
            }),
    {
        self.discovery.resolve(fullname, peer)
    }

    /// Takes the end of an announcement. Tells whether consumers were told.
    pub fn remove(&mut self, fullname: &str) -> (told: bool)
        ensures
            final(self).same_identity(*old(self)),
            ({
                let before = old(self)@.discovery;
                let after = final(self)@.discovery;
                &&& final(self)@ == (RuntimeView { discovery: after, ..old(self)@ })
                &&& if !before.services.contains_key(fullname@) {
                    after == before && !told
                } else {
                    let id = before.services[fullname@];
                    &&& told == before.mdns.contains_key(id)
                    &&& after == (DiscoveryView {
                        mdns: before.mdns.remove(id),
                        services: before.services.remove(fullname@),
                        snapshot: after.snapshot,
                        ..before
                    })
                    &&& if told {
                        is_snapshot(after.authenticated, after.mdns, after.snapshot)
                    } else {
                        after.snapshot == before.snapshot
                    }
                }
            }),
    {
        self.discovery.remove(fullname)
    }

    /// Tells consumers again what is known of devices.
    pub fn refresh(&mut self)
        ensures
            final(self).same_identity(*old(self)),
            ({
                let after = final(self)@.discovery;
                &&& is_snapshot(after.authenticated, after.mdns, after.snapshot)
                &&& final(self)@ == (RuntimeView {
                    discovery: DiscoveryView {
                        snapshot: after.snapshot,
                        ..old(self)@.discovery
                    },
                    ..old(self)@
                })
            }),
    {
        self.discovery.refresh()
    }

    /// Starts to announce the web gateway: the full name of an earlier service,
    /// which is to be unregistered first, and the service to register.
    pub fn publish_web_gateway(&mut self, site_name: &str, port: u16) -> (services: (
        Option<String>,
        Result<mdns_sd::ServiceInfo, NetworkError>,
    ))
        requires
            port != 0 ==> is_char_boundary(
                encode_utf8(id_suffix(old(self)@.discovery.local_id)),
                cut(id_suffix(old(self)@.discovery.local_id), 20),
            ) && is_char_boundary(
                encode_utf8(id_suffix(old(self)@.discovery.local_id)),
                cut(id_suffix(old(self)@.discovery.local_id), 32),
            ),
        ensures
            final(self).same_identity(*old(self)),
            is_gateway(old(self)@.discovery.local_id, site_name@, port, services.1),
            text_option(services.0) == if port == 0 {
                None
            } else {
                old(self)@.discovery.web_fullname
            },
            final(self)@ == if port == 0 {
                old(self)@
            } else {
                RuntimeView {
                    discovery: DiscoveryView { web_fullname: None, ..old(self)@.discovery },
                    ..old(self)@
                }
            },
    {
        self.discovery.publish_web_gateway(site_name, port)
    }

    /// Notes the full name under which the web gateway was registered.
    pub fn web_gateway_published(&mut self, fullname: String)
        ensures
            final(self).same_identity(*old(self)),
            final(self)@ == (RuntimeView {
                discovery: DiscoveryView {
                    web_fullname: Some(fullname@),
                    ..old(self)@.discovery
                },
                ..old(self)@
            }),
    {
        self.discovery.web_gateway_published(fullname)
    }

    /// Ends the announcement of the web gateway: the full name to unregister,
    /// where there is one.
    pub fn unpublish_web_gateway(&mut self) -> (fullname: Option<String>)
        ensures
            final(self).same_identity(*old(self)),
            text_option(fullname) == old(self)@.discovery.web_fullname,
            final(self)@ == (RuntimeView {
                discovery: DiscoveryView { web_fullname: None, ..old(self)@.discovery },
                ..old(self)@
            }),
    {
        self.discovery.unpublish_web_gateway()
    }
}

/// What a session tells of a device: who it is, and that it listens on its port at
/// the address from which it came. Where it names no port, on the port of the
/// connection.
pub proof fn law_session_tells_where_a_device_is(
    peer: SessionPeerView,
    remote: SocketAddress,
    now: i64,
)
    ensures
        ({
            let known = learned(peer, remote, now);
            &&& known.device_id == peer.device_id
            &&& known.public_key == peer.public_key
            &&& known.metadata == peer.metadata
            &&& known.certificate_sha256 == peer.certificate_sha256
            &&& known.last_seen_at_ms == now
            &&& peer.listen_port != 0 ==> known.port == peer.listen_port
            &&& known.addresses.len() == 1
            &&& known.connection_addresses.len() == 1
            &&& match remote {
                SocketAddress::V4 { ip, port } => {
                    &&& peer.listen_port == 0 ==> known.port == port
                    &&& known.addresses[0] == IpAddress::V4(ip)
                    &&& known.connection_addresses[0] == SocketAddress::V4 { ip, port: known.port }
                },
                SocketAddress::V6 { ip, port, flow_info, scope_id } => {
                    &&& peer.listen_port == 0 ==> known.port == port
                    &&& known.addresses[0] == IpAddress::V6(ip)
                    &&& known.connection_addresses[0] == SocketAddress::V6 {
                        ip,
                        port: known.port,
                        flow_info: 0,
                        scope_id: 0,
                    }
                },
            }
        }),
{
}

/// A paired device is recalled at every endpoint that is remembered of it, in order,
/// with the port, the certificate and the time of the first.
pub proof fn law_every_endpoint_is_recalled(
    record: PeerRecordView,
    endpoints: Seq<RememberedEndpointView>,
    peer: PeerAdvertisementView,
    i: int,
)
    requires
        is_recalled(record, endpoints, peer),
        0 <= i < endpoints.len(),
    ensures
        peer.device_id == record.device_id,
        peer.public_key == record.public_key,
        peer.metadata.name == record.display_name,
        peer.metadata.platform == record.platform,
        peer.metadata.model == record.model,
        peer.connection_addresses.len() == endpoints.len(),
        peer.connection_addresses[i] == endpoints[i].address,
        peer.addresses.contains(endpoints[i].address.spec_ip()),
        peer.addresses.no_duplicates(),
        peer.port == endpoints[0].address.spec_port(),
        peer.certificate_sha256 == endpoints[0].certificate_sha256,
        peer.last_seen_at_ms == endpoints[0].last_seen_at_ms,
{
    let all = endpoints.map_values(|endpoint: RememberedEndpointView| endpoint.address);
    let ips = all.map_values(|address: SocketAddress| address.spec_ip());
    law_address_set(ips, peer.addresses);
    assert(ips[i] == endpoints[i].address.spec_ip());
    assert(ips.contains(ips[i]));
}

/// A session is used again exactly where it is in place, held and open. One that
/// cannot be used loses its place, and no other session does.
pub proof fn law_session_that_is_used_again(
    sessions: SessionMap,
    peer: Seq<char>,
    kind: SessionKind,
    status: HolderStatus,
    other: (Seq<char>, SessionKind),
)
    ensures
        usable(sessions, peer, kind, status) is Some <==> sessions.contains_key((peer, kind))
            && status.held && status.open,
        usable(sessions, peer, kind, status) matches Some(handle) ==> handle == sessions[(
            peer,
            kind,
        )].handle,
        ({
            let after = after_use(sessions, peer, kind, status);
            &&& after.contains_key((peer, kind)) <==> sessions.contains_key((peer, kind))
                && status.held && status.open
            &&& other != (peer, kind) ==> (after.contains_key(other) <==> sessions.contains_key(
                other,
            ))
            &&& after.contains_key(other) ==> after[other] == sessions[other]
        }),
{
}

/// A device connects to no other under its own id. Beyond pairing, sending files and
/// probing it connects only to devices that are paired, under the paired key.
pub proof fn law_device_that_may_be_dialed(
    own_id: Seq<char>,
    peer: PeerAdvertisementView,
    kind: SessionKind,
    record: Result<Option<PeerRecordView>, Seq<char>>,
)
    ensures
        refusal(own_id, peer, kind, record) is None <==> peer.device_id != own_id && (kind
            == SessionKind::Pairing || kind == SessionKind::FileTransfer || kind
            == SessionKind::DiscoveryProbe || (record matches Ok(Some(paired))
            && paired.trust_state == TrustState::Paired && paired.public_key == peer.public_key)),
        peer.device_id == own_id ==> refusal(own_id, peer, kind, record) == Some(
            NetworkErrorView::SelfConnection,
        ),
{
}

} // verus!
