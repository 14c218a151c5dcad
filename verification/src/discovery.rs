//! What devices announce of themselves on the local network.
use vstd::prelude::*;
use vstd::string::*;
use vstd::utf8::*;

use crate::address::{
    address_set, endpoint_set, ip_key, is_address_set, is_endpoint_set, law_address_set,
    law_endpoint_set, lemma_ip_key_injective, lemma_socket_key_injective, socket_key, IpAddress,
    SocketAddress,
};
use crate::dns_sd::{
    announcement, carries, cut, device_hostname, fits, fullname_of, has_room, hostname, id_suffix,
    is_gateway, names_service, property_map, service_fullname, service_info, text_option,
    to_service, web_gateway_record,
};
use crate::error::{NetworkError, NetworkErrorView};
use crate::identity::DeviceIdentity;
use crate::order::{
    has_key, is_sorted, is_stable_sort, is_strictly_sorted, lemma_before_total, lemma_pair_order,
    lemma_stable_sort_contains, lemma_stable_sort_distinct, lemma_stable_sort_views,
    lemma_strictly_sorted_same, seq_before, stable_sort, text_before, text_key,
};
use crate::peer::{views, DeviceId, DevicePublicKey};
use crate::primitives::{base64_bytes, base64_text, ed25519_public_key, sha256_digest};
use crate::table::Table;
use crate::text::{same_bytes, same_text};
use crate::wire::WireProtocol;

verus! {

/// How a device presents itself to people.
#[derive(Debug)]
pub struct DeviceMetadata {
    pub name: String,
    pub platform: String,
    pub model: String,
}

/// What [`DeviceMetadata`] says.
pub struct DeviceMetadataView {
    pub name: Seq<char>,
    pub platform: Seq<char>,
    pub model: Seq<char>,
}

impl View for DeviceMetadata {
    type V = DeviceMetadataView;

    open spec fn view(&self) -> DeviceMetadataView {
        DeviceMetadataView { name: self.name@, platform: self.platform@, model: self.model@ }
    }
}

impl Clone for DeviceMetadata {
    fn clone(&self) -> (copy: Self)
        ensures
            copy@ == self@,
    {
        DeviceMetadata {
            name: self.name.clone(),
            platform: self.platform.clone(),
            model: self.model.clone(),
        }
    }
}

impl DeviceMetadata {
    /// Whether two devices present themselves alike.
    pub fn same(&self, other: &DeviceMetadata) -> (same: bool)
        ensures
            same == (self@ == other@),
    {
        same_text(self.name.as_str(), other.name.as_str()) && same_text(
            self.platform.as_str(),
            other.platform.as_str(),
        ) && same_text(self.model.as_str(), other.model.as_str())
    }
}

/// What is known of a device on the network.
#[derive(Debug)]
pub struct PeerAdvertisement {
    pub device_id: DeviceId,
    pub public_key: DevicePublicKey,
    pub metadata: DeviceMetadata,
    pub addresses: Vec<IpAddress>,
    /// Dialable forms of `addresses`. IPv6 link-local entries keep the index of
    /// the interface on which they were learned.
    pub connection_addresses: Vec<SocketAddress>,
    pub port: u16,
    pub certificate_sha256: [u8; 32],
    pub last_seen_at_ms: i64,
}

/// What a [`PeerAdvertisement`] says.
pub struct PeerAdvertisementView {
    pub device_id: Seq<char>,
    pub public_key: Seq<u8>,
    pub metadata: DeviceMetadataView,
    pub addresses: Seq<IpAddress>,
    pub connection_addresses: Seq<SocketAddress>,
    pub port: u16,
    pub certificate_sha256: Seq<u8>,
    pub last_seen_at_ms: i64,
}

impl View for PeerAdvertisement {
    type V = PeerAdvertisementView;

    open spec fn view(&self) -> PeerAdvertisementView {
        PeerAdvertisementView {
            device_id: self.device_id@,
            public_key: self.public_key@,
            metadata: self.metadata@,
            addresses: self.addresses@,
            connection_addresses: self.connection_addresses@,
            port: self.port,
            certificate_sha256: self.certificate_sha256@,
            last_seen_at_ms: self.last_seen_at_ms,
        }
    }
}

/// A copy of a list of plain values.
pub fn copy_list<T: Copy>(list: &Vec<T>) -> (copy: Vec<T>)
    ensures
        copy@ == list@,
{
    let mut copy: Vec<T> = Vec::new();
    let mut i: usize = 0;
    while i < list.len()
        invariant
            i <= list.len(),
            copy@ == list@.take(i as int),
        decreases list.len() - i,
    {
        copy.push(list[i]);
        i += 1;
        assert(copy@ =~= list@.take(i as int));
    }
    assert(list@.take(i as int) =~= list@);
    copy
}

/// Puts the items of a list behind those of another.
fn append_list<T: Copy>(target: &mut Vec<T>, list: &Vec<T>)
    ensures
        final(target)@ == old(target)@ + list@,
{
    let ghost start = target@;
    let mut i: usize = 0;
    while i < list.len()
        invariant
            i <= list.len(),
            target@ == start + list@.take(i as int),
        decreases list.len() - i,
    {
        target.push(list[i]);
        i += 1;
        assert(target@ =~= start + list@.take(i as int));
    }
    assert(list@.take(i as int) =~= list@);
}

impl Clone for PeerAdvertisement {
    fn clone(&self) -> (copy: Self)
        ensures
            copy@ == self@,
    {
        PeerAdvertisement {
            device_id: self.device_id.clone(),
            public_key: self.public_key.clone(),
            metadata: self.metadata.clone(),
            addresses: copy_list(&self.addresses),
            connection_addresses: copy_list(&self.connection_addresses),
            port: self.port,
            certificate_sha256: self.certificate_sha256,
            last_seen_at_ms: self.last_seen_at_ms,
        }
    }
}

fn same_addresses(a: &Vec<IpAddress>, b: &Vec<IpAddress>) -> (same: bool)
    ensures
        same == (a@ == b@),
{
    if a.len() != b.len() {
        return false;
    }
    let mut i: usize = 0;
    while i < a.len()
        invariant
            i <= a.len(),
            a.len() == b.len(),
            forall|j: int| 0 <= j < i ==> a@[j] == b@[j],
        decreases a.len() - i,
    {
        if a[i] != b[i] {
            return false;
        }
        i += 1;
    }
    assert(a@ =~= b@);
    true
}

fn same_endpoints(a: &Vec<SocketAddress>, b: &Vec<SocketAddress>) -> (same: bool)
    ensures
        same == (a@ == b@),
{
    if a.len() != b.len() {
        return false;
    }
    let mut i: usize = 0;
    while i < a.len()
        invariant
            i <= a.len(),
            a.len() == b.len(),
            forall|j: int| 0 <= j < i ==> a@[j] == b@[j],
        decreases a.len() - i,
    {
        if a[i] != b[i] {
            return false;
        }
        i += 1;
    }
    assert(a@ =~= b@);
    true
}

/// The two differ at most in when the device was last seen.
pub open spec fn same_route(left: PeerAdvertisementView, right: PeerAdvertisementView) -> bool {
    PeerAdvertisementView { last_seen_at_ms: right.last_seen_at_ms, ..left } == right
}

/// Whether the two differ at most in when the device was last seen. That time is
/// kept, but it is no change of route: telling consumers of it would make those
/// that react by opening a session react to their own session.
pub fn same_discovery_route(left: &PeerAdvertisement, right: &PeerAdvertisement) -> (same: bool)
    ensures
        same == same_route(left@, right@),
{
    left.device_id.same(&right.device_id) && left.public_key.same(&right.public_key)
        && left.metadata.same(&right.metadata) && same_addresses(&left.addresses, &right.addresses)
        && same_endpoints(&left.connection_addresses, &right.connection_addresses) && left.port
        == right.port && same_bytes(
        left.certificate_sha256.as_slice(),
        right.certificate_sha256.as_slice(),
    )
}

/// `merged` is `target` with what `newer` adds: all addresses of both, each once
/// and in order, and the rest from the one that was seen last.
pub open spec fn is_merge(
    target: PeerAdvertisementView,
    newer: PeerAdvertisementView,
    merged: PeerAdvertisementView,
) -> bool {
    let latest = if newer.last_seen_at_ms >= target.last_seen_at_ms {
        newer
    } else {
        target
    };
    &&& is_address_set(target.addresses + newer.addresses, merged.addresses)
    &&& is_endpoint_set(
        target.connection_addresses + newer.connection_addresses,
        merged.connection_addresses,
    )
    &&& merged == PeerAdvertisementView {
        device_id: target.device_id,
        addresses: merged.addresses,
        connection_addresses: merged.connection_addresses,
        ..latest
    }
}

/// Adds what `newer` tells to `target`.
pub fn merge_advertisement(target: &mut PeerAdvertisement, newer: &PeerAdvertisement)
    ensures
        is_merge(old(target)@, newer@, final(target)@),
{
    if newer.last_seen_at_ms >= target.last_seen_at_ms {
        target.metadata = newer.metadata.clone();
        target.public_key = newer.public_key.clone();
        target.port = newer.port;
        target.certificate_sha256 = newer.certificate_sha256;
        target.last_seen_at_ms = newer.last_seen_at_ms;
    }
    let mut addresses = copy_list(&target.addresses);
    append_list(&mut addresses, &newer.addresses);
    target.addresses = address_set(addresses);
    let mut endpoints = copy_list(&target.connection_addresses);
    append_list(&mut endpoints, &newer.connection_addresses);
    target.connection_addresses = endpoint_set(endpoints);
}

/// An advertisement as the registry keeps it: its addresses stand once each, in
/// order.
pub open spec fn in_order(peer: PeerAdvertisementView) -> bool {
    is_strictly_sorted(peer.addresses, ip_key()) && is_strictly_sorted(
        peer.connection_addresses,
        socket_key(),
    )
}

/// Hearing again of a route that is known is no change, whenever it is heard.
pub proof fn law_known_route_is_no_change(
    target: PeerAdvertisementView,
    newer: PeerAdvertisementView,
    merged: PeerAdvertisementView,
)
    requires
        in_order(target),
        same_route(target, newer),
        is_merge(target, newer, merged),
    ensures
        same_route(target, merged),
{
    let a = target.addresses;
    let b = merged.addresses;
    assert(newer.addresses == a);
    assert forall|i: int| 0 <= i < a.len() implies has_key(
        b,
        ip_key(),
        (ip_key())(#[trigger] a[i]),
    ) by {
        assert((a + a)[i] == a[i]);
    }
    assert forall|i: int| 0 <= i < b.len() implies has_key(
        a,
        ip_key(),
        (ip_key())(#[trigger] b[i]),
    ) by {
        assert((a + a).contains(b[i]));
        let k = choose|k: int| 0 <= k < (a + a).len() && (a + a)[k] == b[i];
        let at = if k < a.len() {
            k
        } else {
            k - a.len()
        };
        assert(a[at] == b[i]);
    }
    lemma_strictly_sorted_same(a, b, ip_key());
    assert forall|i: int| 0 <= i < a.len() implies a[i] == b[i] by {
        lemma_ip_key_injective(a[i], b[i]);
    }
    assert(a =~= b);
    let c = target.connection_addresses;
    let d = merged.connection_addresses;
    assert(newer.connection_addresses == c);
    assert forall|i: int| 0 <= i < c.len() implies has_key(
        d,
        socket_key(),
        (socket_key())(#[trigger] c[i]),
    ) by {
        assert((c + c)[i] == c[i]);
    }
    assert forall|i: int| 0 <= i < d.len() implies has_key(
        c,
        socket_key(),
        (socket_key())(#[trigger] d[i]),
    ) by {
        assert((c + c).contains(d[i]));
        let k = choose|k: int| 0 <= k < (c + c).len() && (c + c)[k] == d[i];
        let at = if k < c.len() {
            k
        } else {
            k - c.len()
        };
        assert(c[at] == d[i]);
    }
    lemma_strictly_sorted_same(c, d, socket_key());
    assert forall|i: int| 0 <= i < c.len() implies c[i] == d[i] by {
        lemma_socket_key_injective(c[i], d[i]);
    }
    assert(c =~= d);
}

/// A merged advertisement tells of the device what the one that was seen last
/// tells, each part of it, and of two seen at once what the newer one tells. It
/// stays that of the known device.
pub proof fn law_latest_advertisement_prevails(
    known: PeerAdvertisementView,
    newer: PeerAdvertisementView,
    merged: PeerAdvertisementView,
)
    requires
        is_merge(known, newer, merged),
    ensures
        merged.device_id == known.device_id,
        newer.last_seen_at_ms >= known.last_seen_at_ms ==> {
            &&& merged.metadata.name == newer.metadata.name
            &&& merged.metadata.platform == newer.metadata.platform
            &&& merged.metadata.model == newer.metadata.model
            &&& merged.public_key == newer.public_key
            &&& merged.port == newer.port
            &&& merged.certificate_sha256 == newer.certificate_sha256
            &&& merged.last_seen_at_ms == newer.last_seen_at_ms
        },
        newer.last_seen_at_ms < known.last_seen_at_ms ==> {
            &&& merged.metadata.name == known.metadata.name
            &&& merged.metadata.platform == known.metadata.platform
            &&& merged.metadata.model == known.metadata.model
            &&& merged.public_key == known.public_key
            &&& merged.port == known.port
            &&& merged.certificate_sha256 == known.certificate_sha256
            &&& merged.last_seen_at_ms == known.last_seen_at_ms
        },
{
}

/// A merged advertisement has exactly the addresses of the two, each once.
pub proof fn law_merge_keeps_every_address(
    known: PeerAdvertisementView,
    newer: PeerAdvertisementView,
    merged: PeerAdvertisementView,
)
    requires
        is_merge(known, newer, merged),
    ensures
        merged.addresses.no_duplicates(),
        forall|ip: IpAddress| #[trigger]
            merged.addresses.contains(ip) <==> known.addresses.contains(ip)
                || newer.addresses.contains(ip),
        merged.connection_addresses.no_duplicates(),
        forall|address: SocketAddress| #[trigger]
            merged.connection_addresses.contains(address) <==> known.connection_addresses.contains(
                address,
            ) || newer.connection_addresses.contains(address),
{
    law_address_set(known.addresses + newer.addresses, merged.addresses);
    law_endpoint_set(
        known.connection_addresses + newer.connection_addresses,
        merged.connection_addresses,
    );
    assert forall|ip: IpAddress| #[trigger]
        merged.addresses.contains(ip) <==> known.addresses.contains(ip)
            || newer.addresses.contains(ip) by {
        lemma_contains_either(known.addresses, newer.addresses, ip);
    }
    assert forall|address: SocketAddress| #[trigger]
        merged.connection_addresses.contains(address) <==> known.connection_addresses.contains(
            address,
        ) || newer.connection_addresses.contains(address) by {
        lemma_contains_either(known.connection_addresses, newer.connection_addresses, address);
    }
}

proof fn lemma_contains_either<T>(a: Seq<T>, b: Seq<T>, item: T)
    ensures
        (a + b).contains(item) <==> a.contains(item) || b.contains(item),
{
    if a.contains(item) {
        let i = choose|i: int| 0 <= i < a.len() && a[i] == item;
        assert((a + b)[i] == item);
    }
    if b.contains(item) {
        let i = choose|i: int| 0 <= i < b.len() && b[i] == item;
        assert((a + b)[a.len() + i] == item);
    }
    if (a + b).contains(item) {
        let i = choose|i: int| 0 <= i < (a + b).len() && (a + b)[i] == item;
        if i < a.len() {
            assert(a[i] == item);
        } else {
            assert(b[i - a.len()] == item);
        }
    }
}

/// A route changes with every part of an advertisement but the time.
pub proof fn law_route_is_all_but_the_time(
    left: PeerAdvertisementView,
    right: PeerAdvertisementView,
)
    ensures
        same_route(left, right) <==> {
            &&& left.device_id == right.device_id
            &&& left.public_key == right.public_key
            &&& left.metadata.name == right.metadata.name
            &&& left.metadata.platform == right.metadata.platform
            &&& left.metadata.model == right.metadata.model
            &&& left.addresses == right.addresses
            &&& left.connection_addresses == right.connection_addresses
            &&& left.port == right.port
            &&& left.certificate_sha256 == right.certificate_sha256
        },
{
}

/// Devices by their id.
pub type PeerMap = Map<Seq<char>, PeerAdvertisementView>;

/// What the advertisements of a map say.
pub open spec fn advertisements(map: Map<Seq<char>, PeerAdvertisement>) -> PeerMap {
    map.map_values(|peer: PeerAdvertisement| peer@)
}

/// `after` is `before` with the advertisement `peer`, and `changed` tells
/// whether its route is new.
pub open spec fn is_observed(
    before: PeerMap,
    after: PeerMap,
    peer: PeerAdvertisementView,
    changed: bool,
) -> bool {
    let id = peer.device_id;
    if before.contains_key(id) {
        &&& after.contains_key(id)
        &&& is_merge(before[id], peer, after[id])
        &&& after == before.insert(id, after[id])
        &&& changed == !same_route(before[id], after[id])
    } else {
        after == before.insert(id, peer) && changed
    }
}

/// Hearing of a device touches no other one. A device that is heard of for the
/// first time is known by what it tells, and that is news. Of a known device it
/// is news exactly where something other than the time changes.
pub proof fn law_observation_is_told(
    before: PeerMap,
    after: PeerMap,
    peer: PeerAdvertisementView,
    changed: bool,
    other: Seq<char>,
)
    requires
        is_observed(before, after, peer, changed),
        other != peer.device_id,
    ensures
        after.contains_key(peer.device_id),
        after.contains_key(other) == before.contains_key(other),
        after.contains_key(other) ==> after[other] == before[other],
        !before.contains_key(peer.device_id) ==> after[peer.device_id] == peer && changed,
        before.contains_key(peer.device_id) ==> {
            let old = before[peer.device_id];
            let new = after[peer.device_id];
            &&& new.device_id == old.device_id
            &&& changed <==> !(old.public_key == new.public_key && old.metadata.name
                == new.metadata.name && old.metadata.platform == new.metadata.platform
                && old.metadata.model == new.metadata.model && old.addresses == new.addresses
                && old.connection_addresses == new.connection_addresses && old.port == new.port
                && old.certificate_sha256 == new.certificate_sha256)
            &&& peer.last_seen_at_ms >= old.last_seen_at_ms ==> {
                &&& new.public_key == peer.public_key
                &&& new.metadata == peer.metadata
                &&& new.port == peer.port
                &&& new.certificate_sha256 == peer.certificate_sha256
                &&& new.last_seen_at_ms == peer.last_seen_at_ms
            }
            &&& peer.last_seen_at_ms < old.last_seen_at_ms ==> {
                &&& new.public_key == old.public_key
                &&& new.metadata == old.metadata
                &&& new.port == old.port
                &&& new.certificate_sha256 == old.certificate_sha256
                &&& new.last_seen_at_ms == old.last_seen_at_ms
            }
            &&& forall|ip: IpAddress| #[trigger]
                new.addresses.contains(ip) <==> old.addresses.contains(ip)
                    || peer.addresses.contains(ip)
            &&& forall|address: SocketAddress| #[trigger]
                new.connection_addresses.contains(address)
                    <==> old.connection_addresses.contains(address)
                    || peer.connection_addresses.contains(address)
        },
{
    let id = peer.device_id;
    if before.contains_key(id) {
        law_latest_advertisement_prevails(before[id], peer, after[id]);
        law_merge_keeps_every_address(before[id], peer, after[id]);
        law_route_is_all_but_the_time(before[id], after[id]);
    }
}

/// Adds an advertisement to those that are known. Tells whether its route is
/// new.
pub fn merge_observed_peer(
    peers: &mut Table<DeviceId, PeerAdvertisement>,
    peer: PeerAdvertisement,
) -> (changed: bool)
    ensures
        is_observed(
            advertisements(old(peers)@),
            advertisements(final(peers)@),
            peer@,
            changed,
        ),
{
    let ghost before = advertisements(peers@);
    let ghost id = peer.device_id@;
    match peers.remove(&peer.device_id) {
        None => {
            let key = peer.device_id.clone();
            let ghost heard = peer@;
            peers.insert(key, peer);
            assert(advertisements(peers@) =~= before.insert(id, heard));
            true
        },
        Some(previous) => {
            let mut observed = previous.clone();
            merge_advertisement(&mut observed, &peer);
            let changed = !same_discovery_route(&previous, &observed);
            let ghost merged = observed@;
            peers.insert(peer.device_id, observed);
            assert(advertisements(peers@) =~= before.insert(id, merged));
            changed
        },
    }
}

/// The devices of the snapshot that consumers see: what was learned by
/// authenticating a device and what it announces, put together.
pub open spec fn is_combined(
    authenticated: PeerMap,
    mdns: PeerMap,
    id: Seq<char>,
    peer: PeerAdvertisementView,
) -> bool {
    if authenticated.contains_key(id) && mdns.contains_key(id) {
        is_merge(authenticated[id], mdns[id], peer)
    } else if authenticated.contains_key(id) {
        peer == authenticated[id]
    } else {
        mdns.contains_key(id) && peer == mdns[id]
    }
}

/// Place of a device in the snapshot: by name, then by id.
pub open spec fn snapshot_key() -> spec_fn(PeerAdvertisementView) -> Seq<int> {
    |peer: PeerAdvertisementView|
        text_key(peer.metadata.name) + seq![-1int] + text_key(peer.device_id)
}

/// Some device of the snapshot has this id.
pub open spec fn is_listed(snapshot: Seq<PeerAdvertisementView>, id: Seq<char>) -> bool {
    exists|i: int| 0 <= i < snapshot.len() && (#[trigger] snapshot[i]).device_id == id
}

/// The snapshot holds every known device once, in order of name and id.
pub open spec fn is_snapshot(
    authenticated: PeerMap,
    mdns: PeerMap,
    snapshot: Seq<PeerAdvertisementView>,
) -> bool {
    &&& is_sorted(snapshot, snapshot_key())
    &&& forall|i: int, j: int|
        0 <= i < j < snapshot.len() ==> (#[trigger] snapshot[i]).device_id != (
        #[trigger] snapshot[j]).device_id
    &&& forall|i: int|
        0 <= i < snapshot.len() ==> is_combined(
            authenticated,
            mdns,
            (#[trigger] snapshot[i]).device_id,
            snapshot[i],
        )
    &&& forall|id: Seq<char>|
        authenticated.contains_key(id) || mdns.contains_key(id) ==> #[trigger] is_listed(
            snapshot,
            id,
        )
}

/// When a device stops announcing itself, a route that was learned by
/// authenticating it stays in the snapshot.
pub proof fn law_direct_route_outlives_announcement(
    authenticated: PeerMap,
    mdns: PeerMap,
    id: Seq<char>,
    snapshot: Seq<PeerAdvertisementView>,
)
    requires
        authenticated.contains_key(id),
        is_snapshot(authenticated, mdns.remove(id), snapshot),
    ensures
        snapshot.contains(authenticated[id]),
{
    assert(is_listed(snapshot, id));
    let i = choose|i: int| 0 <= i < snapshot.len() && (#[trigger] snapshot[i]).device_id == id;
    assert(is_combined(authenticated, mdns.remove(id), id, snapshot[i]));
}

/// The snapshot holds each device that was authenticated or announces itself, and
/// no other, exactly once. A device that is known in one way only stands there as
/// it is known. One that is known in both ways has the addresses of both, and of
/// the rest what was seen last, where an announcement counts as the newer one.
pub proof fn law_snapshot_tells_of_every_device(
    authenticated: PeerMap,
    mdns: PeerMap,
    snapshot: Seq<PeerAdvertisementView>,
    local_id: Seq<char>,
    id: Seq<char>,
)
    requires
        is_snapshot(authenticated, mdns, snapshot),
        is_filed(authenticated, local_id),
        is_filed(mdns, local_id),
    ensures
        forall|i: int, j: int|
            0 <= i < snapshot.len() && 0 <= j < snapshot.len() && (#[trigger] snapshot[i]).device_id
                == (#[trigger] snapshot[j]).device_id ==> i == j,
        (exists|i: int| 0 <= i < snapshot.len() && (#[trigger] snapshot[i]).device_id == id) <==> (
        authenticated.contains_key(id) || mdns.contains_key(id)),
        forall|i: int| 0 <= i < snapshot.len() ==> (#[trigger] snapshot[i]).device_id != local_id,
        forall|i: int|
            0 <= i < snapshot.len() && (#[trigger] snapshot[i]).device_id == id ==> {
                let peer = snapshot[i];
                &&& authenticated.contains_key(id) && !mdns.contains_key(id) ==> peer
                    == authenticated[id]
                &&& mdns.contains_key(id) && !authenticated.contains_key(id) ==> peer == mdns[id]
                &&& authenticated.contains_key(id) && mdns.contains_key(id) ==> {
                    let a = authenticated[id];
                    let m = mdns[id];
                    let latest = if m.last_seen_at_ms >= a.last_seen_at_ms {
                        m
                    } else {
                        a
                    };
                    &&& peer.public_key == latest.public_key
                    &&& peer.metadata == latest.metadata
                    &&& peer.port == latest.port
                    &&& peer.certificate_sha256 == latest.certificate_sha256
                    &&& peer.last_seen_at_ms == latest.last_seen_at_ms
                    &&& forall|ip: IpAddress| #[trigger]
                        peer.addresses.contains(ip) <==> a.addresses.contains(ip)
                            || m.addresses.contains(ip)
                    &&& forall|address: SocketAddress| #[trigger]
                        peer.connection_addresses.contains(address)
                            <==> a.connection_addresses.contains(address)
                            || m.connection_addresses.contains(address)
                }
            },
{
    assert forall|i: int, j: int|
        0 <= i < snapshot.len() && 0 <= j < snapshot.len() && (#[trigger] snapshot[i]).device_id
            == (#[trigger] snapshot[j]).device_id implies i == j by {
        if i < j {
            assert(snapshot[i].device_id != snapshot[j].device_id);
        } else if j < i {
            assert(snapshot[j].device_id != snapshot[i].device_id);
        }
    }
    if authenticated.contains_key(id) || mdns.contains_key(id) {
        assert(is_listed(snapshot, id));
    }
    assert forall|i: int| 0 <= i < snapshot.len() implies (#[trigger] snapshot[i]).device_id
        != local_id && is_combined(authenticated, mdns, snapshot[i].device_id, snapshot[i]) by {}
    if authenticated.contains_key(id) && mdns.contains_key(id) {
        let i = choose|i: int| 0 <= i < snapshot.len() && (#[trigger] snapshot[i]).device_id == id;
        assert(is_merge(authenticated[id], mdns[id], snapshot[i]));
        law_merge_keeps_every_address(authenticated[id], mdns[id], snapshot[i]);
    }
}

/// The snapshot stands in order of the names, and devices of one name in order of
/// their ids.
pub proof fn law_snapshot_is_in_order(
    authenticated: PeerMap,
    mdns: PeerMap,
    snapshot: Seq<PeerAdvertisementView>,
    i: int,
    j: int,
)
    requires
        is_snapshot(authenticated, mdns, snapshot),
        0 <= i < j < snapshot.len(),
    ensures
        snapshot[i].metadata.name == snapshot[j].metadata.name || seq_before(
            text_key(snapshot[i].metadata.name),
            text_key(snapshot[j].metadata.name),
        ),
        snapshot[i].metadata.name == snapshot[j].metadata.name ==> seq_before(
            text_key(snapshot[i].device_id),
            text_key(snapshot[j].device_id),
        ),
{
    let a = snapshot[i];
    let b = snapshot[j];
    lemma_pair_order(
        text_key(b.metadata.name),
        text_key(b.device_id),
        text_key(a.metadata.name),
        text_key(a.device_id),
    );
    lemma_before_total(text_key(a.metadata.name), text_key(b.metadata.name));
    lemma_before_total(text_key(a.device_id), text_key(b.device_id));
    assert(!seq_before((snapshot_key())(b), (snapshot_key())(a)));
    if text_key(a.metadata.name) == text_key(b.metadata.name) {
        crate::order::lemma_text_key_injective(a.metadata.name, b.metadata.name);
    }
    if text_key(a.device_id) == text_key(b.device_id) {
        crate::order::lemma_text_key_injective(a.device_id, b.device_id);
    }
}

fn before_in_snapshot(a: &PeerAdvertisement, b: &PeerAdvertisement) -> (before: bool)
    ensures
        before == seq_before((snapshot_key())(a@), (snapshot_key())(b@)),
{
    let before = text_before(a.metadata.name.as_str(), b.metadata.name.as_str()) || (same_text(
        a.metadata.name.as_str(),
        b.metadata.name.as_str(),
    ) && a.device_id.is_before(&b.device_id));
    proof {
        lemma_pair_order(
            text_key(a@.metadata.name),
            text_key(a@.device_id),
            text_key(b@.metadata.name),
            text_key(b@.device_id),
        );
        if text_key(a@.metadata.name) == text_key(b@.metadata.name) {
            crate::order::lemma_text_key_injective(a@.metadata.name, b@.metadata.name);
        }
    }
    before
}

/// What is to be done about the registration of this device.
#[derive(Debug, Clone, Copy, PartialEq, Eq, Structural)]
pub enum Publication {
    /// Nothing.
    Keep,
    /// Register the service.
    Register,
    /// Unregister the service.
    Unregister,
}

/// The devices that are known on the network, and what this device announces.
/// The whole process shares one.
pub struct DiscoveryService {
    local_id: DeviceId,
    fullname: String,
    hostname: String,
    web_fullname: Option<String>,
    local_published: bool,
    mdns_peers: Table<DeviceId, PeerAdvertisement>,
    authenticated_peers: Table<DeviceId, PeerAdvertisement>,
    service_ids: Table<String, DeviceId>,
    snapshot: Vec<PeerAdvertisement>,
}

/// What a [`DiscoveryService`] holds.
#[verifier::ext_equal]
pub struct DiscoveryView {
    pub local_id: Seq<char>,
    pub fullname: Seq<char>,
    pub hostname: Seq<char>,
    pub web_fullname: Option<Seq<char>>,
    pub local_published: bool,
    /// Devices that announce themselves.
    pub mdns: PeerMap,
    /// Devices that were authenticated.
    pub authenticated: PeerMap,
    /// The device of each announced service.
    pub services: Map<Seq<char>, Seq<char>>,
    /// What consumers were told last.
    pub snapshot: Seq<PeerAdvertisementView>,
}

spec fn id_map(map: Map<Seq<char>, DeviceId>) -> Map<Seq<char>, Seq<char>> {
    map.map_values(|id: DeviceId| id@)
}

/// Each advertisement stands under its own id, and none under that of this
/// device.
pub open spec fn is_filed(map: PeerMap, local_id: Seq<char>) -> bool {
    &&& !map.contains_key(local_id)
    &&& forall|id: Seq<char>| #[trigger] map.contains_key(id) ==> map[id].device_id == id
}

impl View for DiscoveryService {
    type V = DiscoveryView;

    closed spec fn view(&self) -> DiscoveryView {
        DiscoveryView {
            local_id: self.local_id@,
            fullname: self.fullname@,
            hostname: self.hostname@,
            web_fullname: text_option(self.web_fullname),
            local_published: self.local_published,
            mdns: advertisements(self.mdns_peers@),
            authenticated: advertisements(self.authenticated_peers@),
            services: id_map(self.service_ids@),
            snapshot: views(self.snapshot@),
        }
    }
}

impl DiscoveryService {
    #[verifier::type_invariant]
    spec fn consistent(self) -> bool {
        is_filed(self@.mdns, self@.local_id) && is_filed(self@.authenticated, self@.local_id)
    }

    /// A registry that knows no other device, for a device whose service has
    /// the given full name and is registered.
    pub fn new(local_id: DeviceId, fullname: String, hostname: String) -> (service: Self)
        ensures
            service@ == (DiscoveryView {
                local_id: local_id@,
                fullname: fullname@,
                hostname: hostname@,
                web_fullname: None,
                local_published: true,
                mdns: Map::empty(),
                authenticated: Map::empty(),
                services: Map::empty(),
                snapshot: seq![],
            }),
    {
        let mdns_peers: Table<DeviceId, PeerAdvertisement> = Table::new();
        let authenticated_peers: Table<DeviceId, PeerAdvertisement> = Table::new();
        assert(advertisements(mdns_peers@) =~= PeerMap::empty());
        assert(advertisements(authenticated_peers@) =~= PeerMap::empty());
        let service = DiscoveryService {
            local_id,
            fullname,
            hostname,
            web_fullname: None,
            local_published: true,
            mdns_peers,
            authenticated_peers,
            service_ids: Table::new(),
            snapshot: Vec::new(),
        };
        assert(service@.services =~= Map::<Seq<char>, Seq<char>>::empty());
        assert(service@.snapshot =~= seq![]);
        service
    }

    /// The registry of a device and the service to register for it.
    pub fn start(
        identity: &DeviceIdentity,
        metadata: &DeviceMetadata,
        port: u16,
        wire: &WireProtocol,
    ) -> (started: Result<(Self, mdns_sd::ServiceInfo), NetworkError>)
        requires
            port != 0 ==> names_service(identity.id()),
        ensures
            ({
                let record = announcement(
                    identity.id(),
                    base64_text(ed25519_public_key(identity.root())),
                    metadata@,
                    port,
                    sha256_digest(identity.certificate()),
                    *wire,
                );
                match started {
                    Ok((service, info)) => port != 0 && fits(record.properties) && carries(
                        info,
                        record.service_type,
                        record.instance,
                        record.host,
                        port,
                        property_map(record.properties),
                    ) && service@ == (DiscoveryView {
                        local_id: identity.id(),
                        fullname: service_fullname(info),
                        hostname: hostname(identity.id()),
                        web_fullname: None,
                        local_published: true,
                        mdns: Map::empty(),
                        authenticated: Map::empty(),
                        services: Map::empty(),
                        snapshot: seq![],
                    }),
                    Err(error) => if port == 0 {
                        error@ == NetworkErrorView::Discovery("endpoint port cannot be zero"@)
                    } else {
                        !fits(record.properties) && error@ is Discovery
                    },
                }
            }),
            started is Ok <==> port != 0 && has_room(identity.id(), metadata@, *wire),
            started is Ok ==> sha256_digest(identity.certificate()).len() == 32 && base64_bytes(
                base64_text(ed25519_public_key(identity.root())),
            ) == Some(ed25519_public_key(identity.root())),
    {
        let id = identity.device_id();
        match service_info(identity, metadata, port, wire) {
            Err(error) => Err(error),
            Ok(info) => {
                let fullname = fullname_of(&info);
                proof {
                    let bytes = encode_utf8(id_suffix(id@));
                    encode_utf8_valid_utf8(id_suffix(id@));
                    assert(is_char_boundary(bytes, 32));
                    assert(bytes.len() >= 32);
                }
                let hostname = device_hostname(&id);
                Ok((DiscoveryService::new(id, fullname, hostname), info))
            },
        }
    }

    /// The devices that consumers were told of last.
    pub fn snapshot(&self) -> (peers: &Vec<PeerAdvertisement>)
        ensures
            views(peers@) == self@.snapshot,
    {
        &self.snapshot
    }

    /// The host name of this device.
    pub fn local_hostname(&self) -> (name: &str)
        ensures
            name@ == self@.hostname,
    {
        self.hostname.as_str()
    }

    /// The full name of the service of this device.
    pub fn local_fullname(&self) -> (name: &str)
        ensures
            name@ == self@.fullname,
    {
        self.fullname.as_str()
    }

    /// What consumers were told of a device.
    pub fn peer(&self, id: &DeviceId) -> (peer: Option<PeerAdvertisement>)
        ensures
            match peer {
                Some(peer) => exists|i: int|
                    0 <= i < self@.snapshot.len() && #[trigger] self@.snapshot[i] == peer@
                        && peer@.device_id == id@ && forall|j: int|
                        0 <= j < i ==> (#[trigger] self@.snapshot[j]).device_id != id@,
                None => !is_listed(self@.snapshot, id@),
            },
    {
        let mut i: usize = 0;
        while i < self.snapshot.len()
            invariant
                i <= self.snapshot.len(),
                forall|j: int| 0 <= j < i ==> (#[trigger] self.snapshot@[j])@.device_id != id@,
            decreases self.snapshot.len() - i,
        {
            if self.snapshot[i].device_id.same(id) {
                let found = self.snapshot[i].clone();
                assert(self@.snapshot[i as int] == found@);
                return Some(found);
            }
            i += 1;
        }
        None
    }

    /// Tells consumers what is known now.
    fn emit(&mut self)
        ensures
            is_snapshot(final(self)@.authenticated, final(self)@.mdns, final(self)@.snapshot),
            final(self)@ == (DiscoveryView { snapshot: final(self)@.snapshot, ..old(self)@ }),
    {
        proof {
            use_type_invariant(&*self);
        }
        self.snapshot = combine(
            &self.authenticated_peers,
            &self.mdns_peers,
            Ghost(self@.local_id),
        );
    }

    /// Adds what was learned by authenticating a device. This is kept apart from
    /// announcements, so that the end of an announcement cannot take away a
    /// direct route. Tells whether consumers were told.
    pub fn observe_authenticated(&mut self, peer: PeerAdvertisement) -> (told: bool)
        ensures
            ({
                let before = old(self)@;
                let after = final(self)@;
                if peer@.device_id == before.local_id {
                    after == before && !told
                } else {
                    &&& is_observed(before.authenticated, after.authenticated, peer@, told)
                    &&& after == (DiscoveryView {
                        authenticated: after.authenticated,
                        snapshot: after.snapshot,
                        ..before
                    })
                    &&& if told {
                        is_snapshot(after.authenticated, after.mdns, after.snapshot)
                    } else {
                        after.snapshot == before.snapshot
                    }
                }
            }),
    {
        proof {
            use_type_invariant(&*self);
        }
        if peer.device_id.same(&self.local_id) {
            return false;
        }
        let ghost before = self@;
        let mut peers: Table<DeviceId, PeerAdvertisement> = Table::new();
        assert(advertisements(peers@) =~= PeerMap::empty());
        std::mem::swap(&mut peers, &mut self.authenticated_peers);
        let ghost heard = peer@;
        let changed = merge_observed_peer(&mut peers, peer);
        proof {
            lemma_observed_is_filed(
                before.authenticated,
                advertisements(peers@),
                heard,
                changed,
                before.local_id,
            );
        }
        self.authenticated_peers = peers;
        if changed {
            self.emit();
        }
        changed
    }

    /// Drops what was learned by authenticating a device. Tells whether
    /// consumers were told.
    pub fn forget_authenticated(&mut self, id: &DeviceId) -> (told: bool)
        ensures
            ({
                let before = old(self)@;
                let after = final(self)@;
                &&& told == before.authenticated.contains_key(id@)
                &&& after == (DiscoveryView {
                    authenticated: before.authenticated.remove(id@),
                    snapshot: after.snapshot,
                    ..before
                })
                &&& if told {
                    is_snapshot(after.authenticated, after.mdns, after.snapshot)
                } else {
                    after.snapshot == before.snapshot
                }
            }),
    {
        proof {
            use_type_invariant(&*self);
        }
        let ghost before = self@;
        let mut peers: Table<DeviceId, PeerAdvertisement> = Table::new();
        assert(advertisements(peers@) =~= PeerMap::empty());
        std::mem::swap(&mut peers, &mut self.authenticated_peers);
        let known = peers.remove(id).is_some();
        assert(advertisements(peers@) =~= before.authenticated.remove(id@));
        self.authenticated_peers = peers;
        if known {
            self.emit();
        }
        known
    }

    /// Tells consumers again what is known, after trust in a device changed.
    pub fn refresh(&mut self)
        ensures
            is_snapshot(final(self)@.authenticated, final(self)@.mdns, final(self)@.snapshot),
            final(self)@ == (DiscoveryView { snapshot: final(self)@.snapshot, ..old(self)@ }),
    {
        self.emit()
    }

    /// Takes the announcement of a device, under the full name of its service.
    /// Tells whether consumers were told.
    pub fn resolve(&mut self, fullname: String, peer: PeerAdvertisement) -> (told: bool)
        ensures
            ({
                let before = old(self)@;
                let after = final(self)@;
                if peer@.device_id == before.local_id {
                    after == before && !told
                } else {
                    &&& is_observed(before.mdns, after.mdns, peer@, told)
                    &&& after == (DiscoveryView {
                        mdns: after.mdns,
                        services: before.services.insert(fullname@, peer@.device_id),
                        snapshot: after.snapshot,
                        ..before
                    })
                    &&& if told {
                        is_snapshot(after.authenticated, after.mdns, after.snapshot)
                    } else {
                        after.snapshot == before.snapshot
                    }
                }
            }),
    {
        proof {
            use_type_invariant(&*self);
        }
        if peer.device_id.same(&self.local_id) {
            return false;
        }
        let ghost before = self@;
        let ghost name = fullname@;
        let ghost heard = peer@;
        let mut ids: Table<String, DeviceId> = Table::new();
        std::mem::swap(&mut ids, &mut self.service_ids);
        ids.insert(fullname, peer.device_id.clone());
        assert(id_map(ids@) =~= before.services.insert(name, heard.device_id));
        self.service_ids = ids;
        let mut peers: Table<DeviceId, PeerAdvertisement> = Table::new();
        assert(advertisements(peers@) =~= PeerMap::empty());
        std::mem::swap(&mut peers, &mut self.mdns_peers);
        let changed = merge_observed_peer(&mut peers, peer);
        proof {
            lemma_observed_is_filed(
                before.mdns,
                advertisements(peers@),
                heard,
                changed,
                before.local_id,
            );
        }
        self.mdns_peers = peers;
        if changed {
            self.emit();
        }
        changed
    }

    /// Takes the end of an announcement. Tells whether consumers were told.
    pub fn remove(&mut self, fullname: &str) -> (told: bool)
        ensures
            ({
                let before = old(self)@;
                let after = final(self)@;
                if !before.services.contains_key(fullname@) {
                    after == before && !told
                } else {
                    let id = before.services[fullname@];
                    &&& told == before.mdns.contains_key(id)
                    &&& after == (DiscoveryView {
                        mdns: before.mdns.remove(id),
                        services: before.services.remove(fullname@),
                        snapshot: after.snapshot,
                        ..before
                    })
                    &&& if told {
                        is_snapshot(after.authenticated, after.mdns, after.snapshot)
                    } else {
                        after.snapshot == before.snapshot
                    }
                }
            }),
    {
        proof {
            use_type_invariant(&*self);
        }
        let ghost before = self@;
        let name = fullname.to_owned();
        let mut ids: Table<String, DeviceId> = Table::new();
        std::mem::swap(&mut ids, &mut self.service_ids);
        let removed = ids.remove(&name);
        assert(id_map(ids@) =~= before.services.remove(fullname@));
        self.service_ids = ids;
        match removed {
            None => {
                assert(before.services.remove(fullname@) =~= before.services);
                assert(self@ =~= before);
                false
            },
            Some(id) => {
                let mut peers: Table<DeviceId, PeerAdvertisement> = Table::new();
                assert(advertisements(peers@) =~= PeerMap::empty());
                std::mem::swap(&mut peers, &mut self.mdns_peers);
                let known = peers.remove(&id).is_some();
                assert(advertisements(peers@) =~= before.mdns.remove(id@));
                self.mdns_peers = peers;
                if known {
                    self.emit();
                }
                known
            },
        }
    }

    /// Whether new display metadata are announced now: only while this device
    /// announces itself.
    pub fn update_local_metadata(&self) -> (publication: Publication)
        ensures
            publication == if self@.local_published {
                Publication::Register
            } else {
                Publication::Keep
            },
    {
        if self.local_published {
            Publication::Register
        } else {
            Publication::Keep
        }
    }

    /// What is to be done for this device to be announced, or not.
    pub fn publication(&self, published: bool) -> (publication: Publication)
        ensures
            publication == if self@.local_published == published {
                Publication::Keep
            } else if published {
                Publication::Register
            } else {
                Publication::Unregister
            },
    {
        if self.local_published == published {
            Publication::Keep
        } else if published {
            Publication::Register
        } else {
            Publication::Unregister
        }
    }

    /// Notes that this device is announced now, or is not.
    pub fn set_local_published(&mut self, published: bool)
        ensures
            final(self)@ == (DiscoveryView { local_published: published, ..old(self)@ }),
    {
        proof {
            use_type_invariant(&*self);
        }
        self.local_published = published;
    }

    /// Starts to announce the web gateway: the full name of an earlier service,
    /// which is to be unregistered first, and the service to register. A gateway
    /// without a port changes nothing.
    pub fn publish_web_gateway(&mut self, site_name: &str, port: u16) -> (services: (
        Option<String>,
        Result<mdns_sd::ServiceInfo, NetworkError>,
    ))
        requires
            port != 0 ==> is_char_boundary(
                encode_utf8(id_suffix(old(self)@.local_id)),
                cut(id_suffix(old(self)@.local_id), 20),
            ) && is_char_boundary(
                encode_utf8(id_suffix(old(self)@.local_id)),
                cut(id_suffix(old(self)@.local_id), 32),
            ),
        ensures
            is_gateway(old(self)@.local_id, site_name@, port, services.1),
            text_option(services.0) == if port == 0 {
                None
            } else {
                old(self)@.web_fullname
            },
            final(self)@ == if port == 0 {
                old(self)@
            } else {
                DiscoveryView { web_fullname: None, ..old(self)@ }
            },
    {
        match web_gateway_record(&self.local_id, site_name, port) {
            Err(error) => (None, Err(error)),
            Ok(record) => {
                let earlier = self.unpublish_web_gateway();
                (earlier, to_service(&record))
            },
        }
    }

    /// Notes the full name under which the web gateway was registered.
    pub fn web_gateway_published(&mut self, fullname: String)
        ensures
            final(self)@ == (DiscoveryView { web_fullname: Some(fullname@), ..old(self)@ }),
    {
        proof {
            use_type_invariant(&*self);
        }
        self.web_fullname = Some(fullname);
    }

    /// Ends the announcement of the web gateway: the full name to unregister,
    /// where there is one.
    pub fn unpublish_web_gateway(&mut self) -> (fullname: Option<String>)
        ensures
            text_option(fullname) == old(self)@.web_fullname,
            final(self)@ == (DiscoveryView { web_fullname: None, ..old(self)@ }),
    {
        proof {
            use_type_invariant(&*self);
        }
        let fullname = match &self.web_fullname {
            Some(name) => Some(name.clone()),
            None => None,
        };
        self.web_fullname = None;
        fullname
    }
}

proof fn lemma_observed_is_filed(
    before: PeerMap,
    after: PeerMap,
    peer: PeerAdvertisementView,
    changed: bool,
    local_id: Seq<char>,
)
    requires
        is_filed(before, local_id),
        is_observed(before, after, peer, changed),
        peer.device_id != local_id,
    ensures
        is_filed(after, local_id),
{
    assert forall|id: Seq<char>| #[trigger] after.contains_key(id) implies after[id].device_id
        == id by {
        if before.contains_key(id) {
            assert(before[id].device_id == id);
        }
    }
}

/// The entries say what is known of their devices, and no device occurs twice.
spec fn are_combined(
    authenticated: PeerMap,
    mdns: PeerMap,
    list: Seq<PeerAdvertisementView>,
) -> bool {
    &&& forall|i: int|
        0 <= i < list.len() ==> is_combined(
            authenticated,
            mdns,
            (#[trigger] list[i]).device_id,
            list[i],
        )
    &&& forall|i: int, j: int|
        0 <= i < j < list.len() ==> (#[trigger] list[i]).device_id != (
        #[trigger] list[j]).device_id
}

/// What is known of all devices, in order of name and id.
fn combine(
    authenticated: &Table<DeviceId, PeerAdvertisement>,
    mdns: &Table<DeviceId, PeerAdvertisement>,
    Ghost(local_id): Ghost<Seq<char>>,
) -> (snapshot: Vec<PeerAdvertisement>)
    requires
        is_filed(advertisements(authenticated@), local_id),
        is_filed(advertisements(mdns@), local_id),
    ensures
        is_snapshot(advertisements(authenticated@), advertisements(mdns@), views(snapshot@)),
{
    let ghost known = advertisements(authenticated@);
    let ghost heard = advertisements(mdns@);
    let mut list: Vec<PeerAdvertisement> = Vec::new();
    let count: usize = authenticated.len();
    let ghost first = authenticated.listed();
    let mut i: usize = 0;
    while i < count
        invariant
            i <= count,
            count == authenticated.listed().len(),
            first == authenticated.listed(),
            known == advertisements(authenticated@),
            heard == advertisements(mdns@),
            is_filed(known, local_id),
            is_filed(heard, local_id),
            list.len() == i,
            forall|k: int|
                0 <= k < first.len() ==> authenticated@.contains_key((#[trigger] first[k]).0)
                    && authenticated@[first[k].0] == first[k].1,
            forall|k: int, j: int|
                0 <= k < j < first.len() ==> (#[trigger] first[k]).0 != (#[trigger] first[j]).0,
            forall|k: int| 0 <= k < i ==> (#[trigger] list@[k])@.device_id == first[k].0,
            are_combined(known, heard, views(list@)),
        decreases count - i,
    {
        let (id, peer) = authenticated.at(i);
        let ghost before = views(list@);
        assert(known.contains_key(id@) && known[id@] == peer@);
        let mut entry = peer.clone();
        if let Some(announced) = mdns.get(id) {
            assert(heard.contains_key(id@) && heard[id@] == announced@);
            merge_advertisement(&mut entry, announced);
        }
        assert(entry@.device_id == id@);
        assert(is_combined(known, heard, id@, entry@));
        let ghost added = entry@;
        list.push(entry);
        proof {
            lemma_combined_push(known, heard, before, added);
            assert(views(list@) =~= before.push(added));
        }
        i += 1;
    }
    let total: usize = mdns.len();
    let ghost second = mdns.listed();
    let mut j: usize = 0;
    while j < total
        invariant
            j <= total,
            total == mdns.listed().len(),
            second == mdns.listed(),
            count == first.len(),
            known == advertisements(authenticated@),
            heard == advertisements(mdns@),
            is_filed(known, local_id),
            is_filed(heard, local_id),
            count <= list.len(),
            forall|k: int|
                0 <= k < first.len() ==> authenticated@.contains_key((#[trigger] first[k]).0)
                    && authenticated@[first[k].0] == first[k].1,
            forall|k: int|
                0 <= k < second.len() ==> mdns@.contains_key((#[trigger] second[k]).0)
                    && mdns@[second[k].0] == second[k].1,
            forall|k: int, m: int|
                0 <= k < m < second.len() ==> (#[trigger] second[k]).0 != (#[trigger] second[m]).0,
            forall|k: int| 0 <= k < count ==> (#[trigger] list@[k])@.device_id == first[k].0,
            forall|k: int|
                count <= k < list.len() ==> exists|m: int|
                    0 <= m < j && (#[trigger] second[m]).0 == (#[trigger] list@[k])@.device_id,
            forall|m: int|
                0 <= m < j && !known.contains_key((#[trigger] second[m]).0) ==> is_listed(
                    views(list@),
                    second[m].0,
                ),
            are_combined(known, heard, views(list@)),
        decreases total - j,
    {
        let (id, peer) = mdns.at(j);
        let ghost before = views(list@);
        let ghost old_list = list@;
        assert(heard.contains_key(id@) && heard[id@] == peer@);
        assert(second[j as int].0 == id@);
        if authenticated.get(id).is_none() {
            assert(!known.contains_key(id@));
            let entry = peer.clone();
            let ghost added = entry@;
            proof {
                assert forall|k: int| 0 <= k < before.len() implies (#[trigger] before[k]).device_id
                    != added.device_id by {
                    assert(before[k] == list@[k]@);
                    if k < count {
                        assert(known.contains_key(first[k].0));
                    } else {
                        let m = choose|m: int|
                            0 <= m < j && (#[trigger] second[m]).0 == list@[k]@.device_id;
                        assert(second[m].0 != second[j as int].0);
                    }
                }
                lemma_combined_push(known, heard, before, added);
            }
            list.push(entry);
            assert(views(list@) =~= before.push(added));
            assert(views(list@)[before.len() as int].device_id == id@);
        }
        proof {
            assert forall|m: int|
                0 <= m < j + 1 && !known.contains_key((#[trigger] second[m]).0) implies is_listed(
                views(list@),
                second[m].0,
            ) by {
                if m < j {
                    assert(is_listed(before, second[m].0));
                    let k = choose|k: int|
                        0 <= k < before.len() && (#[trigger] before[k]).device_id == second[m].0;
                    assert(views(list@)[k] == before[k]);
                } else {
                    assert(views(list@)[list@.len() - 1].device_id == second[m].0);
                }
            }
            assert forall|k: int| count <= k < list.len() implies exists|m: int|
                0 <= m < j + 1 && (#[trigger] second[m]).0 == (#[trigger] list@[k])@.device_id by {
                if k < old_list.len() {
                    assert(list@[k] == old_list[k]);
                    let m = choose|m: int|
                        0 <= m < j && (#[trigger] second[m]).0 == old_list[k]@.device_id;
                    assert(second[m].0 == list@[k]@.device_id);
                } else {
                    assert(second[j as int].0 == list@[k]@.device_id);
                }
            }
        }
        j += 1;
    }
    let ghost all = views(list@);
    let ghost unsorted = list@;
    let ghost key = |peer: PeerAdvertisement| (snapshot_key())(peer@);
    let before = |a: &PeerAdvertisement, b: &PeerAdvertisement| -> (before: bool)
        ensures
            before == seq_before((snapshot_key())(a@), (snapshot_key())(b@)),
    {
        before_in_snapshot(a, b)
    };
    let snapshot = stable_sort(list, before, Ghost(key));
    proof {
        let sorted = views(snapshot@);
        lemma_stable_sort_views(unsorted, snapshot@, key, snapshot_key());
        assert(is_stable_sort(all, sorted, snapshot_key()));
        let tag = |peer: PeerAdvertisementView| peer.device_id;
        assert forall|a: int, b: int| 0 <= a < b < all.len() implies tag(all[a]) != tag(all[b]) by {
            assert(all[a].device_id != all[b].device_id);
        }
        lemma_stable_sort_distinct(all, sorted, snapshot_key(), tag);
        assert forall|a: int, b: int| 0 <= a < b < sorted.len() implies (
        #[trigger] sorted[a]).device_id != (#[trigger] sorted[b]).device_id by {
            assert(tag(sorted[a]) != tag(sorted[b]));
        }
        assert forall|a: int| 0 <= a < sorted.len() implies is_combined(
            known,
            heard,
            (#[trigger] sorted[a]).device_id,
            sorted[a],
        ) by {
            assert(sorted.contains(sorted[a]));
            lemma_stable_sort_contains(all, sorted, snapshot_key(), sorted[a]);
            let b = choose|b: int| 0 <= b < all.len() && all[b] == sorted[a];
            assert(is_combined(known, heard, all[b].device_id, all[b]));
        }
        assert forall|id: Seq<char>| known.contains_key(id) || heard.contains_key(
            id,
        ) implies #[trigger] is_listed(sorted, id) by {
            let at = if known.contains_key(id) {
                assert(authenticated@.contains_key(id));
                assert(first.contains((id, authenticated@[id])));
                let k = choose|k: int| 0 <= k < first.len() && first[k] == (id, authenticated@[id]);
                assert(unsorted[k]@.device_id == first[k].0);
                k
            } else {
                assert(mdns@.contains_key(id));
                assert(second.contains((id, mdns@[id])));
                let m = choose|m: int| 0 <= m < second.len() && second[m] == (id, mdns@[id]);
                assert(is_listed(all, second[m].0));
                choose|k: int| 0 <= k < all.len() && (#[trigger] all[k]).device_id == id
            };
            assert(all[at].device_id == id);
            assert(all.contains(all[at]));
            lemma_stable_sort_contains(all, sorted, snapshot_key(), all[at]);
            let b = choose|b: int| 0 <= b < sorted.len() && sorted[b] == all[at];
            assert(sorted[b].device_id == id);
        }
    }
    snapshot
}

proof fn lemma_combined_push(
    authenticated: PeerMap,
    mdns: PeerMap,
    list: Seq<PeerAdvertisementView>,
    entry: PeerAdvertisementView,
)
    requires
        are_combined(authenticated, mdns, list),
        is_combined(authenticated, mdns, entry.device_id, entry),
        forall|k: int| 0 <= k < list.len() ==> (#[trigger] list[k]).device_id != entry.device_id,
    ensures
        are_combined(authenticated, mdns, list.push(entry)),
{
}

} // verus!
