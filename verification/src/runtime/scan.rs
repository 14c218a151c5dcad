//! A bounded scan of the local network.
//!
//! Times are nanoseconds of a clock that does not go back.
use vstd::prelude::*;
use vstd::string::*;
use vstd::utf8::*;

use crate::address::{ipv4, ipv4_bits, lemma_octets_of_bits, octet, octets, IpAddress, SocketAddress};
use crate::order::{
    byte_key, has_key, is_sorted_distinct, is_stable_sort, lemma_before_asymmetric,
    lemma_before_total, lemma_byte_key_injective, lemma_number_first, lemma_pair_order,
    lemma_stable_sort_contains, lemma_stable_sort_views, lemma_text_key_injective,
    seq_before, sorted_distinct, splits_at, stable_sort, text_before, text_key,
};
use crate::peer::{views, DeviceId};
use crate::runtime::dial::at_most;
use crate::runtime::limits::elapsed;
use crate::text::{
    begins_with, contains_bytes, contains_text, lower_bytes, lowered, same_text, starts_with,
};

verus! {

/// The port at which a scan looks for devices.
pub const SCAN_PORT: u16 = 8765;

/// How many endpoints a scan probes at a time.
pub const SCAN_CONCURRENCY: usize = 32;

/// The pause between two probes, in milliseconds.
pub const SCAN_LAUNCH_INTERVAL_MS: u64 = 20;

/// How long a probe may take, in milliseconds.
pub const SCAN_ENDPOINT_TIMEOUT_MS: u64 = 900;

/// The time between the starts of two scans: 60 seconds.
pub const SCAN_COOLDOWN_NS: u64 = 60_000_000_000;

/// How many networks a scan covers.
pub const MAX_SUBNETS: usize = 2;

/// What a scan did.
#[derive(Debug, Clone, Copy, PartialEq, Eq, Structural)]
pub struct LanScanReport {
    pub attempted_endpoints: usize,
    pub discovered_devices: usize,
    pub scanned_subnets: usize,
    pub throttled: bool,
}

impl Default for LanScanReport {
    fn default() -> (report: Self)
        ensures
            report == (LanScanReport {
                attempted_endpoints: 0,
                discovered_devices: 0,
                scanned_subnets: 0,
                throttled: false,
            }),
    {
        LanScanReport {
            attempted_endpoints: 0,
            discovered_devices: 0,
            scanned_subnets: 0,
            throttled: false,
        }
    }
}

/// Interfaces of wired and wireless networks.
pub open spec fn is_primary(name: Seq<char>) -> bool {
    let low = lower_bytes(encode_utf8(name));
    begins_with(low, encode_utf8("en"@)) || begins_with(low, encode_utf8("eth"@)) || begins_with(
        low,
        encode_utf8("wlan"@),
    ) || contains_bytes(low, encode_utf8("wi-fi"@)) || contains_bytes(low, encode_utf8("wifi"@))
}

/// The class of an interface: wired and wireless networks come first.
pub fn interface_priority(name: &str) -> (class: u8)
    ensures
        class == if is_primary(name@) {
            0u8
        } else {
            1u8
        },
{
    let low = lowered(name);
    let bytes = low.as_slice();
    if starts_with(bytes, "en") || starts_with(bytes, "eth") || starts_with(bytes, "wlan")
        || contains_text(bytes, "wi-fi") || contains_text(bytes, "wifi") {
        0
    } else {
        1
    }
}

/// Interfaces that lead to no local network.
pub open spec fn is_virtual(name: Seq<char>) -> bool {
    let low = lower_bytes(encode_utf8(name));
    begins_with(low, encode_utf8("lo"@)) || begins_with(low, encode_utf8("utun"@)) || begins_with(
        low,
        encode_utf8("tun"@),
    ) || begins_with(low, encode_utf8("tap"@)) || begins_with(low, encode_utf8("docker"@))
        || begins_with(low, encode_utf8("veth"@)) || begins_with(low, encode_utf8("br-"@))
        || begins_with(low, encode_utf8("virbr"@)) || begins_with(low, encode_utf8("vmnet"@))
        || begins_with(low, encode_utf8("tailscale"@)) || begins_with(low, encode_utf8("wg"@))
}

/// Whether an interface leads to no local network.
pub fn is_likely_virtual(name: &str) -> (answer: bool)
    ensures
        answer == is_virtual(name@),
{
    let low = lowered(name);
    let bytes = low.as_slice();
    starts_with(bytes, "lo") || starts_with(bytes, "utun") || starts_with(bytes, "tun")
        || starts_with(bytes, "tap") || starts_with(bytes, "docker") || starts_with(bytes, "veth")
        || starts_with(bytes, "br-") || starts_with(bytes, "virbr") || starts_with(bytes, "vmnet")
        || starts_with(bytes, "tailscale") || starts_with(bytes, "wg")
}

/// Addresses of private networks.
pub open spec fn is_private(ip: u32) -> bool {
    octet(ip, 0) == 10 || (octet(ip, 0) == 172 && 16 <= octet(ip, 1) <= 31) || (octet(ip, 0) == 192
        && octet(ip, 1) == 168)
}

/// An interface of this host, with its address.
#[derive(Debug)]
pub struct HostInterface {
    pub name: String,
    pub address: IpAddress,
}

/// An interface whose network is scanned.
#[derive(Debug)]
pub struct ScanInterface {
    pub name: String,
    pub ip: u32,
}

/// What a [`ScanInterface`] says.
pub struct ScanInterfaceView {
    pub name: Seq<char>,
    pub ip: u32,
}

impl View for ScanInterface {
    type V = ScanInterfaceView;

    open spec fn view(&self) -> ScanInterfaceView {
        ScanInterfaceView { name: self.name@, ip: self.ip }
    }
}

/// The interface, where its network can be scanned.
pub open spec fn scannable(interface: HostInterface) -> Option<ScanInterfaceView> {
    match interface.address {
        IpAddress::V4(ip) => if is_private(ip) && !IpAddress::V4(ip).loopback() && !is_virtual(
            interface.name@,
        ) {
            Some(ScanInterfaceView { name: interface.name@, ip })
        } else {
            None
        },
        IpAddress::V6(_) => None,
    }
}

/// The interfaces whose networks can be scanned.
pub open spec fn scannable_ones(list: Seq<HostInterface>) -> Seq<ScanInterfaceView>
    decreases list.len(),
{
    if list.len() == 0 {
        seq![]
    } else {
        let before = scannable_ones(list.drop_last());
        match scannable(list.last()) {
            Some(interface) => before.push(interface),
            None => before,
        }
    }
}

/// Place of an interface: by class, name and address.
pub open spec fn interface_key() -> spec_fn(ScanInterfaceView) -> Seq<int> {
    |interface: ScanInterfaceView|
        seq![
            if is_primary(interface.name) {
                0int
            } else {
                1int
            },
        ] + (text_key(interface.name) + seq![-1int] + seq![interface.ip as int])
}

fn interface_before(a: &ScanInterface, b: &ScanInterface) -> (before: bool)
    ensures
        before == seq_before((interface_key())(a@), (interface_key())(b@)),
{
    let p: u8 = interface_priority(a.name.as_str());
    let q: u8 = interface_priority(b.name.as_str());
    let before = p < q || (p == q && (text_before(a.name.as_str(), b.name.as_str()) || (same_text(
        a.name.as_str(),
        b.name.as_str(),
    ) && a.ip < b.ip)));
    proof {
        let x = text_key(a@.name);
        let y = text_key(b@.name);
        let c = seq![a.ip as int];
        let d = seq![b.ip as int];
        lemma_number_first(p as int, x + seq![-1int] + c, q as int, y + seq![-1int] + d);
        lemma_pair_order(x, c, y, d);
        if x == y {
            crate::order::lemma_text_key_injective(a@.name, b@.name);
        }
        assert(seq_before(c, d) == (a.ip < b.ip)) by {
            if a.ip < b.ip {
                assert(splits_at(c, d, 0));
            }
            if seq_before(c, d) {
                let at = choose|at: int| #[trigger] splits_at(c, d, at);
                assert(at == 0);
            }
        }
    }
    before
}

/// The interfaces whose networks can be scanned, the best first.
pub fn local_scan_interfaces(list: Vec<HostInterface>) -> (interfaces: Vec<ScanInterface>)
    ensures
        is_stable_sort(scannable_ones(list@), views(interfaces@), interface_key()),
{
    let mut kept: Vec<ScanInterface> = Vec::new();
    let mut i: usize = 0;
    assert(list@.take(0) =~= seq![]);
    assert(views(kept@) =~= Seq::<ScanInterfaceView>::empty());
    while i < list.len()
        invariant
            i <= list.len(),
            views(kept@) == scannable_ones(list@.take(i as int)),
        decreases list.len() - i,
    {
        let ghost before = views(kept@);
        proof {
            let part = list@.take(i + 1);
            assert(part.drop_last() =~= list@.take(i as int));
            assert(part.last() == list@[i as int]);
        }
        if let IpAddress::V4(ip) = list[i].address {
            let parts = octets(ip);
            let private = parts.0 == 10 || (parts.0 == 172 && parts.1 >= 16 && parts.1 <= 31) || (
            parts.0 == 192 && parts.1 == 168);
            if private && !IpAddress::V4(ip).is_loopback() && !is_likely_virtual(
                list[i].name.as_str(),
            ) {
                let interface = ScanInterface { name: list[i].name.clone(), ip };
                let ghost added = interface@;
                kept.push(interface);
                assert(views(kept@) =~= before.push(added));
            }
        }
        i += 1;
    }
    assert(list@.take(i as int) =~= list@);
    let ghost unsorted = kept@;
    let ghost key = |interface: ScanInterface| (interface_key())(interface@);
    let before = |a: &ScanInterface, b: &ScanInterface| -> (before: bool)
        ensures
            before == seq_before((interface_key())(a@), (interface_key())(b@)),
    {
        interface_before(a, b)
    };
    let sorted = stable_sort(kept, before, Ghost(key));
    proof {
        lemma_stable_sort_views(unsorted, sorted@, key, interface_key());
    }
    sorted
}

/// The network of an address: its first three octets.
pub open spec fn prefix_of(ip: u32) -> Seq<u8> {
    seq![octet(ip, 0), octet(ip, 1), octet(ip, 2)]
}

/// The network of an address: its first three octets.
pub fn subnet_prefix(ip: u32) -> (prefix: [u8; 3])
    ensures
        prefix@ == prefix_of(ip),
{
    let parts = octets(ip);
    let prefix = [parts.0, parts.1, parts.2];
    assert(prefix@ =~= prefix_of(ip));
    prefix
}

/// The hosts of a network: the addresses 1 to 254.
pub open spec fn hosts_of(prefix: Seq<u8>) -> Seq<u32> {
    Seq::new(254, |i: int| ipv4_bits(prefix[0], prefix[1], prefix[2], (i + 1) as u8))
}

/// The hosts of a network: the addresses 1 to 254.
pub fn subnet_hosts(prefix: [u8; 3]) -> (hosts: Vec<u32>)
    ensures
        hosts@ == hosts_of(prefix@),
{
    let mut hosts: Vec<u32> = Vec::new();
    let mut host: u8 = 1;
    while host < 255
        invariant
            1 <= host <= 255,
            hosts.len() == host - 1,
            forall|i: int|
                0 <= i < hosts.len() ==> #[trigger] hosts@[i] == ipv4_bits(
                    prefix@[0],
                    prefix@[1],
                    prefix@[2],
                    (i + 1) as u8,
                ),
        decreases 255 - host,
    {
        hosts.push(ipv4(prefix[0], prefix[1], prefix[2], host));
        host += 1;
    }
    assert(hosts@ =~= hosts_of(prefix@));
    hosts
}

/// The endpoints of hosts that are not this one.
pub open spec fn targets_among(hosts: Seq<u32>, local: Seq<u32>) -> Seq<SocketAddress>
    decreases hosts.len(),
{
    if hosts.len() == 0 {
        seq![]
    } else {
        let before = targets_among(hosts.drop_last(), local);
        if local.contains(hosts.last()) {
            before
        } else {
            before.push(SocketAddress::V4 { ip: hosts.last(), port: SCAN_PORT })
        }
    }
}

/// The endpoints that a scan of these networks probes.
pub open spec fn targets(subnets: Seq<Seq<u8>>, local: Seq<u32>) -> Seq<SocketAddress>
    decreases subnets.len(),
{
    if subnets.len() == 0 {
        seq![]
    } else {
        targets(subnets.drop_last(), local) + targets_among(hosts_of(subnets.last()), local)
    }
}

/// Place of a network.
pub open spec fn prefix_key() -> spec_fn([u8; 3]) -> Seq<int> {
    |prefix: [u8; 3]| byte_key(prefix@)
}

/// The octets of networks.
pub open spec fn prefixes(list: Seq<[u8; 3]>) -> Seq<Seq<u8>> {
    list.map_values(|prefix: [u8; 3]| prefix@)
}

/// The networks that a scan covers: the first two of those of the interfaces.
pub open spec fn are_scanned(interfaces: Seq<ScanInterfaceView>, subnets: Seq<Seq<u8>>) -> bool {
    exists|every: Seq<[u8; 3]>, all: Seq<[u8; 3]>| #[trigger]
        is_sorted_distinct(every, all, prefix_key()) && prefixes(every) == interfaces.map_values(
            |interface: ScanInterfaceView| prefix_of(interface.ip),
        ) && subnets == at_most(prefixes(all), MAX_SUBNETS as int)
}

/// The addresses of interfaces.
pub open spec fn own_addresses(interfaces: Seq<ScanInterfaceView>) -> Seq<u32> {
    interfaces.map_values(|interface: ScanInterfaceView| interface.ip)
}

fn contains_ip(list: &Vec<u32>, ip: u32) -> (found: bool)
    ensures
        found == list@.contains(ip),
{
    let mut i: usize = 0;
    while i < list.len()
        invariant
            i <= list.len(),
            forall|j: int| 0 <= j < i ==> list@[j] != ip,
        decreases list.len() - i,
    {
        if list[i] == ip {
            return true;
        }
        i += 1;
    }
    false
}

/// What a scan covers: the networks, and the endpoints to probe.
#[derive(Debug)]
pub struct ScanPlan {
    pub subnets: Vec<[u8; 3]>,
    pub endpoints: Vec<SocketAddress>,
}

/// What a scan from these interfaces covers. Whatever the size of a network,
/// only the 254 hosts around the own address are probed, and only at one port.
pub fn plan_scan(interfaces: &Vec<ScanInterface>) -> (plan: ScanPlan)
    ensures
        are_scanned(views(interfaces@), prefixes(plan.subnets@)),
        plan.endpoints@ == targets(prefixes(plan.subnets@), own_addresses(views(interfaces@))),
        plan.subnets@.len() <= MAX_SUBNETS,
        plan.endpoints@.len() <= 508,
{
    let ghost all_views = views(interfaces@);
    let mut local: Vec<u32> = Vec::new();
    let mut every: Vec<[u8; 3]> = Vec::new();
    let mut i: usize = 0;
    while i < interfaces.len()
        invariant
            i <= interfaces.len(),
            all_views == views(interfaces@),
            local.len() == i,
            every.len() == i,
            forall|j: int| 0 <= j < i ==> #[trigger] local@[j] == all_views[j].ip,
            forall|j: int| 0 <= j < i ==> (#[trigger] every@[j])@ == prefix_of(all_views[j].ip),
        decreases interfaces.len() - i,
    {
        local.push(interfaces[i].ip);
        every.push(subnet_prefix(interfaces[i].ip));
        i += 1;
    }
    assert(local@ =~= own_addresses(all_views));
    assert(prefixes(every@) =~= all_views.map_values(
        |interface: ScanInterfaceView| prefix_of(interface.ip),
    ));
    let ghost listed = every@;
    let before = |a: &[u8; 3], b: &[u8; 3]| -> (before: bool)
        ensures
            before == seq_before(byte_key(a@), byte_key(b@)),
    {
        crate::order::bytes_before(a.as_slice(), b.as_slice())
    };
    let mut subnets = sorted_distinct(every, before, Ghost(prefix_key()));
    let ghost all = subnets@;
    subnets.truncate(MAX_SUBNETS);
    proof {
        assert(is_sorted_distinct(listed, all, prefix_key()));
        assert(prefixes(subnets@) =~= at_most(prefixes(all), MAX_SUBNETS as int));
    }
    let ghost chosen = prefixes(subnets@);
    let mut endpoints: Vec<SocketAddress> = Vec::new();
    let mut s: usize = 0;
    assert(chosen.take(0) =~= seq![]);
    while s < subnets.len()
        invariant
            s <= subnets.len(),
            chosen == prefixes(subnets@),
            endpoints@ == targets(chosen.take(s as int), local@),
        decreases subnets.len() - s,
    {
        let hosts = subnet_hosts(subnets[s]);
        let ghost start = endpoints@;
        let mut h: usize = 0;
        assert(hosts@.take(0) =~= seq![]);
        assert(start + targets_among(hosts@.take(0), local@) =~= start);
        while h < hosts.len()
            invariant
                h <= hosts.len(),
                endpoints@ == start + targets_among(hosts@.take(h as int), local@),
            decreases hosts.len() - h,
        {
            proof {
                let part = hosts@.take(h + 1);
                assert(part.drop_last() =~= hosts@.take(h as int));
                assert(part.last() == hosts@[h as int]);
            }
            if !contains_ip(&local, hosts[h]) {
                endpoints.push(SocketAddress::V4 { ip: hosts[h], port: SCAN_PORT });
            }
            h += 1;
            assert(endpoints@ =~= start + targets_among(hosts@.take(h as int), local@));
        }
        proof {
            assert(hosts@.take(h as int) =~= hosts@);
            let part = chosen.take(s + 1);
            assert(part.drop_last() =~= chosen.take(s as int));
            assert(part.last() == chosen[s as int]);
        }
        s += 1;
    }
    assert(chosen.take(s as int) =~= chosen);
    proof {
        assert forall|j: int| 0 <= j < chosen.len() implies (#[trigger] chosen[j]).len() == 3 by {
            assert(chosen[j] == subnets@[j]@);
        }
        law_scan_is_bounded(chosen, local@);
    }
    ScanPlan { subnets, endpoints }
}

/// The endpoint is one that a scan of these networks may probe: at the scan's
/// port, in one of the networks, and not at this host.
pub open spec fn is_in_scope(
    endpoint: SocketAddress,
    subnets: Seq<Seq<u8>>,
    local: Seq<u32>,
) -> bool {
    endpoint matches SocketAddress::V4 { ip, port } && port == SCAN_PORT && subnets.contains(
        prefix_of(ip),
    ) && !local.contains(ip)
}

proof fn lemma_targets_among(prefix: Seq<u8>, count: nat, local: Seq<u32>)
    requires
        prefix.len() == 3,
        count <= 254,
    ensures
        targets_among(hosts_of(prefix).take(count as int), local).len() <= count,
        forall|i: int|
            0 <= i < targets_among(hosts_of(prefix).take(count as int), local).len()
                ==> is_in_scope(
                #[trigger] targets_among(hosts_of(prefix).take(count as int), local)[i],
                seq![prefix],
                local,
            ),
    decreases count,
{
    if count > 0 {
        let hosts = hosts_of(prefix).take(count as int);
        assert(hosts.drop_last() =~= hosts_of(prefix).take(count - 1));
        lemma_targets_among(prefix, (count - 1) as nat, local);
        lemma_octets_of_bits(prefix[0], prefix[1], prefix[2], count as u8);
        assert(hosts.last() == ipv4_bits(prefix[0], prefix[1], prefix[2], count as u8));
        assert(prefix_of(hosts.last()) =~= prefix);
        assert(seq![prefix][0] == prefix);
        assert(seq![prefix].contains(prefix));
    }
}

/// However many interfaces a host has and however large their networks are, a
/// scan probes at most 254 hosts in each of two networks, at one port, and never
/// this host.
pub proof fn law_scan_is_bounded(subnets: Seq<Seq<u8>>, local: Seq<u32>)
    requires
        forall|i: int| 0 <= i < subnets.len() ==> (#[trigger] subnets[i]).len() == 3,
    ensures
        targets(subnets, local).len() <= 254 * subnets.len(),
        subnets.len() <= MAX_SUBNETS ==> targets(subnets, local).len() <= 508,
        forall|i: int|
            0 <= i < targets(subnets, local).len() ==> is_in_scope(
                #[trigger] targets(subnets, local)[i],
                subnets,
                local,
            ),
    decreases subnets.len(),
{
    if subnets.len() > 0 {
        let rest = subnets.drop_last();
        let last = subnets.last();
        assert(subnets[subnets.len() - 1].len() == 3);
        assert forall|i: int| 0 <= i < rest.len() implies (#[trigger] rest[i]).len() == 3 by {
            assert(subnets[i].len() == 3);
        }
        law_scan_is_bounded(rest, local);
        lemma_targets_among(last, 254, local);
        assert(hosts_of(last).take(254) =~= hosts_of(last));
        let before = targets(rest, local);
        let own = targets_among(hosts_of(last), local);
        let all = targets(subnets, local);
        assert forall|i: int| 0 <= i < all.len() implies is_in_scope(
            #[trigger] all[i],
            subnets,
            local,
        ) by {
            if i < before.len() {
                assert(all[i] == before[i]);
                assert(is_in_scope(before[i], rest, local));
                let ip = all[i]->V4_ip;
                let k = choose|k: int| 0 <= k < rest.len() && rest[k] == prefix_of(ip);
                assert(subnets[k] == prefix_of(ip));
            } else {
                assert(all[i] == own[i - before.len()]);
                assert(is_in_scope(own[i - before.len()], seq![last], local));
                let ip = all[i]->V4_ip;
                let k = choose|k: int| 0 <= k < 1 && seq![last][k] == prefix_of(ip);
                assert(prefix_of(ip) == last);
                assert(subnets[subnets.len() - 1] == last);
            }
        }
    }
}

/// The address of a host in a network.
proof fn lemma_host_number(prefix: Seq<u8>, number: u8)
    requires
        prefix.len() == 3,
        1 <= number <= 254,
    ensures
        hosts_of(prefix)[number - 1] == prefix[0] * 0x100_0000 + prefix[1] * 0x1_0000 + prefix[2]
            * 0x100 + number,
        prefix_of(hosts_of(prefix)[number - 1]) == prefix,
        octet(hosts_of(prefix)[number - 1], 3) == number,
{
    let ip = ipv4_bits(prefix[0], prefix[1], prefix[2], number);
    assert(hosts_of(prefix)[number - 1] == ip);
    lemma_octets_of_bits(prefix[0], prefix[1], prefix[2], number);
    assert(prefix_of(ip) =~= prefix);
}

proof fn lemma_hosts_distinct(prefix: Seq<u8>)
    requires
        prefix.len() == 3,
    ensures
        hosts_of(prefix).no_duplicates(),
{
    let hosts = hosts_of(prefix);
    assert forall|i: int, j: int| 0 <= i < hosts.len() && 0 <= j < hosts.len() && i != j implies
        hosts[i] != hosts[j] by {
        lemma_host_number(prefix, (i + 1) as u8);
        lemma_host_number(prefix, (j + 1) as u8);
    }
}

/// The hosts of a network are its addresses from 1 to 254, each once.
pub proof fn law_every_host_of_a_network(prefix: Seq<u8>, ip: u32)
    requires
        prefix.len() == 3,
    ensures
        hosts_of(prefix).len() == 254,
        hosts_of(prefix).no_duplicates(),
        hosts_of(prefix).contains(ip) <==> 1 <= ip - (prefix[0] * 0x100_0000 + prefix[1] * 0x1_0000
            + prefix[2] * 0x100) <= 254,
{
    lemma_hosts_distinct(prefix);
    let hosts = hosts_of(prefix);
    let number = ip - (prefix[0] * 0x100_0000 + prefix[1] * 0x1_0000 + prefix[2] * 0x100);
    if 1 <= number <= 254 {
        lemma_host_number(prefix, number as u8);
        assert(hosts[number - 1] == ip);
    }
    if hosts.contains(ip) {
        let i = choose|i: int| 0 <= i < hosts.len() && hosts[i] == ip;
        lemma_host_number(prefix, (i + 1) as u8);
    }
}

/// What is among the targets of some hosts.
proof fn lemma_target_listed(hosts: Seq<u32>, local: Seq<u32>, target: SocketAddress)
    ensures
        targets_among(hosts, local).contains(target) <==> (target matches SocketAddress::V4 {
            ip,
            port,
        } && port == SCAN_PORT && hosts.contains(ip) && !local.contains(ip)),
        hosts.no_duplicates() ==> targets_among(hosts, local).no_duplicates(),
    decreases hosts.len(),
{
    let all = targets_among(hosts, local);
    if hosts.len() == 0 {
        assert(!all.contains(target));
    } else {
        let rest = hosts.drop_last();
        let last = hosts.last();
        let own = SocketAddress::V4 { ip: last, port: SCAN_PORT };
        let before = targets_among(rest, local);
        lemma_target_listed(rest, local, target);
        lemma_target_listed(rest, local, own);
        assert(hosts.contains(last)) by {
            assert(hosts[hosts.len() - 1] == last);
        }
        assert forall|ip: u32| hosts.contains(ip) implies ip == last || #[trigger] rest.contains(
            ip,
        ) by {
            let i = choose|i: int| 0 <= i < hosts.len() && hosts[i] == ip;
            if i < rest.len() {
                assert(rest[i] == ip);
            }
        }
        assert forall|ip: u32| #[trigger] rest.contains(ip) implies hosts.contains(ip) by {
            let i = choose|i: int| 0 <= i < rest.len() && rest[i] == ip;
            assert(hosts[i] == ip);
        }
        if !local.contains(last) {
            assert(all == before.push(own));
            assert(all[before.len() as int] == own);
            if before.contains(target) {
                let i = choose|i: int| 0 <= i < before.len() && before[i] == target;
                assert(all[i] == target);
            }
            if all.contains(target) && target != own {
                let i = choose|i: int| 0 <= i < all.len() && all[i] == target;
                assert(before[i] == target);
            }
        }
        if hosts.no_duplicates() {
            assert(rest.no_duplicates()) by {
                assert(forall|i: int| 0 <= i < rest.len() ==> rest[i] == #[trigger] hosts[i]);
            }
            assert(!rest.contains(last)) by {
                if rest.contains(last) {
                    let i = choose|i: int| 0 <= i < rest.len() && rest[i] == last;
                    assert(hosts[i] == hosts[hosts.len() - 1]);
                }
            }
            assert(!before.contains(own));
            assert(all.no_duplicates());
        }
    }
}

proof fn lemma_targets(subnets: Seq<Seq<u8>>, local: Seq<u32>, target: SocketAddress)
    requires
        forall|i: int| 0 <= i < subnets.len() ==> (#[trigger] subnets[i]).len() == 3,
    ensures
        targets(subnets, local).contains(target) <==> (target matches SocketAddress::V4 {
            ip,
            port,
        } && port == SCAN_PORT && !local.contains(ip) && exists|s: int|
            0 <= s < subnets.len() && hosts_of(#[trigger] subnets[s]).contains(ip)),
        subnets.no_duplicates() ==> targets(subnets, local).no_duplicates(),
    decreases subnets.len(),
{
    let all = targets(subnets, local);
    if subnets.len() == 0 {
        assert(!all.contains(target));
    } else {
        let rest = subnets.drop_last();
        let last = subnets.last();
        assert(subnets[subnets.len() - 1].len() == 3);
        assert forall|i: int| 0 <= i < rest.len() implies (#[trigger] rest[i]).len() == 3 by {
            assert(subnets[i].len() == 3);
        }
        let before = targets(rest, local);
        let own = targets_among(hosts_of(last), local);
        lemma_targets(rest, local, target);
        lemma_target_listed(hosts_of(last), local, target);
        assert(all == before + own);
        if before.contains(target) {
            let i = choose|i: int| 0 <= i < before.len() && before[i] == target;
            assert(all[i] == target);
            let s = choose|s: int|
                0 <= s < rest.len() && hosts_of(#[trigger] rest[s]).contains(target->V4_ip);
            assert(hosts_of(subnets[s]).contains(target->V4_ip));
        }
        if own.contains(target) {
            let i = choose|i: int| 0 <= i < own.len() && own[i] == target;
            assert(all[before.len() + i] == target);
            assert(hosts_of(subnets[subnets.len() - 1]).contains(target->V4_ip));
        }
        if all.contains(target) {
            let i = choose|i: int| 0 <= i < all.len() && all[i] == target;
            if i < before.len() {
                assert(before[i] == target);
            } else {
                assert(own[i - before.len()] == target);
            }
        }
        if target is V4 {
            let ip = target->V4_ip;
            if exists|s: int|
                0 <= s < subnets.len() && hosts_of(#[trigger] subnets[s]).contains(ip) {
                let s = choose|s: int|
                    0 <= s < subnets.len() && hosts_of(#[trigger] subnets[s]).contains(ip);
                if s < rest.len() {
                    assert(hosts_of(rest[s]).contains(ip));
                }
            }
        }
        if subnets.no_duplicates() {
            assert(rest.no_duplicates()) by {
                assert(forall|i: int| 0 <= i < rest.len() ==> rest[i] == #[trigger] subnets[i]);
            }
            lemma_hosts_distinct(last);
            assert forall|i: int, j: int| 0 <= i < before.len() && 0 <= j < own.len() implies
                before[i] != own[j] by {
                if before[i] == own[j] {
                    let both = before[i];
                    assert(before.contains(both));
                    assert(own.contains(both)) by {
                        assert(own[j] == both);
                    }
                    lemma_targets(rest, local, both);
                    lemma_target_listed(hosts_of(last), local, both);
                    let ip = both->V4_ip;
                    let s = choose|s: int|
                        0 <= s < rest.len() && hosts_of(#[trigger] rest[s]).contains(ip);
                    let a = choose|a: int|
                        0 <= a < hosts_of(rest[s]).len() && hosts_of(rest[s])[a] == ip;
                    let b = choose|b: int| 0 <= b < hosts_of(last).len() && hosts_of(last)[b] == ip;
                    lemma_host_number(rest[s], (a + 1) as u8);
                    lemma_host_number(last, (b + 1) as u8);
                    assert(subnets[s] == subnets[subnets.len() - 1]);
                }
            }
            assert(all.no_duplicates());
        }
    }
}

/// A scan is complete: in each of its networks every host with a number from 1 to
/// 254 is probed at port 8765, unless it is this host. No endpoint is probed
/// twice, and nothing else is probed.
pub proof fn law_scan_is_complete(
    subnets: Seq<Seq<u8>>,
    local: Seq<u32>,
    s: int,
    number: u8,
    ip: u32,
    other: SocketAddress,
)
    requires
        subnets.no_duplicates(),
        forall|i: int| 0 <= i < subnets.len() ==> (#[trigger] subnets[i]).len() == 3,
        0 <= s < subnets.len(),
        1 <= number <= 254,
        ip == subnets[s][0] * 0x100_0000 + subnets[s][1] * 0x1_0000 + subnets[s][2] * 0x100
            + number,
    ensures
        targets(subnets, local).contains(SocketAddress::V4 { ip, port: 8765 })
            <==> !local.contains(ip),
        targets(subnets, local).no_duplicates(),
        targets(subnets, local).contains(other) ==> {
            &&& other matches SocketAddress::V4 { ip, port }
            &&& port == 8765
            &&& !local.contains(ip)
            &&& exists|t: int|
                0 <= t < subnets.len() && 1 <= ip - ((#[trigger] subnets[t])[0] * 0x100_0000
                    + subnets[t][1] * 0x1_0000 + subnets[t][2] * 0x100) <= 254
        },
{
    let all = targets(subnets, local);
    assert(subnets[s].len() == 3);
    lemma_host_number(subnets[s], number);
    assert(hosts_of(subnets[s])[number - 1] == ip);
    assert(hosts_of(subnets[s]).contains(ip));
    lemma_targets(subnets, local, SocketAddress::V4 { ip, port: 8765 });
    lemma_targets(subnets, local, other);
    if all.contains(other) {
        let own = other->V4_ip;
        let t = choose|t: int|
            0 <= t < subnets.len() && hosts_of(#[trigger] subnets[t]).contains(own);
        let a = choose|a: int| 0 <= a < hosts_of(subnets[t]).len() && hosts_of(subnets[t])[a] == own;
        assert(subnets[t].len() == 3);
        lemma_host_number(subnets[t], (a + 1) as u8);
    }
}

/// A scan covers the networks of the interfaces, each once: all of them where
/// there are at most two, and two of them otherwise.
pub proof fn law_networks_of_the_interfaces_are_scanned(
    interfaces: Seq<ScanInterfaceView>,
    subnets: Seq<Seq<u8>>,
)
    requires
        are_scanned(interfaces, subnets),
    ensures
        subnets.len() <= 2,
        subnets.no_duplicates(),
        forall|s: int|
            0 <= s < subnets.len() ==> (#[trigger] subnets[s]).len() == 3 && exists|i: int|
                0 <= i < interfaces.len() && subnets[s][0] == octet(
                    (#[trigger] interfaces[i]).ip,
                    0,
                ) && subnets[s][1] == octet(interfaces[i].ip, 1) && subnets[s][2] == octet(
                    interfaces[i].ip,
                    2,
                ),
        forall|i: int|
            0 <= i < interfaces.len() && subnets.len() < 2 ==> exists|s: int|
                0 <= s < subnets.len() && (#[trigger] subnets[s])[0] == octet(
                    (#[trigger] interfaces[i]).ip,
                    0,
                ) && subnets[s][1] == octet(interfaces[i].ip, 1) && subnets[s][2] == octet(
                    interfaces[i].ip,
                    2,
                ),
        interfaces.len() > 0 ==> subnets.len() > 0,
{
    let (every, all) = choose|every: Seq<[u8; 3]>, all: Seq<[u8; 3]>| #[trigger]
        is_sorted_distinct(every, all, prefix_key()) && prefixes(every) == interfaces.map_values(
            |interface: ScanInterfaceView| prefix_of(interface.ip),
        ) && subnets == at_most(prefixes(all), MAX_SUBNETS as int);
    let every_prefix = interfaces.map_values(|interface: ScanInterfaceView| prefix_of(interface.ip));
    assert(every.len() == prefixes(every).len());
    assert(every.len() == interfaces.len());
    assert forall|i: int| 0 <= i < interfaces.len() implies (#[trigger] every[i])@ == prefix_of(
        interfaces[i].ip,
    ) by {
        assert(prefixes(every)[i] == every[i]@);
        assert(every_prefix[i] == prefix_of(interfaces[i].ip));
    }
    assert forall|s: int| 0 <= s < subnets.len() implies subnets[s] == (#[trigger] all[s])@ by {
        assert(prefixes(all)[s] == all[s]@);
    }
    assert forall|s: int| 0 <= s < subnets.len() implies (#[trigger] subnets[s]).len() == 3
        && exists|i: int|
        0 <= i < interfaces.len() && subnets[s][0] == octet((#[trigger] interfaces[i]).ip, 0)
            && subnets[s][1] == octet(interfaces[i].ip, 1) && subnets[s][2] == octet(
            interfaces[i].ip,
            2,
        ) by {
        assert(subnets[s] == all[s]@);
        assert(every.contains(all[s]));
        let i = choose|i: int| 0 <= i < every.len() && every[i] == all[s];
        assert(every[i]@ == prefix_of(interfaces[i].ip));
        assert(subnets[s][0] == octet(interfaces[i].ip, 0));
    }
    assert forall|i: int| 0 <= i < interfaces.len() && subnets.len() < 2 implies exists|s: int|
        0 <= s < subnets.len() && (#[trigger] subnets[s])[0] == octet(
            (#[trigger] interfaces[i]).ip,
            0,
        ) && subnets[s][1] == octet(interfaces[i].ip, 1) && subnets[s][2] == octet(
            interfaces[i].ip,
            2,
        ) by {
        assert(every[i]@ == prefix_of(interfaces[i].ip));
        assert(has_key(all, prefix_key(), (prefix_key())(every[i])));
        let s = choose|s: int|
            0 <= s < all.len() && (prefix_key())(#[trigger] all[s]) == (prefix_key())(every[i]);
        lemma_byte_key_injective(all[s]@, every[i]@);
        assert(prefixes(all).len() == all.len());
        assert(subnets[s] == all[s]@);
    }
    if interfaces.len() > 0 {
        assert(has_key(all, prefix_key(), (prefix_key())(every[0])));
        assert(prefixes(all).len() == all.len());
    }
    assert forall|s: int, t: int| 0 <= s < subnets.len() && 0 <= t < subnets.len() && s
        != t implies subnets[s] != subnets[t] by {
        assert(subnets[s] == all[s]@ && subnets[t] == all[t]@);
        if s < t {
            assert(seq_before((prefix_key())(all[s]), (prefix_key())(all[t])));
            lemma_before_asymmetric((prefix_key())(all[s]), (prefix_key())(all[t]));
        } else {
            assert(seq_before((prefix_key())(all[t]), (prefix_key())(all[s])));
            lemma_before_asymmetric((prefix_key())(all[t]), (prefix_key())(all[s]));
        }
    }
}

/// The networks of an interface are scanned where its address is a private one of
/// IPv4, in 10.0.0.0/8, 172.16.0.0/12 or 192.168.0.0/16, and the interface leads
/// to a local network.
pub proof fn law_private_networks_are_scanned(interface: HostInterface)
    ensures
        scannable(interface) is Some <==> (interface.address matches IpAddress::V4(ip)
            && !is_virtual(interface.name@) && (0x0a00_0000 <= ip <= 0x0aff_ffff || 0xac10_0000
            <= ip <= 0xac1f_ffff || 0xc0a8_0000 <= ip <= 0xc0a8_ffff)),
        scannable(interface) matches Some(chosen) ==> chosen.name == interface.name@
            && interface.address == IpAddress::V4(chosen.ip),
{
}

/// When the last scan started.
#[derive(Debug, Clone, Copy)]
pub struct ScanState {
    pub last_started: Option<u64>,
}

/// A scan may start: none started within the last minute.
pub open spec fn may_scan(last_started: Option<u64>, now: u64) -> bool {
    last_started matches Some(started) ==> elapsed(started, now) >= SCAN_COOLDOWN_NS
}

impl ScanState {
    /// No scan has started.
    pub fn new() -> (state: Self)
        ensures
            state.last_started is None,
    {
        ScanState { last_started: None }
    }

    /// Starts a scan at `now`, if it may start. Otherwise the report says that it
    /// was held back.
    pub fn begin(&mut self, now: u64) -> (refused: Option<LanScanReport>)
        ensures
            match refused {
                None => may_scan(old(self).last_started, now) && final(self).last_started == Some(
                    now,
                ),
                Some(report) => !may_scan(old(self).last_started, now) && *final(self) == *old(
                    self,
                ) && report == (LanScanReport {
                    attempted_endpoints: 0,
                    discovered_devices: 0,
                    scanned_subnets: 0,
                    throttled: true,
                }),
            },
    {
        if let Some(started) = self.last_started {
            let passed: u64 = if now >= started {
                now - started
            } else {
                0
            };
            if passed < SCAN_COOLDOWN_NS {
                return Some(
                    LanScanReport {
                        attempted_endpoints: 0,
                        discovered_devices: 0,
                        scanned_subnets: 0,
                        throttled: true,
                    },
                );
            }
        }
        self.last_started = Some(now);
        None
    }
}

/// What a scan does next.
#[derive(Debug, Clone, Copy, PartialEq, Eq, Structural)]
pub enum ScanStep {
    /// Probe this endpoint.
    Launch(SocketAddress),
    /// Wait for a probe to end.
    Join,
    /// Report.
    Finish,
}

fn contains_id(list: &Vec<DeviceId>, id: &DeviceId) -> (found: bool)
    ensures
        found == views(list@).contains(id@),
{
    let ghost all = views(list@);
    let mut i: usize = 0;
    while i < list.len()
        invariant
            i <= list.len(),
            all == views(list@),
            forall|j: int| 0 <= j < i ==> #[trigger] all[j] != id@,
        decreases list.len() - i,
    {
        assert(all[i as int] == list@[i as int]@);
        if list[i].same(id) {
            assert(all.contains(id@));
            return true;
        }
        i += 1;
    }
    false
}

/// A scan in progress.
pub struct ScanRun {
    subnets: usize,
    endpoints: Vec<SocketAddress>,
    next: usize,
    running: usize,
    committed: bool,
    stopped: bool,
    discovered: Vec<DeviceId>,
}

/// Where a scan stands.
pub struct ScanRunView {
    /// How many networks it covers.
    pub subnets: usize,
    /// The endpoints that it covers.
    pub endpoints: Seq<SocketAddress>,
    /// How many of them were probed.
    pub next: int,
    /// How many probes are running.
    pub running: int,
    /// The next endpoint is probed even if the scan is cancelled meanwhile.
    pub committed: bool,
    /// The scan was cancelled.
    pub stopped: bool,
    /// The devices that were found, each once.
    pub discovered: Seq<Seq<char>>,
}

impl View for ScanRun {
    type V = ScanRunView;

    closed spec fn view(&self) -> ScanRunView {
        ScanRunView {
            subnets: self.subnets,
            endpoints: self.endpoints@,
            next: self.next as int,
            running: self.running as int,
            committed: self.committed,
            stopped: self.stopped,
            discovered: views(self.discovered@),
        }
    }
}

/// The next step of a scan, and where it stands then.
pub open spec fn scan_step(run: ScanRunView, cancelled: bool) -> (ScanStep, ScanRunView) {
    let over = run.stopped || run.next == run.endpoints.len() || (!run.committed && cancelled);
    if over {
        (
            if run.running > 0 {
                ScanStep::Join
            } else {
                ScanStep::Finish
            },
            ScanRunView {
                stopped: run.stopped || run.next != run.endpoints.len(),
                ..run
            },
        )
    } else if run.running >= SCAN_CONCURRENCY {
        (ScanStep::Join, ScanRunView { committed: true, ..run })
    } else {
        (
            ScanStep::Launch(run.endpoints[run.next]),
            ScanRunView { committed: false, next: run.next + 1, running: run.running + 1, ..run },
        )
    }
}

/// What a scan does next. While endpoints are left and it goes on, the next one in
/// order is probed as soon as fewer than 32 probes run; otherwise it waits for one
/// to end. It goes on unless it was cancelled before it settled on the next
/// endpoint. A scan that is over waits for its probes and then reports.
pub proof fn law_scan_goes_through_its_endpoints(run: ScanRunView, cancelled: bool)
    requires
        0 <= run.next <= run.endpoints.len(),
        0 <= run.running <= 32,
    ensures
        ({
            let (step, after) = scan_step(run, cancelled);
            let goes_on = !run.stopped && run.next < run.endpoints.len() && (run.committed
                || !cancelled);
            &&& goes_on && run.running < 32 ==> step == ScanStep::Launch(run.endpoints[run.next])
                && after.next == run.next + 1 && after.running == run.running + 1
                && !after.committed && !after.stopped
            &&& goes_on && run.running == 32 ==> step == ScanStep::Join && after.next == run.next
                && after.running == run.running && after.committed && !after.stopped
            &&& !goes_on ==> step == (if run.running > 0 {
                ScanStep::Join
            } else {
                ScanStep::Finish
            }) && after.next == run.next && after.running == run.running
            &&& !goes_on && run.next < run.endpoints.len() ==> after.stopped
            &&& after.subnets == run.subnets && after.endpoints == run.endpoints
                && after.discovered == run.discovered
        }),
{
}

/// Between the starts of two scans a minute passes.
pub proof fn law_scans_are_a_minute_apart(started: u64, now: u64)
    ensures
        may_scan(None, now),
        may_scan(Some(started), now) <==> now >= started + 60_000_000_000,
{
}

impl ScanRun {
    #[verifier::type_invariant]
    spec fn consistent(self) -> bool {
        &&& self.next <= self.endpoints@.len()
        &&& self.running <= SCAN_CONCURRENCY
        &&& self.running <= self.next
        &&& views(self.discovered@).no_duplicates()
        &&& self.discovered@.len() + self.running <= self.next
    }

    /// The bounds that a scan keeps: at most 32 probes run at a time, no endpoint
    /// is probed twice, and no device is counted twice.
    pub open spec fn bounded(&self) -> bool {
        &&& 0 <= self@.running <= SCAN_CONCURRENCY
        &&& 0 <= self@.next <= self@.endpoints.len()
        &&& self@.discovered.no_duplicates()
        &&& self@.discovered.len() + self@.running <= self@.next
    }

    /// A scan of a plan.
    pub fn start(plan: ScanPlan) -> (run: Self)
        ensures
            run@ == (ScanRunView {
                subnets: plan.subnets@.len() as usize,
                endpoints: plan.endpoints@,
                next: 0,
                running: 0,
                committed: false,
                stopped: false,
                discovered: seq![],
            }),
    {
        let discovered: Vec<DeviceId> = Vec::new();
        assert(views(discovered@) =~= Seq::<Seq<char>>::empty());
        ScanRun {
            subnets: plan.subnets.len(),
            endpoints: plan.endpoints,
            next: 0,
            running: 0,
            committed: false,
            stopped: false,
            discovered,
        }
    }

    /// What to do next. `cancelled` tells whether the scan was cancelled.
    pub fn next_step(&mut self, cancelled: bool) -> (step: ScanStep)
        ensures
            (step, final(self)@) == scan_step(old(self)@, cancelled),
            final(self).bounded(),
    {
        proof {
            use_type_invariant(&*self);
        }
        if self.stopped || self.next == self.endpoints.len() || (!self.committed && cancelled) {
            if self.next != self.endpoints.len() {
                self.stopped = true;
            }
            return if self.running > 0 {
                ScanStep::Join
            } else {
                ScanStep::Finish
            };
        }
        if self.running >= SCAN_CONCURRENCY {
            self.committed = true;
            return ScanStep::Join;
        }
        let endpoint = self.endpoints[self.next];
        self.committed = false;
        self.next = self.next + 1;
        self.running = self.running + 1;
        ScanStep::Launch(endpoint)
    }

    /// Takes the end of a probe, and the device that it found.
    pub fn probe_ended(&mut self, found: Option<DeviceId>)
        requires
            old(self)@.running > 0,
        ensures
            final(self)@ == (ScanRunView {
                running: old(self)@.running - 1,
                discovered: match found {
                    Some(id) => if old(self)@.discovered.contains(id@) {
                        old(self)@.discovered
                    } else {
                        old(self)@.discovered.push(id@)
                    },
                    None => old(self)@.discovered,
                },
                ..old(self)@
            }),
            final(self).bounded(),
    {
        proof {
            use_type_invariant(&*self);
        }
        self.running = self.running - 1;
        if let Some(id) = found {
            let ghost before = views(self.discovered@);
            if contains_id(&self.discovered, &id) {
                return;
            }
            let mut discovered: Vec<DeviceId> = Vec::new();
            assert(views(discovered@) =~= Seq::<Seq<char>>::empty());
            std::mem::swap(&mut discovered, &mut self.discovered);
            let ghost name = id@;
            discovered.push(id);
            assert(views(discovered@) =~= before.push(name));
            self.discovered = discovered;
        }
    }

    /// What the scan did.
    pub fn report(&self) -> (report: LanScanReport)
        ensures
            report.attempted_endpoints == self@.next,
            report.discovered_devices == self@.discovered.len(),
            report.scanned_subnets == self@.subnets,
            !report.throttled,
            self.bounded(),
    {
        proof {
            use_type_invariant(self);
        }
        LanScanReport {
            attempted_endpoints: self.next,
            discovered_devices: self.discovered.len(),
            scanned_subnets: self.subnets,
            throttled: false,
        }
    }
}

proof fn lemma_scannable_ones(list: Seq<HostInterface>, interface: ScanInterfaceView)
    ensures
        scannable_ones(list).contains(interface) <==> exists|k: int|
            0 <= k < list.len() && scannable(#[trigger] list[k]) == Some(interface),
    decreases list.len(),
{
    let all = scannable_ones(list);
    if list.len() > 0 {
        let rest = list.drop_last();
        let before = scannable_ones(rest);
        lemma_scannable_ones(rest, interface);
        if all.contains(interface) {
            let i = choose|i: int| 0 <= i < all.len() && all[i] == interface;
            if i < before.len() {
                assert(before[i] == interface);
                assert(before.contains(interface));
                let k = choose|k: int|
                    0 <= k < rest.len() && scannable(#[trigger] rest[k]) == Some(interface);
                assert(scannable(list[k]) == Some(interface));
            } else {
                assert(scannable(list[list.len() - 1]) == Some(interface));
            }
        }
        if exists|k: int| 0 <= k < list.len() && scannable(#[trigger] list[k]) == Some(interface) {
            let k = choose|k: int|
                0 <= k < list.len() && scannable(#[trigger] list[k]) == Some(interface);
            if k < rest.len() {
                assert(scannable(rest[k]) == Some(interface));
                let i = choose|i: int| 0 <= i < before.len() && before[i] == interface;
                assert(all[i] == interface);
            } else {
                assert(all[before.len() as int] == interface);
            }
        }
    }
}

/// A scan starts from every interface of this device that has a private address and
/// is not virtual, and from no other.
pub proof fn law_every_lan_interface_is_scanned(
    list: Seq<HostInterface>,
    interfaces: Seq<ScanInterfaceView>,
    interface: ScanInterfaceView,
)
    requires
        is_stable_sort(scannable_ones(list), interfaces, interface_key()),
    ensures
        interfaces.contains(interface) <==> exists|k: int|
            0 <= k < list.len() && (#[trigger] list[k]).name@ == interface.name && list[k].address
                == IpAddress::V4(interface.ip) && (interface.ip / 0x100_0000 == 10 || 0xac10
                <= interface.ip / 0x1_0000 <= 0xac1f || interface.ip / 0x1_0000 == 0xc0a8)
                && !is_virtual(interface.name),
{
    lemma_stable_sort_contains(scannable_ones(list), interfaces, interface_key(), interface);
    lemma_scannable_ones(list, interface);
    let ip = interface.ip;
    assert(is_private(ip) <==> (ip / 0x100_0000 == 10 || 0xac10 <= ip / 0x1_0000 <= 0xac1f || ip
        / 0x1_0000 == 0xc0a8));
    if interfaces.contains(interface) {
        let k = choose|k: int|
            0 <= k < list.len() && scannable(#[trigger] list[k]) == Some(interface);
        assert(list[k].name@ == interface.name);
    }
    assert forall|k: int|
        0 <= k < list.len() && (#[trigger] list[k]).name@ == interface.name && list[k].address
            == IpAddress::V4(interface.ip) && is_private(ip) && !is_virtual(
            interface.name,
        ) implies scannable(list[k]) == Some(interface) by {
        assert(!IpAddress::V4(ip).loopback());
    }
}

/// The interfaces that are likely to lead to a network come first, then they are in
/// the order of their names, and under one name in that of their addresses.
pub proof fn law_primary_interfaces_come_first(
    list: Seq<HostInterface>,
    interfaces: Seq<ScanInterfaceView>,
    i: int,
    j: int,
)
    requires
        is_stable_sort(scannable_ones(list), interfaces, interface_key()),
        0 <= i < j < interfaces.len(),
    ensures
        is_primary(interfaces[j].name) ==> is_primary(interfaces[i].name),
        is_primary(interfaces[i].name) == is_primary(interfaces[j].name) ==> {
            &&& interfaces[i].name == interfaces[j].name || seq_before(
                text_key(interfaces[i].name),
                text_key(interfaces[j].name),
            )
            &&& interfaces[i].name == interfaces[j].name ==> interfaces[i].ip <= interfaces[j].ip
        },
{
    let a = interfaces[i];
    let b = interfaces[j];
    let x = text_key(a.name);
    let y = text_key(b.name);
    let c = seq![a.ip as int];
    let d = seq![b.ip as int];
    let p = if is_primary(a.name) {
        0int
    } else {
        1int
    };
    let q = if is_primary(b.name) {
        0int
    } else {
        1int
    };
    assert(!seq_before((interface_key())(b), (interface_key())(a)));
    lemma_number_first(q, y + seq![-1int] + d, p, x + seq![-1int] + c);
    lemma_pair_order(y, d, x, c);
    lemma_before_total(x, y);
    if x == y {
        lemma_text_key_injective(a.name, b.name);
        if b.ip < a.ip {
            assert(splits_at(d, c, 0));
        }
    }
}

} // verus!
