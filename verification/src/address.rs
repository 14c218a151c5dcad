//! IP addresses and endpoints as numbers, with the order, the classes and the
//! text forms that the rest of the library relies on.
use vstd::prelude::*;
use vstd::string::*;

use crate::order::{
    has_key, is_sorted_distinct, lemma_before_asymmetric, seq_before, sorted_distinct, splits_at,
};
use crate::text::{decimal, decimal_text, digits, digits_text};

verus! {

/// An IP address, as the number that its bits stand for.
#[derive(Debug, Clone, Copy, PartialEq, Eq, Structural)]
pub enum IpAddress {
    /// IPv4.
    V4(u32),
    /// IPv6.
    V6(u128),
}

/// An address and a port that can be dialed.
#[allow(inconsistent_fields)]
#[derive(Debug, Clone, Copy, PartialEq, Eq, Structural)]
pub enum SocketAddress {
    /// IPv4.
    V4 { ip: u32, port: u16 },
    /// IPv6 with its flow label and the interface that the address belongs to.
    V6 { ip: u128, port: u16, flow_info: u32, scope_id: u32 },
}

/// The IPv4 address whose octets are given.
pub open spec fn ipv4_bits(a: u8, b: u8, c: u8, d: u8) -> u32 {
    (a * 0x100_0000 + b * 0x1_0000 + c * 0x100 + d) as u32
}

/// Octet `index` of an IPv4 address.
pub open spec fn octet(ip: u32, index: int) -> u8 {
    if index == 0 {
        (ip / 0x100_0000) as u8
    } else if index == 1 {
        (ip / 0x1_0000 % 256) as u8
    } else if index == 2 {
        (ip / 0x100 % 256) as u8
    } else {
        (ip % 256) as u8
    }
}

/// The IPv4 address whose octets are given.
pub fn ipv4(a: u8, b: u8, c: u8, d: u8) -> (ip: u32)
    ensures
        ip == ipv4_bits(a, b, c, d),
        octet(ip, 0) == a,
        octet(ip, 1) == b,
        octet(ip, 2) == c,
        octet(ip, 3) == d,
{
    let ip: u32 = a as u32 * 0x100_0000 + b as u32 * 0x1_0000 + c as u32 * 0x100 + d as u32;
    proof {
        lemma_octets_of_bits(a, b, c, d);
    }
    ip
}

/// The octets of an address are those that it was made of.
pub proof fn lemma_octets_of_bits(a: u8, b: u8, c: u8, d: u8)
    ensures
        octet(ipv4_bits(a, b, c, d), 0) == a,
        octet(ipv4_bits(a, b, c, d), 1) == b,
        octet(ipv4_bits(a, b, c, d), 2) == c,
        octet(ipv4_bits(a, b, c, d), 3) == d,
{
    let ip = ipv4_bits(a, b, c, d);
    assert(ip == a * 0x100_0000 + b * 0x1_0000 + c * 0x100 + d);
    assert(ip / 0x100 == a * 0x1_0000 + b * 0x100 + c);
    assert(ip / 0x1_0000 == a * 0x100 + b);
    assert(ip / 0x100_0000 == a);
    assert((a * 0x1_0000 + b * 0x100 + c) % 256 == c) by {
        assert(a * 0x1_0000 + b * 0x100 + c == (a * 0x100 + b) * 0x100 + c);
    }
    assert((a * 0x100 + b) % 256 == b);
    assert(ip % 256 == d) by {
        assert(ip == (a * 0x1_0000 + b * 0x100 + c) * 0x100 + d);
    }
}

/// The four octets of an IPv4 address.
pub fn octets(ip: u32) -> (parts: (u8, u8, u8, u8))
    ensures
        parts.0 == octet(ip, 0),
        parts.1 == octet(ip, 1),
        parts.2 == octet(ip, 2),
        parts.3 == octet(ip, 3),
{
    (
        (ip / 0x100_0000) as u8,
        (ip / 0x1_0000 % 256) as u8,
        (ip / 0x100 % 256) as u8,
        (ip % 256) as u8,
    )
}

/// The IPv4 address that an IPv6 address carries, if it is a mapped one.
pub open spec fn mapped_ipv4(ip: u128) -> Option<u32> {
    if ip / 0x1_0000_0000 == 0xffff {
        Some((ip % 0x1_0000_0000) as u32)
    } else {
        None
    }
}

/// The IPv6 address that carries the IPv4 address `ip`.
pub open spec fn to_mapped(ip: u32) -> u128 {
    (0xffff * 0x1_0000_0000 + ip) as u128
}

/// A mapped address carries the address that it was made of.
pub proof fn lemma_mapped_round_trip(ip: u32)
    ensures
        mapped_ipv4(to_mapped(ip)) == Some(ip),
{
}

/// The IPv4 address that an IPv6 address carries, if it is a mapped one.
pub fn unmapped(ip: u128) -> (inner: Option<u32>)
    ensures
        inner == mapped_ipv4(ip),
{
    if ip / 0x1_0000_0000 == 0xffff {
        Some((ip % 0x1_0000_0000) as u32)
    } else {
        None
    }
}

impl IpAddress {
    /// The address belongs to the machine itself.
    pub open spec fn loopback(self) -> bool {
        match self {
            IpAddress::V4(ip) => octet(ip, 0) == 127,
            IpAddress::V6(ip) => ip == 1,
        }
    }

    /// The address stands for no particular machine.
    pub open spec fn unspecified(self) -> bool {
        match self {
            IpAddress::V4(ip) => ip == 0,
            IpAddress::V6(ip) => ip == 0,
        }
    }

    /// The address stands for a group of machines.
    pub open spec fn multicast(self) -> bool {
        match self {
            IpAddress::V4(ip) => 224 <= octet(ip, 0) <= 239,
            IpAddress::V6(ip) => ip / 0x0100_0000_0000_0000_0000_0000_0000_0000 == 0xff,
        }
    }

    /// Whether the address belongs to the machine itself.
    pub fn is_loopback(self) -> (answer: bool)
        ensures
            answer == self.loopback(),
    {
        match self {
            IpAddress::V4(ip) => octets(ip).0 == 127,
            IpAddress::V6(ip) => ip == 1,
        }
    }

    /// Whether the address stands for no particular machine.
    pub fn is_unspecified(self) -> (answer: bool)
        ensures
            answer == self.unspecified(),
    {
        match self {
            IpAddress::V4(ip) => ip == 0,
            IpAddress::V6(ip) => ip == 0,
        }
    }

    /// Whether the address stands for a group of machines.
    pub fn is_multicast(self) -> (answer: bool)
        ensures
            answer == self.multicast(),
    {
        match self {
            IpAddress::V4(ip) => {
                let first: u8 = octets(ip).0;
                224 <= first && first <= 239
            },
            IpAddress::V6(ip) => ip / 0x0100_0000_0000_0000_0000_0000_0000_0000 == 0xff,
        }
    }

    /// Place of the address in the order of addresses: IPv4 before IPv6, then
    /// by number.
    pub open spec fn key(self) -> Seq<int> {
        match self {
            IpAddress::V4(ip) => seq![4, ip as int],
            IpAddress::V6(ip) => seq![6, ip as int],
        }
    }

    /// Whether this address comes before `other`.
    pub fn is_before(&self, other: &IpAddress) -> (before: bool)
        ensures
            before == seq_before(self.key(), other.key()),
    {
        let before = match (self, other) {
            (IpAddress::V4(a), IpAddress::V4(b)) => a < b,
            (IpAddress::V4(_), IpAddress::V6(_)) => true,
            (IpAddress::V6(_), IpAddress::V4(_)) => false,
            (IpAddress::V6(a), IpAddress::V6(b)) => a < b,
        };
        proof {
            let x = self.key();
            let y = other.key();
            if x[0] != y[0] {
                assert(splits_at(x, y, 0) || splits_at(y, x, 0));
            } else if x[1] != y[1] {
                assert(splits_at(x, y, 1) || splits_at(y, x, 1));
            }
            lemma_before_decided(x, y, before);
        }
        before
    }
}

/// Settles the order of two keys from one split or from equality.
proof fn lemma_before_decided(x: Seq<int>, y: Seq<int>, before: bool)
    requires
        x.len() == y.len(),
        before ==> seq_before(x, y),
        !before ==> x =~= y || seq_before(y, x),
    ensures
        before == seq_before(x, y),
{
    if !before && seq_before(x, y) {
        lemma_before_asymmetric(x, y);
    }
}

impl SocketAddress {
    /// The address without the port.
    pub open spec fn spec_ip(self) -> IpAddress {
        match self {
            SocketAddress::V4 { ip, port } => IpAddress::V4(ip),
            SocketAddress::V6 { ip, port, flow_info, scope_id } => IpAddress::V6(ip),
        }
    }

    /// The port.
    pub open spec fn spec_port(self) -> u16 {
        match self {
            SocketAddress::V4 { ip, port } => port,
            SocketAddress::V6 { ip, port, flow_info, scope_id } => port,
        }
    }

    /// An address and a port, without flow label and scope.
    pub open spec fn spec_new(ip: IpAddress, port: u16) -> SocketAddress {
        match ip {
            IpAddress::V4(ip) => SocketAddress::V4 { ip, port },
            IpAddress::V6(ip) => SocketAddress::V6 { ip, port, flow_info: 0, scope_id: 0 },
        }
    }

    /// The address without the port.
    pub fn ip(self) -> (ip: IpAddress)
        ensures
            ip == self.spec_ip(),
    {
        match self {
            SocketAddress::V4 { ip, .. } => IpAddress::V4(ip),
            SocketAddress::V6 { ip, .. } => IpAddress::V6(ip),
        }
    }

    /// The port.
    pub fn port(self) -> (port: u16)
        ensures
            port == self.spec_port(),
    {
        match self {
            SocketAddress::V4 { port, .. } => port,
            SocketAddress::V6 { port, .. } => port,
        }
    }

    /// An address and a port, without flow label and scope.
    pub fn new(ip: IpAddress, port: u16) -> (address: Self)
        ensures
            address == SocketAddress::spec_new(ip, port),
    {
        match ip {
            IpAddress::V4(ip) => SocketAddress::V4 { ip, port },
            IpAddress::V6(ip) => SocketAddress::V6 { ip, port, flow_info: 0, scope_id: 0 },
        }
    }

    /// Place of the endpoint in the order of endpoints: IPv4 before IPv6, then
    /// by address, port, flow label and scope.
    pub open spec fn key(self) -> Seq<int> {
        match self {
            SocketAddress::V4 { ip, port } => seq![4, ip as int, port as int, 0, 0],
            SocketAddress::V6 { ip, port, flow_info, scope_id } => seq![
                6,
                ip as int,
                port as int,
                flow_info as int,
                scope_id as int,
            ],
        }
    }

    /// Whether this endpoint comes before `other`.
    pub fn is_before(&self, other: &SocketAddress) -> (before: bool)
        ensures
            before == seq_before(self.key(), other.key()),
    {
        let before = match (*self, *other) {
            (SocketAddress::V4 { ip: a, port: p }, SocketAddress::V4 { ip: b, port: q }) => a < b
                || (a == b && p < q),
            (SocketAddress::V4 { .. }, SocketAddress::V6 { .. }) => true,
            (SocketAddress::V6 { .. }, SocketAddress::V4 { .. }) => false,
            (
                SocketAddress::V6 { ip: a, port: p, flow_info: f, scope_id: s },
                SocketAddress::V6 { ip: b, port: q, flow_info: g, scope_id: t },
            ) => a < b || (a == b && (p < q || (p == q && (f < g || (f == g && s < t))))),
        };
        proof {
            let x = self.key();
            let y = other.key();
            if x[0] != y[0] {
                assert(splits_at(x, y, 0) || splits_at(y, x, 0));
            } else if x[1] != y[1] {
                assert(splits_at(x, y, 1) || splits_at(y, x, 1));
            } else if x[2] != y[2] {
                assert(splits_at(x, y, 2) || splits_at(y, x, 2));
            } else if x[3] != y[3] {
                assert(splits_at(x, y, 3) || splits_at(y, x, 3));
            } else if x[4] != y[4] {
                assert(splits_at(x, y, 4) || splits_at(y, x, 4));
            }
            lemma_before_decided(x, y, before);
        }
        before
    }
}

/// Place of an address in the order of addresses.
pub open spec fn ip_key() -> spec_fn(IpAddress) -> Seq<int> {
    |ip: IpAddress| ip.key()
}

/// Place of an endpoint in the order of endpoints.
pub open spec fn socket_key() -> spec_fn(SocketAddress) -> Seq<int> {
    |address: SocketAddress| address.key()
}

/// Different addresses have different places.
pub proof fn lemma_ip_key_injective(a: IpAddress, b: IpAddress)
    requires
        a.key() == b.key(),
    ensures
        a == b,
{
    assert(a.key()[0] == b.key()[0]);
    assert(a.key()[1] == b.key()[1]);
}

/// Different endpoints have different places.
pub proof fn lemma_socket_key_injective(a: SocketAddress, b: SocketAddress)
    requires
        a.key() == b.key(),
    ensures
        a == b,
{
    assert(a.key()[0] == b.key()[0]);
    assert(a.key()[1] == b.key()[1]);
    assert(a.key()[2] == b.key()[2]);
    assert(a.key()[3] == b.key()[3]);
    assert(a.key()[4] == b.key()[4]);
}

/// `kept` holds the addresses of `items` once each, in order.
pub open spec fn is_address_set(items: Seq<IpAddress>, kept: Seq<IpAddress>) -> bool {
    is_sorted_distinct(items, kept, ip_key())
}

/// `kept` holds the endpoints of `items` once each, in order.
pub open spec fn is_endpoint_set(items: Seq<SocketAddress>, kept: Seq<SocketAddress>) -> bool {
    is_sorted_distinct(items, kept, socket_key())
}

/// The order of addresses: those of IPv4 first, then by number.
pub proof fn law_address_order(a: IpAddress, b: IpAddress)
    ensures
        seq_before(a.key(), b.key()) <==> match (a, b) {
            (IpAddress::V4(x), IpAddress::V4(y)) => x < y,
            (IpAddress::V4(_), IpAddress::V6(_)) => true,
            (IpAddress::V6(_), IpAddress::V4(_)) => false,
            (IpAddress::V6(x), IpAddress::V6(y)) => x < y,
        },
{
    let x = a.key();
    let y = b.key();
    if seq_before(x, y) {
        let at = choose|at: int| #[trigger] splits_at(x, y, at);
        assert(at == 0 || at == 1);
    }
    if x[0] < y[0] {
        assert(splits_at(x, y, 0));
    } else if x[0] == y[0] && x[1] < y[1] {
        assert(splits_at(x, y, 1));
    }
}

/// The order of endpoints: those of IPv4 first, then by address, port, flow and
/// interface.
pub proof fn law_endpoint_order(a: SocketAddress, b: SocketAddress)
    ensures
        seq_before(a.key(), b.key()) <==> match (a, b) {
            (
                SocketAddress::V4 { ip: x, port: p },
                SocketAddress::V4 { ip: y, port: q },
            ) => x < y || (x == y && p < q),
            (SocketAddress::V4 { .. }, SocketAddress::V6 { .. }) => true,
            (SocketAddress::V6 { .. }, SocketAddress::V4 { .. }) => false,
            (
                SocketAddress::V6 { ip: x, port: p, flow_info: f, scope_id: s },
                SocketAddress::V6 { ip: y, port: q, flow_info: g, scope_id: t },
            ) => x < y || (x == y && (p < q || (p == q && (f < g || (f == g && s < t))))),
        },
{
    let x = a.key();
    let y = b.key();
    if seq_before(x, y) {
        let at = choose|at: int| #[trigger] splits_at(x, y, at);
        assert(at == 0 || at == 1 || at == 2 || at == 3 || at == 4);
    }
    if x[0] < y[0] {
        assert(splits_at(x, y, 0));
    } else if x[0] == y[0] && x[1] < y[1] {
        assert(splits_at(x, y, 1));
    } else if x[0] == y[0] && x[1] == y[1] && x[2] < y[2] {
        assert(splits_at(x, y, 2));
    } else if x[0] == y[0] && x[1] == y[1] && x[2] == y[2] && x[3] < y[3] {
        assert(splits_at(x, y, 3));
    } else if x[0] == y[0] && x[1] == y[1] && x[2] == y[2] && x[3] == y[3] && x[4] < y[4] {
        assert(splits_at(x, y, 4));
    }
}

/// A set of addresses holds each of them once, and nothing else.
pub proof fn law_address_set(items: Seq<IpAddress>, kept: Seq<IpAddress>)
    requires
        is_address_set(items, kept),
    ensures
        kept.no_duplicates(),
        forall|ip: IpAddress| #[trigger] kept.contains(ip) <==> items.contains(ip),
        forall|i: int, j: int|
            0 <= i < j < kept.len() ==> seq_before(
                (#[trigger] kept[i]).key(),
                (#[trigger] kept[j]).key(),
            ),
{
    assert forall|i: int, j: int| 0 <= i < j < kept.len() implies seq_before(
        (#[trigger] kept[i]).key(),
        (#[trigger] kept[j]).key(),
    ) by {
        assert(seq_before((ip_key())(kept[i]), (ip_key())(kept[j])));
    }
    assert(kept.no_duplicates()) by {
        assert forall|i: int, j: int| 0 <= i < kept.len() && 0 <= j < kept.len() && i != j implies
            kept[i] != kept[j] by {
            if i < j {
                lemma_before_asymmetric(kept[i].key(), kept[j].key());
            } else {
                lemma_before_asymmetric(kept[j].key(), kept[i].key());
            }
        }
    }
    assert forall|ip: IpAddress| #[trigger] kept.contains(ip) <==> items.contains(ip) by {
        if kept.contains(ip) {
            let i = choose|i: int| 0 <= i < kept.len() && kept[i] == ip;
            assert(items.contains(kept[i]));
        }
        if items.contains(ip) {
            let i = choose|i: int| 0 <= i < items.len() && items[i] == ip;
            assert(has_key(kept, ip_key(), (ip_key())(items[i])));
            let k = choose|k: int|
                0 <= k < kept.len() && (ip_key())(#[trigger] kept[k]) == (ip_key())(items[i]);
            lemma_ip_key_injective(kept[k], ip);
        }
    }
}

/// A set of endpoints holds each of them once, and nothing else.
pub proof fn law_endpoint_set(items: Seq<SocketAddress>, kept: Seq<SocketAddress>)
    requires
        is_endpoint_set(items, kept),
    ensures
        kept.no_duplicates(),
        forall|address: SocketAddress| #[trigger] kept.contains(address) <==> items.contains(address),
        forall|i: int, j: int|
            0 <= i < j < kept.len() ==> seq_before(
                (#[trigger] kept[i]).key(),
                (#[trigger] kept[j]).key(),
            ),
{
    assert forall|i: int, j: int| 0 <= i < j < kept.len() implies seq_before(
        (#[trigger] kept[i]).key(),
        (#[trigger] kept[j]).key(),
    ) by {
        assert(seq_before((socket_key())(kept[i]), (socket_key())(kept[j])));
    }
    assert(kept.no_duplicates()) by {
        assert forall|i: int, j: int| 0 <= i < kept.len() && 0 <= j < kept.len() && i != j implies
            kept[i] != kept[j] by {
            if i < j {
                lemma_before_asymmetric(kept[i].key(), kept[j].key());
            } else {
                lemma_before_asymmetric(kept[j].key(), kept[i].key());
            }
        }
    }
    assert forall|address: SocketAddress| #[trigger]
        kept.contains(address) <==> items.contains(address) by {
        if kept.contains(address) {
            let i = choose|i: int| 0 <= i < kept.len() && kept[i] == address;
            assert(items.contains(kept[i]));
        }
        if items.contains(address) {
            let i = choose|i: int| 0 <= i < items.len() && items[i] == address;
            assert(has_key(kept, socket_key(), (socket_key())(items[i])));
            let k = choose|k: int|
                0 <= k < kept.len() && (socket_key())(#[trigger] kept[k]) == (socket_key())(
                    items[i],
                );
            lemma_socket_key_injective(kept[k], address);
        }
    }
}

/// The addresses of `items` once each, in order.
pub fn address_set(items: Vec<IpAddress>) -> (kept: Vec<IpAddress>)
    ensures
        is_address_set(items@, kept@),
{
    let before = |a: &IpAddress, b: &IpAddress| -> (before: bool)
        ensures
            before == seq_before(a.key(), b.key()),
    {
        a.is_before(b)
    };
    sorted_distinct(items, before, Ghost(ip_key()))
}

/// The endpoints of `items` once each, in order.
pub fn endpoint_set(items: Vec<SocketAddress>) -> (kept: Vec<SocketAddress>)
    ensures
        is_endpoint_set(items@, kept@),
{
    let before = |a: &SocketAddress, b: &SocketAddress| -> (before: bool)
        ensures
            before == seq_before(a.key(), b.key()),
    {
        a.is_before(b)
    };
    sorted_distinct(items, before, Ghost(socket_key()))
}

/// Dotted form of an IPv4 address.
pub open spec fn dotted(ip: u32) -> Seq<char> {
    decimal(octet(ip, 0) as nat) + "."@ + decimal(octet(ip, 1) as nat) + "."@ + decimal(
        octet(ip, 2) as nat,
    ) + "."@ + decimal(octet(ip, 3) as nat)
}

/// Dotted form of an IPv4 address.
pub fn dotted_text(ip: u32) -> (text: String)
    ensures
        text@ == dotted(ip),
{
    let parts = octets(ip);
    let mut text = decimal_text(parts.0 as u64);
    text.append(".");
    text.append(decimal_text(parts.1 as u64).as_str());
    text.append(".");
    text.append(decimal_text(parts.2 as u64).as_str());
    text.append(".");
    text.append(decimal_text(parts.3 as u64).as_str());
    text
}

/// Segment `index` of an IPv6 address.
pub open spec fn segment(ip: u128, index: int) -> u16 {
    if index == 0 {
        (ip / 0x1_0000_0000_0000_0000_0000_0000_0000) as u16
    } else if index == 1 {
        (ip / 0x1_0000_0000_0000_0000_0000_0000 % 0x1_0000) as u16
    } else if index == 2 {
        (ip / 0x1_0000_0000_0000_0000_0000 % 0x1_0000) as u16
    } else if index == 3 {
        (ip / 0x1_0000_0000_0000_0000 % 0x1_0000) as u16
    } else if index == 4 {
        (ip / 0x1_0000_0000_0000 % 0x1_0000) as u16
    } else if index == 5 {
        (ip / 0x1_0000_0000 % 0x1_0000) as u16
    } else if index == 6 {
        (ip / 0x1_0000 % 0x1_0000) as u16
    } else {
        (ip % 0x1_0000) as u16
    }
}

/// The eight segments of an IPv6 address.
pub open spec fn segments(ip: u128) -> Seq<u16> {
    Seq::new(8, |i: int| segment(ip, i))
}

/// The eight segments of an IPv6 address.
pub fn segment_list(ip: u128) -> (list: Vec<u16>)
    ensures
        list@ == segments(ip),
{
    let mut list: Vec<u16> = Vec::new();
    list.push((ip / 0x1_0000_0000_0000_0000_0000_0000_0000) as u16);
    list.push((ip / 0x1_0000_0000_0000_0000_0000_0000 % 0x1_0000) as u16);
    list.push((ip / 0x1_0000_0000_0000_0000_0000 % 0x1_0000) as u16);
    list.push((ip / 0x1_0000_0000_0000_0000 % 0x1_0000) as u16);
    list.push((ip / 0x1_0000_0000_0000 % 0x1_0000) as u16);
    list.push((ip / 0x1_0000_0000 % 0x1_0000) as u16);
    list.push((ip / 0x1_0000 % 0x1_0000) as u16);
    list.push((ip % 0x1_0000) as u16);
    assert(list@ =~= segments(ip));
    list
}

/// Segments in hexadecimal, separated by colons.
pub open spec fn colon_list(parts: Seq<u16>) -> Seq<char>
    decreases parts.len(),
{
    if parts.len() == 0 {
        seq![]
    } else if parts.len() == 1 {
        digits(parts[0] as nat, 16)
    } else {
        colon_list(parts.drop_last()) + ":"@ + digits(parts.last() as nat, 16)
    }
}

/// Segments `from..to` in hexadecimal, separated by colons.
fn colon_text(parts: &Vec<u16>, from: usize, to: usize) -> (text: String)
    requires
        from <= to <= parts.len(),
    ensures
        text@ == colon_list(parts@.subrange(from as int, to as int)),
{
    let mut text = String::new();
    let mut i: usize = from;
    assert(text@ =~= colon_list(parts@.subrange(from as int, i as int)));
    while i < to
        invariant
            from <= i <= to <= parts.len(),
            text@ == colon_list(parts@.subrange(from as int, i as int)),
        decreases to - i,
    {
        if i > from {
            text.append(":");
        }
        text.append(digits_text(parts[i] as u64, 16).as_str());
        proof {
            let now = parts@.subrange(from as int, i + 1);
            assert(now.drop_last() =~= parts@.subrange(from as int, i as int));
            assert(now.last() == parts@[i as int]);
            if i == from {
                assert(colon_list(parts@.subrange(from as int, i as int)) =~= seq![]);
                assert(text@ =~= digits(parts@[i as int] as nat, 16));
            }
        }
        i += 1;
    }
    text
}

/// `len` zero segments stand at `start`.
pub open spec fn zero_run(parts: Seq<u16>, start: int, len: int) -> bool {
    &&& 0 <= start
    &&& 0 <= len
    &&& start + len <= parts.len()
    &&& forall|i: int| start <= i < start + len ==> parts[i] == 0
}

/// The run at `start` is the first of the longest runs of zero segments.
pub open spec fn longest_run(parts: Seq<u16>, start: int, len: int) -> bool {
    &&& zero_run(parts, start, len)
    &&& forall|s: int, l: int| #[trigger]
        zero_run(parts, s, l) ==> l < len || (l == len && start <= s)
}

proof fn lemma_longest_run_unique(parts: Seq<u16>, a: (int, int), b: (int, int))
    requires
        longest_run(parts, a.0, a.1),
        longest_run(parts, b.0, b.1),
    ensures
        a == b,
{
    assert(zero_run(parts, a.0, a.1));
    assert(zero_run(parts, b.0, b.1));
}

/// Start and length of the first of the longest runs of zero segments.
pub open spec fn best_run(parts: Seq<u16>) -> (int, int) {
    choose|run: (int, int)| #[trigger] longest_run(parts, run.0, run.1)
}

/// Finds the first of the longest runs of zero segments.
fn find_run(parts: &Vec<u16>) -> (run: (usize, usize))
    ensures
        (run.0 as int, run.1 as int) == best_run(parts@),
        longest_run(parts@, run.0 as int, run.1 as int),
{
    let mut best_start: usize = 0;
    let mut best_len: usize = 0;
    let mut run_len: usize = 0;
    let mut i: usize = 0;
    while i < parts.len()
        invariant
            i <= parts.len(),
            run_len <= i,
            zero_run(parts@, i - run_len, run_len as int),
            run_len < i ==> parts@[i - run_len - 1] != 0,
            best_start + best_len <= i,
            zero_run(parts@, best_start as int, best_len as int),
            run_len <= best_len,
            best_len == 0 ==> best_start == 0,
            forall|s: int, l: int| #[trigger]
                zero_run(parts@, s, l) && s + l <= i ==> l < best_len || (l == best_len
                    && best_start <= s),
        decreases parts.len() - i,
    {
        if parts[i] == 0 {
            run_len += 1;
        } else {
            run_len = 0;
        }
        i += 1;
        if run_len > best_len {
            best_start = i - run_len;
            best_len = run_len;
        }
        assert forall|s: int, l: int| #[trigger] zero_run(parts@, s, l) && s + l <= i implies l
            < best_len || (l == best_len && best_start <= s) by {
            if s + l == i && l > run_len {
                assert(parts@[i - run_len - 1] == 0);
            }
            if s + l == i && l == 0 && best_len == 0 {
                assert(best_start == 0);
            }
        }
    }
    assert(longest_run(parts@, best_start as int, best_len as int));
    proof {
        let run = (best_start as int, best_len as int);
        assert(longest_run(parts@, run.0, run.1));
        lemma_longest_run_unique(parts@, run, best_run(parts@));
    }
    (best_start, best_len)
}

/// Text form of an IPv6 address: mapped addresses show the IPv4 address, and
/// the first of the longest runs of two or more zero segments is left out.
pub open spec fn ipv6_form(ip: u128) -> Seq<char> {
    match mapped_ipv4(ip) {
        Some(inner) => "::ffff:"@ + dotted(inner),
        None => {
            let parts = segments(ip);
            let run = best_run(parts);
            if run.1 > 1 {
                colon_list(parts.subrange(0, run.0)) + "::"@ + colon_list(
                    parts.subrange(run.0 + run.1, 8),
                )
            } else {
                colon_list(parts)
            }
        },
    }
}

/// Text form of an IPv6 address.
pub fn ipv6_text(ip: u128) -> (text: String)
    ensures
        text@ == ipv6_form(ip),
{
    match unmapped(ip) {
        Some(inner) => {
            let mut text = "::ffff:".to_owned();
            text.append(dotted_text(inner).as_str());
            text
        },
        None => {
            let parts = segment_list(ip);
            let run = find_run(&parts);
            if run.1 > 1 {
                let mut text = colon_text(&parts, 0, run.0);
                text.append("::");
                text.append(colon_text(&parts, run.0 + run.1, 8).as_str());
                text
            } else {
                assert(parts@.subrange(0, 8) =~= parts@);
                colon_text(&parts, 0, 8)
            }
        },
    }
}

/// Text form of an endpoint. IPv6 addresses stand in brackets, with the scope
/// after a percent sign unless it is zero.
pub open spec fn socket_form(address: SocketAddress) -> Seq<char> {
    match address {
        SocketAddress::V4 { ip, port } => dotted(ip) + ":"@ + decimal(port as nat),
        SocketAddress::V6 { ip, port, flow_info, scope_id } => if scope_id == 0 {
            "["@ + ipv6_form(ip) + "]:"@ + decimal(port as nat)
        } else {
            "["@ + ipv6_form(ip) + "%"@ + decimal(scope_id as nat) + "]:"@ + decimal(port as nat)
        },
    }
}

/// Text form of an endpoint.
pub fn socket_text(address: SocketAddress) -> (text: String)
    ensures
        text@ == socket_form(address),
{
    match address {
        SocketAddress::V4 { ip, port } => {
            let mut text = dotted_text(ip);
            text.append(":");
            text.append(decimal_text(port as u64).as_str());
            text
        },
        SocketAddress::V6 { ip, port, scope_id, .. } => {
            let mut text = "[".to_owned();
            text.append(ipv6_text(ip).as_str());
            if scope_id != 0 {
                text.append("%");
                text.append(decimal_text(scope_id as u64).as_str());
            }
            text.append("]:");
            text.append(decimal_text(port as u64).as_str());
            text
        },
    }
}

/// Another device can be dialed at the endpoint: it has a port, and its address
/// is neither unspecified nor multicast nor this machine's own.
pub open spec fn dialable(address: SocketAddress) -> bool {
    &&& address.spec_port() != 0
    &&& !address.spec_ip().unspecified()
    &&& !address.spec_ip().multicast()
    &&& !address.spec_ip().loopback()
}

/// An endpoint can be dialed unless it has no port, or its address is the
/// unspecified one, one of 127.0.0.0/8 or 224.0.0.0/4, `::1`, or one of ff00::/8.
pub proof fn law_dialable(address: SocketAddress)
    ensures
        dialable(address) <==> match address {
            SocketAddress::V4 { ip, port } => port != 0 && ip != 0 && !(0x7f00_0000 <= ip
                <= 0x7fff_ffff) && !(0xe000_0000 <= ip <= 0xefff_ffff),
            SocketAddress::V6 { ip, port, .. } => port != 0 && ip != 0 && ip != 1 && ip
                < 0xff00_0000_0000_0000_0000_0000_0000_0000,
        },
{
}

/// Whether another device can be dialed at the endpoint.
pub fn is_dialable(address: SocketAddress) -> (answer: bool)
    ensures
        answer == dialable(address),
{
    address.port() != 0 && !address.ip().is_unspecified() && !address.ip().is_multicast()
        && !address.ip().is_loopback()
}

/// An IPv4 address is written as its four bytes, from the highest.
pub proof fn law_ipv4_text(a: u8, b: u8, c: u8, d: u8, ip: u32)
    requires
        ip == a * 0x100_0000 + b * 0x1_0000 + c * 0x100 + d,
    ensures
        dotted(ip) == decimal(a as nat) + "."@ + decimal(b as nat) + "."@ + decimal(c as nat)
            + "."@ + decimal(d as nat),
{
    assert(ip == ipv4_bits(a, b, c, d));
    lemma_octets_of_bits(a, b, c, d);
}

/// An endpoint is written with its address and its port, and with its scope where it
/// has one.
pub proof fn law_endpoint_text(short: u32, ip: u128, port: u16, flow_info: u32, scope_id: u32)
    ensures
        socket_form(SocketAddress::V4 { ip: short, port }) == dotted(short) + ":"@ + decimal(
            port as nat,
        ),
        scope_id == 0 ==> socket_form(SocketAddress::V6 { ip, port, flow_info, scope_id }) == "["@
            + ipv6_form(ip) + "]:"@ + decimal(port as nat),
        scope_id != 0 ==> socket_form(SocketAddress::V6 { ip, port, flow_info, scope_id }) == "["@
            + ipv6_form(ip) + "%"@ + decimal(scope_id as nat) + "]:"@ + decimal(port as nat),
{
}

} // verus!
