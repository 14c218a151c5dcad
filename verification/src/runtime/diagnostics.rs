//! Names for logs: the same on both peers, without exact addresses or device
//! identities.
use vstd::prelude::*;
use vstd::string::*;
use vstd::utf8::*;

use crate::address::{
    lemma_mapped_round_trip, mapped_ipv4, socket_form, socket_text, to_mapped, unmapped,
    SocketAddress,
};
use crate::dns_sd::{hex, hex_text, law_hex_round_trip};
use crate::primitives::{sha256, sha256_digest};

verus! {

/// The log name that belongs to a digest: its first six bytes.
pub open spec fn digest_label(digest: Seq<u8>) -> Seq<char> {
    "peer-"@ + hex_text(digest.subrange(0, 6))
}

/// The log name of a text.
pub open spec fn label(value: Seq<char>) -> Seq<char> {
    digest_label(sha256_digest(encode_utf8(value)))
}

/// The log name that belongs to a digest.
pub fn label_of_digest(digest: &[u8; 32]) -> (name: String)
    ensures
        name@ == digest_label(digest@),
{
    let mut part: Vec<u8> = Vec::new();
    let mut i: usize = 0;
    while i < 6
        invariant
            i <= 6,
            part@ == digest@.subrange(0, i as int),
        decreases 6 - i,
    {
        part.push(digest[i]);
        i += 1;
        assert(part@ =~= digest@.subrange(0, i as int));
    }
    let mut name = "peer-".to_owned();
    name.append(hex(part.as_slice()).as_str());
    name
}

/// The log name of a text.
pub fn diagnostic_id(value: &str) -> (name: String)
    ensures
        name@ == label(value@),
{
    let digest = sha256(value.as_bytes());
    label_of_digest(&digest)
}

/// An endpoint in the form in which it is dialed: an IPv4 address that is
/// written as an IPv6 address stands for itself.
pub open spec fn canonical(address: SocketAddress) -> SocketAddress {
    match address {
        SocketAddress::V6 { ip, port, flow_info, scope_id } => match mapped_ipv4(ip) {
            Some(inner) => SocketAddress::V4 { ip: inner, port },
            None => address,
        },
        SocketAddress::V4 { ip, port } => address,
    }
}

/// The form in which an endpoint is dialed is the form of itself, and both ways
/// of writing an IPv4 endpoint have the same.
pub proof fn law_canonical_form(
    address: SocketAddress,
    ip: u32,
    port: u16,
    flow_info: u32,
    scope_id: u32,
)
    ensures
        canonical(canonical(address)) == canonical(address),
        canonical(SocketAddress::V6 { ip: to_mapped(ip), port, flow_info, scope_id }) == canonical(
            SocketAddress::V4 { ip, port },
        ),
{
    lemma_mapped_round_trip(ip);
}

/// An endpoint in the form in which it is dialed.
pub fn canonical_endpoint(address: SocketAddress) -> (form: SocketAddress)
    ensures
        form == canonical(address),
{
    match address {
        SocketAddress::V6 { ip, port, flow_info, scope_id } => match unmapped(ip) {
            Some(inner) => SocketAddress::V4 { ip: inner, port },
            None => SocketAddress::V6 { ip, port, flow_info, scope_id },
        },
        SocketAddress::V4 { ip, port } => SocketAddress::V4 { ip, port },
    }
}

/// The address family in which an endpoint is dialed.
pub open spec fn family(address: SocketAddress) -> Seq<char> {
    match canonical(address) {
        SocketAddress::V4 { ip, port } => "ipv4"@,
        SocketAddress::V6 { ip, port, flow_info, scope_id } => "ipv6"@,
    }
}

/// The address family in which an endpoint is dialed.
pub fn address_family(address: SocketAddress) -> (name: &'static str)
    ensures
        name@ == family(address),
{
    match canonical_endpoint(address) {
        SocketAddress::V4 { .. } => "ipv4",
        SocketAddress::V6 { .. } => "ipv6",
    }
}

/// The log name of an endpoint. Both ways of writing an IPv4 endpoint have the
/// same.
pub fn endpoint_id(address: SocketAddress) -> (name: String)
    ensures
        name@ == label(socket_form(canonical(address))),
{
    diagnostic_id(socket_text(canonical_endpoint(address)).as_str())
}

/// The interface of an endpoint, zero for IPv4.
pub open spec fn interface_of(address: SocketAddress) -> u32 {
    match address {
        SocketAddress::V4 { ip, port } => 0,
        SocketAddress::V6 { ip, port, flow_info, scope_id } => scope_id,
    }
}

/// The interface of an endpoint, zero for IPv4.
pub fn scope_id(address: SocketAddress) -> (id: u32)
    ensures
        id == interface_of(address),
{
    match address {
        SocketAddress::V4 { .. } => 0,
        SocketAddress::V6 { scope_id, .. } => scope_id,
    }
}

/// How a QUIC connection failed.
#[derive(Debug, Clone, Copy, PartialEq, Eq, Structural)]
pub enum QuicFailure {
    VersionMismatch,
    TransportError,
    ConnectionClosed,
    ApplicationClosed,
    Reset,
    TimedOut,
    LocallyClosed,
    CidsExhausted,
}

impl QuicFailure {
    /// The name of the failure in logs.
    pub open spec fn name(self) -> Seq<char> {
        match self {
            QuicFailure::VersionMismatch => "version_mismatch"@,
            QuicFailure::TransportError => "transport_error"@,
            QuicFailure::ConnectionClosed => "peer_transport_close"@,
            QuicFailure::ApplicationClosed => "peer_application_close"@,
            QuicFailure::Reset => "peer_reset"@,
            QuicFailure::TimedOut => "idle_timeout"@,
            QuicFailure::LocallyClosed => "local_close"@,
            QuicFailure::CidsExhausted => "connection_ids_exhausted"@,
        }
    }
}

/// The name of a failure in logs.
pub fn quic_failure_kind(failure: QuicFailure) -> (name: &'static str)
    ensures
        name@ == failure.name(),
{
    match failure {
        QuicFailure::VersionMismatch => "version_mismatch",
        QuicFailure::TransportError => "transport_error",
        QuicFailure::ConnectionClosed => "peer_transport_close",
        QuicFailure::ApplicationClosed => "peer_application_close",
        QuicFailure::Reset => "peer_reset",
        QuicFailure::TimedOut => "idle_timeout",
        QuicFailure::LocallyClosed => "local_close",
        QuicFailure::CidsExhausted => "connection_ids_exhausted",
    }
}

/// Where an endpoint is dialed does not depend on how it is written: its port stays,
/// an IPv4 address stays, an IPv6 address that stands for one gives way to it, and
/// any other IPv6 endpoint stays as it is, with its scope.
pub proof fn law_dialed_where_it_says(ip: u32, long: u128, port: u16, flow_info: u32, scope_id: u32)
    ensures
        canonical(SocketAddress::V4 { ip, port }) == (SocketAddress::V4 { ip, port }),
        ({
            let endpoint = SocketAddress::V6 { ip: long, port, flow_info, scope_id };
            if 0xffff_0000_0000 <= long <= 0xffff_ffff_ffff {
                canonical(endpoint) == (SocketAddress::V4 {
                    ip: (long - 0xffff_0000_0000) as u32,
                    port,
                })
            } else {
                canonical(endpoint) == endpoint
            }
        }),
{
}

/// A log name shows the first six bytes of a digest and nothing else of it.
pub proof fn law_log_name(digest: Seq<u8>, other: Seq<u8>)
    requires
        digest.len() >= 6,
        other.len() >= 6,
    ensures
        digest_label(digest).len() == 17,
        digest_label(digest) == digest_label(other) <==> digest.take(6) == other.take(6),
{
    reveal_strlit("peer-");
    let a = digest.take(6);
    let b = other.take(6);
    assert(digest.subrange(0, 6) =~= a);
    assert(other.subrange(0, 6) =~= b);
    reveal_with_fuel(hex_text, 7);
    assert(hex_text(a).len() == 12);
    if digest_label(digest) == digest_label(other) {
        assert(digest_label(digest).skip(5) =~= hex_text(a));
        assert(digest_label(other).skip(5) =~= hex_text(b));
        law_hex_round_trip(a);
        law_hex_round_trip(b);
    }
}

} // verus!
