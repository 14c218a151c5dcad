//! Where paired devices were reached before.
use vstd::prelude::*;
use vstd::seq_lib::*;
use vstd::string::*;

use crate::address::{ipv4_bits, lemma_octets_of_bits, octet, octets, SocketAddress};
use crate::error::{plain_result, repository_failed, NetworkError, NetworkErrorView};
use crate::order::{
    is_stable_sort, lemma_least_is_first, lemma_stable_sort_contains, lemma_stable_sort_distinct,
    lemma_stable_sort_views, seq_before, splits_at, stable_sort,
};
use crate::peer::{views, DeviceId};
use crate::table::Table;
use crate::text::{decimal, decimal_text};

verus! {

/// How an endpoint became known.
#[derive(Debug, Clone, Copy, PartialEq, Eq, Structural)]
pub enum EndpointSource {
    /// Multicast discovery.
    Mdns,
    /// The peer connected from there.
    Inbound,
    /// It was remembered.
    History,
    /// A scan of the network.
    Scan,
    /// The user named it.
    Manual,
    /// Another peer told of it.
    Relayed,
}

impl EndpointSource {
    /// The number that stands for the source in storage.
    pub open spec fn number(self) -> i64 {
        match self {
            EndpointSource::Mdns => 1,
            EndpointSource::Inbound => 2,
            EndpointSource::History => 3,
            EndpointSource::Scan => 4,
            EndpointSource::Manual => 5,
            EndpointSource::Relayed => 6,
        }
    }

    /// The source that a stored number stands for.
    pub open spec fn from_number(value: i64) -> Result<EndpointSource, NetworkErrorView> {
        if value == 1 {
            Ok(EndpointSource::Mdns)
        } else if value == 2 {
            Ok(EndpointSource::Inbound)
        } else if value == 3 {
            Ok(EndpointSource::History)
        } else if value == 4 {
            Ok(EndpointSource::Scan)
        } else if value == 5 {
            Ok(EndpointSource::Manual)
        } else if value == 6 {
            Ok(EndpointSource::Relayed)
        } else {
            Err(NetworkErrorView::Repository("unknown remembered endpoint source"@))
        }
    }

    /// The number that stands for the source in storage.
    pub fn encode(self) -> (value: i64)
        ensures
            value == self.number(),
    {
        match self {
            EndpointSource::Mdns => 1,
            EndpointSource::Inbound => 2,
            EndpointSource::History => 3,
            EndpointSource::Scan => 4,
            EndpointSource::Manual => 5,
            EndpointSource::Relayed => 6,
        }
    }

    /// The source that a stored number stands for.
    pub fn decode(value: i64) -> (source: Result<Self, NetworkError>)
        ensures
            plain_result(source) == EndpointSource::from_number(value),
    {
        if value == 1 {
            Ok(EndpointSource::Mdns)
        } else if value == 2 {
            Ok(EndpointSource::Inbound)
        } else if value == 3 {
            Ok(EndpointSource::History)
        } else if value == 4 {
            Ok(EndpointSource::Scan)
        } else if value == 5 {
            Ok(EndpointSource::Manual)
        } else if value == 6 {
            Ok(EndpointSource::Relayed)
        } else {
            Err(repository_failed("unknown remembered endpoint source"))
        }
    }
}

/// A stored source reads back as itself, and nothing else reads as a source.
pub proof fn law_source_round_trip(source: EndpointSource, value: i64)
    ensures
        EndpointSource::from_number(source.number()) == Ok::<_, NetworkErrorView>(source),
        EndpointSource::from_number(value) matches Ok(read) ==> read.number() == value,
{
}

/// The network that an endpoint belongs to: the /24 of an IPv4 address, the
/// interface of an IPv6 address.
pub open spec fn scope_of(address: SocketAddress) -> Seq<char> {
    match address {
        SocketAddress::V4 { ip, port } => decimal(octet(ip, 0) as nat) + "."@ + decimal(
            octet(ip, 1) as nat,
        ) + "."@ + decimal(octet(ip, 2) as nat) + ".0/24"@,
        SocketAddress::V6 { ip, port, flow_info, scope_id } => "ipv6-if-"@ + decimal(
            scope_id as nat,
        ),
    }
}

/// The network that an endpoint belongs to.
pub fn network_scope(address: SocketAddress) -> (scope: String)
    ensures
        scope@ == scope_of(address),
{
    match address {
        SocketAddress::V4 { ip, .. } => {
            let parts = octets(ip);
            let mut scope = decimal_text(parts.0 as u64);
            scope.append(".");
            scope.append(decimal_text(parts.1 as u64).as_str());
            scope.append(".");
            scope.append(decimal_text(parts.2 as u64).as_str());
            scope.append(".0/24");
            scope
        },
        SocketAddress::V6 { scope_id, .. } => {
            let mut scope = "ipv6-if-".to_owned();
            scope.append(decimal_text(scope_id as u64).as_str());
            scope
        },
    }
}

/// An endpoint at which a device has proved its identity.
#[derive(Debug)]
pub struct RememberedEndpoint {
    pub peer_id: DeviceId,
    pub address: SocketAddress,
    pub certificate_sha256: [u8; 32],
    pub source: EndpointSource,
    pub network_scope: String,
    pub first_seen_at_ms: i64,
    pub last_seen_at_ms: i64,
    pub last_success_at_ms: i64,
    pub consecutive_failures: u32,
    pub retry_after_ms: i64,
}

/// What a [`RememberedEndpoint`] says.
pub struct RememberedEndpointView {
    pub peer_id: Seq<char>,
    pub address: SocketAddress,
    pub certificate_sha256: Seq<u8>,
    pub source: EndpointSource,
    pub network_scope: Seq<char>,
    pub first_seen_at_ms: i64,
    pub last_seen_at_ms: i64,
    pub last_success_at_ms: i64,
    pub consecutive_failures: u32,
    pub retry_after_ms: i64,
}

impl View for RememberedEndpoint {
    type V = RememberedEndpointView;

    open spec fn view(&self) -> RememberedEndpointView {
        RememberedEndpointView {
            peer_id: self.peer_id@,
            address: self.address,
            certificate_sha256: self.certificate_sha256@,
            source: self.source,
            network_scope: self.network_scope@,
            first_seen_at_ms: self.first_seen_at_ms,
            last_seen_at_ms: self.last_seen_at_ms,
            last_success_at_ms: self.last_success_at_ms,
            consecutive_failures: self.consecutive_failures,
            retry_after_ms: self.retry_after_ms,
        }
    }
}

impl Clone for RememberedEndpoint {
    fn clone(&self) -> (copy: Self)
        ensures
            copy@ == self@,
    {
        RememberedEndpoint {
            peer_id: self.peer_id.clone(),
            address: self.address,
            certificate_sha256: self.certificate_sha256,
            source: self.source,
            network_scope: self.network_scope.clone(),
            first_seen_at_ms: self.first_seen_at_ms,
            last_seen_at_ms: self.last_seen_at_ms,
            last_success_at_ms: self.last_success_at_ms,
            consecutive_failures: self.consecutive_failures,
            retry_after_ms: self.retry_after_ms,
        }
    }
}

/// How many endpoints are remembered of one device, and offered for one dial.
pub const MAX_ENDPOINTS: usize = 16;

/// The wait after `failures` failures in a row, in milliseconds: it doubles up
/// to the eighth.
pub open spec fn backoff_ms(failures: nat) -> nat
    decreases failures,
{
    if failures == 0 {
        1000
    } else if failures > 8 {
        backoff_ms((failures - 1) as nat)
    } else {
        2 * backoff_ms((failures - 1) as nat)
    }
}

/// The wait is at least two seconds after a failure and never above 256.
pub proof fn law_backoff_is_bounded(failures: nat)
    ensures
        failures >= 1 ==> 2_000 <= backoff_ms(failures),
        1_000 <= backoff_ms(failures) <= 256_000,
        backoff_ms(failures) <= backoff_ms(failures + 1),
        failures >= 8 ==> backoff_ms(failures) == 256_000,
    decreases failures,
{
    reveal_with_fuel(backoff_ms, 10);
    if failures > 8 {
        law_backoff_is_bounded((failures - 1) as nat);
    }
}

/// The wait starts at one second and doubles with each failure in a row, up to the
/// eighth: 2, 4, 8 and so on up to 256 seconds.
pub proof fn law_backoff_doubles(failures: nat)
    ensures
        backoff_ms(0) == 1_000,
        failures < 8 ==> backoff_ms(failures + 1) == 2 * backoff_ms(failures),
        failures >= 8 ==> backoff_ms(failures) == 256_000,
{
    law_backoff_is_bounded(failures);
}

/// The wait after `failures` failures in a row.
pub fn backoff(failures: u32) -> (wait: i64)
    ensures
        wait == backoff_ms(failures as nat),
        1_000 <= wait <= 256_000,
{
    let steps: u32 = if failures > 8 {
        8
    } else {
        failures
    };
    let mut wait: i64 = 1_000;
    let mut i: u32 = 0;
    while i < steps
        invariant
            i <= steps <= 8,
            wait == backoff_ms(i as nat),
            1_000 <= wait <= 256_000,
        decreases steps - i,
    {
        proof {
            law_backoff_is_bounded(i as nat);
            law_backoff_is_bounded((i + 1) as nat);
        }
        wait = wait * 2;
        i += 1;
    }
    proof {
        law_backoff_is_bounded(failures as nat);
        law_backoff_is_bounded(8);
    }
    wait
}

/// Sum of two timestamps that stops at the largest one.
pub open spec fn later(now: i64, wait: nat) -> i64 {
    if now + wait > i64::MAX {
        i64::MAX
    } else {
        (now + wait) as i64
    }
}

/// Place of an endpoint when the latest success comes first.
pub open spec fn success_key() -> spec_fn(RememberedEndpointView) -> Seq<int> {
    |endpoint: RememberedEndpointView| seq![-endpoint.last_success_at_ms as int]
}

/// Place of an endpoint when the latest success comes first, and among equals
/// the latest sighting.
pub open spec fn recent_key() -> spec_fn(RememberedEndpointView) -> Seq<int> {
    |endpoint: RememberedEndpointView|
        seq![-endpoint.last_success_at_ms as int, -endpoint.last_seen_at_ms as int]
}

/// `kept` is the beginning of a stable sort of `all`, cut at the limit.
pub open spec fn is_top(
    all: Seq<RememberedEndpointView>,
    kept: Seq<RememberedEndpointView>,
    key: spec_fn(RememberedEndpointView) -> Seq<int>,
) -> bool {
    exists|sorted: Seq<RememberedEndpointView>| #[trigger]
        is_stable_sort(all, sorted, key) && kept == sorted.take(
            if sorted.len() > MAX_ENDPOINTS {
                MAX_ENDPOINTS as int
            } else {
                sorted.len() as int
            },
        )
}

/// The endpoints that may be dialed at `now`.
pub open spec fn ready(list: Seq<RememberedEndpointView>, now: i64) -> Seq<RememberedEndpointView> {
    list.filter(|endpoint: RememberedEndpointView| endpoint.retry_after_ms <= now)
}

/// Where the endpoint with this address stands.
pub open spec fn stands_at(list: Seq<RememberedEndpointView>, address: SocketAddress, i: int) -> bool {
    0 <= i < list.len() && list[i].address == address
}

/// No address occurs twice.
pub open spec fn distinct_addresses(list: Seq<RememberedEndpointView>) -> bool {
    forall|i: int, j: int|
        0 <= i < j < list.len() ==> (#[trigger] list[i]).address != (#[trigger] list[j]).address
}

/// The list after a device proved its identity at an endpoint: the endpoint is
/// refreshed where it is known and added where it is not.
pub open spec fn succeeded(
    list: Seq<RememberedEndpointView>,
    peer_id: Seq<char>,
    address: SocketAddress,
    certificate_sha256: Seq<u8>,
    source: EndpointSource,
    now: i64,
) -> Seq<RememberedEndpointView> {
    let fresh = RememberedEndpointView {
        peer_id,
        address,
        certificate_sha256,
        source,
        network_scope: scope_of(address),
        first_seen_at_ms: now,
        last_seen_at_ms: now,
        last_success_at_ms: now,
        consecutive_failures: 0,
        retry_after_ms: 0,
    };
    if exists|i: int| #[trigger] stands_at(list, address, i) {
        let i = choose|i: int| #[trigger] stands_at(list, address, i);
        list.update(
            i,
            RememberedEndpointView {
                peer_id: list[i].peer_id,
                first_seen_at_ms: list[i].first_seen_at_ms,
                ..fresh
            },
        )
    } else {
        list.push(fresh)
    }
}

/// The list after dialing an endpoint failed: it waits longer after each
/// failure in a row.
pub open spec fn failed(list: Seq<RememberedEndpointView>, address: SocketAddress, now: i64) -> Seq<
    RememberedEndpointView,
> {
    if exists|i: int| #[trigger] stands_at(list, address, i) {
        let i = choose|i: int| #[trigger] stands_at(list, address, i);
        let failures = once_more(list[i].consecutive_failures);
        list.update(
            i,
            RememberedEndpointView {
                consecutive_failures: failures,
                retry_after_ms: later(now, backoff_ms(failures as nat)),
                ..list[i]
            },
        )
    } else {
        list
    }
}

/// One failure more, as far as the number goes.
pub open spec fn once_more(failures: u32) -> u32 {
    if failures == u32::MAX {
        u32::MAX
    } else {
        (failures + 1) as u32
    }
}

/// An endpoint that just failed is not offered again before the wait is over that
/// its failures in a row have earned.
pub proof fn law_failure_is_backed_off(
    list: Seq<RememberedEndpointView>,
    address: SocketAddress,
    at: int,
    now: i64,
    time: i64,
)
    requires
        distinct_addresses(list),
        stands_at(list, address, at),
        time < later(now, backoff_ms(once_more(list[at].consecutive_failures) as nat)),
    ensures
        forall|i: int| !stands_at(#[trigger] ready(failed(list, address, now), time), address, i),
{
    let after = failed(list, address, now);
    let pred = |endpoint: RememberedEndpointView| endpoint.retry_after_ms <= time;
    lemma_position_unique(list, address, at);
    assert forall|i: int| !stands_at(#[trigger] ready(after, time), address, i) by {
        let kept = after.filter(pred);
        if stands_at(kept, address, i) {
            after.lemma_filter_pred(pred, i);
            assert(kept.contains(kept[i]));
            after.lemma_filter_contains_rev(pred, kept[i]);
            let k = choose|k: int| 0 <= k < after.len() && after[k] == kept[i];
            assert(stands_at(list, address, k));
            lemma_position_unique(list, address, k);
        }
    }
}

/// The endpoint at which the device proved its identity last is offered first,
/// with the certificate that it showed there and whatever failed before. `stored`
/// is what is remembered then, and `offered` what is offered at that time.
pub proof fn law_latest_success_is_offered_first(
    list: Seq<RememberedEndpointView>,
    peer_id: Seq<char>,
    address: SocketAddress,
    certificate_sha256: Seq<u8>,
    source: EndpointSource,
    now: i64,
    stored: Seq<RememberedEndpointView>,
    offered: Seq<RememberedEndpointView>,
)
    requires
        now >= 0,
        distinct_addresses(list),
        forall|i: int|
            0 <= i < list.len() ==> (#[trigger] list[i]).address == address
                || list[i].last_success_at_ms < now,
        is_top(
            succeeded(list, peer_id, address, certificate_sha256, source, now),
            stored,
            success_key(),
        ),
        is_top(ready(stored, now), offered, recent_key()),
    ensures
        offered.len() > 0,
        offered[0].address == address,
        offered[0].certificate_sha256 == certificate_sha256,
        offered[0].source == source,
        offered[0].last_success_at_ms == now,
        offered[0].consecutive_failures == 0,
{
    let after = succeeded(list, peer_id, address, certificate_sha256, source, now);
    let k = if exists|i: int| #[trigger] stands_at(list, address, i) {
        choose|i: int| #[trigger] stands_at(list, address, i)
    } else {
        list.len() as int
    };
    let latest = after[k];
    lemma_succeeded_distinct(list, peer_id, address, certificate_sha256, source, now);
    assert forall|i: int| 0 <= i < after.len() implies (#[trigger] after[i]) == latest || after[i]
        .last_success_at_ms < now by {
        if i < k {
            assert(after[i].address != after[k].address);
            assert(after[i] == list[i]);
        } else if k < i {
            assert(after[k].address != after[i].address);
            assert(after[i] == list[i]);
        }
    }
    let sorted = choose|sorted: Seq<RememberedEndpointView>| #[trigger]
        is_stable_sort(after, sorted, success_key()) && stored == sorted.take(
            if sorted.len() > MAX_ENDPOINTS {
                MAX_ENDPOINTS as int
            } else {
                sorted.len() as int
            },
        );
    assert forall|i: int| 0 <= i < after.len() implies (#[trigger] after[i]) == latest
        || seq_before((success_key())(latest), (success_key())(after[i])) by {
        if after[i] != latest {
            assert(splits_at((success_key())(latest), (success_key())(after[i]), 0));
        }
    }
    assert(after.contains(latest));
    lemma_least_is_first(after, sorted, success_key(), latest);
    assert(stored[0] == latest);
    let pred = |endpoint: RememberedEndpointView| endpoint.retry_after_ms <= now;
    let kept = ready(stored, now);
    stored.lemma_filter_contains(pred, 0);
    assert forall|i: int| 0 <= i < kept.len() implies (#[trigger] kept[i]) == latest || seq_before(
        (recent_key())(latest),
        (recent_key())(kept[i]),
    ) by {
        assert(kept.contains(kept[i]));
        stored.lemma_filter_contains_rev(pred, kept[i]);
        let j = choose|j: int| 0 <= j < stored.len() && stored[j] == kept[i];
        assert(sorted[j] == kept[i]);
        assert(sorted.contains(kept[i]));
        lemma_stable_sort_contains(after, sorted, success_key(), kept[i]);
        if kept[i] != latest {
            assert(splits_at((recent_key())(latest), (recent_key())(kept[i]), 0));
        }
    }
    let order = choose|order: Seq<RememberedEndpointView>| #[trigger]
        is_stable_sort(kept, order, recent_key()) && offered == order.take(
            if order.len() > MAX_ENDPOINTS {
                MAX_ENDPOINTS as int
            } else {
                order.len() as int
            },
        );
    lemma_least_is_first(kept, order, recent_key(), latest);
    assert(offered[0] == latest);
}

/// An endpoint is offered exactly where it is remembered and its wait is over,
/// however often it failed. Of the endpoints offered, the one with the later
/// success comes first, and of two with one success the one that was seen later.
pub proof fn law_every_ready_endpoint_is_offered(
    list: Seq<RememberedEndpointView>,
    now: i64,
    offered: Seq<RememberedEndpointView>,
)
    requires
        list.len() <= 16,
        distinct_addresses(list),
        is_top(ready(list, now), offered, recent_key()),
    ensures
        forall|endpoint: RememberedEndpointView| #[trigger]
            offered.contains(endpoint) <==> list.contains(endpoint) && endpoint.retry_after_ms
                <= now,
        forall|i: int, j: int|
            0 <= i < j < offered.len() ==> (#[trigger] offered[i]).address != (
            #[trigger] offered[j]).address,
        forall|i: int, j: int|
            0 <= i < j < offered.len() ==> (#[trigger] offered[i]).last_success_at_ms > (
            #[trigger] offered[j]).last_success_at_ms || (offered[i].last_success_at_ms
                == offered[j].last_success_at_ms && offered[i].last_seen_at_ms
                >= offered[j].last_seen_at_ms),
{
    let pred = |endpoint: RememberedEndpointView| endpoint.retry_after_ms <= now;
    let kept = ready(list, now);
    list.lemma_filter_len(pred);
    let sorted = choose|sorted: Seq<RememberedEndpointView>| #[trigger]
        is_stable_sort(kept, sorted, recent_key()) && offered == sorted.take(
            if sorted.len() > MAX_ENDPOINTS {
                MAX_ENDPOINTS as int
            } else {
                sorted.len() as int
            },
        );
    assert(offered =~= sorted);
    assert forall|endpoint: RememberedEndpointView| #[trigger]
        offered.contains(endpoint) <==> list.contains(endpoint) && endpoint.retry_after_ms
            <= now by {
        lemma_stable_sort_contains(kept, sorted, recent_key(), endpoint);
        if list.contains(endpoint) && pred(endpoint) {
            let i = choose|i: int| 0 <= i < list.len() && list[i] == endpoint;
            list.lemma_filter_contains(pred, i);
        }
        if kept.contains(endpoint) {
            list.lemma_filter_contains_rev(pred, endpoint);
            let i = choose|i: int| 0 <= i < kept.len() && kept[i] == endpoint;
            list.lemma_filter_pred(pred, i);
        }
    }
    lemma_ready_distinct(list, now);
    lemma_sorted_distinct_addresses(kept, sorted, recent_key());
    assert forall|i: int, j: int| 0 <= i < j < offered.len() implies (
    #[trigger] offered[i]).last_success_at_ms > (#[trigger] offered[j]).last_success_at_ms || (
    offered[i].last_success_at_ms == offered[j].last_success_at_ms && offered[i].last_seen_at_ms
        >= offered[j].last_seen_at_ms) by {
        let x = (recent_key())(offered[j]);
        let y = (recent_key())(offered[i]);
        assert(!seq_before(x, y));
        if offered[j].last_success_at_ms > offered[i].last_success_at_ms {
            assert(splits_at(x, y, 0));
        } else if offered[j].last_success_at_ms == offered[i].last_success_at_ms
            && offered[j].last_seen_at_ms > offered[i].last_seen_at_ms {
            assert(splits_at(x, y, 1));
        }
    }
}

proof fn lemma_ready_distinct(list: Seq<RememberedEndpointView>, now: i64)
    requires
        distinct_addresses(list),
    ensures
        distinct_addresses(ready(list, now)),
    decreases list.len(),
{
    let pred = |endpoint: RememberedEndpointView| endpoint.retry_after_ms <= now;
    if list.len() == 0 {
        list.lemma_filter_len(pred);
    } else {
        let rest = list.drop_last();
        let last = list.last();
        assert(distinct_addresses(rest)) by {
            assert(forall|i: int| 0 <= i < rest.len() ==> rest[i] == #[trigger] list[i]);
        }
        lemma_ready_distinct(rest, now);
        assert(list =~= rest.push(last));
        rest.lemma_filter_push(last, pred);
        let before = rest.filter(pred);
        let after = list.filter(pred);
        if pred(last) {
            assert(after == before.push(last));
            assert forall|i: int, j: int| 0 <= i < j < after.len() implies (
            #[trigger] after[i]).address != (#[trigger] after[j]).address by {
                if j == before.len() {
                    assert(before.contains(before[i]));
                    rest.lemma_filter_contains_rev(pred, before[i]);
                    let k = choose|k: int| 0 <= k < rest.len() && rest[k] == before[i];
                    assert(list[k].address != list[list.len() - 1].address);
                } else {
                    assert(before[i].address != before[j].address);
                }
            }
        }
    }
}

/// A success touches the endpoint at which it happened and no other. That endpoint
/// is remembered from then on with the certificate and the source of the success,
/// as seen and proven at that time, without failures and without a wait. A known
/// endpoint keeps the time at which it was first seen.
pub proof fn law_success_is_remembered(
    list: Seq<RememberedEndpointView>,
    peer_id: Seq<char>,
    address: SocketAddress,
    certificate_sha256: Seq<u8>,
    source: EndpointSource,
    now: i64,
)
    requires
        distinct_addresses(list),
    ensures
        ({
            let after = succeeded(list, peer_id, address, certificate_sha256, source, now);
            let known = exists|i: int| 0 <= i < list.len() && (#[trigger] list[i]).address == address;
            &&& after.len() == if known {
                list.len()
            } else {
                list.len() + 1
            }
            &&& forall|i: int|
                0 <= i < list.len() && list[i].address != address ==> #[trigger] after[i] == list[i]
            &&& forall|i: int|
                0 <= i < list.len() && list[i].address == address ==> (
                #[trigger] after[i]).first_seen_at_ms == list[i].first_seen_at_ms
                    && after[i].peer_id == list[i].peer_id
            &&& !known ==> after[list.len() as int].first_seen_at_ms == now && after[list.len()
                as int].peer_id == peer_id && after[list.len() as int].address == address
            &&& forall|i: int|
                0 <= i < after.len() && (#[trigger] after[i]).address == address ==> {
                    &&& after[i].certificate_sha256 == certificate_sha256
                    &&& after[i].source == source
                    &&& after[i].network_scope == scope_of(address)
                    &&& after[i].last_seen_at_ms == now
                    &&& after[i].last_success_at_ms == now
                    &&& after[i].consecutive_failures == 0
                    &&& after[i].retry_after_ms == 0
                }
            &&& exists|i: int| 0 <= i < after.len() && (#[trigger] after[i]).address == address
        }),
{
    let after = succeeded(list, peer_id, address, certificate_sha256, source, now);
    if exists|i: int| 0 <= i < list.len() && (#[trigger] list[i]).address == address {
        let i = choose|i: int| 0 <= i < list.len() && (#[trigger] list[i]).address == address;
        assert(stands_at(list, address, i));
        lemma_position_unique(list, address, i);
        assert(after[i].address == address);
        assert forall|k: int| 0 <= k < after.len() && (#[trigger] after[k]).address
            == address implies k == i by {
            if k != i {
                assert(after[k] == list[k]);
                assert(stands_at(list, address, k));
                lemma_position_unique(list, address, k);
            }
        }
        assert forall|k: int| 0 <= k < list.len() && list[k].address == address implies k == i by {
            assert(stands_at(list, address, k));
            lemma_position_unique(list, address, k);
        }
    } else {
        assert forall|i: int| !#[trigger] stands_at(list, address, i) by {
            if stands_at(list, address, i) {
                assert(list[i].address == address);
            }
        }
        assert(after[list.len() as int].address == address);
    }
}

/// Of the endpoints at hand the sixteen with the latest successes are remembered,
/// all of them where there are no more. So where one is forgotten, each one that
/// stays has a success that is as late.
pub proof fn law_oldest_success_is_forgotten(
    all: Seq<RememberedEndpointView>,
    stored: Seq<RememberedEndpointView>,
    gone: RememberedEndpointView,
)
    requires
        is_top(all, stored, success_key()),
    ensures
        stored.len() == if all.len() > 16 {
            16
        } else {
            all.len()
        },
        forall|i: int| 0 <= i < stored.len() ==> all.contains(#[trigger] stored[i]),
        all.len() <= 16 ==> (all.contains(gone) <==> stored.contains(gone)),
        all.contains(gone) && !stored.contains(gone) ==> forall|i: int|
            0 <= i < stored.len() ==> (#[trigger] stored[i]).last_success_at_ms
                >= gone.last_success_at_ms,
{
    let sorted = choose|sorted: Seq<RememberedEndpointView>| #[trigger]
        is_stable_sort(all, sorted, success_key()) && stored == sorted.take(
            if sorted.len() > MAX_ENDPOINTS {
                MAX_ENDPOINTS as int
            } else {
                sorted.len() as int
            },
        );
    assert forall|i: int| 0 <= i < stored.len() implies all.contains(#[trigger] stored[i]) by {
        assert(sorted[i] == stored[i]);
        assert(sorted.contains(stored[i]));
        lemma_stable_sort_contains(all, sorted, success_key(), stored[i]);
    }
    lemma_stable_sort_contains(all, sorted, success_key(), gone);
    if all.len() <= 16 {
        assert(stored =~= sorted);
    }
    if all.contains(gone) && !stored.contains(gone) {
        let k = choose|k: int| 0 <= k < sorted.len() && sorted[k] == gone;
        if k < stored.len() {
            assert(stored[k] == gone);
        }
        assert forall|i: int| 0 <= i < stored.len() implies (
        #[trigger] stored[i]).last_success_at_ms >= gone.last_success_at_ms by {
            assert(sorted[i] == stored[i]);
            let x = (success_key())(sorted[k]);
            let y = (success_key())(sorted[i]);
            assert(!seq_before(x, y));
            if stored[i].last_success_at_ms < gone.last_success_at_ms {
                assert(splits_at(x, y, 0));
            }
        }
    }
}

/// A failure touches the endpoint at which it happened and no other, and of that
/// one only the count of failures in a row, which grows by one as far as it goes,
/// and the wait, which lasts a thousand milliseconds doubled as often as that
/// count says, eight times at most.
pub proof fn law_failure_is_counted(
    list: Seq<RememberedEndpointView>,
    address: SocketAddress,
    now: i64,
    i: int,
)
    requires
        distinct_addresses(list),
        0 <= i < list.len(),
    ensures
        failed(list, address, now).len() == list.len(),
        list[i].address != address ==> failed(list, address, now)[i] == list[i],
        list[i].address == address ==> {
            let after = failed(list, address, now)[i];
            let count = list[i].consecutive_failures;
            &&& after.consecutive_failures == if count < u32::MAX {
                count + 1
            } else {
                count as int
            }
            &&& after.retry_after_ms == if now + backoff_ms(after.consecutive_failures as nat)
                > i64::MAX {
                i64::MAX as int
            } else {
                now + backoff_ms(after.consecutive_failures as nat)
            }
            &&& after.peer_id == list[i].peer_id
            &&& after.address == list[i].address
            &&& after.certificate_sha256 == list[i].certificate_sha256
            &&& after.source == list[i].source
            &&& after.network_scope == list[i].network_scope
            &&& after.first_seen_at_ms == list[i].first_seen_at_ms
            &&& after.last_seen_at_ms == list[i].last_seen_at_ms
            &&& after.last_success_at_ms == list[i].last_success_at_ms
        },
{
    if list[i].address == address {
        assert(stands_at(list, address, i));
        lemma_position_unique(list, address, i);
    } else if exists|k: int| #[trigger] stands_at(list, address, k) {
        let k = choose|k: int| #[trigger] stands_at(list, address, k);
        assert(k != i);
    }
}

/// Once the wait is over that a failure earned, the endpoint is offered again.
pub proof fn law_endpoint_comes_back(
    list: Seq<RememberedEndpointView>,
    address: SocketAddress,
    at: int,
    failed_at: i64,
    now: i64,
    offered: Seq<RememberedEndpointView>,
)
    requires
        list.len() <= 16,
        distinct_addresses(list),
        0 <= at < list.len(),
        list[at].address == address,
        now >= failed_at + 256_000,
        is_top(ready(failed(list, address, failed_at), now), offered, recent_key()),
    ensures
        exists|i: int| 0 <= i < offered.len() && (#[trigger] offered[i]).address == address,
{
    let after = failed(list, address, failed_at);
    law_failure_is_counted(list, address, failed_at, at);
    law_backoff_is_bounded(after[at].consecutive_failures as nat);
    assert forall|i: int, j: int| 0 <= i < j < after.len() implies (#[trigger] after[i]).address != (
    #[trigger] after[j]).address by {
        law_failure_is_counted(list, address, failed_at, i);
        law_failure_is_counted(list, address, failed_at, j);
        assert(list[i].address != list[j].address);
    }
    law_every_ready_endpoint_is_offered(after, now, offered);
    assert(after.contains(after[at]));
    assert(offered.contains(after[at]));
    let i = choose|i: int| 0 <= i < offered.len() && offered[i] == after[at];
    assert(offered[i].address == address);
}

/// Recording a success keeps every address once.
pub proof fn lemma_succeeded_distinct(
    list: Seq<RememberedEndpointView>,
    peer_id: Seq<char>,
    address: SocketAddress,
    certificate_sha256: Seq<u8>,
    source: EndpointSource,
    now: i64,
)
    requires
        distinct_addresses(list),
    ensures
        distinct_addresses(succeeded(list, peer_id, address, certificate_sha256, source, now)),
{
    let after = succeeded(list, peer_id, address, certificate_sha256, source, now);
    assert forall|i: int, j: int| 0 <= i < j < after.len() implies (#[trigger] after[i]).address != (
    #[trigger] after[j]).address by {
        if exists|k: int| #[trigger] stands_at(list, address, k) {
            assert(list[i].address != list[j].address);
            assert(after[i].address == list[i].address);
            assert(after[j].address == list[j].address);
        } else if j == list.len() {
            assert(!stands_at(list, address, i));
        } else {
            assert(after[i] == list[i] && after[j] == list[j]);
        }
    }
}

/// A stable sort of a list with every address once has every address once.
proof fn lemma_sorted_distinct_addresses(
    all: Seq<RememberedEndpointView>,
    sorted: Seq<RememberedEndpointView>,
    key: spec_fn(RememberedEndpointView) -> Seq<int>,
)
    requires
        distinct_addresses(all),
        is_stable_sort(all, sorted, key),
    ensures
        distinct_addresses(sorted),
{
    let tag = |endpoint: RememberedEndpointView| endpoint.address;
    assert forall|i: int, j: int| 0 <= i < j < all.len() implies tag(all[i]) != tag(all[j]) by {
        assert(all[i].address != all[j].address);
    }
    lemma_stable_sort_distinct(all, sorted, key, tag);
    assert forall|i: int, j: int| 0 <= i < j < sorted.len() implies (#[trigger] sorted[i]).address
        != (#[trigger] sorted[j]).address by {
        assert(tag(sorted[i]) != tag(sorted[j]));
    }
}

/// Endpoints of paired devices, kept in memory.
pub struct InMemoryEndpointRepository {
    endpoints: Table<DeviceId, Vec<RememberedEndpoint>>,
}

/// What the endpoint lists of a map say.
pub open spec fn endpoint_lists(map: Map<Seq<char>, Vec<RememberedEndpoint>>) -> Map<
    Seq<char>,
    Seq<RememberedEndpointView>,
> {
    map.map_values(|list: Vec<RememberedEndpoint>| views(list@))
}

/// What is remembered of a device: nothing where it is not known.
pub open spec fn remembered(
    map: Map<Seq<char>, Seq<RememberedEndpointView>>,
    peer_id: Seq<char>,
) -> Seq<RememberedEndpointView> {
    if map.contains_key(peer_id) {
        map[peer_id]
    } else {
        seq![]
    }
}

impl View for InMemoryEndpointRepository {
    type V = Map<Seq<char>, Seq<RememberedEndpointView>>;

    closed spec fn view(&self) -> Map<Seq<char>, Seq<RememberedEndpointView>> {
        endpoint_lists(self.endpoints@)
    }
}

/// Every list is within the limit and holds every address once.
pub open spec fn lists_in_order(map: Map<Seq<char>, Seq<RememberedEndpointView>>) -> bool {
    forall|peer_id: Seq<char>| #[trigger]
        map.contains_key(peer_id) ==> map[peer_id].len() <= MAX_ENDPOINTS && distinct_addresses(
            map[peer_id],
        )
}

impl InMemoryEndpointRepository {
    #[verifier::type_invariant]
    spec fn consistent(self) -> bool {
        lists_in_order(self@)
    }

    /// A repository that remembers nothing.
    pub fn new() -> (repository: Self)
        ensures
            repository@ == Map::<Seq<char>, Seq<RememberedEndpointView>>::empty(),
    {
        let repository = InMemoryEndpointRepository { endpoints: Table::new() };
        assert(repository@ =~= Map::<Seq<char>, Seq<RememberedEndpointView>>::empty());
        repository
    }

    /// The endpoints of a device that may be dialed at `now`, the most recent
    /// success first.
    pub fn endpoints(&self, peer_id: &DeviceId, now: i64) -> (list: Vec<RememberedEndpoint>)
        ensures
            is_top(ready(remembered(self@, peer_id@), now), views(list@), recent_key()),
            lists_in_order(self@),
    {
        proof {
            use_type_invariant(self);
        }
        let mut kept: Vec<RememberedEndpoint> = Vec::new();
        let ghost pred = |endpoint: RememberedEndpointView| endpoint.retry_after_ms <= now;
        let ghost all = remembered(self@, peer_id@);
        match self.endpoints.get(peer_id) {
            Some(list) => {
                assert(all == views(list@));
                let mut i: usize = 0;
                assert(views(kept@) =~= all.take(0).filter(pred)) by {
                    all.take(0).lemma_filter_len(pred);
                }
                while i < list.len()
                    invariant
                        i <= list.len(),
                        all == views(list@),
                        pred == (|endpoint: RememberedEndpointView| endpoint.retry_after_ms <= now),
                        views(kept@) == all.take(i as int).filter(pred),
                    decreases list.len() - i,
                {
                    let ghost before = kept@;
                    if list[i].retry_after_ms <= now {
                        kept.push(list[i].clone());
                    }
                    proof {
                        let last = all[i as int];
                        assert(last == list@[i as int]@);
                        assert(all.take(i + 1) =~= all.take(i as int).push(last));
                        all.take(i as int).lemma_filter_push(last, pred);
                        if pred(last) {
                            assert(views(kept@) =~= views(before).push(last));
                        }
                    }
                    i += 1;
                }
                assert(all.take(i as int) =~= all);
            },
            None => {
                assert(all =~= seq![]);
                assert(views(kept@) =~= all.filter(pred)) by {
                    all.lemma_filter_len(pred);
                }
            },
        }
        assert(views(kept@) == ready(all, now));
        let ghost key = |endpoint: RememberedEndpoint| (recent_key())(endpoint@);
        let before = |a: &RememberedEndpoint, b: &RememberedEndpoint| -> (before: bool)
            ensures
                before == seq_before((recent_key())(a@), (recent_key())(b@)),
        {
            more_recent(
                a.last_success_at_ms,
                a.last_seen_at_ms,
                b.last_success_at_ms,
                b.last_seen_at_ms,
            )
        };
        let ghost unsorted = kept@;
        let mut sorted = stable_sort(kept, before, Ghost(key));
        let ghost order = views(sorted@);
        proof {
            lemma_stable_sort_views(unsorted, sorted@, key, recent_key());
            assert(is_stable_sort(ready(all, now), order, recent_key()));
        }
        sorted.truncate(MAX_ENDPOINTS);
        assert(views(sorted@) =~= order.take(
            if order.len() > MAX_ENDPOINTS {
                MAX_ENDPOINTS as int
            } else {
                order.len() as int
            },
        ));
        sorted
    }

    /// Remembers that a device proved its identity at an endpoint.
    pub fn record_authenticated(
        &mut self,
        peer_id: &DeviceId,
        address: SocketAddress,
        certificate_sha256: [u8; 32],
        source: EndpointSource,
        now: i64,
    )
        ensures
            final(self)@.contains_key(peer_id@),
            is_top(
                succeeded(
                    remembered(old(self)@, peer_id@),
                    peer_id@,
                    address,
                    certificate_sha256@,
                    source,
                    now,
                ),
                final(self)@[peer_id@],
                success_key(),
            ),
            final(self)@.remove(peer_id@) == old(self)@.remove(peer_id@),
            lists_in_order(final(self)@),
    {
        proof {
            use_type_invariant(&*self);
        }
        let ghost start = self@;
        let mut table: Table<DeviceId, Vec<RememberedEndpoint>> = Table::new();
        assert(endpoint_lists(table@) =~= Map::<Seq<char>, Seq<RememberedEndpointView>>::empty());
        std::mem::swap(&mut table, &mut self.endpoints);
        let found = table.remove(peer_id);
        let ghost all = remembered(start, peer_id@);
        let mut list: Vec<RememberedEndpoint> = match found {
            Some(list) => list,
            None => Vec::new(),
        };
        assert(views(list@) =~= all);
        let ghost after = succeeded(all, peer_id@, address, certificate_sha256@, source, now);
        match position(&list, address) {
            Some(i) => {
                let known = list[i].clone();
                let refreshed = RememberedEndpoint {
                    peer_id: known.peer_id,
                    address,
                    certificate_sha256,
                    source,
                    network_scope: network_scope(address),
                    first_seen_at_ms: known.first_seen_at_ms,
                    last_seen_at_ms: now,
                    last_success_at_ms: now,
                    consecutive_failures: 0,
                    retry_after_ms: 0,
                };
                list[i] = refreshed;
                proof {
                    lemma_position_unique(all, address, i as int);
                    assert(views(list@) =~= after);
                }
            },
            None => {
                list.push(
                    RememberedEndpoint {
                        peer_id: peer_id.clone(),
                        address,
                        certificate_sha256,
                        source,
                        network_scope: network_scope(address),
                        first_seen_at_ms: now,
                        last_seen_at_ms: now,
                        last_success_at_ms: now,
                        consecutive_failures: 0,
                        retry_after_ms: 0,
                    },
                );
                assert(views(list@) =~= after);
            },
        }
        let ghost key = |endpoint: RememberedEndpoint| (success_key())(endpoint@);
        let before = |a: &RememberedEndpoint, b: &RememberedEndpoint| -> (before: bool)
            ensures
                before == seq_before((success_key())(a@), (success_key())(b@)),
        {
            later_success(a.last_success_at_ms, b.last_success_at_ms)
        };
        let ghost unsorted = list@;
        let mut sorted = stable_sort(list, before, Ghost(key));
        let ghost order = views(sorted@);
        proof {
            lemma_stable_sort_views(unsorted, sorted@, key, success_key());
            assert(is_stable_sort(after, order, success_key()));
            lemma_succeeded_distinct(all, peer_id@, address, certificate_sha256@, source, now);
            lemma_sorted_distinct_addresses(after, order, success_key());
        }
        sorted.truncate(MAX_ENDPOINTS);
        let ghost kept = order.take(
            if order.len() > MAX_ENDPOINTS {
                MAX_ENDPOINTS as int
            } else {
                order.len() as int
            },
        );
        assert(views(sorted@) =~= kept);
        assert(is_top(after, kept, success_key()));
        assert(distinct_addresses(kept)) by {
            assert(forall|i: int| 0 <= i < kept.len() ==> kept[i] == #[trigger] order[i]);
        }
        let ghost smaller = endpoint_lists(table@);
        assert(smaller =~= start.remove(peer_id@));
        table.insert(peer_id.clone(), sorted);
        assert(endpoint_lists(table@) =~= start.insert(peer_id@, kept));
        self.endpoints = table;
        assert(self@.remove(peer_id@) =~= start.remove(peer_id@));
    }

    /// Remembers that dialing an endpoint failed.
    pub fn record_failure(&mut self, peer_id: &DeviceId, address: SocketAddress, now: i64)
        ensures
            final(self)@ == if old(self)@.contains_key(peer_id@) {
                old(self)@.insert(peer_id@, failed(old(self)@[peer_id@], address, now))
            } else {
                old(self)@
            },
            lists_in_order(final(self)@),
    {
        proof {
            use_type_invariant(&*self);
        }
        let ghost start = self@;
        let mut table: Table<DeviceId, Vec<RememberedEndpoint>> = Table::new();
        assert(endpoint_lists(table@) =~= Map::<Seq<char>, Seq<RememberedEndpointView>>::empty());
        std::mem::swap(&mut table, &mut self.endpoints);
        if let Some(found) = table.remove(peer_id) {
            let mut list = found;
            let ghost all = views(list@);
            assert(start.contains_key(peer_id@));
            assert(all == start[peer_id@]);
            if let Some(i) = position(&list, address) {
                let mut endpoint = list[i].clone();
                endpoint.consecutive_failures = endpoint.consecutive_failures.saturating_add(1);
                let wait: i64 = backoff(endpoint.consecutive_failures);
                endpoint.retry_after_ms = if now > i64::MAX - wait {
                    i64::MAX
                } else {
                    now + wait
                };
                list[i] = endpoint;
                proof {
                    lemma_position_unique(all, address, i as int);
                    assert(views(list@) =~= failed(all, address, now));
                }
            } else {
                assert(failed(all, address, now) == all);
            }
            let ghost after = views(list@);
            assert(distinct_addresses(after)) by {
                assert(forall|i: int|
                    0 <= i < after.len() ==> (#[trigger] after[i]).address == all[i].address);
            }
            table.insert(peer_id.clone(), list);
            assert(endpoint_lists(table@) =~= start.insert(peer_id@, after));
        } else {
            assert(endpoint_lists(table@) =~= start);
        }
        self.endpoints = table;
    }

    /// Forgets everything about a device.
    pub fn forget(&mut self, peer_id: &DeviceId)
        ensures
            final(self)@ == old(self)@.remove(peer_id@),
    {
        proof {
            use_type_invariant(&*self);
        }
        let ghost start = self@;
        let mut table: Table<DeviceId, Vec<RememberedEndpoint>> = Table::new();
        assert(endpoint_lists(table@) =~= Map::<Seq<char>, Seq<RememberedEndpointView>>::empty());
        std::mem::swap(&mut table, &mut self.endpoints);
        let _ = table.remove(peer_id);
        assert(endpoint_lists(table@) =~= start.remove(peer_id@));
        self.endpoints = table;
    }
}

impl Default for InMemoryEndpointRepository {
    fn default() -> (repository: Self)
        ensures
            repository@ == Map::<Seq<char>, Seq<RememberedEndpointView>>::empty(),
    {
        InMemoryEndpointRepository::new()
    }
}

proof fn lemma_position_unique(list: Seq<RememberedEndpointView>, address: SocketAddress, i: int)
    requires
        distinct_addresses(list),
        stands_at(list, address, i),
    ensures
        (choose|k: int| #[trigger] stands_at(list, address, k)) == i,
{
    let k = choose|k: int| #[trigger] stands_at(list, address, k);
    if k < i {
        assert(list[k].address != list[i].address);
    } else if i < k {
        assert(list[i].address != list[k].address);
    }
}

/// Where the endpoint with this address stands.
fn position(list: &Vec<RememberedEndpoint>, address: SocketAddress) -> (found: Option<usize>)
    ensures
        match found {
            Some(i) => stands_at(views(list@), address, i as int),
            None => forall|i: int| !#[trigger] stands_at(views(list@), address, i),
        },
{
    let mut i: usize = 0;
    while i < list.len()
        invariant
            i <= list.len(),
            forall|j: int| 0 <= j < i ==> list@[j].address != address,
        decreases list.len() - i,
    {
        if list[i].address == address {
            return Some(i);
        }
        i += 1;
    }
    None
}

/// Whether the first success is later than the second.
fn later_success(a: i64, b: i64) -> (before: bool)
    ensures
        before == seq_before(seq![-a as int], seq![-b as int]),
{
    proof {
        let x = seq![-a as int];
        let y = seq![-b as int];
        if a > b {
            assert(splits_at(x, y, 0));
        } else if seq_before(x, y) {
            let at = choose|at: int| #[trigger] splits_at(x, y, at);
            assert(at == 0);
        }
    }
    a > b
}

/// Whether the first success is later than the second, or the same with a later
/// sighting.
fn more_recent(a: i64, a_seen: i64, b: i64, b_seen: i64) -> (before: bool)
    ensures
        before == seq_before(
            seq![-a as int, -a_seen as int],
            seq![-b as int, -b_seen as int],
        ),
{
    let before = a > b || (a == b && a_seen > b_seen);
    proof {
        let x = seq![-a as int, -a_seen as int];
        let y = seq![-b as int, -b_seen as int];
        if a > b {
            assert(splits_at(x, y, 0));
        } else if a == b && a_seen > b_seen {
            assert(splits_at(x, y, 1));
        } else if seq_before(x, y) {
            let at = choose|at: int| #[trigger] splits_at(x, y, at);
            assert(at == 0 || at == 1);
        }
    }
    before
}

/// An IPv4 endpoint belongs to the network of its first three bytes, and an IPv6
/// endpoint to its interface.
pub proof fn law_network_of_an_endpoint(
    a: u8,
    b: u8,
    c: u8,
    d: u8,
    ip: u32,
    long: u128,
    port: u16,
    flow_info: u32,
    scope_id: u32,
)
    requires
        ip == a * 0x100_0000 + b * 0x1_0000 + c * 0x100 + d,
    ensures
        scope_of(SocketAddress::V4 { ip, port }) == decimal(a as nat) + "."@ + decimal(b as nat)
            + "."@ + decimal(c as nat) + ".0/24"@,
        scope_of(SocketAddress::V6 { ip: long, port, flow_info, scope_id }) == "ipv6-if-"@ + decimal(
            scope_id as nat,
        ),
{
    assert(ip == ipv4_bits(a, b, c, d));
    lemma_octets_of_bits(a, b, c, d);
}

} // verus!
