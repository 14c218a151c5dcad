//! The stored form of peers, grants and endpoints, and how it is read back.
//!
//! A row comes as the values of its columns. Where a column could not be read,
//! the reason stands in its place.
use vstd::prelude::*;
use vstd::string::*;

use crate::address::SocketAddress;
use crate::endpoint::{EndpointSource, RememberedEndpoint, RememberedEndpointView};
use crate::error::{result_view, NetworkError, NetworkErrorView};
use crate::peer::{
    views, CapabilityId, DeviceId, DevicePublicKey, Grant, GrantConstraints, GrantDirection,
    GrantView, PeerRecord, PeerRecordView, TrustState,
};
use crate::primitives::to_array32;
use crate::runtime::protocol::{check_view, reason_view};
use crate::text::joined;

verus! {

/// How long a success at an endpoint counts: 90 days, in milliseconds.
pub const MAX_ENDPOINT_AGE_MS: i64 = 7_776_000_000;

/// The reason of a result that is none.
pub open spec fn reason<T>(result: Result<T, String>) -> Option<Seq<char>> {
    match result {
        Ok(_) => None,
        Err(reason) => Some(reason@),
    }
}

/// The first reason of a list.
pub open spec fn first_reason(reasons: Seq<Option<Seq<char>>>) -> Option<Seq<char>>
    decreases reasons.len(),
{
    if reasons.len() == 0 {
        None
    } else {
        match first_reason(reasons.drop_last()) {
            Some(reason) => Some(reason),
            None => reasons.last(),
        }
    }
}

/// Nothing is wrong before position `i`, and something is there.
proof fn lemma_first_reason(reasons: Seq<Option<Seq<char>>>, i: int)
    requires
        0 <= i < reasons.len(),
        reasons[i] is Some,
        forall|j: int| 0 <= j < i ==> #[trigger] reasons[j] is None,
    ensures
        first_reason(reasons) == reasons[i],
    decreases reasons.len(),
{
    let rest = reasons.drop_last();
    if i < rest.len() {
        assert(rest[i] == reasons[i]);
        assert forall|j: int| 0 <= j < i implies #[trigger] rest[j] is None by {
            assert(reasons[j] is None);
        }
        lemma_first_reason(rest, i);
    } else {
        assert forall|j: int| 0 <= j < rest.len() implies #[trigger] rest[j] is None by {
            assert(reasons[j] is None);
        }
        lemma_no_reason(rest);
    }
}

proof fn lemma_no_reason(reasons: Seq<Option<Seq<char>>>)
    requires
        forall|j: int| 0 <= j < reasons.len() ==> #[trigger] reasons[j] is None,
    ensures
        first_reason(reasons) is None,
    decreases reasons.len(),
{
    if reasons.len() > 0 {
        let rest = reasons.drop_last();
        assert forall|j: int| 0 <= j < rest.len() implies #[trigger] rest[j] is None by {
            assert(reasons[j] is None);
        }
        lemma_no_reason(rest);
        assert(reasons[reasons.len() - 1] is None);
    }
}

/// The number that stands for a trust state in storage.
pub open spec fn trust_number(value: TrustState) -> i64 {
    match value {
        TrustState::Paired => 1,
        TrustState::Revoked => 2,
    }
}

/// The trust state that a stored number stands for.
pub open spec fn trust_from(value: i64) -> Result<TrustState, Seq<char>> {
    if value == 1 {
        Ok(TrustState::Paired)
    } else if value == 2 {
        Ok(TrustState::Revoked)
    } else {
        Err("unknown trust state"@)
    }
}

/// What a plain result with a reason says.
pub open spec fn outcome<T>(result: Result<T, String>) -> Result<T, Seq<char>> {
    match result {
        Ok(value) => Ok(value),
        Err(reason) => Err(reason@),
    }
}

/// The number that stands for a trust state in storage.
pub fn encode_trust(value: TrustState) -> (number: i64)
    ensures
        number == trust_number(value),
{
    match value {
        TrustState::Paired => 1,
        TrustState::Revoked => 2,
    }
}

/// The trust state that a stored number stands for.
pub fn decode_trust(value: i64) -> (state: Result<TrustState, String>)
    ensures
        outcome(state) == trust_from(value),
{
    if value == 1 {
        Ok(TrustState::Paired)
    } else if value == 2 {
        Ok(TrustState::Revoked)
    } else {
        Err("unknown trust state".to_owned())
    }
}

/// The number that stands for a direction in storage.
pub open spec fn direction_number(value: GrantDirection) -> i64 {
    match value {
        GrantDirection::Inbound => 1,
        GrantDirection::Outbound => 2,
    }
}

/// The direction that a stored number stands for.
pub open spec fn direction_from(value: i64) -> Result<GrantDirection, Seq<char>> {
    if value == 1 {
        Ok(GrantDirection::Inbound)
    } else if value == 2 {
        Ok(GrantDirection::Outbound)
    } else {
        Err("unknown grant direction"@)
    }
}

/// The number that stands for a direction in storage.
pub fn encode_direction(value: GrantDirection) -> (number: i64)
    ensures
        number == direction_number(value),
{
    match value {
        GrantDirection::Inbound => 1,
        GrantDirection::Outbound => 2,
    }
}

/// The direction that a stored number stands for.
pub fn decode_direction(value: i64) -> (direction: Result<GrantDirection, String>)
    ensures
        outcome(direction) == direction_from(value),
{
    if value == 1 {
        Ok(GrantDirection::Inbound)
    } else if value == 2 {
        Ok(GrantDirection::Outbound)
    } else {
        Err("unknown grant direction".to_owned())
    }
}

/// Stored trust states and directions read back as themselves, and nothing else
/// reads as one.
pub proof fn law_stored_numbers_round_trip(
    state: TrustState,
    direction: GrantDirection,
    value: i64,
)
    ensures
        trust_from(trust_number(state)) == Ok::<_, Seq<char>>(state),
        direction_from(direction_number(direction)) == Ok::<_, Seq<char>>(direction),
        trust_from(value) matches Ok(read) ==> trust_number(read) == value,
        direction_from(value) matches Ok(read) ==> direction_number(read) == value,
{
}

/// The columns of a stored peer. The device id and the key are already read as
/// such, and it was checked whether they belong together.
pub struct PeerRow {
    pub device_id: Result<DeviceId, String>,
    pub public_key: Result<DevicePublicKey, String>,
    pub key_binding: Result<(), String>,
    pub display_name: Result<String, String>,
    pub platform: Result<String, String>,
    pub model: Result<String, String>,
    pub trust_state: Result<i64, String>,
    pub auto_connect: Result<i64, String>,
    pub paired_at_ms: Result<i64, String>,
    pub updated_at_ms: Result<i64, String>,
}

/// The reason why a stored number is no trust state.
pub open spec fn trust_reason(value: Result<i64, String>) -> Option<Seq<char>> {
    match value {
        Err(reason) => Some(reason@),
        Ok(number) => match trust_from(number) {
            Ok(_) => None,
            Err(reason) => Some(reason),
        },
    }
}

/// What is wrong with the columns of a peer, in the order in which they are
/// read.
pub open spec fn peer_reasons(row: PeerRow) -> Seq<Option<Seq<char>>> {
    seq![
        reason(row.device_id),
        reason(row.public_key),
        reason(row.key_binding),
        reason(row.display_name),
        reason(row.platform),
        reason(row.model),
        trust_reason(row.trust_state),
        reason(row.auto_connect),
        reason(row.paired_at_ms),
        reason(row.updated_at_ms),
    ]
}

/// The peer that columns without a fault say.
pub open spec fn peer_in(row: PeerRow) -> PeerRecordView {
    PeerRecordView {
        device_id: row.device_id->Ok_0@,
        public_key: row.public_key->Ok_0@,
        display_name: row.display_name->Ok_0@,
        platform: row.platform->Ok_0@,
        model: row.model->Ok_0@,
        trust_state: trust_from(row.trust_state->Ok_0)->Ok_0,
        auto_connect: row.auto_connect->Ok_0 != 0,
        paired_at_ms: row.paired_at_ms->Ok_0,
        updated_at_ms: row.updated_at_ms->Ok_0,
    }
}

/// Reads a stored peer. The first column at fault gives the reason.
pub fn decode_peer(row: PeerRow) -> (peer: Result<PeerRecord, String>)
    ensures
        reason_view(peer) == match first_reason(peer_reasons(row)) {
            Some(reason) => Err(reason),
            None => Ok(peer_in(row)),
        },
{
    let ghost reasons = peer_reasons(row);
    let ghost whole = row;
    proof {
        assert forall|i: int| 0 <= i < reasons.len() && reasons[i] is Some && (forall|j: int|
            0 <= j < i ==> #[trigger] reasons[j] is None) implies first_reason(reasons)
            == #[trigger] reasons[i] by {
            lemma_first_reason(reasons, i);
        }
    }
    let device_id = match row.device_id {
        Ok(id) => id,
        Err(reason) => {
            assert(reasons[0] == Some(reason@));
            return Err(reason);
        },
    };
    assert(reasons[0] is None);
    let public_key = match row.public_key {
        Ok(key) => key,
        Err(reason) => {
            assert(reasons[1] == Some(reason@));
            return Err(reason);
        },
    };
    assert(reasons[1] is None);
    if let Err(reason) = row.key_binding {
        assert(reasons[2] == Some(reason@));
        return Err(reason);
    }
    assert(reasons[2] is None);
    let display_name = match row.display_name {
        Ok(text) => text,
        Err(reason) => {
            assert(reasons[3] == Some(reason@));
            return Err(reason);
        },
    };
    assert(reasons[3] is None);
    let platform = match row.platform {
        Ok(text) => text,
        Err(reason) => {
            assert(reasons[4] == Some(reason@));
            return Err(reason);
        },
    };
    assert(reasons[4] is None);
    let model = match row.model {
        Ok(text) => text,
        Err(reason) => {
            assert(reasons[5] == Some(reason@));
            return Err(reason);
        },
    };
    assert(reasons[5] is None);
    let trust_state = match row.trust_state {
        Ok(number) => match decode_trust(number) {
            Ok(state) => state,
            Err(reason) => {
                assert(reasons[6] == Some(reason@));
                return Err(reason);
            },
        },
        Err(reason) => {
            assert(reasons[6] == Some(reason@));
            return Err(reason);
        },
    };
    assert(reasons[6] is None);
    let auto_connect: i64 = match row.auto_connect {
        Ok(number) => number,
        Err(reason) => {
            assert(reasons[7] == Some(reason@));
            return Err(reason);
        },
    };
    assert(reasons[7] is None);
    let paired_at_ms: i64 = match row.paired_at_ms {
        Ok(number) => number,
        Err(reason) => {
            assert(reasons[8] == Some(reason@));
            return Err(reason);
        },
    };
    assert(reasons[8] is None);
    let updated_at_ms: i64 = match row.updated_at_ms {
        Ok(number) => number,
        Err(reason) => {
            assert(reasons[9] == Some(reason@));
            return Err(reason);
        },
    };
    assert(reasons[9] is None);
    proof {
        lemma_no_reason(reasons);
    }
    Ok(
        PeerRecord {
            device_id,
            public_key,
            display_name,
            platform,
            model,
            trust_state,
            auto_connect: auto_connect != 0,
            paired_at_ms,
            updated_at_ms,
        },
    )
}

/// The columns of a stored grant. The capability is its name where this device
/// does not know it, and the constraints are already read as such.
pub struct GrantRow {
    pub capability: Result<Result<CapabilityId, String>, String>,
    pub peer_id: Result<DeviceId, String>,
    pub direction: Result<i64, String>,
    pub constraints: Result<GrantConstraints, String>,
    pub granted_at_ms: Result<i64, String>,
}

/// What is wrong with the columns of a grant, in the order in which they are
/// read.
pub open spec fn grant_reasons(row: GrantRow) -> Seq<Option<Seq<char>>> {
    seq![
        match row.capability {
            Err(reason) => Some(reason@),
            Ok(Err(name)) => Some("unknown capability "@ + name@),
            Ok(Ok(_)) => None,
        },
        reason(row.peer_id),
        match row.direction {
            Err(reason) => Some(reason@),
            Ok(number) => match direction_from(number) {
                Ok(_) => None,
                Err(reason) => Some(reason),
            },
        },
        reason(row.constraints),
        reason(row.granted_at_ms),
    ]
}

/// The grant that columns without a fault say.
pub open spec fn grant_in(row: GrantRow) -> GrantView {
    GrantView {
        peer_id: row.peer_id->Ok_0@,
        capability: row.capability->Ok_0->Ok_0,
        direction: direction_from(row.direction->Ok_0)->Ok_0,
        constraints: row.constraints->Ok_0@,
        granted_at_ms: row.granted_at_ms->Ok_0,
    }
}

/// Reads a stored grant. The first column at fault gives the reason.
pub fn decode_grant(row: GrantRow) -> (grant: Result<Grant, String>)
    ensures
        reason_view(grant) == match first_reason(grant_reasons(row)) {
            Some(reason) => Err(reason),
            None => Ok(grant_in(row)),
        },
{
    let ghost reasons = grant_reasons(row);
    proof {
        assert forall|i: int| 0 <= i < reasons.len() && reasons[i] is Some && (forall|j: int|
            0 <= j < i ==> #[trigger] reasons[j] is None) implies first_reason(reasons)
            == #[trigger] reasons[i] by {
            lemma_first_reason(reasons, i);
        }
    }
    let capability = match row.capability {
        Ok(Ok(capability)) => capability,
        Ok(Err(name)) => {
            let reason = joined("unknown capability ", name.as_str());
            assert(reasons[0] == Some(reason@));
            return Err(reason);
        },
        Err(reason) => {
            assert(reasons[0] == Some(reason@));
            return Err(reason);
        },
    };
    assert(reasons[0] is None);
    let peer_id = match row.peer_id {
        Ok(id) => id,
        Err(reason) => {
            assert(reasons[1] == Some(reason@));
            return Err(reason);
        },
    };
    assert(reasons[1] is None);
    let direction = match row.direction {
        Ok(number) => match decode_direction(number) {
            Ok(direction) => direction,
            Err(reason) => {
                assert(reasons[2] == Some(reason@));
                return Err(reason);
            },
        },
        Err(reason) => {
            assert(reasons[2] == Some(reason@));
            return Err(reason);
        },
    };
    assert(reasons[2] is None);
    let constraints = match row.constraints {
        Ok(constraints) => constraints,
        Err(reason) => {
            assert(reasons[3] == Some(reason@));
            return Err(reason);
        },
    };
    assert(reasons[3] is None);
    let granted_at_ms: i64 = match row.granted_at_ms {
        Ok(number) => number,
        Err(reason) => {
            assert(reasons[4] == Some(reason@));
            return Err(reason);
        },
    };
    assert(reasons[4] is None);
    proof {
        lemma_no_reason(reasons);
    }
    Ok(Grant { peer_id, capability, direction, constraints, granted_at_ms })
}

/// The columns of a stored endpoint. The device id and the address are already
/// read as such.
pub struct EndpointRow {
    pub peer_id: Result<DeviceId, String>,
    pub address: Result<SocketAddress, String>,
    pub certificate_sha256: Result<Vec<u8>, String>,
    pub consecutive_failures: Result<i64, String>,
    pub source: Result<i64, String>,
    pub network_scope: Result<String, String>,
    pub first_seen_at_ms: Result<i64, String>,
    pub last_seen_at_ms: Result<i64, String>,
    pub last_success_at_ms: Result<i64, String>,
    pub retry_after_ms: Result<i64, String>,
}

/// What is wrong with the columns of an endpoint, in the order in which they are
/// read.
pub open spec fn endpoint_reasons(row: EndpointRow) -> Seq<Option<Seq<char>>> {
    seq![
        reason(row.peer_id),
        reason(row.address),
        match row.certificate_sha256 {
            Err(reason) => Some(reason@),
            Ok(bytes) => if bytes@.len() == 32 {
                None
            } else {
                Some("remembered certificate digest length"@)
            },
        },
        reason(row.consecutive_failures),
        match row.source {
            Err(reason) => Some(reason@),
            Ok(number) => if EndpointSource::from_number(number) is Ok {
                None
            } else {
                Some("unknown remembered endpoint source"@)
            },
        },
        reason(row.network_scope),
        reason(row.first_seen_at_ms),
        reason(row.last_seen_at_ms),
        reason(row.last_success_at_ms),
        reason(row.retry_after_ms),
    ]
}

/// A stored count, the largest one where the number is none.
pub open spec fn count_from(number: i64) -> u32 {
    if 0 <= number <= u32::MAX {
        number as u32
    } else {
        u32::MAX
    }
}

/// The endpoint that columns without a fault say.
pub open spec fn endpoint_in(row: EndpointRow) -> RememberedEndpointView {
    RememberedEndpointView {
        peer_id: row.peer_id->Ok_0@,
        address: row.address->Ok_0,
        certificate_sha256: row.certificate_sha256->Ok_0@,
        source: EndpointSource::from_number(row.source->Ok_0)->Ok_0,
        network_scope: row.network_scope->Ok_0@,
        first_seen_at_ms: row.first_seen_at_ms->Ok_0,
        last_seen_at_ms: row.last_seen_at_ms->Ok_0,
        last_success_at_ms: row.last_success_at_ms->Ok_0,
        consecutive_failures: count_from(row.consecutive_failures->Ok_0),
        retry_after_ms: row.retry_after_ms->Ok_0,
    }
}

/// Reads a stored endpoint. The first column at fault gives the error.
pub fn decode_endpoint(row: EndpointRow) -> (endpoint: Result<RememberedEndpoint, NetworkError>)
    ensures
        result_view(endpoint) == match first_reason(endpoint_reasons(row)) {
            Some(reason) => Err(NetworkErrorView::Repository(reason)),
            None => Ok(endpoint_in(row)),
        },
{
    let ghost reasons = endpoint_reasons(row);
    proof {
        assert forall|i: int| 0 <= i < reasons.len() && reasons[i] is Some && (forall|j: int|
            0 <= j < i ==> #[trigger] reasons[j] is None) implies first_reason(reasons)
            == #[trigger] reasons[i] by {
            lemma_first_reason(reasons, i);
        }
    }
    let peer_id = match row.peer_id {
        Ok(id) => id,
        Err(reason) => {
            assert(reasons[0] == Some(reason@));
            return Err(NetworkError::Repository(reason));
        },
    };
    assert(reasons[0] is None);
    let address = match row.address {
        Ok(address) => address,
        Err(reason) => {
            assert(reasons[1] == Some(reason@));
            return Err(NetworkError::Repository(reason));
        },
    };
    assert(reasons[1] is None);
    let certificate_sha256 = match row.certificate_sha256 {
        Ok(bytes) => match to_array32(bytes.as_slice()) {
            Some(digest) => digest,
            None => {
                let reason = "remembered certificate digest length".to_owned();
                assert(reasons[2] == Some(reason@));
                return Err(NetworkError::Repository(reason));
            },
        },
        Err(reason) => {
            assert(reasons[2] == Some(reason@));
            return Err(NetworkError::Repository(reason));
        },
    };
    assert(certificate_sha256@.len() == 32);
    assert(reasons[2] is None);
    let failures: i64 = match row.consecutive_failures {
        Ok(number) => number,
        Err(reason) => {
            assert(reasons[3] == Some(reason@));
            return Err(NetworkError::Repository(reason));
        },
    };
    assert(reasons[3] is None);
    let source = match row.source {
        Ok(number) => match EndpointSource::decode(number) {
            Ok(source) => source,
            Err(error) => {
                assert(reasons[4] == Some("unknown remembered endpoint source"@));
                return Err(error);
            },
        },
        Err(reason) => {
            assert(reasons[4] == Some(reason@));
            return Err(NetworkError::Repository(reason));
        },
    };
    assert(reasons[4] is None);
    let network_scope = match row.network_scope {
        Ok(text) => text,
        Err(reason) => {
            assert(reasons[5] == Some(reason@));
            return Err(NetworkError::Repository(reason));
        },
    };
    assert(reasons[5] is None);
    let first_seen_at_ms: i64 = match row.first_seen_at_ms {
        Ok(number) => number,
        Err(reason) => {
            assert(reasons[6] == Some(reason@));
            return Err(NetworkError::Repository(reason));
        },
    };
    assert(reasons[6] is None);
    let last_seen_at_ms: i64 = match row.last_seen_at_ms {
        Ok(number) => number,
        Err(reason) => {
            assert(reasons[7] == Some(reason@));
            return Err(NetworkError::Repository(reason));
        },
    };
    assert(reasons[7] is None);
    let last_success_at_ms: i64 = match row.last_success_at_ms {
        Ok(number) => number,
        Err(reason) => {
            assert(reasons[8] == Some(reason@));
            return Err(NetworkError::Repository(reason));
        },
    };
    assert(reasons[8] is None);
    let retry_after_ms: i64 = match row.retry_after_ms {
        Ok(number) => number,
        Err(reason) => {
            assert(reasons[9] == Some(reason@));
            return Err(NetworkError::Repository(reason));
        },
    };
    assert(reasons[9] is None);
    proof {
        lemma_no_reason(reasons);
    }
    let consecutive_failures: u32 = if 0 <= failures && failures <= u32::MAX as i64 {
        failures as u32
    } else {
        u32::MAX
    };
    Ok(
        RememberedEndpoint {
            peer_id,
            address,
            certificate_sha256,
            source,
            network_scope,
            first_seen_at_ms,
            last_seen_at_ms,
            last_success_at_ms,
            consecutive_failures,
            retry_after_ms,
        },
    )
}

/// Checks what is stored for a pairing. `key_binding` tells whether the key of
/// the peer belongs to its id.
pub fn save_pairing(peer_id: &DeviceId, key_binding: Result<(), String>, grants: &Vec<Grant>) -> (result:
    Result<(), String>)
    ensures
        check_view(result) == if check_view(key_binding) is Err {
            check_view(key_binding)
        } else if exists|i: int|
            0 <= i < grants@.len() && (#[trigger] views(grants@)[i]).peer_id != peer_id@ {
            Err("pairing grant belongs to another peer"@)
        } else {
            Ok(())
        },
{
    if let Err(reason) = key_binding {
        return Err(reason);
    }
    let ghost list = views(grants@);
    let mut i: usize = 0;
    while i < grants.len()
        invariant
            i <= grants.len(),
            list == views(grants@),
            check_view(key_binding) is Ok,
            forall|j: int| 0 <= j < i ==> (#[trigger] list[j]).peer_id == peer_id@,
        decreases grants.len() - i,
    {
        assert(list[i as int] == grants@[i as int]@);
        if !grants[i].peer_id.same(peer_id) {
            return Err("pairing grant belongs to another peer".to_owned());
        }
        i += 1;
    }
    Ok(())
}

/// The earliest success for which an endpoint is still offered at `now`.
pub fn oldest_success(now: i64) -> (oldest: i64)
    ensures
        oldest == if now - MAX_ENDPOINT_AGE_MS < i64::MIN {
            i64::MIN as int
        } else {
            now - MAX_ENDPOINT_AGE_MS
        },
{
    if now < i64::MIN + MAX_ENDPOINT_AGE_MS {
        i64::MIN
    } else {
        now - MAX_ENDPOINT_AGE_MS
    }
}

/// The numbers that stand for trust states and directions in storage, and for how
/// often an endpoint failed: a number that is no count stands for the highest.
pub proof fn law_stored_numbers(value: i64)
    ensures
        trust_from(value) == Ok::<_, Seq<char>>(TrustState::Paired) <==> value == 1,
        trust_from(value) == Ok::<_, Seq<char>>(TrustState::Revoked) <==> value == 2,
        trust_from(value) is Err <==> value < 1 || value > 2,
        direction_from(value) == Ok::<_, Seq<char>>(GrantDirection::Inbound) <==> value == 1,
        direction_from(value) == Ok::<_, Seq<char>>(GrantDirection::Outbound) <==> value == 2,
        direction_from(value) is Err <==> value < 1 || value > 2,
        0 <= value <= 0xffff_ffff ==> count_from(value) == value,
        value < 0 || value > 0xffff_ffff ==> count_from(value) == 0xffff_ffff,
{
}

/// A stored peer is read exactly where each of its columns was, its key belongs to
/// its id, and its trust state is one. It says what the columns say.
pub proof fn law_stored_peer_is_read(row: PeerRow)
    ensures
        first_reason(peer_reasons(row)) is None <==> {
            &&& row.device_id is Ok
            &&& row.public_key is Ok
            &&& row.key_binding is Ok
            &&& row.display_name is Ok
            &&& row.platform is Ok
            &&& row.model is Ok
            &&& row.trust_state == Ok::<i64, String>(1) || row.trust_state == Ok::<i64, String>(2)
            &&& row.auto_connect is Ok
            &&& row.paired_at_ms is Ok
            &&& row.updated_at_ms is Ok
        },
        first_reason(peer_reasons(row)) is None ==> {
            let peer = peer_in(row);
            &&& peer.device_id == row.device_id->Ok_0@
            &&& peer.public_key == row.public_key->Ok_0@
            &&& peer.display_name == row.display_name->Ok_0@
            &&& peer.platform == row.platform->Ok_0@
            &&& peer.model == row.model->Ok_0@
            &&& peer.trust_state == TrustState::Paired <==> row.trust_state->Ok_0 == 1
            &&& peer.auto_connect <==> row.auto_connect->Ok_0 != 0
            &&& peer.paired_at_ms == row.paired_at_ms->Ok_0
            &&& peer.updated_at_ms == row.updated_at_ms->Ok_0
        },
{
    let reasons = peer_reasons(row);
    if first_reason(reasons) is None {
        lemma_every_reason(reasons);
        assert(reasons[0] is None && reasons[1] is None && reasons[2] is None && reasons[3] is None
            && reasons[4] is None && reasons[5] is None && reasons[6] is None && reasons[7] is None
            && reasons[8] is None && reasons[9] is None);
    } else if forall|i: int| 0 <= i < reasons.len() ==> #[trigger] reasons[i] is None {
        lemma_no_reason(reasons);
    }
}

/// A stored grant is read exactly where each of its columns was, its capability is
/// known and its direction is one. It says what the columns say.
pub proof fn law_stored_grant_is_read(row: GrantRow)
    ensures
        first_reason(grant_reasons(row)) is None <==> {
            &&& row.capability is Ok
            &&& row.capability->Ok_0 is Ok
            &&& row.peer_id is Ok
            &&& row.direction == Ok::<i64, String>(1) || row.direction == Ok::<i64, String>(2)
            &&& row.constraints is Ok
            &&& row.granted_at_ms is Ok
        },
        first_reason(grant_reasons(row)) is None ==> {
            let grant = grant_in(row);
            &&& grant.peer_id == row.peer_id->Ok_0@
            &&& grant.capability == row.capability->Ok_0->Ok_0
            &&& grant.direction == GrantDirection::Inbound <==> row.direction->Ok_0 == 1
            &&& grant.constraints == row.constraints->Ok_0@
            &&& grant.granted_at_ms == row.granted_at_ms->Ok_0
        },
{
    let reasons = grant_reasons(row);
    if first_reason(reasons) is None {
        lemma_every_reason(reasons);
        assert(reasons[0] is None && reasons[1] is None && reasons[2] is None && reasons[3] is None
            && reasons[4] is None);
    } else if forall|i: int| 0 <= i < reasons.len() ==> #[trigger] reasons[i] is None {
        lemma_no_reason(reasons);
    }
}

/// A stored endpoint is read exactly where each of its columns was, the digest of
/// its certificate has 32 bytes and its source is one. It says what the columns
/// say.
pub proof fn law_stored_endpoint_is_read(row: EndpointRow)
    ensures
        first_reason(endpoint_reasons(row)) is None <==> {
            &&& row.peer_id is Ok
            &&& row.address is Ok
            &&& row.certificate_sha256 is Ok
            &&& row.certificate_sha256->Ok_0@.len() == 32
            &&& row.consecutive_failures is Ok
            &&& row.source is Ok
            &&& 1 <= row.source->Ok_0 <= 6
            &&& row.network_scope is Ok
            &&& row.first_seen_at_ms is Ok
            &&& row.last_seen_at_ms is Ok
            &&& row.last_success_at_ms is Ok
            &&& row.retry_after_ms is Ok
        },
        first_reason(endpoint_reasons(row)) is None ==> {
            let endpoint = endpoint_in(row);
            &&& endpoint.peer_id == row.peer_id->Ok_0@
            &&& endpoint.address == row.address->Ok_0
            &&& endpoint.certificate_sha256 == row.certificate_sha256->Ok_0@
            &&& endpoint.network_scope == row.network_scope->Ok_0@
            &&& endpoint.first_seen_at_ms == row.first_seen_at_ms->Ok_0
            &&& endpoint.last_seen_at_ms == row.last_seen_at_ms->Ok_0
            &&& endpoint.last_success_at_ms == row.last_success_at_ms->Ok_0
            &&& endpoint.retry_after_ms == row.retry_after_ms->Ok_0
            &&& 0 <= row.consecutive_failures->Ok_0 <= 0xffff_ffff ==> endpoint.consecutive_failures
                == row.consecutive_failures->Ok_0
            &&& endpoint.source == EndpointSource::Mdns <==> row.source->Ok_0 == 1
            &&& endpoint.source == EndpointSource::Inbound <==> row.source->Ok_0 == 2
            &&& endpoint.source == EndpointSource::History <==> row.source->Ok_0 == 3
            &&& endpoint.source == EndpointSource::Scan <==> row.source->Ok_0 == 4
            &&& endpoint.source == EndpointSource::Manual <==> row.source->Ok_0 == 5
            &&& endpoint.source == EndpointSource::Relayed <==> row.source->Ok_0 == 6
        },
{
    let reasons = endpoint_reasons(row);
    if first_reason(reasons) is None {
        lemma_every_reason(reasons);
        assert(reasons[0] is None && reasons[1] is None && reasons[2] is None && reasons[3] is None
            && reasons[4] is None && reasons[5] is None && reasons[6] is None && reasons[7] is None
            && reasons[8] is None && reasons[9] is None);
    } else if forall|i: int| 0 <= i < reasons.len() ==> #[trigger] reasons[i] is None {
        lemma_no_reason(reasons);
    }
}

/// Without a first reason there is none.
proof fn lemma_every_reason(reasons: Seq<Option<Seq<char>>>)
    requires
        first_reason(reasons) is None,
    ensures
        forall|i: int| 0 <= i < reasons.len() ==> #[trigger] reasons[i] is None,
    decreases reasons.len(),
{
    if reasons.len() > 0 {
        let rest = reasons.drop_last();
        lemma_every_reason(rest);
        assert forall|i: int| 0 <= i < reasons.len() implies #[trigger] reasons[i] is None by {
            if i < rest.len() {
                assert(rest[i] is None);
            }
        }
    }
}

/// Of several faults the first one is told.
pub proof fn law_first_fault_is_told(reasons: Seq<Option<Seq<char>>>, i: int)
    requires
        0 <= i < reasons.len(),
        reasons[i] is Some,
        forall|j: int| 0 <= j < i ==> #[trigger] reasons[j] is None,
    ensures
        first_reason(reasons) == reasons[i],
{
    lemma_first_reason(reasons, i);
}

} // verus!
