//! Pairing: what a device asks for, what the other side may answer, and what is
//! stored in the end.
use vstd::prelude::*;
use vstd::string::*;
use vstd::utf8::*;

use crate::error::{
    plain_result, protocol, repository_failed, result_view, NetworkError, NetworkErrorView,
};
use crate::order::{
    has_key, is_stable_sort, is_strictly_sorted, lemma_before_asymmetric, lemma_before_total,
    lemma_stable_sort_contains, lemma_stable_sort_distinct, lemma_stable_sort_views, seq_before,
    splits_at, stable_sort,
};
use crate::peer::{
    copy_texts, texts, views, CapabilityId, CapabilityRole, DeviceId, Grant, GrantConstraints,
    GrantConstraintsView, GrantDirection, GrantView, PeerRecord, PeerRecordView, TrustState,
};
use crate::runtime::session::{Session, SessionKind, SessionPeer, SessionPeerView};
use crate::text::{byte_len, joined, same_text, utf8_len};

verus! {

/// How many shares one grant may name.
pub const MAX_SHARES: usize = 128;

/// How many grants one pairing may ask for.
pub const MAX_REQUESTED_GRANTS: usize = 64;

/// The feature on whose stream a pairing is negotiated.
pub const PAIRING_FEATURE: &'static str = "arcrelay.pairing";

/// Share ids: at most 128, each of 1 to 256 bytes.
pub open spec fn shares_in_bounds(share_ids: Seq<Seq<char>>) -> bool {
    &&& share_ids.len() <= MAX_SHARES
    &&& forall|i: int|
        0 <= i < share_ids.len() ==> 0 < #[trigger] utf8_len(share_ids[i]) <= 256
}

/// The constraints can stand on a grant of the capability: shares only on file
/// access, writable exactly where the capability writes, each share once.
pub open spec fn request_in_bounds(
    capability: CapabilityId,
    constraints: GrantConstraintsView,
) -> bool {
    match constraints {
        GrantConstraintsView::Unlimited => true,
        GrantConstraintsView::RemoteFileShares { share_ids, writable } => {
            &&& capability.role == if writable {
                CapabilityRole::RemoteFilesWrite
            } else {
                CapabilityRole::RemoteFilesRead
            }
            &&& shares_in_bounds(share_ids)
            &&& share_ids.no_duplicates()
        },
    }
}

fn check_shares(share_ids: &Vec<String>) -> (answer: bool)
    ensures
        answer == shares_in_bounds(texts(share_ids@)),
{
    if share_ids.len() > MAX_SHARES {
        assert(texts(share_ids@).len() > MAX_SHARES);
        return false;
    }
    let mut i: usize = 0;
    while i < share_ids.len()
        invariant
            i <= share_ids.len(),
            forall|j: int| 0 <= j < i ==> 0 < utf8_len((#[trigger] share_ids@[j])@) <= 256,
        decreases share_ids.len() - i,
    {
        let len: usize = byte_len(share_ids[i].as_str());
        if len == 0 || len > 256 {
            assert(!(0 < utf8_len(texts(share_ids@)[i as int]) <= 256));
            return false;
        }
        i += 1;
    }
    assert forall|j: int| 0 <= j < texts(share_ids@).len() implies 0 < #[trigger] utf8_len(
        texts(share_ids@)[j],
    ) <= 256 by {
        assert(texts(share_ids@)[j] == share_ids@[j]@);
    }
    true
}

fn all_different(list: &Vec<String>) -> (answer: bool)
    ensures
        answer == texts(list@).no_duplicates(),
{
    let mut i: usize = 0;
    while i < list.len()
        invariant
            i <= list.len(),
            forall|a: int, b: int|
                0 <= a < b < i ==> (#[trigger] list@[a])@ != (#[trigger] list@[b])@,
        decreases list.len() - i,
    {
        let mut j: usize = 0;
        while j < i
            invariant
                j <= i < list.len(),
                forall|a: int| 0 <= a < j ==> (#[trigger] list@[a])@ != list@[i as int]@,
            decreases i - j,
        {
            if same_text(list[j].as_str(), list[i].as_str()) {
                assert(texts(list@)[j as int] == texts(list@)[i as int]);
                return false;
            }
            j += 1;
        }
        i += 1;
    }
    assert forall|a: int, b: int|
        0 <= a < texts(list@).len() && 0 <= b < texts(list@).len() && a != b implies texts(list@)[a]
        != texts(list@)[b] by {
        if a < b {
            assert(list@[a]@ != list@[b]@);
        } else {
            assert(list@[b]@ != list@[a]@);
        }
    }
    true
}

/// Checks the constraints of a grant that this device asks for or makes.
pub fn validate_local_grant_request(
    capability: CapabilityId,
    constraints: &GrantConstraints,
) -> (outcome: Result<(), NetworkError>)
    ensures
        plain_result(outcome) == if request_in_bounds(capability, constraints@) {
            Ok(())
        } else {
            Err(NetworkErrorView::Protocol("invalid requested grant constraints"@))
        },
{
    match constraints {
        GrantConstraints::Unlimited => Ok(()),
        GrantConstraints::RemoteFileShares { share_ids, writable } => {
            let reads = capability.role == CapabilityRole::RemoteFilesRead;
            let writes = capability.role == CapabilityRole::RemoteFilesWrite;
            if !(reads || writes) || (reads && *writable) || (writes && !*writable)
                || !check_shares(share_ids) || !all_different(share_ids) {
                return Err(protocol("invalid requested grant constraints"));
            }
            Ok(())
        },
    }
}

/// Constraints of a grant on the wire.
#[derive(Debug)]
pub struct RemoteFileShareConstraints {
    pub share_ids: Vec<String>,
    pub writable: bool,
}

/// The constraints message of a grant. It is empty where the sender knows kinds
/// of constraints that this device does not.
#[derive(Debug)]
pub struct WireGrantConstraints {
    pub kind: Option<RemoteFileShareConstraints>,
}

/// What a constraints message says.
pub open spec fn wire_constraints(message: Option<WireGrantConstraints>) -> Option<
    Option<(Seq<Seq<char>>, bool)>,
> {
    match message {
        None => None,
        Some(message) => Some(
            match message.kind {
                None => None,
                Some(shares) => Some((texts(shares.share_ids@), shares.writable)),
            },
        ),
    }
}

/// The constraints message of a grant.
pub open spec fn encoded_constraints(constraints: GrantConstraintsView) -> Option<
    Option<(Seq<Seq<char>>, bool)>,
> {
    match constraints {
        GrantConstraintsView::Unlimited => None,
        GrantConstraintsView::RemoteFileShares { share_ids, writable } => Some(
            Some((share_ids, writable)),
        ),
    }
}

/// The constraints that a message stands for.
pub open spec fn decoded_constraints(message: Option<Option<(Seq<Seq<char>>, bool)>>) -> Result<
    GrantConstraintsView,
    NetworkErrorView,
> {
    match message {
        None => Ok(GrantConstraintsView::Unlimited),
        Some(None) => Err(NetworkErrorView::Protocol("unknown or empty grant constraints"@)),
        Some(Some((share_ids, writable))) => if !shares_in_bounds(share_ids) {
            Err(NetworkErrorView::Protocol("invalid remote-file grant constraints"@))
        } else if !share_ids.no_duplicates() {
            Err(NetworkErrorView::Protocol("duplicate remote-file share constraint"@))
        } else {
            Ok(GrantConstraintsView::RemoteFileShares { share_ids, writable })
        },
    }
}

/// Constraints that may be asked for read back from their message.
pub proof fn law_constraints_round_trip(capability: CapabilityId, constraints: GrantConstraintsView)
    requires
        request_in_bounds(capability, constraints),
    ensures
        decoded_constraints(encoded_constraints(constraints)) == Ok::<_, NetworkErrorView>(
            constraints,
        ),
{
}

/// The constraints message of a grant.
pub fn encode_grant_constraints(constraints: &GrantConstraints) -> (message: Option<
    WireGrantConstraints,
>)
    ensures
        wire_constraints(message) == encoded_constraints(constraints@),
{
    match constraints {
        GrantConstraints::Unlimited => None,
        GrantConstraints::RemoteFileShares { share_ids, writable } => Some(
            WireGrantConstraints {
                kind: Some(
                    RemoteFileShareConstraints {
                        share_ids: copy_texts(share_ids),
                        writable: *writable,
                    },
                ),
            },
        ),
    }
}

/// The constraints that a message stands for.
pub fn decode_grant_constraints(message: &Option<WireGrantConstraints>) -> (constraints: Result<
    GrantConstraints,
    NetworkError,
>)
    ensures
        result_view(constraints) == decoded_constraints(wire_constraints(*message)),
{
    match message {
        None => Ok(GrantConstraints::Unlimited),
        Some(message) => match &message.kind {
            None => Err(protocol("unknown or empty grant constraints")),
            Some(shares) => {
                if !check_shares(&shares.share_ids) {
                    return Err(protocol("invalid remote-file grant constraints"));
                }
                if !all_different(&shares.share_ids) {
                    return Err(protocol("duplicate remote-file share constraint"));
                }
                Ok(
                    GrantConstraints::RemoteFileShares {
                        share_ids: copy_texts(&shares.share_ids),
                        writable: shares.writable,
                    },
                )
            },
        },
    }
}

/// A grant that a device asks for when pairing.
#[derive(Debug)]
pub struct PairingGrantRequest {
    pub capability: CapabilityId,
    /// Direction in the grants of the device that asks.
    pub direction: GrantDirection,
    pub constraints: GrantConstraints,
}

/// What a [`PairingGrantRequest`] says.
pub struct PairingGrantRequestView {
    pub capability: CapabilityId,
    pub direction: GrantDirection,
    pub constraints: GrantConstraintsView,
}

impl View for PairingGrantRequest {
    type V = PairingGrantRequestView;

    open spec fn view(&self) -> PairingGrantRequestView {
        PairingGrantRequestView {
            capability: self.capability,
            direction: self.direction,
            constraints: self.constraints@,
        }
    }
}

impl PairingGrantRequest {
    /// Asks to use a capability of the other device.
    pub fn outbound(capability: CapabilityId) -> (request: Self)
        ensures
            request@ == (PairingGrantRequestView {
                capability,
                direction: GrantDirection::Outbound,
                constraints: GrantConstraintsView::Unlimited,
            }),
    {
        PairingGrantRequest {
            capability,
            direction: GrantDirection::Outbound,
            constraints: GrantConstraints::Unlimited,
        }
    }

    /// Offers a capability of this device.
    pub fn inbound(capability: CapabilityId) -> (request: Self)
        ensures
            request@ == (PairingGrantRequestView {
                capability,
                direction: GrantDirection::Inbound,
                constraints: GrantConstraintsView::Unlimited,
            }),
    {
        PairingGrantRequest {
            capability,
            direction: GrantDirection::Inbound,
            constraints: GrantConstraints::Unlimited,
        }
    }
}

/// What tells the grants of a peer apart: the capability and the direction.
pub open spec fn slot(capability: CapabilityId, direction: GrantDirection) -> Seq<int> {
    seq![
        capability.order as int,
        match direction {
            GrantDirection::Inbound => 0int,
            GrantDirection::Outbound => 1int,
        },
    ]
}

/// Place of a request among others.
pub open spec fn request_key() -> spec_fn(PairingGrantRequestView) -> Seq<int> {
    |request: PairingGrantRequestView| slot(request.capability, request.direction)
}

/// Place of a grant among others.
pub open spec fn grant_key() -> spec_fn(GrantView) -> Seq<int> {
    |grant: GrantView| slot(grant.capability, grant.direction)
}

fn same_slot(
    a: CapabilityId,
    a_direction: GrantDirection,
    b: CapabilityId,
    b_direction: GrantDirection,
) -> (same: bool)
    ensures
        same == (slot(a, a_direction) == slot(b, b_direction)),
{
    let same = a.order == b.order && a_direction == b_direction;
    proof {
        let x = slot(a, a_direction);
        let y = slot(b, b_direction);
        if x == y {
            assert(x[0] == y[0] && x[1] == y[1]);
        }
    }
    same
}

fn slot_before(
    a: CapabilityId,
    a_direction: GrantDirection,
    b: CapabilityId,
    b_direction: GrantDirection,
) -> (before: bool)
    ensures
        before == seq_before(slot(a, a_direction), slot(b, b_direction)),
{
    let before = a.order < b.order || (a.order == b.order && a_direction == GrantDirection::Inbound
        && b_direction == GrantDirection::Outbound);
    proof {
        let x = slot(a, a_direction);
        let y = slot(b, b_direction);
        if a.order < b.order {
            assert(splits_at(x, y, 0));
        } else if before {
            assert(splits_at(x, y, 1));
        } else if seq_before(x, y) {
            let at = choose|at: int| #[trigger] splits_at(x, y, at);
            assert(at == 0 || at == 1);
        }
    }
    before
}

/// Some item before position `i` has the key of the item there.
pub open spec fn repeats(list: Seq<PairingGrantRequestView>, i: int) -> bool {
    exists|j: int| 0 <= j < i && (request_key())(#[trigger] list[j]) == (request_key())(list[i])
}

/// What is wrong with the request at position `i`, after those before it.
pub open spec fn request_error(list: Seq<PairingGrantRequestView>, i: int) -> Option<
    NetworkErrorView,
> {
    if !request_in_bounds(list[i].capability, list[i].constraints) {
        Some(NetworkErrorView::Protocol("invalid requested grant constraints"@))
    } else if repeats(list, i) {
        Some(NetworkErrorView::Protocol("duplicate requested pairing grant"@))
    } else if i >= MAX_REQUESTED_GRANTS {
        Some(NetworkErrorView::Protocol("too many requested pairing grants"@))
    } else {
        None
    }
}

/// What is wrong with the first of `count` requests that is wrong.
pub open spec fn first_error(list: Seq<PairingGrantRequestView>, count: nat) -> Option<
    NetworkErrorView,
>
    decreases count,
{
    if count == 0 {
        None
    } else {
        match first_error(list, (count - 1) as nat) {
            Some(error) => Some(error),
            None => request_error(list, count - 1),
        }
    }
}

/// A grant as it is offered to the other side, seen from there.
#[derive(Debug)]
pub struct OfferedGrant {
    pub capability: CapabilityId,
    pub direction: GrantDirection,
    pub constraints: Option<WireGrantConstraints>,
    pub granted_at_ms: i64,
}

/// The other direction: what one side uses, the other offers.
pub open spec fn opposite(direction: GrantDirection) -> GrantDirection {
    match direction {
        GrantDirection::Inbound => GrantDirection::Outbound,
        GrantDirection::Outbound => GrantDirection::Inbound,
    }
}

/// The other direction.
pub fn opposite_of(direction: GrantDirection) -> (other: GrantDirection)
    ensures
        other == opposite(direction),
{
    match direction {
        GrantDirection::Inbound => GrantDirection::Outbound,
        GrantDirection::Outbound => GrantDirection::Inbound,
    }
}

/// The offer says what the request says, seen from the other side.
pub open spec fn offers(offer: OfferedGrant, request: PairingGrantRequestView) -> bool {
    &&& offer.capability == request.capability
    &&& offer.direction == opposite(request.direction)
    &&& wire_constraints(offer.constraints) == encoded_constraints(request.constraints)
    &&& offer.granted_at_ms == 0
}

/// Two grants are under one key exactly where capability and direction agree.
pub proof fn law_key_of_a_grant(
    a: CapabilityId,
    a_direction: GrantDirection,
    b: CapabilityId,
    b_direction: GrantDirection,
)
    ensures
        slot(a, a_direction) == slot(b, b_direction) <==> a.order == b.order && a_direction
            == b_direction,
{
    let x = slot(a, a_direction);
    let y = slot(b, b_direction);
    if x == y {
        assert(x[0] == y[0] && x[1] == y[1]);
    }
}

/// Requests are taken exactly where there are at most 64, no two of them are for
/// one capability in one direction, and each may be made: without limits, or for
/// shares of files, at most 128 different ones under names of 1 to 256 bytes, to
/// be written exactly where the capability is the one to write.
pub proof fn law_requests_that_are_taken(list: Seq<PairingGrantRequestView>)
    ensures
        first_error(list, list.len()) is None <==> {
            &&& list.len() <= 64
            &&& forall|i: int, j: int|
                0 <= i < j < list.len() ==> !((#[trigger] list[i]).capability.order == (
                #[trigger] list[j]).capability.order && list[i].direction == list[j].direction)
            &&& forall|i: int|
                0 <= i < list.len() ==> ((#[trigger] list[i]).constraints matches
                    GrantConstraintsView::RemoteFileShares { share_ids, writable } ==> {
                    &&& writable ==> list[i].capability.role == CapabilityRole::RemoteFilesWrite
                    &&& !writable ==> list[i].capability.role == CapabilityRole::RemoteFilesRead
                    &&& share_ids.len() <= 128
                    &&& share_ids.no_duplicates()
                    &&& forall|k: int|
                        0 <= k < share_ids.len() ==> 1 <= encode_utf8(#[trigger] share_ids[k]).len()
                            <= 256
                })
        },
{
    lemma_no_error(list, list.len());
    assert forall|i: int, j: int| 0 <= i < j < list.len() && !repeats(list, j) implies !((
    #[trigger] list[i]).capability.order == (#[trigger] list[j]).capability.order
        && list[i].direction == list[j].direction) by {
        law_key_of_a_grant(
            list[i].capability,
            list[i].direction,
            list[j].capability,
            list[j].direction,
        );
        assert((request_key())(list[i]) != (request_key())(list[j]));
    }
    assert forall|j: int| 0 <= j < list.len() && repeats(list, j) implies exists|i: int|
        0 <= i < j && (#[trigger] list[i]).capability.order == list[j].capability.order
            && list[i].direction == list[j].direction by {
        let i = choose|i: int|
            0 <= i < j && (request_key())(#[trigger] list[i]) == (request_key())(list[j]);
        law_key_of_a_grant(
            list[i].capability,
            list[i].direction,
            list[j].capability,
            list[j].direction,
        );
        assert(list[i].capability.order == list[j].capability.order);
    }
    if first_error(list, list.len()) is None {
        if list.len() > 64 {
            assert(request_error(list, 64) is None);
        }
        assert forall|i: int, j: int| 0 <= i < j < list.len() implies !((
        #[trigger] list[i]).capability.order == (#[trigger] list[j]).capability.order
            && list[i].direction == list[j].direction) by {
            assert(request_error(list, j) is None);
        }
        assert forall|i: int| 0 <= i < list.len() implies request_in_bounds(
            (#[trigger] list[i]).capability,
            list[i].constraints,
        ) by {
            assert(request_error(list, i) is None);
        }
        assert forall|i: int| 0 <= i < list.len() implies ((#[trigger] list[i]).constraints matches
            GrantConstraintsView::RemoteFileShares { share_ids, writable } ==> {
            &&& writable ==> list[i].capability.role == CapabilityRole::RemoteFilesWrite
            &&& !writable ==> list[i].capability.role == CapabilityRole::RemoteFilesRead
            &&& share_ids.len() <= 128
            &&& share_ids.no_duplicates()
            &&& forall|k: int|
                0 <= k < share_ids.len() ==> 1 <= encode_utf8(#[trigger] share_ids[k]).len() <= 256
        }) by {
            if let GrantConstraintsView::RemoteFileShares { share_ids, writable } =
                list[i].constraints {
                assert forall|k: int| 0 <= k < share_ids.len() implies 1 <= encode_utf8(
                    #[trigger] share_ids[k],
                ).len() <= 256 by {
                    assert(0 < utf8_len(share_ids[k]) <= 256);
                }
            }
        }
    }
}

proof fn lemma_no_error(list: Seq<PairingGrantRequestView>, count: nat)
    requires
        count <= list.len(),
    ensures
        first_error(list, count) is None <==> forall|i: int|
            0 <= i < count ==> (#[trigger] request_error(list, i)) is None,
    decreases count,
{
    if count > 0 {
        lemma_no_error(list, (count - 1) as nat);
        if first_error(list, count) is None {
            assert(request_error(list, count - 1) is None);
        }
        if forall|i: int| 0 <= i < count ==> (#[trigger] request_error(list, i)) is None {
            assert(request_error(list, count - 1) is None);
        }
    }
}

/// The offer of a request asks the other side for the same capability, in the
/// direction as it stands from there, and under the same limits: none where none
/// were named, and otherwise those shares and that right. Read back, they are
/// those of the request.
pub proof fn law_offer_says_what_is_asked(offer: OfferedGrant, request: PairingGrantRequestView)
    requires
        offers(offer, request),
        request_in_bounds(request.capability, request.constraints),
    ensures
        offer.capability == request.capability,
        offer.direction != request.direction,
        request.constraints is Unlimited <==> offer.constraints is None,
        request.constraints matches GrantConstraintsView::RemoteFileShares { share_ids, writable }
            ==> {
            &&& offer.constraints matches Some(message)
            &&& message.kind matches Some(shares)
            &&& texts(shares.share_ids@) == share_ids
            &&& shares.writable == writable
        },
        decoded_constraints(wire_constraints(offer.constraints)) == Ok::<_, NetworkErrorView>(
            request.constraints,
        ),
        offer.granted_at_ms == 0,
{
    law_constraints_round_trip(request.capability, request.constraints);
}

/// The grants that a pairing asks for, and the message that asks for them.
#[derive(Debug)]
pub struct PairingOffer {
    pub requested: Vec<PairingGrantRequest>,
    pub offered: Vec<OfferedGrant>,
}

/// Checks the grants that a pairing asks for, and puts them in the form in which
/// they are sent: each once, in order.
pub fn begin_pairing(requested: Vec<PairingGrantRequest>) -> (offer: Result<
    PairingOffer,
    NetworkError,
>)
    ensures
        match offer {
            Err(error) => first_error(views(requested@), requested@.len()) == Some(error@),
            Ok(offer) => {
                &&& first_error(views(requested@), requested@.len()) is None
                &&& is_stable_sort(views(requested@), views(offer.requested@), request_key())
                &&& is_strictly_sorted(views(offer.requested@), request_key())
                &&& offer.offered@.len() == offer.requested@.len()
                &&& forall|i: int|
                    0 <= i < offer.offered@.len() ==> offers(
                        #[trigger] offer.offered@[i],
                        offer.requested@[i]@,
                    )
            },
        },
{
    let ghost all = views(requested@);
    let mut i: usize = 0;
    while i < requested.len()
        invariant
            i <= requested.len(),
            all == views(requested@),
            first_error(all, i as nat) is None,
            forall|a: int, b: int|
                0 <= a < b < i ==> (request_key())(#[trigger] all[a]) != (request_key())(
                    #[trigger] all[b],
                ),
        decreases requested.len() - i,
    {
        assert(all[i as int] == requested@[i as int]@);
        if let Err(error) = validate_local_grant_request(
            requested[i].capability,
            &requested[i].constraints,
        ) {
            proof {
                assert(first_error(all, (i + 1) as nat) == Some(error@));
                lemma_error_stays(all, (i + 1) as nat, all.len());
            }
            return Err(error);
        }
        let mut j: usize = 0;
        while j < i
            invariant
                j <= i < requested.len(),
                all == views(requested@),
                first_error(all, i as nat) is None,
                request_in_bounds(all[i as int].capability, all[i as int].constraints),
                forall|a: int|
                    0 <= a < j ==> (request_key())(#[trigger] all[a]) != (request_key())(
                        all[i as int],
                    ),
            decreases i - j,
        {
            assert(all[j as int] == requested@[j as int]@);
            assert(all[i as int] == requested@[i as int]@);
            if same_slot(
                requested[j].capability,
                requested[j].direction,
                requested[i].capability,
                requested[i].direction,
            ) {
                let error = protocol("duplicate requested pairing grant");
                proof {
                    assert((request_key())(all[j as int]) == (request_key())(all[i as int]));
                    assert(repeats(all, i as int));
                    assert(first_error(all, (i + 1) as nat) == Some(error@));
                    lemma_error_stays(all, (i + 1) as nat, all.len());
                }
                return Err(error);
            }
            j += 1;
        }
        assert(!repeats(all, i as int));
        if i >= MAX_REQUESTED_GRANTS {
            let error = protocol("too many requested pairing grants");
            proof {
                assert(first_error(all, (i + 1) as nat) == Some(error@));
                lemma_error_stays(all, (i + 1) as nat, all.len());
            }
            return Err(error);
        }
        assert(first_error(all, (i + 1) as nat) is None);
        i += 1;
    }
    let ghost unsorted = requested@;
    let ghost key = |request: PairingGrantRequest| (request_key())(request@);
    let before = |a: &PairingGrantRequest, b: &PairingGrantRequest| -> (before: bool)
        ensures
            before == seq_before((request_key())(a@), (request_key())(b@)),
    {
        slot_before(a.capability, a.direction, b.capability, b.direction)
    };
    let sorted = stable_sort(requested, before, Ghost(key));
    proof {
        lemma_stable_sort_views(unsorted, sorted@, key, request_key());
        lemma_sorted_is_strict(all, views(sorted@), request_key());
    }
    let mut offered: Vec<OfferedGrant> = Vec::new();
    let mut k: usize = 0;
    while k < sorted.len()
        invariant
            k <= sorted.len(),
            offered.len() == k,
            forall|a: int| 0 <= a < k ==> offers(#[trigger] offered@[a], sorted@[a]@),
        decreases sorted.len() - k,
    {
        offered.push(
            OfferedGrant {
                capability: sorted[k].capability,
                direction: opposite_of(sorted[k].direction),
                constraints: encode_grant_constraints(&sorted[k].constraints),
                granted_at_ms: 0,
            },
        );
        k += 1;
    }
    Ok(PairingOffer { requested: sorted, offered })
}

proof fn lemma_error_stays(list: Seq<PairingGrantRequestView>, count: nat, more: nat)
    requires
        count <= more,
        first_error(list, count) is Some,
    ensures
        first_error(list, more) == first_error(list, count),
    decreases more,
{
    if count < more {
        lemma_error_stays(list, count, (more - 1) as nat);
    }
}

/// Items with different keys are strictly ordered by sorting them.
proof fn lemma_sorted_is_strict<T>(items: Seq<T>, sorted: Seq<T>, key: spec_fn(T) -> Seq<int>)
    requires
        is_stable_sort(items, sorted, key),
        forall|a: int, b: int|
            0 <= a < b < items.len() ==> key(#[trigger] items[a]) != key(#[trigger] items[b]),
    ensures
        is_strictly_sorted(sorted, key),
{
    assert forall|a: int, b: int| 0 <= a < b < items.len() implies key(items[a]) != key(
        items[b],
    ) by {}
    lemma_stable_sort_distinct(items, sorted, key, key);
    assert forall|a: int, b: int| 0 <= a < b < sorted.len() implies seq_before(
        key(#[trigger] sorted[a]),
        key(#[trigger] sorted[b]),
    ) by {
        assert(key(sorted[a]) != key(sorted[b]));
        lemma_before_total(key(sorted[a]), key(sorted[b]));
        assert(!seq_before(key(sorted[b]), key(sorted[a])));
    }
}

/// A pairing that waits for the other side to approve the code.
pub struct PendingPairing {
    peer: SessionPeer,
    verification_code: String,
    requested: Vec<PairingGrantRequest>,
}

impl PendingPairing {
    #[verifier::type_invariant]
    spec fn consistent(self) -> bool {
        is_strictly_sorted(views(self.requested@), request_key())
    }

    /// The device at the other end.
    pub closed spec fn other(&self) -> SessionPeerView {
        self.peer@
    }

    /// The code that both sides show.
    pub closed spec fn code(&self) -> Seq<char> {
        self.verification_code@
    }

    /// The grants that were asked for, each once and in order.
    pub closed spec fn asked(&self) -> Seq<PairingGrantRequestView> {
        views(self.requested@)
    }

    /// A pairing on a session, with the grants that were asked for.
    pub fn new(session: &Session, requested: Vec<PairingGrantRequest>) -> (pending: Self)
        requires
            is_strictly_sorted(views(requested@), request_key()),
        ensures
            pending.other() == session@.peer,
            pending.code() == session@.verification_code,
            pending.asked() == views(requested@),
    {
        PendingPairing {
            peer: session.peer.clone(),
            verification_code: session.verification_code.clone(),
            requested,
        }
    }

    /// The device at the other end.
    pub fn peer(&self) -> (peer: &SessionPeer)
        ensures
            peer@ == self.other(),
    {
        &self.peer
    }

    /// The code that both sides show.
    pub fn verification_code(&self) -> (code: &str)
        ensures
            code@ == self.code(),
    {
        self.verification_code.as_str()
    }

    /// The constraints that were asked for with this capability and direction.
    fn expected(&self, capability: CapabilityId, direction: GrantDirection) -> (constraints: Option<
        &GrantConstraints,
    >)
        ensures
            match constraints {
                Some(constraints) => asked_for(
                    self.asked(),
                    slot(capability, direction),
                ) == Some(constraints@),
                None => asked_for(self.asked(), slot(capability, direction)) is None,
            },
    {
        proof {
            use_type_invariant(self);
        }
        let ghost key = slot(capability, direction);
        let ghost asked = self.asked();
        let mut i: usize = 0;
        while i < self.requested.len()
            invariant
                i <= self.requested.len(),
                asked == views(self.requested@),
                key == slot(capability, direction),
                is_strictly_sorted(asked, request_key()),
                forall|j: int| 0 <= j < i ==> (request_key())(#[trigger] asked[j]) != key,
            decreases self.requested.len() - i,
        {
            assert(asked[i as int] == self.requested@[i as int]@);
            if same_slot(
                self.requested[i].capability,
                self.requested[i].direction,
                capability,
                direction,
            ) {
                proof {
                    assert((request_key())(asked[i as int]) == key);
                    let k = choose|k: int|
                        0 <= k < asked.len() && (request_key())(#[trigger] asked[k]) == key;
                    if k < i {
                        assert(seq_before(
                            (request_key())(asked[k]),
                            (request_key())(asked[i as int]),
                        ));
                        crate::order::lemma_before_asymmetric(key, key);
                    } else if i < k {
                        assert(seq_before(
                            (request_key())(asked[i as int]),
                            (request_key())(asked[k]),
                        ));
                        crate::order::lemma_before_asymmetric(key, key);
                    }
                }
                return Some(&self.requested[i].constraints);
            }
            i += 1;
        }
        assert(!has_key(asked, request_key(), key));
        None
    }
}

/// The constraints that were asked for under a key.
pub open spec fn asked_for(asked: Seq<PairingGrantRequestView>, key: Seq<int>) -> Option<
    GrantConstraintsView,
> {
    if has_key(asked, request_key(), key) {
        let i = choose|i: int| 0 <= i < asked.len() && (request_key())(#[trigger] asked[i]) == key;
        Some(asked[i].constraints)
    } else {
        None
    }
}

/// A grant in the answer of the other side, seen from there. The capability is
/// its name where this device does not know it, and the direction is missing
/// where its number is not one.
#[derive(Debug)]
pub struct ReceivedGrant {
    pub capability: Result<CapabilityId, String>,
    pub direction: Option<GrantDirection>,
    pub constraints: Option<WireGrantConstraints>,
}

/// The decision of the other side.
#[derive(Debug)]
pub struct PairingResult {
    pub paired: bool,
    pub peer_id: String,
    pub error: String,
}

/// The answer of the other side.
#[derive(Debug)]
pub struct PairingResponse {
    pub result: Option<PairingResult>,
    pub granted_grants: Vec<ReceivedGrant>,
}

/// Why a pairing failed, and whether the session is closed for it.
#[derive(Debug)]
pub struct PairingFailure {
    pub error: NetworkError,
    pub close_session: bool,
}

/// A pairing that succeeded.
#[derive(Debug)]
pub struct PairingOutcome {
    pub peer: SessionPeer,
    pub granted: Vec<Grant>,
}

/// Whether the other side paired with this device, as it should say.
pub open spec fn decision(result: Option<PairingResult>, peer_id: Seq<char>) -> Result<
    (),
    (NetworkErrorView, bool),
> {
    match result {
        None => Err((NetworkErrorView::Protocol("pairing result is missing"@), false)),
        Some(result) => if result.paired && result.peer_id@ == peer_id {
            Ok(())
        } else {
            Err(
                (
                    NetworkErrorView::Protocol(
                        if result.error@.len() == 0 {
                            "pairing rejected"@
                        } else {
                            result.error@
                        },
                    ),
                    true,
                ),
            )
        },
    }
}

/// The grant that this device makes of one in the answer, after those that it
/// made before: one that was asked for, not repeated, with the constraints that
/// were asked for.
pub open spec fn granted(
    asked: Seq<PairingGrantRequestView>,
    peer_id: Seq<char>,
    before: Seq<GrantView>,
    received: ReceivedGrant,
    now: i64,
) -> Result<GrantView, NetworkErrorView> {
    match (received.capability, received.direction) {
        (Err(name), _) => Err(NetworkErrorView::Protocol("unknown granted capability "@ + name@)),
        (Ok(_), None) => Err(NetworkErrorView::Protocol("invalid pairing grant direction"@)),
        (Ok(capability), Some(direction)) => {
            let key = slot(capability, opposite(direction));
            if has_key(before, grant_key(), key) {
                Err(NetworkErrorView::Protocol("invalid or duplicate pairing grant"@))
            } else {
                match (asked_for(asked, key), decoded_constraints(
                    wire_constraints(received.constraints),
                )) {
                    (None, _) => Err(
                        NetworkErrorView::Protocol("peer returned an unrequested capability"@),
                    ),
                    (Some(_), Err(error)) => Err(error),
                    (Some(expected), Ok(constraints)) => if constraints == expected {
                        Ok(
                            GrantView {
                                peer_id,
                                capability,
                                direction: opposite(direction),
                                constraints,
                                granted_at_ms: now,
                            },
                        )
                    } else {
                        Err(NetworkErrorView::Protocol("peer changed pairing grant constraints"@))
                    },
                }
            }
        },
    }
}

/// The grants that this device makes of the first `count` in the answer.
pub open spec fn granted_list(
    asked: Seq<PairingGrantRequestView>,
    peer_id: Seq<char>,
    received: Seq<ReceivedGrant>,
    count: nat,
    now: i64,
) -> Result<Seq<GrantView>, NetworkErrorView>
    decreases count,
{
    if count == 0 {
        Ok(seq![])
    } else {
        match granted_list(asked, peer_id, received, (count - 1) as nat, now) {
            Err(error) => Err(error),
            Ok(before) => match granted(asked, peer_id, before, received[count - 1], now) {
                Err(error) => Err(error),
                Ok(grant) => Ok(before.push(grant)),
            },
        }
    }
}

/// The other side may approve any part of what was asked for, and nothing else:
/// each grant is under a key that was asked for, with the constraints that were
/// asked for, for that peer, and none is repeated.
pub proof fn law_granted_is_asked_for(
    asked: Seq<PairingGrantRequestView>,
    peer_id: Seq<char>,
    received: Seq<ReceivedGrant>,
    count: nat,
    now: i64,
)
    ensures
        granted_list(asked, peer_id, received, count, now) matches Ok(grants) ==> {
            &&& grants.len() == count
            &&& forall|i: int|
                0 <= i < grants.len() ==> (#[trigger] grants[i]).peer_id == peer_id && asked_for(
                    asked,
                    (grant_key())(grants[i]),
                ) == Some(grants[i].constraints)
            &&& forall|i: int, j: int|
                0 <= i < j < grants.len() ==> (grant_key())(#[trigger] grants[i]) != (grant_key())(
                    #[trigger] grants[j],
                )
        },
    decreases count,
{
    if count > 0 {
        law_granted_is_asked_for(asked, peer_id, received, (count - 1) as nat, now);
        if let Ok(grants) = granted_list(asked, peer_id, received, count, now) {
            let before = granted_list(asked, peer_id, received, (count - 1) as nat, now)->Ok_0;
            let last = grants.last();
            assert(granted(asked, peer_id, before, received[count - 1], now) == Ok::<
                _,
                NetworkErrorView,
            >(last));
            assert(grants == before.push(last));
            assert((grant_key())(last) == slot(last.capability, last.direction));
            assert(!has_key(before, grant_key(), (grant_key())(last)));
            assert forall|i: int| 0 <= i < grants.len() implies (#[trigger] grants[i]).peer_id
                == peer_id && asked_for(asked, (grant_key())(grants[i])) == Some(
                grants[i].constraints,
            ) by {
                if i < before.len() {
                    assert(grants[i] == before[i]);
                }
            }
            assert forall|i: int, j: int| 0 <= i < j < grants.len() implies (grant_key())(
                #[trigger] grants[i],
            ) != (grant_key())(#[trigger] grants[j]) by {
                assert(grants[i] == before[i]);
                if j < before.len() {
                    assert(grants[j] == before[j]);
                }
            }
        }
    }
}

/// The key under which this device files a grant of the answer.
pub open spec fn received_key(received: ReceivedGrant) -> Seq<int> {
    slot(received.capability->Ok_0, opposite(received.direction->0))
}

/// The grant of the answer is one that was asked for, as it was asked for.
pub open spec fn approves(asked: Seq<PairingGrantRequestView>, received: ReceivedGrant) -> bool {
    &&& received.capability is Ok
    &&& received.direction is Some
    &&& asked_for(asked, received_key(received)) matches Some(constraints)
    &&& request_in_bounds(received.capability->Ok_0, constraints)
    &&& wire_constraints(received.constraints) == encoded_constraints(constraints)
}

/// Whatever part of what was asked for the other side approves, each grant once
/// and as it was asked for, the pairing takes it.
pub proof fn law_any_part_may_be_granted(
    asked: Seq<PairingGrantRequestView>,
    peer_id: Seq<char>,
    received: Seq<ReceivedGrant>,
    count: nat,
    now: i64,
)
    requires
        count <= received.len(),
        forall|i: int| 0 <= i < count ==> approves(asked, #[trigger] received[i]),
        forall|i: int, j: int|
            0 <= i < j < count ==> received_key(#[trigger] received[i]) != received_key(
                #[trigger] received[j],
            ),
    ensures
        granted_list(asked, peer_id, received, count, now) matches Ok(grants) && grants.len()
            == count && forall|i: int|
            0 <= i < count ==> (grant_key())(#[trigger] grants[i]) == received_key(received[i]),
    decreases count,
{
    if count > 0 {
        law_any_part_may_be_granted(asked, peer_id, received, (count - 1) as nat, now);
        let before = granted_list(asked, peer_id, received, (count - 1) as nat, now)->Ok_0;
        let last = received[count - 1];
        let key = received_key(last);
        assert(approves(asked, last));
        let constraints = asked_for(asked, key)->0;
        law_constraints_round_trip(last.capability->Ok_0, constraints);
        assert(!has_key(before, grant_key(), key)) by {
            if has_key(before, grant_key(), key) {
                let i = choose|i: int|
                    0 <= i < before.len() && (grant_key())(#[trigger] before[i]) == key;
                assert(received_key(received[i]) != received_key(received[count - 1]));
            }
        }
        let grant = granted(asked, peer_id, before, last, now)->Ok_0;
        assert(granted_list(asked, peer_id, received, count, now) == Ok::<_, NetworkErrorView>(
            before.push(grant),
        ));
        assert forall|i: int| 0 <= i < count implies (grant_key())(
            #[trigger] before.push(grant)[i],
        ) == received_key(received[i]) by {
            if i < count - 1 {
                assert(before.push(grant)[i] == before[i]);
            }
        }
    }
}

/// Each grant that this device makes is the one in the answer that it stands for,
/// seen from here: with that capability, in the other direction, for that peer and
/// at that time, and as one of those that were asked for. No two are for one
/// capability in one direction.
pub proof fn law_grants_are_those_of_the_answer(
    asked: Seq<PairingGrantRequestView>,
    peer_id: Seq<char>,
    received: Seq<ReceivedGrant>,
    count: nat,
    now: i64,
)
    requires
        count <= received.len(),
        granted_list(asked, peer_id, received, count, now) is Ok,
    ensures
        ({
            let grants = granted_list(asked, peer_id, received, count, now)->Ok_0;
            &&& grants.len() == count
            &&& forall|i: int|
                0 <= i < count ==> {
                    &&& received[i].capability == Ok::<_, String>((#[trigger] grants[i]).capability)
                    &&& received[i].direction is Some
                    &&& received[i].direction->0 != grants[i].direction
                    &&& grants[i].peer_id == peer_id
                    &&& grants[i].granted_at_ms == now
                    &&& exists|k: int|
                        0 <= k < asked.len() && (#[trigger] asked[k]).capability.order
                            == grants[i].capability.order && asked[k].direction
                            == grants[i].direction && asked[k].constraints == grants[i].constraints
                }
            &&& forall|i: int, j: int|
                0 <= i < j < count ==> !((#[trigger] grants[i]).capability.order == (
                #[trigger] grants[j]).capability.order && grants[i].direction == grants[j].direction)
        }),
    decreases count,
{
    law_granted_is_asked_for(asked, peer_id, received, count, now);
    let grants = granted_list(asked, peer_id, received, count, now)->Ok_0;
    if count > 0 {
        law_grants_are_those_of_the_answer(asked, peer_id, received, (count - 1) as nat, now);
        let before = granted_list(asked, peer_id, received, (count - 1) as nat, now)->Ok_0;
        let last = grants.last();
        assert(grants == before.push(last));
        assert forall|i: int| 0 <= i < count implies {
            &&& received[i].capability == Ok::<_, String>((#[trigger] grants[i]).capability)
            &&& received[i].direction is Some
            &&& received[i].direction->0 != grants[i].direction
            &&& grants[i].peer_id == peer_id
            &&& grants[i].granted_at_ms == now
            &&& exists|k: int|
                0 <= k < asked.len() && (#[trigger] asked[k]).capability.order
                    == grants[i].capability.order && asked[k].direction == grants[i].direction
                    && asked[k].constraints == grants[i].constraints
        } by {
            if i < before.len() {
                assert(grants[i] == before[i]);
            } else {
                let key = (grant_key())(last);
                assert(asked_for(asked, key) == Some(last.constraints));
                let k = choose|k: int|
                    0 <= k < asked.len() && (request_key())(#[trigger] asked[k]) == key;
                law_key_of_a_grant(
                    asked[k].capability,
                    asked[k].direction,
                    last.capability,
                    last.direction,
                );
                assert(asked[k].capability.order == last.capability.order);
            }
        }
    }
    assert forall|i: int, j: int| 0 <= i < j < count implies !((
    #[trigger] grants[i]).capability.order == (#[trigger] grants[j]).capability.order
        && grants[i].direction == grants[j].direction) by {
        law_key_of_a_grant(
            grants[i].capability,
            grants[i].direction,
            grants[j].capability,
            grants[j].direction,
        );
        assert((grant_key())(grants[i]) != (grant_key())(grants[j]));
    }
}

/// An answer that echoes the offer is taken as a whole, and grants exactly what
/// was asked for.
pub proof fn law_echo_grants_what_is_asked(
    asked: Seq<PairingGrantRequestView>,
    offered: Seq<OfferedGrant>,
    peer_id: Seq<char>,
    received: Seq<ReceivedGrant>,
    now: i64,
)
    requires
        first_error(asked, asked.len()) is None,
        offered.len() == asked.len(),
        received.len() == offered.len(),
        forall|i: int| 0 <= i < offered.len() ==> offers(#[trigger] offered[i], asked[i]),
        forall|i: int|
            0 <= i < received.len() ==> (#[trigger] received[i]).capability == Ok::<_, String>(
                offered[i].capability,
            ) && received[i].direction == Some(offered[i].direction) && received[i].constraints
                == offered[i].constraints,
    ensures
        ({
            let outcome = granted_list(asked, peer_id, received, received.len(), now);
            &&& outcome matches Ok(grants)
            &&& grants.len() == asked.len()
            &&& forall|i: int|
                0 <= i < grants.len() ==> (#[trigger] grants[i]) == (GrantView {
                    peer_id,
                    capability: asked[i].capability,
                    direction: asked[i].direction,
                    constraints: asked[i].constraints,
                    granted_at_ms: now,
                })
        }),
{
    law_requests_that_are_taken(asked);
    lemma_no_error(asked, asked.len());
    assert forall|i: int| 0 <= i < received.len() implies received_key(#[trigger] received[i])
        == (request_key())(asked[i]) by {
        assert(offers(offered[i], asked[i]));
        law_key_of_a_grant(
            asked[i].capability,
            opposite(offered[i].direction),
            asked[i].capability,
            asked[i].direction,
        );
    }
    assert forall|i: int, j: int| 0 <= i < j < received.len() implies received_key(
        #[trigger] received[i],
    ) != received_key(#[trigger] received[j]) by {
        law_key_of_a_grant(
            asked[i].capability,
            asked[i].direction,
            asked[j].capability,
            asked[j].direction,
        );
    }
    assert forall|i: int| 0 <= i < received.len() implies {
        &&& approves(asked, #[trigger] received[i])
        &&& asked_for(asked, received_key(received[i])) == Some(asked[i].constraints)
    } by {
        assert(offers(offered[i], asked[i]));
        assert(request_error(asked, i) is None);
        law_offer_says_what_is_asked(offered[i], asked[i]);
        let key = received_key(received[i]);
        assert((request_key())(asked[i]) == key);
        assert(has_key(asked, request_key(), key));
        let k = choose|k: int| 0 <= k < asked.len() && (request_key())(#[trigger] asked[k]) == key;
        law_key_of_a_grant(
            asked[i].capability,
            asked[i].direction,
            asked[k].capability,
            asked[k].direction,
        );
        assert(k == i) by {
            if k < i {
                assert(!(asked[k].capability.order == asked[i].capability.order
                    && asked[k].direction == asked[i].direction));
            } else if i < k {
                assert(!(asked[i].capability.order == asked[k].capability.order
                    && asked[i].direction == asked[k].direction));
            }
        }
    }
    law_any_part_may_be_granted(asked, peer_id, received, received.len(), now);
    law_grants_are_those_of_the_answer(asked, peer_id, received, received.len(), now);
    let grants = granted_list(asked, peer_id, received, received.len(), now)->Ok_0;
    assert forall|i: int| 0 <= i < grants.len() implies (#[trigger] grants[i]) == (GrantView {
        peer_id,
        capability: asked[i].capability,
        direction: asked[i].direction,
        constraints: asked[i].constraints,
        granted_at_ms: now,
    }) by {
        law_granted_is_asked_for(asked, peer_id, received, received.len(), now);
        assert((grant_key())(grants[i]) == received_key(received[i]));
        assert(approves(asked, received[i]));
        assert(offers(offered[i], asked[i]));
    }
}

/// A pairing succeeds only where the other side says that it paired, with the
/// device that this side knows it by. An answer without a result leaves the
/// session open, and a refusal closes it with the reason given.
pub proof fn law_decision_of_the_other_side(result: Option<PairingResult>, peer_id: Seq<char>)
    ensures
        decision(result, peer_id) is Ok <==> (result matches Some(said) && said.paired
            && said.peer_id@ == peer_id),
        decision(result, peer_id) matches Err((error, closes)) ==> {
            &&& closes <==> result is Some
            &&& error is Protocol
            &&& result matches Some(said) ==> said.error@.len() > 0 ==> error
                == NetworkErrorView::Protocol(said.error@)
        },
{
}

/// Takes the answer of the other side. The grants are those that this device
/// makes of it at the time `now`.
pub fn complete_pairing(pending: &PendingPairing, response: PairingResponse, now: i64) -> (outcome:
    Result<PairingOutcome, PairingFailure>)
    ensures
        match outcome {
            Ok(outcome) => {
                &&& decision(response.result, pending.other().device_id) is Ok
                &&& outcome.peer@ == pending.other()
                &&& granted_list(
                    pending.asked(),
                    pending.other().device_id,
                    response.granted_grants@,
                    response.granted_grants@.len(),
                    now,
                ) == Ok::<_, NetworkErrorView>(views(outcome.granted@))
            },
            Err(failure) => match decision(response.result, pending.other().device_id) {
                Err((error, close)) => failure.error@ == error && failure.close_session == close,
                Ok(()) => !failure.close_session && granted_list(
                    pending.asked(),
                    pending.other().device_id,
                    response.granted_grants@,
                    response.granted_grants@.len(),
                    now,
                ) == Err::<Seq<GrantView>, _>(failure.error@),
            },
        },
{
    let ghost peer_id = pending.other().device_id;
    match &response.result {
        None => {
            return Err(
                PairingFailure {
                    error: protocol("pairing result is missing"),
                    close_session: false,
                },
            );
        },
        Some(result) => {
            if !result.paired || !same_text(
                result.peer_id.as_str(),
                pending.peer.device_id.as_str(),
            ) {
                let error = if result.error.as_str().unicode_len() == 0 {
                    protocol("pairing rejected")
                } else {
                    protocol(result.error.as_str())
                };
                return Err(PairingFailure { error, close_session: true });
            }
        },
    }
    let received = response.granted_grants;
    let mut grants: Vec<Grant> = Vec::new();
    let mut i: usize = 0;
    assert(views(grants@) =~= Seq::<GrantView>::empty());
    while i < received.len()
        invariant
            i <= received.len(),
            peer_id == pending.other().device_id,
            granted_list(pending.asked(), peer_id, received@, i as nat, now) == Ok::<
                _,
                NetworkErrorView,
            >(views(grants@)),
            decision(response.result, peer_id) is Ok,
            received@ == response.granted_grants@,
        decreases received.len() - i,
    {
        match receive_grant(pending, &grants, &received[i], now) {
            Ok(grant) => {
                let ghost before = views(grants@);
                let ghost added = grant@;
                grants.push(grant);
                assert(views(grants@) =~= before.push(added));
                assert(granted_list(pending.asked(), peer_id, received@, (i + 1) as nat, now)
                    == Ok::<_, NetworkErrorView>(views(grants@)));
            },
            Err(error) => {
                proof {
                    assert(granted_list(pending.asked(), peer_id, received@, (i + 1) as nat, now)
                        == Err::<Seq<GrantView>, _>(error@));
                    lemma_refusal_stays(
                        pending.asked(),
                        peer_id,
                        received@,
                        (i + 1) as nat,
                        received@.len(),
                        now,
                    );
                }
                return Err(PairingFailure { error, close_session: false });
            },
        }
        i += 1;
    }
    Ok(PairingOutcome { peer: pending.peer.clone(), granted: grants })
}

proof fn lemma_refusal_stays(
    asked: Seq<PairingGrantRequestView>,
    peer_id: Seq<char>,
    received: Seq<ReceivedGrant>,
    count: nat,
    more: nat,
    now: i64,
)
    requires
        count <= more,
        granted_list(asked, peer_id, received, count, now) is Err,
    ensures
        granted_list(asked, peer_id, received, more, now) == granted_list(
            asked,
            peer_id,
            received,
            count,
            now,
        ),
    decreases more,
{
    if count < more {
        lemma_refusal_stays(asked, peer_id, received, count, (more - 1) as nat, now);
    }
}

fn has_slot(grants: &Vec<Grant>, capability: CapabilityId, direction: GrantDirection) -> (found: bool)
    ensures
        found == has_key(views(grants@), grant_key(), slot(capability, direction)),
{
    let ghost list = views(grants@);
    let mut i: usize = 0;
    while i < grants.len()
        invariant
            i <= grants.len(),
            list == views(grants@),
            forall|j: int|
                0 <= j < i ==> (grant_key())(#[trigger] list[j]) != slot(capability, direction),
        decreases grants.len() - i,
    {
        assert(list[i as int] == grants@[i as int]@);
        if same_slot(grants[i].capability, grants[i].direction, capability, direction) {
            assert((grant_key())(list[i as int]) == slot(capability, direction));
            return true;
        }
        i += 1;
    }
    false
}

fn receive_grant(
    pending: &PendingPairing,
    before: &Vec<Grant>,
    received: &ReceivedGrant,
    now: i64,
) -> (grant: Result<Grant, NetworkError>)
    ensures
        result_view(grant) == granted(
            pending.asked(),
            pending.other().device_id,
            views(before@),
            *received,
            now,
        ),
{
    let capability = match &received.capability {
        Ok(capability) => *capability,
        Err(name) => {
            return Err(protocol(joined("unknown granted capability ", name.as_str()).as_str()));
        },
    };
    let direction = match received.direction {
        Some(direction) => opposite_of(direction),
        None => {
            return Err(protocol("invalid pairing grant direction"));
        },
    };
    if has_slot(before, capability, direction) {
        return Err(protocol("invalid or duplicate pairing grant"));
    }
    let expected = match pending.expected(capability, direction) {
        Some(constraints) => constraints,
        None => {
            return Err(protocol("peer returned an unrequested capability"));
        },
    };
    let constraints = match decode_grant_constraints(&received.constraints) {
        Ok(constraints) => constraints,
        Err(error) => {
            return Err(error);
        },
    };
    if !constraints.same(expected) {
        return Err(protocol("peer changed pairing grant constraints"));
    }
    Ok(
        Grant {
            peer_id: pending.peer.device_id.clone(),
            capability,
            direction,
            constraints,
            granted_at_ms: now,
        },
    )
}

/// Whether a session may establish trust with these grants.
pub open spec fn trust_verdict(
    kind: SessionKind,
    peer_id: Seq<char>,
    grants: Seq<GrantView>,
) -> Result<(), NetworkErrorView> {
    if kind != SessionKind::Pairing {
        Err(NetworkErrorView::Protocol("only a pairing session can establish device trust"@))
    } else if exists|i: int| 0 <= i < grants.len() && (#[trigger] grants[i]).peer_id != peer_id {
        Err(NetworkErrorView::Protocol("pairing grant belongs to another peer"@))
    } else if exists|i: int|
        0 <= i < grants.len() && !request_in_bounds(
            (#[trigger] grants[i]).capability,
            grants[i].constraints,
        ) {
        Err(NetworkErrorView::Protocol("invalid requested grant constraints"@))
    } else {
        Ok(())
    }
}

/// Checks that a session may establish trust with these grants.
pub fn check_trust(kind: SessionKind, peer_id: &DeviceId, grants: &Vec<Grant>) -> (outcome: Result<
    (),
    NetworkError,
>)
    ensures
        plain_result(outcome) == trust_verdict(kind, peer_id@, views(grants@)),
{
    let ghost list = views(grants@);
    if kind != SessionKind::Pairing {
        return Err(protocol("only a pairing session can establish device trust"));
    }
    let mut i: usize = 0;
    while i < grants.len()
        invariant
            i <= grants.len(),
            list == views(grants@),
            kind == SessionKind::Pairing,
            forall|j: int| 0 <= j < i ==> (#[trigger] list[j]).peer_id == peer_id@,
        decreases grants.len() - i,
    {
        assert(list[i as int] == grants@[i as int]@);
        if !grants[i].peer_id.same(peer_id) {
            return Err(protocol("pairing grant belongs to another peer"));
        }
        i += 1;
    }
    let mut j: usize = 0;
    while j < grants.len()
        invariant
            j <= grants.len(),
            list == views(grants@),
            kind == SessionKind::Pairing,
            forall|k: int| 0 <= k < list.len() ==> (#[trigger] list[k]).peer_id == peer_id@,
            forall|k: int|
                0 <= k < j ==> request_in_bounds(
                    (#[trigger] list[k]).capability,
                    list[k].constraints,
                ),
        decreases grants.len() - j,
    {
        assert(list[j as int] == grants@[j as int]@);
        if let Err(error) = validate_local_grant_request(
            grants[j].capability,
            &grants[j].constraints,
        ) {
            return Err(error);
        }
        j += 1;
    }
    Ok(())
}

/// Trust is established only in a pairing session, by grants of that peer, each of
/// which may be asked for.
pub proof fn law_trust_needs_a_pairing(
    kind: SessionKind,
    peer_id: Seq<char>,
    grants: Seq<GrantView>,
)
    ensures
        trust_verdict(kind, peer_id, grants) is Ok <==> kind == SessionKind::Pairing && forall|i: int|
            0 <= i < grants.len() ==> (#[trigger] grants[i]).peer_id == peer_id
                && request_in_bounds(grants[i].capability, grants[i].constraints),
{
}

/// The grant is the last of the list under its key.
pub open spec fn is_latest(all: Seq<GrantView>, grant: GrantView) -> bool {
    exists|i: int|
        0 <= i < all.len() && #[trigger] all[i] == grant && forall|j: int|
            i < j < all.len() ==> (grant_key())(#[trigger] all[j]) != (grant_key())(grant)
}

/// `kept` holds the last grant of `all` under each key, in order of the keys.
pub open spec fn is_latest_of_each(all: Seq<GrantView>, kept: Seq<GrantView>) -> bool {
    &&& is_strictly_sorted(kept, grant_key())
    &&& forall|i: int| 0 <= i < kept.len() ==> is_latest(all, #[trigger] kept[i])
    &&& forall|i: int|
        0 <= i < all.len() ==> has_key(kept, grant_key(), (grant_key())(#[trigger] all[i]))
}

/// What is kept under a key is a new grant where there is one, and an older one
/// where there is none.
pub proof fn law_new_grant_prevails(
    existing: Seq<GrantView>,
    fresh: Seq<GrantView>,
    kept: Seq<GrantView>,
    i: int,
)
    requires
        is_latest_of_each(existing + fresh, kept),
        0 <= i < kept.len(),
    ensures
        has_key(fresh, grant_key(), (grant_key())(kept[i])) ==> fresh.contains(kept[i]),
        !has_key(fresh, grant_key(), (grant_key())(kept[i])) ==> existing.contains(kept[i]),
{
    let all = existing + fresh;
    let grant = kept[i];
    let key = (grant_key())(grant);
    assert(is_latest(all, grant));
    let at = choose|at: int|
        0 <= at < all.len() && #[trigger] all[at] == grant && forall|j: int|
            at < j < all.len() ==> (grant_key())(#[trigger] all[j]) != (grant_key())(grant);
    if has_key(fresh, grant_key(), key) {
        let k = choose|k: int| 0 <= k < fresh.len() && (grant_key())(#[trigger] fresh[k]) == key;
        assert(all[existing.len() + k] == fresh[k]);
        assert(at >= existing.len() + k);
        assert(fresh[at - existing.len()] == grant);
    } else {
        if at >= existing.len() {
            assert(fresh[at - existing.len()] == grant);
        }
        assert(existing[at] == grant);
    }
}

/// Of all grants of a peer exactly one is kept for each capability and direction:
/// the one that came last.
pub proof fn law_last_grant_is_kept(
    all: Seq<GrantView>,
    kept: Seq<GrantView>,
    i: int,
    k: int,
    m: int,
)
    requires
        is_latest_of_each(all, kept),
        0 <= i < all.len(),
        0 <= k < m < kept.len() || k == m && 0 <= k < kept.len(),
    ensures
        exists|n: int|
            0 <= n < kept.len() && (#[trigger] kept[n]).capability.order == all[i].capability.order
                && kept[n].direction == all[i].direction,
        k < m ==> !(kept[k].capability.order == kept[m].capability.order && kept[k].direction
            == kept[m].direction),
        exists|at: int|
            0 <= at < all.len() && #[trigger] all[at] == kept[k] && forall|j: int|
                at < j < all.len() ==> !((#[trigger] all[j]).capability.order
                    == kept[k].capability.order && all[j].direction == kept[k].direction),
{
    assert(has_key(kept, grant_key(), (grant_key())(all[i])));
    let n = choose|n: int|
        0 <= n < kept.len() && (grant_key())(#[trigger] kept[n]) == (grant_key())(all[i]);
    law_key_of_a_grant(kept[n].capability, kept[n].direction, all[i].capability, all[i].direction);
    assert(kept[n].capability.order == all[i].capability.order);
    if k < m {
        assert(seq_before((grant_key())(kept[k]), (grant_key())(kept[m])));
        lemma_before_asymmetric((grant_key())(kept[k]), (grant_key())(kept[m]));
        law_key_of_a_grant(
            kept[k].capability,
            kept[k].direction,
            kept[m].capability,
            kept[m].direction,
        );
    }
    assert(is_latest(all, kept[k]));
    let at = choose|at: int|
        0 <= at < all.len() && #[trigger] all[at] == kept[k] && forall|j: int|
            at < j < all.len() ==> (grant_key())(#[trigger] all[j]) != (grant_key())(kept[k]);
    assert forall|j: int| at < j < all.len() implies !((#[trigger] all[j]).capability.order
        == kept[k].capability.order && all[j].direction == kept[k].direction) by {
        assert((grant_key())(all[j]) != (grant_key())(kept[k]));
        law_key_of_a_grant(
            all[j].capability,
            all[j].direction,
            kept[k].capability,
            kept[k].direction,
        );
    }
    assert(all[at] == kept[k]);
}

/// A grant that no later one replaces is kept.
pub proof fn law_no_grant_is_lost(all: Seq<GrantView>, kept: Seq<GrantView>, grant: GrantView)
    requires
        is_latest_of_each(all, kept),
        is_latest(all, grant),
    ensures
        kept.contains(grant),
{
    let key = (grant_key())(grant);
    let at = choose|at: int|
        0 <= at < all.len() && #[trigger] all[at] == grant && forall|j: int|
            at < j < all.len() ==> (grant_key())(#[trigger] all[j]) != (grant_key())(grant);
    assert(has_key(kept, grant_key(), (grant_key())(all[at])));
    let k = choose|k: int| 0 <= k < kept.len() && (grant_key())(#[trigger] kept[k]) == key;
    assert(is_latest(all, kept[k]));
    let other = choose|other: int|
        0 <= other < all.len() && #[trigger] all[other] == kept[k] && forall|j: int|
            other < j < all.len() ==> (grant_key())(#[trigger] all[j]) != (grant_key())(kept[k]);
    if at < other {
        assert((grant_key())(all[other]) == key);
    } else if other < at {
        assert((grant_key())(all[at]) == key);
    }
    assert(kept[k] == grant);
}

/// The last of `all` under each key, in order of the keys.
fn latest_of_each(all: Vec<Grant>) -> (kept: Vec<Grant>)
    ensures
        is_latest_of_each(views(all@), views(kept@)),
{
    let ghost list = views(all@);
    let ghost key = grant_key();
    let mut kept: Vec<Grant> = Vec::new();
    let mut i: usize = all.len();
    while i > 0
        invariant
            i <= all.len(),
            list == views(all@),
            key == grant_key(),
            forall|k: int| 0 <= k < kept.len() ==> is_latest(list, (#[trigger] kept@[k])@),
            forall|k: int|
                0 <= k < kept.len() ==> has_key_from(list, i as int, key((#[trigger] kept@[k])@)),
            forall|k: int|
                i <= k < list.len() ==> has_key(views(kept@), key, key(#[trigger] list[k])),
            forall|a: int, b: int|
                0 <= a < b < kept.len() ==> key((#[trigger] kept@[a])@) != key(
                    (#[trigger] kept@[b])@,
                ),
        decreases i,
    {
        i -= 1;
        let ghost old_kept = kept@;
        assert(list[i as int] == all@[i as int]@);
        if !has_slot(&kept, all[i].capability, all[i].direction) {
            let ghost own = key(list[i as int]);
            proof {
                assert forall|j: int| i < j < list.len() implies key(#[trigger] list[j]) != own by {
                    assert(has_key(views(kept@), key, key(list[j])));
                    if key(list[j]) == own {
                        assert(has_key(views(kept@), key, own));
                    }
                }
                assert(is_latest(list, list[i as int]));
                assert forall|k: int| 0 <= k < kept.len() implies key((#[trigger] kept@[k])@)
                    != own by {
                    assert(views(kept@)[k] == kept@[k]@);
                }
            }
            kept.push(all[i].clone());
        }
        proof {
            assert forall|k: int| 0 <= k < kept.len() implies has_key_from(
                list,
                i as int,
                key((#[trigger] kept@[k])@),
            ) by {
                if k < old_kept.len() {
                    assert(kept@[k] == old_kept[k]);
                    assert(has_key_from(list, i + 1, key(old_kept[k]@)));
                } else {
                    assert(key(list[i as int]) == key(kept@[k]@));
                }
            }
            assert forall|k: int| i <= k < list.len() implies has_key(
                views(kept@),
                key,
                key(#[trigger] list[k]),
            ) by {
                if k > i {
                    assert(has_key(views(old_kept), key, key(list[k])));
                    let m = choose|m: int|
                        0 <= m < views(old_kept).len() && key(#[trigger] views(old_kept)[m]) == key(
                            list[k],
                        );
                    assert(views(kept@)[m] == views(old_kept)[m]);
                } else if kept@.len() > old_kept.len() {
                    assert(views(kept@)[old_kept.len() as int] == list[i as int]);
                } else {
                    assert(kept@ == old_kept);
                }
            }
        }
    }
    let ghost unsorted = kept@;
    let ghost chosen = views(kept@);
    let ghost own_key = |grant: Grant| (grant_key())(grant@);
    let before = |a: &Grant, b: &Grant| -> (before: bool)
        ensures
            before == seq_before((grant_key())(a@), (grant_key())(b@)),
    {
        slot_before(a.capability, a.direction, b.capability, b.direction)
    };
    let sorted = stable_sort(kept, before, Ghost(own_key));
    proof {
        let result = views(sorted@);
        lemma_stable_sort_views(unsorted, sorted@, own_key, grant_key());
        assert forall|a: int, b: int| 0 <= a < b < chosen.len() implies key(#[trigger] chosen[a])
            != key(#[trigger] chosen[b]) by {
            assert(key(unsorted[a]@) != key(unsorted[b]@));
        }
        lemma_sorted_is_strict(chosen, result, grant_key());
        assert forall|k: int| 0 <= k < result.len() implies is_latest(list, #[trigger] result[k]) by {
            assert(result.contains(result[k]));
            lemma_stable_sort_contains(chosen, result, grant_key(), result[k]);
            let m = choose|m: int| 0 <= m < chosen.len() && chosen[m] == result[k];
            assert(is_latest(list, unsorted[m]@));
        }
        assert forall|k: int| 0 <= k < list.len() implies has_key(
            result,
            grant_key(),
            (grant_key())(#[trigger] list[k]),
        ) by {
            assert(has_key(chosen, key, key(list[k])));
            let m = choose|m: int|
                0 <= m < chosen.len() && key(#[trigger] chosen[m]) == key(list[k]);
            assert(chosen.contains(chosen[m]));
            lemma_stable_sort_contains(chosen, result, grant_key(), chosen[m]);
            let n = choose|n: int| 0 <= n < result.len() && result[n] == chosen[m];
            assert((grant_key())(result[n]) == key(list[k]));
        }
    }
    sorted
}

/// Some item from position `from` on has the key.
spec fn has_key_from(list: Seq<GrantView>, from: int, key: Seq<int>) -> bool {
    exists|i: int| from <= i < list.len() && (grant_key())(#[trigger] list[i]) == key
}

/// What is stored of a peer when it is paired.
pub open spec fn paired_record(peer: SessionPeerView, now: i64) -> PeerRecordView {
    PeerRecordView {
        device_id: peer.device_id,
        public_key: peer.public_key,
        display_name: peer.metadata.name,
        platform: peer.metadata.platform,
        model: peer.metadata.model,
        trust_state: TrustState::Paired,
        auto_connect: true,
        paired_at_ms: now,
        updated_at_ms: now,
    }
}

/// A paired device is stored under its own id and key and as it presents itself,
/// as paired from now on, and is dialed in the background.
pub proof fn law_paired_device_is_stored(peer: SessionPeerView, now: i64)
    ensures
        ({
            let record = paired_record(peer, now);
            &&& record.device_id == peer.device_id
            &&& record.public_key == peer.public_key
            &&& record.display_name == peer.metadata.name
            &&& record.platform == peer.metadata.platform
            &&& record.model == peer.metadata.model
            &&& record.trust_state == TrustState::Paired
            &&& record.auto_connect
            &&& record.paired_at_ms == now
            &&& record.updated_at_ms == now
        }),
{
}

/// What is to be stored for a pairing: the peer, and its grants. `existing` are
/// the grants that the repository holds of the peer.
pub fn confirm_pairing_with_grants(
    session: &Session,
    grants: Vec<Grant>,
    existing: Result<Vec<Grant>, String>,
    now: i64,
) -> (stored: Result<(PeerRecord, Vec<Grant>), NetworkError>)
    ensures
        match trust_verdict(session@.kind, session@.peer.device_id, views(grants@)) {
            Err(error) => stored matches Err(got) && got@ == error,
            Ok(()) => match existing {
                Err(reason) => stored matches Err(got) && got@ == NetworkErrorView::Repository(
                    reason@,
                ),
                Ok(existing) => stored matches Ok(pair) && pair.0@ == paired_record(
                    session@.peer,
                    now,
                ) && is_latest_of_each(views(existing@) + views(grants@), views(pair.1@)),
            },
        },
{
    if let Err(error) = check_trust(session.kind, &session.peer.device_id, &grants) {
        return Err(error);
    }
    let mut all = match existing {
        Ok(existing) => existing,
        Err(reason) => {
            return Err(repository_failed(reason.as_str()));
        },
    };
    let ghost start = views(all@);
    let ghost fresh = views(grants@);
    let mut i: usize = 0;
    while i < grants.len()
        invariant
            i <= grants.len(),
            fresh == views(grants@),
            views(all@) == start + fresh.take(i as int),
        decreases grants.len() - i,
    {
        let ghost before = views(all@);
        let grant = grants[i].clone();
        let ghost added = grant@;
        all.push(grant);
        i += 1;
        assert(views(all@) =~= before.push(added));
        assert(fresh.take(i as int) =~= fresh.take(i - 1).push(added));
        assert(views(all@) =~= start + fresh.take(i as int));
    }
    assert(fresh.take(i as int) =~= fresh);
    let kept = latest_of_each(all);
    let peer = &session.peer;
    let record = PeerRecord {
        device_id: peer.device_id.clone(),
        public_key: peer.public_key.clone(),
        display_name: peer.metadata.name.clone(),
        platform: peer.metadata.platform.clone(),
        model: peer.metadata.model.clone(),
        trust_state: TrustState::Paired,
        auto_connect: true,
        paired_at_ms: now,
        updated_at_ms: now,
    };
    Ok((record, kept))
}

/// What is to be stored for a pairing without new grants.
pub fn confirm_pairing(session: &Session, existing: Result<Vec<Grant>, String>, now: i64) -> (stored:
    Result<(PeerRecord, Vec<Grant>), NetworkError>)
    ensures
        if session@.kind != SessionKind::Pairing {
            stored matches Err(got) && got@ == NetworkErrorView::Protocol(
                "only a pairing session can establish device trust"@,
            )
        } else {
            match existing {
                Err(reason) => stored matches Err(got) && got@ == NetworkErrorView::Repository(
                    reason@,
                ),
                Ok(existing) => stored matches Ok(pair) && pair.0@ == paired_record(
                    session@.peer,
                    now,
                ) && is_latest_of_each(views(existing@), views(pair.1@)),
            }
        },
{
    let none: Vec<Grant> = Vec::new();
    assert(views(none@) =~= Seq::<GrantView>::empty());
    proof {
        if existing is Ok {
            let list = views(existing->Ok_0@);
            assert(list + views(none@) =~= list);
        }
    }
    confirm_pairing_with_grants(session, none, existing, now)
}

/// The record with the new preference, where the device is paired.
pub open spec fn with_auto_connect(
    record: Option<PeerRecordView>,
    enabled: bool,
    now: i64,
) -> Option<PeerRecordView> {
    match record {
        Some(peer) => if peer.trust_state == TrustState::Paired {
            Some(PeerRecordView { auto_connect: enabled, updated_at_ms: now, ..peer })
        } else {
            None
        },
        None => None,
    }
}

/// A preference is taken of a paired device and of no other, and changes nothing
/// but itself and the time of the change.
pub proof fn law_preference_changes_nothing_else(
    record: Option<PeerRecordView>,
    enabled: bool,
    now: i64,
)
    ensures
        with_auto_connect(record, enabled, now) is Some <==> (record matches Some(peer)
            && peer.trust_state == TrustState::Paired),
        with_auto_connect(record, enabled, now) matches Some(updated) ==> {
            let peer = record->0;
            &&& updated.auto_connect == enabled
            &&& updated.updated_at_ms == now
            &&& updated.device_id == peer.device_id
            &&& updated.public_key == peer.public_key
            &&& updated.display_name == peer.display_name
            &&& updated.platform == peer.platform
            &&& updated.model == peer.model
            &&& updated.trust_state == peer.trust_state
            &&& updated.paired_at_ms == peer.paired_at_ms
        },
{
}

/// The record to store when the user decides whether a paired device is dialed
/// in the background.
pub fn set_peer_auto_connect(record: Option<PeerRecord>, enabled: bool, now: i64) -> (updated: Option<
    PeerRecord,
>)
    ensures
        (match updated {
            Some(updated) => Some(updated@),
            None => None,
        }) == with_auto_connect(
            match record {
                Some(record) => Some(record@),
                None => None,
            },
            enabled,
            now,
        ),
{
    match record {
        None => None,
        Some(record) => {
            if record.trust_state != TrustState::Paired {
                return None;
            }
            Some(
                PeerRecord {
                    device_id: record.device_id,
                    public_key: record.public_key,
                    display_name: record.display_name,
                    platform: record.platform,
                    model: record.model,
                    trust_state: record.trust_state,
                    auto_connect: enabled,
                    paired_at_ms: record.paired_at_ms,
                    updated_at_ms: now,
                },
            )
        },
    }
}

} // verus!
