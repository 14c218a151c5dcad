//! Which session stands for each peer and purpose.
//!
//! The registry knows sessions by handles. Whoever owns the transports tells it
//! whether the session of a handle is still held and open.
use vstd::prelude::*;
use vstd::string::*;

use crate::error::{connect_failed, plain_result, NetworkError, NetworkErrorView};
use crate::order::{lemma_before_asymmetric, lemma_before_total, lemma_text_key_injective, text_key};
use crate::peer::{
    id_set, is_id_set, views, CapabilityId, CapabilityRole, DeviceId,
};
use crate::runtime::session::{
    instance_view, Session, SessionKind, SessionRank, SessionRankView, SessionView,
};
use crate::table::{Table, TableKey};

verus! {

/// How many retired processes of a peer are remembered.
pub const MAX_RETIRED_PEER_INSTANCES: usize = 32;

/// A peer and a purpose: at most one session stands for them.
#[derive(Debug)]
pub struct SessionKey {
    pub peer: DeviceId,
    pub kind: SessionKind,
}

impl View for SessionKey {
    type V = (Seq<char>, SessionKind);

    open spec fn view(&self) -> (Seq<char>, SessionKind) {
        (self.peer@, self.kind)
    }
}

impl TableKey for SessionKey {
    fn same_key(&self, other: &Self) -> (same: bool) {
        self.kind == other.kind && self.peer.same(&other.peer)
    }
}

/// The session that stands for a peer and a purpose.
#[derive(Debug)]
pub struct ActiveSession {
    pub handle: u64,
    pub peer_process_instance_id: Option<[u8; 16]>,
    pub retired_peer_instances: Vec<[u8; 16]>,
    pub rank: SessionRank,
    pub relayed: bool,
}

/// What an [`ActiveSession`] says.
pub struct ActiveSessionView {
    pub handle: u64,
    pub instance: Option<Seq<u8>>,
    pub retired: Seq<Seq<u8>>,
    pub rank: SessionRankView,
    pub relayed: bool,
}

/// The bytes of process instance ids.
pub open spec fn instances(list: Seq<[u8; 16]>) -> Seq<Seq<u8>> {
    list.map_values(|instance: [u8; 16]| instance@)
}

impl View for ActiveSession {
    type V = ActiveSessionView;

    open spec fn view(&self) -> ActiveSessionView {
        ActiveSessionView {
            handle: self.handle,
            instance: instance_view(self.peer_process_instance_id),
            retired: instances(self.retired_peer_instances@),
            rank: self.rank@,
            relayed: self.relayed,
        }
    }
}

/// What is known of the session of a handle.
#[derive(Debug, Clone, Copy, PartialEq, Eq, Structural)]
pub struct HolderStatus {
    /// Somebody still holds the session.
    pub held: bool,
    /// Its transport has not been closed.
    pub open: bool,
}

/// Why a transport is closed.
#[derive(Debug, Clone, Copy, PartialEq, Eq, Structural)]
pub enum CloseReason {
    ObsoleteInstance,
    PeerRestarted,
    DuplicateSession,
    SessionReplaced,
    PeerForgotten,
    AuthorizationChanged,
}

impl CloseReason {
    /// The text that the peer is told.
    pub open spec fn text(self) -> Seq<char> {
        match self {
            CloseReason::ObsoleteInstance => "obsolete peer process instance"@,
            CloseReason::PeerRestarted => "peer process restarted"@,
            CloseReason::DuplicateSession => "duplicate session"@,
            CloseReason::SessionReplaced => "session replaced"@,
            CloseReason::PeerForgotten => "peer forgotten"@,
            CloseReason::AuthorizationChanged => "authorization changed"@,
        }
    }

    /// The number that the peer is told.
    pub open spec fn number(self) -> u32 {
        match self {
            CloseReason::PeerForgotten => 403,
            CloseReason::AuthorizationChanged => 0,
            _ => 409,
        }
    }

    /// The text that the peer is told.
    pub fn message(self) -> (text: &'static str)
        ensures
            text@ == self.text(),
    {
        match self {
            CloseReason::ObsoleteInstance => "obsolete peer process instance",
            CloseReason::PeerRestarted => "peer process restarted",
            CloseReason::DuplicateSession => "duplicate session",
            CloseReason::SessionReplaced => "session replaced",
            CloseReason::PeerForgotten => "peer forgotten",
            CloseReason::AuthorizationChanged => "authorization changed",
        }
    }

    /// The number that the peer is told.
    pub fn code(self) -> (code: u32)
        ensures
            code == self.number(),
    {
        match self {
            CloseReason::PeerForgotten => 403,
            CloseReason::AuthorizationChanged => 0,
            _ => 409,
        }
    }
}

/// A transport to close.
#[derive(Debug, Clone, Copy, PartialEq, Eq, Structural)]
pub struct Close {
    pub handle: u64,
    pub reason: CloseReason,
}

/// The outcome of registering a session: the handle of the session to use, and
/// the transports to close.
#[derive(Debug)]
pub struct Registration {
    pub outcome: Result<u64, NetworkError>,
    pub closes: Vec<Close>,
}

/// What registering a session comes to.
pub struct RegistrationView {
    pub outcome: Result<u64, NetworkErrorView>,
    pub closes: Seq<Close>,
    /// What stands for the peer and the purpose afterwards.
    pub entry: ActiveSessionView,
}

/// The last `count` items, or all where there are fewer.
pub open spec fn last_of(list: Seq<Seq<u8>>, count: int) -> Seq<Seq<u8>> {
    if list.len() > count {
        list.skip(list.len() - count)
    } else {
        list
    }
}

/// The session comes from a process that has been replaced.
pub open spec fn obsolete(current: ActiveSessionView, session: SessionView) -> bool {
    session.instance matches Some(instance) && current.retired.contains(instance)
}

/// The session comes from another process than the current one.
pub open spec fn restarted(current: ActiveSessionView, session: SessionView) -> bool {
    current.instance is Some && session.instance is Some && current.instance != session.instance
}

/// The current session stays in place of a new one. Only sessions that the two
/// sides dialed compete: a direct one stays in place of a relayed one, and of
/// two alike the lower rank stays. A new session from the same side is a
/// reconnect, and a new process replaces the old one.
pub open spec fn stays(
    current: ActiveSessionView,
    status: HolderStatus,
    session: SessionView,
) -> bool {
    &&& status.held && status.open && !restarted(current, session)
    &&& current.rank.initiator_id != session.rank.initiator_id
    &&& if current.relayed == session.relayed {
        !session.rank.before(current.rank)
    } else {
        session.relayed
    }
}

/// The processes that are remembered as replaced once the session is in place.
pub open spec fn retired_by(current: ActiveSessionView, session: SessionView) -> Seq<Seq<u8>> {
    if restarted(current, session) {
        last_of(current.retired.push(current.instance->0), MAX_RETIRED_PEER_INSTANCES as int)
    } else {
        current.retired
    }
}

/// The entry of a session.
pub open spec fn entry_of(
    handle: u64,
    session: SessionView,
    retired: Seq<Seq<u8>>,
) -> ActiveSessionView {
    ActiveSessionView {
        handle,
        instance: session.instance,
        retired,
        rank: session.rank,
        relayed: session.relayed,
    }
}

/// The transports of the current session to close when a new one takes its
/// place.
pub open spec fn closes_current(
    current: ActiveSessionView,
    status: HolderStatus,
    session: SessionView,
) -> Seq<Close> {
    if restarted(current, session) {
        seq![Close { handle: current.handle, reason: CloseReason::PeerRestarted }]
    } else if status.held && status.open {
        seq![Close { handle: current.handle, reason: CloseReason::SessionReplaced }]
    } else {
        seq![]
    }
}

/// What registering a session comes to, given the one that stands in its place.
pub open spec fn registration(
    current: Option<ActiveSessionView>,
    status: HolderStatus,
    handle: u64,
    session: SessionView,
) -> RegistrationView {
    match current {
        None => RegistrationView {
            outcome: Ok(handle),
            closes: seq![],
            entry: entry_of(handle, session, seq![]),
        },
        Some(current) => if obsolete(current, session) {
            RegistrationView {
                outcome: if status.held && status.open {
                    Ok(current.handle)
                } else {
                    Err(NetworkErrorView::Connect("obsolete peer process instance"@))
                },
                closes: seq![Close { handle, reason: CloseReason::ObsoleteInstance }],
                entry: current,
            }
        } else if status.held && current.handle == handle {
            RegistrationView {
                outcome: Ok(handle),
                closes: if restarted(current, session) {
                    seq![Close { handle, reason: CloseReason::PeerRestarted }]
                } else {
                    seq![]
                },
                entry: current,
            }
        } else if stays(current, status, session) {
            RegistrationView {
                outcome: Ok(current.handle),
                closes: seq![Close { handle, reason: CloseReason::DuplicateSession }],
                entry: current,
            }
        } else {
            RegistrationView {
                outcome: Ok(handle),
                closes: closes_current(current, status, session),
                entry: entry_of(handle, session, retired_by(current, session)),
            }
        },
    }
}

/// A process that was replaced does not come back: the entry stays as it is and
/// the transport of the late session is closed.
pub proof fn law_retired_process_stays_retired(
    current: ActiveSessionView,
    status: HolderStatus,
    handle: u64,
    session: SessionView,
)
    requires
        session.instance is Some,
        current.retired.contains(session.instance->0),
    ensures
        registration(Some(current), status, handle, session).entry == current,
        registration(Some(current), status, handle, session).closes == seq![
            Close { handle, reason: CloseReason::ObsoleteInstance },
        ],
        status.held && status.open ==> registration(Some(current), status, handle, session).outcome
            == Ok::<_, NetworkErrorView>(current.handle),
        !(status.held && status.open) ==> registration(Some(current), status, handle, session).outcome
            == Err::<u64, _>(NetworkErrorView::Connect("obsolete peer process instance"@)),
{
}

/// A connection that already holds the place cannot be taken over by another process
/// of the peer: the entry stays as it is and the connection is closed.
pub proof fn law_process_cannot_change_on_a_connection(
    current: ActiveSessionView,
    status: HolderStatus,
    session: SessionView,
)
    requires
        status.held,
        current.instance is Some,
        session.instance is Some,
        current.instance != session.instance,
        !current.retired.contains(session.instance->0),
    ensures
        ({
            let settled = registration(Some(current), status, current.handle, session);
            &&& settled.outcome == Ok::<_, NetworkErrorView>(current.handle)
            &&& settled.entry == current
            &&& settled.closes.len() == 1
            &&& settled.closes[0].handle == current.handle
            &&& settled.closes[0].reason == CloseReason::PeerRestarted
        }),
{
}

/// A new process takes the place of the old one whoever dialed and however the
/// old transport looks, and the old process is retired by that.
pub proof fn law_restart_replaces(
    current: ActiveSessionView,
    status: HolderStatus,
    handle: u64,
    session: SessionView,
)
    requires
        current.instance is Some,
        session.instance is Some,
        current.instance != session.instance,
        !current.retired.contains(session.instance->0),
        handle != current.handle,
    ensures
        registration(Some(current), status, handle, session).outcome == Ok::<_, NetworkErrorView>(
            handle,
        ),
        registration(Some(current), status, handle, session).entry.handle == handle,
        registration(Some(current), status, handle, session).entry.retired.contains(
            current.instance->0,
        ),
        registration(Some(current), status, handle, session).closes.contains(
            (Close { handle: current.handle, reason: CloseReason::PeerRestarted }),
        ),
{
    let kept = retired_by(current, session);
    assert(kept.last() == current.instance->0);
    assert(kept[kept.len() - 1] == current.instance->0);
    let closes = closes_current(current, status, session);
    assert(closes[0] == Close { handle: current.handle, reason: CloseReason::PeerRestarted });
}

/// A fresh session from the side that dialed the current one is a reconnect and
/// replaces it.
pub proof fn law_reconnect_replaces(
    current: ActiveSessionView,
    status: HolderStatus,
    handle: u64,
    session: SessionView,
)
    requires
        current.rank.initiator_id == session.rank.initiator_id,
        session.instance is Some ==> !current.retired.contains(session.instance->0),
    ensures
        registration(Some(current), status, handle, session).outcome == Ok::<_, NetworkErrorView>(
            handle,
        ),
        registration(Some(current), status, handle, session).entry.handle == handle,
{
}

/// Registering the session that is in place changes nothing.
pub proof fn law_registering_again_is_harmless(
    status: HolderStatus,
    handle: u64,
    session: SessionView,
    retired: Seq<Seq<u8>>,
)
    requires
        status.held,
        session.instance is Some ==> !retired.contains(session.instance->0),
    ensures
        ({
            let current = entry_of(handle, session, retired);
            let again = registration(Some(current), status, handle, session);
            again.entry == current && again.closes == Seq::<Close>::empty() && again.outcome
                == Ok::<_, NetworkErrorView>(handle)
        }),
{
}

/// The first session for a peer and a purpose stands, and nothing is closed.
pub proof fn law_first_session_stands(status: HolderStatus, handle: u64, session: SessionView)
    ensures
        ({
            let settled = registration(None, status, handle, session);
            &&& settled.outcome == Ok::<_, NetworkErrorView>(handle)
            &&& settled.closes.len() == 0
            &&& settled.entry.handle == handle
            &&& settled.entry.instance == session.instance
            &&& settled.entry.rank == session.rank
            &&& settled.entry.relayed == session.relayed
            &&& settled.entry.retired.len() == 0
        }),
{
}

/// A session that nobody holds, or whose transport has closed, does not stay in
/// place of a new one, whoever dialed, however the ranks compare and whichever of
/// the two is relayed. The new transport is not closed.
pub proof fn law_dead_session_is_replaced(
    current: ActiveSessionView,
    status: HolderStatus,
    handle: u64,
    session: SessionView,
)
    requires
        !status.held || !status.open,
        session.instance is Some ==> !current.retired.contains(session.instance->0),
        handle != current.handle,
    ensures
        ({
            let settled = registration(Some(current), status, handle, session);
            &&& settled.outcome == Ok::<_, NetworkErrorView>(handle)
            &&& settled.entry.handle == handle
            &&& settled.entry.instance == session.instance
            &&& settled.entry.rank == session.rank
            &&& settled.entry.relayed == session.relayed
            &&& forall|i: int|
                0 <= i < settled.closes.len() ==> (#[trigger] settled.closes[i]).handle != handle
            &&& current.instance is None || session.instance is None || current.instance
                == session.instance ==> settled.closes.len() == 0
        }),
{
}

/// Of two sessions one is in place afterwards, and is the one to use where there
/// is one. Where the new one is in place, its transport is not closed, and that of
/// the current one is where it is open. Otherwise the transport of the new one is
/// closed, and that of the current one is not.
pub proof fn law_loser_is_closed(
    current: ActiveSessionView,
    status: HolderStatus,
    handle: u64,
    session: SessionView,
)
    requires
        handle != current.handle,
    ensures
        ({
            let settled = registration(Some(current), status, handle, session);
            let closed = |closing: u64|
                exists|i: int|
                    0 <= i < settled.closes.len() && (#[trigger] settled.closes[i]).handle
                        == closing;
            &&& settled.entry.handle == handle || settled.entry == current
            &&& settled.outcome matches Ok(chosen) ==> chosen == settled.entry.handle
            &&& settled.outcome is Err ==> settled.entry == current && !(status.held && status.open)
            &&& settled.entry.handle == handle ==> settled.outcome is Ok && !closed(handle)
            &&& settled.entry.handle == handle && status.held && status.open ==> closed(
                current.handle,
            )
            &&& settled.entry.handle != handle ==> closed(handle) && !closed(current.handle)
            &&& settled.entry.handle == handle ==> settled.entry.instance == session.instance
                && settled.entry.rank == session.rank && settled.entry.relayed == session.relayed
            &&& settled.closes.len() <= 1
            &&& settled.closes.len() == 1 && settled.entry.handle == handle
                ==> settled.closes[0].reason == if current.instance is Some && session.instance is Some
                && current.instance != session.instance {
                CloseReason::PeerRestarted
            } else {
                CloseReason::SessionReplaced
            }
            &&& settled.entry.handle != handle ==> settled.closes[0].reason
                == if session.instance is Some && current.retired.contains(session.instance->0) {
                CloseReason::ObsoleteInstance
            } else {
                CloseReason::DuplicateSession
            }
        }),
{
    let settled = registration(Some(current), status, handle, session);
    if settled.entry.handle == handle {
        if status.held && status.open {
            assert(settled.closes[0].handle == current.handle);
        }
    } else {
        assert(settled.closes[0].handle == handle);
    }
}

/// The processes that have been replaced are remembered, 32 of them at most: one
/// more with each restart, and no other change.
pub proof fn law_replaced_processes_are_remembered(
    current: ActiveSessionView,
    status: HolderStatus,
    handle: u64,
    session: SessionView,
)
    requires
        handle != current.handle,
        current.retired.len() <= 32,
    ensures
        ({
            let settled = registration(Some(current), status, handle, session);
            let replaced = settled.entry.handle == handle && current.instance is Some
                && session.instance is Some && current.instance != session.instance;
            &&& settled.entry.retired.len() <= 32
            &&& !replaced ==> settled.entry.retired == current.retired
            &&& replaced && current.retired.len() < 32 ==> settled.entry.retired
                == current.retired.push(current.instance->0)
            &&& replaced && current.retired.len() == 32 ==> settled.entry.retired
                == current.retired.push(current.instance->0).skip(1)
        }),
{
}

/// When the two sides dial each other at once, both settle on the session of the
/// side with the lower device id, in whichever order the sessions arrive. The
/// sessions are not known to come from two processes.
pub proof fn law_opposing_dials_converge(
    a_handle: u64,
    a: SessionView,
    b_handle: u64,
    b: SessionView,
)
    requires
        a.rank.initiator_id != b.rank.initiator_id,
        a.relayed == b.relayed,
        a.instance is Some && b.instance is Some ==> a.instance == b.instance,
        a_handle != b_handle,
    ensures
        ({
            let open = HolderStatus { held: true, open: true };
            let a_first = registration(None, open, a_handle, a).entry;
            let b_first = registration(None, open, b_handle, b).entry;
            let a_then_b = registration(Some(a_first), open, b_handle, b).entry;
            let b_then_a = registration(Some(b_first), open, a_handle, a).entry;
            &&& a_then_b.handle == b_then_a.handle
            &&& a_then_b.rank == b_then_a.rank
            &&& a_then_b.rank == if crate::order::seq_before(
                text_key(a.rank.initiator_id),
                text_key(b.rank.initiator_id),
            ) {
                a.rank
            } else {
                b.rank
            }
        }),
{
    let x = text_key(a.rank.initiator_id);
    let y = text_key(b.rank.initiator_id);
    lemma_before_total(x, y);
    if x == y {
        lemma_text_key_injective(a.rank.initiator_id, b.rank.initiator_id);
    }
    if crate::order::seq_before(x, y) {
        lemma_before_asymmetric(x, y);
    }
}

/// A direct session wins over a relayed one that the other side dialed, in
/// whichever order they arrive, unless the two are known to come from two
/// processes.
pub proof fn law_direct_is_preferred(
    direct_handle: u64,
    direct: SessionView,
    relayed_handle: u64,
    relayed: SessionView,
)
    requires
        direct.rank.initiator_id != relayed.rank.initiator_id,
        !direct.relayed,
        relayed.relayed,
        direct.instance is Some && relayed.instance is Some ==> direct.instance
            == relayed.instance,
        direct_handle != relayed_handle,
    ensures
        ({
            let open = HolderStatus { held: true, open: true };
            let first = registration(None, open, direct_handle, direct).entry;
            let other = registration(None, open, relayed_handle, relayed).entry;
            registration(Some(first), open, relayed_handle, relayed).entry.handle == direct_handle
                && registration(Some(other), open, direct_handle, direct).entry.handle
                == direct_handle
        }),
{
}

fn same_instance(a: &[u8; 16], b: &[u8; 16]) -> (same: bool)
    ensures
        same == (a@ == b@),
{
    let mut i: usize = 0;
    while i < 16
        invariant
            i <= 16,
            forall|j: int| 0 <= j < i ==> a@[j] == b@[j],
        decreases 16 - i,
    {
        if a[i] != b[i] {
            return false;
        }
        i += 1;
    }
    assert(a@ =~= b@);
    true
}

fn has_instance(list: &Vec<[u8; 16]>, instance: &[u8; 16]) -> (found: bool)
    ensures
        found == instances(list@).contains(instance@),
{
    let mut i: usize = 0;
    while i < list.len()
        invariant
            i <= list.len(),
            forall|j: int| 0 <= j < i ==> list@[j]@ != instance@,
        decreases list.len() - i,
    {
        if same_instance(&list[i], instance) {
            assert(instances(list@)[i as int] == instance@);
            return true;
        }
        i += 1;
    }
    false
}

/// `list` with `instance` behind it, cut to the latest that are remembered.
fn retire(list: &Vec<[u8; 16]>, instance: [u8; 16]) -> (retired: Vec<[u8; 16]>)
    ensures
        instances(retired@) == last_of(
            instances(list@).push(instance@),
            MAX_RETIRED_PEER_INSTANCES as int,
        ),
        retired.len() <= MAX_RETIRED_PEER_INSTANCES,
{
    let count: usize = list.len();
    let start: usize = if count >= MAX_RETIRED_PEER_INSTANCES {
        count - (MAX_RETIRED_PEER_INSTANCES - 1)
    } else {
        0
    };
    let mut retired: Vec<[u8; 16]> = Vec::new();
    let mut i: usize = start;
    while i < count
        invariant
            start <= i <= count,
            count == list.len(),
            retired@ == list@.subrange(start as int, i as int),
        decreases count - i,
    {
        retired.push(list[i]);
        i += 1;
        assert(retired@ =~= list@.subrange(start as int, i as int));
    }
    retired.push(instance);
    assert(instances(retired@) =~= last_of(
        instances(list@).push(instance@),
        MAX_RETIRED_PEER_INSTANCES as int,
    ));
    retired
}

fn copy_instances(list: &Vec<[u8; 16]>) -> (copy: Vec<[u8; 16]>)
    ensures
        copy@ == list@,
{
    let mut copy: Vec<[u8; 16]> = Vec::new();
    let mut i: usize = 0;
    while i < list.len()
        invariant
            i <= list.len(),
            copy@ == list@.take(i as int),
        decreases list.len() - i,
    {
        copy.push(list[i]);
        i += 1;
        assert(copy@ =~= list@.take(i as int));
    }
    assert(list@.take(i as int) =~= list@);
    copy
}

/// The sessions in place, by peer and purpose.
pub type SessionMap = Map<(Seq<char>, SessionKind), ActiveSessionView>;

/// The session that stands for a peer and a purpose, where there is one.
pub open spec fn holder_of(map: SessionMap, peer: Seq<char>, kind: SessionKind) -> Option<
    ActiveSessionView,
> {
    if map.contains_key((peer, kind)) {
        Some(map[(peer, kind)])
    } else {
        None
    }
}

/// The purposes of sessions, in order.
pub open spec fn kinds() -> Seq<SessionKind> {
    seq![
        SessionKind::Pairing,
        SessionKind::Control,
        SessionKind::RealtimeInput,
        SessionKind::FileTransfer,
        SessionKind::Print,
        SessionKind::DiscoveryProbe,
    ]
}

/// The handles of the sessions of a peer for these purposes.
pub open spec fn handles_among(map: SessionMap, peer: Seq<char>, kinds: Seq<SessionKind>) -> Seq<
    u64,
>
    decreases kinds.len(),
{
    if kinds.len() == 0 {
        seq![]
    } else {
        let before = handles_among(map, peer, kinds.drop_last());
        match holder_of(map, peer, kinds.last()) {
            Some(active) => before.push(active.handle),
            None => before,
        }
    }
}

/// The handles of all sessions of a peer.
pub open spec fn handles_of(map: SessionMap, peer: Seq<char>) -> Seq<u64> {
    handles_among(map, peer, kinds())
}

/// The sessions of all other peers.
pub open spec fn without_peer(map: SessionMap, peer: Seq<char>) -> SessionMap {
    map.remove_keys(Set::new(|key: (Seq<char>, SessionKind)| key.0 == peer))
}

/// Some session of the peer has an open transport.
pub open spec fn is_connected(map: SessionMap, peer: Seq<char>, open: Seq<u64>) -> bool {
    exists|kind: SessionKind| #[trigger]
        map.contains_key((peer, kind)) && open.contains(map[(peer, kind)].handle)
}

/// A peer that is disconnected has no session left, and no other peer loses one.
pub proof fn law_disconnect_is_complete(
    map: SessionMap,
    peer: Seq<char>,
    other: Seq<char>,
    kind: SessionKind,
)
    requires
        other != peer,
    ensures
        holder_of(without_peer(map, peer), peer, kind) is None,
        holder_of(without_peer(map, peer), other, kind) == holder_of(map, other, kind),
        holder_of(map, peer, kind) matches Some(active) ==> handles_of(map, peer).contains(
            active.handle,
        ),
{
    if let Some(active) = holder_of(map, peer, kind) {
        let i = choose|i: int| 0 <= i < kinds().len() && kinds()[i] == kind;
        assert(kinds()[0] == SessionKind::Pairing);
        assert(kinds()[1] == SessionKind::Control);
        assert(kinds()[2] == SessionKind::RealtimeInput);
        assert(kinds()[3] == SessionKind::FileTransfer);
        assert(kinds()[4] == SessionKind::Print);
        assert(kinds()[5] == SessionKind::DiscoveryProbe);
        lemma_handle_listed(map, peer, kinds(), i);
    }
}

/// The handles of a peer are those of its sessions, and no others.
pub proof fn law_handles_are_those_of_the_peer(map: SessionMap, peer: Seq<char>, handle: u64)
    ensures
        handles_of(map, peer).contains(handle) <==> exists|kind: SessionKind| #[trigger]
            map.contains_key((peer, kind)) && map[(peer, kind)].handle == handle,
        handles_of(map, peer).len() <= 6,
{
    lemma_listed_handle(map, peer, kinds(), handle);
    if exists|kind: SessionKind| #[trigger]
        map.contains_key((peer, kind)) && map[(peer, kind)].handle == handle {
        let kind = choose|kind: SessionKind| #[trigger]
            map.contains_key((peer, kind)) && map[(peer, kind)].handle == handle;
        assert(kinds()[0] == SessionKind::Pairing);
        assert(kinds()[1] == SessionKind::Control);
        assert(kinds()[2] == SessionKind::RealtimeInput);
        assert(kinds()[3] == SessionKind::FileTransfer);
        assert(kinds()[4] == SessionKind::Print);
        assert(kinds()[5] == SessionKind::DiscoveryProbe);
        let i = choose|i: int| 0 <= i < kinds().len() && kinds()[i] == kind;
        lemma_handle_listed(map, peer, kinds(), i);
    }
}

proof fn lemma_listed_handle(
    map: SessionMap,
    peer: Seq<char>,
    list: Seq<SessionKind>,
    handle: u64,
)
    ensures
        handles_among(map, peer, list).len() <= list.len(),
        handles_among(map, peer, list).contains(handle) ==> exists|kind: SessionKind| #[trigger]
            map.contains_key((peer, kind)) && map[(peer, kind)].handle == handle,
    decreases list.len(),
{
    if list.len() > 0 {
        let before = handles_among(map, peer, list.drop_last());
        let all = handles_among(map, peer, list);
        lemma_listed_handle(map, peer, list.drop_last(), handle);
        if all.contains(handle) {
            let i = choose|i: int| 0 <= i < all.len() && all[i] == handle;
            if i < before.len() {
                assert(before[i] == handle);
                assert(before.contains(handle));
            } else {
                assert(map.contains_key((peer, list.last())));
            }
        }
    }
}

/// A peer is connected where the transport of one of its sessions is open, for
/// whichever purpose.
pub proof fn law_connected_by_any_session(
    map: SessionMap,
    peer: Seq<char>,
    open: Seq<u64>,
    kind: SessionKind,
)
    ensures
        map.contains_key((peer, kind)) && open.contains(map[(peer, kind)].handle) ==> is_connected(
            map,
            peer,
            open,
        ),
        (forall|kind: SessionKind|
            #![trigger map.contains_key((peer, kind))]
            map.contains_key((peer, kind)) ==> !open.contains(map[(peer, kind)].handle))
            ==> !is_connected(map, peer, open),
{
}

/// What peers are told of a closed transport: 403 where the device was forgotten,
/// 0 where its rights changed, and 409 where another session prevails.
pub proof fn law_close_codes(reason: CloseReason)
    ensures
        reason.number() == 403 <==> reason == CloseReason::PeerForgotten,
        reason.number() == 0 <==> reason == CloseReason::AuthorizationChanged,
        reason.number() == 403 || reason.number() == 0 || reason.number() == 409,
{
}

proof fn lemma_handle_listed(map: SessionMap, peer: Seq<char>, list: Seq<SessionKind>, i: int)
    requires
        0 <= i < list.len(),
        map.contains_key((peer, list[i])),
    ensures
        handles_among(map, peer, list).contains(map[(peer, list[i])].handle),
    decreases list.len(),
{
    let handle = map[(peer, list[i])].handle;
    let all = handles_among(map, peer, list);
    let before = handles_among(map, peer, list.drop_last());
    if i == list.len() - 1 {
        assert(all == before.push(handle));
        assert(all[all.len() - 1] == handle);
    } else {
        lemma_handle_listed(map, peer, list.drop_last(), i);
        let k = choose|k: int| 0 <= k < before.len() && before[k] == handle;
        assert(all[k] == handle);
    }
}

/// The sessions of the process, one for each peer and purpose.
pub struct SessionRegistry {
    sessions: Table<SessionKey, ActiveSession>,
}

spec fn session_map(map: Map<(Seq<char>, SessionKind), ActiveSession>) -> SessionMap {
    map.map_values(|active: ActiveSession| active@)
}

/// No entry remembers more retired processes than the limit.
pub open spec fn retirement_is_bounded(map: SessionMap) -> bool {
    forall|key: (Seq<char>, SessionKind)| #[trigger]
        map.contains_key(key) ==> map[key].retired.len() <= MAX_RETIRED_PEER_INSTANCES
}

impl View for SessionRegistry {
    type V = SessionMap;

    closed spec fn view(&self) -> SessionMap {
        session_map(self.sessions@)
    }
}

impl SessionRegistry {
    #[verifier::type_invariant]
    spec fn consistent(self) -> bool {
        retirement_is_bounded(self@)
    }

    /// A registry without sessions.
    pub fn new() -> (registry: Self)
        ensures
            registry@ == SessionMap::empty(),
    {
        let registry = SessionRegistry { sessions: Table::new() };
        assert(registry@ =~= SessionMap::empty());
        registry
    }

    /// The handle of the session that stands for a peer and a purpose.
    pub fn holder(&self, peer: &DeviceId, kind: SessionKind) -> (handle: Option<u64>)
        ensures
            handle == match holder_of(self@, peer@, kind) {
                Some(active) => Some(active.handle),
                None => None,
            },
            retirement_is_bounded(self@),
    {
        proof {
            use_type_invariant(self);
        }
        match self.sessions.get(&SessionKey { peer: peer.clone(), kind }) {
            Some(active) => Some(active.handle),
            None => None,
        }
    }

    /// Registers an authenticated session. `status` is that of the session that
    /// stands in its place, where there is one.
    pub fn register_session(&mut self, handle: u64, session: &Session, status: HolderStatus) -> (result:
        Registration)
        ensures
            ({
                let key = (session@.peer.device_id, session@.kind);
                let settled = registration(
                    holder_of(old(self)@, key.0, key.1),
                    status,
                    handle,
                    session@,
                );
                &&& plain_result(result.outcome) == settled.outcome
                &&& result.closes@ == settled.closes
                &&& final(self)@ == old(self)@.insert(key, settled.entry)
            }),
            retirement_is_bounded(final(self)@),
    {
        proof {
            use_type_invariant(&*self);
        }
        let ghost start = self@;
        let ghost key = (session@.peer.device_id, session@.kind);
        let ghost current = holder_of(start, key.0, key.1);
        let ghost settled = registration(current, status, handle, session@);
        let place = SessionKey { peer: session.peer.device_id.clone(), kind: session.kind };
        let mut closes: Vec<Close> = Vec::new();
        let mut retired: Vec<[u8; 16]> = Vec::new();
        assert(instances(retired@) =~= Seq::<Seq<u8>>::empty());
        if let Some(active) = self.sessions.get(&place) {
            assert(current == Some(active@));
            assert(start.contains_key(key));
            if let Some(instance) = &session.peer_process_instance_id {
                if has_instance(&active.retired_peer_instances, instance) {
                    closes.push(Close { handle, reason: CloseReason::ObsoleteInstance });
                    let outcome = if status.held && status.open {
                        Ok(active.handle)
                    } else {
                        Err(connect_failed("obsolete peer process instance"))
                    };
                    assert(start =~= start.insert(key, settled.entry));
                    assert(closes@ =~= settled.closes);
                    return Registration { outcome, closes };
                }
            }
            let mut is_restarted = false;
            retired = copy_instances(&active.retired_peer_instances);
            if let (Some(previous), Some(incoming)) = (
                &active.peer_process_instance_id,
                &session.peer_process_instance_id,
            ) {
                if !same_instance(previous, incoming) {
                    is_restarted = true;
                    retired = retire(&active.retired_peer_instances, *previous);
                    closes.push(
                        Close { handle: active.handle, reason: CloseReason::PeerRestarted },
                    );
                }
            }
            assert(is_restarted == restarted(active@, session@));
            assert(instances(retired@) == retired_by(active@, session@));
            if status.held {
                if active.handle == handle {
                    assert(start =~= start.insert(key, settled.entry));
                    assert(closes@ =~= settled.closes);
                    return Registration { outcome: Ok(handle), closes };
                }
                let same_initiator = active.rank.initiator_id.same(&session.rank.initiator_id);
                let keep_direct = !same_initiator && !active.relayed && session.relayed;
                let prefer_direct = active.relayed && !session.relayed;
                let is_open = status.open && !is_restarted;
                if is_open && (keep_direct || (!prefer_direct && !same_initiator
                    && !session.rank.is_before(&active.rank))) {
                    assert(stays(active@, status, session@));
                    closes.push(Close { handle, reason: CloseReason::DuplicateSession });
                    assert(start =~= start.insert(key, settled.entry));
                    assert(closes@ =~= settled.closes);
                    return Registration { outcome: Ok(active.handle), closes };
                }
                assert(!stays(active@, status, session@));
                if is_open {
                    closes.push(
                        Close { handle: active.handle, reason: CloseReason::SessionReplaced },
                    );
                }
            }
            assert(closes@ =~= settled.closes);
        }
        let fresh = ActiveSession {
            handle,
            peer_process_instance_id: session.peer_process_instance_id,
            retired_peer_instances: retired,
            rank: session.rank.clone(),
            relayed: session.relayed,
        };
        assert(fresh@ == settled.entry);
        assert(closes@ =~= settled.closes);
        let mut sessions: Table<SessionKey, ActiveSession> = Table::new();
        assert(session_map(sessions@) =~= SessionMap::empty());
        std::mem::swap(&mut sessions, &mut self.sessions);
        sessions.insert(place, fresh);
        assert(session_map(sessions@) =~= start.insert(key, settled.entry));
        self.sessions = sessions;
        Registration { outcome: Ok(handle), closes }
    }

    /// The session to use for a peer and a purpose. One that is no longer held
    /// or open is dropped from the registry.
    pub fn active(&mut self, peer: &DeviceId, kind: SessionKind, status: HolderStatus) -> (handle:
        Option<u64>)
        ensures
            handle == match holder_of(old(self)@, peer@, kind) {
                Some(active) => if status.held && status.open {
                    Some(active.handle)
                } else {
                    None
                },
                None => None,
            },
            final(self)@ == if handle is Some {
                old(self)@
            } else {
                old(self)@.remove((peer@, kind))
            },
    {
        match self.holder(peer, kind) {
            Some(handle) if status.held && status.open => Some(handle),
            _ => {
                let _ = self.drop_session(peer, kind);
                None
            },
        }
    }

    /// Drops the session of a peer and a purpose.
    fn drop_session(&mut self, peer: &DeviceId, kind: SessionKind) -> (handle: Option<u64>)
        ensures
            handle == match holder_of(old(self)@, peer@, kind) {
                Some(active) => Some(active.handle),
                None => None,
            },
            final(self)@ == old(self)@.remove((peer@, kind)),
    {
        proof {
            use_type_invariant(&*self);
        }
        let ghost start = self@;
        let mut sessions: Table<SessionKey, ActiveSession> = Table::new();
        assert(session_map(sessions@) =~= SessionMap::empty());
        std::mem::swap(&mut sessions, &mut self.sessions);
        let dropped = sessions.remove(&SessionKey { peer: peer.clone(), kind });
        assert(session_map(sessions@) =~= start.remove((peer@, kind)));
        self.sessions = sessions;
        match dropped {
            Some(active) => Some(active.handle),
            None => None,
        }
    }

    /// Drops the session of a peer and a purpose where it is the one of this
    /// handle.
    pub fn release(&mut self, peer: &DeviceId, kind: SessionKind, handle: u64) -> (released: bool)
        ensures
            released == (holder_of(old(self)@, peer@, kind) matches Some(active) && active.handle
                == handle),
            final(self)@ == if released {
                old(self)@.remove((peer@, kind))
            } else {
                old(self)@
            },
    {
        let released = match self.holder(peer, kind) {
            Some(current) => current == handle,
            None => false,
        };
        if released {
            let _ = self.drop_session(peer, kind);
        }
        released
    }

    /// Drops every session of a peer, and says which transports to close.
    pub fn disconnect(&mut self, peer: &DeviceId) -> (handles: Vec<u64>)
        ensures
            handles@ == handles_of(old(self)@, peer@),
            final(self)@ == without_peer(old(self)@, peer@),
    {
        let ghost start = self@;
        let all = [
            SessionKind::Pairing,
            SessionKind::Control,
            SessionKind::RealtimeInput,
            SessionKind::FileTransfer,
            SessionKind::Print,
            SessionKind::DiscoveryProbe,
        ];
        assert(all@ =~= kinds());
        let mut handles: Vec<u64> = Vec::new();
        let mut i: usize = 0;
        assert(all@.take(0) =~= Seq::<SessionKind>::empty());
        while i < 6
            invariant
                i <= 6,
                all@ == kinds(),
                handles@ == handles_among(start, peer@, all@.take(i as int)),
                forall|key: (Seq<char>, SessionKind)| #[trigger]
                    self@.contains_key(key) <==> start.contains_key(key) && !(key.0 == peer@
                        && all@.take(i as int).contains(key.1)),
                forall|key: (Seq<char>, SessionKind)| #[trigger]
                    self@.contains_key(key) ==> self@[key] == start[key],
            decreases 6 - i,
        {
            let ghost before = self@;
            let kind: SessionKind = all[i];
            let ghost listed = all@.take(i as int);
            let ghost next = all@.take(i + 1);
            proof {
                assert(next.drop_last() =~= listed);
                assert(next.last() == kind);
                assert(!listed.contains(kind)) by {
                    if listed.contains(kind) {
                        let k = choose|k: int| 0 <= k < listed.len() && listed[k] == kind;
                        assert(kinds()[k] == kinds()[i as int]);
                    }
                }
                assert(before.contains_key((peer@, kind)) == start.contains_key((peer@, kind)));
            }
            if let Some(handle) = self.drop_session(peer, kind) {
                handles.push(handle);
            }
            proof {
                assert forall|key: (Seq<char>, SessionKind)| #[trigger]
                    self@.contains_key(key) <==> start.contains_key(key) && !(key.0 == peer@
                        && next.contains(key.1)) by {
                    assert(self@ == before.remove((peer@, kind)));
                    assert(before.contains_key(key) == (start.contains_key(key) && !(key.0 == peer@
                        && listed.contains(key.1))));
                    if listed.contains(key.1) {
                        let k = choose|k: int| 0 <= k < listed.len() && listed[k] == key.1;
                        assert(next[k] == key.1);
                    }
                    if next.contains(key.1) && key.1 != kind {
                        let k = choose|k: int| 0 <= k < next.len() && next[k] == key.1;
                        assert(listed[k] == key.1);
                    }
                    assert(next[i as int] == kind);
                }
            }
            i += 1;
        }
        proof {
            assert(all@.take(6) =~= all@);
            assert forall|kind: SessionKind| #[trigger] kinds().contains(kind) by {
                assert(kinds()[0] == SessionKind::Pairing);
                assert(kinds()[1] == SessionKind::Control);
                assert(kinds()[2] == SessionKind::RealtimeInput);
                assert(kinds()[3] == SessionKind::FileTransfer);
                assert(kinds()[4] == SessionKind::Print);
                assert(kinds()[5] == SessionKind::DiscoveryProbe);
            }
            assert forall|key: (Seq<char>, SessionKind)| #[trigger]
                self@.contains_key(key) == without_peer(start, peer@).contains_key(key) by {
                assert(kinds().contains(key.1));
            }
            assert(self@ =~= without_peer(start, peer@));
        }
        handles
    }

    /// Drops the sessions that carry an older authorization after a grant was
    /// saved. Injection from another screen is used by realtime input alone.
    pub fn grant_changed(&mut self, peer: &DeviceId, capability: CapabilityId) -> (handles: Vec<
        u64,
    >)
        ensures
            ({
                let injects = capability.role == CapabilityRole::CrossScreenInject;
                &&& handles@ == if injects {
                    handles_among(old(self)@, peer@, seq![SessionKind::RealtimeInput])
                } else {
                    handles_of(old(self)@, peer@)
                }
                &&& final(self)@ == if injects {
                    old(self)@.remove((peer@, SessionKind::RealtimeInput))
                } else {
                    without_peer(old(self)@, peer@)
                }
            }),
    {
        if capability.role == CapabilityRole::CrossScreenInject {
            let ghost start = self@;
            let ghost only = seq![SessionKind::RealtimeInput];
            proof {
                assert(only.drop_last() =~= Seq::<SessionKind>::empty());
                reveal_with_fuel(handles_among, 2);
            }
            let mut handles: Vec<u64> = Vec::new();
            if let Some(handle) = self.drop_session(peer, SessionKind::RealtimeInput) {
                handles.push(handle);
            }
            assert(handles@ =~= handles_among(start, peer@, only));
            handles
        } else {
            self.disconnect(peer)
        }
    }

    /// The peers that have a session with an open transport, in order. `open`
    /// holds the handles whose transport has not been closed.
    pub fn connected_peers(&self, open: &Vec<u64>) -> (peers: Vec<DeviceId>)
        ensures
            crate::order::is_strictly_sorted(views(peers@), crate::peer::id_key()),
            forall|peer: Seq<char>| #[trigger]
                views(peers@).contains(peer) <==> is_connected(self@, peer, open@),
    {
        let mut found: Vec<DeviceId> = Vec::new();
        let count: usize = self.sessions.len();
        let ghost listed = self.sessions.listed();
        let mut i: usize = 0;
        while i < count
            invariant
                i <= count,
                count == self.sessions.listed().len(),
                listed == self.sessions.listed(),
                forall|k: int|
                    0 <= k < listed.len() ==> self.sessions@.contains_key((#[trigger] listed[k]).0)
                        && self.sessions@[listed[k].0] == listed[k].1,
                forall|k: int|
                    0 <= k < i && open@.contains((#[trigger] listed[k]).1.handle) ==> views(
                        found@,
                    ).contains(listed[k].0.0),
                forall|k: int|
                    0 <= k < found.len() ==> is_connected(self@, (#[trigger] found@[k])@, open@),
            decreases count - i,
        {
            let entry = self.sessions.at(i);
            let ghost before = found@;
            assert(entry.0@ == listed[i as int].0);
            if contains_handle(open, entry.1.handle) {
                let peer = entry.0.peer.clone();
                proof {
                    let key = listed[i as int].0;
                    assert(self@.contains_key((key.0, key.1)));
                    assert(is_connected(self@, key.0, open@));
                    assert(peer@ == key.0);
                }
                found.push(peer);
                assert(views(found@)[before.len() as int] == listed[i as int].0.0);
                assert forall|x: Seq<char>| views(before).contains(x) implies #[trigger] views(
                    found@,
                ).contains(x) by {
                    let k = choose|k: int| 0 <= k < before.len() && views(before)[k] == x;
                    assert(views(found@)[k] == x);
                }
            }
            i += 1;
        }
        let ghost all = found@;
        let peers = id_set(found);
        proof {
            assert(is_id_set(views(all), views(peers@)));
            assert forall|peer: Seq<char>| #[trigger]
                views(peers@).contains(peer) <==> is_connected(self@, peer, open@) by {
                if views(peers@).contains(peer) {
                    assert(views(all).contains(peer));
                    let k = choose|k: int| 0 <= k < all.len() && views(all)[k] == peer;
                    assert(all[k]@ == peer);
                }
                if is_connected(self@, peer, open@) {
                    let kind = choose|kind: SessionKind| #[trigger]
                        self@.contains_key((peer, kind)) && open@.contains(
                            self@[(peer, kind)].handle,
                        );
                    let key = (peer, kind);
                    assert(self.sessions@.contains_key(key));
                    assert(listed.contains((key, self.sessions@[key])));
                    let k = choose|k: int|
                        0 <= k < listed.len() && listed[k] == (key, self.sessions@[key]);
                    assert(views(all).contains(listed[k].0.0));
                }
            }
        }
        peers
    }
}

fn contains_handle(list: &Vec<u64>, handle: u64) -> (found: bool)
    ensures
        found == list@.contains(handle),
{
    let mut i: usize = 0;
    while i < list.len()
        invariant
            i <= list.len(),
            forall|j: int| 0 <= j < i ==> list@[j] != handle,
        decreases list.len() - i,
    {
        if list[i] == handle {
            return true;
        }
        i += 1;
    }
    false
}

} // verus!
