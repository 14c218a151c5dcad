//! Dialing a device at several endpoints at once.
use vstd::prelude::*;
use vstd::string::*;

use crate::address::{
    endpoint_set, is_dialable, is_endpoint_set, dialable, law_endpoint_set, socket_form, socket_text,
    IpAddress, SocketAddress,
};
use crate::discovery::{PeerAdvertisement, PeerAdvertisementView};
use crate::endpoint::{EndpointSource, RememberedEndpoint};
use crate::error::{connect_failed, plain_result, protocol, NetworkError, NetworkErrorView};
use crate::order::seq_before;
use crate::peer::{views, DeviceId, PeerRecord};
use crate::runtime::diagnostics::{
    address_family, canonical, canonical_endpoint, endpoint_id, family, interface_of, label,
    quic_failure_kind, scope_id, QuicFailure,
};
use crate::runtime::protocol::{
    announced_verdict, authenticate_outbound, authenticate_outbound_paired, paired_verdict,
};
use crate::runtime::session::{SessionKind, SessionPeer};
use crate::text::{
    byte_len, decimal, decimal_text, has_white_space, is_space, trim, trimmed, utf8_len,
};

verus! {

/// How many endpoints one dial tries.
pub const MAX_CANDIDATES: usize = 16;

/// How many endpoints of one dial are tried at a time.
pub const MAX_CONCURRENT_CANDIDATES: usize = 3;

/// The pause between the starts of two candidates, in milliseconds.
pub const LAUNCH_INTERVAL_MS: u64 = 200;

/// How many endpoints of a host that the user named are tried.
pub const MAX_MANUAL_ENDPOINTS: usize = 32;

/// The items without those that occurred before.
pub open spec fn firsts(list: Seq<SocketAddress>) -> Seq<SocketAddress>
    decreases list.len(),
{
    if list.len() == 0 {
        seq![]
    } else {
        let before = firsts(list.drop_last());
        if before.contains(list.last()) {
            before
        } else {
            before.push(list.last())
        }
    }
}

/// The first `count` items, or all where there are fewer.
pub open spec fn at_most<T>(list: Seq<T>, count: int) -> Seq<T> {
    if list.len() > count {
        list.take(count)
    } else {
        list
    }
}

/// The forms of endpoints.
pub open spec fn forms(addresses: Seq<SocketAddress>) -> Seq<SocketAddress> {
    addresses.map_values(|address: SocketAddress| canonical(address))
}

/// The endpoints that a dial tries: the first 16 different ones.
pub open spec fn candidates(addresses: Seq<SocketAddress>) -> Seq<SocketAddress> {
    at_most(firsts(forms(addresses)), MAX_CANDIDATES as int)
}

proof fn lemma_firsts_grow(list: Seq<SocketAddress>, count: int)
    requires
        0 <= count <= list.len(),
    ensures
        firsts(list.take(count)).is_prefix_of(firsts(list)),
    decreases list.len(),
{
    if count == list.len() {
        assert(list.take(count) =~= list);
    } else {
        let rest = list.drop_last();
        assert(rest.take(count) =~= list.take(count));
        lemma_firsts_grow(rest, count);
    }
}

proof fn lemma_firsts(list: Seq<SocketAddress>)
    ensures
        firsts(list).no_duplicates(),
        forall|address: SocketAddress| #[trigger]
            firsts(list).contains(address) <==> list.contains(address),
    decreases list.len(),
{
    if list.len() > 0 {
        let rest = list.drop_last();
        let last = list.last();
        lemma_firsts(rest);
        let before = firsts(rest);
        let after = firsts(list);
        assert forall|address: SocketAddress| #[trigger]
            after.contains(address) <==> list.contains(address) by {
            if after.contains(address) {
                let i = choose|i: int| 0 <= i < after.len() && after[i] == address;
                if i < before.len() {
                    assert(before[i] == address);
                    assert(before.contains(address));
                    assert(rest.contains(address));
                    let k = choose|k: int| 0 <= k < rest.len() && rest[k] == address;
                    assert(list[k] == address);
                } else {
                    assert(list[list.len() - 1] == address);
                }
            }
            if list.contains(address) {
                let i = choose|i: int| 0 <= i < list.len() && list[i] == address;
                if i < rest.len() {
                    assert(rest[i] == address);
                    assert(rest.contains(address));
                    assert(before.contains(address));
                    let k = choose|k: int| 0 <= k < before.len() && before[k] == address;
                    assert(after[k] == address);
                } else if !before.contains(last) {
                    assert(after[after.len() - 1] == address);
                }
            }
        }
    }
}

/// A dial tries at most 16 endpoints, no endpoint twice in whichever way it was
/// written, and none that was not given.
pub proof fn law_candidates_are_bounded(addresses: Seq<SocketAddress>)
    ensures
        candidates(addresses).len() <= MAX_CANDIDATES,
        candidates(addresses).no_duplicates(),
        forall|address: SocketAddress| #[trigger]
            candidates(addresses).contains(address) ==> forms(addresses).contains(address),
        addresses.len() > 0 ==> candidates(addresses).len() > 0,
{
    let all = firsts(forms(addresses));
    let chosen = candidates(addresses);
    lemma_firsts(forms(addresses));
    assert forall|address: SocketAddress| #[trigger]
        chosen.contains(address) implies forms(addresses).contains(address) by {
        let i = choose|i: int| 0 <= i < chosen.len() && chosen[i] == address;
        assert(all[i] == address);
        assert(all.contains(address));
    }
    if addresses.len() > 0 {
        assert(forms(addresses).contains(forms(addresses)[0]));
        assert(all.contains(forms(addresses)[0]));
    }
}

fn contains_endpoint(list: &Vec<SocketAddress>, address: SocketAddress) -> (found: bool)
    ensures
        found == list@.contains(address),
{
    let mut i: usize = 0;
    while i < list.len()
        invariant
            i <= list.len(),
            forall|j: int| 0 <= j < i ==> list@[j] != address,
        decreases list.len() - i,
    {
        if list[i] == address {
            return true;
        }
        i += 1;
    }
    false
}

fn contains_address(list: &Vec<IpAddress>, address: IpAddress) -> (found: bool)
    ensures
        found == list@.contains(address),
{
    let mut i: usize = 0;
    while i < list.len()
        invariant
            i <= list.len(),
            forall|j: int| 0 <= j < i ==> list@[j] != address,
        decreases list.len() - i,
    {
        if list[i] == address {
            return true;
        }
        i += 1;
    }
    false
}

/// The endpoints that a dial tries, or the error where there are none.
pub fn dial_candidates(addresses: &Vec<SocketAddress>) -> (chosen: Result<
    Vec<SocketAddress>,
    NetworkError,
>)
    ensures
        match chosen {
            Ok(chosen) => addresses@.len() > 0 && chosen@ == candidates(addresses@),
            Err(error) => addresses@.len() == 0 && error@ == NetworkErrorView::Connect(
                "no dial endpoints"@,
            ),
        },
{
    let ghost all = forms(addresses@);
    let mut unique: Vec<SocketAddress> = Vec::new();
    let mut i: usize = 0;
    assert(all.take(0) =~= seq![]);
    while i < addresses.len() && unique.len() < MAX_CANDIDATES
        invariant
            i <= addresses.len(),
            all == forms(addresses@),
            unique@ == firsts(all.take(i as int)),
            unique.len() <= MAX_CANDIDATES,
        decreases addresses.len() - i,
    {
        let address = canonical_endpoint(addresses[i]);
        proof {
            let part = all.take(i + 1);
            assert(part.drop_last() =~= all.take(i as int));
            assert(part.last() == address);
        }
        if !contains_endpoint(&unique, address) {
            unique.push(address);
        }
        i += 1;
    }
    proof {
        lemma_firsts_grow(all, i as int);
        law_candidates_are_bounded(addresses@);
        if i == addresses.len() {
            assert(all.take(i as int) =~= all);
        } else {
            assert(unique@ =~= firsts(all).take(MAX_CANDIDATES as int));
        }
        assert(unique@ =~= candidates(addresses@));
    }
    if unique.len() == 0 {
        return Err(connect_failed("no dial endpoints"));
    }
    Ok(unique)
}

/// When a candidate starts after the dial started, in milliseconds.
pub fn launch_delay_ms(index: usize) -> (delay: u64)
    requires
        index < MAX_CANDIDATES,
    ensures
        delay == index * LAUNCH_INTERVAL_MS,
{
    index as u64 * LAUNCH_INTERVAL_MS
}

/// How far a candidate got.
#[derive(Debug, Clone, Copy, PartialEq, Eq, Structural)]
pub enum DialPhase {
    CandidateCapacityWait,
    GlobalCapacityWait,
    QuicHandshake,
    PeerAuthentication,
}

impl DialPhase {
    /// The name of the phase in logs.
    pub open spec fn name(self) -> Seq<char> {
        match self {
            DialPhase::CandidateCapacityWait => "candidate_capacity_wait"@,
            DialPhase::GlobalCapacityWait => "global_capacity_wait"@,
            DialPhase::QuicHandshake => "quic_handshake"@,
            DialPhase::PeerAuthentication => "peer_authentication"@,
        }
    }

    /// The name of the phase in logs.
    pub fn label(self) -> (name: &'static str)
        ensures
            name@ == self.name(),
    {
        match self {
            DialPhase::CandidateCapacityWait => "candidate_capacity_wait",
            DialPhase::GlobalCapacityWait => "global_capacity_wait",
            DialPhase::QuicHandshake => "quic_handshake",
            DialPhase::PeerAuthentication => "peer_authentication",
        }
    }
}

/// What happened to a candidate.
#[derive(Debug, Clone, Copy, PartialEq, Eq, Structural)]
pub enum CandidateEvent {
    /// The limit that it waited for lets it go on.
    Admitted,
    /// The QUIC handshake is complete.
    Connected,
    /// The peer is authenticated.
    Authenticated,
    /// Something failed, or took too long.
    Failed,
}

/// What is done next for a candidate.
#[derive(Debug, Clone, Copy, PartialEq, Eq, Structural)]
pub enum CandidateAction {
    /// Wait for the limit on the handshakes of the whole runtime.
    WaitForHandshake,
    /// Connect.
    Connect,
    /// Authenticate the peer.
    Authenticate,
    /// Stop the other candidates and register the session.
    Register,
    /// Count the candidate as failed in its phase.
    Fail,
}

/// The next phase of a candidate, and what is done in it. The first phase waits
/// for the limit on the candidates of one dial.
pub open spec fn candidate_step(phase: DialPhase, event: CandidateEvent) -> (
    DialPhase,
    CandidateAction,
) {
    match (phase, event) {
        (DialPhase::CandidateCapacityWait, CandidateEvent::Admitted) => (
            DialPhase::GlobalCapacityWait,
            CandidateAction::WaitForHandshake,
        ),
        (DialPhase::GlobalCapacityWait, CandidateEvent::Admitted) => (
            DialPhase::QuicHandshake,
            CandidateAction::Connect,
        ),
        (DialPhase::QuicHandshake, CandidateEvent::Connected) => (
            DialPhase::PeerAuthentication,
            CandidateAction::Authenticate,
        ),
        (DialPhase::PeerAuthentication, CandidateEvent::Authenticated) => (
            phase,
            CandidateAction::Register,
        ),
        _ => (phase, CandidateAction::Fail),
    }
}

/// The next phase of a candidate, and what is done in it.
pub fn next_candidate_step(phase: DialPhase, event: CandidateEvent) -> (step: (
    DialPhase,
    CandidateAction,
))
    ensures
        step == candidate_step(phase, event),
{
    match (phase, event) {
        (DialPhase::CandidateCapacityWait, CandidateEvent::Admitted) => (
            DialPhase::GlobalCapacityWait,
            CandidateAction::WaitForHandshake,
        ),
        (DialPhase::GlobalCapacityWait, CandidateEvent::Admitted) => (
            DialPhase::QuicHandshake,
            CandidateAction::Connect,
        ),
        (DialPhase::QuicHandshake, CandidateEvent::Connected) => (
            DialPhase::PeerAuthentication,
            CandidateAction::Authenticate,
        ),
        (DialPhase::PeerAuthentication, CandidateEvent::Authenticated) => (
            phase,
            CandidateAction::Register,
        ),
        _ => (phase, CandidateAction::Fail),
    }
}

/// A session is registered only once its peer is authenticated.
pub proof fn law_only_an_authenticated_candidate_wins(phase: DialPhase, event: CandidateEvent)
    requires
        candidate_step(phase, event).1 == CandidateAction::Register,
    ensures
        phase == DialPhase::PeerAuthentication,
        event == CandidateEvent::Authenticated,
{
}

/// A candidate that failed.
#[derive(Debug)]
pub struct CandidateFailure {
    pub address: SocketAddress,
    pub phase: DialPhase,
    pub quic: Option<QuicFailure>,
    pub error: NetworkError,
}

/// What ended a part of a dial without a session.
#[derive(Debug)]
pub enum DialFailure {
    /// A candidate failed.
    Candidate(CandidateFailure),
    /// The work on a candidate broke off, for this reason.
    Task(String),
}

/// What a [`DialFailure`] says.
pub enum DialFailureView {
    Candidate {
        address: SocketAddress,
        phase: DialPhase,
        quic: Option<QuicFailure>,
        error: NetworkErrorView,
    },
    Task(Seq<char>),
}

impl View for DialFailure {
    type V = DialFailureView;

    open spec fn view(&self) -> DialFailureView {
        match self {
            DialFailure::Candidate(failure) => DialFailureView::Candidate {
                address: failure.address,
                phase: failure.phase,
                quic: failure.quic,
                error: failure.error@,
            },
            DialFailure::Task(reason) => DialFailureView::Task(reason@),
        }
    }
}

/// How an endpoint failed, as text.
pub open spec fn endpoint_failure(address: SocketAddress, error: NetworkErrorView) -> Seq<char> {
    socket_form(address) + ": "@ + error.sentence()
}

impl DialFailureView {
    /// The failure as text.
    pub open spec fn text(self) -> Seq<char> {
        match self {
            DialFailureView::Candidate { address, phase, quic, error } => endpoint_failure(
                address,
                error,
            ),
            DialFailureView::Task(reason) => reason,
        }
    }

    /// The path gave no answer: the QUIC handshake ran out of time.
    pub open spec fn unanswered(self) -> bool {
        self matches DialFailureView::Candidate { phase, quic, error, .. } && phase
            == DialPhase::QuicHandshake && (error == NetworkErrorView::Timeout || quic == Some(
            QuicFailure::TimedOut,
        ))
    }

    /// The peer answered, and was not authenticated.
    pub open spec fn unauthenticated(self) -> bool {
        self matches DialFailureView::Candidate { phase, .. } && phase
            == DialPhase::PeerAuthentication
    }
}

/// Texts one after the other, with `"; "` between them.
pub open spec fn chained(list: Seq<Seq<char>>) -> Seq<char>
    decreases list.len(),
{
    if list.len() == 0 {
        seq![]
    } else if list.len() == 1 {
        list[0]
    } else {
        chained(list.drop_last()) + "; "@ + list.last()
    }
}

/// Texts one after the other, with `"; "` between them.
pub fn chain(list: &Vec<String>) -> (text: String)
    ensures
        text@ == chained(crate::peer::texts(list@)),
{
    let ghost all = crate::peer::texts(list@);
    let mut text = String::new();
    assert(text@ =~= chained(all.take(0)));
    let mut i: usize = 0;
    while i < list.len()
        invariant
            i <= list.len(),
            all == crate::peer::texts(list@),
            text@ == chained(all.take(i as int)),
        decreases list.len() - i,
    {
        let ghost before = text@;
        proof {
            let part = all.take(i + 1);
            assert(part.drop_last() =~= all.take(i as int));
            assert(part.last() == all[i as int]);
            assert(part[0] == all[0]);
        }
        if i > 0 {
            text.append("; ");
        } else {
            assert(before =~= seq![]);
        }
        text.append(list[i].as_str());
        assert(text@ =~= chained(all.take(i + 1)));
        i += 1;
    }
    assert(all.take(i as int) =~= all);
    text
}

/// The error of a dial in which every candidate failed.
pub open spec fn race_error(failures: Seq<DialFailureView>) -> NetworkErrorView {
    NetworkErrorView::Connect(chained(failures.map_values(|failure: DialFailureView| failure.text())))
}

/// A fresh source port may help: some path gave no answer, and no peer answered
/// without being authenticated.
pub open spec fn may_recover(failures: Seq<DialFailureView>) -> bool {
    (exists|i: int| 0 <= i < failures.len() && (#[trigger] failures[i]).unanswered()) && !(exists|
        i: int,
    |
        0 <= i < failures.len() && (#[trigger] failures[i]).unauthenticated())
}

/// A peer that answers and is not authenticated ends the dial: no other source
/// port is tried.
pub proof fn law_failed_authentication_is_final(failures: Seq<DialFailureView>, i: int)
    requires
        0 <= i < failures.len(),
        failures[i].unauthenticated(),
    ensures
        !may_recover(failures),
{
}

/// How an endpoint failed, as text.
pub fn endpoint_failure_text(address: SocketAddress, error: &NetworkError) -> (text: String)
    ensures
        text@ == endpoint_failure(address, error@),
{
    let mut text = socket_text(address);
    text.append(": ");
    text.append(error.message().as_str());
    text
}

/// How a candidate failed, for the log.
pub open spec fn detail(
    address: SocketAddress,
    phase: DialPhase,
    quic: Option<QuicFailure>,
    error: NetworkErrorView,
) -> Seq<char> {
    label(socket_form(canonical(address))) + " "@ + family(address) + " port="@ + decimal(
        address.spec_port() as nat,
    ) + " scope="@ + decimal(interface_of(address) as nat) + " phase="@ + phase.name() + " code="@
        + error.category() + " quic="@ + match quic {
        Some(failure) => failure.name(),
        None => "none"@,
    }
}

/// How a candidate failed, for the log.
pub fn failure_detail(failure: &CandidateFailure) -> (text: String)
    ensures
        text@ == detail(failure.address, failure.phase, failure.quic, failure.error@),
{
    let mut text = endpoint_id(failure.address);
    text.append(" ");
    text.append(address_family(failure.address));
    text.append(" port=");
    text.append(decimal_text(failure.address.port() as u64).as_str());
    text.append(" scope=");
    text.append(decimal_text(scope_id(failure.address) as u64).as_str());
    text.append(" phase=");
    text.append(failure.phase.label());
    text.append(" code=");
    text.append(failure.error.code());
    text.append(" quic=");
    match failure.quic {
        Some(kind) => text.append(quic_failure_kind(kind)),
        None => text.append("none"),
    }
    text
}

/// What is to be done after a candidate of a dial ended.
#[derive(Debug, Clone, Copy, PartialEq, Eq, Structural)]
pub enum DialAction {
    /// Wait for the other candidates.
    Wait,
    /// Note that the endpoint failed, and wait for the other candidates.
    RecordFailure(SocketAddress),
}

/// A dial in progress. It ends with the first candidate that is authenticated,
/// or when all have failed.
#[derive(Debug)]
pub struct DialRace {
    source: EndpointSource,
    failures: Vec<DialFailure>,
}

impl DialRace {
    /// Where the endpoints came from.
    pub closed spec fn origin(&self) -> EndpointSource {
        self.source
    }

    /// What failed so far.
    pub closed spec fn failed(&self) -> Seq<DialFailureView> {
        views(self.failures@)
    }

    /// A dial of endpoints that came from `source`, and the endpoints to try.
    pub fn start(addresses: &Vec<SocketAddress>, source: EndpointSource) -> (race: Result<
        (Self, Vec<SocketAddress>),
        NetworkError,
    >)
        ensures
            match race {
                Ok((race, chosen)) => addresses@.len() > 0 && chosen@ == candidates(addresses@)
                    && race.origin() == source && race.failed() == Seq::<DialFailureView>::empty(),
                Err(error) => addresses@.len() == 0 && error@ == NetworkErrorView::Connect(
                    "no dial endpoints"@,
                ),
            },
    {
        match dial_candidates(addresses) {
            Err(error) => Err(error),
            Ok(chosen) => {
                let race = DialRace { source, failures: Vec::new() };
                assert(race.failed() =~= Seq::<DialFailureView>::empty());
                Ok((race, chosen))
            },
        }
    }

    /// Takes the failure of a candidate. Endpoints that were remembered wait
    /// longer after each failure.
    pub fn candidate_failed(&mut self, failure: CandidateFailure) -> (action: DialAction)
        ensures
            final(self).failed() == old(self).failed().push(
                DialFailureView::Candidate {
                    address: failure.address,
                    phase: failure.phase,
                    quic: failure.quic,
                    error: failure.error@,
                },
            ),
            final(self).origin() == old(self).origin(),
            action == if old(self).origin() == EndpointSource::History {
                DialAction::RecordFailure(failure.address)
            } else {
                DialAction::Wait
            },
    {
        let ghost before = self.failed();
        let address = failure.address;
        let ghost heard = DialFailure::Candidate(failure)@;
        self.failures.push(DialFailure::Candidate(failure));
        assert(self.failed() =~= before.push(heard));
        if self.source == EndpointSource::History {
            DialAction::RecordFailure(address)
        } else {
            DialAction::Wait
        }
    }

    /// Takes that the work on a candidate broke off.
    pub fn task_failed(&mut self, reason: String)
        ensures
            final(self).failed() == old(self).failed().push(DialFailureView::Task(reason@)),
            final(self).origin() == old(self).origin(),
    {
        let ghost before = self.failed();
        let ghost text = reason@;
        self.failures.push(DialFailure::Task(reason));
        assert(self.failed() =~= before.push(DialFailureView::Task(text)));
    }

    /// The outcome when no candidate is left: the error, and whether a fresh
    /// source port may help.
    pub fn exhausted(&self) -> (outcome: (NetworkError, bool))
        ensures
            outcome.0@ == race_error(self.failed()),
            outcome.1 == may_recover(self.failed()),
    {
        let ghost all = self.failed();
        let mut texts: Vec<String> = Vec::new();
        let mut unanswered = false;
        let mut unauthenticated = false;
        let mut i: usize = 0;
        while i < self.failures.len()
            invariant
                i <= self.failures.len(),
                all == views(self.failures@),
                texts.len() == i,
                forall|j: int| 0 <= j < i ==> (#[trigger] texts@[j])@ == all[j].text(),
                unanswered == exists|j: int| 0 <= j < i && (#[trigger] all[j]).unanswered(),
                unauthenticated == exists|j: int|
                    0 <= j < i && (#[trigger] all[j]).unauthenticated(),
            decreases self.failures.len() - i,
        {
            assert(all[i as int] == self.failures@[i as int]@);
            match &self.failures[i] {
                DialFailure::Candidate(failure) => {
                    texts.push(endpoint_failure_text(failure.address, &failure.error));
                    let timed_out = match &failure.error {
                        NetworkError::Timeout => true,
                        _ => false,
                    } || failure.quic == Some(QuicFailure::TimedOut);
                    if failure.phase == DialPhase::QuicHandshake && timed_out {
                        assert(all[i as int].unanswered());
                        unanswered = true;
                    }
                    if failure.phase == DialPhase::PeerAuthentication {
                        assert(all[i as int].unauthenticated());
                        unauthenticated = true;
                    }
                },
                DialFailure::Task(reason) => {
                    texts.push(reason.clone());
                },
            }
            i += 1;
        }
        let text = chain(&texts);
        assert(crate::peer::texts(texts@) =~= all.map_values(
            |failure: DialFailureView| failure.text(),
        ));
        (NetworkError::Connect(text), unanswered && !unauthenticated)
    }
}

/// Whether a dial is tried once more from a fresh source port. Probes and
/// pairings keep to their first attempt.
pub fn retries_from_fresh_port(kind: SessionKind, may_recover: bool) -> (retry: bool)
    ensures
        retry == (may_recover && kind != SessionKind::DiscoveryProbe && kind
            != SessionKind::Pairing),
{
    may_recover && kind != SessionKind::DiscoveryProbe && kind != SessionKind::Pairing
}

/// A dial as a whole: where, what for, and whether it is on its second attempt,
/// from a fresh source port.
pub struct DialView {
    pub addresses: Seq<SocketAddress>,
    pub kind: SessionKind,
    pub source: EndpointSource,
    pub fresh_port: bool,
}

/// The attempt that follows a failed one, where another is made: the same dial
/// from a fresh source port. Only a first attempt is followed by another.
pub open spec fn next_attempt(dial: DialView, may_recover: bool) -> Option<DialView> {
    if !dial.fresh_port && may_recover && dial.kind != SessionKind::DiscoveryProbe && dial.kind
        != SessionKind::Pairing {
        Some(DialView { fresh_port: true, ..dial })
    } else {
        None
    }
}

/// What a dial comes to: the outcome of its first attempt, or of its second where
/// one is made.
pub open spec fn dial_result<T, E>(
    dial: DialView,
    first: Result<T, (E, bool)>,
    second: Result<T, (E, bool)>,
) -> Result<T, E> {
    match first {
        Ok(session) => Ok(session),
        Err((error, may_recover)) => match next_attempt(dial, may_recover) {
            None => Err(error),
            Some(_) => match second {
                Ok(session) => Ok(session),
                Err((error, _)) => Err(error),
            },
        },
    }
}

/// A dial races its endpoints at most twice. A first attempt that succeeds, that a
/// fresh port cannot help, or that is a probe or a pairing is its outcome.
/// Otherwise the same endpoints are raced for the same purpose once more, and
/// that is the outcome however it ends.
pub proof fn law_at_most_two_attempts<T, E>(
    dial: DialView,
    first: Result<T, (E, bool)>,
    second: Result<T, (E, bool)>,
)
    requires
        !dial.fresh_port,
    ensures
        first matches Ok(session) ==> dial_result(dial, first, second) == Ok::<T, E>(session),
        first matches Err((error, may_recover)) ==> {
            let again = next_attempt(dial, may_recover);
            &&& !may_recover || dial.kind == SessionKind::DiscoveryProbe || dial.kind
                == SessionKind::Pairing <==> again is None
            &&& again is None ==> dial_result(dial, first, second) == Err::<T, E>(error)
            &&& again matches Some(again) ==> {
                &&& again == (DialView { fresh_port: true, ..dial })
                &&& dial_result(dial, first, second) == match second {
                    Ok(session) => Ok::<T, E>(session),
                    Err((error, _)) => Err(error),
                }
                &&& forall|recover: bool| #[trigger] next_attempt(again, recover) is None
            }
        },
{
}

/// A peer that answers and is not authenticated is not dialed again.
pub proof fn law_failed_authentication_is_not_retried(
    dial: DialView,
    failures: Seq<DialFailureView>,
    i: int,
)
    requires
        0 <= i < failures.len(),
        failures[i].unauthenticated(),
    ensures
        next_attempt(dial, may_recover(failures)) is None,
{
    law_failed_authentication_is_final(failures, i);
}

/// A dial as a whole.
#[derive(Debug)]
pub struct EndpointDial {
    addresses: Vec<SocketAddress>,
    kind: SessionKind,
    source: EndpointSource,
    fresh_port: bool,
}

/// What follows an attempt of a dial.
#[derive(Debug)]
pub enum DialStep<T, E> {
    /// The dial is over, with this outcome.
    Done(Result<T, E>),
    /// The attempt to make next.
    Again(EndpointDial),
}

impl View for EndpointDial {
    type V = DialView;

    closed spec fn view(&self) -> DialView {
        DialView {
            addresses: self.addresses@,
            kind: self.kind,
            source: self.source,
            fresh_port: self.fresh_port,
        }
    }
}

impl EndpointDial {
    /// A dial of these endpoints, on its first attempt.
    pub fn start(addresses: Vec<SocketAddress>, kind: SessionKind, source: EndpointSource) -> (dial:
        Self)
        ensures
            dial@ == (DialView { addresses: addresses@, kind, source, fresh_port: false }),
    {
        EndpointDial { addresses, kind, source, fresh_port: false }
    }

    /// The endpoints to race.
    pub fn addresses(&self) -> (addresses: &Vec<SocketAddress>)
        ensures
            addresses@ == self@.addresses,
    {
        &self.addresses
    }

    /// What the session is for.
    pub fn kind(&self) -> (kind: SessionKind)
        ensures
            kind == self@.kind,
    {
        self.kind
    }

    /// Where the endpoints came from.
    pub fn source(&self) -> (source: EndpointSource)
        ensures
            source == self@.source,
    {
        self.source
    }

    /// Whether the attempt is made from a fresh source port.
    pub fn from_fresh_port(&self) -> (fresh: bool)
        ensures
            fresh == self@.fresh_port,
    {
        self.fresh_port
    }

    /// Takes the end of an attempt: the session, or the error and whether a fresh
    /// source port may help.
    pub fn ended<T, E>(self, outcome: Result<T, (E, bool)>) -> (step: DialStep<T, E>)
        ensures
            match outcome {
                Ok(session) => step == DialStep::<T, E>::Done(Ok(session)),
                Err((error, may_recover)) => match next_attempt(self@, may_recover) {
                    Some(next) => step matches DialStep::Again(again) && again@ == next,
                    None => step == DialStep::<T, E>::Done(Err(error)),
                },
            },
    {
        match outcome {
            Ok(session) => DialStep::Done(Ok(session)),
            Err((error, may_recover)) => if !self.fresh_port && retries_from_fresh_port(
                self.kind,
                may_recover,
            ) {
                DialStep::Again(
                    EndpointDial {
                        addresses: self.addresses,
                        kind: self.kind,
                        source: self.source,
                        fresh_port: true,
                    },
                )
            } else {
                DialStep::Done(Err(error))
            },
        }
    }
}

/// The device that a dial expects.
pub enum ExpectedPeer {
    /// The one that was announced.
    Advertised(PeerAdvertisement),
    /// The one that is paired.
    Paired(PeerRecord),
}

impl ExpectedPeer {
    /// The id of the device.
    pub open spec fn expected_id(&self) -> Seq<char> {
        match self {
            ExpectedPeer::Advertised(peer) => peer@.device_id,
            ExpectedPeer::Paired(peer) => peer@.device_id,
        }
    }

    /// The key of the device.
    pub open spec fn expected_key(&self) -> Seq<u8> {
        match self {
            ExpectedPeer::Advertised(peer) => peer@.public_key,
            ExpectedPeer::Paired(peer) => peer@.public_key,
        }
    }

    /// The id of the device.
    pub fn id(&self) -> (id: &DeviceId)
        ensures
            id@ == self.expected_id(),
    {
        match self {
            ExpectedPeer::Advertised(peer) => &peer.device_id,
            ExpectedPeer::Paired(peer) => &peer.device_id,
        }
    }

    /// Checks that the device that answered is the expected one, on a connection
    /// with this certificate. A device that passes has the expected id and key
    /// and signed the certificate.
    pub fn authenticate(&self, observed: &[u8; 32], peer: &SessionPeer) -> (outcome: Result<
        (),
        NetworkError,
    >)
        ensures
            outcome is Ok <==> {
                &&& peer@.device_id == self.expected_id()
                &&& peer@.public_key == self.expected_key()
                &&& peer@.certificate_sha256 == observed@
                &&& self matches ExpectedPeer::Advertised(announced)
                    ==> announced@.certificate_sha256 == observed@
            },
            plain_result(outcome) == match self {
                ExpectedPeer::Advertised(announced) => announced_verdict(
                    observed@,
                    peer@,
                    announced@,
                ),
                ExpectedPeer::Paired(record) => paired_verdict(observed@, peer@, record@),
            },
    {
        match self {
            ExpectedPeer::Advertised(announced) => authenticate_outbound(observed, peer, announced),
            ExpectedPeer::Paired(record) => authenticate_outbound_paired(observed, peer, record),
        }
    }
}

/// The endpoints to dial an announced device at: those that it announced, or its
/// addresses at its port where it announced none.
pub open spec fn announced_endpoints(peer: PeerAdvertisementView) -> Seq<SocketAddress> {
    if peer.connection_addresses.len() == 0 {
        peer.addresses.map_values(|ip: IpAddress| SocketAddress::spec_new(ip, peer.port))
    } else {
        peer.connection_addresses
    }
}

/// The endpoints to dial an announced device at.
pub fn endpoints_of(peer: &PeerAdvertisement) -> (list: Vec<SocketAddress>)
    ensures
        list@ == announced_endpoints(peer@),
{
    if peer.connection_addresses.len() > 0 {
        return crate::discovery::copy_list(&peer.connection_addresses);
    }
    let mut list: Vec<SocketAddress> = Vec::new();
    let mut i: usize = 0;
    while i < peer.addresses.len()
        invariant
            i <= peer.addresses.len(),
            list.len() == i,
            forall|j: int|
                0 <= j < i ==> #[trigger] list@[j] == SocketAddress::spec_new(
                    peer.addresses@[j],
                    peer.port,
                ),
        decreases peer.addresses.len() - i,
    {
        list.push(SocketAddress::new(peer.addresses[i], peer.port));
        i += 1;
    }
    assert(list@ =~= announced_endpoints(peer@));
    list
}

/// The endpoints of a paired device that were remembered.
pub fn remembered_endpoints(endpoints: &Vec<RememberedEndpoint>) -> (list: Result<
    Vec<SocketAddress>,
    NetworkError,
>)
    ensures
        match list {
            Ok(list) => endpoints@.len() > 0 && list@ == endpoints@.map_values(
                |endpoint: RememberedEndpoint| endpoint.address,
            ),
            Err(error) => endpoints@.len() == 0 && error@ == NetworkErrorView::Connect(
                "peer has no remembered authenticated endpoint"@,
            ),
        },
{
    if endpoints.len() == 0 {
        return Err(connect_failed("peer has no remembered authenticated endpoint"));
    }
    let mut list: Vec<SocketAddress> = Vec::new();
    let mut i: usize = 0;
    while i < endpoints.len()
        invariant
            i <= endpoints.len(),
            list.len() == i,
            forall|j: int| 0 <= j < i ==> #[trigger] list@[j] == endpoints@[j].address,
        decreases endpoints.len() - i,
    {
        list.push(endpoints[i].address);
        i += 1;
    }
    assert(list@ =~= endpoints@.map_values(|endpoint: RememberedEndpoint| endpoint.address));
    Ok(list)
}

/// The endpoints that can be dialed.
pub open spec fn dialable_ones(addresses: Seq<SocketAddress>) -> Seq<SocketAddress> {
    addresses.filter(|address: SocketAddress| dialable(address))
}

fn keep_dialable(addresses: &Vec<SocketAddress>) -> (kept: Vec<SocketAddress>)
    ensures
        kept@ == dialable_ones(addresses@),
{
    let ghost pred = |address: SocketAddress| dialable(address);
    let mut kept: Vec<SocketAddress> = Vec::new();
    let mut i: usize = 0;
    assert(addresses@.take(0).filter(pred) =~= seq![]) by {
        addresses@.take(0).lemma_filter_len(pred);
    }
    while i < addresses.len()
        invariant
            i <= addresses.len(),
            pred == (|address: SocketAddress| dialable(address)),
            kept@ == addresses@.take(i as int).filter(pred),
        decreases addresses.len() - i,
    {
        let address = addresses[i];
        proof {
            assert(addresses@.take(i + 1) =~= addresses@.take(i as int).push(address));
            addresses@.take(i as int).lemma_filter_push(address, pred);
        }
        if is_dialable(address) {
            kept.push(address);
        }
        i += 1;
    }
    assert(addresses@.take(i as int) =~= addresses@);
    kept
}

/// The endpoints to dial a paired device at, from a route that another peer
/// told: at most 16 were told, and those that can be dialed are tried once each.
pub fn connect_paired_at(addresses: &Vec<SocketAddress>) -> (list: Result<
    Vec<SocketAddress>,
    NetworkError,
>)
    ensures
        match list {
            Ok(list) => addresses@.len() <= 16 && dialable_ones(addresses@).len() > 0
                && is_endpoint_set(dialable_ones(addresses@), list@),
            Err(error) => if addresses@.len() > 16 {
                error@ == NetworkErrorView::Protocol("relayed peer route exceeds endpoint limit"@)
            } else {
                dialable_ones(addresses@).len() == 0 && error@ == NetworkErrorView::Connect(
                    "relayed peer route has no dialable address"@,
                )
            },
        },
{
    if addresses.len() > 16 {
        return Err(protocol("relayed peer route exceeds endpoint limit"));
    }
    let kept = keep_dialable(addresses);
    if kept.len() == 0 {
        return Err(connect_failed("relayed peer route has no dialable address"));
    }
    Ok(endpoint_set(kept))
}

/// The ports at which a host that the user named is tried.
pub open spec fn manual_ports(port: Option<u16>) -> Seq<u16> {
    match port {
        Some(port) => seq![port],
        None => Seq::new(11, |i: int| (8765 + i) as u16),
    }
}

/// The text can be the name of a host: 1 to 253 bytes without white space.
pub open spec fn host_name(text: Seq<char>) -> bool {
    0 < utf8_len(text) <= 253 && forall|i: int| 0 <= i < text.len() ==> !is_space(#[trigger] text[i])
}

/// What is resolved for a host that the user named: the name without the white
/// space around it, and the ports.
pub fn manual_target<'a>(host: &'a str, port: Option<u16>) -> (target: Result<
    (&'a str, Vec<u16>),
    NetworkError,
>)
    ensures
        match target {
            Ok((name, ports)) => name@ == trimmed(host@) && host_name(name@) && port != Some(0u16)
                && ports@ == manual_ports(port),
            Err(error) => if !host_name(trimmed(host@)) {
                error@ == NetworkErrorView::Connect("invalid manual host"@)
            } else {
                port == Some(0u16) && error@ == NetworkErrorView::Connect(
                    "endpoint port cannot be zero"@,
                )
            },
        },
{
    let name = trim(host);
    let len: usize = byte_len(name);
    if len == 0 || len > 253 || has_white_space(name) {
        return Err(connect_failed("invalid manual host"));
    }
    assert(host_name(name@));
    let mut ports: Vec<u16> = Vec::new();
    match port {
        Some(port) => {
            if port == 0 {
                return Err(connect_failed("endpoint port cannot be zero"));
            }
            ports.push(port);
            assert(ports@ =~= manual_ports(Some(port)));
        },
        None => {
            let mut i: u16 = 0;
            while i < 11
                invariant
                    i <= 11,
                    ports.len() == i,
                    forall|j: int| 0 <= j < i ==> #[trigger] ports@[j] == 8765 + j,
                decreases 11 - i,
            {
                ports.push(8765 + i);
                i += 1;
            }
            assert(ports@ =~= manual_ports(None));
        },
    }
    Ok((name, ports))
}

/// `list` holds the endpoints of a host that are tried: those that can be
/// dialed, once each and in order, cut at the limit.
pub open spec fn is_manual_list(resolved: Seq<SocketAddress>, list: Seq<SocketAddress>) -> bool {
    exists|all: Seq<SocketAddress>| #[trigger]
        is_endpoint_set(dialable_ones(resolved), all) && list == at_most(
            all,
            MAX_MANUAL_ENDPOINTS as int,
        )
}

/// The endpoints of a host that are tried.
pub fn manual_endpoints(resolved: &Vec<SocketAddress>) -> (list: Result<
    Vec<SocketAddress>,
    NetworkError,
>)
    ensures
        match list {
            Ok(list) => dialable_ones(resolved@).len() > 0 && is_manual_list(resolved@, list@),
            Err(error) => dialable_ones(resolved@).len() == 0 && error@
                == NetworkErrorView::Connect("manual host did not resolve to a dialable address"@),
        },
{
    let kept = keep_dialable(resolved);
    if kept.len() == 0 {
        return Err(connect_failed("manual host did not resolve to a dialable address"));
    }
    let mut list = endpoint_set(kept);
    let ghost all = list@;
    list.truncate(MAX_MANUAL_ENDPOINTS);
    assert(list@ =~= at_most(all, MAX_MANUAL_ENDPOINTS as int));
    Ok(list)
}

/// The device is known at the endpoint.
pub open spec fn known_at(peer: PeerAdvertisementView, endpoint: SocketAddress) -> bool {
    peer.connection_addresses.contains(endpoint) || (peer.port == endpoint.spec_port()
        && peer.addresses.contains(endpoint.spec_ip()))
}

/// The device, to be dialed at this endpoint alone.
pub open spec fn selected_at(
    peer: PeerAdvertisementView,
    endpoint: SocketAddress,
) -> PeerAdvertisementView {
    PeerAdvertisementView {
        addresses: seq![endpoint.spec_ip()],
        connection_addresses: seq![endpoint],
        port: endpoint.spec_port(),
        ..peer
    }
}

/// The first device of the snapshot that is known at one of the endpoints, taken
/// in order.
pub open spec fn is_first_known(
    snapshot: Seq<PeerAdvertisementView>,
    endpoints: Seq<SocketAddress>,
    e: int,
    p: int,
) -> bool {
    &&& 0 <= e < endpoints.len()
    &&& 0 <= p < snapshot.len()
    &&& known_at(snapshot[p], endpoints[e])
    &&& forall|q: int| 0 <= q < p ==> !known_at(#[trigger] snapshot[q], endpoints[e])
    &&& forall|f: int, q: int|
        0 <= f < e && 0 <= q < snapshot.len() ==> !#[trigger] known_at(snapshot[q], endpoints[f])
}

/// The device that is known at one of the endpoints, to be dialed at that
/// endpoint alone and not at every interface that was ever seen of it.
pub fn select_known(snapshot: &Vec<PeerAdvertisement>, endpoints: &Vec<SocketAddress>) -> (peer: Option<
    PeerAdvertisement,
>)
    ensures
        match peer {
            Some(peer) => exists|e: int, p: int| #[trigger]
                is_first_known(views(snapshot@), endpoints@, e, p) && peer@ == selected_at(
                    views(snapshot@)[p],
                    endpoints@[e],
                ),
            None => forall|e: int, p: int|
                0 <= e < endpoints@.len() && 0 <= p < snapshot@.len() ==> !#[trigger] known_at(
                    views(snapshot@)[p],
                    endpoints@[e],
                ),
        },
{
    let ghost all = views(snapshot@);
    let mut e: usize = 0;
    while e < endpoints.len()
        invariant
            e <= endpoints.len(),
            all == views(snapshot@),
            forall|f: int, q: int|
                0 <= f < e && 0 <= q < all.len() ==> !#[trigger] known_at(all[q], endpoints@[f]),
        decreases endpoints.len() - e,
    {
        let endpoint = endpoints[e];
        let mut p: usize = 0;
        while p < snapshot.len()
            invariant
                p <= snapshot.len(),
                e < endpoints.len(),
                all == views(snapshot@),
                endpoint == endpoints@[e as int],
                forall|f: int, q: int|
                    0 <= f < e && 0 <= q < all.len() ==> !#[trigger] known_at(all[q], endpoints@[f]),
                forall|q: int| 0 <= q < p ==> !known_at(#[trigger] all[q], endpoint),
            decreases snapshot.len() - p,
        {
            assert(all[p as int] == snapshot@[p as int]@);
            let known = contains_endpoint(&snapshot[p].connection_addresses, endpoint) || (
            snapshot[p].port == endpoint.port() && contains_address(
                &snapshot[p].addresses,
                endpoint.ip(),
            ));
            if known {
                let mut peer = snapshot[p].clone();
                let mut addresses: Vec<IpAddress> = Vec::new();
                addresses.push(endpoint.ip());
                let mut connection_addresses: Vec<SocketAddress> = Vec::new();
                connection_addresses.push(endpoint);
                assert(addresses@ =~= seq![endpoint.spec_ip()]);
                assert(connection_addresses@ =~= seq![endpoint]);
                peer.addresses = addresses;
                peer.connection_addresses = connection_addresses;
                peer.port = endpoint.port();
                assert(is_first_known(all, endpoints@, e as int, p as int));
                return Some(peer);
            }
            p += 1;
        }
        e += 1;
    }
    None
}

/// A device that is selected by an endpoint is dialed there, however many
/// endpoints are known of it.
pub proof fn law_selected_endpoint_is_dialed(peer: PeerAdvertisementView, endpoint: SocketAddress)
    ensures
        candidates(announced_endpoints(selected_at(peer, endpoint))) == seq![canonical(endpoint)],
{
    let list = announced_endpoints(selected_at(peer, endpoint));
    assert(list == seq![endpoint]);
    let all = forms(list);
    assert(all =~= seq![canonical(endpoint)]);
    assert(all.drop_last() =~= seq![]);
    assert(firsts(all.drop_last()) =~= seq![]);
    assert(firsts(all) =~= seq![canonical(endpoint)]);
}

/// What failed probes say.
pub open spec fn failed_probes(failures: Seq<(SocketAddress, NetworkError)>) -> Seq<
    (SocketAddress, NetworkErrorView),
> {
    failures.map_values(|failure: (SocketAddress, NetworkError)| (failure.0, failure.1@))
}

/// The error when no endpoint of a host answered as a device: how each failed, in
/// order.
pub open spec fn probes_error(failures: Seq<(SocketAddress, NetworkErrorView)>) -> NetworkErrorView {
    NetworkErrorView::Connect(
        chained(
            failures.map_values(
                |failure: (SocketAddress, NetworkErrorView)| endpoint_failure(failure.0, failure.1),
            ),
        ),
    )
}

/// The error when no endpoint of a host answered as a device.
pub fn probes_failed(failures: &Vec<(SocketAddress, NetworkError)>) -> (error: NetworkError)
    ensures
        error@ == probes_error(failed_probes(failures@)),
{
    let mut texts: Vec<String> = Vec::new();
    let mut i: usize = 0;
    while i < failures.len()
        invariant
            i <= failures.len(),
            texts.len() == i,
            forall|j: int|
                0 <= j < i ==> (#[trigger] texts@[j])@ == endpoint_failure(
                    failures@[j].0,
                    failures@[j].1@,
                ),
        decreases failures.len() - i,
    {
        texts.push(endpoint_failure_text(failures[i].0, &failures[i].1));
        i += 1;
    }
    assert(crate::peer::texts(texts@) =~= failed_probes(failures@).map_values(
        |failure: (SocketAddress, NetworkErrorView)| endpoint_failure(failure.0, failure.1),
    ));
    NetworkError::Connect(chain(&texts))
}

/// Where the probes of a host stand: its endpoints, and those that failed, in
/// order.
pub struct ManualProbesView {
    pub endpoints: Seq<SocketAddress>,
    pub failed: Seq<(SocketAddress, NetworkErrorView)>,
}

impl ManualProbesView {
    /// The endpoints that failed are the first ones.
    pub open spec fn in_order(self) -> bool {
        &&& self.failed.len() <= self.endpoints.len()
        &&& forall|i: int|
            0 <= i < self.failed.len() ==> (#[trigger] self.failed[i]).0 == self.endpoints[i]
    }

    /// Some endpoint is still to be probed.
    pub open spec fn unfinished(self) -> bool {
        self.failed.len() < self.endpoints.len()
    }

    /// The endpoint to probe next.
    pub open spec fn next(self) -> SocketAddress {
        self.endpoints[self.failed.len() as int]
    }

    /// The probes once that of the next endpoint failed.
    pub open spec fn after_failure(self, error: NetworkErrorView) -> ManualProbesView {
        ManualProbesView { failed: self.failed.push((self.next(), error)), ..self }
    }
}

/// What the probes of a host come to, where the probe of each endpoint ends like
/// this.
pub open spec fn probes_result<T>(
    probes: ManualProbesView,
    outcomes: Seq<Result<T, NetworkErrorView>>,
) -> Result<T, NetworkErrorView>
    decreases probes.endpoints.len() - probes.failed.len(),
{
    if !probes.unfinished() {
        Err(probes_error(probes.failed))
    } else {
        match outcomes[probes.failed.len() as int] {
            Ok(peer) => Ok(peer),
            Err(error) => probes_result(probes.after_failure(error), outcomes),
        }
    }
}

/// The first endpoint that answers decides, whatever the later ones would say.
pub proof fn law_first_answer_wins<T>(
    probes: ManualProbesView,
    outcomes: Seq<Result<T, NetworkErrorView>>,
    k: int,
)
    requires
        probes.failed.len() <= k < probes.endpoints.len(),
        outcomes.len() == probes.endpoints.len(),
        forall|i: int| probes.failed.len() <= i < k ==> (#[trigger] outcomes[i]) is Err,
        outcomes[k] is Ok,
    ensures
        probes_result(probes, outcomes) == outcomes[k],
    decreases k - probes.failed.len(),
{
    if probes.failed.len() < k {
        let first = outcomes[probes.failed.len() as int];
        law_first_answer_wins(probes.after_failure(first->Err_0), outcomes, k);
    }
}

/// Where no endpoint answers, the error tells how each of them failed, in order.
pub proof fn law_every_failure_is_told<T>(
    probes: ManualProbesView,
    outcomes: Seq<Result<T, NetworkErrorView>>,
)
    requires
        probes.in_order(),
        outcomes.len() == probes.endpoints.len(),
        forall|i: int| 0 <= i < outcomes.len() ==> (#[trigger] outcomes[i]) is Err,
        forall|i: int|
            0 <= i < probes.failed.len() ==> (#[trigger] probes.failed[i]).1 == outcomes[i]->Err_0,
    ensures
        probes_result(probes, outcomes) == Err::<T, _>(
            probes_error(
                Seq::new(
                    probes.endpoints.len(),
                    |i: int| (probes.endpoints[i], outcomes[i]->Err_0),
                ),
            ),
        ),
    decreases probes.endpoints.len() - probes.failed.len(),
{
    if probes.unfinished() {
        let first = outcomes[probes.failed.len() as int];
        law_every_failure_is_told(probes.after_failure(first->Err_0), outcomes);
    } else {
        assert(probes.failed =~= Seq::new(
            probes.endpoints.len(),
            |i: int| (probes.endpoints[i], outcomes[i]->Err_0),
        ));
    }
}

/// The probes of a host that the user named, one endpoint after the other.
#[derive(Debug)]
pub struct ManualProbes {
    endpoints: Vec<SocketAddress>,
    failures: Vec<(SocketAddress, NetworkError)>,
}

/// What is done next about a host that the user named.
#[derive(Debug)]
pub enum ProbeStep {
    /// Probe this endpoint.
    Probe(SocketAddress),
    /// Give up: no endpoint answered.
    Fail(NetworkError),
}

impl View for ManualProbes {
    type V = ManualProbesView;

    closed spec fn view(&self) -> ManualProbesView {
        ManualProbesView {
            endpoints: self.endpoints@,
            failed: failed_probes(self.failures@),
        }
    }
}

impl ManualProbes {
    #[verifier::type_invariant]
    spec fn consistent(self) -> bool {
        self@.in_order()
    }

    /// The probes of these endpoints.
    pub fn start(endpoints: Vec<SocketAddress>) -> (probes: Self)
        ensures
            probes@ == (ManualProbesView { endpoints: endpoints@, failed: seq![] }),
    {
        let failures: Vec<(SocketAddress, NetworkError)> = Vec::new();
        assert(failed_probes(failures@) =~= seq![]);
        ManualProbes { endpoints, failures }
    }

    /// What to do next.
    pub fn next_step(&self) -> (step: ProbeStep)
        ensures
            self@.in_order(),
            if self@.unfinished() {
                step == ProbeStep::Probe(self@.next())
            } else {
                step matches ProbeStep::Fail(error) && error@ == probes_error(self@.failed)
            },
    {
        proof {
            use_type_invariant(self);
        }
        if self.failures.len() < self.endpoints.len() {
            ProbeStep::Probe(self.endpoints[self.failures.len()])
        } else {
            ProbeStep::Fail(probes_failed(&self.failures))
        }
    }

    /// Takes the end of the probe of the next endpoint, and gives the device that
    /// answered.
    pub fn probe_ended<T>(&mut self, outcome: Result<T, NetworkError>) -> (found: Option<T>)
        requires
            old(self)@.unfinished(),
        ensures
            match outcome {
                Ok(peer) => found == Some(peer) && final(self)@ == old(self)@,
                Err(error) => found is None && final(self)@ == old(self)@.after_failure(error@),
            },
    {
        proof {
            use_type_invariant(&*self);
        }
        match outcome {
            Ok(peer) => Some(peer),
            Err(error) => {
                let ghost before = failed_probes(self.failures@);
                let ghost text = error@;
                let mut failures: Vec<(SocketAddress, NetworkError)> = Vec::new();
                assert(failed_probes(failures@) =~= seq![]);
                std::mem::swap(&mut failures, &mut self.failures);
                let address = self.endpoints[failures.len()];
                failures.push((address, error));
                assert(failed_probes(failures@) =~= before.push((address, text)));
                self.failures = failures;
                None
            },
        }
    }
}

/// Checks that an endpoint can be probed.
pub fn check_probe_target(remote: SocketAddress) -> (outcome: Result<(), NetworkError>)
    ensures
        plain_result(outcome) == if dialable(remote) {
            Ok(())
        } else {
            Err(NetworkErrorView::Connect("endpoint is not dialable"@))
        },
{
    if !is_dialable(remote) {
        return Err(connect_failed("endpoint is not dialable"));
    }
    Ok(())
}

/// Whether another socket may be opened: there is an asynchronous runtime to
/// work on, and this runtime has not been shut down.
pub fn new_recovery_endpoint(has_executor: bool, stopped: bool) -> (outcome: Result<
    (),
    NetworkError,
>)
    ensures
        plain_result(outcome) == if !has_executor {
            Err(NetworkErrorView::RuntimeUnavailable)
        } else if stopped {
            Err(NetworkErrorView::Connect("network runtime is shut down"@))
        } else {
            Ok(())
        },
{
    if !has_executor {
        return Err(NetworkError::RuntimeUnavailable);
    }
    if stopped {
        return Err(connect_failed("network runtime is shut down"));
    }
    Ok(())
}

/// Different items come in the order in which each first occurred.
proof fn lemma_firsts_order(list: Seq<SocketAddress>, a: int, b: int, j: int)
    requires
        0 <= a < b < firsts(list).len(),
        0 <= j < list.len(),
        list[j] == firsts(list)[b],
    ensures
        exists|i: int| 0 <= i < j && #[trigger] list[i] == firsts(list)[a],
    decreases list.len(),
{
    let rest = list.drop_last();
    let before = firsts(rest);
    lemma_firsts(rest);
    if b < before.len() && j < rest.len() {
        lemma_firsts_order(rest, a, b, j);
        let i = choose|i: int| 0 <= i < j && #[trigger] rest[i] == before[a];
        assert(list[i] == firsts(list)[a]);
    } else {
        if j < rest.len() {
            assert(rest[j] == list[j]);
            assert(rest.contains(list[j]));
            assert(before.contains(list[j]));
            assert(before.contains(list.last()));
        }
        assert(before.contains(before[a]));
        let i = choose|i: int| 0 <= i < rest.len() && rest[i] == before[a];
        assert(list[i] == firsts(list)[a]);
    }
}

/// A dial leaves an endpoint out only where it tries 16 others, and each of those
/// was given before the one that is left out.
pub proof fn law_candidates_are_complete(addresses: Seq<SocketAddress>, j: int, a: int)
    requires
        0 <= j < addresses.len(),
        !candidates(addresses).contains(canonical(addresses[j])),
        0 <= a < candidates(addresses).len(),
    ensures
        candidates(addresses).len() == 16,
        exists|i: int|
            0 <= i < j && canonical(#[trigger] addresses[i]) == candidates(addresses)[a],
{
    let all = forms(addresses);
    let chosen = candidates(addresses);
    lemma_firsts(all);
    assert(all[j] == canonical(addresses[j]));
    assert(all.contains(all[j]));
    assert(firsts(all).contains(all[j]));
    let b = choose|b: int| 0 <= b < firsts(all).len() && firsts(all)[b] == all[j];
    if b < chosen.len() {
        assert(chosen[b] == canonical(addresses[j]));
    }
    lemma_firsts_order(all, a, b, j);
    let i = choose|i: int| 0 <= i < j && #[trigger] all[i] == firsts(all)[a];
    assert(all[i] == canonical(addresses[i]));
}

/// Endpoints are tried in the order in which they were given.
pub proof fn law_candidates_are_in_order(addresses: Seq<SocketAddress>, a: int, b: int, j: int)
    requires
        0 <= a < b < candidates(addresses).len(),
        0 <= j < addresses.len(),
        canonical(addresses[j]) == candidates(addresses)[b],
    ensures
        exists|i: int|
            0 <= i < j && canonical(#[trigger] addresses[i]) == candidates(addresses)[a],
{
    let all = forms(addresses);
    assert(all[j] == canonical(addresses[j]));
    lemma_firsts_order(all, a, b, j);
    let i = choose|i: int| 0 <= i < j && #[trigger] all[i] == firsts(all)[a];
    assert(all[i] == canonical(addresses[i]));
}

/// A candidate waits for its turn, waits for a handshake, connects, authenticates
/// the peer, and is registered, each on the event of its phase. Anything else ends
/// it in the phase that it is in.
pub proof fn law_candidate_goes_through_its_phases(phase: DialPhase, event: CandidateEvent)
    ensures
        ({
            let start = DialPhase::CandidateCapacityWait;
            let waiting = candidate_step(start, CandidateEvent::Admitted);
            let connecting = candidate_step(waiting.0, CandidateEvent::Admitted);
            let connected = candidate_step(connecting.0, CandidateEvent::Connected);
            let done = candidate_step(connected.0, CandidateEvent::Authenticated);
            &&& waiting == (DialPhase::GlobalCapacityWait, CandidateAction::WaitForHandshake)
            &&& connecting == (DialPhase::QuicHandshake, CandidateAction::Connect)
            &&& connected == (DialPhase::PeerAuthentication, CandidateAction::Authenticate)
            &&& done == (DialPhase::PeerAuthentication, CandidateAction::Register)
        }),
        ({
            let expected = match phase {
                DialPhase::CandidateCapacityWait => event == CandidateEvent::Admitted,
                DialPhase::GlobalCapacityWait => event == CandidateEvent::Admitted,
                DialPhase::QuicHandshake => event == CandidateEvent::Connected,
                DialPhase::PeerAuthentication => event == CandidateEvent::Authenticated,
            };
            let step = candidate_step(phase, event);
            &&& expected <==> step.1 != CandidateAction::Fail
            &&& !expected ==> step.0 == phase
        }),
{
}

/// A dial may be tried again exactly where a candidate timed out in the QUIC
/// handshake, and none came as far as the authentication of the peer.
pub proof fn law_dial_that_may_be_tried_again(failures: Seq<DialFailureView>)
    ensures
        may_recover(failures) <==> {
            &&& exists|i: int|
                0 <= i < failures.len() && (#[trigger] failures[i] matches DialFailureView::Candidate {
                    phase,
                    quic,
                    error,
                    ..
                } && phase == DialPhase::QuicHandshake && (error is Timeout || quic == Some(
                    QuicFailure::TimedOut,
                )))
            &&& forall|i: int|
                0 <= i < failures.len() && #[trigger] failures[i] is Candidate
                    ==> failures[i]->phase != DialPhase::PeerAuthentication
        },
{
    if may_recover(failures) {
        let i = choose|i: int| 0 <= i < failures.len() && (#[trigger] failures[i]).unanswered();
        assert(failures[i].unanswered());
        assert forall|i: int| 0 <= i < failures.len() && #[trigger] failures[i] is Candidate implies
            failures[i]->phase != DialPhase::PeerAuthentication by {
            assert(!failures[i].unauthenticated());
        }
    } else if exists|i: int| 0 <= i < failures.len() && (#[trigger] failures[i]).unauthenticated() {
        let i = choose|i: int| 0 <= i < failures.len() && (#[trigger] failures[i]).unauthenticated();
        assert(failures[i] is Candidate);
    } else {
        assert forall|i: int| 0 <= i < failures.len() implies !(#[trigger] failures[i] matches DialFailureView::Candidate {
            phase,
            quic,
            error,
            ..
        } && phase == DialPhase::QuicHandshake && (error is Timeout || quic == Some(
            QuicFailure::TimedOut,
        ))) by {
            assert(!failures[i].unanswered());
        }
    }
}

/// What a dial failed with tells of every candidate, in the order in which they
/// failed: where it was dialed and why it failed.
pub proof fn law_dial_tells_of_every_failure(
    failures: Seq<DialFailureView>,
    address: SocketAddress,
    phase: DialPhase,
    quic: Option<QuicFailure>,
    error: NetworkErrorView,
    reason: Seq<char>,
)
    ensures
        ({
            let told = socket_form(address) + ": "@ + error.sentence();
            let candidate = DialFailureView::Candidate { address, phase, quic, error };
            let task = DialFailureView::Task(reason);
            &&& race_error(seq![candidate]) == NetworkErrorView::Connect(told)
            &&& race_error(seq![task]) == NetworkErrorView::Connect(reason)
            &&& failures.len() > 0 ==> race_error(failures) is Connect && race_error(
                failures.push(candidate),
            ) == NetworkErrorView::Connect(race_error(failures)->Connect_0 + "; "@ + told)
                && race_error(failures.push(task)) == NetworkErrorView::Connect(
                race_error(failures)->Connect_0 + "; "@ + reason,
            )
        }),
{
    let candidate = DialFailureView::Candidate { address, phase, quic, error };
    let task = DialFailureView::Task(reason);
    let texts = failures.map_values(|failure: DialFailureView| failure.text());
    assert(failures.push(candidate).map_values(|failure: DialFailureView| failure.text())
        =~= texts.push(candidate.text()));
    assert(failures.push(task).map_values(|failure: DialFailureView| failure.text())
        =~= texts.push(task.text()));
    assert(texts.push(candidate.text()).drop_last() =~= texts);
    assert(texts.push(task.text()).drop_last() =~= texts);
}

/// A device is dialed at the endpoints that it was seen at. Where none is known, at
/// each of its addresses, under its port.
pub proof fn law_device_is_dialed_where_it_is(peer: PeerAdvertisementView, i: int)
    ensures
        ({
            let list = announced_endpoints(peer);
            &&& peer.connection_addresses.len() > 0 ==> list == peer.connection_addresses
            &&& peer.connection_addresses.len() == 0 ==> list.len() == peer.addresses.len() && (0
                <= i < list.len() ==> list[i] == match peer.addresses[i] {
                IpAddress::V4(ip) => SocketAddress::V4 { ip, port: peer.port },
                IpAddress::V6(ip) => SocketAddress::V6 {
                    ip,
                    port: peer.port,
                    flow_info: 0,
                    scope_id: 0,
                },
            })
        }),
{
}

/// The dialable ones of some endpoints are those that can be dialed.
pub proof fn law_dialable_ones(addresses: Seq<SocketAddress>)
    ensures
        forall|address: SocketAddress| #[trigger]
            dialable_ones(addresses).contains(address) <==> addresses.contains(address) && dialable(
                address,
            ),
{
    let keep = |address: SocketAddress| dialable(address);
    let kept = dialable_ones(addresses);
    assert forall|address: SocketAddress| #[trigger]
        kept.contains(address) <==> addresses.contains(address) && dialable(address) by {
        if kept.contains(address) {
            let i = choose|i: int| 0 <= i < kept.len() && kept[i] == address;
            addresses.lemma_filter_pred(keep, i);
            addresses.lemma_filter_contains_rev(keep, address);
        }
        if addresses.contains(address) && dialable(address) {
            let i = choose|i: int| 0 <= i < addresses.len() && addresses[i] == address;
            addresses.lemma_filter_contains(keep, i);
        }
    }
}

/// Without a port a host is tried on the ports from 8765 to 8775, each once, and
/// otherwise on the port alone.
pub proof fn law_manual_ports(asked: Option<u16>, port: u16)
    ensures
        asked matches Some(asked) ==> manual_ports(Some(asked)) == seq![asked],
        manual_ports(None).len() == 11,
        manual_ports(None).contains(port) <==> 8765 <= port <= 8775,
{
    if 8765 <= port <= 8775 {
        assert(manual_ports(None)[port - 8765] == port);
    }
}

/// The endpoints of a host that the user named are the dialable ones that it
/// resolved to, each once and in order. One is left out only where there are 32
/// before it.
pub proof fn law_manual_list(resolved: Seq<SocketAddress>, list: Seq<SocketAddress>)
    requires
        is_manual_list(resolved, list),
    ensures
        list.len() <= 32,
        list.no_duplicates(),
        forall|i: int|
            0 <= i < list.len() ==> resolved.contains(#[trigger] list[i]) && dialable(list[i]),
        forall|i: int, j: int|
            0 <= i < j < list.len() ==> seq_before(
                (#[trigger] list[i]).key(),
                (#[trigger] list[j]).key(),
            ),
        forall|address: SocketAddress, i: int| #[trigger]
            resolved.contains(address) && dialable(address) && !list.contains(address) && 0 <= i
                < list.len() ==> list.len() == 32 && seq_before(
                (#[trigger] list[i]).key(),
                address.key(),
            ),
{
    let all = choose|all: Seq<SocketAddress>| #[trigger]
        is_endpoint_set(dialable_ones(resolved), all) && list == at_most(
            all,
            MAX_MANUAL_ENDPOINTS as int,
        );
    law_endpoint_set(dialable_ones(resolved), all);
    law_dialable_ones(resolved);
    assert forall|i: int| 0 <= i < list.len() implies resolved.contains(#[trigger] list[i])
        && dialable(list[i]) by {
        assert(all[i] == list[i]);
        assert(all.contains(all[i]));
        assert(dialable_ones(resolved).contains(list[i]));
    }
    assert forall|address: SocketAddress, i: int| #[trigger]
        resolved.contains(address) && dialable(address) && !list.contains(address) && 0 <= i
            < list.len() implies list.len() == 32 && seq_before(
        (#[trigger] list[i]).key(),
        address.key(),
    ) by {
        assert(dialable_ones(resolved).contains(address));
        assert(all.contains(address));
        let k = choose|k: int| 0 <= k < all.len() && all[k] == address;
        if k < list.len() {
            assert(list[k] == address);
        }
        assert(all[i] == list[i]);
        assert(seq_before(all[i].key(), all[k].key()));
    }
}

/// A host that the user named stands for the first device that is known at its
/// first endpoint at which one is: no device is known at an endpoint before it, and
/// none before that device at the endpoint itself.
pub proof fn law_known_device_is_taken(
    snapshot: Seq<PeerAdvertisementView>,
    endpoints: Seq<SocketAddress>,
    e: int,
    p: int,
    f: int,
    q: int,
)
    requires
        is_first_known(snapshot, endpoints, e, p),
        0 <= f < endpoints.len(),
        0 <= q < snapshot.len(),
        f < e || f == e && q < p,
    ensures
        snapshot[p].connection_addresses.contains(endpoints[e]) || snapshot[p].port
            == endpoints[e].spec_port() && snapshot[p].addresses.contains(endpoints[e].spec_ip()),
        !snapshot[q].connection_addresses.contains(endpoints[f]),
        snapshot[q].port != endpoints[f].spec_port() || !snapshot[q].addresses.contains(
            endpoints[f].spec_ip(),
        ),
{
    assert(!known_at(snapshot[q], endpoints[f]));
}

/// A device that was found at an endpoint is dialed there and nowhere else, and
/// stays who it is.
pub proof fn law_device_found_at_an_endpoint(peer: PeerAdvertisementView, endpoint: SocketAddress)
    ensures
        ({
            let found = selected_at(peer, endpoint);
            &&& found.connection_addresses == seq![endpoint]
            &&& found.addresses == seq![endpoint.spec_ip()]
            &&& found.port == endpoint.spec_port()
            &&& found.device_id == peer.device_id
            &&& found.public_key == peer.public_key
            &&& found.metadata == peer.metadata
            &&& found.certificate_sha256 == peer.certificate_sha256
        }),
{
}

} // verus!
