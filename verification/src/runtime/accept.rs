//! What becomes of a connection that another device made.
use vstd::prelude::*;
use vstd::string::*;

use crate::error::{busy, plain_result, NetworkError, NetworkErrorView};
use crate::runtime::session::SessionKind;

verus! {

/// How many handshakes may run at a time.
pub const MAX_HANDSHAKES: usize = 32;

/// How many probes may be answered at a time.
pub const MAX_CONCURRENT_PROBES: usize = 16;

/// How long a probe is kept open after it was answered, in milliseconds.
pub const PROBE_LINGER_MS: u64 = 50;

/// How far an incoming connection got.
#[derive(Debug, Clone, Copy, PartialEq, Eq, Structural)]
pub enum AcceptPhase {
    QuicHandshake,
    PeerAuthentication,
    SessionRegistration,
}

/// What happened to an incoming connection.
#[derive(Debug, Clone, Copy, PartialEq, Eq, Structural)]
pub enum AcceptEvent {
    /// The QUIC handshake is complete.
    Connected,
    /// The peer is authenticated, for a session of this kind.
    Authenticated(SessionKind),
    /// The session was registered: the handle of the new session, and of the one
    /// in place.
    Registered { own: u64, in_place: u64 },
    /// Nobody took the session that was published.
    Unhandled,
    /// Something failed.
    Failed,
}

/// What is done next with an incoming connection.
#[derive(Debug, Clone, Copy, PartialEq, Eq, Structural)]
pub enum AcceptAction {
    /// Authenticate the peer.
    Authenticate,
    /// Register the session.
    Register,
    /// Close the probe, a moment later.
    CloseProbe,
    /// Publish the session.
    Publish,
    /// Close the session: no feature takes it.
    CloseUnhandled,
    /// Nothing: another session is in place.
    Done,
    /// Log the failure.
    Report,
}

impl AcceptPhase {
    /// The name of the phase in logs.
    pub open spec fn name(self) -> Seq<char> {
        match self {
            AcceptPhase::QuicHandshake => "quic_handshake"@,
            AcceptPhase::PeerAuthentication => "peer_authentication"@,
            AcceptPhase::SessionRegistration => "session_registration"@,
        }
    }

    /// The name of the phase in logs.
    pub fn label(self) -> (name: &'static str)
        ensures
            name@ == self.name(),
    {
        match self {
            AcceptPhase::QuicHandshake => "quic_handshake",
            AcceptPhase::PeerAuthentication => "peer_authentication",
            AcceptPhase::SessionRegistration => "session_registration",
        }
    }
}

/// The next phase of an incoming connection, and what is done in it. A probe is
/// never registered. A session is published only where it is the one in place: a
/// session that this device dialed at the same time may have taken the place.
pub open spec fn accept_step(phase: AcceptPhase, event: AcceptEvent) -> (AcceptPhase, AcceptAction) {
    match event {
        AcceptEvent::Connected => (AcceptPhase::PeerAuthentication, AcceptAction::Authenticate),
        AcceptEvent::Authenticated(kind) => (
            AcceptPhase::SessionRegistration,
            if kind == SessionKind::DiscoveryProbe {
                AcceptAction::CloseProbe
            } else {
                AcceptAction::Register
            },
        ),
        AcceptEvent::Registered { own, in_place } => (
            AcceptPhase::SessionRegistration,
            if own == in_place {
                AcceptAction::Publish
            } else {
                AcceptAction::Done
            },
        ),
        AcceptEvent::Unhandled => (phase, AcceptAction::CloseUnhandled),
        AcceptEvent::Failed => (phase, AcceptAction::Report),
    }
}

/// The next phase of an incoming connection, and what is done in it.
pub fn next_accept_step(phase: AcceptPhase, event: AcceptEvent) -> (step: (AcceptPhase, AcceptAction))
    ensures
        step == accept_step(phase, event),
{
    match event {
        AcceptEvent::Connected => (AcceptPhase::PeerAuthentication, AcceptAction::Authenticate),
        AcceptEvent::Authenticated(kind) => {
            let action = if kind == SessionKind::DiscoveryProbe {
                AcceptAction::CloseProbe
            } else {
                AcceptAction::Register
            };
            (AcceptPhase::SessionRegistration, action)
        },
        AcceptEvent::Registered { own, in_place } => {
            let action = if own == in_place {
                AcceptAction::Publish
            } else {
                AcceptAction::Done
            };
            (AcceptPhase::SessionRegistration, action)
        },
        AcceptEvent::Unhandled => (phase, AcceptAction::CloseUnhandled),
        AcceptEvent::Failed => (phase, AcceptAction::Report),
    }
}

/// Whether another probe is let in. `has_permit` tells whether fewer than
/// [`MAX_CONCURRENT_PROBES`] are answered now.
pub fn admit_concurrent_probe(has_permit: bool) -> (outcome: Result<(), NetworkError>)
    ensures
        plain_result(outcome) == if has_permit {
            Ok(())
        } else {
            Err(NetworkErrorView::Busy("discovery probe limit reached"@))
        },
{
    if has_permit {
        Ok(())
    } else {
        Err(busy("discovery probe limit reached"))
    }
}

/// A connection is authenticated once it stands, and a session is published exactly
/// where it was registered and took its place. A probe is answered and closed,
/// and never registered. A failure is told in the phase in which it came.
pub proof fn law_accepted_connection(phase: AcceptPhase, kind: SessionKind, own: u64, in_place: u64)
    ensures
        accept_step(phase, AcceptEvent::Connected) == (
            AcceptPhase::PeerAuthentication,
            AcceptAction::Authenticate,
        ),
        accept_step(phase, AcceptEvent::Authenticated(kind)).1 == AcceptAction::CloseProbe <==> kind
            == SessionKind::DiscoveryProbe,
        accept_step(phase, AcceptEvent::Authenticated(kind)).1 == AcceptAction::Register <==> kind
            != SessionKind::DiscoveryProbe,
        accept_step(phase, AcceptEvent::Authenticated(kind)).0 == AcceptPhase::SessionRegistration,
        accept_step(phase, AcceptEvent::Registered { own, in_place }).1 == AcceptAction::Publish
            <==> own == in_place,
        accept_step(phase, AcceptEvent::Registered { own, in_place }).1 == AcceptAction::Done <==> own
            != in_place,
        accept_step(phase, AcceptEvent::Unhandled) == (phase, AcceptAction::CloseUnhandled),
        accept_step(phase, AcceptEvent::Failed) == (phase, AcceptAction::Report),
{
}

} // verus!
