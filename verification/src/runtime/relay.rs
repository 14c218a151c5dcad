//! Input sessions that run through another device. That device carries packets
//! that it cannot read, and stands for nobody.
use vstd::prelude::*;
use vstd::string::*;

use crate::address::SocketAddress;
use crate::error::{
    busy, connect_failed, invalid_identity, plain_result, protocol, result_view, NetworkError,
    NetworkErrorView,
};
use crate::peer::{PeerRecord, PeerRecordView, TrustState};
use crate::runtime::protocol::{check_view, pairing_of};
use crate::runtime::session::{Session, SessionKind, SessionView};

verus! {

/// How many tunnels through other devices may be open at a time.
pub const MAX_RELAY_TUNNELS: usize = 8;

/// Whether a tunnel may be opened: there is an asynchronous runtime to work on,
/// a tunnel is free, and this runtime has not been shut down.
pub fn new_input_relay_tunnel(has_executor: bool, has_capacity: bool, stopped: bool) -> (outcome: Result<
    (),
    NetworkError,
>)
    ensures
        plain_result(outcome) == if !has_executor {
            Err(NetworkErrorView::RuntimeUnavailable)
        } else if !has_capacity {
            Err(NetworkErrorView::Busy("input relay tunnel limit reached"@))
        } else if stopped {
            Err(NetworkErrorView::Connect("network runtime is shut down"@))
        } else {
            Ok(())
        },
{
    if !has_executor {
        return Err(NetworkError::RuntimeUnavailable);
    }
    if !has_capacity {
        return Err(busy("input relay tunnel limit reached"));
    }
    if stopped {
        return Err(connect_failed("network runtime is shut down"));
    }
    Ok(())
}

/// Whether a handshake through a tunnel may start.
pub fn admit_relay_handshake(has_permit: bool) -> (outcome: Result<(), NetworkError>)
    ensures
        plain_result(outcome) == if has_permit {
            Ok(())
        } else {
            Err(NetworkErrorView::Busy("input relay handshake limit reached"@))
        },
{
    if !has_permit {
        return Err(busy("input relay handshake limit reached"));
    }
    Ok(())
}

/// Checks a packet that came out of the stream.
pub fn check_relayed_packet(packet: &[u8]) -> (outcome: Result<(), NetworkError>)
    ensures
        plain_result(outcome) == if packet@.len() == 0 {
            Err(NetworkErrorView::Protocol("empty input relay packet"@))
        } else {
            Ok(())
        },
{
    if packet.len() == 0 {
        return Err(protocol("empty input relay packet"));
    }
    Ok(())
}

/// Whether a datagram goes into the stream: only what the own endpoint sent, and
/// nothing empty.
pub fn forwards_datagram(source: SocketAddress, local: SocketAddress, length: usize) -> (forwards: bool)
    ensures
        forwards == (source == local && length != 0),
{
    source == local && length != 0
}

/// The session is one for input, with the device that was asked for.
pub open spec fn from_expected(
    session: SessionView,
    peer_id: Seq<char>,
    public_key: Seq<u8>,
) -> bool {
    session.kind == SessionKind::RealtimeInput && session.peer.device_id == peer_id
        && session.peer.public_key == public_key
}

/// Checks that the device behind a tunnel is the one that was asked for. The
/// device in the middle cannot take its place.
pub fn accept_input_relay(session: &Session, expected: &PeerRecord) -> (outcome: Result<
    (),
    NetworkError,
>)
    ensures
        plain_result(outcome) == if from_expected(
            session@,
            expected@.device_id,
            expected@.public_key,
        ) {
            Ok(())
        } else {
            Err(
                NetworkErrorView::InvalidIdentity("input relay authenticated an unexpected source"@),
            )
        },
{
    if session.kind != SessionKind::RealtimeInput || !session.peer.device_id.same(
        &expected.device_id,
    ) || !session.peer.public_key.same(&expected.public_key) {
        return Err(invalid_identity("input relay authenticated an unexpected source"));
    }
    Ok(())
}

/// What a session through a tunnel comes to: it is with the device that was asked
/// for, that device may inject input here, and it is registered as relayed.
/// `authorization` tells whether the device has its own grant.
pub open spec fn relay_verdict(
    session: SessionView,
    expected: PeerRecordView,
    authorization: Result<(), Seq<char>>,
) -> Result<SessionView, NetworkErrorView> {
    if !from_expected(session, expected.device_id, expected.public_key) {
        Err(NetworkErrorView::InvalidIdentity("input relay authenticated an unexpected source"@))
    } else {
        match authorization {
            Err(reason) => Err(NetworkErrorView::Unauthorized(reason)),
            Ok(_) => Ok(SessionView { relayed: true, ..session }),
        }
    }
}

/// A session through a tunnel is accepted only from the paired device that was
/// asked for, under the key that was paired, for input, and with its own grant.
/// The device in the middle gains nothing.
pub proof fn law_relay_stands_for_nobody(
    session: SessionView,
    record: Result<Option<PeerRecordView>, Seq<char>>,
    expected: PeerRecordView,
    authorization: Result<(), Seq<char>>,
)
    requires
        pairing_of(record, None) == Ok::<_, NetworkErrorView>(expected),
        relay_verdict(session, expected, authorization) is Ok,
    ensures
        record == Ok::<_, Seq<char>>(Some(expected)),
        expected.trust_state == TrustState::Paired,
        session.kind == SessionKind::RealtimeInput,
        session.peer.device_id == expected.device_id,
        session.peer.public_key == expected.public_key,
        authorization is Ok,
        relay_verdict(session, expected, authorization)->Ok_0.relayed,
{
}

/// Accepts a session through a tunnel, or not.
pub fn authorize_input_relay(
    session: Session,
    expected: &PeerRecord,
    authorization: Result<(), String>,
) -> (relayed: Result<Session, NetworkError>)
    ensures
        result_view(relayed) == relay_verdict(session@, expected@, check_view(authorization)),
{
    if let Err(error) = accept_input_relay(&session, expected) {
        return Err(error);
    }
    match authorization {
        Err(reason) => Err(NetworkError::Unauthorized(reason)),
        Ok(()) => Ok(register_input_relay(session)),
    }
}

/// The session as it is registered: it runs through another device.
pub fn register_input_relay(session: Session) -> (relayed: Session)
    ensures
        relayed@ == (SessionView { relayed: true, ..session@ }),
{
    Session {
        id: session.id,
        kind: session.kind,
        peer: session.peer,
        verification_code: session.verification_code,
        rank: session.rank,
        protocol_minor: session.protocol_minor,
        peer_process_instance_id: session.peer_process_instance_id,
        relayed: true,
    }
}

/// A session through a tunnel is accepted exactly where it is one for input, with
/// the device that was asked for under its key, and that device has its own grant.
/// It is the session that was made, and known to be relayed.
pub proof fn law_relayed_session_is_the_one_made(
    session: SessionView,
    expected: PeerRecordView,
    authorization: Result<(), Seq<char>>,
)
    ensures
        ({
            let outcome = relay_verdict(session, expected, authorization);
            &&& outcome is Ok <==> session.kind == SessionKind::RealtimeInput
                && session.peer.device_id == expected.device_id && session.peer.public_key
                == expected.public_key && authorization is Ok
            &&& outcome matches Ok(relayed) ==> {
                &&& relayed.relayed
                &&& relayed.id == session.id
                &&& relayed.kind == session.kind
                &&& relayed.peer == session.peer
                &&& relayed.rank == session.rank
                &&& relayed.verification_code == session.verification_code
                &&& relayed.protocol_minor == session.protocol_minor
                &&& relayed.instance == session.instance
            }
        }),
{
}

} // verus!
