use arcrelay_network::discovery::DeviceMetadata;
use arcrelay_network::error::NetworkError;
use arcrelay_network::peer::{
    CapabilityId, CapabilityRole, DeviceId, DevicePublicKey, Grant, GrantConstraints,
    GrantDirection, PeerRecord, TrustState,
};
use arcrelay_network::runtime::pairing::{
    begin_pairing, check_trust, complete_pairing, confirm_pairing, confirm_pairing_with_grants,
    decode_grant_constraints, encode_grant_constraints, opposite_of, set_peer_auto_connect,
    validate_local_grant_request, PairingGrantRequest, PairingResponse, PairingResult,
    PendingPairing, ReceivedGrant, RemoteFileShareConstraints, WireGrantConstraints,
};
use arcrelay_network::runtime::session::{Session, SessionKind, SessionPeer, SessionRank};

const READ: CapabilityId = CapabilityId { order: 4, role: CapabilityRole::RemoteFilesRead };
const WRITE: CapabilityId = CapabilityId { order: 5, role: CapabilityRole::RemoteFilesWrite };
const SYNC: CapabilityId = CapabilityId { order: 1, role: CapabilityRole::Other };

fn shares(ids: &[&str], writable: bool) -> GrantConstraints {
    GrantConstraints::RemoteFileShares {
        share_ids: ids.iter().map(|id| id.to_string()).collect(),
        writable,
    }
}

fn session(kind: SessionKind) -> Session {
    Session {
        id: 1,
        kind,
        peer: SessionPeer {
            device_id: DeviceId::from_text("arc-peer".to_string()),
            public_key: DevicePublicKey::from_bytes(vec![1; 32]),
            metadata: DeviceMetadata {
                name: "Peer".to_string(),
                platform: "test".to_string(),
                model: "box".to_string(),
            },
            certificate_sha256: [9; 32],
            listen_port: 0,
        },
        verification_code: "123456".to_string(),
        rank: SessionRank {
            initiator_id: DeviceId::from_text("arc-own".to_string()),
            initiator_nonce: vec![],
        },
        protocol_minor: 0,
        peer_process_instance_id: None,
        relayed: false,
    }
}

fn grant(peer: &str, capability: CapabilityId, direction: GrantDirection, at: i64) -> Grant {
    Grant {
        peer_id: DeviceId::from_text(peer.to_string()),
        capability,
        direction,
        constraints: GrantConstraints::Unlimited,
        granted_at_ms: at,
    }
}

fn text(error: NetworkError) -> String {
    match error {
        NetworkError::Protocol(text) => text,
        _ => panic!("a protocol error"),
    }
}

#[test]
fn grant_requests_are_bounded() {
    assert!(validate_local_grant_request(SYNC, &GrantConstraints::Unlimited).is_ok());
    assert!(validate_local_grant_request(READ, &shares(&["a", "b"], false)).is_ok());
    assert!(validate_local_grant_request(WRITE, &shares(&[], true)).is_ok());
    let long = "x".repeat(257);
    let many: Vec<String> = (0..129).map(|n| format!("{n}")).collect();
    for (capability, constraints) in [
        (SYNC, shares(&["a"], false)),
        (READ, shares(&["a"], true)),
        (WRITE, shares(&["a"], false)),
        (READ, shares(&["a", "a"], false)),
        (READ, shares(&[""], false)),
        (READ, shares(&[&long], false)),
        (READ, GrantConstraints::RemoteFileShares { share_ids: many, writable: false }),
    ] {
        assert_eq!(
            text(validate_local_grant_request(capability, &constraints).unwrap_err()),
            "invalid requested grant constraints"
        );
    }
    let full: Vec<String> = (0..128).map(|n| format!("{n}")).collect();
    let full = GrantConstraints::RemoteFileShares { share_ids: full, writable: false };
    assert!(validate_local_grant_request(READ, &full).is_ok());
}

#[test]
fn constraints_read_back_from_the_wire() {
    for constraints in [GrantConstraints::Unlimited, shares(&["b", "a"], true), shares(&[], false)] {
        let message = encode_grant_constraints(&constraints);
        assert!(decode_grant_constraints(&message).unwrap().same(&constraints));
    }
    assert!(encode_grant_constraints(&GrantConstraints::Unlimited).is_none());
    let refused = |share_ids: Vec<String>| {
        let kind = Some(RemoteFileShareConstraints { share_ids, writable: false });
        text(decode_grant_constraints(&Some(WireGrantConstraints { kind })).unwrap_err())
    };
    assert_eq!(refused(vec!["".to_string()]), "invalid remote-file grant constraints");
    assert_eq!(refused(vec!["x".repeat(257)]), "invalid remote-file grant constraints");
    assert_eq!(
        refused((0..129).map(|n| format!("{n}")).collect()),
        "invalid remote-file grant constraints"
    );
    assert_eq!(
        refused(vec!["a".to_string(), "a".to_string()]),
        "duplicate remote-file share constraint"
    );
    assert_eq!(
        text(decode_grant_constraints(&Some(WireGrantConstraints { kind: None })).unwrap_err()),
        "unknown or empty grant constraints"
    );
}

#[test]
fn an_offer_names_each_grant_from_the_other_side() {
    let offer = begin_pairing(vec![
        PairingGrantRequest::outbound(READ),
        PairingGrantRequest::outbound(SYNC),
        PairingGrantRequest::inbound(SYNC),
    ])
    .unwrap();
    let asked: Vec<(u32, GrantDirection)> =
        offer.requested.iter().map(|r| (r.capability.order, r.direction)).collect();
    assert_eq!(
        asked,
        vec![
            (1, GrantDirection::Inbound),
            (1, GrantDirection::Outbound),
            (4, GrantDirection::Outbound)
        ]
    );
    for (request, offered) in offer.requested.iter().zip(&offer.offered) {
        assert_eq!(offered.direction, opposite_of(request.direction));
        assert_ne!(offered.direction, request.direction);
        assert_eq!(offered.granted_at_ms, 0);
    }
    assert_eq!(offer.offered.len(), 3);
}

#[test]
fn impossible_offers_are_refused() {
    assert_eq!(
        text(
            begin_pairing(vec![
                PairingGrantRequest::outbound(READ),
                PairingGrantRequest::outbound(READ)
            ])
            .unwrap_err()
        ),
        "duplicate requested pairing grant"
    );
    let many = |count: u32| {
        (0..count)
            .map(|order| {
                PairingGrantRequest::inbound(CapabilityId { order, role: CapabilityRole::Other })
            })
            .collect::<Vec<_>>()
    };
    assert!(begin_pairing(many(64)).is_ok());
    assert_eq!(text(begin_pairing(many(65)).unwrap_err()), "too many requested pairing grants");
    let wrong = PairingGrantRequest {
        capability: SYNC,
        direction: GrantDirection::Inbound,
        constraints: shares(&["a"], false),
    };
    assert_eq!(
        text(begin_pairing(vec![wrong]).unwrap_err()),
        "invalid requested grant constraints"
    );
}

fn pending() -> PendingPairing {
    let offer = begin_pairing(vec![
        PairingGrantRequest::outbound(SYNC),
        PairingGrantRequest {
            capability: READ,
            direction: GrantDirection::Inbound,
            constraints: shares(&["docs"], false),
        },
    ])
    .unwrap();
    PendingPairing::new(&session(SessionKind::Pairing), offer.requested)
}

fn received(capability: CapabilityId, direction: GrantDirection) -> ReceivedGrant {
    ReceivedGrant { capability: Ok(capability), direction: Some(direction), constraints: None }
}

fn response(granted_grants: Vec<ReceivedGrant>) -> PairingResponse {
    PairingResponse {
        result: Some(PairingResult {
            paired: true,
            peer_id: "arc-peer".to_string(),
            error: String::new(),
        }),
        granted_grants,
    }
}

#[test]
fn any_subset_of_the_request_may_be_granted() {
    let pending = pending();
    assert_eq!(pending.verification_code(), "123456");
    assert_eq!(pending.peer().device_id.as_str(), "arc-peer");
    assert!(complete_pairing(&pending, response(vec![]), 5).unwrap().granted.is_empty());
    let outcome =
        complete_pairing(&pending, response(vec![received(SYNC, GrantDirection::Inbound)]), 5)
            .unwrap();
    assert_eq!(outcome.peer.device_id.as_str(), "arc-peer");
    assert_eq!(outcome.granted.len(), 1);
    assert_eq!(outcome.granted[0].direction, GrantDirection::Outbound);
    assert_eq!(outcome.granted[0].granted_at_ms, 5);
    assert_eq!(outcome.granted[0].peer_id.as_str(), "arc-peer");
    let mut limited = received(READ, GrantDirection::Outbound);
    limited.constraints = encode_grant_constraints(&shares(&["docs"], false));
    let both = response(vec![limited, received(SYNC, GrantDirection::Inbound)]);
    let outcome = complete_pairing(&pending, both, 6).unwrap();
    assert_eq!(outcome.granted.len(), 2);
    assert!(outcome.granted.iter().any(|grant| {
        grant.capability.order == 4
            && grant.direction == GrantDirection::Inbound
            && grant.constraints.same(&shares(&["docs"], false))
    }));
}

#[test]
fn what_was_not_asked_for_is_refused() {
    let refused = |grants: Vec<ReceivedGrant>| {
        let failure = complete_pairing(&pending(), response(grants), 5).unwrap_err();
        assert!(!failure.close_session);
        text(failure.error)
    };
    assert_eq!(
        refused(vec![received(SYNC, GrantDirection::Outbound)]),
        "peer returned an unrequested capability"
    );
    assert_eq!(
        refused(vec![
            received(SYNC, GrantDirection::Inbound),
            received(SYNC, GrantDirection::Inbound)
        ]),
        "invalid or duplicate pairing grant"
    );
    assert_eq!(
        refused(vec![received(READ, GrantDirection::Outbound)]),
        "peer changed pairing grant constraints"
    );
    let mut unknown = received(SYNC, GrantDirection::Inbound);
    unknown.capability = Err("new.thing".to_string());
    assert_eq!(refused(vec![unknown]), "unknown granted capability new.thing");
    let mut undirected = received(SYNC, GrantDirection::Inbound);
    undirected.direction = None;
    assert_eq!(refused(vec![undirected]), "invalid pairing grant direction");
    let mut empty = received(READ, GrantDirection::Outbound);
    empty.constraints = Some(WireGrantConstraints { kind: None });
    assert_eq!(refused(vec![empty]), "unknown or empty grant constraints");
}

#[test]
fn a_rejected_pairing_closes_the_session() {
    let refused = |result: Option<PairingResult>| {
        complete_pairing(&pending(), PairingResponse { result, granted_grants: vec![] }, 5)
            .unwrap_err()
    };
    let result = |paired: bool, peer_id: &str, error: &str| {
        Some(PairingResult {
            paired,
            peer_id: peer_id.to_string(),
            error: error.to_string(),
        })
    };
    let failure = refused(None);
    assert!(!failure.close_session);
    assert_eq!(text(failure.error), "pairing result is missing");
    let failure = refused(result(false, "arc-peer", ""));
    assert!(failure.close_session);
    assert_eq!(text(failure.error), "pairing rejected");
    let failure = refused(result(true, "arc-else", "not me"));
    assert!(failure.close_session);
    assert_eq!(text(failure.error), "not me");
}

#[test]
fn only_a_pairing_session_establishes_trust() {
    let own = DeviceId::from_text("arc-peer".to_string());
    assert!(check_trust(SessionKind::Pairing, &own, &vec![]).is_ok());
    assert_eq!(
        text(check_trust(SessionKind::Control, &own, &vec![]).unwrap_err()),
        "only a pairing session can establish device trust"
    );
    assert_eq!(
        text(
            check_trust(
                SessionKind::Pairing,
                &own,
                &vec![grant("arc-else", SYNC, GrantDirection::Inbound, 1)]
            )
            .unwrap_err()
        ),
        "pairing grant belongs to another peer"
    );
    let mut wrong = grant("arc-peer", SYNC, GrantDirection::Inbound, 1);
    wrong.constraints = shares(&["a"], false);
    assert_eq!(
        text(check_trust(SessionKind::Pairing, &own, &vec![wrong]).unwrap_err()),
        "invalid requested grant constraints"
    );
}

#[test]
fn new_grants_prevail_over_old_ones() {
    let existing = vec![
        grant("arc-peer", READ, GrantDirection::Inbound, 1),
        grant("arc-peer", SYNC, GrantDirection::Inbound, 1),
    ];
    let new = vec![
        grant("arc-peer", SYNC, GrantDirection::Inbound, 7),
        grant("arc-peer", SYNC, GrantDirection::Outbound, 7),
    ];
    let (record, grants) =
        confirm_pairing_with_grants(&session(SessionKind::Pairing), new, Ok(existing), 9).unwrap();
    assert_eq!(record.device_id.as_str(), "arc-peer");
    assert_eq!(record.display_name, "Peer");
    assert_eq!(record.model, "box");
    assert_eq!(record.trust_state, TrustState::Paired);
    assert!(record.auto_connect);
    assert_eq!((record.paired_at_ms, record.updated_at_ms), (9, 9));
    let kept: Vec<(u32, GrantDirection, i64)> =
        grants.iter().map(|g| (g.capability.order, g.direction, g.granted_at_ms)).collect();
    assert_eq!(
        kept,
        vec![
            (1, GrantDirection::Inbound, 7),
            (1, GrantDirection::Outbound, 7),
            (4, GrantDirection::Inbound, 1)
        ]
    );
    let (_, grants) = confirm_pairing(
        &session(SessionKind::Pairing),
        Ok(vec![grant("arc-peer", READ, GrantDirection::Inbound, 1)]),
        9,
    )
    .unwrap();
    assert_eq!(grants.len(), 1);
    assert!(matches!(
        confirm_pairing(&session(SessionKind::Pairing), Err("disk".to_string()), 9),
        Err(NetworkError::Repository(text)) if text == "disk"
    ));
    assert!(confirm_pairing(&session(SessionKind::Print), Ok(vec![]), 9).is_err());
}

#[test]
fn only_a_paired_device_takes_a_preference() {
    let record = |trust_state| PeerRecord {
        device_id: DeviceId::from_text("arc-peer".to_string()),
        public_key: DevicePublicKey::from_bytes(vec![1; 32]),
        display_name: "Peer".to_string(),
        platform: "test".to_string(),
        model: "test".to_string(),
        trust_state,
        auto_connect: true,
        paired_at_ms: 1,
        updated_at_ms: 1,
    };
    let updated = set_peer_auto_connect(Some(record(TrustState::Paired)), false, 8).unwrap();
    assert!(!updated.auto_connect);
    assert_eq!(updated.updated_at_ms, 8);
    assert_eq!(updated.paired_at_ms, 1);
    assert!(set_peer_auto_connect(Some(record(TrustState::Revoked)), false, 8).is_none());
    assert!(set_peer_auto_connect(None, false, 8).is_none());
}
