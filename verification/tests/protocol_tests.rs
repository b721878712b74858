use tofnd::message::{Fault, MessageOut, MessageOutData, TrafficIn, TrafficOut};
use tofnd::protocol::{
    abort_sentinel_bytes, classify_incoming, execute_protocol, handle_outgoing, AbortReason,
    AdvanceOutcome, EngineRound, IncomingAction, P2pSad, SessionError, SessionOutcome, Share,
    ShareInfoDispute,
};

fn uids(names: &[&str]) -> Vec<String> {
    names.iter().map(|n| n.to_string()).collect()
}

fn traffic(from: &str, payload: Vec<u8>, is_broadcast: bool) -> Option<TrafficIn> {
    Some(TrafficIn { from_party_uid: from.to_string(), payload, is_broadcast })
}

fn traffic_of(m: &MessageOut) -> &TrafficOut {
    match &m.data {
        Some(MessageOutData::Traffic(t)) => t,
        other => panic!("expected traffic, got {:?}", other),
    }
}

fn quiet_round(expected_msgs: usize, outcome: AdvanceOutcome) -> EngineRound {
    EngineRound {
        bcast_out: None,
        p2ps_out: vec![],
        engine_round: 0,
        expected_msgs,
        outcome,
    }
}

#[test]
fn sentinel_bytes_are_prefix_plus_round() {
    assert_eq!(abort_sentinel_bytes(1), b"timeout1".to_vec());
    assert_eq!(abort_sentinel_bytes(12), b"timeout12".to_vec());
}

#[test]
fn classify_skips_missing_data() {
    let parties = uids(&["alice"]);
    assert_eq!(classify_incoming(&None, 1, &parties), IncomingAction::MissingData);
}

#[test]
fn classify_aborts_on_current_round_sentinel() {
    let parties = uids(&["alice"]);
    let t = traffic("alice", b"timeout2".to_vec(), false);
    assert_eq!(classify_incoming(&t, 2, &parties), IncomingAction::AbortRound);
}

#[test]
fn classify_aborts_on_bare_sentinel() {
    // the bare payload, without a round number, aborts whatever round is
    // running
    let parties = uids(&["alice"]);
    let bare = traffic("alice", b"timeout".to_vec(), false);
    assert_eq!(classify_incoming(&bare, 1, &parties), IncomingAction::AbortRound);
    assert_eq!(classify_incoming(&bare, 2, &parties), IncomingAction::AbortRound);
}

#[test]
fn classify_skips_stale_sentinel() {
    let parties = uids(&["alice"]);
    let t = traffic("alice", b"timeout9".to_vec(), false);
    assert_eq!(classify_incoming(&t, 2, &parties), IncomingAction::StaleTimeout);
}

#[test]
fn classify_resolves_known_sender() {
    let parties = uids(&["alice", "bob"]);
    let t = traffic("bob", vec![1, 2], true);
    assert_eq!(
        classify_incoming(&t, 1, &parties),
        IncomingAction::Deliver { from: 1, dispute: false }
    );
}

#[test]
fn classify_routes_distinguished_round_to_dispute_channel() {
    let parties = uids(&["alice", "bob"]);
    let t = traffic("alice", vec![1], false);
    assert_eq!(
        classify_incoming(&t, 3, &parties),
        IncomingAction::Deliver { from: 0, dispute: true }
    );
}

#[test]
fn classify_rejects_unknown_sender() {
    let parties = uids(&["alice", "bob"]);
    let t = traffic("mallory", vec![1], false);
    assert_eq!(classify_incoming(&t, 1, &parties), IncomingAction::UnknownSender);
}

#[test]
fn outgoing_fans_out_broadcast_then_p2ps() {
    let parties = uids(&["alice", "bob"]);
    let counts: Vec<usize> = vec![1, 1];
    let round = EngineRound {
        bcast_out: Some(vec![7, 7]),
        p2ps_out: vec![(0, vec![1]), (1, vec![2])],
        engine_round: 1,
        expected_msgs: 0,
        outcome: AdvanceOutcome::NotDone,
    };
    let msgs = handle_outgoing(&round, &parties, &counts).unwrap();
    assert_eq!(msgs.len(), 3);
    let b = traffic_of(&msgs[0]);
    assert_eq!(b.to_party_uid, "");
    assert!(b.is_broadcast);
    assert_eq!(b.payload, vec![7, 7]);
    assert_eq!(b.round_num, "1");
    let p0 = traffic_of(&msgs[1]);
    assert_eq!(p0.to_party_uid, "alice");
    assert!(!p0.is_broadcast);
    assert_eq!(p0.payload, vec![1]);
    let p1 = traffic_of(&msgs[2]);
    assert_eq!(p1.to_party_uid, "bob");
    assert_eq!(p1.payload, vec![2]);
}

#[test]
fn outgoing_tags_distinguished_round_broadcast() {
    let parties = uids(&["alice"]);
    let counts: Vec<usize> = vec![1];
    let round = EngineRound {
        bcast_out: Some(vec![5]),
        p2ps_out: vec![],
        engine_round: 2,
        expected_msgs: 0,
        outcome: AdvanceOutcome::NotDone,
    };
    let msgs = handle_outgoing(&round, &parties, &counts).unwrap();
    assert_eq!(msgs.len(), 1);
    let b = traffic_of(&msgs[0]);
    assert_eq!(b.to_party_uid, "r3");
    assert!(b.is_broadcast);
    assert_eq!(b.round_num, "2");
}

#[test]
fn outgoing_weighted_parties_share_to_party() {
    // bob owns shares 1,2: both p2ps address bob
    let parties = uids(&["alice", "bob"]);
    let counts: Vec<usize> = vec![1, 2];
    let round = EngineRound {
        bcast_out: None,
        p2ps_out: vec![(1, vec![1]), (2, vec![2])],
        engine_round: 0,
        expected_msgs: 0,
        outcome: AdvanceOutcome::NotDone,
    };
    let msgs = handle_outgoing(&round, &parties, &counts).unwrap();
    assert_eq!(traffic_of(&msgs[0]).to_party_uid, "bob");
    assert_eq!(traffic_of(&msgs[1]).to_party_uid, "bob");
}

#[test]
fn outgoing_rejects_share_index_out_of_range() {
    let parties = uids(&["alice"]);
    let counts: Vec<usize> = vec![1];
    let round = EngineRound {
        bcast_out: None,
        p2ps_out: vec![(5, vec![1])],
        engine_round: 0,
        expected_msgs: 0,
        outcome: AdvanceOutcome::NotDone,
    };
    assert!(handle_outgoing(&round, &parties, &counts).is_err());
}

#[test]
fn honest_session_completes_with_output() {
    // two rounds, each satisfied by exactly the honest messages, engine
    // completes with a non-empty output and no fault set
    let parties = uids(&["alice", "bob"]);
    let counts: Vec<usize> = vec![1, 1];
    let rounds = vec![
        EngineRound {
            bcast_out: Some(vec![1]),
            p2ps_out: vec![(1, vec![2])],
            engine_round: 0,
            expected_msgs: 2,
            outcome: AdvanceOutcome::NotDone,
        },
        EngineRound {
            bcast_out: Some(vec![3]),
            p2ps_out: vec![],
            engine_round: 1,
            expected_msgs: 1,
            outcome: AdvanceOutcome::DoneOutput(vec![9, 9]),
        },
    ];
    let inbound = vec![
        traffic("alice", vec![10], true),
        traffic("bob", vec![11], false),
        traffic("bob", vec![12], true),
    ];
    let (msgs, outcome) = execute_protocol(rounds, &inbound, &parties, &counts);
    assert_eq!(outcome, SessionOutcome::Completed(vec![9, 9]));
    // round one sent a broadcast and one p2p, round two one broadcast
    assert_eq!(msgs.len(), 3);
    assert_eq!(traffic_of(&msgs[0]).round_num, "0");
    assert_eq!(traffic_of(&msgs[1]).to_party_uid, "bob");
    assert_eq!(traffic_of(&msgs[2]).round_num, "1");
}

#[test]
fn sentinel_aborts_round_without_advancing() {
    // the sentinel lands in round 1 before the round is satisfied; the
    // engine's advance would have failed hard, but is never consulted
    let parties = uids(&["alice", "bob"]);
    let counts: Vec<usize> = vec![1, 1];
    let rounds = vec![quiet_round(2, AdvanceOutcome::Failure)];
    let inbound = vec![
        traffic("alice", vec![10], true),
        traffic("alice", b"timeout1".to_vec(), false),
        traffic("bob", vec![11], true),
    ];
    let (_, outcome) = execute_protocol(rounds, &inbound, &parties, &counts);
    assert_eq!(outcome, SessionOutcome::Aborted(AbortReason::Sentinel { round: 1 }));
}

#[test]
fn bare_sentinel_aborts_before_satisfaction() {
    // the bare sentinel arrives before the round is satisfied: the session
    // aborts instead of taking the later delivery and advancing
    let parties = uids(&["alice"]);
    let counts: Vec<usize> = vec![1];
    let rounds = vec![quiet_round(1, AdvanceOutcome::DoneOutput(vec![1]))];
    let inbound = vec![
        traffic("alice", b"timeout".to_vec(), false),
        traffic("alice", vec![10], true),
    ];
    let (_, outcome) = execute_protocol(rounds, &inbound, &parties, &counts);
    assert_eq!(outcome, SessionOutcome::Aborted(AbortReason::Sentinel { round: 1 }));
}

#[test]
fn sentinel_names_the_round_it_aborts() {
    // round 1 completes honestly; the sentinel for round 2 lands during
    // round 2's incoming phase
    let parties = uids(&["alice"]);
    let counts: Vec<usize> = vec![1];
    let rounds = vec![
        quiet_round(1, AdvanceOutcome::NotDone),
        quiet_round(1, AdvanceOutcome::DoneOutput(vec![1])),
    ];
    let inbound = vec![
        traffic("alice", vec![10], true),
        traffic("alice", b"timeout2".to_vec(), false),
    ];
    let (_, outcome) = execute_protocol(rounds, &inbound, &parties, &counts);
    assert_eq!(outcome, SessionOutcome::Aborted(AbortReason::Sentinel { round: 2 }));
}

#[test]
fn round_one_sentinel_is_stale_in_round_two() {
    let parties = uids(&["alice"]);
    let counts: Vec<usize> = vec![1];
    let rounds = vec![
        quiet_round(1, AdvanceOutcome::NotDone),
        quiet_round(1, AdvanceOutcome::DoneOutput(vec![8])),
    ];
    let inbound = vec![
        traffic("alice", vec![10], true),
        traffic("alice", b"timeout1".to_vec(), false),
        traffic("alice", vec![11], true),
    ];
    let (_, outcome) = execute_protocol(rounds, &inbound, &parties, &counts);
    assert_eq!(outcome, SessionOutcome::Completed(vec![8]));
}

#[test]
fn stale_sentinel_does_not_abort() {
    let parties = uids(&["alice"]);
    let counts: Vec<usize> = vec![1];
    let rounds = vec![quiet_round(1, AdvanceOutcome::DoneOutput(vec![1]))];
    let inbound = vec![
        traffic("alice", b"timeout7".to_vec(), false),
        traffic("alice", vec![10], true),
    ];
    let (_, outcome) = execute_protocol(rounds, &inbound, &parties, &counts);
    assert_eq!(outcome, SessionOutcome::Completed(vec![1]));
}

#[test]
fn closed_channel_aborts_distinctly() {
    let parties = uids(&["alice"]);
    let counts: Vec<usize> = vec![1];
    let rounds = vec![quiet_round(1, AdvanceOutcome::NotDone)];
    let inbound: Vec<Option<TrafficIn>> = vec![];
    let (_, outcome) = execute_protocol(rounds, &inbound, &parties, &counts);
    assert_eq!(outcome, SessionOutcome::Aborted(AbortReason::ChannelClosed { round: 1 }));
}

#[test]
fn unknown_sender_fails_the_session() {
    let parties = uids(&["alice"]);
    let counts: Vec<usize> = vec![1];
    let rounds = vec![quiet_round(1, AdvanceOutcome::NotDone)];
    let inbound = vec![traffic("mallory", vec![1], true)];
    let (_, outcome) = execute_protocol(rounds, &inbound, &parties, &counts);
    assert_eq!(outcome, SessionOutcome::Failed(SessionError::UnknownSender { round: 1 }));
}

#[test]
fn data_less_records_are_skipped() {
    let parties = uids(&["alice"]);
    let counts: Vec<usize> = vec![1];
    let rounds = vec![quiet_round(1, AdvanceOutcome::DoneOutput(vec![4]))];
    let inbound = vec![None, traffic("alice", vec![1], true)];
    let (_, outcome) = execute_protocol(rounds, &inbound, &parties, &counts);
    assert_eq!(outcome, SessionOutcome::Completed(vec![4]));
}

#[test]
fn faulted_completion_reports_fault_set() {
    let parties = uids(&["alice"]);
    let counts: Vec<usize> = vec![1];
    let faults = vec![Some(Fault::ProtocolFault)];
    let rounds = vec![quiet_round(0, AdvanceOutcome::DoneFaults(faults.clone()))];
    let inbound: Vec<Option<TrafficIn>> = vec![];
    let (_, outcome) = execute_protocol(rounds, &inbound, &parties, &counts);
    assert_eq!(outcome, SessionOutcome::Faulted(faults));
}

#[test]
fn engine_failure_is_fatal() {
    let parties = uids(&["alice"]);
    let counts: Vec<usize> = vec![1];
    let rounds = vec![quiet_round(0, AdvanceOutcome::Failure)];
    let inbound: Vec<Option<TrafficIn>> = vec![];
    let (_, outcome) = execute_protocol(rounds, &inbound, &parties, &counts);
    assert_eq!(outcome, SessionOutcome::Failed(SessionError::EngineFailure { round: 1 }));
}

#[test]
fn script_exhaustion_is_incomplete() {
    let parties = uids(&["alice"]);
    let counts: Vec<usize> = vec![1];
    let rounds = vec![quiet_round(0, AdvanceOutcome::NotDone)];
    let inbound: Vec<Option<TrafficIn>> = vec![];
    let (_, outcome) = execute_protocol(rounds, &inbound, &parties, &counts);
    assert_eq!(outcome, SessionOutcome::Failed(SessionError::ProtocolIncomplete));
}

#[test]
fn routing_error_in_outgoing_is_fatal() {
    let parties = uids(&["alice"]);
    let counts: Vec<usize> = vec![1];
    let rounds = vec![EngineRound {
        bcast_out: None,
        p2ps_out: vec![(9, vec![1])],
        engine_round: 0,
        expected_msgs: 0,
        outcome: AdvanceOutcome::NotDone,
    }];
    let inbound: Vec<Option<TrafficIn>> = vec![];
    let (msgs, outcome) = execute_protocol(rounds, &inbound, &parties, &counts);
    assert!(msgs.is_empty());
    assert_eq!(
        outcome,
        SessionOutcome::Failed(SessionError::UnknownShareIndex { round: 1 })
    );
}

#[test]
fn share_keeps_scalar_and_index() {
    let share = Share::new([3u8; 32], 5);
    assert_eq!(share.scalar_bytes(), &[3u8; 32]);
    assert_eq!(share.index(), 5);
}

#[test]
fn dispute_payload_holds_complaints() {
    let complaint = ShareInfoDispute {
        share: Share::new([1u8; 32], 0),
        kij: [2u8; 48],
        proof_c: [3u8; 32],
        proof_r: [4u8; 32],
    };
    let sad = P2pSad { vss_complaint: vec![complaint.clone()] };
    assert_eq!(sad.vss_complaint.len(), 1);
    assert_eq!(sad.vss_complaint[0], complaint);
}
