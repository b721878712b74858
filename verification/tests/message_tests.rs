use tofnd::message::{
    fault_to_crime, CrimeType, Criminal, CriminalList, Fault, KeygenResultOut, MessageOut,
    MessageOutData, TrafficOut,
};

fn traffic_of(m: MessageOut) -> TrafficOut {
    match m.data {
        Some(MessageOutData::Traffic(t)) => t,
        other => panic!("expected traffic, got {:?}", other),
    }
}

#[test]
fn bcast_has_empty_recipient() {
    let t = traffic_of(MessageOut::new_bcast(&[1, 2, 3], "1"));
    assert_eq!(t.to_party_uid, "");
    assert_eq!(t.payload, vec![1, 2, 3]);
    assert!(t.is_broadcast);
    assert_eq!(t.round_num, "1");
}

#[test]
fn bcast_r3_carries_dispute_tag() {
    let t = traffic_of(MessageOut::new_bcast_r3(&[9], "2"));
    assert_eq!(t.to_party_uid, "r3");
    assert_eq!(t.payload, vec![9]);
    assert!(t.is_broadcast);
    assert_eq!(t.round_num, "2");
}

#[test]
fn p2p_addresses_one_recipient() {
    let t = traffic_of(MessageOut::new_p2p("bob", &[4, 5], "3"));
    assert_eq!(t.to_party_uid, "bob");
    assert_eq!(t.payload, vec![4, 5]);
    assert!(!t.is_broadcast);
    assert_eq!(t.round_num, "3");
}

#[test]
fn traffic_keeps_all_fields() {
    let t = traffic_of(MessageOut::new_traffic("carol", &[7], true, "4"));
    assert_eq!(t.to_party_uid, "carol");
    assert_eq!(t.payload, vec![7]);
    assert!(t.is_broadcast);
    assert_eq!(t.round_num, "4");
}

#[test]
fn need_recover_flag_is_set() {
    let m = MessageOut::need_recover();
    assert_eq!(m.data, Some(MessageOutData::NeedRecover(true)));
}

#[test]
fn fault_classification_table() {
    assert_eq!(fault_to_crime(&Fault::MissingMessage), CrimeType::NonMalicious);
    assert_eq!(fault_to_crime(&Fault::CorruptedMessage), CrimeType::NonMalicious);
    assert_eq!(fault_to_crime(&Fault::ProtocolFault), CrimeType::Malicious);
}

#[test]
fn protocol_violation_of_carol_share() {
    // share index 3 is owned by "carol": its protocol violation must yield
    // exactly one malicious accusation against carol
    let faults = vec![None, None, None, Some(Fault::ProtocolFault)];
    let uids = vec![
        "alice".to_string(),
        "bob".to_string(),
        "dave".to_string(),
        "carol".to_string(),
    ];
    let list = CriminalList::from_tofn_faults(&faults, &uids);
    assert_eq!(
        list.criminals,
        vec![Criminal { party_uid: "carol".to_string(), crime_type: CrimeType::Malicious }]
    );
}

#[test]
fn criminal_list_preserves_share_index_order() {
    let faults = vec![
        Some(Fault::MissingMessage),
        None,
        Some(Fault::ProtocolFault),
        Some(Fault::CorruptedMessage),
    ];
    let uids = vec![
        "a".to_string(),
        "b".to_string(),
        "c".to_string(),
        "d".to_string(),
    ];
    let list = CriminalList::from_tofn_faults(&faults, &uids);
    assert_eq!(list.criminals.len(), 3);
    assert_eq!(list.criminals[0].party_uid, "a");
    assert_eq!(list.criminals[0].crime_type, CrimeType::NonMalicious);
    assert_eq!(list.criminals[1].party_uid, "c");
    assert_eq!(list.criminals[1].crime_type, CrimeType::Malicious);
    assert_eq!(list.criminals[2].party_uid, "d");
    assert_eq!(list.criminals[2].crime_type, CrimeType::NonMalicious);
}

#[test]
fn empty_fault_set_accuses_nobody() {
    let faults = vec![None, None];
    let uids = vec!["a".to_string(), "b".to_string()];
    let list = CriminalList::from_tofn_faults(&faults, &uids);
    assert!(list.criminals.is_empty());
}

#[test]
fn keygen_result_wraps_output() {
    let uids = vec!["a".to_string()];
    let m = MessageOut::new_keygen_result(&uids, Ok(vec![1, 2]));
    assert_eq!(
        m.data,
        Some(MessageOutData::KeygenResult(Some(KeygenResultOut::Data(vec![1, 2]))))
    );
}

#[test]
fn keygen_result_wraps_criminals() {
    let uids = vec!["a".to_string(), "mallory".to_string()];
    let faults = vec![None, Some(Fault::ProtocolFault)];
    let m = MessageOut::new_keygen_result(&uids, Err(faults));
    match m.data {
        Some(MessageOutData::KeygenResult(Some(KeygenResultOut::Criminals(list)))) => {
            assert_eq!(list.criminals.len(), 1);
            assert_eq!(list.criminals[0].party_uid, "mallory");
            assert_eq!(list.criminals[0].crime_type, CrimeType::Malicious);
        }
        other => panic!("expected criminal list, got {:?}", other),
    }
}
