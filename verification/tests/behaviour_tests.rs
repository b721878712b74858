use tofnd::behaviour::{
    get_behaviour_matches, match_string_to_behaviour, BehaviourError, KeygenBehaviour,
    MaliciousArgs,
};

#[test]
fn r2_bad_share_carries_exact_sets() {
    // behaviour "R2BadShare", victim {1}, faulty {2,3}
    let args = MaliciousArgs {
        behaviour: "R2BadShare".to_string(),
        victim: "1".to_string(),
        faulty: "2,3".to_string(),
    };
    let b = get_behaviour_matches(Some(&args)).unwrap();
    assert_eq!(
        b.keygen,
        KeygenBehaviour::R2BadShare { victim: vec![1], faulty: vec![2, 3] }
    );
}

#[test]
fn unrecognized_name_defaults_to_honest() {
    let args = MaliciousArgs {
        behaviour: "R9Nonsense".to_string(),
        victim: "1".to_string(),
        faulty: "2".to_string(),
    };
    let b = get_behaviour_matches(Some(&args)).unwrap();
    assert_eq!(b.keygen, KeygenBehaviour::Honest);
}

#[test]
fn no_malicious_subcommand_is_honest() {
    let b = get_behaviour_matches(None).unwrap();
    assert_eq!(b.keygen, KeygenBehaviour::Honest);
}

#[test]
fn malformed_victim_set_is_rejected() {
    let args = MaliciousArgs {
        behaviour: "R2BadShare".to_string(),
        victim: "one".to_string(),
        faulty: "2".to_string(),
    };
    assert_eq!(get_behaviour_matches(Some(&args)), Err(BehaviourError::InvalidVictim));
}

#[test]
fn malformed_faulty_set_is_rejected() {
    let args = MaliciousArgs {
        behaviour: "R2BadShare".to_string(),
        victim: "1".to_string(),
        faulty: "2,".to_string(),
    };
    assert_eq!(get_behaviour_matches(Some(&args)), Err(BehaviourError::InvalidFaulty));
}

#[test]
fn each_behaviour_name_maps_to_its_variant() {
    assert_eq!(
        match_string_to_behaviour("Honest", vec![0], vec![1]),
        KeygenBehaviour::Honest
    );
    assert_eq!(
        match_string_to_behaviour("R2BadShare", vec![0], vec![1]),
        KeygenBehaviour::R2BadShare { victim: vec![0], faulty: vec![1] }
    );
    assert_eq!(
        match_string_to_behaviour("R2BadEncryption", vec![4], vec![1]),
        KeygenBehaviour::R2BadEncryption { victim: vec![4] }
    );
    assert_eq!(
        match_string_to_behaviour("R3FalseAccusation", vec![0, 2], vec![1, 3]),
        KeygenBehaviour::R3FalseAccusation { victim: vec![0, 2], faulty: vec![1, 3] }
    );
    assert_eq!(
        match_string_to_behaviour("", vec![0], vec![1]),
        KeygenBehaviour::Honest
    );
}
