use resource_ledger::host::ProgramError;
use resource_ledger::resource::error::ResourceError;
use resource_ledger::resource::state::{
    claim_challenge, initiate_distribution, record_challenge, record_intent,
    record_resource_instance, reset_database,
};
use resource_ledger::resource::types::{
    Challenge, ResourceDatabase, ResourceInstance, MAX_NUM_RESOURCE_INSTANCES, PUBLIC_KEY_SIZE,
};

fn addr(n: u8) -> [u8; 32] {
    let mut a = [0u8; 32];
    a[0] = n;
    a[31] = n.wrapping_mul(7).wrapping_add(1);
    a
}

#[test]
fn test_record_intent_idempotent() {
    // recording the same intent twice leaves the record unchanged
    let db = reset_database();
    let a = addr(1);
    let once = record_intent(&db, &a).unwrap();
    let twice = record_intent(&once, &a).unwrap();
    assert_eq!(once, twice);
    assert_eq!(once.intents[0], a);
    assert_eq!(once.intents[1], [0u8; PUBLIC_KEY_SIZE]);
}

#[test]
fn test_record_intent_rejects_sentinel() {
    let db = reset_database();
    let result = record_intent(&db, &[0u8; PUBLIC_KEY_SIZE]);
    assert_eq!(Err(ProgramError::InvalidInstructionData), result);
}

#[test]
fn test_record_intent_full() {
    let mut db = reset_database();
    for n in 1..=4u8 {
        db = record_intent(&db, &addr(n)).unwrap();
    }
    let result = record_intent(&db, &addr(5));
    assert_eq!(Err(ProgramError::InvalidInstructionData), result);
}

#[test]
fn test_record_instances_to_capacity() {
    // recording up to capacity succeeds; one more fails, changing nothing
    let mut db = reset_database();
    for n in 0..MAX_NUM_RESOURCE_INSTANCES {
        let instance = ResourceInstance { from: addr(n as u8 + 1), quantity: n as u8 };
        db = record_resource_instance(&db, &instance).unwrap();
        assert_eq!(db.instances[n], instance);
    }
    let extra = ResourceInstance { from: addr(9), quantity: 1 };
    let result = record_resource_instance(&db, &extra);
    assert_eq!(
        Err(ProgramError::from(ResourceError::NoResourceInstanceSpace)),
        result
    );
}

#[test]
fn test_record_instance_after_distribution() {
    let db = reset_database();
    let db = initiate_distribution(&db).unwrap();
    let instance = ResourceInstance { from: addr(1), quantity: 2 };
    let result = record_resource_instance(&db, &instance);
    assert_eq!(
        Err(ProgramError::from(ResourceError::ResourceInDistribution)),
        result
    );
}

#[test]
fn test_single_instance_average() {
    // one instance of quantity 5 gives final_quantity 5
    let db = reset_database();
    let db = record_resource_instance(&db, &ResourceInstance { from: addr(1), quantity: 5 })
        .unwrap();
    let db = initiate_distribution(&db).unwrap();
    assert_eq!(db.is_distributed, true);
    assert_eq!(db.final_quantity, 5);
}

#[test]
fn test_two_instance_integer_average() {
    // quantities [4, 6] give the integer average 5
    let db = reset_database();
    let db = record_resource_instance(&db, &ResourceInstance { from: addr(1), quantity: 4 })
        .unwrap();
    let db = record_resource_instance(&db, &ResourceInstance { from: addr(2), quantity: 6 })
        .unwrap();
    let db = initiate_distribution(&db).unwrap();
    assert_eq!(db.final_quantity, 5);
}

#[test]
fn test_no_instances_average_zero() {
    let db = reset_database();
    let db = initiate_distribution(&db).unwrap();
    assert_eq!(db.final_quantity, 0);
}

#[test]
fn test_initiate_distribution_not_reentrant() {
    let db = reset_database();
    let db = initiate_distribution(&db).unwrap();
    let result = initiate_distribution(&db);
    assert_eq!(
        Err(ProgramError::from(ResourceError::ResourceInDistribution)),
        result
    );
}

#[test]
fn test_three_intents_make_six_challenges() {
    // intents {A, B, C} produce exactly the 6 ordered pairs with from != to
    let a = addr(1);
    let b = addr(2);
    let c = addr(3);
    let mut db = reset_database();
    for key in [a, b, c] {
        db = record_intent(&db, &key).unwrap();
    }
    let db = initiate_distribution(&db).unwrap();

    let filled: Vec<Challenge> = db
        .challenges
        .iter()
        .copied()
        .filter(|ch| ch.from != [0u8; PUBLIC_KEY_SIZE])
        .collect();
    assert_eq!(filled.len(), 6);
    for ch in &filled {
        assert_ne!(ch.from, ch.to);
        assert_eq!(ch.value, false);
    }
    for from in [a, b, c] {
        for to in [a, b, c] {
            if from != to {
                assert!(filled.iter().any(|ch| ch.from == from && ch.to == to));
            }
        }
    }
}

#[test]
fn test_record_challenge_before_distribution() {
    let db = reset_database();
    let ch = Challenge { from: addr(1), to: addr(2), value: true };
    let result = record_challenge(&db, &ch);
    assert_eq!(
        Err(ProgramError::from(ResourceError::ResourceNotInDistribution)),
        result
    );
}

#[test]
fn test_record_challenge_rejects_sentinel() {
    let db = initiate_distribution(&reset_database()).unwrap();
    let empty = [0u8; PUBLIC_KEY_SIZE];
    let bad_from = Challenge { from: empty, to: addr(2), value: true };
    let bad_to = Challenge { from: addr(1), to: empty, value: true };
    assert_eq!(
        Err(ProgramError::InvalidInstructionData),
        record_challenge(&db, &bad_from)
    );
    assert_eq!(
        Err(ProgramError::InvalidInstructionData),
        record_challenge(&db, &bad_to)
    );
}

#[test]
fn test_record_challenge_overwrites_existing_pair() {
    // a pair already present is updated in place, not appended again
    let mut db = reset_database();
    for key in [addr(1), addr(2)] {
        db = record_intent(&db, &key).unwrap();
    }
    let db = initiate_distribution(&db).unwrap();
    let count_before = db
        .challenges
        .iter()
        .filter(|ch| ch.from != [0u8; PUBLIC_KEY_SIZE])
        .count();

    let ch = Challenge { from: addr(1), to: addr(2), value: true };
    let db = record_challenge(&db, &ch).unwrap();
    let count_after = db
        .challenges
        .iter()
        .filter(|c| c.from != [0u8; PUBLIC_KEY_SIZE])
        .count();
    assert_eq!(count_before, count_after);
    assert_eq!(db.challenges[0], ch);

    // overwriting once more flips the value back, still in place
    let ch2 = Challenge { from: addr(1), to: addr(2), value: false };
    let db = record_challenge(&db, &ch2).unwrap();
    assert_eq!(db.challenges[0], ch2);
    let count_final = db
        .challenges
        .iter()
        .filter(|c| c.from != [0u8; PUBLIC_KEY_SIZE])
        .count();
    assert_eq!(count_before, count_final);
}

#[test]
fn test_record_challenge_full_matrix() {
    // a full matrix with no matching pair is rejected
    let mut db = initiate_distribution(&reset_database()).unwrap();
    let mut n: u8 = 1;
    for _ in 0..db.challenges.len() {
        let ch = Challenge { from: addr(n), to: addr(n.wrapping_add(1)), value: false };
        db = record_challenge(&db, &ch).unwrap();
        n = n.wrapping_add(2);
    }
    let extra = Challenge { from: addr(200), to: addr(201), value: true };
    let result = record_challenge(&db, &extra);
    assert_eq!(Err(ProgramError::InvalidInstructionData), result);
}

#[test]
fn test_claim_challenge_is_a_noop() {
    let db = initiate_distribution(&reset_database()).unwrap();
    let ch = Challenge { from: addr(1), to: addr(2), value: true };
    let after = claim_challenge(&db, &ch).unwrap();
    assert_eq!(db, after);
}

#[test]
fn test_reset_yields_genesis() {
    // reset gives the all-zero record regardless of prior state, and a
    // subsequent recording behaves as on a fresh database
    let mut db = reset_database();
    db = record_intent(&db, &addr(1)).unwrap();
    db = record_resource_instance(&db, &ResourceInstance { from: addr(1), quantity: 9 })
        .unwrap();
    db = initiate_distribution(&db).unwrap();

    let fresh = reset_database();
    assert_eq!(fresh.is_distributed, false);
    assert_eq!(fresh.final_quantity, 0);
    assert!(fresh.intents.iter().all(|a| *a == [0u8; PUBLIC_KEY_SIZE]));
    assert!(fresh.instances.iter().all(|x| x.from == [0u8; PUBLIC_KEY_SIZE] && x.quantity == 0));
    assert!(fresh
        .challenges
        .iter()
        .all(|c| c.from == [0u8; PUBLIC_KEY_SIZE] && c.to == [0u8; PUBLIC_KEY_SIZE] && !c.value));
    assert!(fresh.claims.iter().all(|a| *a == [0u8; PUBLIC_KEY_SIZE]));

    let instance = ResourceInstance { from: addr(7), quantity: 3 };
    let after = record_resource_instance(&fresh, &instance).unwrap();
    assert_eq!(after.instances[0], instance);
    let _ = db;
}

#[test]
fn test_record_intent_noop_even_past_empty_slot() {
    // a present intent is a no-op even when an empty slot precedes it:
    // presence is checked over all slots before any insertion happens
    let mut db = reset_database();
    db.intents[1] = addr(1);
    let after = record_intent(&db, &addr(1)).unwrap();
    assert_eq!(db, after);
    assert_eq!(after.intents[0], [0u8; PUBLIC_KEY_SIZE]);
}

#[test]
fn test_record_challenge_overwrites_even_past_empty_slot() {
    // a matching pair is overwritten in place even when an empty slot
    // precedes it: the match scan runs before any empty slot is claimed
    let mut db = reset_database();
    db.is_distributed = true;
    db.challenges[1] = Challenge { from: addr(1), to: addr(2), value: false };
    let ch = Challenge { from: addr(1), to: addr(2), value: true };
    let after = record_challenge(&db, &ch).unwrap();
    assert_eq!(after.challenges[1], ch);
    assert_eq!(after.challenges[0], db.challenges[0]);
    assert_eq!(after.challenges[0].from, [0u8; PUBLIC_KEY_SIZE]);
}
