use resource_ledger::resource::codec::{
    decode_challenge, decode_database, decode_instance, encode_challenge, encode_database,
    encode_instance, CHALLENGE_SIZE, RESOURCE_INSTANCE_SIZE,
};
use resource_ledger::resource::types::{
    Challenge, ResourceDatabase, ResourceInstance, MAX_NUM_CHALLENGES, MAX_NUM_RECIPIENTS,
    MAX_NUM_RESOURCE_INSTANCES, PUBLIC_KEY_SIZE, RESOURCE_DATABASE_SIZE,
};

fn addr(n: u8) -> [u8; 32] {
    let mut a = [0u8; 32];
    a[0] = n;
    a[31] = n.wrapping_mul(7).wrapping_add(1);
    a
}

fn sample_database() -> ResourceDatabase {
    let mut db = ResourceDatabase {
        is_distributed: true,
        final_quantity: 7,
        intents: [[0u8; PUBLIC_KEY_SIZE]; MAX_NUM_RECIPIENTS],
        instances: [ResourceInstance { from: [0u8; PUBLIC_KEY_SIZE], quantity: 0 };
            MAX_NUM_RESOURCE_INSTANCES],
        challenges: [Challenge {
            from: [0u8; PUBLIC_KEY_SIZE],
            to: [0u8; PUBLIC_KEY_SIZE],
            value: false,
        }; MAX_NUM_CHALLENGES],
        claims: [[0u8; PUBLIC_KEY_SIZE]; MAX_NUM_RECIPIENTS],
    };
    db.intents[0] = addr(1);
    db.intents[2] = addr(2);
    db.instances[0] = ResourceInstance { from: addr(1), quantity: 200 };
    db.instances[3] = ResourceInstance { from: addr(3), quantity: 1 };
    db.challenges[0] = Challenge { from: addr(1), to: addr(2), value: true };
    db.challenges[15] = Challenge { from: addr(2), to: addr(1), value: false };
    db.claims[1] = addr(4);
    db
}

#[test]
fn test_instance_round_trip() {
    let x = ResourceInstance { from: addr(9), quantity: 255 };
    let bytes = encode_instance(&x);
    assert_eq!(bytes.len(), RESOURCE_INSTANCE_SIZE);
    assert_eq!(decode_instance(&bytes).unwrap(), x);
}

#[test]
fn test_challenge_round_trip() {
    let c = Challenge { from: addr(5), to: addr(6), value: true };
    let bytes = encode_challenge(&c);
    assert_eq!(bytes.len(), CHALLENGE_SIZE);
    assert_eq!(decode_challenge(&bytes).unwrap(), c);
}

#[test]
fn test_database_round_trip() {
    let db = sample_database();
    let bytes = encode_database(&db);
    assert_eq!(bytes.len(), RESOURCE_DATABASE_SIZE);
    assert_eq!(decode_database(&bytes).unwrap(), db);
}

#[test]
fn test_database_layout_is_fixed() {
    // field order on the wire: latch, aggregate, intents, instances,
    // challenges, claims
    let db = sample_database();
    let bytes = encode_database(&db);
    assert_eq!(bytes[0], 1);
    assert_eq!(bytes[1], 7);
    assert_eq!(&bytes[2..34], &addr(1));
    assert_eq!(&bytes[130..162], &addr(1));
    assert_eq!(bytes[162], 200);
    assert_eq!(&bytes[262..294], &addr(1));
    assert_eq!(&bytes[294..326], &addr(2));
    assert_eq!(bytes[326], 1);
    assert_eq!(&bytes[1334..1366], &addr(4));
}

#[test]
fn test_decode_rejects_wrong_length() {
    let db = sample_database();
    let mut bytes = encode_database(&db);
    bytes.push(0);
    assert!(decode_database(&bytes).is_err());
    bytes.pop();
    bytes.pop();
    assert!(decode_database(&bytes).is_err());

    let x = ResourceInstance { from: addr(9), quantity: 1 };
    let mut ib = encode_instance(&x);
    ib.push(0);
    assert!(decode_instance(&ib).is_err());
}

#[test]
fn test_decode_rejects_bad_boolean_byte() {
    let db = sample_database();
    let mut bytes = encode_database(&db);
    bytes[0] = 2;
    assert!(decode_database(&bytes).is_err());
    bytes[0] = 1;
    assert!(decode_database(&bytes).is_ok());
    // the boolean of the third challenge entry
    bytes[262 + 2 * 65 + 64] = 9;
    assert!(decode_database(&bytes).is_err());

    let c = Challenge { from: addr(5), to: addr(6), value: true };
    let mut cb = encode_challenge(&c);
    cb[64] = 2;
    assert!(decode_challenge(&cb).is_err());
}
