use resource_ledger::host::{Account, ProgramError};
use resource_ledger::resource::codec::{decode_database, encode_challenge, encode_database, encode_instance};
use resource_ledger::resource::entry::process_instruction;
use resource_ledger::resource::error::ResourceError;
use resource_ledger::resource::types::{
    Challenge, ResourceDatabase, ResourceInstance, INSTRUCTION_INITIATE_DISTRIBUTION,
    INSTRUCTION_RECORD_CHALLENGE, INSTRUCTION_RECORD_INTENT,
    INSTRUCTION_RECORD_RESOURCE_INSTANCE, MAX_NUM_CHALLENGES, MAX_NUM_RECIPIENTS,
    MAX_NUM_RESOURCE_INSTANCES, PUBLIC_KEY_SIZE, RESOURCE_DATABASE_SIZE,
};

fn addr(n: u8) -> [u8; 32] {
    let mut a = [0u8; 32];
    a[0] = n;
    a[31] = n.wrapping_mul(7).wrapping_add(1);
    a
}

fn zero_database() -> ResourceDatabase {
    ResourceDatabase {
        is_distributed: false,
        final_quantity: 0,
        intents: [[0u8; PUBLIC_KEY_SIZE]; MAX_NUM_RECIPIENTS],
        instances: [ResourceInstance { from: [0u8; PUBLIC_KEY_SIZE], quantity: 0 };
            MAX_NUM_RESOURCE_INSTANCES],
        challenges: [Challenge {
            from: [0u8; PUBLIC_KEY_SIZE],
            to: [0u8; PUBLIC_KEY_SIZE],
            value: false,
        }; MAX_NUM_CHALLENGES],
        claims: [[0u8; PUBLIC_KEY_SIZE]; MAX_NUM_RECIPIENTS],
    }
}

fn database_account(db: &ResourceDatabase, key: [u8; 32]) -> Account {
    let data = encode_database(db);
    assert_eq!(data.len(), RESOURCE_DATABASE_SIZE);
    Account { key, data }
}

#[test]
fn lib_test_missing_instruction_data() {
    let key = [0u8; 32];
    let mut accounts = vec![Account { key, data: vec![0u8; RESOURCE_DATABASE_SIZE] }];

    let instruction_data: Vec<u8> = Vec::new();
    let result = process_instruction(&mut accounts, &instruction_data);
    match result {
        Ok(_ok) => assert_eq!(true, false, "process_instruction should have triggered error"),
        Err(err) => assert_eq!(ProgramError::from(ResourceError::InvalidInstruction), err),
    };
}

#[test]
fn lib_test_record_intent() {
    let key = addr(5);
    let database_account = database_account(&zero_database(), key);
    let recipient_account = Account { key, data: vec![0u8; 0] };
    let mut accounts = vec![database_account, recipient_account];

    let mut instruction_data: Vec<u8> = Vec::new();
    instruction_data.push(INSTRUCTION_RECORD_INTENT);

    let result = process_instruction(&mut accounts, &instruction_data);
    assert_eq!(result.unwrap(), ());
    let resource_database = decode_database(&accounts[0].data).unwrap();
    assert_eq!(resource_database.intents[0], key);
}

#[test]
fn lib_test_record_resource_instance() {
    let key = [0u8; 32];
    let mut accounts = vec![database_account(&zero_database(), key)];

    let mut instruction_data: Vec<u8> = Vec::new();
    instruction_data.push(INSTRUCTION_RECORD_RESOURCE_INSTANCE);
    let resource_instance = ResourceInstance { from: addr(9), quantity: 5 };
    instruction_data.append(&mut encode_instance(&resource_instance));

    let result = process_instruction(&mut accounts, &instruction_data);
    assert_eq!(result.unwrap(), ());
    let resource_database = decode_database(&accounts[0].data).unwrap();
    assert_eq!(resource_database.instances[0].from, resource_instance.from);
}

#[test]
fn test_initiate_resource_distribution() {
    let key = [0u8; 32];
    let mut accounts = vec![database_account(&zero_database(), key)];

    // add a resource ...
    let mut record_instruction_data: Vec<u8> = Vec::new();
    record_instruction_data.push(INSTRUCTION_RECORD_RESOURCE_INSTANCE);
    let resource_instance = ResourceInstance { from: addr(9), quantity: 5 };
    record_instruction_data.append(&mut encode_instance(&resource_instance));
    let _result = process_instruction(&mut accounts, &record_instruction_data);

    // ... then initiate distribution
    let mut instruction_data: Vec<u8> = Vec::new();
    instruction_data.push(INSTRUCTION_INITIATE_DISTRIBUTION);

    let result = process_instruction(&mut accounts, &instruction_data);
    assert_eq!(result.unwrap(), ());
    let resource_database = decode_database(&accounts[0].data).unwrap();
    assert_eq!(resource_database.is_distributed, true);
    assert_eq!(resource_database.final_quantity, resource_instance.quantity);
}

#[test]
fn lib_test_approve_challenge() {
    let key = [0u8; 32];
    // distributed already, so no further setup is needed
    let db = ResourceDatabase { is_distributed: true, ..zero_database() };
    let mut accounts = vec![database_account(&db, key)];

    let mut instruction_data: Vec<u8> = Vec::new();
    instruction_data.push(INSTRUCTION_RECORD_CHALLENGE);
    let challenge = Challenge { from: addr(1), to: addr(2), value: true };
    instruction_data.append(&mut encode_challenge(&challenge));
    let result = process_instruction(&mut accounts, &instruction_data);
    assert_eq!(result.unwrap(), ());
    let resource_database = decode_database(&accounts[0].data).unwrap();
    assert_eq!(resource_database.challenges[0].from, challenge.from);
    assert_eq!(resource_database.challenges[0].to, challenge.to);
    assert_eq!(resource_database.challenges[0].value, true);
}

#[test]
fn test_empty_input_leaves_any_state_untouched() {
    // empty instruction bytes fail with InvalidInstruction whatever the state
    let mut db = zero_database();
    db.is_distributed = true;
    db.intents[0] = addr(1);
    db.instances[0] = ResourceInstance { from: addr(1), quantity: 3 };
    let mut accounts = vec![database_account(&db, addr(4)), Account {
        key: addr(5),
        data: vec![1, 2, 3],
    }];
    let before_0 = accounts[0].data.clone();
    let before_1 = accounts[1].data.clone();

    let result = process_instruction(&mut accounts, &[]);
    assert_eq!(Err(ProgramError::from(ResourceError::InvalidInstruction)), result);
    assert_eq!(accounts[0].data, before_0);
    assert_eq!(accounts[1].data, before_1);

    // the same on a completely empty account list
    let mut no_accounts: Vec<Account> = Vec::new();
    let result = process_instruction(&mut no_accounts, &[]);
    assert_eq!(Err(ProgramError::from(ResourceError::InvalidInstruction)), result);
    assert_eq!(no_accounts.len(), 0);
}

#[test]
fn test_failed_operation_leaves_bytes_untouched() {
    // recording an instance after distribution fails and writes nothing
    let db = ResourceDatabase { is_distributed: true, ..zero_database() };
    let mut accounts = vec![database_account(&db, [0u8; 32])];
    let before = accounts[0].data.clone();

    let mut instruction_data: Vec<u8> = Vec::new();
    instruction_data.push(INSTRUCTION_RECORD_RESOURCE_INSTANCE);
    instruction_data.append(&mut encode_instance(&ResourceInstance {
        from: addr(9),
        quantity: 5,
    }));

    let result = process_instruction(&mut accounts, &instruction_data);
    assert_eq!(Err(ProgramError::from(ResourceError::ResourceInDistribution)), result);
    assert_eq!(accounts[0].data, before);
}

#[test]
fn test_integer_average_of_two_instances() {
    // quantities [4, 6] average to 5
    let key = [0u8; 32];
    let mut accounts = vec![database_account(&zero_database(), key)];

    for (n, q) in [(1u8, 4u8), (2u8, 6u8)] {
        let mut data: Vec<u8> = Vec::new();
        data.push(INSTRUCTION_RECORD_RESOURCE_INSTANCE);
        data.append(&mut encode_instance(&ResourceInstance { from: addr(n), quantity: q }));
        process_instruction(&mut accounts, &data).unwrap();
    }
    process_instruction(&mut accounts, &[INSTRUCTION_INITIATE_DISTRIBUTION]).unwrap();

    let db = decode_database(&accounts[0].data).unwrap();
    assert_eq!(db.is_distributed, true);
    assert_eq!(db.final_quantity, 5);
}

#[test]
fn test_record_intent_needs_two_accounts() {
    let mut accounts = vec![database_account(&zero_database(), [0u8; 32])];
    let result = process_instruction(&mut accounts, &[INSTRUCTION_RECORD_INTENT]);
    assert_eq!(Err(ProgramError::InvalidInstructionData), result);
}

#[test]
fn test_record_intent_rejects_sentinel_participant() {
    let mut accounts = vec![
        database_account(&zero_database(), addr(1)),
        Account { key: [0u8; 32], data: Vec::new() },
    ];
    let result = process_instruction(&mut accounts, &[INSTRUCTION_RECORD_INTENT]);
    assert_eq!(Err(ProgramError::InvalidInstructionData), result);
    let db = decode_database(&accounts[0].data).unwrap();
    assert!(db.intents.iter().all(|a| *a == [0u8; PUBLIC_KEY_SIZE]));
}

#[test]
fn test_undecodable_database_account() {
    // a database buffer of the wrong size is the host's fault
    let mut accounts = vec![Account { key: [0u8; 32], data: vec![0u8; 7] }];
    let mut instruction_data: Vec<u8> = Vec::new();
    instruction_data.push(INSTRUCTION_RECORD_RESOURCE_INSTANCE);
    instruction_data.append(&mut encode_instance(&ResourceInstance {
        from: addr(9),
        quantity: 5,
    }));

    let result = process_instruction(&mut accounts, &instruction_data);
    assert_eq!(Err(ProgramError::InvalidAccountData), result);
    assert_eq!(accounts[0].data, vec![0u8; 7]);
}
