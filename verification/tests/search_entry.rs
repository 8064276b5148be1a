use resource_ledger::host::{Account, ProgramError};
use resource_ledger::search::codec::{decode_account, decode_index, encode_account, encode_index};
use resource_ledger::search::entry::process_instruction;
use resource_ledger::search::error::SearchEngineError;
use resource_ledger::search::types::{
    Location, Resource, ResourceBucket, ResourceIndex, SearchEngineAccount, TrustTableEntry,
    INSTRUCTION_REGISTER_INTENT, INSTRUCTION_REGISTER_RESOURCE, INSTRUCTION_UPDATE_ACCOUNT,
    MAX_FRIENDLY_NAME_SIZE, MAX_INDEX_BUCKETS, MAX_NUM_INTENTS, MAX_NUM_RESOURCE_IN_BUCKET,
    MAX_TRUST_TABLE_SIZE, MAX_ZIP_SIZE, PUBLIC_KEY_SIZE, RESOURCE_INDEX_SIZE,
    SEARCH_ENGINE_ACCOUNT_SIZE,
};

fn addr(n: u8) -> [u8; 32] {
    let mut a = [0u8; 32];
    a[0] = n;
    a[31] = n.wrapping_mul(7).wrapping_add(1);
    a
}

fn padded(s: &str) -> [u8; 32] {
    let mut out = [0u8; 32];
    for (place, data) in out.iter_mut().zip(s.as_bytes().iter()) {
        *place = *data
    }
    out
}

fn register_resource_data(resource: &Resource) -> Vec<u8> {
    let mut data = Vec::new();
    data.push(INSTRUCTION_REGISTER_RESOURCE);
    data.append(&mut resource_ledger::search::codec::encode_resource(resource));
    data
}

#[test]
fn search_lib_test_missing_instruction_data() {
    let key = [0u8; 32];
    let mut accounts = vec![Account { key, data: vec![0u8; SEARCH_ENGINE_ACCOUNT_SIZE] }];

    let instruction_data: Vec<u8> = Vec::new();
    let result = process_instruction(&mut accounts, &instruction_data);
    match result {
        Ok(_ok) => assert_eq!(true, false, "process_instruction should have triggered error"),
        Err(err) => assert_eq!(ProgramError::from(SearchEngineError::InvalidInstruction), err),
    };
}

#[test]
fn test_update_account() {
    let key = [0u8; 32];
    let mut accounts = vec![Account { key, data: vec![0u8; SEARCH_ENGINE_ACCOUNT_SIZE] }];

    let mut instruction_data: Vec<u8> = Vec::new();
    instruction_data.push(INSTRUCTION_UPDATE_ACCOUNT);
    let name: [u8; MAX_FRIENDLY_NAME_SIZE] = padded("jeff");
    let search_engine_account = SearchEngineAccount {
        friendly_name: name,
        trust_table: [TrustTableEntry { to: addr(77), value: 10 }; MAX_TRUST_TABLE_SIZE],
        intents: [[0u8; PUBLIC_KEY_SIZE]; MAX_NUM_INTENTS],
    };
    let encoded = encode_account(&search_engine_account);
    instruction_data.extend_from_slice(&encoded);

    let result = process_instruction(&mut accounts, &instruction_data).unwrap();
    assert_eq!((), result);
    assert_eq!(accounts[0].data.len(), encoded.len());
    assert_eq!(decode_account(&accounts[0].data).unwrap(), search_engine_account);
}

#[test]
fn test_register_resource() {
    let key = [0u8; 32];
    let mut accounts = vec![Account { key, data: vec![0u8; RESOURCE_INDEX_SIZE] }];

    let name: [u8; MAX_FRIENDLY_NAME_SIZE] = padded("jeff");
    let zip: [u8; MAX_ZIP_SIZE] = padded("12345");
    let resource = Resource {
        address: addr(77),
        name,
        location: Location { zip },
        trust_threshold: 10,
    };
    let instruction_data = register_resource_data(&resource);

    let result = process_instruction(&mut accounts, &instruction_data).unwrap();
    assert_eq!((), result);

    let database = decode_index(&accounts[0].data).unwrap();
    assert_eq!(database.buckets[0].location.zip, zip);
    assert_eq!(database.buckets[0].addresses[0], addr(77));
    assert_eq!(database.buckets[0].addresses[1], [0u8; PUBLIC_KEY_SIZE]);
}

#[test]
fn test_register_intent() {
    let key = [0u8; 32];
    let resource_account_key = addr(50);

    let index = ResourceIndex {
        buckets: [ResourceBucket {
            // every address will be the resource
            addresses: [resource_account_key; MAX_NUM_RESOURCE_IN_BUCKET],
            location: Location { zip: [0u8; MAX_ZIP_SIZE] },
        }; MAX_INDEX_BUCKETS],
    };
    let database_account = Account { key, data: encode_index(&index) };
    let search_engine_account = Account { key, data: vec![0u8; SEARCH_ENGINE_ACCOUNT_SIZE] };
    let resource_account = Account { key: resource_account_key, data: vec![0u8; 0] };
    let mut accounts = vec![database_account, search_engine_account, resource_account];

    let mut instruction_data: Vec<u8> = Vec::new();
    instruction_data.push(INSTRUCTION_REGISTER_INTENT);

    let result = process_instruction(&mut accounts, &instruction_data).unwrap();
    assert_eq!((), result);
    let deserialized = decode_account(&accounts[1].data).unwrap();
    assert_eq!(deserialized.intents[0], resource_account_key);
}

#[test]
fn test_register_intent_unregistered_resource() {
    let key = [0u8; 32];
    let database_account = Account { key, data: vec![0u8; RESOURCE_INDEX_SIZE] };
    let search_engine_account = Account { key, data: vec![0u8; SEARCH_ENGINE_ACCOUNT_SIZE] };
    let resource_account = Account { key: addr(50), data: vec![0u8; 0] };
    let mut accounts = vec![database_account, search_engine_account, resource_account];

    let result = process_instruction(&mut accounts, &[INSTRUCTION_REGISTER_INTENT]);
    assert_eq!(
        Err(ProgramError::from(SearchEngineError::ResourceNotRegistered)),
        result
    );
    assert_eq!(accounts[1].data, vec![0u8; SEARCH_ENGINE_ACCOUNT_SIZE]);
}

#[test]
fn test_register_resource_duplicate_is_noop() {
    let key = [0u8; 32];
    let mut accounts = vec![Account { key, data: vec![0u8; RESOURCE_INDEX_SIZE] }];
    let resource = Resource {
        address: addr(77),
        name: padded("jeff"),
        location: Location { zip: padded("12345") },
        trust_threshold: 10,
    };
    let instruction_data = register_resource_data(&resource);
    process_instruction(&mut accounts, &instruction_data).unwrap();
    let before = accounts[0].data.clone();

    process_instruction(&mut accounts, &instruction_data).unwrap();
    assert_eq!(accounts[0].data, before);
}

#[test]
fn test_register_resource_bucket_full() {
    let key = [0u8; 32];
    let mut accounts = vec![Account { key, data: vec![0u8; RESOURCE_INDEX_SIZE] }];
    let zip: [u8; MAX_ZIP_SIZE] = padded("12345");
    for n in 0..MAX_NUM_RESOURCE_IN_BUCKET {
        let resource = Resource {
            address: addr(60 + n as u8),
            name: padded("jeff"),
            location: Location { zip },
            trust_threshold: 10,
        };
        process_instruction(&mut accounts, &register_resource_data(&resource)).unwrap();
    }
    let extra = Resource {
        address: addr(99),
        name: padded("jeff"),
        location: Location { zip },
        trust_threshold: 10,
    };
    let result = process_instruction(&mut accounts, &register_resource_data(&extra));
    assert_eq!(Err(ProgramError::from(SearchEngineError::BucketFull)), result);
}

#[test]
fn test_register_resource_database_full() {
    let key = [0u8; 32];
    let mut accounts = vec![Account { key, data: vec![0u8; RESOURCE_INDEX_SIZE] }];
    let zips = ["11111", "22222", "33333"];
    for (n, z) in zips.iter().enumerate() {
        let resource = Resource {
            address: addr(60 + n as u8),
            name: padded("jeff"),
            location: Location { zip: padded(z) },
            trust_threshold: 10,
        };
        process_instruction(&mut accounts, &register_resource_data(&resource)).unwrap();
    }
    let extra = Resource {
        address: addr(99),
        name: padded("jeff"),
        location: Location { zip: padded("44444") },
        trust_threshold: 10,
    };
    let result = process_instruction(&mut accounts, &register_resource_data(&extra));
    assert_eq!(Err(ProgramError::from(SearchEngineError::DatabaseFull)), result);
}

#[test]
fn test_update_account_keeps_surplus_bytes() {
    // an oversized buffer keeps its bytes past the record
    let key = [0u8; 32];
    let mut data = vec![0u8; SEARCH_ENGINE_ACCOUNT_SIZE];
    data.push(42);
    data.push(43);
    let mut accounts = vec![Account { key, data }];

    let account = SearchEngineAccount {
        friendly_name: padded("jeff"),
        trust_table: [TrustTableEntry { to: addr(77), value: 10 }; MAX_TRUST_TABLE_SIZE],
        intents: [[0u8; PUBLIC_KEY_SIZE]; MAX_NUM_INTENTS],
    };
    let mut instruction_data: Vec<u8> = Vec::new();
    instruction_data.push(INSTRUCTION_UPDATE_ACCOUNT);
    instruction_data.extend_from_slice(&encode_account(&account));

    process_instruction(&mut accounts, &instruction_data).unwrap();
    assert_eq!(accounts[0].data.len(), SEARCH_ENGINE_ACCOUNT_SIZE + 2);
    assert_eq!(&accounts[0].data[SEARCH_ENGINE_ACCOUNT_SIZE..], &[42, 43]);
    assert_eq!(
        decode_account(&accounts[0].data[..SEARCH_ENGINE_ACCOUNT_SIZE]).unwrap(),
        account
    );
}
