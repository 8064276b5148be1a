use resource_ledger::host::ProgramError;
use resource_ledger::search::codec::{
    decode_trust_table_entry, encode_account, encode_resource, encode_trust_table_entry,
};
use resource_ledger::search::error::SearchEngineError;
use resource_ledger::search::instruction::SearchEngineInstruction;
use resource_ledger::search::types::{
    Location, Resource, SearchEngineAccount, TrustTableEntry, INSTRUCTION_REGISTER_INTENT,
    INSTRUCTION_REGISTER_RESOURCE, INSTRUCTION_UPDATE_ACCOUNT, MAX_FRIENDLY_NAME_SIZE,
    MAX_NUM_INTENTS, MAX_TRUST_TABLE_SIZE, MAX_ZIP_SIZE, PUBLIC_KEY_SIZE,
};

fn addr(n: u8) -> [u8; 32] {
    let mut a = [0u8; 32];
    a[0] = n;
    a[31] = n.wrapping_mul(7).wrapping_add(1);
    a
}

fn padded(s: &str) -> [u8; 32] {
    let mut out = [0u8; 32];
    for (place, data) in out.iter_mut().zip(s.as_bytes().iter()) {
        *place = *data
    }
    out
}

#[test]
fn search_instruction_test_empty_input() {
    let data = Vec::new();

    let result = SearchEngineInstruction::unpack(&data);
    let expected_error = Err(ProgramError::from(SearchEngineError::InvalidInstruction));
    assert_eq!(expected_error, result);
}

#[test]
fn test_pack_trusttableentry() {
    // pack
    let trust_table_entry = TrustTableEntry { to: addr(8), value: 10 };
    let packed = encode_trust_table_entry(&trust_table_entry);
    // unpack
    let decoded = decode_trust_table_entry(&packed).unwrap();
    assert_eq!(trust_table_entry, decoded);
}

#[test]
fn test_upack_update_account() {
    let mut data = Vec::<u8>::new();
    data.push(INSTRUCTION_UPDATE_ACCOUNT);
    let name: [u8; MAX_FRIENDLY_NAME_SIZE] = padded("jeff");
    let search_engine_account = SearchEngineAccount {
        friendly_name: name,
        trust_table: [TrustTableEntry { to: addr(8), value: 10 }; MAX_TRUST_TABLE_SIZE],
        intents: [[0u8; PUBLIC_KEY_SIZE]; MAX_NUM_INTENTS],
    };
    data.append(&mut encode_account(&search_engine_account));

    let result = SearchEngineInstruction::unpack(&data).unwrap();
    let expected = SearchEngineInstruction::UpdateAccount(search_engine_account);
    assert_eq!(expected, result);
}

#[test]
fn test_unpack_register_resource() {
    let mut data = Vec::new();
    data.push(INSTRUCTION_REGISTER_RESOURCE);
    let name: [u8; MAX_FRIENDLY_NAME_SIZE] = padded("jeff");
    let zip: [u8; MAX_ZIP_SIZE] = padded("12345");
    let resource = Resource {
        address: addr(8),
        location: Location { zip },
        name,
        trust_threshold: 10,
    };
    data.append(&mut encode_resource(&resource));

    let result = SearchEngineInstruction::unpack(&data).unwrap();
    let expected = SearchEngineInstruction::RegisterResource(resource);
    assert_eq!(expected, result);
}

#[test]
fn test_unpack_register_intent() {
    let mut data = Vec::new();
    data.push(INSTRUCTION_REGISTER_INTENT);

    let result = SearchEngineInstruction::unpack(&data).unwrap();
    let expected = SearchEngineInstruction::RegisterIntent();
    assert_eq!(expected, result);
}

#[test]
fn test_search_unknown_opcode_rejected() {
    let data = vec![7u8];
    let result = SearchEngineInstruction::unpack(&data);
    assert_eq!(
        Err(ProgramError::from(SearchEngineError::InvalidInstruction)),
        result
    );
}

#[test]
fn test_search_malformed_payload_rejected() {
    let mut data = Vec::new();
    data.push(INSTRUCTION_REGISTER_RESOURCE);
    data.push(0);
    let result = SearchEngineInstruction::unpack(&data);
    assert_eq!(Err(ProgramError::InvalidInstructionData), result);
}
