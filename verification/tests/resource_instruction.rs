use resource_ledger::host::ProgramError;
use resource_ledger::resource::codec::{encode_challenge, encode_instance};
use resource_ledger::resource::error::ResourceError;
use resource_ledger::resource::instruction::ResourceInstruction;
use resource_ledger::resource::types::{
    Challenge, ResourceInstance, INSTRUCTION_CLAIM_CHALLENGE, INSTRUCTION_INITIATE_DISTRIBUTION,
    INSTRUCTION_RECORD_CHALLENGE, INSTRUCTION_RECORD_INTENT, INSTRUCTION_RECORD_RESOURCE_INSTANCE,
};

fn addr(n: u8) -> [u8; 32] {
    let mut a = [0u8; 32];
    a[0] = n;
    a[31] = n.wrapping_mul(7).wrapping_add(1);
    a
}

#[test]
fn instruction_test_empty_input() {
    let data = Vec::new();

    let result = ResourceInstruction::unpack(&data);
    let expected_error = Err(ProgramError::from(ResourceError::InvalidInstruction));
    assert_eq!(expected_error, result);
}

#[test]
fn instruction_test_record_intent() {
    let mut data = Vec::<u8>::new();
    data.push(INSTRUCTION_RECORD_INTENT);

    let result = ResourceInstruction::unpack(&data).unwrap();
    let expected = ResourceInstruction::RecordIntent();
    assert_eq!(expected, result);
}

#[test]
fn instruction_test_record_resource_instance() {
    let mut data = Vec::<u8>::new();
    data.push(INSTRUCTION_RECORD_RESOURCE_INSTANCE);
    let resource_instance = ResourceInstance { from: addr(11), quantity: 5 };
    data.append(&mut encode_instance(&resource_instance));

    let result = ResourceInstruction::unpack(&data).unwrap();
    let expected = ResourceInstruction::RecordResourceInstance(resource_instance);
    assert_eq!(expected, result);
}

#[test]
fn test_initiate_distribution() {
    let mut data = Vec::<u8>::new();
    data.push(INSTRUCTION_INITIATE_DISTRIBUTION);

    let result = ResourceInstruction::unpack(&data).unwrap();
    let expected = ResourceInstruction::InitiateDistribution();
    assert_eq!(expected, result);
}

#[test]
fn instruction_test_approve_challenge() {
    let mut data = Vec::<u8>::new();
    data.push(INSTRUCTION_RECORD_CHALLENGE);
    let challenge = Challenge { from: addr(21), to: addr(22), value: false };
    data.append(&mut encode_challenge(&challenge));

    let result = ResourceInstruction::unpack(&data).unwrap();
    let expected = ResourceInstruction::RecordChallenge(challenge);
    assert_eq!(expected, result);
}

#[test]
fn test_claim_challenge() {
    let mut data = Vec::<u8>::new();
    data.push(INSTRUCTION_CLAIM_CHALLENGE);
    let challenge = Challenge { from: addr(31), to: addr(32), value: false };
    data.append(&mut encode_challenge(&challenge));

    let result = ResourceInstruction::unpack(&data).unwrap();
    let expected = ResourceInstruction::ClaimChallenge(challenge);
    assert_eq!(expected, result);
}

#[test]
fn test_unknown_opcode_rejected() {
    let data = vec![9u8, 0, 0];

    let result = ResourceInstruction::unpack(&data);
    let expected_error = Err(ProgramError::from(ResourceError::InvalidInstruction));
    assert_eq!(expected_error, result);
}

#[test]
fn test_malformed_payload_rejected() {
    // a recognized opcode whose payload is one byte short
    let mut data = Vec::<u8>::new();
    data.push(INSTRUCTION_RECORD_RESOURCE_INSTANCE);
    let mut payload = encode_instance(&ResourceInstance { from: addr(3), quantity: 9 });
    payload.pop();
    data.append(&mut payload);

    let result = ResourceInstruction::unpack(&data);
    assert_eq!(Err(ProgramError::InvalidInstructionData), result);
}

#[test]
fn test_payload_round_trip() {
    // decoding and re-encoding the embedded payload reproduces the bytes
    let challenge = Challenge { from: addr(41), to: addr(42), value: true };
    let payload = encode_challenge(&challenge);
    let mut data = Vec::<u8>::new();
    data.push(INSTRUCTION_RECORD_CHALLENGE);
    data.extend_from_slice(&payload);

    match ResourceInstruction::unpack(&data).unwrap() {
        ResourceInstruction::RecordChallenge(c) => {
            assert_eq!(encode_challenge(&c), payload);
        }
        other => panic!("unexpected instruction {:?}", other),
    }
}
