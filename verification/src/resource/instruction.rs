//! The resource program's instruction set and its wire decoder.
//!
//! An instruction is a leading opcode byte followed by the fixed-layout
//! payload the opcode calls for (nothing for the opcodes without payload;
//! trailing bytes after a payload-free opcode are ignored, as the host sends
//! whole transaction buffers).

use vstd::prelude::*;
use vstd::slice::slice_subrange;
use crate::host::ProgramError;
use crate::resource::codec::{
    decode_challenge, decode_instance, lemma_challenge_of_bytes_encode,
    lemma_instance_of_bytes_encode, spec_decode_challenge, spec_decode_instance,
    spec_encode_challenge, spec_encode_instance, CHALLENGE_SIZE, RESOURCE_INSTANCE_SIZE,
};
use crate::resource::error::ResourceError;
use crate::resource::types::{
    Challenge, ResourceInstance, INSTRUCTION_CLAIM_CHALLENGE, INSTRUCTION_DEFAULT,
    INSTRUCTION_INITIATE_DISTRIBUTION, INSTRUCTION_RECORD_CHALLENGE, INSTRUCTION_RECORD_INTENT,
    INSTRUCTION_RECORD_RESOURCE_INSTANCE,
};

verus! {

/// The commands the resource program understands, in opcode order.
#[derive(Clone, Copy, Debug, PartialEq, Eq)]
pub enum ResourceInstruction {
    Default(),
    RecordIntent(),
    RecordResourceInstance(ResourceInstance),
    InitiateDistribution(),
    RecordChallenge(Challenge),
    ClaimChallenge(Challenge),
}

/// What decoding an instruction byte string yields: empty input and
/// unrecognized opcodes are invalid instructions; a recognized opcode whose
/// payload does not decode is invalid instruction data.
pub open spec fn spec_unpack(input: Seq<u8>) -> Result<ResourceInstruction, ProgramError> {
    if input.len() == 0 {
        Err(ResourceError::InvalidInstruction.spec_to_program_error())
    } else {
        let rest = input.skip(1);
        if input[0] == INSTRUCTION_DEFAULT {
            Ok(ResourceInstruction::Default())
        } else if input[0] == INSTRUCTION_RECORD_INTENT {
            Ok(ResourceInstruction::RecordIntent())
        } else if input[0] == INSTRUCTION_RECORD_RESOURCE_INSTANCE {
            match spec_decode_instance(rest) {
                Some(x) => Ok(ResourceInstruction::RecordResourceInstance(x)),
                None => Err(ProgramError::InvalidInstructionData),
            }
        } else if input[0] == INSTRUCTION_INITIATE_DISTRIBUTION {
            Ok(ResourceInstruction::InitiateDistribution())
        } else if input[0] == INSTRUCTION_RECORD_CHALLENGE {
            match spec_decode_challenge(rest) {
                Some(c) => Ok(ResourceInstruction::RecordChallenge(c)),
                None => Err(ProgramError::InvalidInstructionData),
            }
        } else if input[0] == INSTRUCTION_CLAIM_CHALLENGE {
            match spec_decode_challenge(rest) {
                Some(c) => Ok(ResourceInstruction::ClaimChallenge(c)),
                None => Err(ProgramError::InvalidInstructionData),
            }
        } else {
            Err(ResourceError::InvalidInstruction.spec_to_program_error())
        }
    }
}

impl ResourceInstruction {
    pub fn unpack(input: &[u8]) -> (r: Result<Self, ProgramError>)
        ensures
            r == spec_unpack(input@),
    {
        if input.len() == 0 {
            return Err(ProgramError::from(ResourceError::InvalidInstruction));
        }
        let tag = input[0];
        let rest = slice_subrange(input, 1, input.len());
        proof {
            assert(rest@ =~= input@.skip(1));
        }
        if tag == INSTRUCTION_DEFAULT {
            Ok(ResourceInstruction::Default())
        } else if tag == INSTRUCTION_RECORD_INTENT {
            Ok(ResourceInstruction::RecordIntent())
        } else if tag == INSTRUCTION_RECORD_RESOURCE_INSTANCE {
            match decode_instance(rest) {
                Ok(x) => Ok(ResourceInstruction::RecordResourceInstance(x)),
                Err(_) => Err(ProgramError::InvalidInstructionData),
            }
        } else if tag == INSTRUCTION_INITIATE_DISTRIBUTION {
            Ok(ResourceInstruction::InitiateDistribution())
        } else if tag == INSTRUCTION_RECORD_CHALLENGE {
            match decode_challenge(rest) {
                Ok(c) => Ok(ResourceInstruction::RecordChallenge(c)),
                Err(_) => Err(ProgramError::InvalidInstructionData),
            }
        } else if tag == INSTRUCTION_CLAIM_CHALLENGE {
            match decode_challenge(rest) {
                Ok(c) => Ok(ResourceInstruction::ClaimChallenge(c)),
                Err(_) => Err(ProgramError::InvalidInstructionData),
            }
        } else {
            Err(ProgramError::from(ResourceError::InvalidInstruction))
        }
    }
}

/// Decoding an instruction and re-encoding its embedded payload reproduces
/// the payload bytes that followed the opcode.
pub proof fn lemma_unpack_payload_round_trip(input: Seq<u8>)
    ensures
        spec_unpack(input) matches Ok(ResourceInstruction::RecordResourceInstance(x))
            ==> spec_encode_instance(x) == input.skip(1),
        spec_unpack(input) matches Ok(ResourceInstruction::RecordChallenge(c))
            ==> spec_encode_challenge(c) == input.skip(1),
        spec_unpack(input) matches Ok(ResourceInstruction::ClaimChallenge(c))
            ==> spec_encode_challenge(c) == input.skip(1),
{
    if input.len() > 0 {
        let rest = input.skip(1);
        if spec_unpack(input) matches Ok(ResourceInstruction::RecordResourceInstance(x)) {
            assert(rest.len() == RESOURCE_INSTANCE_SIZE);
            lemma_instance_of_bytes_encode(rest);
        }
        if spec_unpack(input) matches Ok(ResourceInstruction::RecordChallenge(c)) {
            assert(rest.len() == CHALLENGE_SIZE);
            lemma_challenge_of_bytes_encode(rest);
        }
        if spec_unpack(input) matches Ok(ResourceInstruction::ClaimChallenge(c)) {
            assert(rest.len() == CHALLENGE_SIZE);
            lemma_challenge_of_bytes_encode(rest);
        }
    }
}

} // verus!
