//! The search engine's instruction set and its wire decoder.

use vstd::prelude::*;
use vstd::slice::slice_subrange;
use crate::host::ProgramError;
use crate::search::codec::{
    decode_account, decode_resource, lemma_encode_account_of_bytes, lemma_resource_of_bytes_encode,
    spec_decode_account, spec_decode_resource, spec_encode_account, spec_encode_resource,
};
use crate::search::error::SearchEngineError;
use crate::search::types::{
    Resource, SearchEngineAccount, INSTRUCTION_DEFAULT, INSTRUCTION_REGISTER_INTENT,
    INSTRUCTION_REGISTER_RESOURCE, INSTRUCTION_UPDATE_ACCOUNT, RESOURCE_SIZE,
    SEARCH_ENGINE_ACCOUNT_SIZE,
};

verus! {

/// The commands the search engine understands, in opcode order.
#[derive(Clone, Copy, Debug, PartialEq, Eq)]
pub enum SearchEngineInstruction {
    Default(),
    UpdateAccount(SearchEngineAccount),
    RegisterResource(Resource),
    RegisterIntent(),
}

/// What decoding an instruction byte string yields: empty input and
/// unrecognized opcodes are invalid instructions; a recognized opcode whose
/// payload does not decode is invalid instruction data.
pub open spec fn spec_unpack(input: Seq<u8>) -> Result<SearchEngineInstruction, ProgramError> {
    if input.len() == 0 {
        Err(SearchEngineError::InvalidInstruction.spec_to_program_error())
    } else {
        let rest = input.skip(1);
        if input[0] == INSTRUCTION_DEFAULT {
            Ok(SearchEngineInstruction::Default())
        } else if input[0] == INSTRUCTION_UPDATE_ACCOUNT {
            match spec_decode_account(rest) {
                Some(a) => Ok(SearchEngineInstruction::UpdateAccount(a)),
                None => Err(ProgramError::InvalidInstructionData),
            }
        } else if input[0] == INSTRUCTION_REGISTER_RESOURCE {
            match spec_decode_resource(rest) {
                Some(x) => Ok(SearchEngineInstruction::RegisterResource(x)),
                None => Err(ProgramError::InvalidInstructionData),
            }
        } else if input[0] == INSTRUCTION_REGISTER_INTENT {
            Ok(SearchEngineInstruction::RegisterIntent())
        } else {
            Err(SearchEngineError::InvalidInstruction.spec_to_program_error())
        }
    }
}

impl SearchEngineInstruction {
    pub fn unpack(input: &[u8]) -> (r: Result<Self, ProgramError>)
        ensures
            r == spec_unpack(input@),
    {
        if input.len() == 0 {
            return Err(ProgramError::from(SearchEngineError::InvalidInstruction));
        }
        let tag = input[0];
        let rest = slice_subrange(input, 1, input.len());
        proof {
            assert(rest@ =~= input@.skip(1));
        }
        if tag == INSTRUCTION_DEFAULT {
            Ok(SearchEngineInstruction::Default())
        } else if tag == INSTRUCTION_UPDATE_ACCOUNT {
            match decode_account(rest) {
                Ok(a) => Ok(SearchEngineInstruction::UpdateAccount(a)),
                Err(_) => Err(ProgramError::InvalidInstructionData),
            }
        } else if tag == INSTRUCTION_REGISTER_RESOURCE {
            match decode_resource(rest) {
                Ok(x) => Ok(SearchEngineInstruction::RegisterResource(x)),
                Err(_) => Err(ProgramError::InvalidInstructionData),
            }
        } else if tag == INSTRUCTION_REGISTER_INTENT {
            Ok(SearchEngineInstruction::RegisterIntent())
        } else {
            Err(ProgramError::from(SearchEngineError::InvalidInstruction))
        }
    }
}

/// Decoding an instruction and re-encoding its embedded payload reproduces
/// the payload bytes that followed the opcode.
pub proof fn lemma_unpack_payload_round_trip(input: Seq<u8>)
    ensures
        spec_unpack(input) matches Ok(SearchEngineInstruction::UpdateAccount(a))
            ==> spec_encode_account(a) == input.skip(1),
        spec_unpack(input) matches Ok(SearchEngineInstruction::RegisterResource(x))
            ==> spec_encode_resource(x) == input.skip(1),
{
    if input.len() > 0 {
        let rest = input.skip(1);
        if spec_unpack(input) matches Ok(SearchEngineInstruction::UpdateAccount(a)) {
            assert(rest.len() == SEARCH_ENGINE_ACCOUNT_SIZE);
            lemma_encode_account_of_bytes(rest);
        }
        if spec_unpack(input) matches Ok(SearchEngineInstruction::RegisterResource(x)) {
            assert(rest.len() == RESOURCE_SIZE);
            lemma_resource_of_bytes_encode(rest);
        }
    }
}

} // verus!
