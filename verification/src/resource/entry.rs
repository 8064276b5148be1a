//! The invocation entry point of the resource program.
//!
//! The host hands over the account list and the raw instruction bytes.  The
//! instruction is decoded, the database record is loaded from the first
//! account's buffer, the matching state-machine operation runs on an
//! in-memory copy, and only on success is the re-encoded record written back;
//! on any error every account keeps its pre-call bytes.

use vstd::prelude::*;
use crate::bytes::{address_is_empty, is_empty_address};
use crate::host::{Account, ProgramError};
use crate::resource::codec::{
    decode_database, encode_database, spec_decode_database, spec_encode_database,
};
use crate::resource::instruction::{spec_unpack, ResourceInstruction};
use crate::resource::state::{
    initiate_distribution, record_challenge, record_intent, record_resource_instance,
    spec_initiate_distribution, spec_record_challenge, spec_record_intent,
    spec_record_resource_instance,
};
use crate::resource::types::ResourceDatabase;

verus! {

/// The transition a database-touching instruction asks for.  Recording an
/// intent takes the participant from the second account of the invocation,
/// and demands exactly the two accounts with a real participant address.
pub open spec fn spec_apply(
    insn: ResourceInstruction,
    db: ResourceDatabase,
    accounts: Seq<Account>,
) -> Result<ResourceDatabase, ProgramError> {
    match insn {
        ResourceInstruction::RecordIntent() => if accounts.len() != 2 || is_empty_address(
            accounts[1].key,
        ) {
            Err(ProgramError::InvalidInstructionData)
        } else {
            spec_record_intent(db, accounts[1].key)
        },
        ResourceInstruction::RecordResourceInstance(x) => spec_record_resource_instance(db, x),
        ResourceInstruction::InitiateDistribution() => spec_initiate_distribution(db),
        ResourceInstruction::RecordChallenge(c) => spec_record_challenge(db, c),
        ResourceInstruction::Default() => Ok(db),
        ResourceInstruction::ClaimChallenge(_) => Ok(db),
    }
}

/// Processes one invocation.  The outcome, stated over the decoded
/// instruction: a malformed instruction or a command refused by the state
/// machine returns its typed error and leaves every account untouched; the
/// payload-free observability commands succeed without touching anything; a
/// successful state change rewrites exactly the first account's bytes with
/// the re-encoded database.  A missing or undecodable database account is the
/// host's fault and is reported as `InvalidAccountData`, with nothing
/// written.
pub fn process_instruction(accounts: &mut Vec<Account>, instruction_data: &[u8]) -> (r: Result<
    (),
    ProgramError,
>)
    ensures
        ({
            let pre = old(accounts)@;
            let post = final(accounts)@;
            match spec_unpack(instruction_data@) {
                Err(e) => r == Err::<(), ProgramError>(e) && post == pre,
                Ok(insn) => match insn {
                    ResourceInstruction::Default() => r == Ok::<(), ProgramError>(()) && post
                        == pre,
                    ResourceInstruction::ClaimChallenge(_) => r == Ok::<(), ProgramError>(())
                        && post == pre,
                    _ => if pre.len() == 0 {
                        r == Err::<(), ProgramError>(ProgramError::InvalidAccountData) && post
                            == pre
                    } else {
                        match spec_decode_database(pre[0].data@) {
                            None => r == Err::<(), ProgramError>(ProgramError::InvalidAccountData)
                                && post == pre,
                            Some(db) => match spec_apply(insn, db, pre) {
                                Ok(db2) => r == Ok::<(), ProgramError>(()) && post.len()
                                    == pre.len() && post[0].key == pre[0].key && post[0].data@
                                    == spec_encode_database(db2) && (forall|k: int|
                                    1 <= k < pre.len() ==> post[k] == pre[k]),
                                Err(e) => r == Err::<(), ProgramError>(e) && post == pre,
                            },
                        }
                    },
                },
            }
        }),
{
    let insn = match ResourceInstruction::unpack(instruction_data) {
        Ok(i) => i,
        Err(e) => {
            return Err(e);
        },
    };
    match insn {
        ResourceInstruction::Default() => {
            return Ok(());
        },
        ResourceInstruction::ClaimChallenge(_) => {
            return Ok(());
        },
        _ => {},
    }
    if accounts.len() == 0 {
        return Err(ProgramError::InvalidAccountData);
    }
    let db = match decode_database(accounts[0].data.as_slice()) {
        Ok(db) => db,
        Err(_) => {
            return Err(ProgramError::InvalidAccountData);
        },
    };
    let result = match insn {
        ResourceInstruction::RecordIntent() => {
            if accounts.len() != 2 {
                Err(ProgramError::InvalidInstructionData)
            } else if address_is_empty(&accounts[1].key) {
                Err(ProgramError::InvalidInstructionData)
            } else {
                record_intent(&db, &accounts[1].key)
            }
        },
        ResourceInstruction::RecordResourceInstance(x) => record_resource_instance(&db, &x),
        ResourceInstruction::InitiateDistribution() => initiate_distribution(&db),
        ResourceInstruction::RecordChallenge(c) => record_challenge(&db, &c),
        ResourceInstruction::Default() | ResourceInstruction::ClaimChallenge(_) => {
            // both returned before the database was loaded
            assert(false);
            Err(ProgramError::InvalidAccountData)
        },
    };
    match result {
        Ok(db2) => {
            let data = encode_database(&db2);
            let key = accounts[0].key;
            accounts[0] = Account { key, data };
            Ok(())
        },
        Err(e) => Err(e),
    }
}

} // verus!
