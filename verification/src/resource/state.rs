//! The resource database state machine.
//!
//! Each operation is a pure function from the current `ResourceDatabase` and
//! a command payload to either the fully updated record or a typed error; a
//! failing operation returns the error and nothing else, so the caller's
//! stored bytes keep their pre-call value.  Empty slots are marked by the
//! all-zero sentinel address and every collection fills left to right.

use vstd::prelude::*;
use crate::bytes::{
    address_eq, address_is_empty, empty_address, is_empty_address, spec_empty_address, Address,
};
use crate::host::ProgramError;
use crate::resource::error::ResourceError;
use crate::resource::types::{
    spec_empty_challenge, spec_empty_instance, Challenge, ResourceDatabase, ResourceInstance,
    MAX_NUM_CHALLENGES, MAX_NUM_RECIPIENTS, MAX_NUM_RESOURCE_INSTANCES,
};
use crate::scan::{find_from, spec_find};

verus! {

/// The all-zero genesis record.
pub open spec fn spec_genesis_database() -> ResourceDatabase {
    ResourceDatabase {
        is_distributed: false,
        final_quantity: 0u8,
        intents: vstd::array::spec_array_fill_for_copy_type::<Address, MAX_NUM_RECIPIENTS>(
            spec_empty_address(),
        ),
        instances: vstd::array::spec_array_fill_for_copy_type::<
            ResourceInstance,
            MAX_NUM_RESOURCE_INSTANCES,
        >(spec_empty_instance()),
        challenges: vstd::array::spec_array_fill_for_copy_type::<Challenge, MAX_NUM_CHALLENGES>(
            spec_empty_challenge(),
        ),
        claims: vstd::array::spec_array_fill_for_copy_type::<Address, MAX_NUM_RECIPIENTS>(
            spec_empty_address(),
        ),
    }
}

/// Resetting discards all prior content: the result is the genesis record,
/// whatever the database held before.
pub fn reset_database() -> (r: ResourceDatabase)
    ensures
        r == spec_genesis_database(),
{
    let empty = empty_address();
    ResourceDatabase {
        is_distributed: false,
        final_quantity: 0,
        intents: [empty; MAX_NUM_RECIPIENTS],
        instances: [ResourceInstance { from: empty, quantity: 0 }; MAX_NUM_RESOURCE_INSTANCES],
        challenges: [Challenge { from: empty, to: empty, value: false }; MAX_NUM_CHALLENGES],
        claims: [empty; MAX_NUM_RECIPIENTS],
    }
}

/// An intent slot already holding `a`.
pub open spec fn spec_intent_match_pred(a: Address) -> spec_fn(Address) -> bool {
    |x: Address| x == a
}

/// An intent slot still empty.
pub open spec fn spec_empty_intent_pred() -> spec_fn(Address) -> bool {
    |x: Address| is_empty_address(x)
}

/// Recording an intent: rejected for the sentinel; a no-op when the address
/// is already present anywhere in the slots; only an absent address claims
/// the first empty slot; an error when all slots are taken.
pub open spec fn spec_record_intent(db: ResourceDatabase, a: Address) -> Result<
    ResourceDatabase,
    ProgramError,
> {
    if is_empty_address(a) {
        Err(ProgramError::InvalidInstructionData)
    } else if spec_find(db.intents@, spec_intent_match_pred(a)) is Some {
        Ok(db)
    } else {
        match spec_find(db.intents@, spec_empty_intent_pred()) {
            Some(i) => Ok(
                ResourceDatabase {
                    intents: vstd::array::spec_array_update(db.intents, i, a),
                    ..db
                },
            ),
            None => Err(ProgramError::InvalidInstructionData),
        }
    }
}

pub fn record_intent(db: &ResourceDatabase, participant: &Address) -> (r: Result<
    ResourceDatabase,
    ProgramError,
>)
    ensures
        r == spec_record_intent(*db, *participant),
{
    broadcast use vstd::array::axiom_spec_array_update;

    if address_is_empty(participant) {
        return Err(ProgramError::InvalidInstructionData);
    }
    let ghost a = *participant;
    let ghost mpred = spec_intent_match_pred(a);
    let mut i: usize = 0;
    while i < MAX_NUM_RECIPIENTS
        invariant
            0 <= i <= MAX_NUM_RECIPIENTS,
            find_from(db.intents@, mpred, 0) == find_from(db.intents@, mpred, i as int),
            mpred == spec_intent_match_pred(a),
            a == *participant,
            !is_empty_address(a),
        decreases MAX_NUM_RECIPIENTS - i,
    {
        if address_eq(&db.intents[i], participant) {
            assert(mpred(db.intents@[i as int]));
            return Ok(*db);
        }
        assert(!mpred(db.intents@[i as int]));
        i = i + 1;
    }
    // the address is in no slot; claim the first empty one
    let ghost epred = spec_empty_intent_pred();
    let mut j: usize = 0;
    while j < MAX_NUM_RECIPIENTS
        invariant
            0 <= j <= MAX_NUM_RECIPIENTS,
            find_from(db.intents@, mpred, 0) == None::<int>,
            find_from(db.intents@, epred, 0) == find_from(db.intents@, epred, j as int),
            mpred == spec_intent_match_pred(a),
            epred == spec_empty_intent_pred(),
            a == *participant,
            !is_empty_address(a),
        decreases MAX_NUM_RECIPIENTS - j,
    {
        if address_is_empty(&db.intents[j]) {
            assert(epred(db.intents@[j as int]));
            let mut intents = db.intents;
            intents[j] = *participant;
            let out = ResourceDatabase { intents, ..*db };
            assert(out.intents =~= vstd::array::spec_array_update(db.intents, j as int, a));
            return Ok(out);
        }
        assert(!epred(db.intents@[j as int]));
        j = j + 1;
    }
    Err(ProgramError::InvalidInstructionData)
}

/// An empty instance slot: its `from` is the sentinel.
pub open spec fn spec_instance_pred() -> spec_fn(ResourceInstance) -> bool {
    |x: ResourceInstance| is_empty_address(x.from)
}

/// The slot at which an instance is recorded: the first whose `from` is the
/// sentinel.
pub open spec fn spec_instance_slot(instances: Seq<ResourceInstance>) -> Option<int> {
    spec_find(instances, spec_instance_pred())
}

/// Recording a resource instance: rejected outright once distribution has
/// started; otherwise the instance claims the first empty slot; an error
/// when all slots are taken.
pub open spec fn spec_record_resource_instance(
    db: ResourceDatabase,
    instance: ResourceInstance,
) -> Result<ResourceDatabase, ProgramError> {
    if db.is_distributed {
        Err(ResourceError::ResourceInDistribution.spec_to_program_error())
    } else {
        match spec_instance_slot(db.instances@) {
            Some(i) => Ok(
                ResourceDatabase {
                    instances: vstd::array::spec_array_update(db.instances, i, instance),
                    ..db
                },
            ),
            None => Err(ResourceError::NoResourceInstanceSpace.spec_to_program_error()),
        }
    }
}

pub fn record_resource_instance(db: &ResourceDatabase, instance: &ResourceInstance) -> (r: Result<
    ResourceDatabase,
    ProgramError,
>)
    ensures
        r == spec_record_resource_instance(*db, *instance),
{
    broadcast use vstd::array::axiom_spec_array_update;

    if db.is_distributed {
        return Err(ProgramError::from(ResourceError::ResourceInDistribution));
    }
    let ghost pred = spec_instance_pred();
    let mut i: usize = 0;
    while i < MAX_NUM_RESOURCE_INSTANCES
        invariant
            0 <= i <= MAX_NUM_RESOURCE_INSTANCES,
            find_from(db.instances@, pred, 0) == find_from(db.instances@, pred, i as int),
            pred == spec_instance_pred(),
            !db.is_distributed,
        decreases MAX_NUM_RESOURCE_INSTANCES - i,
    {
        if address_is_empty(&db.instances[i].from) {
            assert(pred(db.instances@[i as int]));
            let mut instances = db.instances;
            instances[i] = *instance;
            let out = ResourceDatabase { instances, ..*db };
            assert(out.instances =~= vstd::array::spec_array_update(
                db.instances,
                i as int,
                *instance,
            ));
            return Ok(out);
        }
        assert(!pred(db.instances@[i as int]));
        i = i + 1;
    }
    Err(ProgramError::from(ResourceError::NoResourceInstanceSpace))
}

/// A challenge slot holding the same ordered pair as `ch`.
pub open spec fn spec_challenge_match_pred(ch: Challenge) -> spec_fn(Challenge) -> bool {
    |c: Challenge| c.from == ch.from && c.to == ch.to
}

/// A challenge slot still empty: its `from` is the sentinel.
pub open spec fn spec_empty_challenge_pred() -> spec_fn(Challenge) -> bool {
    |c: Challenge| is_empty_address(c.from)
}

/// Recording a challenge: only while distributing, never for a sentinel
/// address.  A slot holding the same `(from, to)` pair — wherever it stands —
/// is overwritten in place; only when no slot matches is the first empty slot
/// claimed; an error when the matrix is full and the pair is not
/// pre-registered.
pub open spec fn spec_record_challenge(db: ResourceDatabase, ch: Challenge) -> Result<
    ResourceDatabase,
    ProgramError,
> {
    if !db.is_distributed {
        Err(ResourceError::ResourceNotInDistribution.spec_to_program_error())
    } else if is_empty_address(ch.from) || is_empty_address(ch.to) {
        Err(ProgramError::InvalidInstructionData)
    } else {
        match spec_find(db.challenges@, spec_challenge_match_pred(ch)) {
            Some(i) => Ok(
                ResourceDatabase {
                    challenges: vstd::array::spec_array_update(db.challenges, i, ch),
                    ..db
                },
            ),
            None => match spec_find(db.challenges@, spec_empty_challenge_pred()) {
                Some(i) => Ok(
                    ResourceDatabase {
                        challenges: vstd::array::spec_array_update(db.challenges, i, ch),
                        ..db
                    },
                ),
                None => Err(ProgramError::InvalidInstructionData),
            },
        }
    }
}

pub fn record_challenge(db: &ResourceDatabase, challenge: &Challenge) -> (r: Result<
    ResourceDatabase,
    ProgramError,
>)
    ensures
        r == spec_record_challenge(*db, *challenge),
{
    broadcast use vstd::array::axiom_spec_array_update;

    if !db.is_distributed {
        return Err(ProgramError::from(ResourceError::ResourceNotInDistribution));
    }
    if address_is_empty(&challenge.from) || address_is_empty(&challenge.to) {
        return Err(ProgramError::InvalidInstructionData);
    }
    let ghost ch = *challenge;
    let ghost mpred = spec_challenge_match_pred(ch);
    let mut i: usize = 0;
    while i < MAX_NUM_CHALLENGES
        invariant
            0 <= i <= MAX_NUM_CHALLENGES,
            find_from(db.challenges@, mpred, 0) == find_from(db.challenges@, mpred, i as int),
            mpred == spec_challenge_match_pred(ch),
            ch == *challenge,
            db.is_distributed,
            !is_empty_address(ch.from),
            !is_empty_address(ch.to),
        decreases MAX_NUM_CHALLENGES - i,
    {
        let matches_pair = address_eq(&db.challenges[i].from, &challenge.from) && address_eq(
            &db.challenges[i].to,
            &challenge.to,
        );
        if matches_pair {
            assert(mpred(db.challenges@[i as int]));
            let mut challenges = db.challenges;
            challenges[i] = *challenge;
            let out = ResourceDatabase { challenges, ..*db };
            assert(out.challenges =~= vstd::array::spec_array_update(
                db.challenges,
                i as int,
                ch,
            ));
            return Ok(out);
        }
        assert(!mpred(db.challenges@[i as int]));
        i = i + 1;
    }
    // no slot holds the pair; claim the first empty one
    let ghost epred = spec_empty_challenge_pred();
    let mut j: usize = 0;
    while j < MAX_NUM_CHALLENGES
        invariant
            0 <= j <= MAX_NUM_CHALLENGES,
            find_from(db.challenges@, mpred, 0) == None::<int>,
            find_from(db.challenges@, epred, 0) == find_from(db.challenges@, epred, j as int),
            mpred == spec_challenge_match_pred(ch),
            epred == spec_empty_challenge_pred(),
            ch == *challenge,
            db.is_distributed,
            !is_empty_address(ch.from),
            !is_empty_address(ch.to),
        decreases MAX_NUM_CHALLENGES - j,
    {
        if address_is_empty(&db.challenges[j].from) {
            assert(epred(db.challenges@[j as int]));
            let mut challenges = db.challenges;
            challenges[j] = *challenge;
            let out = ResourceDatabase { challenges, ..*db };
            assert(out.challenges =~= vstd::array::spec_array_update(
                db.challenges,
                j as int,
                ch,
            ));
            return Ok(out);
        }
        assert(!epred(db.challenges@[j as int]));
        j = j + 1;
    }
    Err(ProgramError::InvalidInstructionData)
}

/// Total quantity contributed, summed over the dense prefix of the instance
/// slots: summation stops at the first empty slot.
pub open spec fn spec_quantity_sum(s: Seq<ResourceInstance>) -> int
    decreases s.len(),
{
    if s.len() == 0 || is_empty_address(s[0].from) {
        0
    } else {
        s[0].quantity + spec_quantity_sum(s.skip(1))
    }
}

/// Number of instances in the dense prefix of the instance slots.
pub open spec fn spec_quantity_count(s: Seq<ResourceInstance>) -> int
    decreases s.len(),
{
    if s.len() == 0 || is_empty_address(s[0].from) {
        0
    } else {
        1 + spec_quantity_count(s.skip(1))
    }
}

/// The aggregate computed at distribution time: the integer average of the
/// contributed quantities, or 0 when nothing was contributed.
pub open spec fn spec_final_quantity(s: Seq<ResourceInstance>) -> u8 {
    if spec_quantity_sum(s) > 0 {
        (spec_quantity_sum(s) / spec_quantity_count(s)) as u8
    } else {
        0u8
    }
}

/// The ordered challenge pairs built over the intent slots, scanning rows
/// from slot `fi` and the current row from slot `ti`: one entry for every
/// ordered pair of registered (non-sentinel) slots holding distinct
/// addresses, row by row, each with `value` false.
pub open spec fn spec_pairs_from(ints: Seq<Address>, fi: int, ti: int) -> Seq<Challenge>
    decreases ints.len() - fi, ints.len() - ti,
{
    if fi < 0 || ti < 0 || fi >= ints.len() {
        Seq::empty()
    } else if ti >= ints.len() {
        spec_pairs_from(ints, fi + 1, 0)
    } else if ints[fi] == ints[ti] || is_empty_address(ints[fi]) || is_empty_address(ints[ti]) {
        spec_pairs_from(ints, fi, ti + 1)
    } else {
        seq![Challenge { from: ints[fi], to: ints[ti], value: false }] + spec_pairs_from(
            ints,
            fi,
            ti + 1,
        )
    }
}

/// The full ordered-pair cross-product of the registered intents.
pub open spec fn spec_challenge_matrix(ints: Seq<Address>) -> Seq<Challenge> {
    spec_pairs_from(ints, 0, 0)
}

/// The matrix laid into the fixed challenge array, the tail left empty.
pub open spec fn spec_padded_challenges(pairs: Seq<Challenge>) -> [Challenge; MAX_NUM_CHALLENGES] {
    if pairs.len() <= MAX_NUM_CHALLENGES {
        crate::bytes::spec_array_of_seq(
            pairs + Seq::new(
                (MAX_NUM_CHALLENGES - pairs.len()) as nat,
                |k: int| spec_empty_challenge(),
            ),
            spec_empty_challenge(),
        )
    } else {
        crate::bytes::spec_array_of_seq(pairs, spec_empty_challenge())
    }
}

/// Initiating distribution: not re-entrant; flips the one-way latch, fixes
/// the aggregate quantity, and overwrites the challenge array with the full
/// cross-product of the intents registered at this moment.
pub open spec fn spec_initiate_distribution(db: ResourceDatabase) -> Result<
    ResourceDatabase,
    ProgramError,
> {
    if db.is_distributed {
        Err(ResourceError::ResourceInDistribution.spec_to_program_error())
    } else {
        Ok(
            ResourceDatabase {
                is_distributed: true,
                final_quantity: spec_final_quantity(db.instances@),
                challenges: spec_padded_challenges(spec_challenge_matrix(db.intents@)),
                ..db
            },
        )
    }
}

pub fn initiate_distribution(db: &ResourceDatabase) -> (r: Result<ResourceDatabase, ProgramError>)
    ensures
        r == spec_initiate_distribution(*db),
{
    if db.is_distributed {
        return Err(ProgramError::from(ResourceError::ResourceInDistribution));
    }
    let ghost s = db.instances@;
    proof {
        assert(s.skip(0) =~= s);
    }
    let mut sum: u32 = 0;
    let mut count: u32 = 0;
    let mut i: usize = 0;
    while i < MAX_NUM_RESOURCE_INSTANCES
        invariant
            0 <= i <= MAX_NUM_RESOURCE_INSTANCES,
            s == db.instances@,
            count <= i,
            sum <= 255 * count,
            spec_quantity_sum(s) == sum + spec_quantity_sum(s.skip(i as int)),
            spec_quantity_count(s) == count + spec_quantity_count(s.skip(i as int)),
        ensures
            sum == spec_quantity_sum(s),
            count == spec_quantity_count(s),
            sum <= 255 * count,
            count <= MAX_NUM_RESOURCE_INSTANCES,
        decreases MAX_NUM_RESOURCE_INSTANCES - i,
    {
        if address_is_empty(&db.instances[i].from) {
            proof {
                assert(s.skip(i as int)[0] == s[i as int]);
                assert(spec_quantity_sum(s.skip(i as int)) == 0);
                assert(spec_quantity_count(s.skip(i as int)) == 0);
            }
            break;
        }
        proof {
            assert(s.skip(i as int)[0] == s[i as int]);
            assert(s.skip(i as int).skip(1) =~= s.skip(i as int + 1));
        }
        sum = sum + db.instances[i].quantity as u32;
        count = count + 1;
        i = i + 1;
    }
    let final_quantity: u8 = if sum > 0 {
        proof {
            assert(count > 0);
            assert(sum / count <= 255) by (nonlinear_arith)
                requires
                    sum <= 255 * count,
                    count > 0,
            {
            }
        }
        (sum / count) as u8
    } else {
        0
    };
    assert(final_quantity == spec_final_quantity(s));
    let empty = empty_address();
    let mut challenges: [Challenge; MAX_NUM_CHALLENGES] = [Challenge {
        from: empty,
        to: empty,
        value: false,
    }; MAX_NUM_CHALLENGES];
    let ghost ints = db.intents@;
    let ghost full = spec_challenge_matrix(ints);
    let mut n: usize = 0;
    let mut fi: usize = 0;
    while fi < MAX_NUM_RECIPIENTS
        invariant
            0 <= fi <= MAX_NUM_RECIPIENTS,
            n <= 4 * fi,
            ints == db.intents@,
            full == spec_challenge_matrix(ints),
            full == challenges@.take(n as int) + spec_pairs_from(ints, fi as int, 0),
            forall|k: int|
                n <= k < MAX_NUM_CHALLENGES ==> challenges@[k] == spec_empty_challenge(),
        decreases MAX_NUM_RECIPIENTS - fi,
    {
        let mut ti: usize = 0;
        while ti < MAX_NUM_RECIPIENTS
            invariant
                0 <= ti <= MAX_NUM_RECIPIENTS,
                fi < MAX_NUM_RECIPIENTS,
                n <= 4 * fi + ti,
                ints == db.intents@,
                full == spec_challenge_matrix(ints),
                full == challenges@.take(n as int) + spec_pairs_from(ints, fi as int, ti as int),
                forall|k: int|
                    n <= k < MAX_NUM_CHALLENGES ==> challenges@[k] == spec_empty_challenge(),
            decreases MAX_NUM_RECIPIENTS - ti,
        {
            let cfrom = db.intents[fi];
            let cto = db.intents[ti];
            if !address_eq(&cfrom, &cto) && !address_is_empty(&cfrom) && !address_is_empty(&cto) {
                let ghost before = challenges@;
                let c = Challenge { from: cfrom, to: cto, value: false };
                challenges[n] = c;
                proof {
                    assert(challenges@.take(n as int) =~= before.take(n as int));
                    assert(challenges@.take(n as int + 1) =~= before.take(n as int) + seq![c]);
                    assert(spec_pairs_from(ints, fi as int, ti as int) == seq![c]
                        + spec_pairs_from(ints, fi as int, ti as int + 1));
                    assert(full =~= challenges@.take(n as int + 1) + spec_pairs_from(
                        ints,
                        fi as int,
                        ti as int + 1,
                    ));
                }
                n = n + 1;
            } else {
                proof {
                    assert(spec_pairs_from(ints, fi as int, ti as int) == spec_pairs_from(
                        ints,
                        fi as int,
                        ti as int + 1,
                    ));
                }
            }
            ti = ti + 1;
        }
        proof {
            assert(spec_pairs_from(ints, fi as int, MAX_NUM_RECIPIENTS as int) == spec_pairs_from(
                ints,
                fi as int + 1,
                0,
            ));
        }
        fi = fi + 1;
    }
    let out = ResourceDatabase {
        is_distributed: true,
        final_quantity,
        intents: db.intents,
        instances: db.instances,
        challenges,
        claims: db.claims,
    };
    proof {
        assert(spec_pairs_from(ints, MAX_NUM_RECIPIENTS as int, 0) =~= Seq::<Challenge>::empty());
        assert(full =~= challenges@.take(n as int));
        assert(full.len() == n);
        let padded = full + Seq::new(
            (MAX_NUM_CHALLENGES - n as int) as nat,
            |k: int| spec_empty_challenge(),
        );
        assert(challenges@ =~= padded);
        crate::bytes::lemma_array_of_seq::<Challenge, MAX_NUM_CHALLENGES>(
            padded,
            spec_empty_challenge(),
        );
        assert(challenges =~= spec_padded_challenges(full));
    }
    Ok(out)
}

/// Claiming a challenge is a recognized command with no settled semantics
/// yet: it succeeds and leaves the record untouched.
pub open spec fn spec_claim_challenge(db: ResourceDatabase, ch: Challenge) -> Result<
    ResourceDatabase,
    ProgramError,
> {
    Ok(db)
}

pub fn claim_challenge(db: &ResourceDatabase, challenge: &Challenge) -> (r: Result<
    ResourceDatabase,
    ProgramError,
>)
    ensures
        r == spec_claim_challenge(*db, *challenge),
{
    Ok(*db)
}

} // verus!
