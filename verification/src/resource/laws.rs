//! The protocol laws of the resource database, stated over the state
//! machine's specification functions and proved once and for all.

use vstd::prelude::*;
use crate::bytes::{is_empty_address, Address};
use crate::host::ProgramError;
use crate::resource::error::ResourceError;
use crate::resource::state::{
    spec_challenge_match_pred, spec_empty_challenge_pred, spec_empty_intent_pred,
    spec_genesis_database, spec_instance_pred, spec_instance_slot, spec_intent_match_pred,
    spec_record_challenge, spec_record_intent, spec_record_resource_instance,
};
use crate::resource::types::{
    Challenge, ResourceDatabase, ResourceInstance, MAX_NUM_CHALLENGES, MAX_NUM_RECIPIENTS,
    MAX_NUM_RESOURCE_INSTANCES,
};
use crate::scan::{
    lemma_find_from_is, lemma_find_from_none, lemma_find_from_properties, spec_find,
};

verus! {

/// Recording the same intent twice is idempotent: once an address went in,
/// recording it again succeeds and leaves the record exactly as it was.
pub proof fn lemma_record_intent_idempotent(db: ResourceDatabase, a: Address)
    ensures
        spec_record_intent(db, a) matches Ok(db2) ==> spec_record_intent(db2, a) == Ok::<
            ResourceDatabase,
            ProgramError,
        >(db2),
{
    broadcast use vstd::array::axiom_spec_array_update;

    if spec_record_intent(db, a) is Ok {
        let db2 = spec_record_intent(db, a)->Ok_0;
        let mpred = spec_intent_match_pred(a);
        if spec_find(db.intents@, mpred) is Some {
            assert(db2 == db);
        } else {
            lemma_find_from_properties(db.intents@, spec_empty_intent_pred(), 0);
            let i = spec_find(db.intents@, spec_empty_intent_pred())->Some_0;
            assert(db2.intents@ == db.intents@.update(i, a));
            assert(mpred(db2.intents@[i]));
            // the address now stands in a slot, so the second call's match
            // scan cannot come up empty
            if spec_find(db2.intents@, mpred) is None {
                lemma_find_from_properties(db2.intents@, mpred, 0);
                assert(!mpred(db2.intents@[i]));
            }
            assert(spec_record_intent(db2, a) == Ok::<ResourceDatabase, ProgramError>(db2));
        }
    }
}

/// While the database is open and a slot is free, recording an instance
/// succeeds; once every slot is taken, it fails with
/// `NoResourceInstanceSpace` — and, the operation being pure, the record is
/// left untouched.
pub proof fn lemma_record_resource_instance_capacity(db: ResourceDatabase, x: ResourceInstance)
    requires
        !db.is_distributed,
    ensures
        (exists|k: int|
            0 <= k < MAX_NUM_RESOURCE_INSTANCES && is_empty_address(db.instances@[k].from))
            ==> spec_record_resource_instance(db, x) is Ok,
        (forall|k: int|
            0 <= k < MAX_NUM_RESOURCE_INSTANCES ==> !is_empty_address(db.instances@[k].from))
            ==> spec_record_resource_instance(db, x) == Err::<ResourceDatabase, ProgramError>(
            ResourceError::NoResourceInstanceSpace.spec_to_program_error(),
        ),
{
    let pred = spec_instance_pred();
    lemma_find_from_properties(db.instances@, pred, 0);
    if exists|k: int|
        0 <= k < MAX_NUM_RESOURCE_INSTANCES && is_empty_address(db.instances@[k].from) {
        let k = choose|k: int|
            0 <= k < MAX_NUM_RESOURCE_INSTANCES && is_empty_address(db.instances@[k].from);
        assert(pred(db.instances@[k]));
        if spec_instance_slot(db.instances@) is None {
            assert(!pred(db.instances@[k]));
        }
    }
    if forall|k: int|
        0 <= k < MAX_NUM_RESOURCE_INSTANCES ==> !is_empty_address(db.instances@[k].from) {
        assert forall|k: int| 0 <= k < db.instances@.len() implies !pred(db.instances@[k]) by {
            assert(!is_empty_address(db.instances@[k].from));
        }
        lemma_find_from_none(db.instances@, pred, 0);
    }
}

/// A challenge whose ordered pair is already present is overwritten in
/// place: the first slot matching `(from, to)` takes the new value —
/// whatever stands before it — and every other slot keeps its entry; no
/// duplicate is appended.
pub proof fn lemma_record_challenge_overwrites(db: ResourceDatabase, ch: Challenge, j: int)
    requires
        db.is_distributed,
        !is_empty_address(ch.from),
        !is_empty_address(ch.to),
        0 <= j < MAX_NUM_CHALLENGES,
        db.challenges@[j].from == ch.from,
        db.challenges@[j].to == ch.to,
        forall|k: int|
            0 <= k < j ==> !(db.challenges@[k].from == ch.from && db.challenges@[k].to == ch.to),
    ensures
        spec_record_challenge(db, ch) matches Ok(db2) && db2.challenges@ == db.challenges@.update(
            j,
            ch,
        ) && db2.challenges@.len() == db.challenges@.len(),
{
    broadcast use vstd::array::axiom_spec_array_update;

    let mpred = spec_challenge_match_pred(ch);
    assert(mpred(db.challenges@[j]));
    assert forall|k: int| 0 <= k < j implies !mpred(db.challenges@[k]) by {
        assert(!(db.challenges@[k].from == ch.from && db.challenges@[k].to == ch.to));
    }
    lemma_find_from_is(db.challenges@, mpred, 0, j);
    assert(spec_find(db.challenges@, mpred) == Some(j));
}

/// The distribution flag is a one-way latch: no recording operation changes
/// it, initiating distribution sets it — and does so exactly once, being
/// refused when the flag is already set.  Only an explicit reset, which
/// returns the genesis record, clears it.
pub proof fn lemma_distribution_latch(
    db: ResourceDatabase,
    a: Address,
    x: ResourceInstance,
    ch: Challenge,
)
    ensures
        spec_record_intent(db, a) matches Ok(db2) ==> db2.is_distributed == db.is_distributed,
        spec_record_resource_instance(db, x) matches Ok(db2) ==> db2.is_distributed
            == db.is_distributed,
        crate::resource::state::spec_initiate_distribution(db) matches Ok(db2)
            ==> db2.is_distributed,
        crate::resource::state::spec_initiate_distribution(db) is Ok <==> !db.is_distributed,
        spec_record_challenge(db, ch) matches Ok(db2) ==> db2.is_distributed == db.is_distributed,
        crate::resource::state::spec_claim_challenge(db, ch) matches Ok(db2) ==> db2
            == db,
        !spec_genesis_database().is_distributed,
{
}

/// Number of registered (non-sentinel) intent slots at index `i` or later.
pub open spec fn count_registered_from(ints: Seq<Address>, i: int) -> int
    decreases ints.len() - i,
{
    if i < 0 || i >= ints.len() {
        0
    } else {
        (if is_empty_address(ints[i]) {
            0int
        } else {
            1int
        }) + count_registered_from(ints, i + 1)
    }
}

/// Number of registered intent slots.
pub open spec fn count_registered(ints: Seq<Address>) -> int {
    count_registered_from(ints, 0)
}

/// No two registered slots hold the same address (which recording intents
/// guarantees, insertion being idempotent).
pub open spec fn distinct_registered(ints: Seq<Address>) -> bool {
    forall|i: int, j: int|
        0 <= i < ints.len() && 0 <= j < ints.len() && i != j && !is_empty_address(#[trigger] ints[i])
            && !is_empty_address(#[trigger] ints[j]) ==> ints[i] != ints[j]
}

/// Whether the matrix build emits a challenge for the slot pair `(fi, ti)`.
pub open spec fn emits_pair(ints: Seq<Address>, fi: int, ti: int) -> bool {
    &&& 0 <= fi < ints.len()
    &&& 0 <= ti < ints.len()
    &&& ints[fi] != ints[ti]
    &&& !is_empty_address(ints[fi])
    &&& !is_empty_address(ints[ti])
}

/// Challenges emitted for row `fi` from column `ti` on.
pub open spec fn row_count(ints: Seq<Address>, fi: int, ti: int) -> int
    decreases ints.len() - ti,
{
    if ti < 0 || ti >= ints.len() {
        0
    } else {
        (if emits_pair(ints, fi, ti) {
            1int
        } else {
            0int
        }) + row_count(ints, fi, ti + 1)
    }
}

/// Challenges emitted from row `fi` on.
pub open spec fn total_count(ints: Seq<Address>, fi: int) -> int
    decreases ints.len() - fi,
{
    if fi < 0 || fi >= ints.len() {
        0
    } else {
        row_count(ints, fi, 0) + total_count(ints, fi + 1)
    }
}

proof fn lemma_pairs_len_decomp(ints: Seq<Address>, fi: int, ti: int)
    requires
        0 <= fi,
        0 <= ti,
    ensures
        crate::resource::state::spec_pairs_from(ints, fi, ti).len() == (if fi < ints.len() {
            row_count(ints, fi, ti) + total_count(ints, fi + 1)
        } else {
            0int
        }),
    decreases ints.len() - fi, ints.len() - ti,
{
    if fi < ints.len() {
        if ti >= ints.len() {
            lemma_pairs_len_decomp(ints, fi + 1, 0);
        } else {
            lemma_pairs_len_decomp(ints, fi, ti + 1);
        }
    }
}

proof fn lemma_row_count_empty(ints: Seq<Address>, fi: int, ti: int)
    requires
        0 <= fi < ints.len(),
        is_empty_address(ints[fi]),
        0 <= ti,
    ensures
        row_count(ints, fi, ti) == 0,
    decreases ints.len() - ti,
{
    if ti < ints.len() {
        lemma_row_count_empty(ints, fi, ti + 1);
    }
}

proof fn lemma_row_count_registered(ints: Seq<Address>, fi: int, ti: int)
    requires
        distinct_registered(ints),
        0 <= fi < ints.len(),
        !is_empty_address(ints[fi]),
        0 <= ti,
    ensures
        row_count(ints, fi, ti) == count_registered_from(ints, ti) - (if ti <= fi {
            1int
        } else {
            0int
        }),
    decreases ints.len() - ti,
{
    if ti < ints.len() {
        lemma_row_count_registered(ints, fi, ti + 1);
        if !is_empty_address(ints[ti]) && ti != fi {
            assert(ints[fi] != ints[ti]);
        }
    }
}

proof fn lemma_total_count_registered(ints: Seq<Address>, fi: int)
    requires
        distinct_registered(ints),
        0 <= fi,
    ensures
        total_count(ints, fi) == count_registered_from(ints, fi) * (count_registered(ints) - 1),
    decreases ints.len() - fi,
{
    let k = count_registered(ints);
    if fi >= ints.len() {
        assert(0int * (k - 1) == 0) by (nonlinear_arith);
    } else {
        lemma_total_count_registered(ints, fi + 1);
        let c = count_registered_from(ints, fi + 1);
        if is_empty_address(ints[fi]) {
            lemma_row_count_empty(ints, fi, 0);
        } else {
            lemma_row_count_registered(ints, fi, 0);
            assert(row_count(ints, fi, 0) == k - 1);
            assert((c + 1) * (k - 1) == c * (k - 1) + (k - 1)) by (nonlinear_arith);
        }
    }
}

/// The matrix built at distribution time holds exactly `k * (k - 1)`
/// challenge entries, where `k` is the number of registered intents — one for
/// every ordered pair of distinct participants.
pub proof fn lemma_challenge_matrix_count(ints: Seq<Address>)
    requires
        distinct_registered(ints),
    ensures
        crate::resource::state::spec_challenge_matrix(ints).len() == count_registered(ints) * (
        count_registered(ints) - 1),
{
    let k = count_registered(ints);
    lemma_pairs_len_decomp(ints, 0, 0);
    if ints.len() == 0 {
        assert(k * (k - 1) == 0) by (nonlinear_arith)
            requires
                k == 0,
        {
        }
    } else {
        lemma_total_count_registered(ints, 0);
    }
}

/// What holds of every entry of the built matrix: an ordered pair of
/// registered intents with distinct addresses, not yet attested.
pub open spec fn registered_pair(ints: Seq<Address>, c: Challenge) -> bool {
    &&& c.value == false
    &&& !is_empty_address(c.from)
    &&& !is_empty_address(c.to)
    &&& c.from != c.to
    &&& ints.contains(c.from)
    &&& ints.contains(c.to)
}

/// Every entry of the built matrix is an ordered pair of registered intents
/// with distinct addresses, with `value` false.
pub proof fn lemma_pairs_sound(ints: Seq<Address>, fi: int, ti: int)
    requires
        0 <= fi,
        0 <= ti,
    ensures
        forall|idx: int|
            0 <= idx < crate::resource::state::spec_pairs_from(ints, fi, ti).len()
                ==> registered_pair(
                ints,
                #[trigger] crate::resource::state::spec_pairs_from(ints, fi, ti)[idx],
            ),
    decreases ints.len() - fi, ints.len() - ti,
{
    let p = crate::resource::state::spec_pairs_from(ints, fi, ti);
    if 0 <= fi < ints.len() {
        if ti >= ints.len() {
            lemma_pairs_sound(ints, fi + 1, 0);
            let q = crate::resource::state::spec_pairs_from(ints, fi + 1, 0);
            assert forall|idx: int| 0 <= idx < p.len() implies registered_pair(
                ints,
                #[trigger] p[idx],
            ) by {
                assert(p[idx] == q[idx]);
            }
        } else {
            lemma_pairs_sound(ints, fi, ti + 1);
            let q = crate::resource::state::spec_pairs_from(ints, fi, ti + 1);
            if emits_pair(ints, fi, ti) {
                let c = Challenge { from: ints[fi], to: ints[ti], value: false };
                assert(ints.contains(ints[fi]));
                assert(ints.contains(ints[ti]));
                assert(registered_pair(ints, c));
                assert forall|idx: int| 0 <= idx < p.len() implies registered_pair(
                    ints,
                    #[trigger] p[idx],
                ) by {
                    if idx == 0 {
                        assert(p[0] == c);
                    } else {
                        assert(p[idx] == q[idx - 1]);
                    }
                }
            } else {
                assert forall|idx: int| 0 <= idx < p.len() implies registered_pair(
                    ints,
                    #[trigger] p[idx],
                ) by {
                    assert(p[idx] == q[idx]);
                }
            }
        }
    }
}

/// Every ordered pair of registered intents with distinct addresses appears
/// in the built matrix.
pub proof fn lemma_pairs_complete(ints: Seq<Address>, fi: int, ti: int, i: int, j: int)
    requires
        0 <= ti,
        0 <= fi <= i < ints.len(),
        0 <= j < ints.len(),
        fi == i ==> ti <= j,
        !is_empty_address(ints[i]),
        !is_empty_address(ints[j]),
        ints[i] != ints[j],
    ensures
        crate::resource::state::spec_pairs_from(ints, fi, ti).contains(
            Challenge { from: ints[i], to: ints[j], value: false },
        ),
    decreases ints.len() - fi, ints.len() - ti,
{
    let c = Challenge { from: ints[i], to: ints[j], value: false };
    let p = crate::resource::state::spec_pairs_from(ints, fi, ti);
    if ti >= ints.len() {
        lemma_pairs_complete(ints, fi + 1, 0, i, j);
        assert(p == crate::resource::state::spec_pairs_from(ints, fi + 1, 0));
    } else if fi == i && ti == j {
        assert(emits_pair(ints, fi, ti));
        assert(p[0] == c);
        assert(p.contains(c));
    } else {
        lemma_pairs_complete(ints, fi, ti + 1, i, j);
        let rest = crate::resource::state::spec_pairs_from(ints, fi, ti + 1);
        let idx = choose|idx: int| 0 <= idx < rest.len() && rest[idx] == c;
        if emits_pair(ints, fi, ti) {
            assert(p[idx + 1] == c);
            assert(p.contains(c));
        } else {
            assert(p == rest);
        }
    }
}

/// Well-formed intent slots: the registered addresses fill a dense prefix
/// and no address appears twice.
pub open spec fn intents_well_formed(ints: Seq<Address>) -> bool {
    &&& distinct_registered(ints)
    &&& forall|p: int, q: int|
        0 <= p < q < ints.len() && is_empty_address(#[trigger] ints[p]) ==> is_empty_address(
            #[trigger] ints[q],
        )
}

/// The genesis record's intent slots are well formed.
pub proof fn lemma_genesis_intents_well_formed()
    ensures
        intents_well_formed(spec_genesis_database().intents@),
{
    broadcast use vstd::array::axiom_spec_array_fill_for_copy_type;

    crate::bytes::lemma_spec_empty_address();
    assert forall|p: int|
        0 <= p < spec_genesis_database().intents@.len() implies is_empty_address(
        #[trigger] spec_genesis_database().intents@[p],
    ) by {
        assert(spec_genesis_database().intents@[p] == crate::bytes::spec_empty_address());
    }
}

/// Recording an intent keeps the intent slots well formed — so, starting from
/// genesis, every reachable database has dense, duplicate-free intents, which
/// is what the challenge-matrix count law assumes.
pub proof fn lemma_record_intent_preserves_well_formed(db: ResourceDatabase, a: Address)
    requires
        intents_well_formed(db.intents@),
    ensures
        spec_record_intent(db, a) matches Ok(db2) ==> intents_well_formed(db2.intents@),
{
    broadcast use vstd::array::axiom_spec_array_update;

    if spec_record_intent(db, a) is Ok {
        let db2 = spec_record_intent(db, a)->Ok_0;
        let mpred = spec_intent_match_pred(a);
        let epred = spec_empty_intent_pred();
        if spec_find(db.intents@, mpred) is None {
            lemma_find_from_properties(db.intents@, mpred, 0);
            lemma_find_from_properties(db.intents@, epred, 0);
            let i = spec_find(db.intents@, epred)->Some_0;
            let s = db.intents@;
            let s2 = db2.intents@;
            assert(s2 == s.update(i, a));
            assert(is_empty_address(s[i]));
            // the address was in no slot before the insertion
            assert forall|k: int| 0 <= k < s.len() implies s[k] != a by {
                assert(!mpred(s[k]));
            }
            assert forall|p: int, q: int|
                0 <= p < q < s2.len() && is_empty_address(#[trigger] s2[p]) implies
                is_empty_address(#[trigger] s2[q]) by {
                if p != i && q != i {
                    assert(is_empty_address(s[p]));
                } else if q == i {
                    // every slot before the first empty one is occupied
                    assert(!epred(s[p]));
                }
            }
            assert forall|p: int, q: int|
                0 <= p < s2.len() && 0 <= q < s2.len() && p != q && !is_empty_address(
                    #[trigger] s2[p],
                ) && !is_empty_address(#[trigger] s2[q]) implies s2[p] != s2[q] by {
                if p == i {
                    assert(s2[q] == s[q]);
                } else if q == i {
                    assert(s2[p] == s[p]);
                }
            }
        }
    }
}

proof fn lemma_count_registered_bound(ints: Seq<Address>, i: int)
    requires
        0 <= i,
    ensures
        0 <= count_registered_from(ints, i) <= ints.len() - i || count_registered_from(ints, i)
            == 0,
    decreases ints.len() - i,
{
    if i < ints.len() {
        lemma_count_registered_bound(ints, i + 1);
    }
}

/// What initiating distribution puts into the challenge array: the `k*(k-1)`
/// ordered pairs of the `k` registered intents fill the leading slots, in
/// build order, and every remaining slot is left empty.
pub proof fn lemma_initiate_distribution_challenges(db: ResourceDatabase)
    requires
        !db.is_distributed,
        distinct_registered(db.intents@),
    ensures
        ({
            let pairs = crate::resource::state::spec_challenge_matrix(db.intents@);
            let k = count_registered(db.intents@);
            &&& crate::resource::state::spec_initiate_distribution(db) is Ok
            &&& pairs.len() == k * (k - 1)
            &&& pairs.len() <= MAX_NUM_CHALLENGES
            &&& ({
                let db2 = crate::resource::state::spec_initiate_distribution(db)->Ok_0;
                &&& forall|i: int| 0 <= i < pairs.len() ==> db2.challenges@[i] == pairs[i]
                &&& forall|i: int|
                    pairs.len() <= i < MAX_NUM_CHALLENGES ==> db2.challenges@[i]
                        == crate::resource::types::spec_empty_challenge()
            })
        }),
{
    let pairs = crate::resource::state::spec_challenge_matrix(db.intents@);
    let k = count_registered(db.intents@);
    lemma_challenge_matrix_count(db.intents@);
    lemma_count_registered_bound(db.intents@, 0);
    assert(0 <= k <= MAX_NUM_RECIPIENTS);
    assert(k * (k - 1) <= MAX_NUM_CHALLENGES) by (nonlinear_arith)
        requires
            0 <= k <= 4,
    {
    }
    let padding = Seq::new(
        (MAX_NUM_CHALLENGES - pairs.len()) as nat,
        |j: int| crate::resource::types::spec_empty_challenge(),
    );
    crate::bytes::lemma_array_of_seq::<Challenge, MAX_NUM_CHALLENGES>(
        pairs + padding,
        crate::resource::types::spec_empty_challenge(),
    );
    let db2 = crate::resource::state::spec_initiate_distribution(db)->Ok_0;
    assert(db2.challenges@ == pairs + padding);
}

/// After a reset the database is the genesis record, and recording a
/// resource instance behaves as on a freshly created database: the instance
/// goes into the very first slot.
pub proof fn lemma_reset_behaves_like_genesis(x: ResourceInstance)
    ensures
        spec_record_resource_instance(spec_genesis_database(), x) == Ok::<
            ResourceDatabase,
            ProgramError,
        >(
            ResourceDatabase {
                instances: vstd::array::spec_array_update(spec_genesis_database().instances, 0, x),
                ..spec_genesis_database()
            },
        ),
{
    broadcast use vstd::array::axiom_spec_array_fill_for_copy_type;

    let g = spec_genesis_database();
    let pred = spec_instance_pred();
    assert(g.instances@[0] == crate::resource::types::spec_empty_instance());
    crate::bytes::lemma_spec_empty_address();
    assert(pred(g.instances@[0]));
    lemma_find_from_is(g.instances@, pred, 0, 0);
    assert(spec_instance_slot(g.instances@) == Some(0int));
}

} // verus!
