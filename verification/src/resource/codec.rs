//! Fixed-layout codec for the resource program's records.
//!
//! Every record type encodes to a byte string of fixed total length: fields
//! in declaration order, addresses as 32 raw bytes, `u8` as one byte, `bool`
//! as one byte in `{0, 1}`.  A `ResourceInstance` takes 33 bytes, a
//! `Challenge` 65, and the whole `ResourceDatabase` 1430.  Decoding rejects a
//! buffer whose length is not exactly the record's size or whose boolean
//! bytes are outside `{0, 1}`; decoding an encoded record gives the record
//! back.

use vstd::prelude::*;
use crate::bytes::{
    DecodeError, lemma_address_of_bytes, lemma_addresses_of_encoded, lemma_array_of_seq,
    lemma_encode_addresses_len, lemma_encode_addresses_of_bytes, push_address, push_addresses,
    read_address, read_addresses, spec_addresses_of_bytes, spec_array_of_seq, spec_bool_byte,
    spec_empty_address, spec_encode_addresses, bool_byte, valid_bool_byte,
};
use crate::resource::types::{
    Challenge, ResourceDatabase, ResourceInstance, MAX_NUM_CHALLENGES, MAX_NUM_RECIPIENTS,
    MAX_NUM_RESOURCE_INSTANCES, RESOURCE_DATABASE_SIZE,
};

verus! {

/// Encoded size of one `ResourceInstance`.
pub const RESOURCE_INSTANCE_SIZE: usize = 33;

/// Encoded size of one `Challenge`.
pub const CHALLENGE_SIZE: usize = 65;

/// Byte offsets of the `ResourceDatabase` fields.
pub const INTENTS_OFFSET: usize = 2;

pub const INSTANCES_OFFSET: usize = 130;

pub const CHALLENGES_OFFSET: usize = 262;

pub const CLAIMS_OFFSET: usize = 1302;

pub open spec fn spec_encode_instance(x: ResourceInstance) -> Seq<u8> {
    x.from@ + seq![x.quantity]
}

pub open spec fn spec_encode_challenge(c: Challenge) -> Seq<u8> {
    c.from@ + c.to@ + seq![spec_bool_byte(c.value)]
}

pub open spec fn spec_encode_instances(s: Seq<ResourceInstance>) -> Seq<u8>
    decreases s.len(),
{
    if s.len() == 0 {
        Seq::empty()
    } else {
        spec_encode_instance(s[0]) + spec_encode_instances(s.skip(1))
    }
}

pub open spec fn spec_encode_challenges(s: Seq<Challenge>) -> Seq<u8>
    decreases s.len(),
{
    if s.len() == 0 {
        Seq::empty()
    } else {
        spec_encode_challenge(s[0]) + spec_encode_challenges(s.skip(1))
    }
}

pub open spec fn spec_encode_database(db: ResourceDatabase) -> Seq<u8> {
    seq![spec_bool_byte(db.is_distributed), db.final_quantity]
        + spec_encode_addresses(db.intents@) + spec_encode_instances(db.instances@)
        + spec_encode_challenges(db.challenges@) + spec_encode_addresses(db.claims@)
}

/// The instance whose bytes are the first 33 bytes of `s`.
pub open spec fn spec_instance_of_bytes(s: Seq<u8>) -> ResourceInstance {
    ResourceInstance {
        from: crate::bytes::spec_address_of_bytes(s.subrange(0, 32)),
        quantity: s[32],
    }
}

/// The challenge whose bytes are the first 65 bytes of `s`.
pub open spec fn spec_challenge_of_bytes(s: Seq<u8>) -> Challenge {
    Challenge {
        from: crate::bytes::spec_address_of_bytes(s.subrange(0, 32)),
        to: crate::bytes::spec_address_of_bytes(s.subrange(32, 64)),
        value: s[64] == 1u8,
    }
}

pub open spec fn spec_instances_of_bytes(s: Seq<u8>, n: nat) -> Seq<ResourceInstance> {
    Seq::new(n, |j: int| spec_instance_of_bytes(s.subrange(33 * j, 33 * j + 33)))
}

pub open spec fn spec_challenges_of_bytes(s: Seq<u8>, n: nat) -> Seq<Challenge> {
    Seq::new(n, |j: int| spec_challenge_of_bytes(s.subrange(65 * j, 65 * j + 65)))
}

pub open spec fn spec_decode_instance(s: Seq<u8>) -> Option<ResourceInstance> {
    if s.len() == RESOURCE_INSTANCE_SIZE {
        Some(spec_instance_of_bytes(s))
    } else {
        None
    }
}

pub open spec fn spec_decode_challenge(s: Seq<u8>) -> Option<Challenge> {
    if s.len() == CHALLENGE_SIZE && valid_bool_byte(s[64]) {
        Some(spec_challenge_of_bytes(s))
    } else {
        None
    }
}

/// A byte string is a well-formed database encoding when it has the exact
/// size and every boolean byte is 0 or 1.
pub open spec fn valid_database_bytes(s: Seq<u8>) -> bool {
    &&& s.len() == RESOURCE_DATABASE_SIZE
    &&& valid_bool_byte(s[0])
    &&& forall|j: int|
        0 <= j < MAX_NUM_CHALLENGES ==> #[trigger] valid_bool_byte(
            s[CHALLENGES_OFFSET + 65 * j + 64],
        )
}

/// The database whose bytes are `s` (meaningful when `s` is well formed).
pub open spec fn spec_database_of_bytes(s: Seq<u8>) -> ResourceDatabase {
    ResourceDatabase {
        is_distributed: s[0] == 1u8,
        final_quantity: s[1],
        intents: spec_array_of_seq(
            spec_addresses_of_bytes(
                s.subrange(INTENTS_OFFSET as int, INSTANCES_OFFSET as int),
                MAX_NUM_RECIPIENTS as nat,
            ),
            spec_empty_address(),
        ),
        instances: spec_array_of_seq(
            spec_instances_of_bytes(
                s.subrange(INSTANCES_OFFSET as int, CHALLENGES_OFFSET as int),
                MAX_NUM_RESOURCE_INSTANCES as nat,
            ),
            crate::resource::types::spec_empty_instance(),
        ),
        challenges: spec_array_of_seq(
            spec_challenges_of_bytes(
                s.subrange(CHALLENGES_OFFSET as int, CLAIMS_OFFSET as int),
                MAX_NUM_CHALLENGES as nat,
            ),
            crate::resource::types::spec_empty_challenge(),
        ),
        claims: spec_array_of_seq(
            spec_addresses_of_bytes(
                s.subrange(CLAIMS_OFFSET as int, RESOURCE_DATABASE_SIZE as int),
                MAX_NUM_RECIPIENTS as nat,
            ),
            spec_empty_address(),
        ),
    }
}

pub open spec fn spec_decode_database(s: Seq<u8>) -> Option<ResourceDatabase> {
    if valid_database_bytes(s) {
        Some(spec_database_of_bytes(s))
    } else {
        None
    }
}

pub proof fn lemma_encode_instances_len(s: Seq<ResourceInstance>)
    ensures
        spec_encode_instances(s).len() == 33 * s.len(),
    decreases s.len(),
{
    if s.len() > 0 {
        lemma_encode_instances_len(s.skip(1));
    }
}

pub proof fn lemma_encode_challenges_len(s: Seq<Challenge>)
    ensures
        spec_encode_challenges(s).len() == 65 * s.len(),
    decreases s.len(),
{
    if s.len() > 0 {
        lemma_encode_challenges_len(s.skip(1));
    }
}

pub proof fn lemma_encode_instances_app(s1: Seq<ResourceInstance>, s2: Seq<ResourceInstance>)
    ensures
        spec_encode_instances(s1 + s2) == spec_encode_instances(s1) + spec_encode_instances(s2),
    decreases s1.len(),
{
    if s1.len() == 0 {
        assert(s1 + s2 =~= s2);
        assert(spec_encode_instances(s1) + spec_encode_instances(s2) =~= spec_encode_instances(
            s2,
        ));
    } else {
        lemma_encode_instances_app(s1.skip(1), s2);
        assert((s1 + s2).skip(1) =~= s1.skip(1) + s2);
        assert(spec_encode_instances(s1 + s2) =~= spec_encode_instances(s1)
            + spec_encode_instances(s2));
    }
}

pub proof fn lemma_encode_challenges_app(s1: Seq<Challenge>, s2: Seq<Challenge>)
    ensures
        spec_encode_challenges(s1 + s2) == spec_encode_challenges(s1) + spec_encode_challenges(s2),
    decreases s1.len(),
{
    if s1.len() == 0 {
        assert(s1 + s2 =~= s2);
        assert(spec_encode_challenges(s1) + spec_encode_challenges(s2) =~= spec_encode_challenges(
            s2,
        ));
    } else {
        lemma_encode_challenges_app(s1.skip(1), s2);
        assert((s1 + s2).skip(1) =~= s1.skip(1) + s2);
        assert(spec_encode_challenges(s1 + s2) =~= spec_encode_challenges(s1)
            + spec_encode_challenges(s2));
    }
}

pub proof fn lemma_encode_challenges_subrange(s: Seq<Challenge>, j: int)
    requires
        0 <= j < s.len(),
    ensures
        spec_encode_challenges(s).subrange(65 * j, 65 * j + 65) == spec_encode_challenge(s[j]),
    decreases s.len(),
{
    lemma_encode_challenges_len(s);
    lemma_encode_challenges_len(s.skip(1));
    if j == 0 {
        assert(spec_encode_challenges(s).subrange(0, 65) =~= spec_encode_challenge(s[0]));
    } else {
        lemma_encode_challenges_subrange(s.skip(1), j - 1);
        assert(spec_encode_challenges(s).subrange(65 * j, 65 * j + 65)
            =~= spec_encode_challenges(s.skip(1)).subrange(65 * (j - 1), 65 * (j - 1) + 65));
    }
}

/// Encoding the instance read from a 33-byte string gives that string back.
pub proof fn lemma_instance_of_bytes_encode(t: Seq<u8>)
    requires
        t.len() == 33,
    ensures
        spec_encode_instance(spec_instance_of_bytes(t)) == t,
{
    lemma_address_of_bytes(t.subrange(0, 32));
    assert(spec_encode_instance(spec_instance_of_bytes(t)) =~= t);
}

/// Encoding the challenge read from a well-formed 65-byte string gives that
/// string back.
pub proof fn lemma_challenge_of_bytes_encode(t: Seq<u8>)
    requires
        t.len() == 65,
        valid_bool_byte(t[64]),
    ensures
        spec_encode_challenge(spec_challenge_of_bytes(t)) == t,
{
    lemma_address_of_bytes(t.subrange(0, 32));
    lemma_address_of_bytes(t.subrange(32, 64));
    assert(spec_encode_challenge(spec_challenge_of_bytes(t)) =~= t);
}

/// Reading back an encoded instance gives the instance.
pub proof fn lemma_instance_round_trip(x: ResourceInstance)
    ensures
        spec_instance_of_bytes(spec_encode_instance(x)) == x,
        spec_decode_instance(spec_encode_instance(x)) == Some(x),
{
    let t = spec_encode_instance(x);
    assert(t.subrange(0, 32) =~= x.from@);
    lemma_address_of_bytes(x.from@);
    assert(spec_instance_of_bytes(t).from =~= x.from);
}

/// Reading back an encoded challenge gives the challenge.
pub proof fn lemma_challenge_round_trip(c: Challenge)
    ensures
        spec_challenge_of_bytes(spec_encode_challenge(c)) == c,
        spec_decode_challenge(spec_encode_challenge(c)) == Some(c),
{
    let t = spec_encode_challenge(c);
    assert(t.subrange(0, 32) =~= c.from@);
    assert(t.subrange(32, 64) =~= c.to@);
    lemma_address_of_bytes(c.from@);
    lemma_address_of_bytes(c.to@);
    assert(spec_challenge_of_bytes(t).from =~= c.from);
    assert(spec_challenge_of_bytes(t).to =~= c.to);
}

pub proof fn lemma_encode_instances_of_bytes(s: Seq<u8>, n: nat)
    requires
        s.len() == 33 * n,
    ensures
        spec_encode_instances(spec_instances_of_bytes(s, n)) == s,
    decreases n,
{
    let a = spec_instances_of_bytes(s, n);
    if n == 0 {
        assert(spec_encode_instances(a) =~= s);
    } else {
        let tail = s.skip(33);
        lemma_instance_of_bytes_encode(s.subrange(0, 33));
        assert(a[0] == spec_instance_of_bytes(s.subrange(0, 33))) by {
            assert(s.subrange(33 * 0int, 33 * 0int + 33) =~= s.subrange(0, 33));
        }
        assert(a.skip(1) =~= spec_instances_of_bytes(tail, (n - 1) as nat)) by {
            assert forall|j: int| 0 <= j < n - 1 implies a.skip(1)[j] == spec_instances_of_bytes(
                tail,
                (n - 1) as nat,
            )[j] by {
                assert(s.subrange(33 * (j + 1), 33 * (j + 1) + 33) =~= tail.subrange(
                    33 * j,
                    33 * j + 33,
                ));
            }
        }
        lemma_encode_instances_of_bytes(tail, (n - 1) as nat);
        assert(spec_encode_instance(a[0]) + tail =~= s);
    }
}

pub proof fn lemma_encode_challenges_of_bytes(s: Seq<u8>, n: nat)
    requires
        s.len() == 65 * n,
        forall|j: int| 0 <= j < n ==> #[trigger] valid_bool_byte(s[65 * j + 64]),
    ensures
        spec_encode_challenges(spec_challenges_of_bytes(s, n)) == s,
    decreases n,
{
    let a = spec_challenges_of_bytes(s, n);
    if n == 0 {
        assert(spec_encode_challenges(a) =~= s);
    } else {
        let tail = s.skip(65);
        assert(valid_bool_byte(s.subrange(0, 65)[64])) by {
            assert(valid_bool_byte(s[65 * 0int + 64]));
        }
        lemma_challenge_of_bytes_encode(s.subrange(0, 65));
        assert(a[0] == spec_challenge_of_bytes(s.subrange(0, 65))) by {
            assert(s.subrange(65 * 0int, 65 * 0int + 65) =~= s.subrange(0, 65));
        }
        assert(a.skip(1) =~= spec_challenges_of_bytes(tail, (n - 1) as nat)) by {
            assert forall|j: int| 0 <= j < n - 1 implies a.skip(1)[j] == spec_challenges_of_bytes(
                tail,
                (n - 1) as nat,
            )[j] by {
                assert(s.subrange(65 * (j + 1), 65 * (j + 1) + 65) =~= tail.subrange(
                    65 * j,
                    65 * j + 65,
                ));
            }
        }
        assert forall|j: int| 0 <= j < n - 1 implies #[trigger] valid_bool_byte(
            tail[65 * j + 64],
        ) by {
            assert(tail[65 * j + 64] == s[65 * (j + 1) + 64]);
        }
        lemma_encode_challenges_of_bytes(tail, (n - 1) as nat);
        assert(spec_encode_challenge(a[0]) + tail =~= s);
    }
}

pub proof fn lemma_instances_of_encoded(a: Seq<ResourceInstance>)
    ensures
        spec_instances_of_bytes(spec_encode_instances(a), a.len()) == a,
    decreases a.len(),
{
    let s = spec_encode_instances(a);
    lemma_encode_instances_len(a);
    if a.len() > 0 {
        lemma_encode_instances_len(a.skip(1));
        lemma_instance_round_trip(a[0]);
        assert(s.subrange(0, 33) =~= spec_encode_instance(a[0]));
        lemma_instances_of_encoded(a.skip(1));
        assert forall|j: int| 0 <= j < a.len() implies spec_instances_of_bytes(s, a.len())[j]
            == a[j] by {
            if j == 0 {
                assert(s.subrange(33 * 0int, 33 * 0int + 33) =~= spec_encode_instance(a[0]));
            } else {
                let tail = spec_encode_instances(a.skip(1));
                assert(s.subrange(33 * j, 33 * j + 33) =~= tail.subrange(
                    33 * (j - 1),
                    33 * (j - 1) + 33,
                ));
                assert(spec_instances_of_bytes(tail, a.skip(1).len())[j - 1] == a.skip(1)[j - 1]);
            }
        }
        assert(spec_instances_of_bytes(s, a.len()) =~= a);
    } else {
        assert(spec_instances_of_bytes(s, a.len()) =~= a);
    }
}

pub proof fn lemma_challenges_of_encoded(a: Seq<Challenge>)
    ensures
        spec_challenges_of_bytes(spec_encode_challenges(a), a.len()) == a,
    decreases a.len(),
{
    let s = spec_encode_challenges(a);
    lemma_encode_challenges_len(a);
    if a.len() > 0 {
        lemma_encode_challenges_len(a.skip(1));
        lemma_challenge_round_trip(a[0]);
        assert(s.subrange(0, 65) =~= spec_encode_challenge(a[0]));
        lemma_challenges_of_encoded(a.skip(1));
        assert forall|j: int| 0 <= j < a.len() implies spec_challenges_of_bytes(s, a.len())[j]
            == a[j] by {
            if j == 0 {
                assert(s.subrange(65 * 0int, 65 * 0int + 65) =~= spec_encode_challenge(a[0]));
            } else {
                let tail = spec_encode_challenges(a.skip(1));
                assert(s.subrange(65 * j, 65 * j + 65) =~= tail.subrange(
                    65 * (j - 1),
                    65 * (j - 1) + 65,
                ));
                assert(spec_challenges_of_bytes(tail, a.skip(1).len())[j - 1] == a.skip(1)[j - 1]);
            }
        }
        assert(spec_challenges_of_bytes(s, a.len()) =~= a);
    } else {
        assert(spec_challenges_of_bytes(s, a.len()) =~= a);
    }
}

/// The five regions of an encoded database.
pub proof fn lemma_encode_database_parts(db: ResourceDatabase)
    ensures
        spec_encode_database(db).len() == RESOURCE_DATABASE_SIZE,
        spec_encode_database(db).subrange(0, 2) == seq![
            spec_bool_byte(db.is_distributed),
            db.final_quantity,
        ],
        spec_encode_database(db).subrange(INTENTS_OFFSET as int, INSTANCES_OFFSET as int)
            == spec_encode_addresses(db.intents@),
        spec_encode_database(db).subrange(INSTANCES_OFFSET as int, CHALLENGES_OFFSET as int)
            == spec_encode_instances(db.instances@),
        spec_encode_database(db).subrange(CHALLENGES_OFFSET as int, CLAIMS_OFFSET as int)
            == spec_encode_challenges(db.challenges@),
        spec_encode_database(db).subrange(CLAIMS_OFFSET as int, RESOURCE_DATABASE_SIZE as int)
            == spec_encode_addresses(db.claims@),
{
    lemma_encode_addresses_len(db.intents@);
    lemma_encode_instances_len(db.instances@);
    lemma_encode_challenges_len(db.challenges@);
    lemma_encode_addresses_len(db.claims@);
    let s = spec_encode_database(db);
    assert(s.subrange(0, 2) =~= seq![spec_bool_byte(db.is_distributed), db.final_quantity]);
    assert(s.subrange(INTENTS_OFFSET as int, INSTANCES_OFFSET as int) =~= spec_encode_addresses(
        db.intents@,
    ));
    assert(s.subrange(INSTANCES_OFFSET as int, CHALLENGES_OFFSET as int) =~= spec_encode_instances(
        db.instances@,
    ));
    assert(s.subrange(CHALLENGES_OFFSET as int, CLAIMS_OFFSET as int) =~= spec_encode_challenges(
        db.challenges@,
    ));
    assert(s.subrange(CLAIMS_OFFSET as int, RESOURCE_DATABASE_SIZE as int)
        =~= spec_encode_addresses(db.claims@));
}

/// An encoded database is a well-formed byte string.
pub proof fn lemma_encode_database_valid(db: ResourceDatabase)
    ensures
        valid_database_bytes(spec_encode_database(db)),
{
    let s = spec_encode_database(db);
    lemma_encode_database_parts(db);
    assert(s[0] == spec_bool_byte(db.is_distributed)) by {
        assert(s.subrange(0, 2)[0] == s[0]);
    }
    assert forall|j: int| 0 <= j < MAX_NUM_CHALLENGES implies #[trigger] valid_bool_byte(
        s[CHALLENGES_OFFSET + 65 * j + 64],
    ) by {
        let sc = s.subrange(CHALLENGES_OFFSET as int, CLAIMS_OFFSET as int);
        lemma_encode_challenges_subrange(db.challenges@, j);
        assert(sc[65 * j + 64] == sc.subrange(65 * j, 65 * j + 65)[64]);
        assert(sc.subrange(65 * j, 65 * j + 65)[64] == spec_bool_byte(db.challenges@[j].value));
        assert(s[CHALLENGES_OFFSET + 65 * j + 64] == sc[65 * j + 64]);
    }
}

/// Reading back an encoded database gives the database.
pub proof fn lemma_database_round_trip(db: ResourceDatabase)
    ensures
        spec_database_of_bytes(spec_encode_database(db)) == db,
        spec_decode_database(spec_encode_database(db)) == Some(db),
{
    let s = spec_encode_database(db);
    lemma_encode_database_parts(db);
    lemma_encode_database_valid(db);
    let r = spec_database_of_bytes(s);
    assert(s[0] == spec_bool_byte(db.is_distributed)) by {
        assert(s.subrange(0, 2)[0] == s[0]);
    }
    assert(s[1] == db.final_quantity) by {
        assert(s.subrange(0, 2)[1] == s[1]);
    }
    assert(r.intents == db.intents) by {
        lemma_addresses_of_encoded(db.intents@);
        lemma_array_of_seq::<crate::bytes::Address, MAX_NUM_RECIPIENTS>(
            spec_addresses_of_bytes(
                s.subrange(INTENTS_OFFSET as int, INSTANCES_OFFSET as int),
                MAX_NUM_RECIPIENTS as nat,
            ),
            spec_empty_address(),
        );
        assert(r.intents =~= db.intents);
    }
    assert(r.instances == db.instances) by {
        lemma_instances_of_encoded(db.instances@);
        lemma_array_of_seq::<ResourceInstance, MAX_NUM_RESOURCE_INSTANCES>(
            spec_instances_of_bytes(
                s.subrange(INSTANCES_OFFSET as int, CHALLENGES_OFFSET as int),
                MAX_NUM_RESOURCE_INSTANCES as nat,
            ),
            crate::resource::types::spec_empty_instance(),
        );
        assert(r.instances =~= db.instances);
    }
    assert(r.challenges == db.challenges) by {
        lemma_challenges_of_encoded(db.challenges@);
        lemma_array_of_seq::<Challenge, MAX_NUM_CHALLENGES>(
            spec_challenges_of_bytes(
                s.subrange(CHALLENGES_OFFSET as int, CLAIMS_OFFSET as int),
                MAX_NUM_CHALLENGES as nat,
            ),
            crate::resource::types::spec_empty_challenge(),
        );
        assert(r.challenges =~= db.challenges);
    }
    assert(r.claims == db.claims) by {
        lemma_addresses_of_encoded(db.claims@);
        lemma_array_of_seq::<crate::bytes::Address, MAX_NUM_RECIPIENTS>(
            spec_addresses_of_bytes(
                s.subrange(CLAIMS_OFFSET as int, RESOURCE_DATABASE_SIZE as int),
                MAX_NUM_RECIPIENTS as nat,
            ),
            spec_empty_address(),
        );
        assert(r.claims =~= db.claims);
    }
}

/// Encoding the database read from a well-formed byte string gives that
/// string back.
pub proof fn lemma_encode_database_of_bytes(s: Seq<u8>)
    requires
        valid_database_bytes(s),
    ensures
        spec_encode_database(spec_database_of_bytes(s)) == s,
{
    let db = spec_database_of_bytes(s);
    let si = s.subrange(INTENTS_OFFSET as int, INSTANCES_OFFSET as int);
    let sn = s.subrange(INSTANCES_OFFSET as int, CHALLENGES_OFFSET as int);
    let sc = s.subrange(CHALLENGES_OFFSET as int, CLAIMS_OFFSET as int);
    let sm = s.subrange(CLAIMS_OFFSET as int, RESOURCE_DATABASE_SIZE as int);
    lemma_array_of_seq::<crate::bytes::Address, MAX_NUM_RECIPIENTS>(
        spec_addresses_of_bytes(si, MAX_NUM_RECIPIENTS as nat),
        spec_empty_address(),
    );
    lemma_array_of_seq::<ResourceInstance, MAX_NUM_RESOURCE_INSTANCES>(
        spec_instances_of_bytes(sn, MAX_NUM_RESOURCE_INSTANCES as nat),
        crate::resource::types::spec_empty_instance(),
    );
    lemma_array_of_seq::<Challenge, MAX_NUM_CHALLENGES>(
        spec_challenges_of_bytes(sc, MAX_NUM_CHALLENGES as nat),
        crate::resource::types::spec_empty_challenge(),
    );
    lemma_array_of_seq::<crate::bytes::Address, MAX_NUM_RECIPIENTS>(
        spec_addresses_of_bytes(sm, MAX_NUM_RECIPIENTS as nat),
        spec_empty_address(),
    );
    lemma_encode_addresses_of_bytes(si, MAX_NUM_RECIPIENTS as nat);
    lemma_encode_instances_of_bytes(sn, MAX_NUM_RESOURCE_INSTANCES as nat);
    assert forall|j: int| 0 <= j < MAX_NUM_CHALLENGES implies #[trigger] valid_bool_byte(
        sc[65 * j + 64],
    ) by {
        assert(sc[65 * j + 64] == s[CHALLENGES_OFFSET + 65 * j + 64]);
    }
    lemma_encode_challenges_of_bytes(sc, MAX_NUM_CHALLENGES as nat);
    lemma_encode_addresses_of_bytes(sm, MAX_NUM_RECIPIENTS as nat);
    assert(spec_bool_byte(db.is_distributed) == s[0]);
    assert(spec_encode_database(db) =~= s);
}

/// Distinct databases have distinct encodings.
pub proof fn lemma_encode_database_injective(a: ResourceDatabase, b: ResourceDatabase)
    requires
        spec_encode_database(a) == spec_encode_database(b),
    ensures
        a == b,
{
    lemma_database_round_trip(a);
    lemma_database_round_trip(b);
}

pub fn encode_instance(x: &ResourceInstance) -> (r: Vec<u8>)
    ensures
        r@ == spec_encode_instance(*x),
        r@.len() == RESOURCE_INSTANCE_SIZE,
{
    let mut out: Vec<u8> = Vec::new();
    push_address(&mut out, &x.from);
    out.push(x.quantity);
    assert(out@ =~= spec_encode_instance(*x));
    out
}

pub fn encode_challenge(c: &Challenge) -> (r: Vec<u8>)
    ensures
        r@ == spec_encode_challenge(*c),
        r@.len() == CHALLENGE_SIZE,
{
    let mut out: Vec<u8> = Vec::new();
    push_address(&mut out, &c.from);
    push_address(&mut out, &c.to);
    out.push(bool_byte(c.value));
    assert(out@ =~= spec_encode_challenge(*c));
    out
}

fn push_instances(out: &mut Vec<u8>, a: &[ResourceInstance; MAX_NUM_RESOURCE_INSTANCES])
    ensures
        final(out)@ == old(out)@ + spec_encode_instances(a@),
{
    let mut i: usize = 0;
    while i < MAX_NUM_RESOURCE_INSTANCES
        invariant
            0 <= i <= MAX_NUM_RESOURCE_INSTANCES,
            out@ == old(out)@ + spec_encode_instances(a@.take(i as int)),
        decreases MAX_NUM_RESOURCE_INSTANCES - i,
    {
        push_address(out, &a[i].from);
        out.push(a[i].quantity);
        proof {
            lemma_encode_instances_app(a@.take(i as int), seq![a@[i as int]]);
            assert(a@.take(i as int) + seq![a@[i as int]] =~= a@.take(i as int + 1));
            assert(seq![a@[i as int]].skip(1) =~= Seq::<ResourceInstance>::empty());
            assert(spec_encode_instances(Seq::<ResourceInstance>::empty())
                =~= Seq::<u8>::empty());
            assert(spec_encode_instances(seq![a@[i as int]]) =~= spec_encode_instance(
                a@[i as int],
            ));
            assert(out@ =~= old(out)@ + spec_encode_instances(a@.take(i as int + 1)));
        }
        i = i + 1;
    }
    assert(a@.take(MAX_NUM_RESOURCE_INSTANCES as int) =~= a@);
}

fn push_challenges(out: &mut Vec<u8>, a: &[Challenge; MAX_NUM_CHALLENGES])
    ensures
        final(out)@ == old(out)@ + spec_encode_challenges(a@),
{
    let mut i: usize = 0;
    while i < MAX_NUM_CHALLENGES
        invariant
            0 <= i <= MAX_NUM_CHALLENGES,
            out@ == old(out)@ + spec_encode_challenges(a@.take(i as int)),
        decreases MAX_NUM_CHALLENGES - i,
    {
        push_address(out, &a[i].from);
        push_address(out, &a[i].to);
        out.push(bool_byte(a[i].value));
        proof {
            lemma_encode_challenges_app(a@.take(i as int), seq![a@[i as int]]);
            assert(a@.take(i as int) + seq![a@[i as int]] =~= a@.take(i as int + 1));
            assert(seq![a@[i as int]].skip(1) =~= Seq::<Challenge>::empty());
            assert(spec_encode_challenges(Seq::<Challenge>::empty()) =~= Seq::<u8>::empty());
            assert(spec_encode_challenges(seq![a@[i as int]]) =~= spec_encode_challenge(
                a@[i as int],
            ));
            assert(out@ =~= old(out)@ + spec_encode_challenges(a@.take(i as int + 1)));
        }
        i = i + 1;
    }
    assert(a@.take(MAX_NUM_CHALLENGES as int) =~= a@);
}

pub fn encode_database(db: &ResourceDatabase) -> (r: Vec<u8>)
    ensures
        r@ == spec_encode_database(*db),
        r@.len() == RESOURCE_DATABASE_SIZE,
{
    let mut out: Vec<u8> = Vec::new();
    out.push(bool_byte(db.is_distributed));
    out.push(db.final_quantity);
    assert(out@ =~= seq![spec_bool_byte(db.is_distributed), db.final_quantity]);
    push_addresses(&mut out, &db.intents);
    push_instances(&mut out, &db.instances);
    push_challenges(&mut out, &db.challenges);
    push_addresses(&mut out, &db.claims);
    proof {
        lemma_encode_database_parts(*db);
    }
    out
}

pub fn decode_instance(bytes: &[u8]) -> (r: Result<ResourceInstance, DecodeError>)
    ensures
        r is Ok <==> spec_decode_instance(bytes@) is Some,
        r matches Ok(x) ==> spec_decode_instance(bytes@) == Some(x),
{
    if bytes.len() != RESOURCE_INSTANCE_SIZE {
        return Err(DecodeError);
    }
    let from = read_address(bytes, 0);
    let quantity = bytes[32];
    let x = ResourceInstance { from, quantity };
    proof {
        lemma_address_of_bytes(bytes@.subrange(0, 32));
        assert(x.from =~= spec_instance_of_bytes(bytes@).from);
    }
    Ok(x)
}

pub fn decode_challenge(bytes: &[u8]) -> (r: Result<Challenge, DecodeError>)
    ensures
        r is Ok <==> spec_decode_challenge(bytes@) is Some,
        r matches Ok(c) ==> spec_decode_challenge(bytes@) == Some(c),
{
    if bytes.len() != CHALLENGE_SIZE {
        return Err(DecodeError);
    }
    if bytes[64] > 1 {
        return Err(DecodeError);
    }
    let from = read_address(bytes, 0);
    let to = read_address(bytes, 32);
    let value = bytes[64] == 1;
    let c = Challenge { from, to, value };
    proof {
        lemma_address_of_bytes(bytes@.subrange(0, 32));
        lemma_address_of_bytes(bytes@.subrange(32, 64));
        assert(c.from =~= spec_challenge_of_bytes(bytes@).from);
        assert(c.to =~= spec_challenge_of_bytes(bytes@).to);
    }
    Ok(c)
}

fn read_instances(bytes: &[u8], off: usize) -> (r: [ResourceInstance; MAX_NUM_RESOURCE_INSTANCES])
    requires
        off + 33 * (MAX_NUM_RESOURCE_INSTANCES as int) <= bytes@.len(),
    ensures
        r@ == spec_instances_of_bytes(
            bytes@.subrange(off as int, off as int + 33 * (MAX_NUM_RESOURCE_INSTANCES as int)),
            MAX_NUM_RESOURCE_INSTANCES as nat,
        ),
{
    let n = bytes.len();
    let ghost sub = bytes@.subrange(
        off as int,
        off as int + 33 * (MAX_NUM_RESOURCE_INSTANCES as int),
    );
    let mut r: [ResourceInstance; MAX_NUM_RESOURCE_INSTANCES] =
        [ResourceInstance { from: [0u8; 32], quantity: 0u8 }; MAX_NUM_RESOURCE_INSTANCES];
    let mut i: usize = 0;
    while i < MAX_NUM_RESOURCE_INSTANCES
        invariant
            0 <= i <= MAX_NUM_RESOURCE_INSTANCES,
            off + 33 * (MAX_NUM_RESOURCE_INSTANCES as int) <= n == bytes@.len(),
            sub == bytes@.subrange(
                off as int,
                off as int + 33 * (MAX_NUM_RESOURCE_INSTANCES as int),
            ),
            forall|k: int|
                0 <= k < i ==> #[trigger] r@[k] == spec_instance_of_bytes(
                    sub.subrange(33 * k, 33 * k + 33),
                ),
        decreases MAX_NUM_RESOURCE_INSTANCES - i,
    {
        let from = read_address(bytes, off + 33 * i);
        let quantity = bytes[off + 33 * i + 32];
        r[i] = ResourceInstance { from, quantity };
        proof {
            let k = i as int;
            let t = sub.subrange(33 * k, 33 * k + 33);
            assert(t.subrange(0, 32) =~= bytes@.subrange(off + 33 * k, off + 33 * k + 32));
            lemma_address_of_bytes(t.subrange(0, 32));
            assert(r@[k].from =~= crate::bytes::spec_address_of_bytes(t.subrange(0, 32)));
            assert(t[32] == bytes@[off + 33 * k + 32]);
            assert(r@[k] == spec_instance_of_bytes(t));
        }
        i = i + 1;
    }
    assert(r@ =~= spec_instances_of_bytes(sub, MAX_NUM_RESOURCE_INSTANCES as nat));
    r
}

fn read_challenges(bytes: &[u8], off: usize) -> (r: [Challenge; MAX_NUM_CHALLENGES])
    requires
        off + 65 * (MAX_NUM_CHALLENGES as int) <= bytes@.len(),
    ensures
        r@ == spec_challenges_of_bytes(
            bytes@.subrange(off as int, off as int + 65 * (MAX_NUM_CHALLENGES as int)),
            MAX_NUM_CHALLENGES as nat,
        ),
{
    let n = bytes.len();
    let ghost sub = bytes@.subrange(off as int, off as int + 65 * (MAX_NUM_CHALLENGES as int));
    let mut r: [Challenge; MAX_NUM_CHALLENGES] =
        [Challenge { from: [0u8; 32], to: [0u8; 32], value: false }; MAX_NUM_CHALLENGES];
    let mut i: usize = 0;
    while i < MAX_NUM_CHALLENGES
        invariant
            0 <= i <= MAX_NUM_CHALLENGES,
            off + 65 * (MAX_NUM_CHALLENGES as int) <= n == bytes@.len(),
            sub == bytes@.subrange(off as int, off as int + 65 * (MAX_NUM_CHALLENGES as int)),
            forall|k: int|
                0 <= k < i ==> #[trigger] r@[k] == spec_challenge_of_bytes(
                    sub.subrange(65 * k, 65 * k + 65),
                ),
        decreases MAX_NUM_CHALLENGES - i,
    {
        let from = read_address(bytes, off + 65 * i);
        let to = read_address(bytes, off + 65 * i + 32);
        let value = bytes[off + 65 * i + 64] == 1;
        r[i] = Challenge { from, to, value };
        proof {
            let k = i as int;
            let t = sub.subrange(65 * k, 65 * k + 65);
            assert(t.subrange(0, 32) =~= bytes@.subrange(off + 65 * k, off + 65 * k + 32));
            assert(t.subrange(32, 64) =~= bytes@.subrange(
                off + 65 * k + 32,
                off + 65 * k + 64,
            ));
            lemma_address_of_bytes(t.subrange(0, 32));
            lemma_address_of_bytes(t.subrange(32, 64));
            assert(r@[k].from =~= crate::bytes::spec_address_of_bytes(t.subrange(0, 32)));
            assert(r@[k].to =~= crate::bytes::spec_address_of_bytes(t.subrange(32, 64)));
            assert(t[64] == bytes@[off + 65 * k + 64]);
            assert(r@[k] == spec_challenge_of_bytes(t));
        }
        i = i + 1;
    }
    assert(r@ =~= spec_challenges_of_bytes(sub, MAX_NUM_CHALLENGES as nat));
    r
}

pub fn decode_database(bytes: &[u8]) -> (r: Result<ResourceDatabase, DecodeError>)
    ensures
        r is Ok <==> valid_database_bytes(bytes@),
        r matches Ok(db) ==> db == spec_database_of_bytes(bytes@) && spec_encode_database(db)
            == bytes@,
        r == (match spec_decode_database(bytes@) {
            Some(db) => Ok::<ResourceDatabase, DecodeError>(db),
            None => Err::<ResourceDatabase, DecodeError>(DecodeError),
        }),
{
    if bytes.len() != RESOURCE_DATABASE_SIZE {
        return Err(DecodeError);
    }
    if bytes[0] > 1 {
        return Err(DecodeError);
    }
    let mut j: usize = 0;
    while j < MAX_NUM_CHALLENGES
        invariant
            0 <= j <= MAX_NUM_CHALLENGES,
            bytes@.len() == RESOURCE_DATABASE_SIZE,
            forall|k: int|
                0 <= k < j ==> #[trigger] valid_bool_byte(
                    bytes@[CHALLENGES_OFFSET + 65 * k + 64],
                ),
        decreases MAX_NUM_CHALLENGES - j,
    {
        if bytes[CHALLENGES_OFFSET + 65 * j + 64] > 1 {
            assert(!valid_bool_byte(bytes@[CHALLENGES_OFFSET + 65 * (j as int) + 64]));
            return Err(DecodeError);
        }
        j = j + 1;
    }
    let is_distributed = bytes[0] == 1;
    let final_quantity = bytes[1];
    let intents: [crate::bytes::Address; MAX_NUM_RECIPIENTS] = read_addresses(
        bytes,
        INTENTS_OFFSET,
    );
    let instances = read_instances(bytes, INSTANCES_OFFSET);
    let challenges = read_challenges(bytes, CHALLENGES_OFFSET);
    let claims: [crate::bytes::Address; MAX_NUM_RECIPIENTS] = read_addresses(
        bytes,
        CLAIMS_OFFSET,
    );
    let db = ResourceDatabase {
        is_distributed,
        final_quantity,
        intents,
        instances,
        challenges,
        claims,
    };
    proof {
        let s = bytes@;
        lemma_array_of_seq::<crate::bytes::Address, MAX_NUM_RECIPIENTS>(
            spec_addresses_of_bytes(
                s.subrange(INTENTS_OFFSET as int, INSTANCES_OFFSET as int),
                MAX_NUM_RECIPIENTS as nat,
            ),
            spec_empty_address(),
        );
        lemma_array_of_seq::<ResourceInstance, MAX_NUM_RESOURCE_INSTANCES>(
            spec_instances_of_bytes(
                s.subrange(INSTANCES_OFFSET as int, CHALLENGES_OFFSET as int),
                MAX_NUM_RESOURCE_INSTANCES as nat,
            ),
            crate::resource::types::spec_empty_instance(),
        );
        lemma_array_of_seq::<Challenge, MAX_NUM_CHALLENGES>(
            spec_challenges_of_bytes(
                s.subrange(CHALLENGES_OFFSET as int, CLAIMS_OFFSET as int),
                MAX_NUM_CHALLENGES as nat,
            ),
            crate::resource::types::spec_empty_challenge(),
        );
        lemma_array_of_seq::<crate::bytes::Address, MAX_NUM_RECIPIENTS>(
            spec_addresses_of_bytes(
                s.subrange(CLAIMS_OFFSET as int, RESOURCE_DATABASE_SIZE as int),
                MAX_NUM_RECIPIENTS as nat,
            ),
            spec_empty_address(),
        );
        let d2 = spec_database_of_bytes(s);
        assert(db.intents =~= d2.intents);
        assert(db.instances =~= d2.instances);
        assert(db.challenges =~= d2.challenges);
        assert(db.claims =~= d2.claims);
        lemma_encode_database_of_bytes(s);
    }
    Ok(db)
}

} // verus!
