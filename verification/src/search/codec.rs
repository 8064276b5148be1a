//! Fixed-layout codec for the search engine's records: fields in declaration
//! order, addresses, names and zip codes as 32 raw bytes, `u8` as one byte.
//! A `TrustTableEntry` takes 33 bytes, a `SearchEngineAccount` 161, a
//! `Resource` 97, a `ResourceBucket` 128 and the whole `ResourceIndex` 384.
//! No field of these records has a restricted domain, so decoding fails
//! exactly on a buffer whose length is not the record's size.

use vstd::prelude::*;
use crate::bytes::{
    lemma_address_of_bytes, lemma_addresses_of_encoded, lemma_array_of_seq,
    lemma_encode_addresses_len, lemma_encode_addresses_of_bytes, push_address, push_addresses,
    read_address, read_addresses, spec_address_of_bytes, spec_addresses_of_bytes,
    spec_array_of_seq, spec_empty_address, spec_encode_addresses, Address, DecodeError,
};
use crate::search::types::{
    Location, Resource, ResourceBucket, ResourceIndex, SearchEngineAccount, TrustTableEntry,
    MAX_INDEX_BUCKETS, MAX_NUM_INTENTS, MAX_NUM_RESOURCE_IN_BUCKET, MAX_TRUST_TABLE_SIZE,
    RESOURCE_INDEX_SIZE, RESOURCE_SIZE, SEARCH_ENGINE_ACCOUNT_SIZE, TRUST_TABLE_ENTRY_SIZE,
};

verus! {

pub open spec fn spec_encode_entry(e: TrustTableEntry) -> Seq<u8> {
    e.to@ + seq![e.value]
}

pub open spec fn spec_entry_of_bytes(s: Seq<u8>) -> TrustTableEntry {
    TrustTableEntry { to: spec_address_of_bytes(s.subrange(0, 32)), value: s[32] }
}

pub open spec fn spec_encode_entries(s: Seq<TrustTableEntry>) -> Seq<u8>
    decreases s.len(),
{
    if s.len() == 0 {
        Seq::empty()
    } else {
        spec_encode_entry(s[0]) + spec_encode_entries(s.skip(1))
    }
}

pub open spec fn spec_entries_of_bytes(s: Seq<u8>, n: nat) -> Seq<TrustTableEntry> {
    Seq::new(n, |j: int| spec_entry_of_bytes(s.subrange(33 * j, 33 * j + 33)))
}

pub open spec fn spec_encode_account(a: SearchEngineAccount) -> Seq<u8> {
    a.friendly_name@ + spec_encode_entries(a.trust_table@) + spec_encode_addresses(a.intents@)
}

pub open spec fn spec_account_of_bytes(s: Seq<u8>) -> SearchEngineAccount {
    SearchEngineAccount {
        friendly_name: spec_address_of_bytes(s.subrange(0, 32)),
        trust_table: spec_array_of_seq(
            spec_entries_of_bytes(s.subrange(32, 65), MAX_TRUST_TABLE_SIZE as nat),
            TrustTableEntry { to: spec_empty_address(), value: 0u8 },
        ),
        intents: spec_array_of_seq(
            spec_addresses_of_bytes(s.subrange(65, 161), MAX_NUM_INTENTS as nat),
            spec_empty_address(),
        ),
    }
}

pub open spec fn spec_decode_account(s: Seq<u8>) -> Option<SearchEngineAccount> {
    if s.len() == SEARCH_ENGINE_ACCOUNT_SIZE {
        Some(spec_account_of_bytes(s))
    } else {
        None
    }
}

pub open spec fn spec_encode_resource(r: Resource) -> Seq<u8> {
    r.address@ + r.name@ + r.location.zip@ + seq![r.trust_threshold]
}

pub open spec fn spec_resource_of_bytes(s: Seq<u8>) -> Resource {
    Resource {
        address: spec_address_of_bytes(s.subrange(0, 32)),
        name: spec_address_of_bytes(s.subrange(32, 64)),
        location: Location { zip: spec_address_of_bytes(s.subrange(64, 96)) },
        trust_threshold: s[96],
    }
}

pub open spec fn spec_decode_resource(s: Seq<u8>) -> Option<Resource> {
    if s.len() == RESOURCE_SIZE {
        Some(spec_resource_of_bytes(s))
    } else {
        None
    }
}

pub open spec fn spec_encode_bucket(b: ResourceBucket) -> Seq<u8> {
    b.location.zip@ + spec_encode_addresses(b.addresses@)
}

pub open spec fn spec_bucket_of_bytes(s: Seq<u8>) -> ResourceBucket {
    ResourceBucket {
        location: Location { zip: spec_address_of_bytes(s.subrange(0, 32)) },
        addresses: spec_array_of_seq(
            spec_addresses_of_bytes(s.subrange(32, 128), MAX_NUM_RESOURCE_IN_BUCKET as nat),
            spec_empty_address(),
        ),
    }
}

pub open spec fn spec_encode_buckets(s: Seq<ResourceBucket>) -> Seq<u8>
    decreases s.len(),
{
    if s.len() == 0 {
        Seq::empty()
    } else {
        spec_encode_bucket(s[0]) + spec_encode_buckets(s.skip(1))
    }
}

pub open spec fn spec_buckets_of_bytes(s: Seq<u8>, n: nat) -> Seq<ResourceBucket> {
    Seq::new(n, |j: int| spec_bucket_of_bytes(s.subrange(128 * j, 128 * j + 128)))
}

pub open spec fn spec_encode_index(x: ResourceIndex) -> Seq<u8> {
    spec_encode_buckets(x.buckets@)
}

pub open spec fn spec_index_of_bytes(s: Seq<u8>) -> ResourceIndex {
    ResourceIndex {
        buckets: spec_array_of_seq(
            spec_buckets_of_bytes(s, MAX_INDEX_BUCKETS as nat),
            spec_bucket_of_bytes(s.subrange(0, 128)),
        ),
    }
}

pub open spec fn spec_decode_index(s: Seq<u8>) -> Option<ResourceIndex> {
    if s.len() == RESOURCE_INDEX_SIZE {
        Some(spec_index_of_bytes(s))
    } else {
        None
    }
}

pub proof fn lemma_encode_entries_len(s: Seq<TrustTableEntry>)
    ensures
        spec_encode_entries(s).len() == 33 * s.len(),
    decreases s.len(),
{
    if s.len() > 0 {
        lemma_encode_entries_len(s.skip(1));
    }
}

pub proof fn lemma_encode_buckets_len(s: Seq<ResourceBucket>)
    ensures
        spec_encode_buckets(s).len() == 128 * s.len(),
    decreases s.len(),
{
    lemma_encode_addresses_len(Seq::<Address>::empty());
    if s.len() > 0 {
        lemma_encode_addresses_len(s[0].addresses@);
        lemma_encode_buckets_len(s.skip(1));
    }
}

pub proof fn lemma_encode_entries_app(s1: Seq<TrustTableEntry>, s2: Seq<TrustTableEntry>)
    ensures
        spec_encode_entries(s1 + s2) == spec_encode_entries(s1) + spec_encode_entries(s2),
    decreases s1.len(),
{
    if s1.len() == 0 {
        assert(s1 + s2 =~= s2);
        assert(spec_encode_entries(s1) + spec_encode_entries(s2) =~= spec_encode_entries(s2));
    } else {
        lemma_encode_entries_app(s1.skip(1), s2);
        assert((s1 + s2).skip(1) =~= s1.skip(1) + s2);
        assert(spec_encode_entries(s1 + s2) =~= spec_encode_entries(s1) + spec_encode_entries(
            s2,
        ));
    }
}

pub proof fn lemma_encode_buckets_app(s1: Seq<ResourceBucket>, s2: Seq<ResourceBucket>)
    ensures
        spec_encode_buckets(s1 + s2) == spec_encode_buckets(s1) + spec_encode_buckets(s2),
    decreases s1.len(),
{
    if s1.len() == 0 {
        assert(s1 + s2 =~= s2);
        assert(spec_encode_buckets(s1) + spec_encode_buckets(s2) =~= spec_encode_buckets(s2));
    } else {
        lemma_encode_buckets_app(s1.skip(1), s2);
        assert((s1 + s2).skip(1) =~= s1.skip(1) + s2);
        assert(spec_encode_buckets(s1 + s2) =~= spec_encode_buckets(s1) + spec_encode_buckets(
            s2,
        ));
    }
}

/// Encoding the entry read from a 33-byte string gives the string back.
pub proof fn lemma_entry_of_bytes_encode(t: Seq<u8>)
    requires
        t.len() == 33,
    ensures
        spec_encode_entry(spec_entry_of_bytes(t)) == t,
{
    lemma_address_of_bytes(t.subrange(0, 32));
    assert(spec_encode_entry(spec_entry_of_bytes(t)) =~= t);
}

/// Reading back an encoded entry gives the entry.
pub proof fn lemma_entry_round_trip(e: TrustTableEntry)
    ensures
        spec_entry_of_bytes(spec_encode_entry(e)) == e,
{
    let t = spec_encode_entry(e);
    assert(t.subrange(0, 32) =~= e.to@);
    lemma_address_of_bytes(e.to@);
    assert(spec_entry_of_bytes(t).to =~= e.to);
}

pub proof fn lemma_encode_entries_of_bytes(s: Seq<u8>, n: nat)
    requires
        s.len() == 33 * n,
    ensures
        spec_encode_entries(spec_entries_of_bytes(s, n)) == s,
    decreases n,
{
    let a = spec_entries_of_bytes(s, n);
    if n == 0 {
        assert(spec_encode_entries(a) =~= s);
    } else {
        let tail = s.skip(33);
        lemma_entry_of_bytes_encode(s.subrange(0, 33));
        assert(a[0] == spec_entry_of_bytes(s.subrange(0, 33))) by {
            assert(s.subrange(33 * 0int, 33 * 0int + 33) =~= s.subrange(0, 33));
        }
        assert(a.skip(1) =~= spec_entries_of_bytes(tail, (n - 1) as nat)) by {
            assert forall|j: int| 0 <= j < n - 1 implies a.skip(1)[j] == spec_entries_of_bytes(
                tail,
                (n - 1) as nat,
            )[j] by {
                assert(s.subrange(33 * (j + 1), 33 * (j + 1) + 33) =~= tail.subrange(
                    33 * j,
                    33 * j + 33,
                ));
            }
        }
        lemma_encode_entries_of_bytes(tail, (n - 1) as nat);
        assert(spec_encode_entry(a[0]) + tail =~= s);
    }
}

pub proof fn lemma_entries_of_encoded(a: Seq<TrustTableEntry>)
    ensures
        spec_entries_of_bytes(spec_encode_entries(a), a.len()) == a,
    decreases a.len(),
{
    let s = spec_encode_entries(a);
    lemma_encode_entries_len(a);
    if a.len() > 0 {
        lemma_encode_entries_len(a.skip(1));
        lemma_entry_round_trip(a[0]);
        assert(s.subrange(0, 33) =~= spec_encode_entry(a[0]));
        lemma_entries_of_encoded(a.skip(1));
        assert forall|j: int| 0 <= j < a.len() implies spec_entries_of_bytes(s, a.len())[j]
            == a[j] by {
            if j == 0 {
                assert(s.subrange(33 * 0int, 33 * 0int + 33) =~= spec_encode_entry(a[0]));
            } else {
                let tail = spec_encode_entries(a.skip(1));
                assert(s.subrange(33 * j, 33 * j + 33) =~= tail.subrange(
                    33 * (j - 1),
                    33 * (j - 1) + 33,
                ));
                assert(spec_entries_of_bytes(tail, a.skip(1).len())[j - 1] == a.skip(1)[j - 1]);
            }
        }
        assert(spec_entries_of_bytes(s, a.len()) =~= a);
    } else {
        assert(spec_entries_of_bytes(s, a.len()) =~= a);
    }
}

/// Encoding the bucket read from a 128-byte string gives the string back.
pub proof fn lemma_bucket_of_bytes_encode(t: Seq<u8>)
    requires
        t.len() == 128,
    ensures
        spec_encode_bucket(spec_bucket_of_bytes(t)) == t,
{
    let b = spec_bucket_of_bytes(t);
    lemma_address_of_bytes(t.subrange(0, 32));
    lemma_array_of_seq::<Address, MAX_NUM_RESOURCE_IN_BUCKET>(
        spec_addresses_of_bytes(t.subrange(32, 128), MAX_NUM_RESOURCE_IN_BUCKET as nat),
        spec_empty_address(),
    );
    lemma_encode_addresses_of_bytes(t.subrange(32, 128), MAX_NUM_RESOURCE_IN_BUCKET as nat);
    assert(spec_encode_bucket(b) =~= t);
}

/// Reading back an encoded bucket gives the bucket.
pub proof fn lemma_bucket_round_trip(b: ResourceBucket)
    ensures
        spec_bucket_of_bytes(spec_encode_bucket(b)) == b,
{
    let t = spec_encode_bucket(b);
    lemma_encode_addresses_len(b.addresses@);
    assert(t.subrange(0, 32) =~= b.location.zip@);
    lemma_address_of_bytes(b.location.zip@);
    assert(spec_bucket_of_bytes(t).location.zip =~= b.location.zip);
    assert(t.subrange(32, 128) =~= spec_encode_addresses(b.addresses@));
    lemma_addresses_of_encoded(b.addresses@);
    lemma_array_of_seq::<Address, MAX_NUM_RESOURCE_IN_BUCKET>(
        spec_addresses_of_bytes(t.subrange(32, 128), MAX_NUM_RESOURCE_IN_BUCKET as nat),
        spec_empty_address(),
    );
    assert(spec_bucket_of_bytes(t).addresses =~= b.addresses);
}

pub proof fn lemma_encode_buckets_of_bytes(s: Seq<u8>, n: nat)
    requires
        s.len() == 128 * n,
    ensures
        spec_encode_buckets(spec_buckets_of_bytes(s, n)) == s,
    decreases n,
{
    let a = spec_buckets_of_bytes(s, n);
    if n == 0 {
        assert(spec_encode_buckets(a) =~= s);
    } else {
        let tail = s.skip(128);
        lemma_bucket_of_bytes_encode(s.subrange(0, 128));
        assert(a[0] == spec_bucket_of_bytes(s.subrange(0, 128))) by {
            assert(s.subrange(128 * 0int, 128 * 0int + 128) =~= s.subrange(0, 128));
        }
        assert(a.skip(1) =~= spec_buckets_of_bytes(tail, (n - 1) as nat)) by {
            assert forall|j: int| 0 <= j < n - 1 implies a.skip(1)[j] == spec_buckets_of_bytes(
                tail,
                (n - 1) as nat,
            )[j] by {
                assert(s.subrange(128 * (j + 1), 128 * (j + 1) + 128) =~= tail.subrange(
                    128 * j,
                    128 * j + 128,
                ));
            }
        }
        lemma_encode_buckets_of_bytes(tail, (n - 1) as nat);
        assert(spec_encode_bucket(a[0]) + tail =~= s);
    }
}

pub proof fn lemma_buckets_of_encoded(a: Seq<ResourceBucket>)
    ensures
        spec_buckets_of_bytes(spec_encode_buckets(a), a.len()) == a,
    decreases a.len(),
{
    let s = spec_encode_buckets(a);
    lemma_encode_buckets_len(a);
    if a.len() > 0 {
        lemma_encode_buckets_len(a.skip(1));
        lemma_bucket_round_trip(a[0]);
        lemma_encode_addresses_len(a[0].addresses@);
        assert(s.subrange(0, 128) =~= spec_encode_bucket(a[0]));
        lemma_buckets_of_encoded(a.skip(1));
        assert forall|j: int| 0 <= j < a.len() implies spec_buckets_of_bytes(s, a.len())[j]
            == a[j] by {
            if j == 0 {
                assert(s.subrange(128 * 0int, 128 * 0int + 128) =~= spec_encode_bucket(a[0]));
            } else {
                let tail = spec_encode_buckets(a.skip(1));
                assert(s.subrange(128 * j, 128 * j + 128) =~= tail.subrange(
                    128 * (j - 1),
                    128 * (j - 1) + 128,
                ));
                assert(spec_buckets_of_bytes(tail, a.skip(1).len())[j - 1] == a.skip(1)[j - 1]);
            }
        }
        assert(spec_buckets_of_bytes(s, a.len()) =~= a);
    } else {
        assert(spec_buckets_of_bytes(s, a.len()) =~= a);
    }
}

/// The three regions of an encoded account.
pub proof fn lemma_encode_account_parts(a: SearchEngineAccount)
    ensures
        spec_encode_account(a).len() == SEARCH_ENGINE_ACCOUNT_SIZE,
        spec_encode_account(a).subrange(0, 32) == a.friendly_name@,
        spec_encode_account(a).subrange(32, 65) == spec_encode_entries(a.trust_table@),
        spec_encode_account(a).subrange(65, 161) == spec_encode_addresses(a.intents@),
{
    lemma_encode_entries_len(a.trust_table@);
    lemma_encode_addresses_len(a.intents@);
    let s = spec_encode_account(a);
    assert(s.subrange(0, 32) =~= a.friendly_name@);
    assert(s.subrange(32, 65) =~= spec_encode_entries(a.trust_table@));
    assert(s.subrange(65, 161) =~= spec_encode_addresses(a.intents@));
}

/// Reading back an encoded account gives the account.
pub proof fn lemma_account_round_trip(a: SearchEngineAccount)
    ensures
        spec_account_of_bytes(spec_encode_account(a)) == a,
        spec_decode_account(spec_encode_account(a)) == Some(a),
{
    let s = spec_encode_account(a);
    lemma_encode_account_parts(a);
    let r = spec_account_of_bytes(s);
    lemma_address_of_bytes(a.friendly_name@);
    assert(r.friendly_name =~= a.friendly_name);
    lemma_entries_of_encoded(a.trust_table@);
    lemma_array_of_seq::<TrustTableEntry, MAX_TRUST_TABLE_SIZE>(
        spec_entries_of_bytes(s.subrange(32, 65), MAX_TRUST_TABLE_SIZE as nat),
        TrustTableEntry { to: spec_empty_address(), value: 0u8 },
    );
    assert(r.trust_table =~= a.trust_table);
    lemma_addresses_of_encoded(a.intents@);
    lemma_array_of_seq::<Address, MAX_NUM_INTENTS>(
        spec_addresses_of_bytes(s.subrange(65, 161), MAX_NUM_INTENTS as nat),
        spec_empty_address(),
    );
    assert(r.intents =~= a.intents);
}

/// Encoding the account read from a well-formed byte string gives the string
/// back.
pub proof fn lemma_encode_account_of_bytes(s: Seq<u8>)
    requires
        s.len() == SEARCH_ENGINE_ACCOUNT_SIZE,
    ensures
        spec_encode_account(spec_account_of_bytes(s)) == s,
{
    let a = spec_account_of_bytes(s);
    lemma_address_of_bytes(s.subrange(0, 32));
    lemma_array_of_seq::<TrustTableEntry, MAX_TRUST_TABLE_SIZE>(
        spec_entries_of_bytes(s.subrange(32, 65), MAX_TRUST_TABLE_SIZE as nat),
        TrustTableEntry { to: spec_empty_address(), value: 0u8 },
    );
    lemma_encode_entries_of_bytes(s.subrange(32, 65), MAX_TRUST_TABLE_SIZE as nat);
    lemma_array_of_seq::<Address, MAX_NUM_INTENTS>(
        spec_addresses_of_bytes(s.subrange(65, 161), MAX_NUM_INTENTS as nat),
        spec_empty_address(),
    );
    lemma_encode_addresses_of_bytes(s.subrange(65, 161), MAX_NUM_INTENTS as nat);
    assert(spec_encode_account(a) =~= s);
}

/// Reading back an encoded resource gives the resource.
pub proof fn lemma_resource_round_trip(r: Resource)
    ensures
        spec_resource_of_bytes(spec_encode_resource(r)) == r,
        spec_decode_resource(spec_encode_resource(r)) == Some(r),
{
    let s = spec_encode_resource(r);
    assert(s.subrange(0, 32) =~= r.address@);
    assert(s.subrange(32, 64) =~= r.name@);
    assert(s.subrange(64, 96) =~= r.location.zip@);
    lemma_address_of_bytes(r.address@);
    lemma_address_of_bytes(r.name@);
    lemma_address_of_bytes(r.location.zip@);
    let d = spec_resource_of_bytes(s);
    assert(d.address =~= r.address);
    assert(d.name =~= r.name);
    assert(d.location.zip =~= r.location.zip);
}

/// Encoding the resource read from a 97-byte string gives the string back.
pub proof fn lemma_resource_of_bytes_encode(s: Seq<u8>)
    requires
        s.len() == RESOURCE_SIZE,
    ensures
        spec_encode_resource(spec_resource_of_bytes(s)) == s,
{
    lemma_address_of_bytes(s.subrange(0, 32));
    lemma_address_of_bytes(s.subrange(32, 64));
    lemma_address_of_bytes(s.subrange(64, 96));
    assert(spec_encode_resource(spec_resource_of_bytes(s)) =~= s);
}

/// Reading back an encoded index gives the index.
pub proof fn lemma_index_round_trip(x: ResourceIndex)
    ensures
        spec_index_of_bytes(spec_encode_index(x)) == x,
        spec_decode_index(spec_encode_index(x)) == Some(x),
{
    let s = spec_encode_index(x);
    lemma_encode_buckets_len(x.buckets@);
    lemma_buckets_of_encoded(x.buckets@);
    lemma_array_of_seq::<ResourceBucket, MAX_INDEX_BUCKETS>(
        spec_buckets_of_bytes(s, MAX_INDEX_BUCKETS as nat),
        spec_bucket_of_bytes(s.subrange(0, 128)),
    );
    assert(spec_index_of_bytes(s).buckets =~= x.buckets);
}

/// Encoding the index read from a 384-byte string gives the string back.
pub proof fn lemma_encode_index_of_bytes(s: Seq<u8>)
    requires
        s.len() == RESOURCE_INDEX_SIZE,
    ensures
        spec_encode_index(spec_index_of_bytes(s)) == s,
{
    lemma_array_of_seq::<ResourceBucket, MAX_INDEX_BUCKETS>(
        spec_buckets_of_bytes(s, MAX_INDEX_BUCKETS as nat),
        spec_bucket_of_bytes(s.subrange(0, 128)),
    );
    lemma_encode_buckets_of_bytes(s, MAX_INDEX_BUCKETS as nat);
}

pub fn encode_trust_table_entry(e: &TrustTableEntry) -> (r: Vec<u8>)
    ensures
        r@ == spec_encode_entry(*e),
        r@.len() == TRUST_TABLE_ENTRY_SIZE,
{
    let mut out: Vec<u8> = Vec::new();
    push_address(&mut out, &e.to);
    out.push(e.value);
    assert(out@ =~= spec_encode_entry(*e));
    out
}

pub fn decode_trust_table_entry(bytes: &[u8]) -> (r: Result<TrustTableEntry, DecodeError>)
    ensures
        r is Ok <==> bytes@.len() == TRUST_TABLE_ENTRY_SIZE,
        r matches Ok(e) ==> e == spec_entry_of_bytes(bytes@) && spec_encode_entry(e) == bytes@,
{
    if bytes.len() != TRUST_TABLE_ENTRY_SIZE {
        return Err(DecodeError);
    }
    let to = read_address(bytes, 0);
    let value = bytes[32];
    let e = TrustTableEntry { to, value };
    proof {
        lemma_address_of_bytes(bytes@.subrange(0, 32));
        assert(e.to =~= spec_entry_of_bytes(bytes@).to);
        lemma_entry_of_bytes_encode(bytes@);
    }
    Ok(e)
}

fn push_entries(out: &mut Vec<u8>, a: &[TrustTableEntry; MAX_TRUST_TABLE_SIZE])
    ensures
        final(out)@ == old(out)@ + spec_encode_entries(a@),
{
    let mut i: usize = 0;
    while i < MAX_TRUST_TABLE_SIZE
        invariant
            0 <= i <= MAX_TRUST_TABLE_SIZE,
            out@ == old(out)@ + spec_encode_entries(a@.take(i as int)),
        decreases MAX_TRUST_TABLE_SIZE - i,
    {
        push_address(out, &a[i].to);
        out.push(a[i].value);
        proof {
            lemma_encode_entries_app(a@.take(i as int), seq![a@[i as int]]);
            assert(a@.take(i as int) + seq![a@[i as int]] =~= a@.take(i as int + 1));
            assert(seq![a@[i as int]].skip(1) =~= Seq::<TrustTableEntry>::empty());
            assert(spec_encode_entries(Seq::<TrustTableEntry>::empty()) =~= Seq::<u8>::empty());
            assert(spec_encode_entries(seq![a@[i as int]]) =~= spec_encode_entry(a@[i as int]));
            assert(out@ =~= old(out)@ + spec_encode_entries(a@.take(i as int + 1)));
        }
        i = i + 1;
    }
    assert(a@.take(MAX_TRUST_TABLE_SIZE as int) =~= a@);
}

pub fn encode_account(a: &SearchEngineAccount) -> (r: Vec<u8>)
    ensures
        r@ == spec_encode_account(*a),
        r@.len() == SEARCH_ENGINE_ACCOUNT_SIZE,
{
    let mut out: Vec<u8> = Vec::new();
    push_address(&mut out, &a.friendly_name);
    push_entries(&mut out, &a.trust_table);
    push_addresses(&mut out, &a.intents);
    proof {
        lemma_encode_account_parts(*a);
        assert(out@ =~= spec_encode_account(*a));
    }
    out
}

pub fn encode_resource(r: &Resource) -> (out: Vec<u8>)
    ensures
        out@ == spec_encode_resource(*r),
        out@.len() == RESOURCE_SIZE,
{
    let mut out: Vec<u8> = Vec::new();
    push_address(&mut out, &r.address);
    push_address(&mut out, &r.name);
    push_address(&mut out, &r.location.zip);
    out.push(r.trust_threshold);
    assert(out@ =~= spec_encode_resource(*r));
    out
}

pub fn encode_index(x: &ResourceIndex) -> (r: Vec<u8>)
    ensures
        r@ == spec_encode_index(*x),
        r@.len() == RESOURCE_INDEX_SIZE,
{
    let mut out: Vec<u8> = Vec::new();
    let mut i: usize = 0;
    while i < MAX_INDEX_BUCKETS
        invariant
            0 <= i <= MAX_INDEX_BUCKETS,
            out@ == spec_encode_buckets(x.buckets@.take(i as int)),
        decreases MAX_INDEX_BUCKETS - i,
    {
        push_address(&mut out, &x.buckets[i].location.zip);
        push_addresses(&mut out, &x.buckets[i].addresses);
        proof {
            let b = x.buckets@[i as int];
            lemma_encode_buckets_app(x.buckets@.take(i as int), seq![b]);
            assert(x.buckets@.take(i as int) + seq![b] =~= x.buckets@.take(i as int + 1));
            assert(seq![b].skip(1) =~= Seq::<ResourceBucket>::empty());
            assert(spec_encode_buckets(Seq::<ResourceBucket>::empty()) =~= Seq::<u8>::empty());
            assert(spec_encode_buckets(seq![b]) =~= spec_encode_bucket(b));
            assert(out@ =~= spec_encode_buckets(x.buckets@.take(i as int + 1)));
        }
        i = i + 1;
    }
    proof {
        assert(x.buckets@.take(MAX_INDEX_BUCKETS as int) =~= x.buckets@);
        lemma_encode_buckets_len(x.buckets@);
    }
    out
}

pub fn decode_account(bytes: &[u8]) -> (r: Result<SearchEngineAccount, DecodeError>)
    ensures
        r is Ok <==> spec_decode_account(bytes@) is Some,
        r matches Ok(a) ==> spec_decode_account(bytes@) == Some(a) && spec_encode_account(a)
            == bytes@,
{
    if bytes.len() != SEARCH_ENGINE_ACCOUNT_SIZE {
        return Err(DecodeError);
    }
    let friendly_name = read_address(bytes, 0);
    let to = read_address(bytes, 32);
    let value = bytes[64];
    let trust_table = [TrustTableEntry { to, value }; MAX_TRUST_TABLE_SIZE];
    let intents: [Address; MAX_NUM_INTENTS] = read_addresses(bytes, 65);
    let a = SearchEngineAccount { friendly_name, trust_table, intents };
    proof {
        let s = bytes@;
        let d = spec_account_of_bytes(s);
        lemma_address_of_bytes(s.subrange(0, 32));
        assert(a.friendly_name =~= d.friendly_name);
        lemma_array_of_seq::<TrustTableEntry, MAX_TRUST_TABLE_SIZE>(
            spec_entries_of_bytes(s.subrange(32, 65), MAX_TRUST_TABLE_SIZE as nat),
            TrustTableEntry { to: spec_empty_address(), value: 0u8 },
        );
        let t = s.subrange(32, 65).subrange(33 * 0int, 33 * 0int + 33);
        assert(t =~= s.subrange(32, 64) + seq![s[64]]);
        assert(t.subrange(0, 32) =~= s.subrange(32, 64));
        lemma_address_of_bytes(t.subrange(0, 32));
        assert(a.trust_table@[0].to =~= spec_entry_of_bytes(t).to);
        assert(a.trust_table =~= d.trust_table);
        lemma_array_of_seq::<Address, MAX_NUM_INTENTS>(
            spec_addresses_of_bytes(s.subrange(65, 161), MAX_NUM_INTENTS as nat),
            spec_empty_address(),
        );
        assert(a.intents =~= d.intents);
        lemma_encode_account_of_bytes(s);
    }
    Ok(a)
}

pub fn decode_resource(bytes: &[u8]) -> (r: Result<Resource, DecodeError>)
    ensures
        r is Ok <==> spec_decode_resource(bytes@) is Some,
        r matches Ok(x) ==> spec_decode_resource(bytes@) == Some(x) && spec_encode_resource(x)
            == bytes@,
{
    if bytes.len() != RESOURCE_SIZE {
        return Err(DecodeError);
    }
    let address = read_address(bytes, 0);
    let name = read_address(bytes, 32);
    let zip = read_address(bytes, 64);
    let trust_threshold = bytes[96];
    let x = Resource { address, name, location: Location { zip }, trust_threshold };
    proof {
        lemma_address_of_bytes(bytes@.subrange(0, 32));
        lemma_address_of_bytes(bytes@.subrange(32, 64));
        lemma_address_of_bytes(bytes@.subrange(64, 96));
        let d = spec_resource_of_bytes(bytes@);
        assert(x.address =~= d.address);
        assert(x.name =~= d.name);
        assert(x.location.zip =~= d.location.zip);
        lemma_resource_of_bytes_encode(bytes@);
    }
    Ok(x)
}

pub fn decode_index(bytes: &[u8]) -> (r: Result<ResourceIndex, DecodeError>)
    ensures
        r is Ok <==> spec_decode_index(bytes@) is Some,
        r matches Ok(x) ==> spec_decode_index(bytes@) == Some(x) && spec_encode_index(x) == bytes@,
{
    if bytes.len() != RESOURCE_INDEX_SIZE {
        return Err(DecodeError);
    }
    let empty = crate::bytes::empty_address();
    let mut buckets: [ResourceBucket; MAX_INDEX_BUCKETS] = [ResourceBucket {
        location: Location { zip: empty },
        addresses: [empty; MAX_NUM_RESOURCE_IN_BUCKET],
    }; MAX_INDEX_BUCKETS];
    let mut i: usize = 0;
    while i < MAX_INDEX_BUCKETS
        invariant
            0 <= i <= MAX_INDEX_BUCKETS,
            bytes@.len() == RESOURCE_INDEX_SIZE,
            forall|k: int|
                0 <= k < i ==> #[trigger] buckets@[k] == spec_bucket_of_bytes(
                    bytes@.subrange(128 * k, 128 * k + 128),
                ),
        decreases MAX_INDEX_BUCKETS - i,
    {
        let zip = read_address(bytes, 128 * i);
        let addresses: [Address; MAX_NUM_RESOURCE_IN_BUCKET] = read_addresses(
            bytes,
            128 * i + 32,
        );
        buckets[i] = ResourceBucket { location: Location { zip }, addresses };
        proof {
            let k = i as int;
            let t = bytes@.subrange(128 * k, 128 * k + 128);
            assert(t.subrange(0, 32) =~= bytes@.subrange(128 * k, 128 * k + 32));
            lemma_address_of_bytes(t.subrange(0, 32));
            assert(buckets@[k].location.zip =~= spec_bucket_of_bytes(t).location.zip);
            assert(t.subrange(32, 128) =~= bytes@.subrange(128 * k + 32, 128 * k + 128));
            lemma_array_of_seq::<Address, MAX_NUM_RESOURCE_IN_BUCKET>(
                spec_addresses_of_bytes(t.subrange(32, 128), MAX_NUM_RESOURCE_IN_BUCKET as nat),
                spec_empty_address(),
            );
            assert(buckets@[k].addresses =~= spec_bucket_of_bytes(t).addresses);
            assert(buckets@[k] == spec_bucket_of_bytes(t));
        }
        i = i + 1;
    }
    let x = ResourceIndex { buckets };
    proof {
        let s = bytes@;
        lemma_array_of_seq::<ResourceBucket, MAX_INDEX_BUCKETS>(
            spec_buckets_of_bytes(s, MAX_INDEX_BUCKETS as nat),
            spec_bucket_of_bytes(s.subrange(0, 128)),
        );
        assert(x.buckets =~= spec_index_of_bytes(s).buckets);
        lemma_encode_index_of_bytes(s);
    }
    Ok(x)
}

} // verus!
