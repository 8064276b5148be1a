//! The invocation entry point of the search engine program, and the pure
//! operations it dispatches to: updating a profile account, registering a
//! resource under its location bucket, and caching a participant's intent.

use vstd::prelude::*;
use crate::bytes::{address_eq, address_is_empty, is_empty_address, Address};
use crate::host::{Account, ProgramError};
use crate::scan::{find_from, spec_find};
use crate::search::codec::{
    decode_account, decode_index, encode_account, encode_index, spec_decode_account,
    spec_decode_index, spec_encode_account, spec_encode_index,
};
use crate::search::error::SearchEngineError;
use crate::search::instruction::{spec_unpack, SearchEngineInstruction};
use crate::search::types::{
    Location, Resource, ResourceBucket, ResourceIndex, SearchEngineAccount, MAX_INDEX_BUCKETS,
    MAX_NUM_INTENTS, MAX_NUM_RESOURCE_IN_BUCKET, SEARCH_ENGINE_ACCOUNT_SIZE,
};

verus! {

/// A bucket at which registering a resource at `loc` stops scanning: one not
/// yet claimed, or the one already claimed for that location.
pub open spec fn spec_bucket_pred(loc: Location) -> spec_fn(ResourceBucket) -> bool {
    |b: ResourceBucket| is_empty_address(b.location.zip) || b.location.zip == loc.zip
}

/// The bucket a resource registration acts on.
pub open spec fn spec_bucket_slot(buckets: Seq<ResourceBucket>, loc: Location) -> Option<int> {
    spec_find(buckets, spec_bucket_pred(loc))
}

/// An address slot at which registering address `a` stops scanning: one
/// already holding `a` or one still empty.
pub open spec fn spec_bucket_addr_pred(a: Address) -> spec_fn(Address) -> bool {
    |x: Address| x == a || is_empty_address(x)
}

/// Registering a resource: the first unclaimed or location-matching bucket
/// decides.  An unclaimed bucket is claimed for the location and takes the
/// address in its first slot; in a matching bucket the address is a no-op if
/// already present, else it claims the first free slot; a matching bucket
/// with no free slot is `BucketFull`, and no usable bucket at all is
/// `DatabaseFull`.
pub open spec fn spec_register_resource(x: ResourceIndex, r: Resource) -> Result<
    ResourceIndex,
    ProgramError,
> {
    match spec_bucket_slot(x.buckets@, r.location) {
        None => Err(SearchEngineError::DatabaseFull.spec_to_program_error()),
        Some(i) => {
            let b = x.buckets@[i];
            if is_empty_address(b.location.zip) {
                Ok(
                    ResourceIndex {
                        buckets: vstd::array::spec_array_update(
                            x.buckets,
                            i,
                            ResourceBucket {
                                location: r.location,
                                addresses: vstd::array::spec_array_update(
                                    b.addresses,
                                    0,
                                    r.address,
                                ),
                            },
                        ),
                    },
                )
            } else {
                match spec_find(b.addresses@, spec_bucket_addr_pred(r.address)) {
                    None => Err(SearchEngineError::BucketFull.spec_to_program_error()),
                    Some(j) => if b.addresses@[j] == r.address {
                        Ok(x)
                    } else {
                        Ok(
                            ResourceIndex {
                                buckets: vstd::array::spec_array_update(
                                    x.buckets,
                                    i,
                                    ResourceBucket {
                                        addresses: vstd::array::spec_array_update(
                                            b.addresses,
                                            j,
                                            r.address,
                                        ),
                                        ..b
                                    },
                                ),
                            },
                        )
                    },
                }
            }
        },
    }
}

pub fn register_resource(x: &ResourceIndex, r: &Resource) -> (out: Result<
    ResourceIndex,
    ProgramError,
>)
    ensures
        out == spec_register_resource(*x, *r),
{
    broadcast use vstd::array::axiom_spec_array_update;

    let ghost bpred = spec_bucket_pred(r.location);
    let mut i: usize = 0;
    while i < MAX_INDEX_BUCKETS
        invariant
            0 <= i <= MAX_INDEX_BUCKETS,
            find_from(x.buckets@, bpred, 0) == find_from(x.buckets@, bpred, i as int),
            bpred == spec_bucket_pred(r.location),
        decreases MAX_INDEX_BUCKETS - i,
    {
        if address_is_empty(&x.buckets[i].location.zip) {
            assert(bpred(x.buckets@[i as int]));
            let mut addresses = x.buckets[i].addresses;
            addresses[0] = r.address;
            let mut buckets = x.buckets;
            buckets[i] = ResourceBucket { location: r.location, addresses };
            let out = ResourceIndex { buckets };
            assert(out.buckets =~= vstd::array::spec_array_update(
                x.buckets,
                i as int,
                ResourceBucket {
                    location: r.location,
                    addresses: vstd::array::spec_array_update(
                        x.buckets@[i as int].addresses,
                        0,
                        r.address,
                    ),
                },
            ));
            return Ok(out);
        }
        if address_eq(&x.buckets[i].location.zip, &r.location.zip) {
            assert(bpred(x.buckets@[i as int]));
            let ghost apred = spec_bucket_addr_pred(r.address);
            let ghost b = x.buckets@[i as int];
            let mut j: usize = 0;
            while j < MAX_NUM_RESOURCE_IN_BUCKET
                invariant
                    0 <= j <= MAX_NUM_RESOURCE_IN_BUCKET,
                    i < MAX_INDEX_BUCKETS,
                    b == x.buckets@[i as int],
                    find_from(b.addresses@, apred, 0) == find_from(b.addresses@, apred, j as int),
                    apred == spec_bucket_addr_pred(r.address),
                    spec_bucket_slot(x.buckets@, r.location) == Some(i as int),
                    !is_empty_address(b.location.zip),
                decreases MAX_NUM_RESOURCE_IN_BUCKET - j,
            {
                if address_eq(&x.buckets[i].addresses[j], &r.address) {
                    assert(apred(b.addresses@[j as int]));
                    return Ok(*x);
                }
                if address_is_empty(&x.buckets[i].addresses[j]) {
                    assert(apred(b.addresses@[j as int]));
                    let mut addresses = x.buckets[i].addresses;
                    addresses[j] = r.address;
                    let mut buckets = x.buckets;
                    buckets[i] = ResourceBucket { location: x.buckets[i].location, addresses };
                    let out = ResourceIndex { buckets };
                    assert(out.buckets =~= vstd::array::spec_array_update(
                        x.buckets,
                        i as int,
                        ResourceBucket {
                            addresses: vstd::array::spec_array_update(
                                b.addresses,
                                j as int,
                                r.address,
                            ),
                            ..b
                        },
                    ));
                    return Ok(out);
                }
                assert(!apred(b.addresses@[j as int]));
                j = j + 1;
            }
            return Err(ProgramError::from(SearchEngineError::BucketFull));
        }
        assert(!bpred(x.buckets@[i as int]));
        i = i + 1;
    }
    Err(ProgramError::from(SearchEngineError::DatabaseFull))
}

/// Whether some bucket slot of the index holds `a`.
pub open spec fn spec_index_contains(x: ResourceIndex, a: Address) -> bool {
    exists|i: int, j: int|
        0 <= i < MAX_INDEX_BUCKETS && 0 <= j < MAX_NUM_RESOURCE_IN_BUCKET
            && #[trigger] x.buckets@[i].addresses@[j] == a
}

pub fn index_contains(x: &ResourceIndex, a: &Address) -> (r: bool)
    ensures
        r == spec_index_contains(*x, *a),
{
    let mut i: usize = 0;
    while i < MAX_INDEX_BUCKETS
        invariant
            0 <= i <= MAX_INDEX_BUCKETS,
            forall|bi: int, bj: int|
                0 <= bi < i && 0 <= bj < MAX_NUM_RESOURCE_IN_BUCKET
                    ==> #[trigger] x.buckets@[bi].addresses@[bj] != *a,
        decreases MAX_INDEX_BUCKETS - i,
    {
        let mut j: usize = 0;
        while j < MAX_NUM_RESOURCE_IN_BUCKET
            invariant
                0 <= j <= MAX_NUM_RESOURCE_IN_BUCKET,
                i < MAX_INDEX_BUCKETS,
                forall|bi: int, bj: int|
                    0 <= bi < i && 0 <= bj < MAX_NUM_RESOURCE_IN_BUCKET
                        ==> #[trigger] x.buckets@[bi].addresses@[bj] != *a,
                forall|bj: int|
                    0 <= bj < j ==> #[trigger] x.buckets@[i as int].addresses@[bj] != *a,
            decreases MAX_NUM_RESOURCE_IN_BUCKET - j,
        {
            if address_eq(&x.buckets[i].addresses[j], a) {
                assert(spec_index_contains(*x, *a));
                return true;
            }
            j = j + 1;
        }
        i = i + 1;
    }
    false
}

/// An intent slot at which caching `a` stops scanning: one already holding
/// `a` or one still empty.
pub open spec fn spec_account_intent_pred(a: Address) -> spec_fn(Address) -> bool {
    |x: Address| x == a || is_empty_address(x)
}

/// Caching an intent in the profile account: `Some` of the updated account
/// when a free slot is claimed; `None` — nothing to store — when the intent
/// is already cached or, the slots being a best-effort cache, when all of
/// them are taken.
pub open spec fn spec_register_intent_account(acct: SearchEngineAccount, a: Address) -> Option<
    SearchEngineAccount,
> {
    match spec_find(acct.intents@, spec_account_intent_pred(a)) {
        None => None,
        Some(i) => if acct.intents@[i] == a {
            None
        } else {
            Some(
                SearchEngineAccount {
                    intents: vstd::array::spec_array_update(acct.intents, i, a),
                    ..acct
                },
            )
        },
    }
}

pub fn register_intent_account(acct: &SearchEngineAccount, a: &Address) -> (r: Option<
    SearchEngineAccount,
>)
    ensures
        r == spec_register_intent_account(*acct, *a),
{
    broadcast use vstd::array::axiom_spec_array_update;

    let ghost pred = spec_account_intent_pred(*a);
    let mut i: usize = 0;
    while i < MAX_NUM_INTENTS
        invariant
            0 <= i <= MAX_NUM_INTENTS,
            find_from(acct.intents@, pred, 0) == find_from(acct.intents@, pred, i as int),
            pred == spec_account_intent_pred(*a),
        decreases MAX_NUM_INTENTS - i,
    {
        if address_eq(&acct.intents[i], a) {
            assert(pred(acct.intents@[i as int]));
            return None;
        }
        if address_is_empty(&acct.intents[i]) {
            assert(pred(acct.intents@[i as int]));
            let mut intents = acct.intents;
            intents[i] = *a;
            let out = SearchEngineAccount { intents, ..*acct };
            assert(out.intents =~= vstd::array::spec_array_update(acct.intents, i as int, *a));
            return Some(out);
        }
        assert(!pred(acct.intents@[i as int]));
        i = i + 1;
    }
    None
}

/// Processes one invocation of the search engine.  A malformed instruction
/// returns its error with every account untouched.  `UpdateAccount` rewrites
/// the leading bytes of the first account's buffer with the supplied profile,
/// leaving any surplus bytes as they were.  `RegisterResource` rewrites the
/// first account with the updated index, or reports why it cannot.
/// `RegisterIntent` requires the resource (third account) to be registered in
/// the index (first account) and then caches it in the profile account
/// (second account), writing back only when a free slot was claimed.  A
/// missing or undecodable account is the host's fault and is reported as
/// `InvalidAccountData`, with nothing written.
pub fn process_instruction(accounts: &mut Vec<Account>, instruction_data: &[u8]) -> (r: Result<
    (),
    ProgramError,
>)
    ensures
        ({
            let pre = old(accounts)@;
            let post = final(accounts)@;
            match spec_unpack(instruction_data@) {
                Err(e) => r == Err::<(), ProgramError>(e) && post == pre,
                Ok(insn) => match insn {
                    SearchEngineInstruction::Default() => r == Ok::<(), ProgramError>(()) && post
                        == pre,
                    SearchEngineInstruction::UpdateAccount(a) => if pre.len() == 0
                        || pre[0].data@.len() < SEARCH_ENGINE_ACCOUNT_SIZE {
                        r == Err::<(), ProgramError>(ProgramError::InvalidAccountData) && post
                            == pre
                    } else {
                        r == Ok::<(), ProgramError>(()) && post.len() == pre.len() && post[0].key
                            == pre[0].key && post[0].data@ == spec_encode_account(a)
                            + pre[0].data@.skip(SEARCH_ENGINE_ACCOUNT_SIZE as int) && (forall|
                            k: int,
                        |
                            1 <= k < pre.len() ==> post[k] == pre[k])
                    },
                    SearchEngineInstruction::RegisterResource(res) => if pre.len() == 0
                        || spec_decode_index(pre[0].data@) is None {
                        r == Err::<(), ProgramError>(ProgramError::InvalidAccountData) && post
                            == pre
                    } else {
                        match spec_register_resource(
                            spec_decode_index(pre[0].data@)->Some_0,
                            res,
                        ) {
                            Ok(x2) => r == Ok::<(), ProgramError>(()) && post.len() == pre.len()
                                && post[0].key == pre[0].key && post[0].data@
                                == spec_encode_index(x2) && (forall|k: int|
                                1 <= k < pre.len() ==> post[k] == pre[k]),
                            Err(e) => r == Err::<(), ProgramError>(e) && post == pre,
                        }
                    },
                    SearchEngineInstruction::RegisterIntent() => if pre.len() == 0
                        || spec_decode_index(pre[0].data@) is None {
                        r == Err::<(), ProgramError>(ProgramError::InvalidAccountData) && post
                            == pre
                    } else if pre.len() < 3 {
                        r == Err::<(), ProgramError>(ProgramError::InvalidAccountData) && post
                            == pre
                    } else if !spec_index_contains(
                        spec_decode_index(pre[0].data@)->Some_0,
                        pre[2].key,
                    ) {
                        r == Err::<(), ProgramError>(
                            SearchEngineError::ResourceNotRegistered.spec_to_program_error(),
                        ) && post == pre
                    } else if spec_decode_account(pre[1].data@) is None {
                        r == Err::<(), ProgramError>(ProgramError::InvalidAccountData) && post
                            == pre
                    } else {
                        match spec_register_intent_account(
                            spec_decode_account(pre[1].data@)->Some_0,
                            pre[2].key,
                        ) {
                            None => r == Ok::<(), ProgramError>(()) && post == pre,
                            Some(acct2) => r == Ok::<(), ProgramError>(()) && post.len()
                                == pre.len() && post[1].key == pre[1].key && post[1].data@
                                == spec_encode_account(acct2) && (forall|k: int|
                                0 <= k < pre.len() && k != 1 ==> post[k] == pre[k]),
                        }
                    },
                },
            }
        }),
{
    let insn = match SearchEngineInstruction::unpack(instruction_data) {
        Ok(i) => i,
        Err(e) => {
            return Err(e);
        },
    };
    match insn {
        SearchEngineInstruction::Default() => Ok(()),
        SearchEngineInstruction::UpdateAccount(a) => {
            if accounts.len() == 0 {
                return Err(ProgramError::InvalidAccountData);
            }
            let old_len = accounts[0].data.len();
            if old_len < SEARCH_ENGINE_ACCOUNT_SIZE {
                return Err(ProgramError::InvalidAccountData);
            }
            let mut data = encode_account(&a);
            let mut i: usize = SEARCH_ENGINE_ACCOUNT_SIZE;
            while i < old_len
                invariant
                    SEARCH_ENGINE_ACCOUNT_SIZE <= i <= old_len,
                    old_len == accounts@[0].data@.len(),
                    accounts@ == old(accounts)@,
                    0 < accounts@.len(),
                    data@ == spec_encode_account(a) + accounts@[0].data@.subrange(
                        SEARCH_ENGINE_ACCOUNT_SIZE as int,
                        i as int,
                    ),
                decreases old_len - i,
            {
                let b = accounts[0].data[i];
                data.push(b);
                proof {
                    assert(data@ =~= spec_encode_account(a) + accounts@[0].data@.subrange(
                        SEARCH_ENGINE_ACCOUNT_SIZE as int,
                        i as int + 1,
                    ));
                }
                i = i + 1;
            }
            proof {
                assert(accounts@[0].data@.subrange(
                    SEARCH_ENGINE_ACCOUNT_SIZE as int,
                    old_len as int,
                ) =~= accounts@[0].data@.skip(SEARCH_ENGINE_ACCOUNT_SIZE as int));
            }
            let key = accounts[0].key;
            accounts[0] = Account { key, data };
            Ok(())
        },
        SearchEngineInstruction::RegisterResource(res) => {
            if accounts.len() == 0 {
                return Err(ProgramError::InvalidAccountData);
            }
            let x = match decode_index(accounts[0].data.as_slice()) {
                Ok(x) => x,
                Err(_) => {
                    return Err(ProgramError::InvalidAccountData);
                },
            };
            match register_resource(&x, &res) {
                Ok(x2) => {
                    let data = encode_index(&x2);
                    let key = accounts[0].key;
                    accounts[0] = Account { key, data };
                    Ok(())
                },
                Err(e) => Err(e),
            }
        },
        SearchEngineInstruction::RegisterIntent() => {
            if accounts.len() == 0 {
                return Err(ProgramError::InvalidAccountData);
            }
            let x = match decode_index(accounts[0].data.as_slice()) {
                Ok(x) => x,
                Err(_) => {
                    return Err(ProgramError::InvalidAccountData);
                },
            };
            if accounts.len() < 3 {
                return Err(ProgramError::InvalidAccountData);
            }
            let resource_key = accounts[2].key;
            if !index_contains(&x, &resource_key) {
                return Err(ProgramError::from(SearchEngineError::ResourceNotRegistered));
            }
            let acct = match decode_account(accounts[1].data.as_slice()) {
                Ok(acct) => acct,
                Err(_) => {
                    return Err(ProgramError::InvalidAccountData);
                },
            };
            match register_intent_account(&acct, &resource_key) {
                Some(acct2) => {
                    let data = encode_account(&acct2);
                    let key = accounts[1].key;
                    accounts[1] = Account { key, data };
                    Ok(())
                },
                None => Ok(()),
            }
        },
    }
}

} // verus!
