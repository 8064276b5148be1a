//! Addresses and the byte-level helpers shared by both programs' record
//! codecs.  Every persistent record is a fixed-layout byte string: fields are
//! laid out in declaration order, a `u8` is one byte, a `bool` is one byte
//! restricted to `{0, 1}`, and an address is 32 raw bytes.

use vstd::prelude::*;

verus! {

/// Length in bytes of a participant or resource address.
pub const PUBLIC_KEY_SIZE: usize = 32;

/// Opaque identifier of a participant or a resource.  The all-zero value is
/// the sentinel that marks an unused slot.
pub type Address = [u8; PUBLIC_KEY_SIZE];

/// The sentinel: every byte is zero.
pub open spec fn is_empty_address(a: Address) -> bool {
    forall|i: int| 0 <= i < PUBLIC_KEY_SIZE ==> a@[i] == 0u8
}

/// The sentinel address, as a spec value.
pub open spec fn spec_empty_address() -> Address {
    vstd::array::spec_array_fill_for_copy_type::<u8, PUBLIC_KEY_SIZE>(0u8)
}

pub proof fn lemma_spec_empty_address()
    ensures
        is_empty_address(spec_empty_address()),
        forall|a: Address| is_empty_address(a) ==> a == spec_empty_address(),
{
    broadcast use vstd::array::axiom_spec_array_fill_for_copy_type;

    assert forall|a: Address| is_empty_address(a) implies a == spec_empty_address() by {
        assert(a =~= spec_empty_address());
    }
}

/// The all-zero address used for unused slots.
pub fn empty_address() -> (r: Address)
    ensures
        r == spec_empty_address(),
        is_empty_address(r),
{
    proof {
        lemma_spec_empty_address();
    }
    [0u8; PUBLIC_KEY_SIZE]
}

pub fn address_eq(a: &Address, b: &Address) -> (r: bool)
    ensures
        r <==> *a == *b,
{
    let mut i: usize = 0;
    while i < PUBLIC_KEY_SIZE
        invariant
            0 <= i <= PUBLIC_KEY_SIZE,
            forall|k: int| 0 <= k < i ==> a@[k] == b@[k],
        decreases PUBLIC_KEY_SIZE - i,
    {
        if a[i] != b[i] {
            return false;
        }
        i = i + 1;
    }
    assert(*a =~= *b);
    true
}

pub fn address_is_empty(a: &Address) -> (r: bool)
    ensures
        r == is_empty_address(*a),
{
    let mut i: usize = 0;
    while i < PUBLIC_KEY_SIZE
        invariant
            0 <= i <= PUBLIC_KEY_SIZE,
            forall|k: int| 0 <= k < i ==> a@[k] == 0u8,
        decreases PUBLIC_KEY_SIZE - i,
    {
        if a[i] != 0 {
            return false;
        }
        i = i + 1;
    }
    true
}

/// A buffer did not hold a well-formed encoding of the requested record.
#[derive(Clone, Copy, Debug, PartialEq, Eq, Structural)]
pub struct DecodeError;

/// The single byte that encodes a boolean field.
pub open spec fn spec_bool_byte(b: bool) -> u8 {
    if b {
        1u8
    } else {
        0u8
    }
}

/// A byte is a well-formed boolean encoding when it is 0 or 1.
pub open spec fn valid_bool_byte(x: u8) -> bool {
    x == 0u8 || x == 1u8
}

pub fn bool_byte(b: bool) -> (r: u8)
    ensures
        r == spec_bool_byte(b),
{
    if b {
        1
    } else {
        0
    }
}

/// The array holding the first `N` elements of `s` in place of `a`'s.
pub open spec fn seq_to_array_rec<T, const N: usize>(s: Seq<T>, a: [T; N], i: int) -> [T; N]
    decreases N as int - i,
{
    if i < 0 || i >= N as int {
        a
    } else {
        seq_to_array_rec(s, vstd::array::spec_array_update(a, i, s[i]), i + 1)
    }
}

pub proof fn lemma_seq_to_array_rec<T, const N: usize>(s: Seq<T>, a: [T; N], i: int)
    requires
        0 <= i <= N as int,
        s.len() >= N,
    ensures
        forall|k: int|
            0 <= k < N as int ==> seq_to_array_rec(s, a, i)@[k] == (if k < i {
                a@[k]
            } else {
                s[k]
            }),
    decreases N as int - i,
{
    broadcast use vstd::array::axiom_spec_array_update;

    if i < N as int {
        let a2 = vstd::array::spec_array_update(a, i, s[i]);
        lemma_seq_to_array_rec(s, a2, i + 1);
        assert(a2@ == a@.update(i, s[i]));
        assert(seq_to_array_rec(s, a, i) == seq_to_array_rec(s, a2, i + 1));
        assert forall|k: int| 0 <= k < N as int implies seq_to_array_rec(s, a, i)@[k] == (if k < i {
            a@[k]
        } else {
            s[k]
        }) by {
            assert(seq_to_array_rec(s, a2, i + 1)@[k] == (if k < i + 1 {
                a2@[k]
            } else {
                s[k]
            }));
        }
    }
}

/// The address whose bytes are the first 32 bytes of `s`.
pub open spec fn spec_address_of_bytes(s: Seq<u8>) -> Address {
    seq_to_array_rec(s, vstd::array::spec_array_fill_for_copy_type::<u8, PUBLIC_KEY_SIZE>(0u8), 0)
}

pub proof fn lemma_address_of_bytes(s: Seq<u8>)
    requires
        s.len() == PUBLIC_KEY_SIZE,
    ensures
        spec_address_of_bytes(s)@ == s,
{
    lemma_seq_to_array_rec(
        s,
        vstd::array::spec_array_fill_for_copy_type::<u8, PUBLIC_KEY_SIZE>(0u8),
        0,
    );
    assert(spec_address_of_bytes(s)@ =~= s);
}

/// The array holding the first `N` elements of `s`, with `fill` standing in
/// where `s` is too short.
pub open spec fn spec_array_of_seq<T: Copy, const N: usize>(s: Seq<T>, fill: T) -> [T; N] {
    seq_to_array_rec(s, vstd::array::spec_array_fill_for_copy_type::<T, N>(fill), 0)
}

pub proof fn lemma_array_of_seq<T: Copy, const N: usize>(s: Seq<T>, fill: T)
    requires
        s.len() == N,
    ensures
        spec_array_of_seq::<T, N>(s, fill)@ == s,
{
    lemma_seq_to_array_rec(s, vstd::array::spec_array_fill_for_copy_type::<T, N>(fill), 0);
    assert(spec_array_of_seq::<T, N>(s, fill)@ =~= s);
}

/// The bytes of a run of address slots, laid out one after the other.
pub open spec fn spec_encode_addresses(s: Seq<Address>) -> Seq<u8>
    decreases s.len(),
{
    if s.len() == 0 {
        Seq::empty()
    } else {
        s[0]@ + spec_encode_addresses(s.skip(1))
    }
}

pub proof fn lemma_encode_addresses_len(s: Seq<Address>)
    ensures
        spec_encode_addresses(s).len() == 32 * s.len(),
    decreases s.len(),
{
    if s.len() > 0 {
        lemma_encode_addresses_len(s.skip(1));
    }
}

pub proof fn lemma_encode_addresses_app(s1: Seq<Address>, s2: Seq<Address>)
    ensures
        spec_encode_addresses(s1 + s2) == spec_encode_addresses(s1) + spec_encode_addresses(s2),
    decreases s1.len(),
{
    if s1.len() == 0 {
        assert(s1 + s2 =~= s2);
        assert(spec_encode_addresses(s1) + spec_encode_addresses(s2) =~= spec_encode_addresses(
            s2,
        ));
    } else {
        lemma_encode_addresses_app(s1.skip(1), s2);
        assert((s1 + s2).skip(1) =~= s1.skip(1) + s2);
        assert(spec_encode_addresses(s1 + s2) =~= spec_encode_addresses(s1)
            + spec_encode_addresses(s2));
    }
}

pub proof fn lemma_encode_addresses_subrange(s: Seq<Address>, j: int)
    requires
        0 <= j < s.len(),
    ensures
        spec_encode_addresses(s).subrange(32 * j, 32 * j + 32) == s[j]@,
    decreases s.len(),
{
    lemma_encode_addresses_len(s);
    lemma_encode_addresses_len(s.skip(1));
    if j == 0 {
        assert(spec_encode_addresses(s).subrange(0, 32) =~= s[0]@);
    } else {
        lemma_encode_addresses_subrange(s.skip(1), j - 1);
        assert(spec_encode_addresses(s).subrange(32 * j, 32 * j + 32) =~= spec_encode_addresses(
            s.skip(1),
        ).subrange(32 * (j - 1), 32 * (j - 1) + 32));
    }
}

/// The addresses read back from `n` consecutive 32-byte slots of `s`.
pub open spec fn spec_addresses_of_bytes(s: Seq<u8>, n: nat) -> Seq<Address> {
    Seq::new(n, |j: int| spec_address_of_bytes(s.subrange(32 * j, 32 * j + 32)))
}

pub proof fn lemma_encode_addresses_of_bytes(s: Seq<u8>, n: nat)
    requires
        s.len() == 32 * n,
    ensures
        spec_encode_addresses(spec_addresses_of_bytes(s, n)) == s,
    decreases n,
{
    let a = spec_addresses_of_bytes(s, n);
    if n == 0 {
        assert(spec_encode_addresses(a) =~= s);
    } else {
        let tail = s.skip(32);
        lemma_address_of_bytes(s.subrange(0, 32));
        assert(a.skip(1) =~= spec_addresses_of_bytes(tail, (n - 1) as nat)) by {
            assert forall|j: int| 0 <= j < n - 1 implies a.skip(1)[j] == spec_addresses_of_bytes(
                tail,
                (n - 1) as nat,
            )[j] by {
                assert(s.subrange(32 * (j + 1), 32 * (j + 1) + 32) =~= tail.subrange(
                    32 * j,
                    32 * j + 32,
                ));
            }
        }
        lemma_encode_addresses_of_bytes(tail, (n - 1) as nat);
        assert(a[0]@ + tail =~= s);
    }
}

pub proof fn lemma_addresses_of_encoded(a: Seq<Address>)
    ensures
        spec_addresses_of_bytes(spec_encode_addresses(a), a.len()) == a,
{
    let s = spec_encode_addresses(a);
    lemma_encode_addresses_len(a);
    assert forall|j: int| 0 <= j < a.len() implies spec_addresses_of_bytes(s, a.len())[j]
        == a[j] by {
        lemma_encode_addresses_subrange(a, j);
        lemma_address_of_bytes(s.subrange(32 * j, 32 * j + 32));
        assert(spec_address_of_bytes(s.subrange(32 * j, 32 * j + 32)) =~= a[j]);
    }
    assert(spec_addresses_of_bytes(s, a.len()) =~= a);
}

/// Appends the 32 bytes of one address to `out`.
pub fn push_address(out: &mut Vec<u8>, a: &Address)
    ensures
        final(out)@ == old(out)@ + a@,
{
    let mut i: usize = 0;
    while i < PUBLIC_KEY_SIZE
        invariant
            0 <= i <= PUBLIC_KEY_SIZE,
            out@ == old(out)@ + a@.take(i as int),
        decreases PUBLIC_KEY_SIZE - i,
    {
        out.push(a[i]);
        assert(old(out)@ + a@.take(i as int) + seq![a@[i as int]] =~= old(out)@ + a@.take(
            i as int + 1,
        ));
        i = i + 1;
    }
    assert(old(out)@ + a@.take(PUBLIC_KEY_SIZE as int) =~= old(out)@ + a@);
}

/// Reads one address from `bytes` starting at `off`.
pub fn read_address(bytes: &[u8], off: usize) -> (r: Address)
    requires
        off + PUBLIC_KEY_SIZE <= bytes@.len(),
    ensures
        r@ == bytes@.subrange(off as int, off as int + PUBLIC_KEY_SIZE),
{
    let n = bytes.len();
    let mut r: Address = [0u8; PUBLIC_KEY_SIZE];
    let mut i: usize = 0;
    while i < PUBLIC_KEY_SIZE
        invariant
            0 <= i <= PUBLIC_KEY_SIZE,
            off + PUBLIC_KEY_SIZE <= n == bytes@.len(),
            forall|k: int| 0 <= k < i ==> r@[k] == bytes@[off + k],
        decreases PUBLIC_KEY_SIZE - i,
    {
        r[i] = bytes[off + i];
        i = i + 1;
    }
    assert(r@ =~= bytes@.subrange(off as int, off as int + PUBLIC_KEY_SIZE));
    r
}

/// Appends a whole array of address slots to `out`.
pub fn push_addresses<const N: usize>(out: &mut Vec<u8>, a: &[Address; N])
    ensures
        final(out)@ == old(out)@ + spec_encode_addresses(a@),
{
    let mut i: usize = 0;
    while i < N
        invariant
            0 <= i <= N,
            out@ == old(out)@ + spec_encode_addresses(a@.take(i as int)),
        decreases N - i,
    {
        push_address(out, &a[i]);
        proof {
            lemma_encode_addresses_app(a@.take(i as int), seq![a@[i as int]]);
            assert(a@.take(i as int) + seq![a@[i as int]] =~= a@.take(i as int + 1));
            assert(seq![a@[i as int]].skip(1) =~= Seq::<Address>::empty());
            assert(spec_encode_addresses(Seq::<Address>::empty()) =~= Seq::<u8>::empty());
            assert(spec_encode_addresses(seq![a@[i as int]]) =~= a@[i as int]@);
        }
        i = i + 1;
    }
    assert(a@.take(N as int) =~= a@);
}

/// Reads `N` consecutive address slots from `bytes` starting at `off`.
pub fn read_addresses<const N: usize>(bytes: &[u8], off: usize) -> (r: [Address; N])
    requires
        off + 32 * (N as int) <= bytes@.len(),
    ensures
        r@ == spec_addresses_of_bytes(
            bytes@.subrange(off as int, off as int + 32 * (N as int)),
            N as nat,
        ),
{
    let n = bytes.len();
    let ghost sub = bytes@.subrange(off as int, off as int + 32 * (N as int));
    let mut r: [Address; N] = [[0u8; PUBLIC_KEY_SIZE]; N];
    let mut i: usize = 0;
    while i < N
        invariant
            0 <= i <= N,
            off + 32 * (N as int) <= n == bytes@.len(),
            sub == bytes@.subrange(off as int, off as int + 32 * (N as int)),
            forall|k: int|
                0 <= k < i ==> r@[k]@ == bytes@.subrange(off + 32 * k, off + 32 * k + 32),
        decreases N - i,
    {
        r[i] = read_address(bytes, off + 32 * i);
        i = i + 1;
    }
    assert forall|k: int| 0 <= k < N as int implies r@[k] == spec_addresses_of_bytes(
        sub,
        N as nat,
    )[k] by {
        let t = sub.subrange(32 * k, 32 * k + 32);
        assert(t =~= bytes@.subrange(off + 32 * k, off + 32 * k + 32));
        lemma_address_of_bytes(t);
        assert(r@[k] =~= spec_address_of_bytes(t));
    }
    assert(r@ =~= spec_addresses_of_bytes(sub, N as nat));
    r
}

} // verus!
