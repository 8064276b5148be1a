//! First-match scans over fixed-capacity slot arrays.  Every operation of the
//! two programs walks a slot array once and acts on the first slot satisfying
//! some condition; these definitions give that scan a name the contracts can
//! share.

use vstd::prelude::*;

verus! {

/// The first index `>= i` whose element satisfies `pred`, if any.
pub open spec fn find_from<T>(s: Seq<T>, pred: spec_fn(T) -> bool, i: int) -> Option<int>
    decreases s.len() - i,
{
    if i < 0 || i >= s.len() {
        None
    } else if pred(s[i]) {
        Some(i)
    } else {
        find_from(s, pred, i + 1)
    }
}

/// The first index whose element satisfies `pred`, if any.
pub open spec fn spec_find<T>(s: Seq<T>, pred: spec_fn(T) -> bool) -> Option<int> {
    find_from(s, pred, 0)
}

/// What a successful or failed scan means element by element.
pub proof fn lemma_find_from_properties<T>(s: Seq<T>, pred: spec_fn(T) -> bool, i: int)
    requires
        0 <= i <= s.len(),
    ensures
        match find_from(s, pred, i) {
            Some(j) => i <= j < s.len() && pred(s[j]) && (forall|k: int|
                i <= k < j ==> !pred(s[k])),
            None => forall|k: int| i <= k < s.len() ==> !pred(s[k]),
        },
    decreases s.len() - i,
{
    if i < s.len() && !pred(s[i]) {
        lemma_find_from_properties(s, pred, i + 1);
    }
}

/// A scan finds exactly the first satisfying index.
pub proof fn lemma_find_from_is<T>(s: Seq<T>, pred: spec_fn(T) -> bool, i: int, j: int)
    requires
        0 <= i <= j < s.len(),
        pred(s[j]),
        forall|k: int| i <= k < j ==> !pred(s[k]),
    ensures
        find_from(s, pred, i) == Some(j),
    decreases j - i,
{
    if i < j {
        lemma_find_from_is(s, pred, i + 1, j);
    }
}

/// A scan over elements none of which satisfies `pred` finds nothing.
pub proof fn lemma_find_from_none<T>(s: Seq<T>, pred: spec_fn(T) -> bool, i: int)
    requires
        0 <= i,
        forall|k: int| i <= k < s.len() ==> !pred(s[k]),
    ensures
        find_from(s, pred, i) == None::<int>,
    decreases s.len() - i,
{
    if i < s.len() {
        lemma_find_from_none(s, pred, i + 1);
    }
}

} // verus!
