//! Component and resource types are keyed by `std::any::TypeId`.
use std::any::TypeId;
use vstd::prelude::*;

verus! {

/// Declares `std::any::TypeId`, the key of component and resource types.
/// Its values are opaque here: the library only compares them.
#[verifier::external_type_specification]
#[verifier::external_body]
pub struct ExTypeId(TypeId);

/// Relies on `<TypeId as PartialEq>::eq`: two type ids compare equal exactly
/// when they are the same id.
#[verifier::external_body]
pub(crate) fn same_type(a: &TypeId, b: &TypeId) -> (r: bool)
    ensures
        r == (*a == *b),
{
    *a == *b
}

/// In a list of distinct keys, `index_of` finds each key at its own position.
pub proof fn lemma_index_of_unique(keys: Seq<TypeId>, p: int)
    requires
        keys.no_duplicates(),
        0 <= p < keys.len(),
    ensures
        keys.index_of(keys[p]) == p,
{
    let k = keys[p];
    assert(keys.contains(k));
    let q = keys.index_of(k);
    assert(0 <= q < keys.len() && keys[q] == k);
}

/// Position of `key` in `keys`, if it occurs there.
pub(crate) fn find_key(keys: &Vec<TypeId>, key: &TypeId) -> (r: Option<usize>)
    ensures
        match r {
            Some(i) => i < keys@.len() && keys@[i as int] == *key
                && forall|j: int| 0 <= j < i ==> keys@[j] != *key,
            None => !keys@.contains(*key),
        },
{
    let mut i: usize = 0;
    while i < keys.len()
        invariant
            i <= keys@.len(),
            forall|j: int| 0 <= j < i ==> keys@[j] != *key,
        decreases keys@.len() - i,
    {
        if same_type(&keys[i], key) {
            return Some(i);
        }
        i += 1;
    }
    None
}

} // verus!
