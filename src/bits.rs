//! Membership words: one bit per registered component type.
use vstd::prelude::*;

verus! {

/// How many component types a membership word can describe.
pub const MAX_COMPONENT_TYPES: usize = 32;

/// The membership bit of the component type registered in position `t`.
pub open spec fn bit(t: int) -> u32 {
    1u32 << (t as u32)
}

/// Whether membership word `m` holds the bit of position `t`.
pub open spec fn has_bit(m: u32, t: int) -> bool {
    m & bit(t) != 0
}

/// Whether `m` holds every bit of `mask`.
pub open spec fn contains_mask(m: u32, mask: u32) -> bool {
    m & mask == mask
}

/// The bits of distinct positions are distinct and never zero.
pub proof fn lemma_bits_distinct(t: int, u: int)
    requires
        0 <= t < 32,
        0 <= u < 32,
    ensures
        bit(t) != 0,
        t != u ==> bit(t) != bit(u),
        has_bit(bit(t), u) <==> t == u,
{
    let a = t as u32;
    let b = u as u32;
    assert(a < 32 ==> (1u32 << a) != 0u32) by (bit_vector);
    assert(a < 32 && b < 32 && a != b ==> (1u32 << a) != (1u32 << b)) by (bit_vector);
    assert(a < 32 && b < 32 ==> (((1u32 << a) & (1u32 << b)) != 0u32 <==> a == b)) by (bit_vector);
}

/// Setting the bit of `t` adds `t` and keeps every other position.
pub proof fn lemma_set_bit(m: u32, t: int, u: int)
    requires
        0 <= t < 32,
        0 <= u < 32,
    ensures
        has_bit(m | bit(t), u) <==> (has_bit(m, u) || u == t),
{
    let a = t as u32;
    let b = u as u32;
    assert(a < 32 && b < 32 ==> (((m | (1u32 << a)) & (1u32 << b)) != 0u32 <==> ((m & (1u32 << b)) != 0u32
        || a == b))) by (bit_vector);
}

/// Clearing the bit of `t` removes `t` and keeps every other position.
pub proof fn lemma_clear_bit(m: u32, t: int, u: int)
    requires
        0 <= t < 32,
        0 <= u < 32,
    ensures
        has_bit(m & !bit(t), u) <==> (has_bit(m, u) && u != t),
{
    let a = t as u32;
    let b = u as u32;
    assert(a < 32 && b < 32 ==> (((m & !(1u32 << a)) & (1u32 << b)) != 0u32 <==> ((m & (1u32 << b)) != 0u32
        && a != b))) by (bit_vector);
}

/// Clearing a bit twice leaves the same word as clearing it once.
pub proof fn lemma_clear_bit_twice(m: u32, t: int)
    ensures
        (m & !bit(t)) & !bit(t) == m & !bit(t),
{
    let x = bit(t);
    assert((m & !x) & !x == m & !x) by (bit_vector);
}

/// The word zero holds no bit.
pub proof fn lemma_zero_has_no_bits(u: int)
    requires
        0 <= u < 32,
    ensures
        !has_bit(0, u),
{
    let b = u as u32;
    assert((0u32 & (1u32 << b)) == 0u32) by (bit_vector);
}

/// `m` holds all of `mask` exactly when every position set in `mask` is set in `m`.
pub proof fn lemma_contains_mask_bits(m: u32, mask: u32)
    ensures
        contains_mask(m, mask) <==> (forall|u: int| 0 <= u < 32 ==> (#[trigger] has_bit(mask, u) ==> has_bit(m, u))),
{
    if contains_mask(m, mask) {
        assert forall|u: int| 0 <= u < 32 && #[trigger] has_bit(mask, u) implies has_bit(m, u) by {
            let b = u as u32;
            assert((m & mask) == mask && (mask & (1u32 << b)) != 0u32 ==> (m & (1u32 << b)) != 0u32) by (bit_vector);
        }
    }
    if forall|u: int| 0 <= u < 32 ==> (#[trigger] has_bit(mask, u) ==> has_bit(m, u)) {
            assert(has_bit(mask, 0) ==> has_bit(m, 0));
            assert(has_bit(mask, 1) ==> has_bit(m, 1));
            assert(has_bit(mask, 2) ==> has_bit(m, 2));
            assert(has_bit(mask, 3) ==> has_bit(m, 3));
            assert(has_bit(mask, 4) ==> has_bit(m, 4));
            assert(has_bit(mask, 5) ==> has_bit(m, 5));
            assert(has_bit(mask, 6) ==> has_bit(m, 6));
            assert(has_bit(mask, 7) ==> has_bit(m, 7));
            assert(has_bit(mask, 8) ==> has_bit(m, 8));
            assert(has_bit(mask, 9) ==> has_bit(m, 9));
            assert(has_bit(mask, 10) ==> has_bit(m, 10));
            assert(has_bit(mask, 11) ==> has_bit(m, 11));
            assert(has_bit(mask, 12) ==> has_bit(m, 12));
            assert(has_bit(mask, 13) ==> has_bit(m, 13));
            assert(has_bit(mask, 14) ==> has_bit(m, 14));
            assert(has_bit(mask, 15) ==> has_bit(m, 15));
            assert(has_bit(mask, 16) ==> has_bit(m, 16));
            assert(has_bit(mask, 17) ==> has_bit(m, 17));
            assert(has_bit(mask, 18) ==> has_bit(m, 18));
            assert(has_bit(mask, 19) ==> has_bit(m, 19));
            assert(has_bit(mask, 20) ==> has_bit(m, 20));
            assert(has_bit(mask, 21) ==> has_bit(m, 21));
            assert(has_bit(mask, 22) ==> has_bit(m, 22));
            assert(has_bit(mask, 23) ==> has_bit(m, 23));
            assert(has_bit(mask, 24) ==> has_bit(m, 24));
            assert(has_bit(mask, 25) ==> has_bit(m, 25));
            assert(has_bit(mask, 26) ==> has_bit(m, 26));
            assert(has_bit(mask, 27) ==> has_bit(m, 27));
            assert(has_bit(mask, 28) ==> has_bit(m, 28));
            assert(has_bit(mask, 29) ==> has_bit(m, 29));
            assert(has_bit(mask, 30) ==> has_bit(m, 30));
            assert(has_bit(mask, 31) ==> has_bit(m, 31));
        assert(m & mask == mask) by (bit_vector)
            requires
                (mask & (1u32 << 0u32)) != 0u32 ==> (m & (1u32 << 0u32)) != 0u32,
                (mask & (1u32 << 1u32)) != 0u32 ==> (m & (1u32 << 1u32)) != 0u32,
                (mask & (1u32 << 2u32)) != 0u32 ==> (m & (1u32 << 2u32)) != 0u32,
                (mask & (1u32 << 3u32)) != 0u32 ==> (m & (1u32 << 3u32)) != 0u32,
                (mask & (1u32 << 4u32)) != 0u32 ==> (m & (1u32 << 4u32)) != 0u32,
                (mask & (1u32 << 5u32)) != 0u32 ==> (m & (1u32 << 5u32)) != 0u32,
                (mask & (1u32 << 6u32)) != 0u32 ==> (m & (1u32 << 6u32)) != 0u32,
                (mask & (1u32 << 7u32)) != 0u32 ==> (m & (1u32 << 7u32)) != 0u32,
                (mask & (1u32 << 8u32)) != 0u32 ==> (m & (1u32 << 8u32)) != 0u32,
                (mask & (1u32 << 9u32)) != 0u32 ==> (m & (1u32 << 9u32)) != 0u32,
                (mask & (1u32 << 10u32)) != 0u32 ==> (m & (1u32 << 10u32)) != 0u32,
                (mask & (1u32 << 11u32)) != 0u32 ==> (m & (1u32 << 11u32)) != 0u32,
                (mask & (1u32 << 12u32)) != 0u32 ==> (m & (1u32 << 12u32)) != 0u32,
                (mask & (1u32 << 13u32)) != 0u32 ==> (m & (1u32 << 13u32)) != 0u32,
                (mask & (1u32 << 14u32)) != 0u32 ==> (m & (1u32 << 14u32)) != 0u32,
                (mask & (1u32 << 15u32)) != 0u32 ==> (m & (1u32 << 15u32)) != 0u32,
                (mask & (1u32 << 16u32)) != 0u32 ==> (m & (1u32 << 16u32)) != 0u32,
                (mask & (1u32 << 17u32)) != 0u32 ==> (m & (1u32 << 17u32)) != 0u32,
                (mask & (1u32 << 18u32)) != 0u32 ==> (m & (1u32 << 18u32)) != 0u32,
                (mask & (1u32 << 19u32)) != 0u32 ==> (m & (1u32 << 19u32)) != 0u32,
                (mask & (1u32 << 20u32)) != 0u32 ==> (m & (1u32 << 20u32)) != 0u32,
                (mask & (1u32 << 21u32)) != 0u32 ==> (m & (1u32 << 21u32)) != 0u32,
                (mask & (1u32 << 22u32)) != 0u32 ==> (m & (1u32 << 22u32)) != 0u32,
                (mask & (1u32 << 23u32)) != 0u32 ==> (m & (1u32 << 23u32)) != 0u32,
                (mask & (1u32 << 24u32)) != 0u32 ==> (m & (1u32 << 24u32)) != 0u32,
                (mask & (1u32 << 25u32)) != 0u32 ==> (m & (1u32 << 25u32)) != 0u32,
                (mask & (1u32 << 26u32)) != 0u32 ==> (m & (1u32 << 26u32)) != 0u32,
                (mask & (1u32 << 27u32)) != 0u32 ==> (m & (1u32 << 27u32)) != 0u32,
                (mask & (1u32 << 28u32)) != 0u32 ==> (m & (1u32 << 28u32)) != 0u32,
                (mask & (1u32 << 29u32)) != 0u32 ==> (m & (1u32 << 29u32)) != 0u32,
                (mask & (1u32 << 30u32)) != 0u32 ==> (m & (1u32 << 30u32)) != 0u32,
                (mask & (1u32 << 31u32)) != 0u32 ==> (m & (1u32 << 31u32)) != 0u32,
        ;
    }
}

/// A query that requires the types in positions `a` and `b` matches exactly the
/// membership words that hold both of their bits: having only one of them, or
/// neither, is not enough.
pub proof fn lemma_query_exact(m: u32, a: int, b: int)
    requires
        0 <= a < 32,
        0 <= b < 32,
    ensures
        contains_mask(m, bit(a) | bit(b)) <==> (has_bit(m, a) && has_bit(m, b)),
{
    let x = a as u32;
    let y = b as u32;
    assert(x < 32 && y < 32 ==> ((m & ((1u32 << x) | (1u32 << y))) == ((1u32 << x) | (1u32 << y)) <==> ((m & (1u32
        << x)) != 0u32 && (m & (1u32 << y)) != 0u32))) by (bit_vector);
}

} // verus!
