use vstd::prelude::*;

verus! {

/// Whether bit `i` of the 128-bit map `x` is set.
pub open spec fn bit_set(x: u128, i: u128) -> bool {
    (x >> i) & 1u128 == 1u128
}

pub proof fn lemma_empty_map_has_no_bit(i: u128)
    by (bit_vector)
    requires
        i < 128,
    ensures
        !bit_set(0u128, i),
{
}

pub proof fn lemma_set_bit(x: u128, i: u128, j: u128)
    by (bit_vector)
    requires
        i < 128,
        j < 128,
    ensures
        bit_set(x | (1u128 << i), j) == (bit_set(x, j) || i == j),
{
}

pub proof fn lemma_test_bit(x: u128, i: u128)
    by (bit_vector)
    requires
        i < 128,
    ensures
        ((x & (1u128 << i)) != 0u128) == bit_set(x, i),
{
}

pub proof fn lemma_missing_bit(expected: u128, held: u128, i: u128)
    by (bit_vector)
    requires
        i < 128,
    ensures
        bit_set(expected & !held, i) == (bit_set(expected, i) && !bit_set(held, i)),
{
}

} // verus!
