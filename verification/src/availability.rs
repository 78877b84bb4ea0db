use vstd::prelude::*;

use crate::bits::{bit_set, lemma_missing_bit};
use crate::id::NUMBER_OF_COLUMNS;

verus! {

/// Which columns of a block are held, against which are expected. Bit `i`
/// of either map stands for column `i`.
#[derive(Debug, Clone, Copy, PartialEq, Eq)]
pub struct DaAvailability {
    held: u128,
    expected: u128,
}

/// Whether column `i` is expected but not held.
pub open spec fn is_missing(held: u128, expected: u128, i: u64) -> bool {
    i < NUMBER_OF_COLUMNS && bit_set(expected, i as u128) && !bit_set(held, i as u128)
}

impl DaAvailability {
    pub fn new(held: u128, expected: u128) -> (r: Self)
        ensures
            r.held_spec() == held,
            r.expected_spec() == expected,
    {
        DaAvailability { held, expected }
    }

    pub closed spec fn held_spec(self) -> u128 {
        self.held
    }

    pub closed spec fn expected_spec(self) -> u128 {
        self.expected
    }

    /// Bitmap of the columns held.
    pub fn held(&self) -> (r: u128)
        ensures
            r == self.held_spec(),
    {
        self.held
    }

    /// Bitmap of the columns expected.
    pub fn expected(&self) -> (r: u128)
        ensures
            r == self.expected_spec(),
    {
        self.expected
    }

    /// The indices of the columns that are expected but not held, ascending.
    pub fn missing(&self) -> (r: Vec<u64>)
        ensures
            forall|a: int, b: int| 0 <= a < b < r.len() ==> r[a] < r[b],
            forall|a: int|
                0 <= a < r.len() ==> is_missing(self.held_spec(), self.expected_spec(), #[trigger] r[a]),
            forall|i: u64|
                #[trigger] is_missing(self.held_spec(), self.expected_spec(), i) ==> r@.contains(i),
    {
        let gap: u128 = self.expected & !self.held;
        let mut r: Vec<u64> = Vec::new();
        let mut i: u64 = 0;
        while i < NUMBER_OF_COLUMNS
            invariant
                i <= NUMBER_OF_COLUMNS,
                gap == self.expected & !self.held,
                forall|a: int, b: int| 0 <= a < b < r.len() ==> r[a] < r[b],
                forall|a: int| 0 <= a < r.len() ==> r[a] < i,
                forall|a: int|
                    0 <= a < r.len() ==> is_missing(self.held, self.expected, #[trigger] r[a]),
                forall|j: u64|
                    j < i && #[trigger] is_missing(self.held, self.expected, j) ==> r@.contains(j),
            decreases NUMBER_OF_COLUMNS - i,
        {
            let shift: u128 = i as u128;
            proof {
                lemma_missing_bit(self.expected, self.held, shift);
            }
            if (gap >> shift) & 1u128 == 1u128 {
                let ghost prev = r@;
                r.push(i);
                proof {
                    assert(r[r.len() - 1] == i);
                    assert forall|j: u64| j < i + 1 && #[trigger] is_missing(
                        self.held,
                        self.expected,
                        j,
                    ) implies r@.contains(j) by {
                        if j == i {
                            assert(r@[r.len() - 1] == j);
                        } else {
                            assert(prev.contains(j));
                            let w = choose|w: int| 0 <= w < prev.len() && #[trigger] prev[w] == j;
                            assert(r@[w] == j);
                        }
                    }
                }
            } else {
                proof {
                    assert forall|j: u64| j < i + 1 && #[trigger] is_missing(
                        self.held,
                        self.expected,
                        j,
                    ) implies r@.contains(j) by {
                        if j == i {
                            assert(false);
                        }
                    }
                }
            }
            i = i + 1;
        }
        r
    }
}

} // verus!
