use vstd::prelude::*;

use crate::bits::{bit_set, lemma_empty_map_has_no_bit, lemma_set_bit, lemma_test_bit};
use crate::error::ValidationError;
use crate::id::{ColumnId, Root, NUMBER_OF_COLUMNS};

verus! {

/// Opaque, scheme-specific encoding of a DA column payload together with its
/// availability evidence.
#[derive(Debug, Clone, PartialEq, Eq)]
pub struct DaPayload(Vec<u8>);

/// Consensus-derived context attached to a candidate column, as the storage
/// side names it. Only plain data crosses this boundary.
#[derive(Debug, Copy, Clone, PartialEq, Eq, Default)]
pub struct DaContext {
    /// Slot of the block the column belongs to. Used for retention decisions,
    /// never for fork choice.
    pub slot: u64,
}

/// A column that passed verification, as the storage side names it.
#[derive(Debug, Clone, PartialEq, Eq)]
pub struct DaColumn {
    id: ColumnId,
    context: DaContext,
    payload: DaPayload,
}

/// Consensus-derived context attached to a candidate column.
#[derive(Debug, Copy, Clone, PartialEq, Eq, Default)]
pub struct ColumnContext {
    /// Slot of the block the column belongs to; used for retention only.
    pub slot: u64,
}

/// A candidate column submitted for verification.
#[derive(Debug, Clone, PartialEq, Eq)]
pub struct CandidateColumn {
    pub id: ColumnId,
    pub context: ColumnContext,
    pub payload: Vec<u8>,
}

/// The column indices of a batch, in submission order.
pub open spec fn batch_indices(columns: Seq<(u64, Seq<u8>)>) -> Seq<u64> {
    columns.map_values(|c: (u64, Seq<u8>)| c.0)
}

/// What a well-formed batch is: not empty, every index below
/// `NUMBER_OF_COLUMNS`, no index twice.
pub open spec fn well_formed_batch(columns: Seq<(u64, Seq<u8>)>) -> bool {
    &&& columns.len() > 0
    &&& forall|i: int| 0 <= i < columns.len() ==> #[trigger] columns[i].0 < NUMBER_OF_COLUMNS
    &&& forall|i: int, j: int|
        0 <= i < j < columns.len() ==> #[trigger] columns[i].0 != #[trigger] columns[j].0
}

/// The first fault among the first `n` indices, scanning in order: an index
/// out of range, or one already seen earlier in the batch.
pub open spec fn first_index_fault(indices: Seq<u64>, n: int) -> Option<ValidationError>
    decreases n,
{
    if n <= 0 {
        None
    } else {
        match first_index_fault(indices, n - 1) {
            Some(e) => Some(e),
            None => {
                let index = indices[n - 1];
                if index >= NUMBER_OF_COLUMNS {
                    Some(
                        ValidationError::InvalidColumnIndex {
                            column_index: index,
                            number_of_columns: NUMBER_OF_COLUMNS,
                        },
                    )
                } else if indices.take(n - 1).contains(index) {
                    Some(ValidationError::DuplicateColumnIndex { column_index: index })
                } else {
                    None
                }
            },
        }
    }
}

/// Why a batch with these indices is refused, if it is.
pub open spec fn batch_fault(indices: Seq<u64>) -> Option<ValidationError> {
    if indices.len() == 0 {
        Some(ValidationError::EmptyBatch)
    } else {
        first_index_fault(indices, indices.len() as int)
    }
}

/// The indices in `indices[..n]` contain no fault exactly when they are all in
/// range and pairwise distinct.
pub proof fn lemma_no_fault_iff_distinct_in_range(indices: Seq<u64>, n: int)
    requires
        0 <= n <= indices.len(),
    ensures
        first_index_fault(indices, n) is None <==> {
            &&& forall|i: int| 0 <= i < n ==> #[trigger] indices[i] < NUMBER_OF_COLUMNS
            &&& forall|i: int, j: int|
                0 <= i < j < n ==> #[trigger] indices[i] != #[trigger] indices[j]
        },
    decreases n,
{
    if n > 0 {
        lemma_no_fault_iff_distinct_in_range(indices, n - 1);
        let index = indices[n - 1];
        if first_index_fault(indices, n - 1) is None && index < NUMBER_OF_COLUMNS {
            if indices.take(n - 1).contains(index) {
                let k = choose|k: int| 0 <= k < n - 1 && #[trigger] indices.take(n - 1)[k] == index;
                assert(indices[k] == indices[n - 1]);
            } else {
                assert forall|i: int, j: int| 0 <= i < j < n implies #[trigger] indices[i]
                    != #[trigger] indices[j] by {
                    if j == n - 1 {
                        assert(indices.take(n - 1)[i] == indices[i]);
                    }
                }
            }
        }
    }
}

/// A batch of one block's candidate columns, submitted as one unit.
///
/// The block root and context are stored exactly once, so a batch that mixes
/// blocks or slots cannot be represented. Construction rejects an empty
/// batch, out-of-range indices and duplicate indices, so a batch never holds
/// more columns than a block has.
#[derive(Debug, PartialEq, Eq)]
pub struct CandidateBlock {
    block_root: Root,
    context: ColumnContext,
    /// `(column index, payload)` pairs, in submission order.
    columns: Vec<(u64, Vec<u8>)>,
}

/// The view of a `(column index, payload)` pair.
pub open spec fn column_pair_view(c: (u64, Vec<u8>)) -> (u64, Seq<u8>) {
    (c.0, c.1@)
}

/// The view of a list of `(column index, payload)` pairs.
pub open spec fn column_pairs_view(columns: Seq<(u64, Vec<u8>)>) -> Seq<(u64, Seq<u8>)> {
    columns.map_values(|c: (u64, Vec<u8>)| column_pair_view(c))
}

impl View for CandidateBlock {
    /// The root's bytes, the context and the `(index, payload)` pairs in order.
    type V = (Seq<u8>, ColumnContext, Seq<(u64, Seq<u8>)>);

    closed spec fn view(&self) -> Self::V {
        (self.block_root@, self.context, column_pairs_view(self.columns@))
    }
}

impl CandidateBlock {
    #[verifier::type_invariant]
    spec fn inv(self) -> bool {
        well_formed_batch(column_pairs_view(self.columns@))
    }

    /// Build a batch from `(column index, payload)` pairs. Fails with
    /// `EmptyBatch` on no pairs, else with the first fault in submission
    /// order: an index out of range (`InvalidColumnIndex`) or an index seen
    /// before (`DuplicateColumnIndex`).
    pub fn new(block_root: Root, context: ColumnContext, columns: Vec<(u64, Vec<u8>)>) -> (r: Result<
        Self,
        ValidationError,
    >)
        ensures
            match batch_fault(batch_indices(column_pairs_view(columns@))) {
                Some(e) => r == Err::<Self, ValidationError>(e),
                None => r matches Ok(b) && b@ == (block_root@, context, column_pairs_view(columns@)),
            },
    {
        let ghost cols = column_pairs_view(columns@);
        let ghost indices = batch_indices(cols);
        if columns.len() == 0 {
            return Err(ValidationError::EmptyBatch);
        }
        let mut seen: u128 = 0;
        let mut k: usize = 0;
        proof {
            assert forall|j: u128| j < 128 implies (bit_set(seen, j) <==> indices.take(0).contains(
                j as u64,
            )) by {
                lemma_empty_map_has_no_bit(j);
            }
        }
        while k < columns.len()
            invariant
                k <= columns.len(),
                cols == column_pairs_view(columns@),
                indices == batch_indices(cols),
                indices.len() == columns.len(),
                first_index_fault(indices, k as int) is None,
                forall|i: int| 0 <= i < k ==> #[trigger] indices[i] < NUMBER_OF_COLUMNS,
                forall|j: u128| j < 128 ==> (bit_set(seen, j) <==> indices.take(k as int).contains(j as u64)),
            decreases columns.len() - k,
        {
            let index = columns[k].0;
            assert(index == indices[k as int]);
            if index >= NUMBER_OF_COLUMNS {
                proof {
                    lemma_fault_prefix_stable(indices, k as int + 1, indices.len() as int);
                }
                return Err(
                    ValidationError::InvalidColumnIndex {
                        column_index: index,
                        number_of_columns: NUMBER_OF_COLUMNS,
                    },
                );
            }
            let shift: u128 = index as u128;
            let bit: u128 = 1u128 << shift;
            proof {
                lemma_test_bit(seen, shift);
            }
            if seen & bit != 0 {
                assert(indices.take(k as int).contains(index));
                proof {
                    lemma_no_fault_iff_distinct_in_range(indices, k as int + 1);
                    lemma_fault_prefix_stable(indices, k as int + 1, indices.len() as int);
                }
                return Err(ValidationError::DuplicateColumnIndex { column_index: index });
            }
            let ghost old_seen = seen;
            seen = seen | bit;
            proof {
                assert(!indices.take(k as int).contains(index));
                assert(indices.take(k + 1) =~= indices.take(k as int).push(index));
                assert forall|j: u128| j < 128 implies (bit_set(seen, j) <==> indices.take(
                    k + 1,
                ).contains(j as u64)) by {
                    lemma_set_bit(old_seen, shift, j);
                    assert(bit_set(seen, j) == (bit_set(old_seen, j) || shift == j));
                    assert(bit_set(old_seen, j) <==> indices.take(k as int).contains(j as u64));
                    assert((shift == j) == (index == j as u64));
                    lemma_push_contains(indices.take(k as int), index, j as u64);
                }
            }
            k = k + 1;
        }
        proof {
            lemma_no_fault_iff_distinct_in_range(indices, indices.len() as int);
            assert forall|i: int| 0 <= i < cols.len() implies cols[i].0 == #[trigger] indices[i] by {}
            assert forall|i: int| 0 <= i < cols.len() implies #[trigger] cols[i].0 < NUMBER_OF_COLUMNS by {
                assert(indices[i] < NUMBER_OF_COLUMNS);
            }
            assert forall|i: int, j: int| 0 <= i < j < cols.len() implies #[trigger] cols[i].0
                != #[trigger] cols[j].0 by {
                assert(indices[i] != indices[j]);
            }
        }
        Ok(CandidateBlock { block_root, context, columns })
    }

    pub fn block_root(&self) -> (r: Root)
        ensures
            r@ == self@.0,
    {
        self.block_root
    }

    pub fn context(&self) -> (r: ColumnContext)
        ensures
            r == self@.1,
    {
        self.context
    }

    pub fn column_count(&self) -> (r: usize)
        ensures
            r == self@.2.len(),
            0 < r <= NUMBER_OF_COLUMNS,
    {
        proof {
            use_type_invariant(self);
            lemma_distinct_indices_bounded(self@.2);
        }
        self.columns.len()
    }

    /// Column indices present in this batch, in submission order.
    pub fn column_indices(&self) -> (r: Vec<u64>)
        ensures
            r@ == batch_indices(self@.2),
    {
        let mut r: Vec<u64> = Vec::new();
        let mut k: usize = 0;
        while k < self.columns.len()
            invariant
                k <= self.columns.len(),
                r@ == batch_indices(self@.2).take(k as int),
                self@.2 == column_pairs_view(self.columns@),
            decreases self.columns.len() - k,
        {
            r.push(self.columns[k].0);
            k = k + 1;
            assert(r@ =~= batch_indices(self@.2).take(k as int));
        }
        assert(r@ =~= batch_indices(self@.2));
        r
    }

    /// Explode into per-column candidates, in submission order: each carries
    /// the batch's root and context and its own index and payload.
    pub fn into_columns(self) -> (r: Vec<CandidateColumn>)
        ensures
            r.len() == self@.2.len(),
            forall|i: int|
                0 <= i < r.len() ==> {
                    &&& (#[trigger] r[i]).id@ == (self@.0, self@.2[i].0)
                    &&& r[i].context == self@.1
                    &&& r[i].payload@ == self@.2[i].1
                },
    {
        proof {
            use_type_invariant(&self);
        }
        let ghost v = self@;
        let block_root = self.block_root;
        let context = self.context;
        let mut out: Vec<CandidateColumn> = Vec::new();
        let columns = self.columns;
        let ghost all = columns@;
        for pair in it: columns
            invariant
                it.seq() == all,
                v.2 == column_pairs_view(all),
                v.0 == block_root@,
                v.1 == context,
                well_formed_batch(v.2),
                out.len() == it.index(),
                forall|i: int|
                    0 <= i < out.len() ==> {
                        &&& (#[trigger] out[i]).id@ == (v.0, v.2[i].0)
                        &&& out[i].context == v.1
                        &&& out[i].payload@ == v.2[i].1
                    },
        {
            let (index, payload) = pair;
            assert(v.2[it.index() as int].0 < NUMBER_OF_COLUMNS);
            let id = ColumnId::from_checked(block_root, index);
            out.push(CandidateColumn { id, context, payload });
        }
        out
    }

    /// Decompose into `(block_root, context, columns)`: the inverse of
    /// `CandidateBlock::new`, for callers that filter a batch and rebuild it.
    pub fn into_parts(self) -> (r: (Root, ColumnContext, Vec<(u64, Vec<u8>)>))
        ensures
            (r.0@, r.1, column_pairs_view(r.2@)) == self@,
            well_formed_batch(column_pairs_view(r.2@)),
    {
        proof {
            use_type_invariant(&self);
        }
        (self.block_root, self.context, self.columns)
    }
}

/// A batch is accepted exactly when it is well formed: not empty, every
/// index in range, no index twice. So the parts of any batch, handed back to
/// `CandidateBlock::new`, rebuild the same batch.
pub proof fn law_batch_accepted_iff_well_formed(columns: Seq<(u64, Seq<u8>)>)
    ensures
        batch_fault(batch_indices(columns)) is None <==> well_formed_batch(columns),
{
    let indices = batch_indices(columns);
    lemma_no_fault_iff_distinct_in_range(indices, indices.len() as int);
    if batch_fault(indices) is None {
        assert forall|i: int| 0 <= i < columns.len() implies #[trigger] columns[i].0
            < NUMBER_OF_COLUMNS by {
            assert(indices[i] == columns[i].0);
        }
        assert forall|i: int, j: int| 0 <= i < j < columns.len() implies #[trigger] columns[i].0
            != #[trigger] columns[j].0 by {
            assert(indices[i] == columns[i].0 && indices[j] == columns[j].0);
        }
    }
    if well_formed_batch(columns) {
        assert forall|i: int| 0 <= i < indices.len() implies #[trigger] indices[i]
            < NUMBER_OF_COLUMNS by {
            assert(indices[i] == columns[i].0);
        }
        assert forall|i: int, j: int| 0 <= i < j < indices.len() implies #[trigger] indices[i]
            != #[trigger] indices[j] by {
            assert(indices[i] == columns[i].0 && indices[j] == columns[j].0);
        }
    }
}

/// A copy of a byte string.
pub fn copy_bytes(bytes: &Vec<u8>) -> (r: Vec<u8>)
    ensures
        r@ == bytes@,
{
    let r = bytes.clone();
    assert(r@ =~= bytes@);
    r
}

/// A copy of a list of `(column index, payload)` pairs.
pub fn copy_pairs(columns: &Vec<(u64, Vec<u8>)>) -> (r: Vec<(u64, Vec<u8>)>)
    ensures
        column_pairs_view(r@) == column_pairs_view(columns@),
{
    let mut r: Vec<(u64, Vec<u8>)> = Vec::new();
    let mut k: usize = 0;
    while k < columns.len()
        invariant
            k <= columns.len(),
            r.len() == k,
            column_pairs_view(r@) =~= column_pairs_view(columns@).take(k as int),
        decreases columns.len() - k,
    {
        let payload = copy_bytes(&columns[k].1);
        let ghost prev = r@;
        let pair = (columns[k].0, payload);
        r.push(pair);
        proof {
            assert(r@ == prev.push(pair));
            assert(prev.len() == k);
            assert forall|i: int| 0 <= i < k + 1 implies #[trigger] column_pairs_view(r@)[i]
                == column_pairs_view(columns@)[i] by {
                if i < k {
                    assert(r@[i] == prev[i]);
                    assert(column_pairs_view(prev)[i] == column_pairs_view(columns@).take(
                        k as int,
                    )[i]);
                }
            }
        }
        k = k + 1;
        assert(column_pairs_view(r@) =~= column_pairs_view(columns@).take(k as int));
    }
    assert(column_pairs_view(columns@).take(k as int) =~= column_pairs_view(columns@));
    r
}

impl Clone for CandidateBlock {
    fn clone(&self) -> (r: Self)
        ensures
            r@ == self@,
    {
        proof {
            use_type_invariant(self);
        }
        CandidateBlock {
            block_root: self.block_root,
            context: self.context,
            columns: copy_pairs(&self.columns),
        }
    }
}

/// An element is in `s.push(x)` exactly when it is `x` or in `s`.
pub proof fn lemma_push_contains(s: Seq<u64>, x: u64, y: u64)
    ensures
        s.push(x).contains(y) == (s.contains(y) || x == y),
{
    if s.contains(y) {
        let w = choose|w: int| 0 <= w < s.len() && #[trigger] s[w] == y;
        assert(s.push(x)[w] == y);
    }
    if x == y {
        assert(s.push(x)[s.len() as int] == y);
    }
    if s.push(x).contains(y) {
        let w = choose|w: int| 0 <= w < s.len() + 1 && #[trigger] s.push(x)[w] == y;
        if w < s.len() {
            assert(s[w] == y);
        }
    }
}

/// Once a fault appears among the first `n` indices, it stays the first fault
/// of every longer prefix.
pub proof fn lemma_fault_prefix_stable(indices: Seq<u64>, n: int, m: int)
    requires
        0 <= n <= m,
        first_index_fault(indices, n) is Some,
    ensures
        first_index_fault(indices, m) == first_index_fault(indices, n),
    decreases m - n,
{
    if m > n {
        lemma_fault_prefix_stable(indices, n, m - 1);
    }
}

/// Pairwise distinct indices below `NUMBER_OF_COLUMNS` are at most that many.
pub proof fn lemma_distinct_indices_bounded(columns: Seq<(u64, Seq<u8>)>)
    requires
        well_formed_batch(columns),
    ensures
        columns.len() <= NUMBER_OF_COLUMNS,
{
    let ints = columns.map_values(|c: (u64, Seq<u8>)| c.0 as int);
    let s = ints.to_set();
    assert forall|i: int, j: int| 0 <= i < j < ints.len() implies ints[i] != ints[j] by {
        assert(columns[i].0 != columns[j].0);
    }
    assert(ints.no_duplicates());
    ints.unique_seq_to_set();
    let full = vstd::set_lib::set_int_range(0, NUMBER_OF_COLUMNS as int);
    vstd::set_lib::lemma_int_range(0, NUMBER_OF_COLUMNS as int);
    assert forall|x: int| s.contains(x) implies full.contains(x) by {
        let i = choose|i: int| 0 <= i < ints.len() && #[trigger] ints[i] == x;
        assert(columns[i].0 < NUMBER_OF_COLUMNS);
    }
    vstd::set_lib::lemma_len_subset(s, full);
}

/// A column that passed verification: the only kind of column the store
/// accepts.
#[derive(Debug, Clone, PartialEq, Eq)]
pub struct VerifiedColumn {
    id: ColumnId,
    context: ColumnContext,
    payload: Vec<u8>,
}

impl View for VerifiedColumn {
    type V = (ColumnId, ColumnContext, Seq<u8>);

    closed spec fn view(&self) -> Self::V {
        (self.id, self.context, self.payload@)
    }
}

impl VerifiedColumn {
    /// Wrap a column that the caller has verified, or that comes out of
    /// storage where only verified columns are written.
    pub fn new_unchecked(id: ColumnId, context: ColumnContext, payload: Vec<u8>) -> (r: Self)
        ensures
            r@ == (id, context, payload@),
    {
        VerifiedColumn { id, context, payload }
    }

    pub fn id(&self) -> (r: ColumnId)
        ensures
            r == self@.0,
    {
        self.id
    }

    pub fn context(&self) -> (r: ColumnContext)
        ensures
            r == self@.1,
    {
        self.context
    }

    pub fn payload(&self) -> (r: &[u8])
        ensures
            r@ == self@.2,
    {
        self.payload.as_slice()
    }
}

} // verus!
