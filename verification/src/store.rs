use vstd::prelude::*;

use std::collections::BTreeMap;

use crate::availability::DaAvailability;
use crate::bits::{bit_set, lemma_empty_map_has_no_bit, lemma_set_bit};
use crate::column::{copy_bytes, ColumnContext, VerifiedColumn};
use crate::error::DaStoreError;
use crate::id::{ColumnId, Root, ALL_COLUMNS_MASK, NUMBER_OF_COLUMNS};

verus! {

/// What `put` did with a column.
#[derive(Debug, Clone, Copy, PartialEq, Eq, Structural)]
pub enum InsertOutcome {
    /// The column was stored.
    Inserted,
    /// The store already holds this column (or its index is out of range):
    /// the stored column is kept.
    Duplicated,
    /// The column's slot is below the retention floor: it is not stored.
    BelowRetention,
}

/// The view of one block's stored columns: the block's slot and its payloads
/// by column index.
#[verifier::ext_equal]
pub struct BlockView {
    pub slot: u64,
    pub columns: Map<u64, Seq<u8>>,
}

/// A block's slot plus its stored columns, keyed by column index.
#[derive(Debug, Default)]
pub struct BlockEntry {
    slot: u64,
    columns: BTreeMap<u64, Vec<u8>>,
}

impl View for BlockEntry {
    type V = BlockView;

    closed spec fn view(&self) -> BlockView {
        BlockView { slot: self.slot, columns: self.columns@.map_values(|p: Vec<u8>| p@) }
    }
}

/// What every stored block satisfies: a finite, non-empty set of columns,
/// all with an index below `NUMBER_OF_COLUMNS`.
pub open spec fn block_wf(b: BlockView) -> bool {
    &&& b.columns.dom().finite()
    &&& b.columns.dom().len() > 0
    &&& forall|i: u64| #[trigger] b.columns.contains_key(i) ==> i < NUMBER_OF_COLUMNS
}

impl BlockEntry {
    /// Presence bitmap derived from the stored indices, so it can never drift
    /// out of sync with the payloads themselves: bit `i` is set exactly when
    /// column `i` is stored.
    pub fn held(&self) -> (r: u128)
        ensures
            forall|i: u64|
                i < NUMBER_OF_COLUMNS ==> (bit_set(r, i as u128) <==> #[trigger] self@.columns.contains_key(i)),
    {
        let mut bits: u128 = 0;
        let mut i: u64 = 0;
        proof {
            assert forall|j: u128| j < 128 implies (#[trigger] bit_set(bits, j) <==> (j < i
                && self@.columns.contains_key(j as u64))) by {
                lemma_empty_map_has_no_bit(j);
            }
        }
        while i < NUMBER_OF_COLUMNS
            invariant
                i <= NUMBER_OF_COLUMNS,
                forall|j: u128|
                    j < 128 ==> (#[trigger] bit_set(bits, j) <==> (j < i
                        && self@.columns.contains_key(j as u64))),
            decreases NUMBER_OF_COLUMNS - i,
        {
            let ghost old_bits = bits;
            let present = self.columns.contains_key(&i);
            let shift: u128 = i as u128;
            if present {
                bits = bits | (1u128 << shift);
            }
            proof {
                assert forall|j: u128| j < 128 implies (#[trigger] bit_set(bits, j) <==> (j < i + 1
                    && self@.columns.contains_key(j as u64))) by {
                    lemma_set_bit(old_bits, shift, j);
                    assert(bit_set(old_bits, j) <==> (j < i && self@.columns.contains_key(j as u64)));
                }
            }
            i = i + 1;
        }
        proof {
            assert forall|k: u64| k < NUMBER_OF_COLUMNS implies (bit_set(bits, k as u128)
                <==> #[trigger] self@.columns.contains_key(k)) by {
                assert(bit_set(bits, k as u128) <==> (k < i && self@.columns.contains_key(
                    (k as u128) as u64,
                )));
            }
        }
        bits
    }
}

/// Greatest number of blocks the store can hold while every count of its
/// columns still fits in a `usize`.
pub const MAX_BLOCKS: usize = usize::MAX / 128;

/// Non-persistent column store: one entry per block root, each with the
/// block's slot (fixed by its first stored column) and its columns, plus the
/// retention floor below which nothing is kept. Exclusive access (`&mut`)
/// makes every compound update all-or-nothing. The blocks are a list with
/// one entry per root (see `roots_distinct`) rather than a hash map: vstd
/// models a hash map's keys only for primitive key types, and a root is 32
/// bytes.
pub struct DaMemoryStore {
    blocks: Vec<(Root, BlockEntry)>,
    retention_floor: u64,
}

/// The view of the store: its blocks by root, in the order they were first
/// stored, and its retention floor.
#[verifier::ext_equal]
pub struct StoreView {
    pub blocks: Seq<(Seq<u8>, BlockView)>,
    pub retention_floor: u64,
}

pub open spec fn entry_view(e: (Root, BlockEntry)) -> (Seq<u8>, BlockView) {
    (e.0@, e.1@)
}

impl View for DaMemoryStore {
    type V = StoreView;

    closed spec fn view(&self) -> StoreView {
        StoreView {
            blocks: self.blocks@.map_values(|e: (Root, BlockEntry)| entry_view(e)),
            retention_floor: self.retention_floor,
        }
    }
}

/// The position of the block with this root, if one is stored.
pub open spec fn find_block(blocks: Seq<(Seq<u8>, BlockView)>, root: Seq<u8>) -> Option<int> {
    if exists|k: int| 0 <= k < blocks.len() && #[trigger] blocks[k].0 == root {
        Some(choose|k: int| 0 <= k < blocks.len() && #[trigger] blocks[k].0 == root)
    } else {
        None
    }
}

/// The stored block with this root, if any.
pub open spec fn lookup_block(v: StoreView, root: Seq<u8>) -> Option<BlockView> {
    match find_block(v.blocks, root) {
        Some(k) => Some(v.blocks[k].1),
        None => None,
    }
}

/// The slot of the block and the payload stored for this column, if any.
pub open spec fn stored_column(v: StoreView, root: Seq<u8>, index: u64) -> Option<(u64, Seq<u8>)> {
    match lookup_block(v, root) {
        Some(b) => if b.columns.contains_key(index) {
            Some((b.slot, b.columns[index]))
        } else {
            None
        },
        None => None,
    }
}

pub open spec fn roots_distinct(blocks: Seq<(Seq<u8>, BlockView)>) -> bool {
    forall|a: int, b: int| 0 <= a < b < blocks.len() ==> #[trigger] blocks[a].0 != #[trigger] blocks[b].0
}

/// What every stored block and column satisfies: one entry per root, every
/// block well formed (at least one column, every index below
/// `NUMBER_OF_COLUMNS`) and at or above the retention floor.
pub open spec fn store_core_wf(v: StoreView) -> bool {
    &&& roots_distinct(v.blocks)
    &&& forall|k: int|
        0 <= k < v.blocks.len() ==> block_wf(#[trigger] v.blocks[k].1) && v.blocks[k].1.slot
            >= v.retention_floor
}

/// The store's invariant: the invariant of its blocks and columns, and no
/// more blocks than `MAX_BLOCKS`, so that every count of its columns fits in
/// a `usize`.
pub open spec fn store_wf(v: StoreView) -> bool {
    &&& store_core_wf(v)
    &&& v.blocks.len() <= MAX_BLOCKS
}

/// The store and outcome after `put` of a column with this root, index, slot
/// and payload.
pub open spec fn after_put(v: StoreView, root: Seq<u8>, index: u64, slot: u64, payload: Seq<u8>) -> (
    StoreView,
    InsertOutcome,
) {
    if index >= NUMBER_OF_COLUMNS {
        (v, InsertOutcome::Duplicated)
    } else if slot < v.retention_floor {
        (v, InsertOutcome::BelowRetention)
    } else {
        match find_block(v.blocks, root) {
            Some(k) => if v.blocks[k].1.columns.contains_key(index) {
                (v, InsertOutcome::Duplicated)
            } else {
                (
                    StoreView {
                        blocks: v.blocks.update(
                            k,
                            (
                                root,
                                BlockView {
                                    slot: v.blocks[k].1.slot,
                                    columns: v.blocks[k].1.columns.insert(index, payload),
                                },
                            ),
                        ),
                        retention_floor: v.retention_floor,
                    },
                    InsertOutcome::Inserted,
                )
            },
            None => (
                StoreView {
                    blocks: v.blocks.push(
                        (root, BlockView { slot, columns: Map::empty().insert(index, payload) }),
                    ),
                    retention_floor: v.retention_floor,
                },
                InsertOutcome::Inserted,
            ),
        }
    }
}

/// The blocks whose slot is at least `slot`, in order.
pub open spec fn blocks_kept(blocks: Seq<(Seq<u8>, BlockView)>, slot: u64) -> Seq<(Seq<u8>, BlockView)>
    decreases blocks.len(),
{
    if blocks.len() == 0 {
        blocks
    } else {
        let rest = blocks_kept(blocks.drop_last(), slot);
        if blocks.last().1.slot >= slot {
            rest.push(blocks.last())
        } else {
            rest
        }
    }
}

/// How many columns the blocks below `slot` hold together.
pub open spec fn columns_below(blocks: Seq<(Seq<u8>, BlockView)>, slot: u64) -> nat
    decreases blocks.len(),
{
    if blocks.len() == 0 {
        0
    } else {
        columns_below(blocks.drop_last(), slot) + if blocks.last().1.slot < slot {
            blocks.last().1.columns.len()
        } else {
            0
        }
    }
}

/// How many columns the blocks hold together: the sum of the sizes of their
/// column sets.
pub open spec fn total_columns(blocks: Seq<(Seq<u8>, BlockView)>) -> nat
    decreases blocks.len(),
{
    if blocks.len() == 0 {
        0
    } else {
        total_columns(blocks.drop_last()) + blocks.last().1.columns.dom().len()
    }
}

/// The columns counted as below `slot` are exactly the ones that keeping the
/// blocks at or above `slot` loses.
pub proof fn lemma_pruned_count(blocks: Seq<(Seq<u8>, BlockView)>, slot: u64)
    ensures
        columns_below(blocks, slot) + total_columns(blocks_kept(blocks, slot)) == total_columns(blocks),
    decreases blocks.len(),
{
    if blocks.len() > 0 {
        lemma_pruned_count(blocks.drop_last(), slot);
        let rest = blocks_kept(blocks.drop_last(), slot);
        if blocks.last().1.slot >= slot {
            assert(rest.push(blocks.last()).drop_last() =~= rest);
        }
    }
}

/// The store and the count of removed columns after `prune_below_slot(slot)`.
pub open spec fn after_prune(v: StoreView, slot: u64) -> (StoreView, nat) {
    if slot < v.retention_floor {
        (v, 0)
    } else {
        (
            StoreView { blocks: blocks_kept(v.blocks, slot), retention_floor: slot },
            columns_below(v.blocks, slot),
        )
    }
}

/// In a store with distinct roots, the block at position `k` is the one
/// found by its root.
pub proof fn lemma_find_at(blocks: Seq<(Seq<u8>, BlockView)>, k: int)
    requires
        roots_distinct(blocks),
        0 <= k < blocks.len(),
    ensures
        find_block(blocks, blocks[k].0) == Some(k),
{
    let root = blocks[k].0;
    assert(exists|j: int| 0 <= j < blocks.len() && #[trigger] blocks[j].0 == root);
    let c = choose|j: int| 0 <= j < blocks.len() && #[trigger] blocks[j].0 == root;
    if c != k {
        if c < k {
            assert(blocks[c].0 != blocks[k].0);
        } else {
            assert(blocks[k].0 != blocks[c].0);
        }
    }
}

/// Changing what blocks hold, but not their roots, finds every root where it was.
pub proof fn lemma_find_same_roots(
    old_blocks: Seq<(Seq<u8>, BlockView)>,
    new_blocks: Seq<(Seq<u8>, BlockView)>,
    root: Seq<u8>,
)
    requires
        roots_distinct(old_blocks),
        old_blocks.len() == new_blocks.len(),
        forall|i: int| 0 <= i < old_blocks.len() ==> #[trigger] new_blocks[i].0 == old_blocks[i].0,
    ensures
        roots_distinct(new_blocks),
        find_block(new_blocks, root) == find_block(old_blocks, root),
{
    assert forall|a: int, b: int| 0 <= a < b < new_blocks.len() implies #[trigger] new_blocks[a].0
        != #[trigger] new_blocks[b].0 by {
        assert(old_blocks[a].0 != old_blocks[b].0);
    }
    if let Some(k) = find_block(old_blocks, root) {
        lemma_find_at(old_blocks, k);
        lemma_find_at(new_blocks, k);
    } else {
        if let Some(k) = find_block(new_blocks, root) {
            assert(old_blocks[k].0 == root);
        }
    }
}

/// Appending a block with a new root finds it at the end and every other
/// root where it was.
pub proof fn lemma_find_after_push(
    blocks: Seq<(Seq<u8>, BlockView)>,
    entry: (Seq<u8>, BlockView),
    root: Seq<u8>,
)
    requires
        roots_distinct(blocks),
        find_block(blocks, entry.0) is None,
    ensures
        roots_distinct(blocks.push(entry)),
        find_block(blocks.push(entry), root) == if root == entry.0 {
            Some(blocks.len() as int)
        } else {
            find_block(blocks, root)
        },
{
    let nb = blocks.push(entry);
    assert forall|a: int, b: int| 0 <= a < b < nb.len() implies #[trigger] nb[a].0
        != #[trigger] nb[b].0 by {
        if b == blocks.len() {
            if nb[a].0 == entry.0 {
                assert(blocks[a].0 == entry.0);
            }
        } else {
            assert(blocks[a].0 != blocks[b].0);
        }
    }
    if root == entry.0 {
        lemma_find_at(nb, blocks.len() as int);
    } else {
        if let Some(k) = find_block(blocks, root) {
            lemma_find_at(blocks, k);
            assert(nb[k] == blocks[k]);
            lemma_find_at(nb, k);
        } else {
            if let Some(k) = find_block(nb, root) {
                assert(blocks[k].0 == root);
            }
        }
    }
}

/// A map whose keys are all below `NUMBER_OF_COLUMNS` has at most that many keys.
pub proof fn lemma_columns_bounded(m: Map<u64, Seq<u8>>)
    requires
        m.dom().finite(),
        forall|i: u64| #[trigger] m.contains_key(i) ==> i < NUMBER_OF_COLUMNS,
    ensures
        m.dom().len() <= NUMBER_OF_COLUMNS,
{
    let f = |k: u64| k as int;
    let ints = m.dom().map(f);
    vstd::set_lib::lemma_map_size(m.dom(), ints, f);
    let full = vstd::set_lib::set_int_range(0, NUMBER_OF_COLUMNS as int);
    vstd::set_lib::lemma_int_range(0, NUMBER_OF_COLUMNS as int);
    assert forall|x: int| ints.contains(x) implies full.contains(x) by {
        let k = choose|k: u64| m.dom().contains(k) && f(k) == x;
        assert(m.contains_key(k));
    }
    vstd::set_lib::lemma_len_subset(ints, full);
}

impl DaMemoryStore {
    /// The store's invariant; every operation keeps it.
    pub open spec fn wf(&self) -> bool {
        store_wf(self@)
    }

    /// An empty store with retention floor 0.
    pub fn new() -> (r: Self)
        ensures
            r.wf(),
            r@.blocks.len() == 0,
            r@.retention_floor == 0,
    {
        DaMemoryStore { blocks: Vec::new(), retention_floor: 0 }
    }

    /// Number of blocks the store holds.
    pub fn block_count(&self) -> (r: usize)
        ensures
            r == self@.blocks.len(),
    {
        self.blocks.len()
    }

    /// Position of the block with this root.
    fn position(&self, root: &Root) -> (r: Option<usize>)
        requires
            self.wf(),
        ensures
            match r {
                Some(k) => k < self@.blocks.len() && find_block(self@.blocks, root@) == Some(k as int),
                None => find_block(self@.blocks, root@) is None,
            },
    {
        let mut k: usize = 0;
        while k < self.blocks.len()
            invariant
                self.wf(),
                k <= self.blocks.len(),
                self@.blocks.len() == self.blocks.len(),
                forall|j: int| 0 <= j < k ==> #[trigger] self@.blocks[j].0 != root@,
            decreases self.blocks.len() - k,
        {
            assert(self@.blocks[k as int].0 == self.blocks@[k as int].0@);
            if self.blocks[k].0.same_as(root) {
                proof {
                    lemma_find_at(self@.blocks, k as int);
                }
                return Some(k);
            }
            k = k + 1;
        }
        None
    }

    /// The stored column with this id, if any. Its context carries the slot
    /// of its block.
    pub fn get(&self, id: &ColumnId) -> (r: Result<Option<VerifiedColumn>, DaStoreError>)
        requires
            self.wf(),
        ensures
            match stored_column(self@, id@.0, id@.1) {
                Some((slot, payload)) => r matches Ok(Some(c)) && c@ == (*id, ColumnContext { slot }, payload),
                None => r matches Ok(None),
            },
    {
        let root = id.block_root();
        let index = id.index();
        match self.position(&root) {
            None => Ok(None),
            Some(k) => {
                let entry = &self.blocks[k].1;
                assert(entry@ == self@.blocks[k as int].1);
                match entry.columns.get(&index) {
                    None => Ok(None),
                    Some(payload) => {
                        let copy = copy_bytes(payload);
                        Ok(
                            Some(
                                VerifiedColumn::new_unchecked(
                                    *id,
                                    ColumnContext { slot: entry.slot },
                                    copy,
                                ),
                            ),
                        )
                    },
                }
            },
        }
    }

    /// Which columns of the block with this root are held: all of them are
    /// expected.
    pub fn availability(&self, block_root: Root) -> (r: Result<DaAvailability, DaStoreError>)
        requires
            self.wf(),
        ensures
            r matches Ok(a) && a.expected_spec() == ALL_COLUMNS_MASK && forall|i: u64|
                i < NUMBER_OF_COLUMNS ==> (bit_set(a.held_spec(), i as u128) <==> #[trigger] stored_column(
                    self@,
                    block_root@,
                    i,
                ) is Some),
    {
        let held = match self.position(&block_root) {
            Some(k) => {
                assert(self.blocks@[k as int].1@ == self@.blocks[k as int].1);
                self.blocks[k].1.held()
            },
            None => 0u128,
        };
        proof {
            assert forall|i: u64| i < NUMBER_OF_COLUMNS implies (bit_set(held, i as u128)
                <==> #[trigger] stored_column(self@, block_root@, i) is Some) by {
                lemma_empty_map_has_no_bit(i as u128);
            }
        }
        Ok(DaAvailability::new(held, ALL_COLUMNS_MASK))
    }

    /// Slot below which columns are neither kept nor accepted.
    pub fn get_retention_floor(&self) -> (r: u64)
        ensures
            r == self@.retention_floor,
    {
        self.retention_floor
    }

    pub fn is_below_retention(&self, slot: u64) -> (r: bool)
        ensures
            r == (slot < self@.retention_floor),
    {
        slot < self.get_retention_floor()
    }

    /// Store a verified column. An index out of range is refused as
    /// `Duplicated` (it must not be shifted into a bitmap); a slot below the
    /// retention floor as `BelowRetention`; a column already held as
    /// `Duplicated`, keeping the stored one. A block's slot is fixed by its
    /// first stored column.
    pub fn put(&mut self, column: VerifiedColumn) -> (r: Result<InsertOutcome, DaStoreError>)
        requires
            old(self).wf(),
            old(self)@.blocks.len() < MAX_BLOCKS,
        ensures
            final(self).wf(),
            r matches Ok(outcome) && (final(self)@, outcome) =~~= after_put(
                old(self)@,
                column@.0@.0,
                column@.0@.1,
                column@.1.slot,
                column@.2,
            ),
    {
        let id = column.id();
        let index = id.index();
        if index >= NUMBER_OF_COLUMNS {
            return Ok(InsertOutcome::Duplicated);
        }
        let slot = column.context().slot;
        if slot < self.retention_floor {
            return Ok(InsertOutcome::BelowRetention);
        }
        let root = id.block_root();
        match self.position(&root) {
            Some(k) => {
                assert(self.blocks@[k as int].1@ == self@.blocks[k as int].1);
                if self.blocks[k].1.columns.contains_key(&index) {
                    return Ok(InsertOutcome::Duplicated);
                }
                let payload = vstd::slice::slice_to_vec(column.payload());
                let ghost before = self.blocks@;
                self.blocks[k].1.columns.insert(index, payload);
                proof {
                    let v0 = old(self)@;
                    let expected = after_put(v0, root@, index, slot, column@.2).0;
                    assert(self.blocks@.len() == before.len());
                    assert forall|i: int| 0 <= i < self.blocks@.len() && i != k implies #[trigger] self.blocks@[i]
                        == before[i] by {}
                    assert(self.blocks@[k as int].1.columns@ == before[k as int].1.columns@.insert(index, payload));
                    assert(self.blocks@[k as int].1@.columns =~= v0.blocks[k as int].1.columns.insert(index, column@.2));
                    assert(self@.blocks =~~= expected.blocks);
                    lemma_find_same_roots(v0.blocks, self@.blocks, root@);
                    assert forall|j: int| 0 <= j < self@.blocks.len() implies block_wf(#[trigger] self@.blocks[j].1)
                        && self@.blocks[j].1.slot >= self@.retention_floor by {
                        if j != k {
                            assert(self@.blocks[j] == v0.blocks[j]);
                        }
                    }
                }
                Ok(InsertOutcome::Inserted)
            },
            None => {
                let mut columns: BTreeMap<u64, Vec<u8>> = BTreeMap::new();
                let payload = vstd::slice::slice_to_vec(column.payload());
                columns.insert(index, payload);
                let ghost before = self.blocks@;
                let entry = BlockEntry { slot, columns };
                assert(entry@.columns =~= Map::empty().insert(index, column@.2));
                self.blocks.push((root, entry));
                proof {
                    let v0 = old(self)@;
                    let expected = after_put(v0, root@, index, slot, column@.2).0;
                    assert(self@.blocks =~~= expected.blocks);
                    lemma_find_after_push(v0.blocks, (root@, entry@), root@);
                    assert forall|j: int| 0 <= j < self@.blocks.len() implies block_wf(#[trigger] self@.blocks[j].1)
                        && self@.blocks[j].1.slot >= self@.retention_floor by {
                        if j < v0.blocks.len() {
                            assert(self@.blocks[j] == v0.blocks[j]);
                        } else {
                            assert(entry@.columns.dom() =~= set![index]);
                        }
                    }
                }
                Ok(InsertOutcome::Inserted)
            },
        }
    }

    /// Raise the retention floor to `slot` and drop every block whose slot is
    /// below it, returning how many columns went with them. A `slot` below
    /// the current floor changes nothing and removes nothing.
    pub fn prune_below_slot(&mut self, slot: u64) -> (r: Result<usize, DaStoreError>)
        requires
            old(self).wf(),
        ensures
            final(self).wf(),
            r matches Ok(removed) && removed == after_prune(old(self)@, slot).1,
            final(self)@ =~~= after_prune(old(self)@, slot).0,
            r matches Ok(removed) && removed + total_columns(final(self)@.blocks) == total_columns(
                old(self)@.blocks,
            ),
    {
        proof {
            lemma_pruned_count(old(self)@.blocks, slot);
        }
        if slot < self.retention_floor {
            return Ok(0);
        }
        self.retention_floor = slot;
        let mut old_blocks: Vec<(Root, BlockEntry)> = Vec::new();
        std::mem::swap(&mut old_blocks, &mut self.blocks);
        let ghost all = old_blocks@;
        let ghost all_view = old(self)@.blocks;
        let mut removed: usize = 0;
        for entry in it: old_blocks
            invariant
                it.seq() == all,
                all_view == all.map_values(|e: (Root, BlockEntry)| entry_view(e)),
                store_wf(old(self)@),
                all_view == old(self)@.blocks,
                self.retention_floor == slot,
                self@.blocks =~~= blocks_kept(all_view.take(it.index() as int), slot),
                removed == columns_below(all_view.take(it.index() as int), slot),
                removed <= NUMBER_OF_COLUMNS * it.index(),
                it.index() <= all.len(),
        {
            let ghost i = it.index() as int;
            proof {
                assert(all_view.take(i + 1).drop_last() =~= all_view.take(i));
                assert(all_view.take(i + 1).last() == all_view[i]);
                assert(entry_view(entry) == all_view[i]);
                assert(block_wf(all_view[i].1));
                lemma_columns_bounded(all_view[i].1.columns);
                assert(NUMBER_OF_COLUMNS * i + NUMBER_OF_COLUMNS == NUMBER_OF_COLUMNS * (i + 1)) by (nonlinear_arith);
                assert(NUMBER_OF_COLUMNS * (i + 1) <= NUMBER_OF_COLUMNS * all.len()) by (nonlinear_arith)
                    requires i + 1 <= all.len();
                assert(NUMBER_OF_COLUMNS * all.len() <= usize::MAX) by (nonlinear_arith)
                    requires all.len() <= MAX_BLOCKS;
            }
            if entry.1.slot < slot {
                let count = entry.1.columns.len();
                assert(all_view[i].1.columns.dom() =~= entry.1.columns@.dom());
                assert(count == all_view[i].1.columns.dom().len());
                removed = removed + count;
            } else {
                let ghost before = self@.blocks;
                self.blocks.push(entry);
                proof {
                    assert(self@.blocks =~~= before.push(all_view[i]));
                }
            }
        }
        proof {
            assert(all_view.take(all.len() as int) =~= all_view);
            lemma_kept_wf(all_view, slot, old(self)@.retention_floor);
        }
        Ok(removed)
    }
}

/// Every block kept is one of the blocks it was kept from.
pub proof fn lemma_kept_from(blocks: Seq<(Seq<u8>, BlockView)>, slot: u64, j: int)
    requires
        0 <= j < blocks_kept(blocks, slot).len(),
    ensures
        exists|i: int| 0 <= i < blocks.len() && #[trigger] blocks[i] == blocks_kept(blocks, slot)[j],
        blocks_kept(blocks, slot)[j].1.slot >= slot,
    decreases blocks.len(),
{
    let rest = blocks_kept(blocks.drop_last(), slot);
    if j < rest.len() {
        lemma_kept_from(blocks.drop_last(), slot, j);
        let i = choose|i: int| 0 <= i < blocks.drop_last().len() && #[trigger] blocks.drop_last()[i] == rest[j];
        assert(blocks[i] == blocks.drop_last()[i]);
    } else {
        assert(blocks[blocks.len() - 1] == blocks.last());
    }
}

/// Keeping the blocks at or above `slot` out of a well-formed store, and
/// raising the floor to `slot`, gives a well-formed store.
pub proof fn lemma_kept_wf(blocks: Seq<(Seq<u8>, BlockView)>, slot: u64, floor: u64)
    requires
        store_core_wf(StoreView { blocks, retention_floor: floor }),
    ensures
        store_core_wf(StoreView { blocks: blocks_kept(blocks, slot), retention_floor: slot }),
        blocks_kept(blocks, slot).len() <= blocks.len(),
    decreases blocks.len(),
{
    if blocks.len() > 0 {
        let front = blocks.drop_last();
        assert(store_core_wf(StoreView { blocks: front, retention_floor: floor })) by {
            assert forall|a: int, b: int| 0 <= a < b < front.len() implies #[trigger] front[a].0
                != #[trigger] front[b].0 by {
                assert(blocks[a].0 != blocks[b].0);
            }
            assert forall|k: int| 0 <= k < front.len() implies block_wf(#[trigger] front[k].1)
                && front[k].1.slot >= floor by {
                assert(front[k] == blocks[k]);
            }
        }
        lemma_kept_wf(front, slot, floor);
        let rest = blocks_kept(front, slot);
        let kept = blocks_kept(blocks, slot);
        if blocks.last().1.slot >= slot {
            assert(kept == rest.push(blocks.last()));
            assert forall|a: int, b: int| 0 <= a < b < kept.len() implies #[trigger] kept[a].0
                != #[trigger] kept[b].0 by {
                if b == rest.len() {
                    lemma_kept_from(front, slot, a);
                    let i = choose|i: int| 0 <= i < front.len() && #[trigger] front[i] == rest[a];
                    assert(blocks[i] == front[i]);
                    assert(blocks[i].0 != blocks[blocks.len() - 1].0);
                } else {
                    assert(kept[a] == rest[a] && kept[b] == rest[b]);
                }
            }
            assert forall|k: int| 0 <= k < kept.len() implies block_wf(#[trigger] kept[k].1)
                && kept[k].1.slot >= slot by {
                if k < rest.len() {
                    assert(kept[k] == rest[k]);
                } else {
                    assert(blocks[blocks.len() - 1] == blocks.last());
                }
            }
        }
    }
}

} // verus!
