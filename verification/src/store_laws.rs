use vstd::prelude::*;

use crate::id::NUMBER_OF_COLUMNS;
use crate::store::{
    after_prune, after_put, blocks_kept, columns_below, find_block, lemma_find_after_push,
    lemma_find_at, lemma_find_same_roots, lemma_kept_wf, lookup_block, store_core_wf, stored_column,
    lemma_pruned_count, total_columns, BlockView, InsertOutcome, StoreView,
};

verus! {

/// The block found by its root among the blocks kept at `slot` is the block
/// found among all of them, if its slot is at least `slot`.
pub proof fn lemma_kept_lookup(blocks: Seq<(Seq<u8>, BlockView)>, slot: u64, floor: u64, root: Seq<u8>)
    requires
        store_core_wf(StoreView { blocks, retention_floor: floor }),
    ensures
        lookup_block(StoreView { blocks: blocks_kept(blocks, slot), retention_floor: slot }, root)
            == match lookup_block(StoreView { blocks, retention_floor: floor }, root) {
            Some(b) => if b.slot >= slot {
                Some(b)
            } else {
                None::<BlockView>
            },
            None => None,
        },
    decreases blocks.len(),
{
    if blocks.len() == 0 {
        assert(find_block(blocks, root) is None);
    } else {
        let front = blocks.drop_last();
        let last = blocks.last();
        let fv = StoreView { blocks: front, retention_floor: floor };
        assert(store_core_wf(fv)) by {
            assert forall|a: int, b: int| 0 <= a < b < front.len() implies #[trigger] front[a].0
                != #[trigger] front[b].0 by {
                assert(blocks[a].0 != blocks[b].0);
            }
            assert forall|k: int| 0 <= k < front.len() implies crate::store::block_wf(
                #[trigger] front[k].1,
            ) && front[k].1.slot >= floor by {
                assert(front[k] == blocks[k]);
            }
        }
        lemma_kept_lookup(front, slot, floor, root);
        lemma_kept_lookup(front, slot, floor, last.0);
        lemma_kept_wf(front, slot, floor);
        assert(find_block(front, last.0) is None) by {
            if let Some(k) = find_block(front, last.0) {
                assert(blocks[k].0 != blocks[blocks.len() - 1].0);
            }
        }
        assert(blocks =~= front.push(last));
        lemma_find_after_push(front, last, root);
        let rest = blocks_kept(front, slot);
        if last.1.slot >= slot {
            assert(find_block(rest, last.0) is None);
            lemma_find_after_push(rest, last, root);
        }
    }
}

/// Read after write: once `put` reports `Inserted`, the column is found under
/// its root and index with its payload, in a block whose slot is the one the
/// block already had or, for a block new to the store, the column's own.
pub proof fn law_put_then_get(v: StoreView, root: Seq<u8>, index: u64, slot: u64, payload: Seq<u8>)
    requires
        store_core_wf(v),
    ensures
        after_put(v, root, index, slot, payload).1 == InsertOutcome::Inserted ==> stored_column(
            after_put(v, root, index, slot, payload).0,
            root,
            index,
        ) == Some(
            (
                match lookup_block(v, root) {
                    Some(b) => b.slot,
                    None => slot,
                },
                payload,
            ),
        ),
{
    let v2 = after_put(v, root, index, slot, payload).0;
    if after_put(v, root, index, slot, payload).1 == InsertOutcome::Inserted {
        match find_block(v.blocks, root) {
            Some(k) => {
                lemma_find_same_roots(v.blocks, v2.blocks, root);
            },
            None => {
                lemma_find_after_push(
                    v.blocks,
                    (root, BlockView { slot, columns: Map::empty().insert(index, payload) }),
                    root,
                );
            },
        }
    }
}

/// `put` changes no other column: every column under another root or
/// another index is found exactly as before.
pub proof fn law_put_keeps_other_columns(
    v: StoreView,
    root: Seq<u8>,
    index: u64,
    slot: u64,
    payload: Seq<u8>,
    other_root: Seq<u8>,
    other_index: u64,
)
    requires
        store_core_wf(v),
        other_root != root || other_index != index,
    ensures
        stored_column(after_put(v, root, index, slot, payload).0, other_root, other_index)
            == stored_column(v, other_root, other_index),
{
    let v2 = after_put(v, root, index, slot, payload).0;
    if after_put(v, root, index, slot, payload).1 == InsertOutcome::Inserted {
        match find_block(v.blocks, root) {
            Some(k) => {
                lemma_find_same_roots(v.blocks, v2.blocks, other_root);
            },
            None => {
                lemma_find_after_push(
                    v.blocks,
                    (root, BlockView { slot, columns: Map::empty().insert(index, payload) }),
                    other_root,
                );
            },
        }
    }
}

/// `put` stores a column exactly when its index is in range, its slot is
/// not below the retention floor and the column is not held yet; any other
/// `put` leaves the store as it was. In particular the first stored copy of
/// a column is never replaced.
pub proof fn law_put_inserts_iff_new(v: StoreView, root: Seq<u8>, index: u64, slot: u64, payload: Seq<u8>)
    requires
        store_core_wf(v),
    ensures
        (after_put(v, root, index, slot, payload).1 == InsertOutcome::Inserted) <==> (index
            < NUMBER_OF_COLUMNS && slot >= v.retention_floor && stored_column(v, root, index) is None),
        after_put(v, root, index, slot, payload).1 != InsertOutcome::Inserted ==> after_put(
            v,
            root,
            index,
            slot,
            payload,
        ).0 == v,
        (after_put(v, root, index, slot, payload).1 == InsertOutcome::BelowRetention) <==> (index
            < NUMBER_OF_COLUMNS && slot < v.retention_floor),
{
}

/// Pruning at `slot` raises the floor to `slot` unless it is already higher,
/// then keeps exactly the columns of the blocks whose slot is at least the
/// floor, unchanged.
pub proof fn law_prune_keeps_exactly_blocks_at_or_above(v: StoreView, slot: u64, root: Seq<u8>, index: u64)
    requires
        store_core_wf(v),
    ensures
        after_prune(v, slot).0.retention_floor == if slot < v.retention_floor {
            v.retention_floor
        } else {
            slot
        },
        stored_column(after_prune(v, slot).0, root, index) == match stored_column(v, root, index) {
            Some((s, p)) => if s >= after_prune(v, slot).0.retention_floor {
                Some((s, p))
            } else {
                None::<(u64, Seq<u8>)>
            },
            None => None,
        },
{
    if slot >= v.retention_floor {
        lemma_kept_lookup(v.blocks, slot, v.retention_floor, root);
    } else {
        if let Some(k) = find_block(v.blocks, root) {
            assert(v.blocks[k].1.slot >= v.retention_floor);
        }
    }
}

/// Pruning reports exactly the number of columns it removes: what it reports
/// and what the store holds after add up to what the store held before,
/// counting each block's columns as the size of its set of stored indices.
pub proof fn law_prune_reports_removed_columns(v: StoreView, slot: u64)
    ensures
        after_prune(v, slot).1 + total_columns(after_prune(v, slot).0.blocks) == total_columns(v.blocks),
{
    lemma_pruned_count(v.blocks, slot);
}

/// Pruning twice at the same slot: the second time changes nothing and
/// removes nothing.
pub proof fn law_prune_is_idempotent(v: StoreView, slot: u64)
    requires
        store_core_wf(v),
    ensures
        after_prune(after_prune(v, slot).0, slot).0 =~~= after_prune(v, slot).0,
        after_prune(after_prune(v, slot).0, slot).1 == 0,
{
    if slot >= v.retention_floor {
        lemma_kept_twice(v.blocks, slot);
        lemma_nothing_below_in_kept(v.blocks, slot);
    }
}

/// After pruning at `slot`, a column of an older slot is refused.
pub proof fn law_pruned_slots_are_refused(
    v: StoreView,
    slot: u64,
    root: Seq<u8>,
    index: u64,
    column_slot: u64,
    payload: Seq<u8>,
)
    requires
        store_core_wf(v),
        index < NUMBER_OF_COLUMNS,
        column_slot < slot,
    ensures
        after_put(after_prune(v, slot).0, root, index, column_slot, payload).1
            == InsertOutcome::BelowRetention,
{
}

/// Every `put` keeps the invariant of the stored blocks and columns: one
/// entry per root, every block with at least one column, every column index
/// below `NUMBER_OF_COLUMNS`, every block at or above the retention floor.
pub proof fn law_put_keeps_invariant(v: StoreView, root: Seq<u8>, index: u64, slot: u64, payload: Seq<u8>)
    requires
        store_core_wf(v),
    ensures
        store_core_wf(after_put(v, root, index, slot, payload).0),
{
    let v2 = after_put(v, root, index, slot, payload).0;
    if after_put(v, root, index, slot, payload).1 == InsertOutcome::Inserted {
        match find_block(v.blocks, root) {
            Some(k) => {
                lemma_find_same_roots(v.blocks, v2.blocks, root);
                assert forall|j: int| 0 <= j < v2.blocks.len() implies crate::store::block_wf(
                    #[trigger] v2.blocks[j].1,
                ) && v2.blocks[j].1.slot >= v2.retention_floor by {
                    if j == k {
                        assert(v2.blocks[j].1.columns.dom() =~= v.blocks[k].1.columns.dom().insert(index));
                    } else {
                        assert(v2.blocks[j] == v.blocks[j]);
                    }
                }
            },
            None => {
                let entry = (root, BlockView { slot, columns: Map::empty().insert(index, payload) });
                lemma_find_after_push(v.blocks, entry, root);
                assert forall|j: int| 0 <= j < v2.blocks.len() implies crate::store::block_wf(
                    #[trigger] v2.blocks[j].1,
                ) && v2.blocks[j].1.slot >= v2.retention_floor by {
                    if j < v.blocks.len() {
                        assert(v2.blocks[j] == v.blocks[j]);
                    } else {
                        assert(entry.1.columns.dom() =~= set![index]);
                    }
                }
            },
        }
    }
}

/// Every pruning keeps the invariant of the stored blocks and columns.
pub proof fn law_prune_keeps_invariant(v: StoreView, slot: u64)
    requires
        store_core_wf(v),
    ensures
        store_core_wf(after_prune(v, slot).0),
{
    if slot >= v.retention_floor {
        lemma_kept_wf(v.blocks, slot, v.retention_floor);
    }
}

/// The retention floor never decreases: `put` leaves it as it is, and pruning
/// at `slot` sets it to the larger of itself and `slot`.
pub proof fn law_floor_never_decreases(v: StoreView, slot: u64, root: Seq<u8>, index: u64, column_slot: u64, payload: Seq<u8>)
    ensures
        after_put(v, root, index, column_slot, payload).0.retention_floor == v.retention_floor,
        after_prune(v, slot).0.retention_floor == if slot < v.retention_floor {
            v.retention_floor
        } else {
            slot
        },
        after_prune(v, slot).0.retention_floor >= v.retention_floor,
{
}

/// Keeping twice at one slot keeps what keeping once did.
pub proof fn lemma_kept_twice(blocks: Seq<(Seq<u8>, BlockView)>, slot: u64)
    ensures
        blocks_kept(blocks_kept(blocks, slot), slot) == blocks_kept(blocks, slot),
    decreases blocks.len(),
{
    if blocks.len() > 0 {
        lemma_kept_twice(blocks.drop_last(), slot);
        let rest = blocks_kept(blocks.drop_last(), slot);
        if blocks.last().1.slot >= slot {
            let kept = rest.push(blocks.last());
            assert(kept.drop_last() =~= rest);
        }
    }
}

/// The blocks kept at `slot` hold no column below it.
pub proof fn lemma_nothing_below_in_kept(blocks: Seq<(Seq<u8>, BlockView)>, slot: u64)
    ensures
        columns_below(blocks_kept(blocks, slot), slot) == 0,
    decreases blocks.len(),
{
    if blocks.len() > 0 {
        lemma_nothing_below_in_kept(blocks.drop_last(), slot);
        let rest = blocks_kept(blocks.drop_last(), slot);
        if blocks.last().1.slot >= slot {
            let kept = rest.push(blocks.last());
            assert(kept.drop_last() =~= rest);
        }
    }
}

} // verus!
