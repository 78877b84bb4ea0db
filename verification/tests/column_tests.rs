use ream_da::column::{CandidateBlock, ColumnContext, VerifiedColumn};
use ream_da::error::ValidationError;
use ream_da::id::{ColumnId, Root, NUMBER_OF_COLUMNS};

fn root(byte: u8) -> Root {
    Root([byte; 32])
}

#[test]
fn column_id_accepts_indices_below_the_column_count() {
    let id = ColumnId::new(root(7), 127).unwrap();
    assert_eq!(id.index(), 127);
    assert_eq!(id.block_root(), root(7));
}

#[test]
fn column_id_rejects_the_column_count() {
    assert_eq!(
        ColumnId::new(root(7), NUMBER_OF_COLUMNS),
        Err(ValidationError::InvalidColumnIndex {
            column_index: 128,
            number_of_columns: 128,
        })
    );
}

#[test]
fn column_ids_compare_by_root_and_index() {
    let a = ColumnId::new(root(1), 3).unwrap();
    assert!(a.same_as(&ColumnId::new(root(1), 3).unwrap()));
    assert!(!a.same_as(&ColumnId::new(root(2), 3).unwrap()));
    assert!(!a.same_as(&ColumnId::new(root(1), 4).unwrap()));
    let mut other = [1u8; 32];
    other[31] = 9;
    assert!(!root(1).same_as(&Root(other)));
    assert!(root(1).same_as(&root(1)));
}

#[test]
fn empty_batch_is_refused() {
    let r = CandidateBlock::new(root(1), ColumnContext { slot: 5 }, vec![]);
    assert_eq!(r, Err(ValidationError::EmptyBatch));
}

#[test]
fn batch_with_out_of_range_index_is_refused() {
    let r = CandidateBlock::new(
        root(1),
        ColumnContext { slot: 5 },
        vec![(3, vec![1]), (200, vec![2])],
    );
    assert_eq!(
        r,
        Err(ValidationError::InvalidColumnIndex {
            column_index: 200,
            number_of_columns: 128,
        })
    );
}

#[test]
fn batch_with_duplicate_index_is_refused() {
    let r = CandidateBlock::new(
        root(1),
        ColumnContext { slot: 5 },
        vec![(3, vec![1]), (4, vec![2]), (3, vec![3])],
    );
    assert_eq!(r, Err(ValidationError::DuplicateColumnIndex { column_index: 3 }));
}

#[test]
fn batch_reports_the_first_fault_in_submission_order() {
    let r = CandidateBlock::new(
        root(1),
        ColumnContext { slot: 5 },
        vec![(9, vec![]), (9, vec![]), (300, vec![])],
    );
    assert_eq!(r, Err(ValidationError::DuplicateColumnIndex { column_index: 9 }));
    let r = CandidateBlock::new(
        root(1),
        ColumnContext { slot: 5 },
        vec![(128, vec![]), (9, vec![]), (9, vec![])],
    );
    assert_eq!(
        r,
        Err(ValidationError::InvalidColumnIndex {
            column_index: 128,
            number_of_columns: 128,
        })
    );
}

#[test]
fn batch_accepts_every_column_of_a_block() {
    let columns: Vec<(u64, Vec<u8>)> = (0..128u64).rev().map(|i| (i, vec![i as u8])).collect();
    let block = CandidateBlock::new(root(2), ColumnContext { slot: 9 }, columns).unwrap();
    assert_eq!(block.column_count(), 128);
    assert_eq!(block.column_indices()[0], 127);
    assert_eq!(block.column_indices()[127], 0);
}

#[test]
fn batch_keeps_root_context_and_order() {
    let block = CandidateBlock::new(
        root(2),
        ColumnContext { slot: 9 },
        vec![(5, vec![50]), (1, vec![10, 11])],
    )
    .unwrap();
    assert_eq!(block.block_root(), root(2));
    assert_eq!(block.context(), ColumnContext { slot: 9 });
    assert_eq!(block.column_count(), 2);
    assert_eq!(block.column_indices(), vec![5, 1]);
}

#[test]
fn batch_explodes_into_candidates_in_order() {
    let block = CandidateBlock::new(
        root(2),
        ColumnContext { slot: 9 },
        vec![(5, vec![50]), (1, vec![10, 11])],
    )
    .unwrap();
    let columns = block.into_columns();
    assert_eq!(columns.len(), 2);
    assert_eq!(columns[0].id, ColumnId::new(root(2), 5).unwrap());
    assert_eq!(columns[0].payload, vec![50]);
    assert_eq!(columns[1].id, ColumnId::new(root(2), 1).unwrap());
    assert_eq!(columns[1].context, ColumnContext { slot: 9 });
    assert_eq!(columns[1].payload, vec![10, 11]);
}

#[test]
fn batch_parts_rebuild_the_same_batch() {
    let block = CandidateBlock::new(
        root(3),
        ColumnContext { slot: 1 },
        vec![(0, vec![1]), (127, vec![2])],
    )
    .unwrap();
    let copy = block.clone();
    let (r, context, columns) = block.into_parts();
    assert_eq!(r, root(3));
    assert_eq!(context, ColumnContext { slot: 1 });
    assert_eq!(columns, vec![(0, vec![1]), (127, vec![2])]);
    assert_eq!(CandidateBlock::new(r, context, columns), Ok(copy));
}

#[test]
fn verified_column_keeps_what_it_was_given() {
    let id = ColumnId::new(root(4), 2).unwrap();
    let column = VerifiedColumn::new_unchecked(id, ColumnContext { slot: 77 }, vec![1, 2, 3]);
    assert_eq!(column.id(), id);
    assert_eq!(column.context().slot, 77);
    assert_eq!(column.payload(), &[1, 2, 3]);
}
