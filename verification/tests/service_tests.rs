use ream_da::column::{CandidateBlock, CandidateColumn, ColumnContext, VerifiedColumn};
use ream_da::error::ValidationError;
use ream_da::feed::{
    check_blob_count, choose_sidecars, count_still_missing, ingest_payload_text, poll_step,
    select_sidecars, FeedRefusal, PollStep,
};
use ream_da::id::{ColumnId, Root};
use ream_da::ingest::{DaWorkItem, RetentionHint};
use ream_da::service::{plan_work, record_verification, ProcessOutcome, WorkStep};
use ream_da::store::{DaMemoryStore, InsertOutcome};

#[test]
fn work_items_become_steps() {
    let candidate = CandidateColumn {
        id: ColumnId::new(Root([1; 32]), 2).unwrap(),
        context: ColumnContext { slot: 4 },
        payload: vec![7],
    };
    assert_eq!(
        plan_work(DaWorkItem::Candidate(candidate.clone())),
        vec![WorkStep::Verify(candidate)]
    );
    assert_eq!(
        plan_work(DaWorkItem::Retention(RetentionHint { slot: 30 })),
        vec![WorkStep::Prune(30)]
    );
    let block = CandidateBlock::new(
        Root([1; 32]),
        ColumnContext { slot: 4 },
        vec![(9, vec![1]), (3, vec![2])],
    )
    .unwrap();
    let steps = plan_work(DaWorkItem::CandidateBlock(block));
    assert_eq!(steps.len(), 2);
    match &steps[1] {
        WorkStep::Verify(c) => {
            assert_eq!(c.id, ColumnId::new(Root([1; 32]), 3).unwrap());
            assert_eq!(c.payload, vec![2]);
        }
        other => panic!("unexpected step {other:?}"),
    }
}

#[test]
fn verified_columns_are_stored_and_rejected_ones_are_not() {
    let mut store = DaMemoryStore::new();
    let id = ColumnId::new(Root([1; 32]), 2).unwrap();
    let column = VerifiedColumn::new_unchecked(id, ColumnContext { slot: 4 }, vec![7]);
    assert_eq!(
        record_verification(&mut store, Ok(column.clone())).unwrap(),
        ProcessOutcome::Stored(InsertOutcome::Inserted)
    );
    assert_eq!(
        record_verification(&mut store, Ok(column)).unwrap(),
        ProcessOutcome::Stored(InsertOutcome::Duplicated)
    );
    assert_eq!(
        record_verification(&mut store, Err(ValidationError::InvalidProof)).unwrap(),
        ProcessOutcome::Rejected(ValidationError::InvalidProof)
    );
    assert_eq!(store.block_count(), 1);
}

#[test]
fn feeding_selects_requested_sidecars_in_order() {
    let indices = vec![0, 1, 2, 3, 4];
    assert_eq!(select_sidecars(&indices, &None), vec![0, 1, 2, 3, 4]);
    assert_eq!(select_sidecars(&indices, &Some(vec![4, 1, 9])), vec![1, 4]);
    assert_eq!(select_sidecars(&indices, &Some(vec![])), Vec::<usize>::new());
}

#[test]
fn polling_waits_until_every_submitted_column_is_held() {
    let submitted = vec![1, 2, 3];
    assert_eq!(count_still_missing(&submitted, &vec![2, 3, 9]), 2);
    assert_eq!(poll_step(&submitted, &vec![9, 10], false), PollStep::AllHeld);
    assert_eq!(poll_step(&submitted, &vec![3], false), PollStep::KeepWaiting);
    assert_eq!(poll_step(&submitted, &vec![3, 1], true), PollStep::TimedOut { still_missing: 2 });
}

#[test]
fn feeding_needs_blobs_and_a_match() {
    assert_eq!(check_blob_count(0), Err(FeedRefusal::NoBlobs));
    assert_eq!(check_blob_count(3), Ok(()));
    assert_eq!(choose_sidecars(&vec![4, 5], &Some(vec![7])), Err(FeedRefusal::NoMatchingSidecars));
    assert_eq!(choose_sidecars(&vec![4, 5], &Some(vec![5])), Ok(vec![1]));
    assert_eq!(choose_sidecars(&vec![], &None), Err(FeedRefusal::NoMatchingSidecars));
}

#[test]
fn payload_text_is_prefixed_lowercase_hex() {
    assert_eq!(ingest_payload_text(&vec![0x00, 0xab, 0x7f]), "0x00ab7f");
    assert_eq!(ingest_payload_text(&vec![]), "0x");
}
