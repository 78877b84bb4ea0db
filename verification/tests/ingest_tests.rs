use ream_da::column::{CandidateBlock, CandidateColumn, ColumnContext};
use ream_da::error::IngestionError;
use ream_da::id::{ColumnId, Root};
use ream_da::ingest::{
    block_work, candidate_work, ingest_channel, retention_work, submission_result, DaWorkItem,
    RetentionHint, SendRefusal,
};

fn candidate(index: u64) -> CandidateColumn {
    CandidateColumn {
        id: ColumnId::new(Root([1; 32]), index).unwrap(),
        context: ColumnContext { slot: 3 },
        payload: vec![index as u8],
    }
}

#[test]
fn queue_takes_items_up_to_its_bound_then_sheds_load() {
    let (handle, mut receiver) = ingest_channel(2);
    assert_eq!(handle.sender().max_capacity(), 2);
    assert_eq!(handle.try_submit(candidate(0)), Ok(()));
    assert_eq!(handle.try_submit_retention(RetentionHint { slot: 9 }), Ok(()));
    assert_eq!(handle.try_submit(candidate(1)), Err(IngestionError::Overloaded));
    assert_eq!(receiver.try_recv().unwrap(), DaWorkItem::Candidate(candidate(0)));
    assert_eq!(receiver.try_recv().unwrap(), DaWorkItem::Retention(RetentionHint { slot: 9 }));
    let block = CandidateBlock::new(Root([1; 32]), ColumnContext { slot: 3 }, vec![(0, vec![1])]).unwrap();
    assert_eq!(handle.try_submit_block(block.clone()), Ok(()));
    assert_eq!(receiver.try_recv().unwrap(), DaWorkItem::CandidateBlock(block));
}

#[test]
fn queue_without_receiver_is_closed() {
    let (handle, receiver) = ingest_channel(4);
    drop(receiver);
    assert_eq!(handle.try_submit(candidate(0)), Err(IngestionError::Closed));
    let copy = handle.clone();
    assert_eq!(copy.try_submit_retention(RetentionHint { slot: 1 }), Err(IngestionError::Closed));
}

#[test]
fn refusals_map_onto_ingestion_errors() {
    assert_eq!(submission_result(Ok(())), Ok(()));
    assert_eq!(
        submission_result(Err(SendRefusal::Full(DaWorkItem::Candidate(candidate(0))))),
        Err(IngestionError::Overloaded)
    );
    assert_eq!(
        submission_result(Err(SendRefusal::Closed(DaWorkItem::Candidate(candidate(0))))),
        Err(IngestionError::Closed)
    );
}

#[test]
fn offers_hand_back_what_the_queue_refuses() {
    let (handle, receiver) = ingest_channel(1);
    assert_eq!(handle.offer(candidate_work(candidate(0))).is_ok(), true);
    match handle.offer(retention_work(RetentionHint { slot: 4 })) {
        Err(SendRefusal::Full(item)) => assert_eq!(item, DaWorkItem::Retention(RetentionHint { slot: 4 })),
        other => panic!("unexpected answer {other:?}"),
    }
    drop(receiver);
    let block = CandidateBlock::new(Root([1; 32]), ColumnContext { slot: 3 }, vec![(0, vec![1])]).unwrap();
    match handle.offer(block_work(block.clone())) {
        Err(SendRefusal::Closed(item)) => assert_eq!(item, DaWorkItem::CandidateBlock(block)),
        other => panic!("unexpected answer {other:?}"),
    }
}
