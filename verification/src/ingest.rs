use vstd::prelude::*;

use tokio::sync::mpsc::{Receiver, Sender};

use crate::column::{CandidateBlock, CandidateColumn};
use crate::error::IngestionError;

verus! {

/// Work delivered to the verification service over the ingest queue.
#[derive(Debug, Clone, PartialEq, Eq)]
pub enum DaWorkItem {
    Candidate(CandidateColumn),
    /// A whole block's worth of candidate columns. One block occupies one
    /// queue slot, so admission is all-or-nothing, never split.
    CandidateBlock(CandidateBlock),
    /// A beacon-issued retention boundary.
    Retention(RetentionHint),
}

#[derive(Debug, Clone, Copy, PartialEq, Eq)]
pub struct RetentionHint {
    /// Prune every stored column whose slot is strictly below this.
    pub slot: u64,
}

/// `tokio::sync::mpsc::Sender`, the producer side of the ingest queue.
#[verifier::external_type_specification]
#[verifier::external_body]
#[verifier::reject_recursive_types(T)]
pub struct ExSender<T>(Sender<T>);

/// `tokio::sync::mpsc::Receiver`, the consumer side of the ingest queue.
#[verifier::external_type_specification]
#[verifier::external_body]
#[verifier::reject_recursive_types(T)]
pub struct ExReceiver<T>(Receiver<T>);

/// The bound a queue was created with: how many items it holds at most.
pub uninterp spec fn queue_bound(sender: Sender<DaWorkItem>) -> nat;

/// Whether `sender` and `receiver` are the two ends of one queue: what the
/// sender's offers the queue takes is what the receiver drains.
pub uninterp spec fn same_queue(sender: Sender<DaWorkItem>, receiver: Receiver<DaWorkItem>) -> bool;

/// Largest bound a queue can be created with (tokio's semaphore limit).
pub const MAX_QUEUE_BOUND: usize = usize::MAX >> 3;

/// Why the queue did not take an item; the item comes back unsent.
#[derive(Debug)]
pub enum SendRefusal {
    /// The queue holds as many items as its bound.
    Full(DaWorkItem),
    /// The receiving side is gone.
    Closed(DaWorkItem),
}

/// Calls `tokio::sync::mpsc::channel(capacity)`, which panics on a capacity of
/// zero or above tokio's semaphore limit. Claims that the sender and the
/// receiver it returns are the two ends of one new queue, and that the
/// queue's bound is `capacity`, as `Sender::max_capacity` reports.
#[verifier::external_body]
fn bounded_queue(capacity: usize) -> (r: (Sender<DaWorkItem>, Receiver<DaWorkItem>))
    requires
        0 < capacity <= MAX_QUEUE_BOUND,
    ensures
        queue_bound(r.0) == capacity,
        same_queue(r.0, r.1),
{
    tokio::sync::mpsc::channel(capacity)
}

/// Whether `sent` is an answer of the queue to an offer of exactly `item`:
/// taken, or refused (full or closed) with `item` handed back unsent.
pub open spec fn answered_offer(sent: Result<(), SendRefusal>, item: DaWorkItem) -> bool {
    match sent {
        Ok(()) => true,
        Err(SendRefusal::Full(back)) => back == item,
        Err(SendRefusal::Closed(back)) => back == item,
    }
}

/// The ingestion answer to a queue answer: taken is `Ok`, a full queue is
/// `Overloaded`, a vanished receiver is `Closed`.
pub open spec fn ingestion_answer(sent: Result<(), SendRefusal>) -> Result<(), IngestionError> {
    match sent {
        Ok(()) => Ok(()),
        Err(SendRefusal::Full(_)) => Err(IngestionError::Overloaded),
        Err(SendRefusal::Closed(_)) => Err(IngestionError::Closed),
    }
}

/// A refusal because the queue is full is always answered `Overloaded`, so
/// the caller may retry; `Closed` answers exactly a refusal because the
/// receiver is gone; and only an item the queue took is answered `Ok`.
pub proof fn law_queue_answers(sent: Result<(), SendRefusal>)
    ensures
        sent matches Err(SendRefusal::Full(_)) ==> ingestion_answer(sent) == Err::<(), IngestionError>(
            IngestionError::Overloaded,
        ),
        (ingestion_answer(sent) == Err::<(), IngestionError>(IngestionError::Closed)) <==> (sent matches Err(
            SendRefusal::Closed(_),
        )),
        (ingestion_answer(sent) is Ok) <==> (sent is Ok),
{
}

/// The work item that submits one candidate column.
pub fn candidate_work(candidate: CandidateColumn) -> (w: DaWorkItem)
    ensures
        w == DaWorkItem::Candidate(candidate),
{
    DaWorkItem::Candidate(candidate)
}

/// The work item that submits a whole block's batch: one item, so one queue
/// slot, whatever the number of its columns.
pub fn block_work(block: CandidateBlock) -> (w: DaWorkItem)
    ensures
        w == DaWorkItem::CandidateBlock(block),
{
    DaWorkItem::CandidateBlock(block)
}

/// The work item that submits a retention hint.
pub fn retention_work(hint: RetentionHint) -> (w: DaWorkItem)
    ensures
        w == DaWorkItem::Retention(hint),
{
    DaWorkItem::Retention(hint)
}

/// Calls `Sender::try_send`, which never waits. Whether the queue takes the
/// item depends on how full it is at that moment and on whether the
/// receiver is still there, which nothing here can know; the contract claims
/// only that a refused item comes back unchanged.
#[verifier::external_body]
fn try_enqueue(sender: &Sender<DaWorkItem>, item: DaWorkItem) -> (r: Result<(), SendRefusal>)
    ensures
        answered_offer(r, item),
{
    match sender.try_send(item) {
        Ok(()) => Ok(()),
        Err(tokio::sync::mpsc::error::TrySendError::Full(back)) => Err(SendRefusal::Full(back)),
        Err(tokio::sync::mpsc::error::TrySendError::Closed(back)) => Err(SendRefusal::Closed(back)),
    }
}

/// Map the queue's answer onto the ingestion error: a full queue is
/// `Overloaded` (the caller may shed load and retry), a vanished receiver is
/// `Closed`.
pub fn submission_result(sent: Result<(), SendRefusal>) -> (r: Result<(), IngestionError>)
    ensures
        r == ingestion_answer(sent),
{
    match sent {
        Ok(()) => Ok(()),
        Err(SendRefusal::Full(_)) => Err(IngestionError::Overloaded),
        Err(SendRefusal::Closed(_)) => Err(IngestionError::Closed),
    }
}

/// Calls `Clone::clone` on a `Sender`, which gives another producer of the
/// same queue. Claims that the queue, and so its bound and its receiver, is
/// the same.
#[verifier::external_body]
fn share_sender(sender: &Sender<DaWorkItem>) -> (r: Sender<DaWorkItem>)
    ensures
        queue_bound(r) == queue_bound(*sender),
        forall|receiver: Receiver<DaWorkItem>| #[trigger] same_queue(r, receiver) == same_queue(*sender, receiver),
{
    sender.clone()
}

/// Cloneable submission handle for the verification queue.
pub struct DaIngestHandle {
    sender: Sender<DaWorkItem>,
}

impl Clone for DaIngestHandle {
    /// Another handle on the same queue.
    fn clone(&self) -> (r: Self)
        ensures
            r.bound() == self.bound(),
            forall|receiver: Receiver<DaWorkItem>| #[trigger] r.feeds(receiver) == self.feeds(receiver),
    {
        DaIngestHandle { sender: share_sender(&self.sender) }
    }
}

impl DaIngestHandle {
    /// The bound of the queue this handle submits to.
    pub closed spec fn bound(self) -> nat {
        queue_bound(self.sender)
    }

    /// Whether this handle submits to the queue that `receiver` drains.
    pub closed spec fn feeds(self, receiver: Receiver<DaWorkItem>) -> bool {
        same_queue(self.sender, receiver)
    }

    /// The producer side of the queue, for submissions that wait for room.
    pub fn sender(&self) -> (r: &Sender<DaWorkItem>)
        ensures
            queue_bound(*r) == self.bound(),
            forall|receiver: Receiver<DaWorkItem>| #[trigger] same_queue(*r, receiver) == self.feeds(receiver),
    {
        &self.sender
    }

    /// Offer one item to the queue without waiting. Whether the queue takes
    /// it is the queue's to decide; a refused item comes back unsent.
    pub fn offer(&self, item: DaWorkItem) -> (r: Result<(), SendRefusal>)
        ensures
            answered_offer(r, item),
    {
        try_enqueue(&self.sender, item)
    }

    /// Submit a candidate without waiting: the body builds
    /// `DaWorkItem::Candidate(candidate)` with `candidate_work` and offers it
    /// through `offer`; a full queue is `IngestionError::Overloaded` so the
    /// caller can shed load, a vanished service `IngestionError::Closed`.
    /// Nothing is promised of the answer: whether the queue takes the item is
    /// the queue's to decide, and the item does not come back in the result.
    pub fn try_submit(&self, candidate: CandidateColumn) -> Result<(), IngestionError> {
        submission_result(self.offer(candidate_work(candidate)))
    }

    /// Submit a whole block's batch without waiting: the body builds the one
    /// item `DaWorkItem::CandidateBlock(candidate)` with `block_work` and
    /// offers it, so the batch takes a single queue slot and is taken or
    /// handed back whole; the caller retries the block as one unit. Nothing
    /// is promised of the answer, which is the queue's to decide.
    pub fn try_submit_block(&self, candidate: CandidateBlock) -> Result<(), IngestionError> {
        submission_result(self.offer(block_work(candidate)))
    }

    /// Submit a retention hint without waiting: the body builds
    /// `DaWorkItem::Retention(hint)` with `retention_work` and offers it.
    /// Nothing is promised of the answer, which is the queue's to decide.
    pub fn try_submit_retention(&self, hint: RetentionHint) -> Result<(), IngestionError> {
        submission_result(self.offer(retention_work(hint)))
    }
}

/// Create the bounded ingest queue: a cloneable producer handle and the
/// receiver for the single verification service: the handle submits to the
/// queue the receiver drains. The capacity must be positive and within
/// tokio's limit.
pub fn ingest_channel(capacity: usize) -> (r: (DaIngestHandle, Receiver<DaWorkItem>))
    requires
        0 < capacity <= MAX_QUEUE_BOUND,
    ensures
        r.0.bound() == capacity,
        r.0.feeds(r.1),
{
    let (sender, receiver) = bounded_queue(capacity);
    (DaIngestHandle { sender }, receiver)
}

} // verus!
