use vstd::prelude::*;

use crate::column::{CandidateColumn, VerifiedColumn};
use crate::error::{DaStoreError, ValidationError};
use crate::ingest::DaWorkItem;
use crate::store::{after_put, DaMemoryStore, InsertOutcome, MAX_BLOCKS};

verus! {

/// One step of the verification service's work.
#[derive(Debug, Clone, PartialEq, Eq)]
pub enum WorkStep {
    /// Verify this candidate and store it if it passes.
    Verify(CandidateColumn),
    /// Prune the store below this slot.
    Prune(u64),
}

/// The steps a work item asks for, in order: a candidate is verified; a
/// block's candidates are verified one by one, in submission order; a
/// retention hint prunes every column whose slot is below its own.
pub fn plan_work(item: DaWorkItem) -> (r: Vec<WorkStep>)
    ensures
        match item {
            DaWorkItem::Candidate(c) => r@ == seq![WorkStep::Verify(c)],
            DaWorkItem::CandidateBlock(b) => r.len() == b@.2.len() && forall|i: int|
                0 <= i < r.len() ==> (#[trigger] r[i] matches WorkStep::Verify(c) && c.id@ == (
                    b@.0,
                    b@.2[i].0,
                ) && c.context == b@.1 && c.payload@ == b@.2[i].1),
            DaWorkItem::Retention(hint) => r@ == seq![WorkStep::Prune(hint.slot)],
        },
{
    let mut steps: Vec<WorkStep> = Vec::new();
    match item {
        DaWorkItem::Candidate(c) => {
            steps.push(WorkStep::Verify(c));
        },
        DaWorkItem::CandidateBlock(b) => {
            let ghost v = b@;
            let columns = b.into_columns();
            let ghost all = columns@;
            for c in it: columns
                invariant
                    it.seq() == all,
                    all.len() == v.2.len(),
                    forall|i: int|
                        0 <= i < all.len() ==> {
                            &&& (#[trigger] all[i]).id@ == (v.0, v.2[i].0)
                            &&& all[i].context == v.1
                            &&& all[i].payload@ == v.2[i].1
                        },
                    steps.len() == it.index(),
                    forall|i: int| 0 <= i < steps.len() ==> #[trigger] steps[i] == WorkStep::Verify(all[i]),
            {
                steps.push(WorkStep::Verify(c));
            }
        },
        DaWorkItem::Retention(hint) => {
            steps.push(WorkStep::Prune(hint.slot));
        },
    }
    steps
}

/// What became of a candidate once verification answered.
#[derive(Debug, Clone, PartialEq, Eq)]
pub enum ProcessOutcome {
    /// It passed; this is what the store did with it.
    Stored(InsertOutcome),
    /// It failed verification and was not stored.
    Rejected(ValidationError),
}

/// Persist a candidate that passed verification; one that failed leaves the
/// store as it was.
pub fn record_verification(
    store: &mut DaMemoryStore,
    verified: Result<VerifiedColumn, ValidationError>,
) -> (r: Result<ProcessOutcome, DaStoreError>)
    requires
        old(store).wf(),
        verified is Ok ==> old(store)@.blocks.len() < MAX_BLOCKS,
    ensures
        final(store).wf(),
        match verified {
            Ok(c) => r matches Ok(ProcessOutcome::Stored(o)) && (final(store)@, o) =~~= after_put(
                old(store)@,
                c@.0@.0,
                c@.0@.1,
                c@.1.slot,
                c@.2,
            ),
            Err(e) => r == Ok::<ProcessOutcome, DaStoreError>(ProcessOutcome::Rejected(e))
                && final(store)@ == old(store)@,
        },
{
    match verified {
        Ok(column) => match store.put(column) {
            Ok(outcome) => Ok(ProcessOutcome::Stored(outcome)),
            Err(e) => Err(e),
        },
        Err(e) => Ok(ProcessOutcome::Rejected(e)),
    }
}

} // verus!
