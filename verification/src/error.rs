use vstd::prelude::*;

use crate::id::ColumnId;

verus! {

/// Why a candidate column or batch was refused.
#[derive(Debug, Clone, PartialEq, Eq)]
pub enum ValidationError {
    /// A column index at or above the number of columns.
    InvalidColumnIndex { column_index: u64, number_of_columns: u64 },
    /// The payload could not be decoded; the text is the decoder's report.
    MalformedPayload(String),
    /// The payload describes another column than the one it was submitted as.
    IdMismatch { expected: ColumnId, actual: ColumnId },
    /// The payload carries no commitment.
    EmptyCommitments,
    /// More commitments than a block may hold blobs.
    TooManyCommitments { count: usize, maximum: usize },
    /// Cells, commitments and proofs are not equally many.
    LengthMismatch { cells: usize, commitments: usize, proofs: usize },
    /// The commitments' inclusion proof does not lead to the header's body root.
    InvalidInclusionProof,
    /// The cell proofs do not verify.
    InvalidProof,
    /// The proof verifier itself failed; the text is its report.
    VerifierFailure(String),
    /// A batch with no column.
    EmptyBatch,
    /// A batch that names one column index twice.
    DuplicateColumnIndex { column_index: u64 },
}

/// `std::io::Error`, carried opaquely by `DaStoreError`.
#[verifier::external_type_specification]
#[verifier::external_body]
pub struct ExIoError(std::io::Error);

/// Failure of the storage layer.
#[derive(Debug)]
pub enum DaStoreError {
    /// Underlying storage failure: filesystem I/O, a missing backing file, or
    /// corruption. Not a normal "not found" answer, which is `Ok(None)`.
    Io(std::io::Error),
}

/// Failure of the ingest queue to take a submission.
#[derive(Debug, Clone, Copy, PartialEq, Eq)]
pub enum IngestionError {
    /// The queue is full; the caller may retry.
    Overloaded,
    /// The verification service is gone.
    Closed,
}

} // verus!
