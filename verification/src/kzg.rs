use vstd::prelude::*;

use crate::column::{CandidateColumn, VerifiedColumn};
use crate::error::ValidationError;
use crate::id::{ColumnId, Root, NUMBER_OF_COLUMNS};

verus! {

/// Verifier of data column sidecars against their KZG commitments.
#[derive(Debug, Clone, Copy, Default)]
pub struct KzgVerifier {
    max_blobs_per_block: usize,
}

/// What the verifier reads of a decoded data column sidecar.
#[derive(Debug, Clone, Copy, PartialEq, Eq)]
pub struct SidecarSummary {
    /// Hash tree root of the signed block header's message.
    pub block_root: Root,
    /// The sidecar's column index.
    pub index: u64,
    /// Number of KZG commitments.
    pub commitment_count: usize,
    /// Number of cells of the column.
    pub cell_count: usize,
    /// Number of proofs carried by the sidecar.
    pub proof_count: usize,
    /// Whether the commitments' inclusion proof leads to the header's body root.
    pub inclusion_proof_valid: bool,
}

/// The answer of the cell-proof verification.
#[derive(Debug, Clone, PartialEq, Eq)]
pub enum CellProofCheck {
    /// The proofs verify.
    Valid,
    /// The proofs do not verify.
    Invalid,
    /// The verifier failed; the text is its report.
    Failed(String),
}

/// Whether a sidecar passes every check that comes before the cell proofs,
/// for a candidate submitted under `id`.
pub open spec fn sidecar_passes(max_blobs: usize, id: ColumnId, s: SidecarSummary) -> bool {
    &&& s.index < NUMBER_OF_COLUMNS
    &&& id@ == (s.block_root@, s.index)
    &&& s.commitment_count != 0
    &&& s.commitment_count <= max_blobs
    &&& s.cell_count == s.commitment_count
    &&& s.cell_count == s.proof_count
    &&& s.inclusion_proof_valid
}

/// The error of the first check, in order, that the sidecar fails: its
/// index, its identity against the candidate's, the number of commitments,
/// the agreement of cells, commitments and proofs, the inclusion proof.
pub open spec fn sidecar_rejected_with(
    max_blobs: usize,
    id: ColumnId,
    s: SidecarSummary,
    e: ValidationError,
) -> bool {
    if s.index >= NUMBER_OF_COLUMNS {
        e == ValidationError::InvalidColumnIndex {
            column_index: s.index,
            number_of_columns: NUMBER_OF_COLUMNS,
        }
    } else if id@ != (s.block_root@, s.index) {
        e matches ValidationError::IdMismatch { expected, actual } && expected@ == (
            s.block_root@,
            s.index,
        ) && actual == id
    } else if s.commitment_count == 0 {
        e == ValidationError::EmptyCommitments
    } else if s.commitment_count > max_blobs {
        e == ValidationError::TooManyCommitments {
            count: s.commitment_count,
            maximum: max_blobs,
        }
    } else if s.cell_count != s.commitment_count || s.cell_count != s.proof_count {
        e == ValidationError::LengthMismatch {
            cells: s.cell_count,
            commitments: s.commitment_count,
            proofs: s.proof_count,
        }
    } else {
        e == ValidationError::InvalidInclusionProof
    }
}

/// A sidecar that is what it claims to be: an in-range index, the identity
/// of the candidate it was submitted as, between one and `max_blobs`
/// commitments, exactly one cell and one proof per commitment, and a valid
/// inclusion proof of the commitments.
pub open spec fn consistent_sidecar(max_blobs: usize, id: ColumnId, s: SidecarSummary) -> bool {
    &&& s.index < NUMBER_OF_COLUMNS
    &&& id@.0 == s.block_root@
    &&& id@.1 == s.index
    &&& 1 <= s.commitment_count <= max_blobs
    &&& s.cell_count == s.commitment_count
    &&& s.proof_count == s.commitment_count
    &&& s.inclusion_proof_valid
}

/// A sidecar passes the checks exactly when it is consistent.
pub proof fn law_sidecar_passes_iff_consistent(max_blobs: usize, id: ColumnId, s: SidecarSummary)
    ensures
        sidecar_passes(max_blobs, id, s) <==> consistent_sidecar(max_blobs, id, s),
{
}

/// A sidecar of the right column with an allowed number of commitments, but
/// whose cells or proofs are not one per commitment, is refused with exactly
/// `LengthMismatch` carrying the three counts; and no sidecar whose cells
/// are not one per commitment passes.
pub proof fn law_unequal_lengths_are_refused(max_blobs: usize, id: ColumnId, s: SidecarSummary, e: ValidationError)
    requires
        s.index < NUMBER_OF_COLUMNS,
        id@.0 == s.block_root@,
        id@.1 == s.index,
        1 <= s.commitment_count <= max_blobs,
        s.cell_count != s.commitment_count || s.proof_count != s.commitment_count,
    ensures
        !sidecar_passes(max_blobs, id, s),
        sidecar_rejected_with(max_blobs, id, s, e) <==> e == (ValidationError::LengthMismatch {
            cells: s.cell_count,
            commitments: s.commitment_count,
            proofs: s.proof_count,
        }),
{
    assert(id@ == (s.block_root@, s.index));
}

impl KzgVerifier {
    pub fn new(max_blobs_per_block: usize) -> (r: Self)
        ensures
            r.max_blobs() == max_blobs_per_block,
    {
        KzgVerifier { max_blobs_per_block }
    }

    /// Most commitments a sidecar may carry.
    pub closed spec fn max_blobs(self) -> usize {
        self.max_blobs_per_block
    }

    /// Every check of a sidecar that comes before its cell proofs. `Ok`
    /// exactly when the sidecar passes them all; otherwise the error of the
    /// first that fails.
    pub fn check_sidecar(&self, id: &ColumnId, sidecar: &SidecarSummary) -> (r: Result<(), ValidationError>)
        ensures
            r is Ok <==> sidecar_passes(self.max_blobs(), *id, *sidecar),
            r matches Err(e) ==> sidecar_rejected_with(self.max_blobs(), *id, *sidecar, e),
            r is Ok ==> consistent_sidecar(self.max_blobs(), *id, *sidecar),
            r is Ok <== consistent_sidecar(self.max_blobs(), *id, *sidecar),
    {
        proof {
            law_sidecar_passes_iff_consistent(self.max_blobs(), *id, *sidecar);
        }
        // check that the sidecar is the column it was submitted as
        let expected = match ColumnId::new(sidecar.block_root, sidecar.index) {
            Ok(expected) => expected,
            Err(e) => return Err(e),
        };
        if !expected.same_as(id) {
            return Err(ValidationError::IdMismatch { expected, actual: *id });
        }
        // sanity checks before verifying the proof
        let commitment_count = sidecar.commitment_count;
        if commitment_count == 0 {
            return Err(ValidationError::EmptyCommitments);
        }
        if commitment_count > self.max_blobs_per_block {
            return Err(
                ValidationError::TooManyCommitments {
                    count: commitment_count,
                    maximum: self.max_blobs_per_block,
                },
            );
        }
        if sidecar.cell_count != commitment_count || sidecar.cell_count != sidecar.proof_count {
            return Err(
                ValidationError::LengthMismatch {
                    cells: sidecar.cell_count,
                    commitments: commitment_count,
                    proofs: sidecar.proof_count,
                },
            );
        }
        // the commitments must be included in the signed block header
        if !sidecar.inclusion_proof_valid {
            return Err(ValidationError::InvalidInclusionProof);
        }
        Ok(())
    }

    /// Verify a candidate against its decoded sidecar (or the decoder's
    /// report) and the cell-proof answer. A sidecar that fails a check is
    /// refused with that check's error, before the cell proofs count; a
    /// candidate that passes everything becomes a verified column with the
    /// candidate's own id, context and payload.
    pub fn verify(
        &self,
        candidate: CandidateColumn,
        decoded: Result<SidecarSummary, String>,
        cells: CellProofCheck,
    ) -> (r: Result<VerifiedColumn, ValidationError>)
        ensures
            r is Ok ==> (decoded matches Ok(s) && consistent_sidecar(self.max_blobs(), candidate.id, s)
                && cells == CellProofCheck::Valid),
            match decoded {
                Err(report) => r == Err::<VerifiedColumn, ValidationError>(
                    ValidationError::MalformedPayload(report),
                ),
                Ok(s) => if !sidecar_passes(self.max_blobs(), candidate.id, s) {
                    r matches Err(e) && sidecar_rejected_with(self.max_blobs(), candidate.id, s, e)
                } else {
                    match cells {
                        CellProofCheck::Valid => r matches Ok(c) && c@ == (
                            candidate.id,
                            candidate.context,
                            candidate.payload@,
                        ),
                        CellProofCheck::Invalid => r == Err::<VerifiedColumn, ValidationError>(
                            ValidationError::InvalidProof,
                        ),
                        CellProofCheck::Failed(report) => r == Err::<
                            VerifiedColumn,
                            ValidationError,
                        >(ValidationError::VerifierFailure(report)),
                    }
                },
            },
    {
        proof {
            if let Ok(s) = decoded {
                law_sidecar_passes_iff_consistent(self.max_blobs(), candidate.id, s);
            }
        }
        let sidecar = match decoded {
            Ok(sidecar) => sidecar,
            Err(report) => return Err(ValidationError::MalformedPayload(report)),
        };
        match self.check_sidecar(&candidate.id, &sidecar) {
            Ok(()) => {},
            Err(e) => return Err(e),
        }
        match cells {
            CellProofCheck::Valid => {},
            CellProofCheck::Invalid => return Err(ValidationError::InvalidProof),
            CellProofCheck::Failed(report) => return Err(ValidationError::VerifierFailure(report)),
        }
        Ok(VerifiedColumn::new_unchecked(candidate.id, candidate.context, candidate.payload))
    }
}

} // verus!
