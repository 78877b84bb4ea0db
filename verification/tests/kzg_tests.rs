use ream_da::column::{CandidateColumn, ColumnContext};
use ream_da::error::ValidationError;
use ream_da::id::{ColumnId, Root};
use ream_da::kzg::{CellProofCheck, KzgVerifier, SidecarSummary};

fn root(byte: u8) -> Root {
    Root([byte; 32])
}

fn candidate() -> CandidateColumn {
    CandidateColumn {
        id: ColumnId::new(root(1), 6).unwrap(),
        context: ColumnContext { slot: 42 },
        payload: vec![1, 2, 3],
    }
}

fn good_sidecar() -> SidecarSummary {
    SidecarSummary {
        block_root: root(1),
        index: 6,
        commitment_count: 3,
        cell_count: 3,
        proof_count: 3,
        inclusion_proof_valid: true,
    }
}

fn verify(sidecar: SidecarSummary, cells: CellProofCheck) -> Result<(), ValidationError> {
    KzgVerifier::new(6)
        .verify(candidate(), Ok(sidecar), cells)
        .map(|_| ())
}

#[test]
fn valid_sidecar_gives_the_candidate_as_verified() {
    let verified = KzgVerifier::new(6)
        .verify(candidate(), Ok(good_sidecar()), CellProofCheck::Valid)
        .unwrap();
    assert_eq!(verified.id(), candidate().id);
    assert_eq!(verified.context().slot, 42);
    assert_eq!(verified.payload(), &[1, 2, 3]);
}

#[test]
fn undecodable_payload_is_malformed() {
    let r = KzgVerifier::new(6).verify(candidate(), Err("bad offset".to_string()), CellProofCheck::Valid);
    assert_eq!(r.map(|_| ()), Err(ValidationError::MalformedPayload("bad offset".to_string())));
}

#[test]
fn sidecar_index_out_of_range_is_refused() {
    let sidecar = SidecarSummary { index: 128, ..good_sidecar() };
    assert_eq!(
        verify(sidecar, CellProofCheck::Valid),
        Err(ValidationError::InvalidColumnIndex {
            column_index: 128,
            number_of_columns: 128,
        })
    );
}

#[test]
fn sidecar_of_another_column_is_a_mismatch() {
    let sidecar = SidecarSummary { block_root: root(2), ..good_sidecar() };
    assert_eq!(
        verify(sidecar, CellProofCheck::Valid),
        Err(ValidationError::IdMismatch {
            expected: ColumnId::new(root(2), 6).unwrap(),
            actual: candidate().id,
        })
    );
    let sidecar = SidecarSummary { index: 7, ..good_sidecar() };
    assert_eq!(
        verify(sidecar, CellProofCheck::Valid),
        Err(ValidationError::IdMismatch {
            expected: ColumnId::new(root(1), 7).unwrap(),
            actual: candidate().id,
        })
    );
}

#[test]
fn sidecar_without_commitments_is_refused() {
    let sidecar = SidecarSummary { commitment_count: 0, cell_count: 0, proof_count: 0, ..good_sidecar() };
    assert_eq!(verify(sidecar, CellProofCheck::Valid), Err(ValidationError::EmptyCommitments));
}

#[test]
fn sidecar_with_too_many_commitments_is_refused() {
    let sidecar = SidecarSummary { commitment_count: 7, cell_count: 7, proof_count: 7, ..good_sidecar() };
    assert_eq!(
        verify(sidecar, CellProofCheck::Valid),
        Err(ValidationError::TooManyCommitments { count: 7, maximum: 6 })
    );
}

#[test]
fn sidecar_with_unequal_counts_is_refused() {
    let sidecar = SidecarSummary { cell_count: 2, ..good_sidecar() };
    assert_eq!(
        verify(sidecar, CellProofCheck::Valid),
        Err(ValidationError::LengthMismatch { cells: 2, commitments: 3, proofs: 3 })
    );
    let sidecar = SidecarSummary { proof_count: 4, ..good_sidecar() };
    assert_eq!(
        verify(sidecar, CellProofCheck::Valid),
        Err(ValidationError::LengthMismatch { cells: 3, commitments: 3, proofs: 4 })
    );
}

#[test]
fn sidecar_with_bad_inclusion_proof_is_refused() {
    let sidecar = SidecarSummary { inclusion_proof_valid: false, ..good_sidecar() };
    assert_eq!(verify(sidecar, CellProofCheck::Valid), Err(ValidationError::InvalidInclusionProof));
}

#[test]
fn failing_cell_proofs_are_refused() {
    assert_eq!(verify(good_sidecar(), CellProofCheck::Invalid), Err(ValidationError::InvalidProof));
    assert_eq!(
        verify(good_sidecar(), CellProofCheck::Failed("setup".to_string())),
        Err(ValidationError::VerifierFailure("setup".to_string()))
    );
}

#[test]
fn checks_run_before_the_cell_proofs() {
    let sidecar = SidecarSummary { inclusion_proof_valid: false, ..good_sidecar() };
    assert_eq!(verify(sidecar, CellProofCheck::Invalid), Err(ValidationError::InvalidInclusionProof));
    let verifier = KzgVerifier::new(6);
    assert_eq!(verifier.check_sidecar(&candidate().id, &good_sidecar()), Ok(()));
    assert_eq!(
        verifier.check_sidecar(&candidate().id, &SidecarSummary { commitment_count: 0, ..good_sidecar() }),
        Err(ValidationError::EmptyCommitments)
    );
}
