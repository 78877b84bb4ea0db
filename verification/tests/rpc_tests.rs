use ream_da::column::{CandidateBlock, ColumnContext};
use ream_da::error::{IngestionError, ValidationError};
use ream_da::id::{ColumnId, Root};
use ream_da::rpc::{
    block_root_from_id, is_octet_stream, prepare_block_ingest, submission_error, ApiError,
    BadRequest, BlockId, BlockIngestQuery, HexError, IngestRequest,
};
use ream_da::wire::SszError;

fn request(index: u64, payload: &str) -> IngestRequest {
    IngestRequest {
        block_root: Root([5; 32]),
        index,
        slot: 12,
        payload: payload.to_string(),
    }
}

#[test]
fn only_a_root_names_a_block() {
    assert_eq!(block_root_from_id(BlockId::Root(Root([3; 32]))), Ok(Root([3; 32])));
    for id in [BlockId::Head, BlockId::Genesis, BlockId::Finalized, BlockId::Justified, BlockId::Slot(4)] {
        assert_eq!(
            block_root_from_id(id),
            Err(ApiError::BadRequest(BadRequest::UnsupportedBlockId(id)))
        );
    }
}

#[test]
fn full_queue_is_unavailable_and_closed_queue_is_internal() {
    assert_eq!(
        submission_error(IngestionError::Overloaded),
        ApiError::ServiceUnavailable("verification queue is full; retry shortly".to_string())
    );
    assert_eq!(
        submission_error(IngestionError::Closed),
        ApiError::InternalError("verification service is unavailable".to_string())
    );
}

#[test]
fn request_with_hex_payload_becomes_a_candidate() {
    let candidate = request(7, "0x48656c6c6F").into_candidate().unwrap();
    assert_eq!(candidate.id, ColumnId::new(Root([5; 32]), 7).unwrap());
    assert_eq!(candidate.context, ColumnContext { slot: 12 });
    assert_eq!(candidate.payload, b"Hello".to_vec());
    let candidate = request(7, "0X00ff").into_candidate().unwrap();
    assert_eq!(candidate.payload, vec![0, 255]);
    let candidate = request(7, "").into_candidate().unwrap();
    assert_eq!(candidate.payload, Vec::<u8>::new());
}

#[test]
fn request_with_bad_index_is_refused_before_the_payload() {
    assert_eq!(
        request(128, "zz").into_candidate(),
        Err(ApiError::BadRequest(BadRequest::InvalidColumnId(
            ValidationError::InvalidColumnIndex {
                column_index: 128,
                number_of_columns: 128,
            }
        )))
    );
}

#[test]
fn request_with_bad_hex_is_refused() {
    assert_eq!(
        request(1, "abc").into_candidate(),
        Err(ApiError::BadRequest(BadRequest::InvalidHex(HexError::OddLength)))
    );
    assert_eq!(
        request(1, "0x00zz").into_candidate(),
        Err(ApiError::BadRequest(BadRequest::InvalidHex(HexError::InvalidHexCharacter {
            c: 'z',
            index: 2
        })))
    );
}

#[test]
fn octet_stream_is_matched_exactly() {
    assert!(is_octet_stream("application/octet-stream"));
    assert!(!is_octet_stream("application/json"));
    assert!(!is_octet_stream("application/octet-streams"));
    assert!(!is_octet_stream(""));
}

fn encode_batch(entries: &[(u64, Vec<u8>)]) -> Vec<u8> {
    let mut parts: Vec<Vec<u8>> = Vec::new();
    for (index, payload) in entries {
        let mut part = index.to_le_bytes().to_vec();
        part.extend_from_slice(&12u32.to_le_bytes());
        part.extend_from_slice(payload);
        parts.push(part);
    }
    let mut body = Vec::new();
    let mut offset = 4 * entries.len();
    for part in &parts {
        body.extend_from_slice(&(offset as u32).to_le_bytes());
        offset += part.len();
    }
    for part in &parts {
        body.extend_from_slice(part);
    }
    body
}

#[test]
fn block_ingest_checks_in_order() {
    let root = BlockId::Root(Root([6; 32]));
    let query = BlockIngestQuery { slot: 8 };
    assert_eq!(
        prepare_block_ingest("text/plain", BlockId::Head, query, &[1]),
        Err(ApiError::UnsupportedMediaType("text/plain".to_string()))
    );
    assert_eq!(
        prepare_block_ingest("application/octet-stream", BlockId::Head, query, &[1]),
        Err(ApiError::BadRequest(BadRequest::UnsupportedBlockId(BlockId::Head)))
    );
    assert_eq!(
        prepare_block_ingest("application/octet-stream", root, query, &[1]),
        Err(ApiError::BadRequest(BadRequest::InvalidSsz(SszError::InvalidLengthPrefix {
            len: 1,
            expected: 4
        })))
    );
    assert_eq!(
        prepare_block_ingest("application/octet-stream", root, query, &[]),
        Err(ApiError::BadRequest(BadRequest::InvalidBatch(ValidationError::EmptyBatch)))
    );
    let body = encode_batch(&[(2, vec![1]), (2, vec![2])]);
    assert_eq!(
        prepare_block_ingest("application/octet-stream", root, query, &body),
        Err(ApiError::BadRequest(BadRequest::InvalidBatch(
            ValidationError::DuplicateColumnIndex { column_index: 2 }
        )))
    );
    let body = encode_batch(&[(2, vec![1]), (0, vec![2, 3])]);
    let block = prepare_block_ingest("application/octet-stream", root, query, &body).unwrap();
    assert_eq!(
        Ok(block),
        CandidateBlock::new(
            Root([6; 32]),
            ColumnContext { slot: 8 },
            vec![(2, vec![1]), (0, vec![2, 3])]
        )
    );
}
