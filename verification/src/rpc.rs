use vstd::prelude::*;

use crate::column::{CandidateBlock, CandidateColumn, ColumnContext};
use crate::error::{IngestionError, ValidationError};
use crate::id::{ColumnId, Root, NUMBER_OF_COLUMNS};
use crate::wire::{decode_block_batch, ssz_block_batch, SszError};

verus! {

/// Byte ceiling for a batch-ingest request body: generous headroom over a
/// full block at today's blob limits (32 MiB).
pub const MAX_BATCH_INGEST_BODY_BYTES: usize = 33554432;

/// A block as a request path may name it.
#[derive(Debug, Clone, Copy, PartialEq, Eq)]
pub enum BlockId {
    Head,
    Genesis,
    Finalized,
    Justified,
    Slot(u64),
    Root(Root),
}

/// A hex payload that does not decode.
#[derive(Debug, Clone, Copy, PartialEq, Eq)]
pub enum HexError {
    /// The character at this position (after any `0x` prefix) is not a hex digit.
    InvalidHexCharacter { c: char, index: usize },
    /// The text has an odd number of characters.
    OddLength,
    /// The text's length does not fit the output.
    InvalidStringLength,
}

/// Why a request is malformed.
#[derive(Debug, Clone, PartialEq, Eq)]
pub enum BadRequest {
    /// The node identifies blocks by root only.
    UnsupportedBlockId(BlockId),
    /// The column id is invalid.
    InvalidColumnId(ValidationError),
    /// The payload is not valid hex.
    InvalidHex(HexError),
    /// The body is not a valid SSZ batch.
    InvalidSsz(SszError),
    /// The batch is malformed.
    InvalidBatch(ValidationError),
}

/// How a request is answered when it is not accepted.
#[derive(Debug, Clone, PartialEq, Eq)]
pub enum ApiError {
    /// 400: the request is malformed.
    BadRequest(BadRequest),
    /// 415: the body is not of the accepted media type; the text is the
    /// content type received.
    UnsupportedMediaType(String),
    /// 503: a transient condition; retrying may help.
    ServiceUnavailable(String),
    /// 500: a fault that no retry fixes.
    InternalError(String),
}

/// Resolve a request-path block id to a block root. The DA node stores by
/// root and keeps no chain of its own, so it honours only a root; the
/// consensus-relative ids are the beacon's to resolve first.
pub fn block_root_from_id(id: BlockId) -> (r: Result<Root, ApiError>)
    ensures
        match id {
            BlockId::Root(root) => r == Ok::<Root, ApiError>(root),
            other => r == Err::<Root, ApiError>(ApiError::BadRequest(BadRequest::UnsupportedBlockId(other))),
        },
{
    match id {
        BlockId::Root(root) => Ok(root),
        other => Err(ApiError::BadRequest(BadRequest::UnsupportedBlockId(other))),
    }
}

/// Map a queue submission error onto the RPC's answers: a full queue is a
/// retryable 503; a vanished verification service while the RPC is still up
/// is a genuine internal fault (500).
pub fn submission_error(err: IngestionError) -> (r: ApiError)
    ensures
        match err {
            IngestionError::Overloaded => r matches ApiError::ServiceUnavailable(m) && m@
                == "verification queue is full; retry shortly"@,
            IngestionError::Closed => r matches ApiError::InternalError(m) && m@
                == "verification service is unavailable"@,
        },
{
    match err {
        IngestionError::Overloaded => ApiError::ServiceUnavailable(
            String::from_str("verification queue is full; retry shortly"),
        ),
        IngestionError::Closed => ApiError::InternalError(
            String::from_str("verification service is unavailable"),
        ),
    }
}

/// The value of a hex digit, given as an ASCII byte.
pub open spec fn hex_digit(b: u8) -> Option<u8> {
    if 48 <= b <= 57 {
        Some((b - 48) as u8)
    } else if 65 <= b <= 70 {
        Some((b - 55) as u8)
    } else if 97 <= b <= 102 {
        Some((b - 87) as u8)
    } else {
        None
    }
}

/// The text without a leading `0x` or `0X`.
pub open spec fn without_hex_prefix(text: Seq<u8>) -> Seq<u8> {
    if text.len() >= 2 && text[0] == 48 && (text[1] == 120 || text[1] == 88) {
        text.skip(2)
    } else {
        text
    }
}

/// Whether position `i` holds the first byte of `body` that is no hex digit.
pub open spec fn is_first_bad_digit(body: Seq<u8>, i: int) -> bool {
    &&& 0 <= i < body.len()
    &&& hex_digit(body[i]) is None
    &&& forall|j: int| 0 <= j < i ==> #[trigger] hex_digit(body[j]) is Some
}

/// Hex decoding of the bytes of a text: an odd length is refused; else an
/// optional `0x` prefix is dropped and every pair of hex digits, high digit
/// first, gives one byte; the first byte that is no hex digit is refused
/// with its position after the prefix.
pub open spec fn hex_decoded(text: Seq<u8>) -> Result<Seq<u8>, HexError> {
    if text.len() % 2 != 0 {
        Err(HexError::OddLength)
    } else {
        let body = without_hex_prefix(text);
        if exists|i: int| 0 <= i < body.len() && #[trigger] hex_digit(body[i]) is None {
            let i = choose|i: int| is_first_bad_digit(body, i);
            Err(HexError::InvalidHexCharacter { c: body[i] as char, index: i as usize })
        } else {
            Ok(
                Seq::new(
                    (body.len() / 2) as nat,
                    |k: int|
                        (hex_digit(body[2 * k])->0 * 16 + hex_digit(body[2 * k + 1])->0) as u8,
                ),
            )
        }
    }
}

/// Calls `alloy_primitives::hex::decode` (the `const-hex` crate) on the
/// text's bytes and carries its error over variant by variant. Claims the
/// decoding that `hex_decoded` states, which is what that crate's
/// documentation and source give.
#[verifier::external_body]
fn decode_hex(text: &str) -> (r: Result<Vec<u8>, HexError>)
    ensures
        match hex_decoded(vstd::utf8::encode_utf8(text@)) {
            Ok(bytes) => r matches Ok(v) && v@ == bytes,
            Err(e) => r == Err::<Vec<u8>, HexError>(e),
        },
{
    match alloy_primitives::hex::decode(text) {
        Ok(bytes) => Ok(bytes),
        Err(alloy_primitives::hex::FromHexError::InvalidHexCharacter { c, index }) => Err(
            HexError::InvalidHexCharacter { c, index },
        ),
        Err(alloy_primitives::hex::FromHexError::OddLength) => Err(HexError::OddLength),
        Err(alloy_primitives::hex::FromHexError::InvalidStringLength) => Err(
            HexError::InvalidStringLength,
        ),
    }
}

/// Body of a single-column ingest request; the payload travels as hex text.
#[derive(Debug, Clone, PartialEq, Eq)]
pub struct IngestRequest {
    pub block_root: Root,
    pub index: u64,
    pub slot: u64,
    pub payload: String,
}

impl IngestRequest {
    /// Turn the request into a candidate column: an index out of range is a
    /// bad request, then a payload that is not hex; else the candidate holds
    /// the root, index, slot and decoded payload.
    pub fn into_candidate(self) -> (r: Result<CandidateColumn, ApiError>)
        ensures
            if self.index >= NUMBER_OF_COLUMNS {
                r == Err::<CandidateColumn, ApiError>(
                    ApiError::BadRequest(
                        BadRequest::InvalidColumnId(
                            ValidationError::InvalidColumnIndex {
                                column_index: self.index,
                                number_of_columns: NUMBER_OF_COLUMNS,
                            },
                        ),
                    ),
                )
            } else {
                match hex_decoded(vstd::utf8::encode_utf8(self.payload@)) {
                    Err(e) => r == Err::<CandidateColumn, ApiError>(
                        ApiError::BadRequest(BadRequest::InvalidHex(e)),
                    ),
                    Ok(bytes) => r matches Ok(c) && c.id@ == (self.block_root@, self.index)
                        && c.context == (ColumnContext { slot: self.slot }) && c.payload@ == bytes,
                }
            },
    {
        let id = match ColumnId::new(self.block_root, self.index) {
            Ok(id) => id,
            Err(e) => return Err(ApiError::BadRequest(BadRequest::InvalidColumnId(e))),
        };
        let payload = match decode_hex(self.payload.as_str()) {
            Ok(payload) => payload,
            Err(e) => return Err(ApiError::BadRequest(BadRequest::InvalidHex(e))),
        };
        Ok(CandidateColumn { id, context: ColumnContext { slot: self.slot }, payload })
    }
}

/// Query of a block-ingest request: the slot of the block the columns belong
/// to, which the node cannot read out of the opaque payloads itself.
#[derive(Debug, Clone, Copy, PartialEq, Eq)]
pub struct BlockIngestQuery {
    pub slot: u64,
}

/// The one media type a block-ingest body may have.
pub open spec fn octet_stream() -> Seq<char> {
    "application/octet-stream"@
}

/// Whether a content type is exactly `application/octet-stream`.
pub fn is_octet_stream(content_type: &str) -> (r: bool)
    ensures
        r == (content_type@ == octet_stream()),
{
    let expected = "application/octet-stream";
    proof {
        reveal_strlit("application/octet-stream");
    }
    let n = expected.unicode_len();
    if content_type.unicode_len() != n {
        return false;
    }
    let mut i: usize = 0;
    while i < n
        invariant
            n == expected@.len(),
            n == content_type@.len(),
            expected@ == octet_stream(),
            i <= n,
            forall|j: int| 0 <= j < i ==> content_type@[j] == expected@[j],
        decreases n - i,
    {
        if content_type.get_char(i) != expected.get_char(i) {
            return false;
        }
        i = i + 1;
    }
    assert(content_type@ =~= expected@);
    true
}

/// Decide a block-ingest request, in order: the body must be
/// `application/octet-stream` (else 415 with the type received); the block
/// must be named by root; the body must decode as an SSZ list of
/// `(column index, payload)` entries; and the entries must form a
/// well-formed batch of that block at the query's slot.
pub fn prepare_block_ingest(
    content_type: &str,
    block_id: BlockId,
    query: BlockIngestQuery,
    body: &[u8],
) -> (r: Result<CandidateBlock, ApiError>)
    ensures
        if content_type@ != octet_stream() {
            r matches Err(ApiError::UnsupportedMediaType(t)) && t@ == content_type@
        } else if !(block_id is Root) {
            r == Err::<CandidateBlock, ApiError>(ApiError::BadRequest(BadRequest::UnsupportedBlockId(block_id)))
        } else {
            match ssz_block_batch(body@) {
                Err(e) => r == Err::<CandidateBlock, ApiError>(
                    ApiError::BadRequest(BadRequest::InvalidSsz(e)),
                ),
                Ok(entries) => match crate::column::batch_fault(crate::column::batch_indices(entries)) {
                    Some(e) => r == Err::<CandidateBlock, ApiError>(
                        ApiError::BadRequest(BadRequest::InvalidBatch(e)),
                    ),
                    None => r matches Ok(b) && b@ == (
                        block_id->Root_0@,
                        ColumnContext { slot: query.slot },
                        entries,
                    ),
                },
            }
        },
{
    if !is_octet_stream(content_type) {
        return Err(ApiError::UnsupportedMediaType(String::from_str(content_type)));
    }
    let block_root = match block_root_from_id(block_id) {
        Ok(root) => root,
        Err(e) => return Err(e),
    };
    let columns = match decode_block_batch(body) {
        Ok(columns) => columns,
        Err(e) => return Err(ApiError::BadRequest(BadRequest::InvalidSsz(e))),
    };
    // The batch is re-checked here (empty, range, duplicates), so a malformed
    // batch is answered 400 instead of failing inside the pipeline.
    match CandidateBlock::new(block_root, ColumnContext { slot: query.slot }, columns) {
        Ok(block) => Ok(block),
        Err(e) => Err(ApiError::BadRequest(BadRequest::InvalidBatch(e))),
    }
}

} // verus!
