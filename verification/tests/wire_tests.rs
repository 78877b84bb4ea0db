use ream_da::wire::{decode_block_batch, SszError, MAX_PAYLOAD_BYTES};
use ssz::{Decode, DecodeError, SszDecoderBuilder};
use ssz_types::{typenum, VariableList};

struct WireEntry {
    index: u64,
    payload: VariableList<u8, typenum::U16777216>,
}

impl Decode for WireEntry {
    fn is_ssz_fixed_len() -> bool {
        false
    }

    fn from_ssz_bytes(bytes: &[u8]) -> Result<Self, DecodeError> {
        let mut builder = SszDecoderBuilder::new(bytes);
        builder.register_type::<u64>()?;
        builder.register_type::<VariableList<u8, typenum::U16777216>>()?;
        let mut decoder = builder.build()?;
        Ok(WireEntry {
            index: decoder.decode_next()?,
            payload: decoder.decode_next()?,
        })
    }
}

fn reference(body: &[u8]) -> Result<Vec<(u64, Vec<u8>)>, DecodeError> {
    VariableList::<WireEntry, typenum::U128>::from_ssz_bytes(body)
        .map(|list| list.into_iter().map(|e| (e.index, e.payload.to_vec())).collect())
}

fn as_decode_error(err: SszError) -> DecodeError {
    match err {
        SszError::InvalidLengthPrefix { len, expected } => {
            DecodeError::InvalidLengthPrefix { len, expected }
        }
        SszError::InvalidByteLength { len, expected } => {
            DecodeError::InvalidByteLength { len, expected }
        }
        SszError::OffsetOutOfBounds(o) => DecodeError::OffsetOutOfBounds(o),
        SszError::OffsetIntoFixedPortion(o) => DecodeError::OffsetIntoFixedPortion(o),
        SszError::OffsetSkipsVariableBytes(o) => DecodeError::OffsetSkipsVariableBytes(o),
        SszError::OffsetsAreDecreasing(o) => DecodeError::OffsetsAreDecreasing(o),
        SszError::InvalidListFixedBytesLen(o) => DecodeError::InvalidListFixedBytesLen(o),
        SszError::TooManyEntries(n) => DecodeError::BytesInvalid(format!(
            "Variable length list of {} items exceeds maximum of {:?}",
            n,
            Some(128usize)
        )),
        SszError::PayloadTooLong(n) => DecodeError::BytesInvalid(format!(
            "VariableList of {} items exceeds maximum of {}",
            n, MAX_PAYLOAD_BYTES
        )),
    }
}

fn entry(index: u64, payload: &[u8]) -> Vec<u8> {
    let mut part = index.to_le_bytes().to_vec();
    part.extend_from_slice(&12u32.to_le_bytes());
    part.extend_from_slice(payload);
    part
}

fn list(parts: &[Vec<u8>]) -> Vec<u8> {
    let mut body = Vec::new();
    let mut offset = 4 * parts.len();
    for part in parts {
        body.extend_from_slice(&(offset as u32).to_le_bytes());
        offset += part.len();
    }
    for part in parts {
        body.extend_from_slice(part);
    }
    body
}

#[test]
fn empty_body_is_no_entries() {
    assert_eq!(decode_block_batch(&[]), Ok(vec![]));
}

#[test]
fn entries_decode_in_order() {
    let body = list(&[entry(5, &[1, 2]), entry(0x0102030405060708, &[]), entry(127, &[9])]);
    assert_eq!(
        decode_block_batch(&body),
        Ok(vec![(5, vec![1, 2]), (0x0102030405060708, vec![]), (127, vec![9])])
    );
}

#[test]
fn short_body_has_no_offset() {
    assert_eq!(
        decode_block_batch(&[4, 0]),
        Err(SszError::InvalidLengthPrefix { len: 2, expected: 4 })
    );
}

#[test]
fn first_offset_must_be_in_bounds_and_a_multiple_of_four() {
    assert_eq!(decode_block_batch(&[9, 0, 0, 0]), Err(SszError::OffsetOutOfBounds(9)));
    let mut body = list(&[entry(1, &[])]);
    body[0] = 3;
    assert_eq!(decode_block_batch(&body), Err(SszError::InvalidListFixedBytesLen(3)));
    assert_eq!(decode_block_batch(&[0, 0, 0, 0]), Err(SszError::InvalidListFixedBytesLen(0)));
}

#[test]
fn more_than_one_block_of_entries_is_refused() {
    let parts: Vec<Vec<u8>> = (0..129u64).map(|i| entry(i, &[])).collect();
    assert_eq!(decode_block_batch(&list(&parts)), Err(SszError::TooManyEntries(129)));
}

#[test]
fn later_offsets_are_checked() {
    let mut body = list(&[entry(1, &[]), entry(2, &[])]);
    body[4] = 4;
    assert_eq!(decode_block_batch(&body), Err(SszError::OffsetIntoFixedPortion(4)));
    let mut body = list(&[entry(1, &[]), entry(2, &[])]);
    body[4] = 200;
    assert_eq!(decode_block_batch(&body), Err(SszError::OffsetOutOfBounds(200)));
}

#[test]
fn malformed_entries_are_refused() {
    assert_eq!(
        decode_block_batch(&list(&[vec![1, 2, 3]])),
        Err(SszError::InvalidByteLength { len: 3, expected: 8 })
    );
    assert_eq!(
        decode_block_batch(&list(&[vec![0; 10]])),
        Err(SszError::InvalidLengthPrefix { len: 2, expected: 4 })
    );
    let mut part = entry(1, &[5]);
    part[8] = 14;
    assert_eq!(decode_block_batch(&list(&[part])), Err(SszError::OffsetOutOfBounds(14)));
    let mut part = entry(1, &[5, 6]);
    part[8] = 13;
    assert_eq!(decode_block_batch(&list(&[part])), Err(SszError::OffsetSkipsVariableBytes(13)));
    let mut part = entry(1, &[5]);
    part[8] = 11;
    assert_eq!(decode_block_batch(&list(&[part])), Err(SszError::OffsetIntoFixedPortion(11)));
}

#[test]
fn oversized_payload_is_refused() {
    let payload = vec![0u8; MAX_PAYLOAD_BYTES + 1];
    assert_eq!(
        decode_block_batch(&list(&[entry(1, &payload)])),
        Err(SszError::PayloadTooLong(MAX_PAYLOAD_BYTES + 1))
    );
}

#[test]
fn decoding_agrees_with_the_ssz_crate() {
    let mut bodies: Vec<Vec<u8>> = vec![
        vec![],
        vec![1, 2],
        list(&[entry(5, &[1, 2]), entry(9, &[])]),
        list(&[entry(1, &[7; 40]), entry(2, &[8]), entry(3, &[])]),
        list(&[vec![0; 11]]),
        list(&(0..129u64).map(|i| entry(i, &[])).collect::<Vec<_>>()),
        list(&(0..128u64).map(|i| entry(i, &[i as u8])).collect::<Vec<_>>()),
        list(&[entry(1, &vec![0u8; MAX_PAYLOAD_BYTES + 1])]),
        list(&[vec![1, 2, 3]]),
        list(&[vec![0; 10]]),
    ];
    let base = list(&[entry(1, &[3, 4]), entry(2, &[5])]);
    for position in 0..base.len() {
        for value in [0u8, 3, 4, 11, 12, 13, 14, 26, 255] {
            let mut body = base.clone();
            body[position] = value;
            bodies.push(body);
        }
    }
    for body in &bodies {
        assert_eq!(
            decode_block_batch(body).map_err(as_decode_error),
            reference(body),
            "body {body:?}"
        );
    }
}
