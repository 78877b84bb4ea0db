use vstd::prelude::*;

use crate::column::column_pairs_view;
use crate::id::NUMBER_OF_COLUMNS;

verus! {

/// Most payload bytes one entry of a block batch may carry.
pub const MAX_PAYLOAD_BYTES: usize = 16777216;

/// Why a block-batch body is not a valid SSZ encoding of a list of at most
/// `NUMBER_OF_COLUMNS` `(column index, payload)` entries.
#[derive(Debug, Clone, Copy, PartialEq, Eq)]
pub enum SszError {
    /// Too few bytes left to hold a 4-byte offset.
    InvalidLengthPrefix { len: usize, expected: usize },
    /// Too few bytes to hold an entry's fixed part.
    InvalidByteLength { len: usize, expected: usize },
    /// An offset beyond the end of the bytes.
    OffsetOutOfBounds(usize),
    /// An offset into the fixed part.
    OffsetIntoFixedPortion(usize),
    /// An entry's payload offset that leaves bytes unaccounted for.
    OffsetSkipsVariableBytes(usize),
    /// An offset below the one before it.
    OffsetsAreDecreasing(usize),
    /// A first offset that is not a positive multiple of 4.
    InvalidListFixedBytesLen(usize),
    /// More entries than `NUMBER_OF_COLUMNS`.
    TooManyEntries(usize),
    /// A payload longer than `MAX_PAYLOAD_BYTES`.
    PayloadTooLong(usize),
}

/// The little-endian 4-byte number at `at`.
pub open spec fn le_u32(b: Seq<u8>, at: int) -> nat {
    (b[at] + b[at + 1] * 256 + b[at + 2] * 65536 + b[at + 3] * 16777216) as nat
}

/// The little-endian 8-byte number at `at`.
pub open spec fn le_u64(b: Seq<u8>, at: int) -> nat {
    (le_u32(b, at) + le_u32(b, at + 4) * 4294967296) as nat
}

/// One entry: an 8-byte little-endian column index, then a 4-byte offset that
/// must be 12 (the end of the fixed part), then the payload, of at most
/// `MAX_PAYLOAD_BYTES` bytes, up to the end.
pub open spec fn ssz_entry(c: Seq<u8>) -> Result<(u64, Seq<u8>), SszError> {
    if c.len() < 8 {
        Err(SszError::InvalidByteLength { len: c.len() as usize, expected: 8 })
    } else if c.len() < 12 {
        Err(SszError::InvalidLengthPrefix { len: (c.len() - 8) as usize, expected: 4 })
    } else {
        let off = le_u32(c, 8);
        if off > c.len() {
            Err(SszError::OffsetOutOfBounds(off as usize))
        } else if off < 12 {
            Err(SszError::OffsetIntoFixedPortion(off as usize))
        } else if off > 12 {
            Err(SszError::OffsetSkipsVariableBytes(off as usize))
        } else if c.len() - 12 > MAX_PAYLOAD_BYTES {
            Err(SszError::PayloadTooLong((c.len() - 12) as usize))
        } else {
            Ok((le_u64(c, 0) as u64, c.skip(12)))
        }
    }
}

/// The entries from the `i`-th of `n` on, the `i`-th starting at `offset`.
/// Before an entry other than the last is decoded, the offset of the next is
/// read (at `4 * (i + 1)`) and must lie in `first..=b.len()` and not below
/// `offset`; the last entry runs to the end.
#[verifier::opaque]
pub open spec fn ssz_entries(b: Seq<u8>, first: nat, n: nat, i: nat, offset: nat) -> Result<
    Seq<(u64, Seq<u8>)>,
    SszError,
>
    decreases n - i,
{
    if i >= n {
        Ok(Seq::empty())
    } else if i + 1 == n {
        match ssz_entry(b.subrange(offset as int, b.len() as int)) {
            Ok(e) => Ok(seq![e]),
            Err(x) => Err(x),
        }
    } else {
        let next = le_u32(b, (4 * (i + 1)) as int);
        if next < first {
            Err(SszError::OffsetIntoFixedPortion(next as usize))
        } else if next > b.len() {
            Err(SszError::OffsetOutOfBounds(next as usize))
        } else if offset > next {
            Err(SszError::OffsetsAreDecreasing(next as usize))
        } else {
            match ssz_entry(b.subrange(offset as int, next as int)) {
                Err(x) => Err(x),
                Ok(e) => match ssz_entries(b, first, n, i + 1, next) {
                    Err(x) => Err(x),
                    Ok(rest) => Ok(seq![e] + rest),
                },
            }
        }
    }
}

/// The SSZ decoding of a block-batch body: no bytes are no entries; else the
/// first 4 bytes are the offset of the first entry, which must lie within
/// the body and be a positive multiple of 4 giving the number of entries, at
/// most `NUMBER_OF_COLUMNS`; the offsets of the others follow it.
pub open spec fn ssz_block_batch(b: Seq<u8>) -> Result<Seq<(u64, Seq<u8>)>, SszError> {
    if b.len() == 0 {
        Ok(Seq::empty())
    } else if b.len() < 4 {
        Err(SszError::InvalidLengthPrefix { len: b.len() as usize, expected: 4 })
    } else {
        let first = le_u32(b, 0);
        if first > b.len() {
            Err(SszError::OffsetOutOfBounds(first as usize))
        } else if first % 4 != 0 || first < 4 {
            Err(SszError::InvalidListFixedBytesLen(first as usize))
        } else if first / 4 > NUMBER_OF_COLUMNS {
            Err(SszError::TooManyEntries((first / 4) as usize))
        } else {
            ssz_entries(b, first, first / 4, 0, first)
        }
    }
}

/// The entries decoded so far, put in front of what the rest decodes to.
pub open spec fn after_decoded(
    done: Seq<(u64, Seq<u8>)>,
    rest: Result<Seq<(u64, Seq<u8>)>, SszError>,
) -> Result<Seq<(u64, Seq<u8>)>, SszError> {
    match rest {
        Ok(r) => Ok(done + r),
        Err(x) => Err(x),
    }
}

fn read_le_u32(b: &[u8], at: usize) -> (r: usize)
    requires
        at + 4 <= b@.len(),
    ensures
        r == le_u32(b@, at as int),
{
    let v: u64 = b[at] as u64 + (b[at + 1] as u64) * 256 + (b[at + 2] as u64) * 65536 + (
    b[at + 3] as u64) * 16777216;
    v as usize
}

fn read_le_u64(b: &[u8], at: usize) -> (r: u64)
    requires
        at + 8 <= b@.len(),
    ensures
        r == le_u64(b@, at as int),
{
    let low: u64 = b[at] as u64 + (b[at + 1] as u64) * 256 + (b[at + 2] as u64) * 65536 + (
    b[at + 3] as u64) * 16777216;
    let high: u64 = b[at + 4] as u64 + (b[at + 5] as u64) * 256 + (b[at + 6] as u64) * 65536 + (
    b[at + 7] as u64) * 16777216;
    low + high * 4294967296
}

fn copy_range(b: &[u8], from: usize, to: usize) -> (r: Vec<u8>)
    requires
        from <= to <= b@.len(),
    ensures
        r@ == b@.subrange(from as int, to as int),
{
    let mut r: Vec<u8> = Vec::new();
    let mut k: usize = from;
    while k < to
        invariant
            from <= k <= to <= b@.len(),
            r@ == b@.subrange(from as int, k as int),
        decreases to - k,
    {
        r.push(b[k]);
        k = k + 1;
        assert(r@ =~= b@.subrange(from as int, k as int));
    }
    r
}

/// Decode the entry held by `b[start..end]`.
fn decode_entry(b: &[u8], start: usize, end: usize) -> (r: Result<(u64, Vec<u8>), SszError>)
    requires
        start <= end <= b@.len(),
    ensures
        match ssz_entry(b@.subrange(start as int, end as int)) {
            Ok(e) => r matches Ok(v) && (v.0, v.1@) == e,
            Err(x) => r == Err::<(u64, Vec<u8>), SszError>(x),
        },
{
    let ghost c = b@.subrange(start as int, end as int);
    let len = end - start;
    if len < 8 {
        return Err(SszError::InvalidByteLength { len, expected: 8 });
    }
    if len < 12 {
        return Err(SszError::InvalidLengthPrefix { len: len - 8, expected: 4 });
    }
    let off = read_le_u32(b, start + 8);
    assert(off == le_u32(c, 8));
    if off > len {
        return Err(SszError::OffsetOutOfBounds(off));
    }
    if off < 12 {
        return Err(SszError::OffsetIntoFixedPortion(off));
    }
    if off > 12 {
        return Err(SszError::OffsetSkipsVariableBytes(off));
    }
    if len - 12 > MAX_PAYLOAD_BYTES {
        return Err(SszError::PayloadTooLong(len - 12));
    }
    let index = read_le_u64(b, start);
    assert(index == le_u64(c, 0));
    let payload = copy_range(b, start + 12, end);
    assert(payload@ =~= c.skip(12));
    Ok((index, payload))
}

/// Decode a block-batch body into its `(column index, payload)` entries, in
/// order.
pub fn decode_block_batch(body: &[u8]) -> (r: Result<Vec<(u64, Vec<u8>)>, SszError>)
    ensures
        match ssz_block_batch(body@) {
            Ok(entries) => r matches Ok(v) && column_pairs_view(v@) == entries,
            Err(x) => r == Err::<Vec<(u64, Vec<u8>)>, SszError>(x),
        },
        r matches Ok(v) ==> batch_encoding(column_pairs_view(v@)) == body@,
{
    proof {
        if ssz_block_batch(body@) is Ok {
            law_decoded_batch_encodes_back(body@);
        }
    }
    let len = body.len();
    let mut out: Vec<(u64, Vec<u8>)> = Vec::new();
    if len == 0 {
        assert(column_pairs_view(out@) =~= Seq::empty());
        return Ok(out);
    }
    if len < 4 {
        return Err(SszError::InvalidLengthPrefix { len, expected: 4 });
    }
    let first = read_le_u32(body, 0);
    if first > len {
        return Err(SszError::OffsetOutOfBounds(first));
    }
    if first % 4 != 0 || first < 4 {
        return Err(SszError::InvalidListFixedBytesLen(first));
    }
    let n = first / 4;
    if n > 128 {
        return Err(SszError::TooManyEntries(n));
    }
    let ghost whole = ssz_entries(body@, first as nat, n as nat, 0, first as nat);
    assert(whole == ssz_block_batch(body@));
    let mut i: usize = 0;
    let mut offset: usize = first;
    assert(column_pairs_view(out@) =~= Seq::empty());
    assert(after_decoded(Seq::empty(), whole) =~~= whole);
    while i < n
        invariant
            len == body@.len(),
            4 <= first <= len,
            n == first / 4,
            n <= 128,
            i <= n,
            first <= offset <= len,
            whole == ssz_entries(body@, first as nat, n as nat, 0, first as nat),
            whole == ssz_block_batch(body@),
            whole == after_decoded(
                column_pairs_view(out@),
                ssz_entries(body@, first as nat, n as nat, i as nat, offset as nat),
            ),
        decreases n - i,
    {
        let ghost done = column_pairs_view(out@);
        let ghost here = ssz_entries(body@, first as nat, n as nat, i as nat, offset as nat);
        proof {
            reveal(ssz_entries);
        }
        if i + 1 == n {
            let entry = match decode_entry(body, offset, len) {
                Ok(entry) => entry,
                Err(x) => return Err(x),
            };
            let ghost e = (entry.0, entry.1@);
            out.push(entry);
            assert(column_pairs_view(out@) =~= done.push(e));
            assert(done + seq![e] =~= done.push(e));
            i = i + 1;
        } else {
            let next = read_le_u32(body, 4 * (i + 1));
            if next < first {
                return Err(SszError::OffsetIntoFixedPortion(next));
            }
            if next > len {
                return Err(SszError::OffsetOutOfBounds(next));
            }
            if offset > next {
                return Err(SszError::OffsetsAreDecreasing(next));
            }
            let entry = match decode_entry(body, offset, next) {
                Ok(entry) => entry,
                Err(x) => return Err(x),
            };
            let ghost e = (entry.0, entry.1@);
            let ghost rest = ssz_entries(body@, first as nat, n as nat, (i + 1) as nat, next as nat);
            out.push(entry);
            assert(column_pairs_view(out@) =~= done.push(e));
            proof {
                if let Ok(r) = rest {
                    assert(done + (seq![e] + r) =~= done.push(e) + r);
                }
            }
            i = i + 1;
            offset = next;
        }
    }
    proof {
        reveal(ssz_entries);
    }
    assert(column_pairs_view(out@) + Seq::<(u64, Seq<u8>)>::empty() =~= column_pairs_view(out@));
    Ok(out)
}

/// The 4 little-endian bytes of a number below 2^32.
pub open spec fn u32_le_bytes(x: nat) -> Seq<u8> {
    seq![(x % 256) as u8, ((x / 256) % 256) as u8, ((x / 65536) % 256) as u8, ((x / 16777216) % 256) as u8]
}

/// The 8 little-endian bytes of a number below 2^64.
pub open spec fn u64_le_bytes(x: nat) -> Seq<u8> {
    u32_le_bytes(x % 4294967296) + u32_le_bytes(x / 4294967296)
}

/// The SSZ encoding of one entry: the column index in 8 little-endian bytes,
/// the payload's offset 12 in 4, then the payload.
pub open spec fn entry_encoding(e: (u64, Seq<u8>)) -> Seq<u8> {
    u64_le_bytes(e.0 as nat) + u32_le_bytes(12) + e.1
}

/// The encodings of the entries, one after the other.
pub open spec fn entries_encoding(es: Seq<(u64, Seq<u8>)>) -> Seq<u8>
    decreases es.len(),
{
    if es.len() == 0 {
        Seq::empty()
    } else {
        entry_encoding(es[0]) + entries_encoding(es.skip(1))
    }
}

/// The 4-byte offsets of the entries, the first at `at`, each next one past
/// the encoding of the one before.
pub open spec fn offsets_encoding(es: Seq<(u64, Seq<u8>)>, at: nat) -> Seq<u8>
    decreases es.len(),
{
    if es.len() == 0 {
        Seq::empty()
    } else {
        u32_le_bytes(at) + offsets_encoding(es.skip(1), at + entry_encoding(es[0]).len())
    }
}

/// The SSZ encoding of a list of entries: their offsets, then the entries.
pub open spec fn batch_encoding(es: Seq<(u64, Seq<u8>)>) -> Seq<u8> {
    offsets_encoding(es, 4 * es.len()) + entries_encoding(es)
}

proof fn lemma_bytes_of_u32(b0: u32, b1: u32, b2: u32, b3: u32)
    by (bit_vector)
    requires
        b0 < 256,
        b1 < 256,
        b2 < 256,
        b3 < 256,
    ensures
        (b0 + b1 * 256 + b2 * 65536 + b3 * 16777216) % 256 == b0,
        ((b0 + b1 * 256 + b2 * 65536 + b3 * 16777216) / 256) % 256 == b1,
        ((b0 + b1 * 256 + b2 * 65536 + b3 * 16777216) / 65536) % 256 == b2,
        ((b0 + b1 * 256 + b2 * 65536 + b3 * 16777216) / 16777216) % 256 == b3,
{
}

/// Re-encoding the number read from 4 bytes gives back those bytes.
proof fn lemma_u32_round_trip(b: Seq<u8>, at: int)
    requires
        0 <= at,
        at + 4 <= b.len(),
    ensures
        u32_le_bytes(le_u32(b, at)) =~= b.subrange(at, at + 4),
        le_u32(b, at) < 4294967296,
{
    lemma_bytes_of_u32(b[at] as u32, b[at + 1] as u32, b[at + 2] as u32, b[at + 3] as u32);
}

/// Re-encoding the number read from 8 bytes gives back those bytes.
proof fn lemma_u64_round_trip(b: Seq<u8>, at: int)
    requires
        0 <= at,
        at + 8 <= b.len(),
    ensures
        u64_le_bytes(le_u64(b, at)) =~= b.subrange(at, at + 8),
        le_u64(b, at) < 0x1_0000_0000_0000_0000,
{
    lemma_u32_round_trip(b, at);
    lemma_u32_round_trip(b, at + 4);
    let lo = le_u32(b, at) as int;
    let hi = le_u32(b, at + 4) as int;
    assert((lo + hi * 4294967296) % 4294967296 == lo && (lo + hi * 4294967296) / 4294967296 == hi)
        by (nonlinear_arith)
        requires
            0 <= lo < 4294967296,
            0 <= hi,
    ;
    assert(lo + hi * 4294967296 < 0x1_0000_0000_0000_0000) by (nonlinear_arith)
        requires
            0 <= lo < 4294967296,
            0 <= hi < 4294967296,
    ;
}

/// An entry decoded from bytes encodes back to exactly those bytes.
proof fn lemma_entry_round_trip(c: Seq<u8>)
    requires
        ssz_entry(c) is Ok,
    ensures
        entry_encoding(ssz_entry(c)->Ok_0) =~= c,
{
    lemma_u64_round_trip(c, 0);
    lemma_u32_round_trip(c, 8);
    let e = ssz_entry(c)->Ok_0;
    assert(e.0 as nat == le_u64(c, 0));
    assert(c =~= c.subrange(0, 8) + c.subrange(8, 12) + c.skip(12));
}

/// Encoding an entry in front of others puts its encoding and its offset in
/// front of theirs.
proof fn lemma_encoding_cons(e: (u64, Seq<u8>), tail: Seq<(u64, Seq<u8>)>, at: nat)
    ensures
        entries_encoding(seq![e] + tail) == entry_encoding(e) + entries_encoding(tail),
        offsets_encoding(seq![e] + tail, at) == u32_le_bytes(at) + offsets_encoding(
            tail,
            at + entry_encoding(e).len(),
        ),
{
    let es = seq![e] + tail;
    assert(es[0] == e);
    assert(es.skip(1) =~= tail);
}

/// One step of decoding the entries before the last: what `ssz_entries`
/// says when it succeeds.
proof fn lemma_entries_step(b: Seq<u8>, first: nat, n: nat, i: nat, offset: nat)
    requires
        i + 1 < n,
        ssz_entries(b, first, n, i, offset) is Ok,
    ensures
        ({
            let next = le_u32(b, (4 * (i + 1)) as int);
            let c = b.subrange(offset as int, next as int);
            &&& first <= next <= b.len()
            &&& offset <= next
            &&& ssz_entry(c) is Ok
            &&& ssz_entries(b, first, n, i + 1, next) is Ok
            &&& ssz_entries(b, first, n, i, offset)->Ok_0 == seq![ssz_entry(c)->Ok_0]
                + ssz_entries(b, first, n, i + 1, next)->Ok_0
        }),
{
    reveal(ssz_entries);
}

/// The last step of decoding the entries.
proof fn lemma_entries_last(b: Seq<u8>, first: nat, n: nat, i: nat, offset: nat)
    requires
        i + 1 == n,
        ssz_entries(b, first, n, i, offset) is Ok,
    ensures
        ssz_entry(b.subrange(offset as int, b.len() as int)) is Ok,
        ssz_entries(b, first, n, i, offset)->Ok_0 == seq![
            ssz_entry(b.subrange(offset as int, b.len() as int))->Ok_0,
        ],
{
    reveal(ssz_entries);
}

/// The last entry encodes back to the bytes from its offset to the end.
proof fn lemma_last_round_trip(b: Seq<u8>, first: nat, n: nat, i: nat, offset: nat)
    requires
        i + 1 == n,
        4 * n == first,
        first <= offset <= b.len(),
        ssz_entries(b, first, n, i, offset) is Ok,
    ensures
        ssz_entries(b, first, n, i, offset)->Ok_0.len() == n - i,
        entries_encoding(ssz_entries(b, first, n, i, offset)->Ok_0) =~= b.subrange(
            offset as int,
            b.len() as int,
        ),
        offsets_encoding(ssz_entries(b, first, n, i, offset)->Ok_0, offset) =~= u32_le_bytes(offset)
            + b.subrange((4 * (i + 1)) as int, (4 * n) as int),
{
    lemma_entries_last(b, first, n, i, offset);
    let c = b.subrange(offset as int, b.len() as int);
    lemma_entry_round_trip(c);
    let e = ssz_entry(c)->Ok_0;
    lemma_encoding_cons(e, Seq::empty(), offset);
    assert(seq![e] + Seq::<(u64, Seq<u8>)>::empty() =~= seq![e]);
    assert(entries_encoding(Seq::<(u64, Seq<u8>)>::empty()) == Seq::<u8>::empty());
    assert(offsets_encoding(Seq::<(u64, Seq<u8>)>::empty(), (offset + entry_encoding(e).len()) as nat)
        == Seq::<u8>::empty());
}

/// Decoding from the `i`-th of `n` entries on, the `i`-th starting at
/// `offset`: the entries encode back to the bytes from `offset` to the end,
/// and their offsets to the offset table from the `i`-th slot on.
proof fn lemma_entries_round_trip(b: Seq<u8>, first: nat, n: nat, i: nat, offset: nat)
    requires
        i < n,
        4 * n == first,
        first <= offset <= b.len(),
        ssz_entries(b, first, n, i, offset) is Ok,
    ensures
        ssz_entries(b, first, n, i, offset)->Ok_0.len() == n - i,
        entries_encoding(ssz_entries(b, first, n, i, offset)->Ok_0) =~= b.subrange(
            offset as int,
            b.len() as int,
        ),
        offsets_encoding(ssz_entries(b, first, n, i, offset)->Ok_0, offset) =~= u32_le_bytes(offset)
            + b.subrange((4 * (i + 1)) as int, (4 * n) as int),
    decreases n - i,
{
    if i + 1 == n {
        lemma_last_round_trip(b, first, n, i, offset);
    } else {
        lemma_entries_step(b, first, n, i, offset);
        let next = le_u32(b, (4 * (i + 1)) as int);
        lemma_entries_round_trip(b, first, n, i + 1, next);
        lemma_step_round_trip(b, first, n, i, offset, next);
    }
}

/// One step of the round trip: the `i`-th entry's bytes and offset, put in
/// front of what the entries after it encode back to.
proof fn lemma_step_round_trip(b: Seq<u8>, first: nat, n: nat, i: nat, offset: nat, next: nat)
    requires
        i + 1 < n,
        4 * n == first,
        first <= offset <= next <= b.len(),
        next == le_u32(b, (4 * (i + 1)) as int),
        ssz_entry(b.subrange(offset as int, next as int)) is Ok,
        ssz_entries(b, first, n, i + 1, next) is Ok,
        ssz_entries(b, first, n, i, offset)->Ok_0 == seq![
            ssz_entry(b.subrange(offset as int, next as int))->Ok_0,
        ] + ssz_entries(b, first, n, i + 1, next)->Ok_0,
        ssz_entries(b, first, n, i + 1, next)->Ok_0.len() == n - (i + 1),
        entries_encoding(ssz_entries(b, first, n, i + 1, next)->Ok_0) =~= b.subrange(
            next as int,
            b.len() as int,
        ),
        offsets_encoding(ssz_entries(b, first, n, i + 1, next)->Ok_0, next) =~= u32_le_bytes(next)
            + b.subrange((4 * (i + 2)) as int, (4 * n) as int),
    ensures
        ssz_entries(b, first, n, i, offset)->Ok_0.len() == n - i,
        entries_encoding(ssz_entries(b, first, n, i, offset)->Ok_0) =~= b.subrange(
            offset as int,
            b.len() as int,
        ),
        offsets_encoding(ssz_entries(b, first, n, i, offset)->Ok_0, offset) =~= u32_le_bytes(offset)
            + b.subrange((4 * (i + 1)) as int, (4 * n) as int),
{
    let c = b.subrange(offset as int, next as int);
    let e = ssz_entry(c)->Ok_0;
    let tail = ssz_entries(b, first, n, i + 1, next)->Ok_0;
    lemma_entry_round_trip(c);
    lemma_encoding_cons(e, tail, offset);
    assert(entry_encoding(e).len() == next - offset);
    assert(b.subrange(offset as int, b.len() as int) =~= c + b.subrange(next as int, b.len() as int));
    lemma_u32_round_trip(b, (4 * (i + 1)) as int);
    assert(b.subrange((4 * (i + 1)) as int, (4 * n) as int) =~= b.subrange(
        (4 * (i + 1)) as int,
        (4 * (i + 2)) as int,
    ) + b.subrange((4 * (i + 2)) as int, (4 * n) as int));
}

/// Decoding loses nothing: whenever a body decodes, encoding the decoded
/// entries gives back the body, byte for byte. So every payload is carried
/// verbatim, every index is the one written, and no byte is skipped.
pub proof fn law_decoded_batch_encodes_back(body: Seq<u8>)
    requires
        ssz_block_batch(body) is Ok,
    ensures
        batch_encoding(ssz_block_batch(body)->Ok_0) =~= body,
{
    let es = ssz_block_batch(body)->Ok_0;
    if body.len() == 0 {
        assert(es =~= Seq::<(u64, Seq<u8>)>::empty());
        assert(batch_encoding(es) =~= Seq::<u8>::empty());
    } else {
        let first = le_u32(body, 0);
        let n = first / 4;
        assert(4 <= first <= body.len() && first % 4 == 0);
        assert(ssz_block_batch(body) == ssz_entries(body, first, n, 0, first));
        lemma_entries_round_trip(body, first, n, 0, first);
        lemma_u32_round_trip(body, 0);
        assert(body =~= body.subrange(0, 4) + body.subrange(4, (4 * n) as int) + body.subrange(
            first as int,
            body.len() as int,
        ));
    }
}

} // verus!
