use vstd::prelude::*;

verus! {

/// Whether `x` occurs in `v`.
pub fn contains_index(v: &Vec<u64>, x: u64) -> (r: bool)
    ensures
        r == v@.contains(x),
{
    let mut i: usize = 0;
    while i < v.len()
        invariant
            i <= v.len(),
            forall|j: int| 0 <= j < i ==> v@[j] != x,
        decreases v.len() - i,
    {
        if v[i] == x {
            assert(v@[i as int] == x);
            return true;
        }
        i = i + 1;
    }
    false
}

/// Whether a sidecar with this column index is to be fed: every one when no
/// indices are requested, else those whose index is requested.
pub open spec fn is_selected(requested: Option<Seq<u64>>, index: u64) -> bool {
    match requested {
        None => true,
        Some(indices) => indices.contains(index),
    }
}

pub open spec fn requested_view(requested: Option<Vec<u64>>) -> Option<Seq<u64>> {
    match requested {
        None => None,
        Some(v) => Some(v@),
    }
}

/// The positions, ascending, of the sidecars (given by their column
/// indices) that are selected for feeding.
pub fn select_sidecars(sidecar_indices: &Vec<u64>, requested: &Option<Vec<u64>>) -> (r: Vec<usize>)
    ensures
        forall|a: int, b: int| 0 <= a < b < r.len() ==> r[a] < r[b],
        forall|a: int| 0 <= a < r.len() ==> r[a] < sidecar_indices.len(),
        forall|p: int|
            0 <= p < sidecar_indices.len() ==> (r@.contains(p as usize) <==> is_selected(
                requested_view(*requested),
                #[trigger] sidecar_indices[p],
            )),
{
    let mut r: Vec<usize> = Vec::new();
    let mut p: usize = 0;
    while p < sidecar_indices.len()
        invariant
            p <= sidecar_indices.len(),
            forall|a: int, b: int| 0 <= a < b < r.len() ==> r[a] < r[b],
            forall|a: int| 0 <= a < r.len() ==> r[a] < p,
            forall|q: int|
                0 <= q < p ==> (r@.contains(q as usize) <==> is_selected(
                    requested_view(*requested),
                    #[trigger] sidecar_indices[q],
                )),
        decreases sidecar_indices.len() - p,
    {
        let selected = match requested {
            None => true,
            Some(indices) => contains_index(indices, sidecar_indices[p]),
        };
        let ghost prev = r@;
        if selected {
            r.push(p);
        }
        proof {
            assert forall|q: int| 0 <= q < p + 1 implies (r@.contains(q as usize) <==> is_selected(
                requested_view(*requested),
                #[trigger] sidecar_indices[q],
            )) by {
                if q < p {
                    if prev.contains(q as usize) {
                        let w = choose|w: int| 0 <= w < prev.len() && #[trigger] prev[w] == q as usize;
                        assert(r@[w] == q as usize);
                    }
                    if r@.contains(q as usize) {
                        let w = choose|w: int| 0 <= w < r@.len() && #[trigger] r@[w] == q as usize;
                        if w < prev.len() {
                            assert(prev[w] == q as usize);
                        }
                    }
                } else {
                    if selected {
                        assert(r@[r@.len() - 1] == p);
                    } else {
                        if r@.contains(q as usize) {
                            let w = choose|w: int| 0 <= w < r@.len() && #[trigger] r@[w] == q as usize;
                        }
                    }
                }
            }
        }
        p = p + 1;
    }
    r
}

/// How many of the submitted indices are still listed as missing.
pub open spec fn still_missing(submitted: Seq<u64>, missing: Seq<u64>) -> nat
    decreases submitted.len(),
{
    if submitted.len() == 0 {
        0
    } else {
        still_missing(submitted.drop_last(), missing) + if missing.contains(submitted.last()) {
            1nat
        } else {
            0nat
        }
    }
}

/// A single submitted index counts exactly when it is an element of the
/// missing list.
pub proof fn law_still_missing_one(x: u64, missing: Seq<u64>)
    ensures
        still_missing(seq![x], missing) == if missing.contains(x) {
            1nat
        } else {
            0nat
        },
{
    assert(seq![x].drop_last() =~= Seq::<u64>::empty());
    assert(seq![x].last() == x);
    assert(still_missing(Seq::<u64>::empty(), missing) == 0);
}

/// The count over two runs of submitted indices is the sum of their counts.
pub proof fn law_still_missing_adds(a: Seq<u64>, b: Seq<u64>, missing: Seq<u64>)
    ensures
        still_missing(a + b, missing) == still_missing(a, missing) + still_missing(b, missing),
    decreases b.len(),
{
    if b.len() == 0 {
        assert(a + b =~= a);
    } else {
        law_still_missing_adds(a, b.drop_last(), missing);
        assert((a + b).drop_last() =~= a + b.drop_last());
        assert((a + b).last() == b.last());
    }
}

/// Nothing is still missing exactly when no submitted index is an element of
/// the missing list; and the count never exceeds the number submitted.
pub proof fn law_still_missing_zero_iff_none_listed(submitted: Seq<u64>, missing: Seq<u64>)
    ensures
        (still_missing(submitted, missing) == 0) <==> (forall|i: int|
            0 <= i < submitted.len() ==> !missing.contains(#[trigger] submitted[i])),
        still_missing(submitted, missing) <= submitted.len(),
    decreases submitted.len(),
{
    if submitted.len() > 0 {
        let front = submitted.drop_last();
        law_still_missing_zero_iff_none_listed(front, missing);
        if still_missing(submitted, missing) == 0 {
            assert forall|i: int| 0 <= i < submitted.len() implies !missing.contains(
                #[trigger] submitted[i],
            ) by {
                if i < front.len() {
                    assert(front[i] == submitted[i]);
                }
            }
        }
        if forall|i: int| 0 <= i < submitted.len() ==> !missing.contains(#[trigger] submitted[i]) {
            assert forall|i: int| 0 <= i < front.len() implies !missing.contains(#[trigger] front[i]) by {
                assert(front[i] == submitted[i]);
            }
            assert(!missing.contains(submitted[submitted.len() - 1]));
        }
    }
}

pub fn count_still_missing(submitted: &Vec<u64>, missing: &Vec<u64>) -> (r: usize)
    ensures
        r == still_missing(submitted@, missing@),
        (r == 0) <==> (forall|i: int|
            0 <= i < submitted.len() ==> !missing@.contains(#[trigger] submitted@[i])),
{
    proof {
        law_still_missing_zero_iff_none_listed(submitted@, missing@);
    }
    let mut count: usize = 0;
    let mut i: usize = 0;
    while i < submitted.len()
        invariant
            i <= submitted.len(),
            count == still_missing(submitted@.take(i as int), missing@),
            count <= i,
        decreases submitted.len() - i,
    {
        assert(submitted@.take(i + 1).drop_last() =~= submitted@.take(i as int));
        if contains_index(missing, submitted[i]) {
            count = count + 1;
        }
        i = i + 1;
    }
    assert(submitted@.take(i as int) =~= submitted@);
    count
}

/// What the feeding tool does after one availability poll.
#[derive(Debug, Clone, Copy, PartialEq, Eq)]
pub enum PollStep {
    /// Every submitted column is held: report success.
    AllHeld,
    /// The deadline passed with this many submitted columns not held.
    TimedOut { still_missing: usize },
    /// Wait and poll again.
    KeepWaiting,
}

/// Decide after a poll: done once no submitted index is missing; else time
/// out once the deadline has passed, reporting how many are still missing;
/// else wait.
pub fn poll_step(submitted: &Vec<u64>, missing: &Vec<u64>, deadline_passed: bool) -> (r: PollStep)
    ensures
        still_missing(submitted@, missing@) == 0 ==> r == PollStep::AllHeld,
        still_missing(submitted@, missing@) > 0 && deadline_passed ==> r == (PollStep::TimedOut {
            still_missing: still_missing(submitted@, missing@) as usize,
        }),
        still_missing(submitted@, missing@) > 0 && !deadline_passed ==> r == PollStep::KeepWaiting,
        (r == PollStep::AllHeld) <==> (forall|i: int|
            0 <= i < submitted.len() ==> !missing@.contains(#[trigger] submitted@[i])),
{
    proof {
        law_still_missing_zero_iff_none_listed(submitted@, missing@);
    }
    let count = count_still_missing(submitted, missing);
    if count == 0 {
        PollStep::AllHeld
    } else if deadline_passed {
        PollStep::TimedOut { still_missing: count }
    } else {
        PollStep::KeepWaiting
    }
}

/// Why the feeding tool stops before submitting anything.
#[derive(Debug, Clone, Copy, PartialEq, Eq)]
pub enum FeedRefusal {
    /// The block has no blobs: nothing to feed.
    NoBlobs,
    /// No derived sidecar has a requested column index.
    NoMatchingSidecars,
}

/// A block is fed only if it has at least one blob.
pub fn check_blob_count(blob_count: usize) -> (r: Result<(), FeedRefusal>)
    ensures
        blob_count > 0 ==> r == Ok::<(), FeedRefusal>(()),
        blob_count == 0 ==> r == Err::<(), FeedRefusal>(FeedRefusal::NoBlobs),
{
    if blob_count == 0 {
        Err(FeedRefusal::NoBlobs)
    } else {
        Ok(())
    }
}

/// The positions of the sidecars to submit, as `select_sidecars` gives them;
/// refused when there is none.
pub fn choose_sidecars(sidecar_indices: &Vec<u64>, requested: &Option<Vec<u64>>) -> (r: Result<
    Vec<usize>,
    FeedRefusal,
>)
    ensures
        (exists|p: int|
            0 <= p < sidecar_indices.len() && is_selected(
                requested_view(*requested),
                #[trigger] sidecar_indices[p],
            )) ==> (r matches Ok(positions) && {
            &&& positions.len() > 0
            &&& forall|a: int, b: int| 0 <= a < b < positions.len() ==> positions[a] < positions[b]
            &&& forall|a: int| 0 <= a < positions.len() ==> positions[a] < sidecar_indices.len()
            &&& forall|p: int|
                0 <= p < sidecar_indices.len() ==> (positions@.contains(p as usize)
                    <==> is_selected(requested_view(*requested), #[trigger] sidecar_indices[p]))
        }),
        !(exists|p: int|
            0 <= p < sidecar_indices.len() && is_selected(
                requested_view(*requested),
                #[trigger] sidecar_indices[p],
            )) ==> r == Err::<Vec<usize>, FeedRefusal>(FeedRefusal::NoMatchingSidecars),
{
    let positions = select_sidecars(sidecar_indices, requested);
    if positions.len() == 0 {
        proof {
            assert forall|p: int| 0 <= p < sidecar_indices.len() implies !is_selected(
                requested_view(*requested),
                #[trigger] sidecar_indices[p],
            ) by {
                if is_selected(requested_view(*requested), sidecar_indices[p]) {
                    assert(positions@.contains(p as usize));
                }
            }
        }
        Err(FeedRefusal::NoMatchingSidecars)
    } else {
        proof {
            let p = positions[0] as int;
            assert(positions@.contains(positions[0]));
            assert(is_selected(requested_view(*requested), sidecar_indices[p]));
        }
        Ok(positions)
    }
}

/// The lowercase hex digit for a value below 16.
pub open spec fn hex_char(d: int) -> char {
    if d < 10 {
        (48 + d) as char
    } else {
        (87 + d) as char
    }
}

/// Two lowercase hex digits per byte, high digit first.
pub open spec fn hex_text(bytes: Seq<u8>) -> Seq<char> {
    Seq::new(
        2 * bytes.len(),
        |i: int|
            if i % 2 == 0 {
                hex_char(bytes[i / 2] as int / 16)
            } else {
                hex_char(bytes[i / 2] as int % 16)
            },
    )
}

/// Calls `alloy_primitives::hex::encode` (the `const-hex` crate), which
/// writes two lowercase hex digits per byte, high digit first.
#[verifier::external_body]
fn encode_hex(bytes: &[u8]) -> (r: String)
    ensures
        r@ == hex_text(bytes@),
{
    alloy_primitives::hex::encode(bytes)
}

/// The hex text under which a sidecar's SSZ encoding is submitted: `0x`, then
/// two lowercase hex digits per byte.
pub fn ingest_payload_text(ssz: &Vec<u8>) -> (r: String)
    ensures
        r@ == "0x"@ + hex_text(ssz@),
{
    let digits = encode_hex(ssz.as_slice());
    String::from_str("0x").concat(digits.as_str())
}

} // verus!
