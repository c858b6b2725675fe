//! Facts that relate several scans to one another.
use vstd::prelude::*;

use crate::matching::{fits, match_offsets, matches_at, matches_between};
use crate::mt::{joined_matches, lemma_joined_tiles, tiles};

verus! {

/// However the offsets of a buffer are divided into contiguous ranges among the
/// workers, joining the workers' match lists in range order gives exactly the
/// list that the sequential scan gives.
pub proof fn parallel_scan_equals_sequential(
    buf: Seq<u8>,
    pat: Seq<Option<u8>>,
    ranges: Seq<(usize, usize)>,
)
    requires
        tiles(ranges, buf.len() as int),
    ensures
        joined_matches(buf, pat, ranges) == match_offsets(buf, pat),
{
    lemma_joined_tiles(buf, pat, ranges, buf.len() as int);
}

/// Turning the exact byte at position `k` of a mask into a wildcard keeps every
/// match.
pub proof fn wildcard_keeps_match(buf: Seq<u8>, pat: Seq<Option<u8>>, k: int, i: int)
    requires
        0 <= k < pat.len(),
        matches_at(buf, pat, i),
    ensures
        matches_at(buf, pat.update(k, None), i),
{
    let relaxed = pat.update(k, None);
    let window = buf.subrange(i, i + pat.len());
    assert forall|j: int| 0 <= j < relaxed.len() implies (#[trigger] relaxed[j] is None
        || relaxed[j] == Some(window[j])) by {
        if j != k {
            assert(pat[j] is None || pat[j] == Some(window[j]));
        }
    }
    assert(fits(window, relaxed));
}

proof fn lemma_relaxed_count(buf: Seq<u8>, pat: Seq<Option<u8>>, k: int, lo: int, hi: int)
    requires
        0 <= k < pat.len(),
    ensures
        matches_between(buf, pat.update(k, None), lo, hi).len() >= matches_between(
            buf,
            pat,
            lo,
            hi,
        ).len(),
    decreases hi - lo,
{
    if hi > lo {
        lemma_relaxed_count(buf, pat, k, lo, hi - 1);
        if matches_at(buf, pat, hi - 1) {
            wildcard_keeps_match(buf, pat, k, hi - 1);
        }
    }
}

/// Turning the exact byte at position `k` of a mask into a wildcard never
/// lowers the number of matches in a buffer.
pub proof fn wildcard_never_lowers_match_count(buf: Seq<u8>, pat: Seq<Option<u8>>, k: int)
    requires
        0 <= k < pat.len(),
    ensures
        match_offsets(buf, pat.update(k, None)).len() >= match_offsets(buf, pat).len(),
{
    lemma_relaxed_count(buf, pat, k, 0, buf.len() as int);
}

} // verus!
