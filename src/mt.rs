//! Scanning on a pool of worker threads. The candidate offsets are divided into
//! contiguous ranges, one per worker; each worker lists the matches of its range
//! and the lists are joined in range order.
use rayon::iter::{IndexedParallelIterator, IntoParallelRefIterator, ParallelIterator};
use rayon::slice::ParallelSlice;
use vstd::arithmetic::div_mod::lemma_fundamental_div_mod;
use vstd::prelude::*;

use crate::error::PatternScannerError;
use crate::matching::{
    fits, lemma_between_members, lemma_between_none, lemma_between_split, lemma_oversized_no_match, match_offsets,
    matches_at, matches_between, scan_range, window_matches,
};
use crate::pattern::{compiled, compiles, create_bytes_from_string, first_error};

verus! {

/// `ranges` divides the offsets `[0, count)` into contiguous ranges, in order.
pub open spec fn tiles(ranges: Seq<(usize, usize)>, count: int) -> bool {
    &&& forall|k: int| 0 <= k < ranges.len() ==> (#[trigger] ranges[k]).0 <= ranges[k].1
    &&& forall|k: int| 0 < k < ranges.len() ==> (#[trigger] ranges[k]).0 == ranges[k - 1].1
    &&& if ranges.len() == 0 {
        count == 0
    } else {
        ranges[0].0 == 0 && ranges.last().1 == count
    }
}

/// The matches of each range of `ranges`, joined in order.
pub open spec fn joined_matches(
    buf: Seq<u8>,
    pat: Seq<Option<u8>>,
    ranges: Seq<(usize, usize)>,
) -> Seq<usize>
    decreases ranges.len(),
{
    if ranges.len() == 0 {
        seq![]
    } else {
        joined_matches(buf, pat, ranges.drop_last()) + matches_between(
            buf,
            pat,
            ranges.last().0 as int,
            ranges.last().1 as int,
        )
    }
}

/// Joining the matches of the ranges of a division of `[0, count)` gives the
/// matches of `[0, count)`.
pub proof fn lemma_joined_tiles(
    buf: Seq<u8>,
    pat: Seq<Option<u8>>,
    ranges: Seq<(usize, usize)>,
    count: int,
)
    requires
        tiles(ranges, count),
    ensures
        joined_matches(buf, pat, ranges) == matches_between(buf, pat, 0, count),
    decreases ranges.len(),
{
    if ranges.len() > 0 {
        let front = ranges.drop_last();
        let mid: int = if front.len() == 0 {
            0
        } else {
            front.last().1 as int
        };
        if front.len() > 0 {
            assert(front.last() == ranges[ranges.len() - 2]);
        }
        assert(tiles(front, mid)) by {
            assert forall|k: int| 0 < k < front.len() implies (#[trigger] front[k]).0 == front[k
                - 1].1 by {
                assert(front[k] == ranges[k] && front[k - 1] == ranges[k - 1]);
            }
            assert forall|k: int| 0 <= k < front.len() implies (#[trigger] front[k]).0
                <= front[k].1 by {
                assert(front[k] == ranges[k]);
            }
        }
        lemma_joined_tiles(buf, pat, front, mid);
        assert(ranges.last().0 == mid) by {
            if front.len() > 0 {
                assert(ranges[ranges.len() - 1].0 == ranges[ranges.len() - 2].1);
            }
        }
        assert(0 <= mid <= count) by {
            lemma_tiles_bounds(ranges, count);
        }
        lemma_between_split(buf, pat, 0, mid, count);
    }
}

proof fn lemma_tiles_bounds(ranges: Seq<(usize, usize)>, count: int)
    requires
        tiles(ranges, count),
    ensures
        forall|k: int| 0 <= k < ranges.len() ==> (#[trigger] ranges[k]).1 <= count,
        forall|k: int| 0 <= k < ranges.len() ==> 0 <= (#[trigger] ranges[k]).0,
    decreases ranges.len(),
{
    assert forall|k: int| 0 <= k < ranges.len() implies (#[trigger] ranges[k]).1 <= count by {
        lemma_tiles_end_step(ranges, count, k);
    }
}

proof fn lemma_tiles_end_step(ranges: Seq<(usize, usize)>, count: int, k: int)
    requires
        tiles(ranges, count),
        0 <= k < ranges.len(),
    ensures
        ranges[k].1 <= count,
    decreases ranges.len() - k,
{
    if k < ranges.len() - 1 {
        lemma_tiles_end_step(ranges, count, k + 1);
        assert(ranges[k + 1].0 == ranges[k].1);
    }
}

/// The length of each range when `count` offsets are shared among `parts`
/// workers: `count / parts`, rounded up.
pub open spec fn share(count: int, parts: int) -> int {
    count / parts + if count % parts == 0 {
        0int
    } else {
        1int
    }
}

/// Divides the offsets `[0, count)` into at most `parts` contiguous ranges of
/// `share(count, parts)` offsets each; the last one holds what is left, at
/// least one offset and at most a share.
pub fn partition(count: usize, parts: usize) -> (r: Vec<(usize, usize)>)
    requires
        parts >= 1,
    ensures
        tiles(r@, count as int),
        r@.len() <= parts,
        forall|k: int|
            0 <= k < r@.len() - 1 ==> (#[trigger] r@[k]).1 - r@[k].0 == share(
                count as int,
                parts as int,
            ),
        r@.len() > 0 ==> 0 < r@.last().1 - r@.last().0 <= share(count as int, parts as int),
{
    let q = count / parts;
    proof {
        lemma_fundamental_div_mod(count as int, parts as int);
    }
    let size: usize = if count % parts == 0 {
        assert(count <= parts * q && (count > 0 ==> q >= 1)) by (nonlinear_arith)
            requires
                count == parts * q + count % parts,
                count % parts == 0,
                parts >= 1,
        ;
        q
    } else {
        assert(q < usize::MAX && count <= parts * (q + 1)) by (nonlinear_arith)
            requires
                count == parts * q + count % parts,
                0 < count % parts < parts,
                parts >= 1,
                count <= usize::MAX,
        ;
        q + 1
    };
    let mut ranges: Vec<(usize, usize)> = Vec::new();
    let mut lo: usize = 0;
    assert(ranges@.len() * size == 0);
    while lo < count
        invariant
            count <= parts * size,
            count > 0 ==> size >= 1,
            lo <= count,
            lo == count || lo == ranges@.len() * size,
            ranges@.len() == 0 ==> lo == 0,
            ranges@.len() > 0 ==> ranges@[0].0 == 0 && ranges@.last().1 == lo,
            forall|k: int| 0 <= k < ranges@.len() ==> (#[trigger] ranges@[k]).0 <= ranges@[k].1,
            forall|k: int| 0 < k < ranges@.len() ==> (#[trigger] ranges@[k]).0 == ranges@[k - 1].1,
            ranges@.len() <= parts,
            lo < count ==> ranges@.len() < parts,
            size == share(count as int, parts as int),
            lo < count ==> forall|k: int|
                0 <= k < ranges@.len() ==> (#[trigger] ranges@[k]).1 - ranges@[k].0 == size,
            lo == count ==> forall|k: int|
                0 <= k < ranges@.len() - 1 ==> (#[trigger] ranges@[k]).1 - ranges@[k].0 == size,
            ranges@.len() > 0 ==> 0 < ranges@.last().1 - ranges@.last().0 <= size,
        decreases count - lo,
    {
        let hi: usize = if size >= count - lo {
            count
        } else {
            lo + size
        };
        ranges.push((lo, hi));
        lo = hi;
        proof {
            let n = ranges@.len();
            if hi != count {
                assert(lo == n * size) by (nonlinear_arith)
                    requires
                        lo == (n - 1) * size + size,
                ;
            }
            if lo < count {
                assert(n < parts) by (nonlinear_arith)
                    requires
                        lo == n * size,
                        lo < count,
                        count <= parts * size,
                ;
            }
        }
    }
    ranges
}

/// Relies on `rayon::current_num_threads`: how many workers the pool that runs
/// the caller has. Nothing is promised of the number.
#[verifier::external_body]
fn worker_count() -> (r: usize) {
    rayon::current_num_threads()
}

/// Relies on rayon's `par_iter().map(..).collect_into_vec(..)` on a `Vec`: the
/// result holds, at index `k`, what the function gives for the `k`-th range.
/// Each range is scanned by `scan_range`, on the workers of the current pool.
#[verifier::external_body]
fn scan_ranges_on_workers(bytes: &[u8], pattern: &[Option<u8>], ranges: &Vec<(usize, usize)>) -> (r:
    Vec<Vec<usize>>)
    requires
        forall|k: int|
            0 <= k < ranges@.len() ==> (#[trigger] ranges@[k]).0 <= ranges@[k].1 <= bytes@.len(),
    ensures
        r@.len() == ranges@.len(),
        forall|k: int|
            0 <= k < r@.len() ==> (#[trigger] r@[k])@ == matches_between(
                bytes@,
                pattern@,
                ranges@[k].0 as int,
                ranges@[k].1 as int,
            ),
{
    let mut out: Vec<Vec<usize>> = Vec::new();
    ranges.par_iter().map(|&(lo, hi)| scan_range(bytes, pattern, lo, hi)).collect_into_vec(
        &mut out,
    );
    out
}

/// Relies on rayon's `par_windows(n).position_any(..)`: the index of some window
/// of length `n` that the predicate accepts, or `None` when it accepts none;
/// which one of several is found is left open. `par_windows` panics on a
/// window of length zero.
#[verifier::external_body]
fn position_any_on_workers(bytes: &[u8], pattern: &[Option<u8>]) -> (r: Option<usize>)
    requires
        pattern@.len() >= 1,
    ensures
        r matches Some(i) ==> i + pattern@.len() <= bytes@.len() && fits(
            bytes@.subrange(i as int, i + pattern@.len()),
            pattern@,
        ),
        r is None ==> forall|i: int|
            0 <= i && i + pattern@.len() <= bytes@.len() ==> !fits(
                #[trigger] bytes@.subrange(i, i + pattern@.len()),
                pattern@,
            ),
{
    bytes.par_windows(pattern.len()).position_any(|window| window_matches(window, pattern))
}

/// Every offset at which `pattern` matches `bytes`, ascending, computed by the
/// workers of the current pool.
pub fn scan_all_parallel(bytes: &[u8], pattern: &[Option<u8>]) -> (r: Vec<usize>)
    ensures
        r@ == match_offsets(bytes@, pattern@),
{
    let n = pattern.len();
    if n > bytes.len() {
        proof {
            lemma_oversized_no_match(bytes@, pattern@, 0, bytes@.len() as int);
        }
        return Vec::new();
    }
    if n == 0 {
        proof {
            lemma_between_none(bytes@, pattern@, 0, bytes@.len() as int);
        }
        return Vec::new();
    }
    let count = bytes.len() - n + 1;
    let workers = worker_count();
    let parts = if workers == 0 {
        1
    } else {
        workers
    };
    let ranges = partition(count, parts);
    proof {
        lemma_tiles_bounds(ranges@, count as int);
    }
    let mut partial = scan_ranges_on_workers(bytes, pattern, &ranges);
    let mut out: Vec<usize> = Vec::new();
    let mut k: usize = 0;
    while k < ranges.len()
        invariant
            0 <= k <= ranges@.len(),
            partial@.len() == ranges@.len() - k,
            forall|j: int|
                0 <= j < partial@.len() ==> (#[trigger] partial@[j])@ == matches_between(
                    bytes@,
                    pattern@,
                    ranges@[j + k].0 as int,
                    ranges@[j + k].1 as int,
                ),
            out@ == joined_matches(bytes@, pattern@, ranges@.take(k as int)),
        decreases ranges@.len() - k,
    {
        let ghost before = partial@;
        let mut chunk = partial.remove(0);
        proof {
            let taken = ranges@.take(k + 1);
            assert(taken.drop_last() =~= ranges@.take(k as int));
            assert(taken.last() == ranges@[k as int]);
            assert(chunk@ == before[0]@);
        }
        out.append(&mut chunk);
        k = k + 1;
        proof {
            assert forall|j: int| 0 <= j < partial@.len() implies (#[trigger] partial@[j])@
                == matches_between(
                bytes@,
                pattern@,
                ranges@[j + k].0 as int,
                ranges@[j + k].1 as int,
            ) by {
                assert(partial@[j] == before[j + 1]);
            }
        }
    }
    proof {
        assert(ranges@.take(k as int) =~= ranges@);
        lemma_joined_tiles(bytes@, pattern@, ranges@, count as int);
        lemma_between_split(bytes@, pattern@, 0, count as int, bytes@.len() as int);
        lemma_between_none(bytes@, pattern@, count as int, bytes@.len() as int);
        assert(joined_matches(bytes@, pattern@, ranges@) + Seq::<usize>::empty() =~= joined_matches(
            bytes@,
            pattern@,
            ranges@,
        ));
    }
    out
}

} // verus!

verus! {

/// Some offset at which `pattern` matches `bytes`, found by the workers of the
/// current pool. Where the pattern matches more than once, which offset comes
/// back is left open: it need not be the lowest. Fails as
/// `create_bytes_from_string` does on an invalid pattern.
pub fn pattern_scan(bytes: &[u8], pattern: &str) -> (r: Result<Option<usize>, PatternScannerError>)
    ensures
        r is Ok <==> compiles(pattern@),
        r matches Err(e) ==> first_error(pattern@, e),
        r matches Ok(found) ==> (found is None <==> match_offsets(
            bytes@,
            compiled(pattern@),
        ).len() == 0),
        r matches Ok(Some(i)) ==> match_offsets(bytes@, compiled(pattern@)).contains(i),
{
    let mask = match create_bytes_from_string(pattern) {
        Ok(mask) => mask,
        Err(e) => {
            return Err(e);
        },
    };
    let ghost pat = mask@;
    let ghost buf = bytes@;
    let len = bytes.len();
    proof {
        lemma_between_members(buf, pat, 0, len as int);
    }
    if mask.len() == 0 {
        proof {
            lemma_between_none(buf, pat, 0, buf.len() as int);
        }
        return Ok(None);
    }
    let found = position_any_on_workers(bytes, mask.as_slice());
    match found {
        Some(i) => {
            assert(matches_at(buf, pat, i as int));
            assert(match_offsets(buf, pat).contains(i));
        },
        None => {
            proof {
                assert forall|i: int| 0 <= i < buf.len() implies !#[trigger] matches_at(
                    buf,
                    pat,
                    i,
                ) by {
                    if i + pat.len() <= buf.len() {
                        assert(!fits(buf.subrange(i, i + pat.len()), pat));
                    }
                }
                lemma_between_none(buf, pat, 0, buf.len() as int);
            }
        },
    }
    Ok(found)
}

/// Every offset at which `pattern` matches `bytes`, ascending, computed by the
/// workers of the current pool; the same list as the sequential scan gives.
/// A pattern that is empty or longer than the buffer matches nowhere. Fails as
/// `create_bytes_from_string` does on an invalid pattern.
pub fn pattern_scan_all(bytes: &[u8], pattern: &str) -> (r: Result<Vec<usize>, PatternScannerError>)
    ensures
        r is Ok <==> compiles(pattern@),
        r matches Err(e) ==> first_error(pattern@, e),
        r matches Ok(v) ==> v@ == match_offsets(bytes@, compiled(pattern@)),
        compiles(pattern@) && compiled(pattern@).len() > bytes@.len() ==> (r matches Ok(v)
            && v@.len() == 0),
{
    let mask = match create_bytes_from_string(pattern) {
        Ok(mask) => mask,
        Err(e) => {
            return Err(e);
        },
    };
    proof {
        if mask@.len() > bytes@.len() {
            lemma_oversized_no_match(bytes@, mask@, 0, bytes@.len() as int);
        }
    }
    Ok(scan_all_parallel(bytes, mask.as_slice()))
}

} // verus!
