//! What it means for a mask to match a buffer, and the sequential engine.
use vstd::prelude::*;

verus! {

/// Every entry of `pat` is a wildcard or equals the byte of `window` at its place.
pub open spec fn fits(window: Seq<u8>, pat: Seq<Option<u8>>) -> bool {
    window.len() == pat.len() && forall|k: int|
        0 <= k < pat.len() ==> (#[trigger] pat[k] is None || pat[k] == Some(window[k]))
}

/// A non-empty `pat` matches `buf` at offset `i`: the window of `buf` that
/// starts there fits it. An empty mask matches nowhere.
pub open spec fn matches_at(buf: Seq<u8>, pat: Seq<Option<u8>>, i: int) -> bool {
    pat.len() > 0 && 0 <= i && i + pat.len() <= buf.len() && fits(
        buf.subrange(i, i + pat.len()),
        pat,
    )
}

/// The offsets in `[lo, hi)` at which `pat` matches `buf`, ascending.
pub open spec fn matches_between(buf: Seq<u8>, pat: Seq<Option<u8>>, lo: int, hi: int) -> Seq<
    usize,
>
    decreases hi - lo,
{
    if hi <= lo {
        seq![]
    } else if matches_at(buf, pat, hi - 1) {
        matches_between(buf, pat, lo, hi - 1).push((hi - 1) as usize)
    } else {
        matches_between(buf, pat, lo, hi - 1)
    }
}

/// Every offset at which `pat` matches `buf`, ascending.
pub open spec fn match_offsets(buf: Seq<u8>, pat: Seq<Option<u8>>) -> Seq<usize> {
    matches_between(buf, pat, 0, buf.len() as int)
}

/// The offsets in a range are those of two adjacent parts, one after the other.
pub proof fn lemma_between_split(buf: Seq<u8>, pat: Seq<Option<u8>>, lo: int, mid: int, hi: int)
    requires
        lo <= mid <= hi,
    ensures
        matches_between(buf, pat, lo, hi) == matches_between(buf, pat, lo, mid) + matches_between(
            buf,
            pat,
            mid,
            hi,
        ),
    decreases hi - mid,
{
    if hi > mid {
        lemma_between_split(buf, pat, lo, mid, hi - 1);
        assert(matches_between(buf, pat, lo, hi) =~= matches_between(buf, pat, lo, mid)
            + matches_between(buf, pat, mid, hi));
    } else {
        assert(matches_between(buf, pat, lo, hi) =~= matches_between(buf, pat, lo, mid)
            + matches_between(buf, pat, mid, hi));
    }
}

/// The offsets in a range are exactly the matching ones in it, strictly ascending.
pub proof fn lemma_between_members(buf: Seq<u8>, pat: Seq<Option<u8>>, lo: int, hi: int)
    requires
        0 <= lo,
        hi <= buf.len() <= usize::MAX,
    ensures
        forall|x: usize|
            matches_between(buf, pat, lo, hi).contains(x) <==> (lo <= x < hi && matches_at(
                buf,
                pat,
                x as int,
            )),
        forall|a: int, b: int|
            0 <= a < b < matches_between(buf, pat, lo, hi).len() ==> #[trigger] matches_between(
                buf,
                pat,
                lo,
                hi,
            )[a] < #[trigger] matches_between(buf, pat, lo, hi)[b],
        forall|a: int|
            0 <= a < matches_between(buf, pat, lo, hi).len() ==> lo <= #[trigger] matches_between(
                buf,
                pat,
                lo,
                hi,
            )[a] < hi,
    decreases hi - lo,
{
    if hi > lo {
        lemma_between_members(buf, pat, lo, hi - 1);
        let pre = matches_between(buf, pat, lo, hi - 1);
        let cur = matches_between(buf, pat, lo, hi);
        let top = (hi - 1) as usize;
        assert(top as int == hi - 1);
        if matches_at(buf, pat, hi - 1) {
            assert(cur == pre.push(top));
            assert forall|x: usize| cur.contains(x) <==> (lo <= x < hi && matches_at(
                buf,
                pat,
                x as int,
            )) by {
                if cur.contains(x) && x != top {
                    let j = choose|j: int| 0 <= j < cur.len() && cur[j] == x;
                    assert(j < pre.len());
                    assert(pre[j] == x);
                }
                if lo <= x < hi - 1 && matches_at(buf, pat, x as int) {
                    let j = choose|j: int| 0 <= j < pre.len() && pre[j] == x;
                    assert(cur[j] == x);
                }
                if x == top {
                    assert(cur[cur.len() - 1] == x);
                }
            }
        } else {
            assert(cur == pre);
        }
    }
}

/// A range in which `pat` matches nowhere has no offsets.
pub proof fn lemma_between_none(buf: Seq<u8>, pat: Seq<Option<u8>>, lo: int, hi: int)
    requires
        forall|i: int| lo <= i < hi ==> !#[trigger] matches_at(buf, pat, i),
    ensures
        matches_between(buf, pat, lo, hi) == Seq::<usize>::empty(),
    decreases hi - lo,
{
    if hi > lo {
        lemma_between_none(buf, pat, lo, hi - 1);
    }
}

/// A mask longer than the buffer matches nowhere in it.
pub proof fn lemma_oversized_no_match(buf: Seq<u8>, pat: Seq<Option<u8>>, lo: int, hi: int)
    requires
        pat.len() > buf.len(),
    ensures
        matches_between(buf, pat, lo, hi).len() == 0,
    decreases hi - lo,
{
    if hi > lo {
        lemma_oversized_no_match(buf, pat, lo, hi - 1);
    }
}

/// Whether `window` fits `pattern`, position by position.
pub fn window_matches(window: &[u8], pattern: &[Option<u8>]) -> (r: bool)
    requires
        window@.len() == pattern@.len(),
    ensures
        r == fits(window@, pattern@),
{
    let mut k: usize = 0;
    while k < pattern.len()
        invariant
            window@.len() == pattern@.len(),
            0 <= k <= pattern@.len(),
            forall|j: int|
                0 <= j < k ==> (#[trigger] pattern@[j] is None || pattern@[j] == Some(window@[j])),
        decreases pattern@.len() - k,
    {
        match pattern[k] {
            Some(b) => {
                if window[k] != b {
                    return false;
                }
            },
            None => {},
        }
        k = k + 1;
    }
    true
}

/// Whether `pattern` matches `bytes` at offset `i`.
pub fn matches_at_offset(bytes: &[u8], pattern: &[Option<u8>], i: usize) -> (r: bool)
    ensures
        r == matches_at(bytes@, pattern@, i as int),
{
    let n = pattern.len();
    if n == 0 || i > bytes.len() || n > bytes.len() - i {
        false
    } else {
        let window = &bytes[i..i + n];
        window_matches(window, pattern)
    }
}

/// The offsets in `[lo, hi)` at which `pattern` matches `bytes`, ascending.
pub fn scan_range(bytes: &[u8], pattern: &[Option<u8>], lo: usize, hi: usize) -> (r: Vec<usize>)
    requires
        lo <= hi <= bytes@.len(),
    ensures
        r@ == matches_between(bytes@, pattern@, lo as int, hi as int),
{
    let mut out: Vec<usize> = Vec::new();
    let mut i: usize = lo;
    while i < hi
        invariant
            lo <= i <= hi <= bytes@.len(),
            out@ == matches_between(bytes@, pattern@, lo as int, i as int),
        decreases hi - i,
    {
        if matches_at_offset(bytes, pattern, i) {
            out.push(i);
        }
        i = i + 1;
    }
    out
}

/// The lowest offset at which `pattern` matches `bytes`, if any.
pub fn first_match(bytes: &[u8], pattern: &[Option<u8>]) -> (r: Option<usize>)
    ensures
        r is None <==> match_offsets(bytes@, pattern@).len() == 0,
        r matches Some(i) ==> i == match_offsets(bytes@, pattern@)[0],
{
    let mut i: usize = 0;
    while i < bytes.len()
        invariant
            0 <= i <= bytes@.len(),
            matches_between(bytes@, pattern@, 0, i as int).len() == 0,
        decreases bytes@.len() - i,
    {
        if matches_at_offset(bytes, pattern, i) {
            proof {
                lemma_between_split(bytes@, pattern@, 0, i as int, bytes@.len() as int);
                lemma_between_split(bytes@, pattern@, i as int, i + 1, bytes@.len() as int);
                assert(matches_between(bytes@, pattern@, i as int, i as int).len() == 0);
                assert(matches_between(bytes@, pattern@, i as int, i + 1) == seq![i]);
            }
            return Some(i);
        }
        i = i + 1;
    }
    None
}

} // verus!
