//! Compiling a pattern string into a mask: one `Option<u8>` per token, `None`
//! standing for a wildcard.
use vstd::prelude::*;
use vstd::string::StrSliceExecFns;

use crate::error::PatternScannerError;

verus! {

/// The characters that `char::is_whitespace` accepts (Unicode `White_Space`).
pub open spec fn is_space(c: char) -> bool {
    let v = c as u32;
    (0x9 <= v <= 0xd) || v == 0x20 || v == 0x85 || v == 0xa0 || v == 0x1680 || (0x2000 <= v
        <= 0x200a) || v == 0x2028 || v == 0x2029 || v == 0x202f || v == 0x205f || v == 0x3000
}

/// The value of a hexadecimal digit, either case.
pub open spec fn hex_digit(c: char) -> Option<u8> {
    let v = c as u32;
    if 0x30 <= v <= 0x39 {
        Some((v - 0x30) as u8)
    } else if 0x41 <= v <= 0x46 {
        Some((v - 0x37) as u8)
    } else if 0x61 <= v <= 0x66 {
        Some((v - 0x57) as u8)
    } else {
        None
    }
}

/// The spans `(start, end)` of the maximal runs of non-space characters among
/// the first `n` characters of `s`, from left to right.
pub open spec fn token_spans(s: Seq<char>, n: int) -> Seq<(int, int)>
    decreases n,
{
    if n <= 0 {
        seq![]
    } else {
        let pre = token_spans(s, n - 1);
        if is_space(s[n - 1]) {
            pre
        } else if n >= 2 && !is_space(s[n - 2]) {
            pre.update(pre.len() - 1, (pre.last().0, n))
        } else {
            pre.push((n - 1, n))
        }
    }
}

/// The whitespace-separated tokens of `s`.
pub open spec fn tokens(s: Seq<char>) -> Seq<Seq<char>> {
    token_spans(s, s.len() as int).map_values(|p: (int, int)| s.subrange(p.0, p.1))
}

pub open spec fn is_wildcard(t: Seq<char>) -> bool {
    t == seq!['?'] || t == seq!['?', '?']
}

pub open spec fn is_valid_token(t: Seq<char>) -> bool {
    is_wildcard(t) || (t.len() == 2 && hex_digit(t[0]) is Some && hex_digit(t[1]) is Some)
}

/// The mask entry of a valid token.
pub open spec fn token_mask(t: Seq<char>) -> Option<u8> {
    if is_wildcard(t) {
        None
    } else {
        Some((hex_digit(t[0])->0 * 16 + hex_digit(t[1])->0) as u8)
    }
}

/// The first character of a two-character token that is not a hexadecimal digit.
pub open spec fn bad_digit(t: Seq<char>) -> char {
    if hex_digit(t[0]) is None {
        t[0]
    } else {
        t[1]
    }
}

/// The error that an invalid token gives.
pub open spec fn token_error(t: Seq<char>, e: PatternScannerError) -> bool {
    if t.len() != 2 {
        e matches PatternScannerError::ByteLength(s) && s@ == t
    } else {
        e matches PatternScannerError::InvalidByte(s, c) && s@ == t && c == bad_digit(t)
    }
}

/// Every token of `s` is valid.
pub open spec fn compiles(s: Seq<char>) -> bool {
    forall|k: int| 0 <= k < tokens(s).len() ==> is_valid_token(#[trigger] tokens(s)[k])
}

/// The mask that `s` compiles to.
pub open spec fn compiled(s: Seq<char>) -> Seq<Option<u8>> {
    tokens(s).map_values(|t: Seq<char>| token_mask(t))
}

/// `e` is the error of the first invalid token of `s`.
pub open spec fn first_error(s: Seq<char>, e: PatternScannerError) -> bool {
    exists|k: int|
        0 <= k < tokens(s).len() && !is_valid_token(#[trigger] tokens(s)[k]) && (forall|j: int|
            0 <= j < k ==> is_valid_token(#[trigger] tokens(s)[j])) && token_error(tokens(s)[k], e)
}

proof fn lemma_token_spans(s: Seq<char>, n: int)
    requires
        0 <= n <= s.len(),
    ensures
        forall|k: int|
            0 <= k < token_spans(s, n).len() ==> 0 <= (#[trigger] token_spans(s, n)[k]).0
                < token_spans(s, n)[k].1 <= n,
        n > 0 && !is_space(s[n - 1]) ==> token_spans(s, n).len() > 0 && token_spans(s, n).last().1
            == n,
    decreases n,
{
    if n > 0 {
        lemma_token_spans(s, n - 1);
        let pre = token_spans(s, n - 1);
        let cur = token_spans(s, n);
        if !is_space(s[n - 1]) && n >= 2 && !is_space(s[n - 2]) {
            assert forall|k: int| 0 <= k < cur.len() implies 0 <= (#[trigger] cur[k]).0 < cur[k].1
                <= n by {
                if k < pre.len() - 1 {
                    assert(cur[k] == pre[k]);
                }
            }
        } else if !is_space(s[n - 1]) {
            assert forall|k: int| 0 <= k < cur.len() implies 0 <= (#[trigger] cur[k]).0 < cur[k].1
                <= n by {
                if k < pre.len() {
                    assert(cur[k] == pre[k]);
                }
            }
        }
    }
}

fn is_space_char(c: char) -> (r: bool)
    ensures
        r == is_space(c),
{
    let v = c as u32;
    (0x9 <= v && v <= 0xd) || v == 0x20 || v == 0x85 || v == 0xa0 || v == 0x1680 || (0x2000 <= v
        && v <= 0x200a) || v == 0x2028 || v == 0x2029 || v == 0x202f || v == 0x205f || v == 0x3000
}

fn hex_digit_value(c: char) -> (r: Option<u8>)
    ensures
        r == hex_digit(c),
{
    let v = c as u32;
    if 0x30 <= v && v <= 0x39 {
        Some((v - 0x30) as u8)
    } else if 0x41 <= v && v <= 0x46 {
        Some((v - 0x37) as u8)
    } else if 0x61 <= v && v <= 0x66 {
        Some((v - 0x57) as u8)
    } else {
        None
    }
}

/// The spans of the whitespace-separated tokens of `s`, in `usize`.
fn split_spans(s: &str) -> (r: Vec<(usize, usize)>)
    ensures
        r@.len() == token_spans(s@, s@.len() as int).len(),
        forall|k: int|
            0 <= k < r@.len() ==> (#[trigger] r@[k]).0 as int == token_spans(s@, s@.len() as int)[k].0
                && r@[k].1 as int == token_spans(s@, s@.len() as int)[k].1,
{
    let n = s.unicode_len();
    let mut spans: Vec<(usize, usize)> = Vec::new();
    let mut in_token = false;
    let mut i: usize = 0;
    while i < n
        invariant
            n == s@.len(),
            0 <= i <= n,
            in_token == (i > 0 && !is_space(s@[i - 1])),
            spans@.len() == token_spans(s@, i as int).len(),
            forall|k: int|
                0 <= k < spans@.len() ==> (#[trigger] spans@[k]).0 as int == token_spans(
                    s@,
                    i as int,
                )[k].0 && spans@[k].1 as int == token_spans(s@, i as int)[k].1,
        decreases n - i,
    {
        proof {
            lemma_token_spans(s@, i as int);
        }
        let c = s.get_char(i);
        if is_space_char(c) {
            in_token = false;
        } else if in_token {
            let last = spans.len() - 1;
            let start = spans[last].0;
            spans.set(last, (start, i + 1));
        } else {
            spans.push((i, i + 1));
            in_token = true;
        }
        i = i + 1;
    }
    spans
}

/// Compiles a pattern string into a mask: each whitespace-separated token gives
/// one entry, `None` for `?` or `??`, `Some(b)` for the two hexadecimal digits
/// of `b` (either case). The first invalid token decides the error: one that is
/// not two characters long gives `ByteLength`, one that is not hexadecimal gives
/// `InvalidByte`, each holding the token (`InvalidByte` also the first character
/// that is not a hexadecimal digit). An empty or blank string gives an
/// empty mask.
pub fn create_bytes_from_string(pattern: &str) -> (r: Result<Vec<Option<u8>>, PatternScannerError>)
    ensures
        r is Ok <==> compiles(pattern@),
        r matches Ok(p) ==> p@ == compiled(pattern@) && p@.len() == tokens(pattern@).len(),
        r matches Err(e) ==> first_error(pattern@, e),
{
    let spans = split_spans(pattern);
    let ghost s = pattern@;
    let ghost ts = tokens(s);
    proof {
        lemma_token_spans(s, s.len() as int);
    }
    let mut out: Vec<Option<u8>> = Vec::new();
    let mut k: usize = 0;
    while k < spans.len()
        invariant
            ts == tokens(s),
            s == pattern@,
            spans@.len() == ts.len(),
            forall|j: int|
                0 <= j < spans@.len() ==> 0 <= (#[trigger] spans@[j]).0 < spans@[j].1 <= s.len()
                    && ts[j] == s.subrange(spans@[j].0 as int, spans@[j].1 as int),
            0 <= k <= spans@.len(),
            out@ == ts.take(k as int).map_values(|t: Seq<char>| token_mask(t)),
            forall|j: int| 0 <= j < k ==> is_valid_token(#[trigger] ts[j]),
        decreases spans@.len() - k,
    {
        let (lo, hi) = spans[k];
        let ghost t = ts[k as int];
        assert(t == s.subrange(lo as int, hi as int));
        let len = hi - lo;
        let entry: Option<u8>;
        if len == 1 && pattern.get_char(lo) == '?' {
            assert(t =~= seq!['?']);
            entry = None;
        } else if len == 2 && pattern.get_char(lo) == '?' && pattern.get_char(lo + 1) == '?' {
            assert(t =~= seq!['?', '?']);
            entry = None;
        } else {
            assert(!is_wildcard(t)) by {
                if t == seq!['?'] {
                    assert(t[0] == '?');
                }
                if t == seq!['?', '?'] {
                    assert(t[0] == '?' && t[1] == '?');
                }
            }
            if len != 2 {
                let e = PatternScannerError::ByteLength(pattern.substring_char(lo, hi).to_owned());
                assert(first_error(s, e)) by {
                    assert(!is_valid_token(ts[k as int]));
                }
                return Err(e);
            }
            let first = pattern.get_char(lo);
            let second = pattern.get_char(lo + 1);
            match (hex_digit_value(first), hex_digit_value(second)) {
                (Some(a), Some(b)) => {
                    entry = Some(a * 16 + b);
                },
                (high, _) => {
                    let cause = if high.is_none() {
                        first
                    } else {
                        second
                    };
                    let e = PatternScannerError::InvalidByte(
                        pattern.substring_char(lo, hi).to_owned(),
                        cause,
                    );
                    assert(first_error(s, e)) by {
                        assert(!is_valid_token(ts[k as int]));
                    }
                    return Err(e);
                },
            }
        }
        assert(is_valid_token(t));
        assert(entry == token_mask(t));
        out.push(entry);
        assert(ts.take(k + 1).map_values(|t: Seq<char>| token_mask(t)) =~= ts.take(
            k as int,
        ).map_values(|t: Seq<char>| token_mask(t)).push(token_mask(t)));
        k = k + 1;
    }
    assert(ts.take(k as int) =~= ts);
    Ok(out)
}

} // verus!
