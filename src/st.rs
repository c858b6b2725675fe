//! Scanning on the calling thread.
use vstd::prelude::*;

use crate::error::PatternScannerError;
use crate::matching::{first_match, lemma_oversized_no_match, match_offsets, scan_range};
use crate::pattern::{compiled, compiles, create_bytes_from_string, first_error};

verus! {

/// The lowest offset at which `pattern` matches `bytes`, or `None` where it
/// matches nowhere. Fails as `create_bytes_from_string` does on an invalid
/// pattern.
pub fn pattern_scan(bytes: &[u8], pattern: &str) -> (r: Result<Option<usize>, PatternScannerError>)
    ensures
        r is Ok <==> compiles(pattern@),
        r matches Err(e) ==> first_error(pattern@, e),
        r matches Ok(found) ==> (found is None <==> match_offsets(
            bytes@,
            compiled(pattern@),
        ).len() == 0),
        r matches Ok(Some(i)) ==> i == match_offsets(bytes@, compiled(pattern@))[0],
{
    let mask = match create_bytes_from_string(pattern) {
        Ok(mask) => mask,
        Err(e) => {
            return Err(e);
        },
    };
    Ok(first_match(bytes, mask.as_slice()))
}

/// Every offset at which `pattern` matches `bytes`, ascending. A pattern that is
/// empty or longer than the buffer matches nowhere. Fails as
/// `create_bytes_from_string` does on an invalid pattern.
pub fn pattern_scan_all(bytes: &[u8], pattern: &str) -> (r: Result<Vec<usize>, PatternScannerError>)
    ensures
        r is Ok <==> compiles(pattern@),
        r matches Err(e) ==> first_error(pattern@, e),
        r matches Ok(v) ==> v@ == match_offsets(bytes@, compiled(pattern@)),
        compiles(pattern@) && compiled(pattern@).len() > bytes@.len() ==> (r matches Ok(v)
            && v@.len() == 0),
{
    let mask = match create_bytes_from_string(pattern) {
        Ok(mask) => mask,
        Err(e) => {
            return Err(e);
        },
    };
    proof {
        if mask@.len() > bytes@.len() {
            lemma_oversized_no_match(bytes@, mask@, 0, bytes@.len() as int);
        }
    }
    Ok(scan_range(bytes, mask.as_slice(), 0, bytes.len()))
}

} // verus!
