//! A scanner that owns a buffer and a pool of worker threads, and its builder.
use rayon::{ThreadPool, ThreadPoolBuildError, ThreadPoolBuilder};
use vstd::prelude::*;
use vstd::slice::slice_to_vec;

use crate::error::PatternScannerError;
use crate::matching::match_offsets;
use crate::mt::scan_all_parallel;
use crate::pattern::{compiled, compiles, create_bytes_from_string, first_error};

verus! {

#[verifier::external_type_specification]
#[verifier::external_body]
pub struct ExThreadPool(ThreadPool);

#[verifier::external_type_specification]
#[verifier::external_body]
pub struct ExThreadPoolBuildError(ThreadPoolBuildError);

/// The least number of workers that rayon supports in one pool on any target;
/// a request for more may be cut down to the target's limit.
pub const MAX_EXACT_WORKERS: usize = 255;

/// Relies on `ThreadPoolBuilder::build`, on a builder from `ThreadPoolBuilder::new`
/// given `num_threads(n)`, and on `ThreadPool::current_num_threads` of the pool it
/// makes. The pool has `min(n, limit)` workers, where the limit is 255 or 65535
/// by pointer width; where `n` is zero the count comes from the environment or
/// the machine, and is at least one. The build fails where the workers cannot be
/// started. The builder type stays inside: its spawn parameter is private to
/// rayon, so it cannot be declared.
#[verifier::external_body]
fn build_pool(num_threads: usize) -> (r: Result<(ThreadPool, usize), ThreadPoolBuildError>)
    ensures
        r matches Ok((_, n)) ==> n >= 1 && (1 <= num_threads <= MAX_EXACT_WORKERS ==> n
            == num_threads),
{
    let pool = ThreadPoolBuilder::new().num_threads(num_threads).build()?;
    let workers = pool.current_num_threads();
    Ok((pool, workers))
}

/// Relies on `ThreadPool::install`: it runs the closure with `pool` as the
/// current pool and returns what the closure returns. The closure is the
/// parallel scan.
#[verifier::external_body]
fn install_scan_all(pool: &ThreadPool, bytes: &[u8], pattern: &[Option<u8>]) -> (r: Vec<usize>)
    ensures
        r@ == match_offsets(bytes@, pattern@),
{
    pool.install(|| scan_all_parallel(bytes, pattern))
}

/// A buffer to scan, and the pool of workers that scans it.
pub struct PatternScanner {
    bytes: Vec<u8>,
    threadpool: ThreadPool,
    workers: usize,
}

impl PatternScanner {
    /// The stored buffer.
    pub closed spec fn data(&self) -> Seq<u8> {
        self.bytes@
    }

    /// The number of workers in the pool.
    pub closed spec fn workers(&self) -> usize {
        self.workers
    }

    /// The number of workers in the pool.
    pub fn num_workers(&self) -> (r: usize)
        ensures
            r == self.workers(),
    {
        self.workers
    }

    /// The one offset at which `pattern` matches the stored buffer, or `None`
    /// where it matches nowhere; `NonUniquePattern` where it matches more than
    /// once.
    pub fn scan(&self, pattern: &str) -> (r: Result<Option<usize>, PatternScannerError>)
        ensures
            r is Ok <==> compiles(pattern@) && match_offsets(self.data(), compiled(pattern@)).len()
                <= 1,
            r matches Err(e) ==> if compiles(pattern@) {
                e is NonUniquePattern
            } else {
                first_error(pattern@, e)
            },
            r matches Ok(found) ==> (found is None <==> match_offsets(
                self.data(),
                compiled(pattern@),
            ).len() == 0),
            r matches Ok(Some(i)) ==> i == match_offsets(self.data(), compiled(pattern@))[0],
    {
        self.scan_with_bytes(self.bytes.as_slice(), pattern)
    }

    /// The one offset at which `pattern` matches `bytes`, or `None` where it
    /// matches nowhere; `NonUniquePattern` where it matches more than once. All
    /// matches are found on the scanner's pool before the count is checked.
    pub fn scan_with_bytes(&self, bytes: &[u8], pattern: &str) -> (r: Result<
        Option<usize>,
        PatternScannerError,
    >)
        ensures
            r is Ok <==> compiles(pattern@) && match_offsets(bytes@, compiled(pattern@)).len() <= 1,
            r matches Err(e) ==> if compiles(pattern@) {
                e is NonUniquePattern
            } else {
                first_error(pattern@, e)
            },
            r matches Ok(found) ==> (found is None <==> match_offsets(
                bytes@,
                compiled(pattern@),
            ).len() == 0),
            r matches Ok(Some(i)) ==> i == match_offsets(bytes@, compiled(pattern@))[0],
    {
        let results = match self.scan_all_with_bytes(bytes, pattern) {
            Ok(results) => results,
            Err(e) => {
                return Err(e);
            },
        };
        if results.len() > 1 {
            return Err(PatternScannerError::NonUniquePattern);
        }
        if results.len() == 0 {
            Ok(None)
        } else {
            Ok(Some(results[0]))
        }
    }

    /// Every offset at which `pattern` matches the stored buffer, ascending.
    pub fn scan_all(&self, pattern: &str) -> (r: Result<Vec<usize>, PatternScannerError>)
        ensures
            r is Ok <==> compiles(pattern@),
            r matches Err(e) ==> first_error(pattern@, e),
            r matches Ok(v) ==> v@ == match_offsets(self.data(), compiled(pattern@)),
    {
        self.scan_all_with_bytes(self.bytes.as_slice(), pattern)
    }

    /// Every offset at which `pattern` matches `bytes`, ascending, found on the
    /// scanner's pool.
    pub fn scan_all_with_bytes(&self, bytes: &[u8], pattern: &str) -> (r: Result<
        Vec<usize>,
        PatternScannerError,
    >)
        ensures
            r is Ok <==> compiles(pattern@),
            r matches Err(e) ==> first_error(pattern@, e),
            r matches Ok(v) ==> v@ == match_offsets(bytes@, compiled(pattern@)),
    {
        let mask = match create_bytes_from_string(pattern) {
            Ok(mask) => mask,
            Err(e) => {
                return Err(e);
            },
        };
        Ok(install_scan_all(&self.threadpool, bytes, mask.as_slice()))
    }
}

/// Gathers the buffer and the number of workers of a `PatternScanner`.
pub struct PatternScannerBuilder {
    bytes: Vec<u8>,
    num_threads: usize,
}

impl PatternScannerBuilder {
    /// The buffer given so far.
    pub closed spec fn data(&self) -> Seq<u8> {
        self.bytes@
    }

    /// The number of workers asked for; zero leaves it to the machine.
    pub closed spec fn threads(&self) -> usize {
        self.num_threads
    }

    /// A builder with an empty buffer that leaves the number of workers to the
    /// machine.
    pub fn builder() -> (r: Self)
        ensures
            r.data() == Seq::<u8>::empty(),
            r.threads() == 0,
    {
        PatternScannerBuilder { bytes: Vec::new(), num_threads: 0 }
    }

    /// Sets the buffer to a copy of `bytes`.
    pub fn with_bytes(self, bytes: &[u8]) -> (r: Self)
        ensures
            r.data() == bytes@,
            r.threads() == self.threads(),
    {
        PatternScannerBuilder { bytes: slice_to_vec(bytes), num_threads: self.num_threads }
    }

    /// Sets the number of workers.
    pub fn with_threads(self, threads: usize) -> (r: Self)
        ensures
            r.data() == self.data(),
            r.threads() == threads,
    {
        PatternScannerBuilder { bytes: self.bytes, num_threads: threads }
    }

    /// Builds the scanner with its pool, of exactly the number of workers asked
    /// for (up to `MAX_EXACT_WORKERS`; at least one where none was asked for);
    /// `ThreadPool` where the pool cannot be made, never a smaller pool.
    pub fn build(self) -> (r: Result<PatternScanner, PatternScannerError>)
        ensures
            r matches Ok(s) ==> s.data() == self.data() && s.workers() >= 1 && (1 <= self.threads()
                <= MAX_EXACT_WORKERS ==> s.workers() == self.threads()),
            r matches Err(e) ==> e is ThreadPool,
    {
        match build_pool(self.num_threads) {
            Ok((threadpool, workers)) => Ok(PatternScanner { bytes: self.bytes, threadpool, workers }),
            Err(_) => Err(PatternScannerError::ThreadPool),
        }
    }
}

} // verus!
