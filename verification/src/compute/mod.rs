//! Compute backends: the shuffle kernel and the decoding of GPU results.

pub mod cpu;
pub mod gpu;
pub mod vk;

use vstd::prelude::*;

use crate::net::types::RangeResult;

verus! {

/// A device that finds the best shuffle of a range of shuffle indices.
pub trait ComputeBackend: Send + 'static {
    /// The best shuffle of the indices `lo..hi` under `seed`; the result
    /// names the range it covers. Shuffle indices are machine words, so the
    /// range must fit in `usize`.
    fn compute_range(&mut self, seed: u64, lo: u64, hi: u64) -> (r: RangeResult)
        requires
            lo <= usize::MAX,
            hi <= usize::MAX,
        ensures
            r.lo == lo,
            r.hi == hi,
    ;
}

} // verus!
