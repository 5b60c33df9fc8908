//! Decoding of the CUDA kernel's results.
//!
//! The kernel leaves one packed word: the best score in the high 32 bits and
//! the winning block's id in the low 32 bits, 0 when nothing was found; and,
//! per block, its best permutation (25 bytes) and its best index.

use vstd::prelude::*;

use crate::net::types::RangeResult;

verus! {

pub open spec fn packed_score(packed: u64) -> i32 {
    (packed >> 32u64) as i32
}

pub open spec fn packed_block(packed: u64) -> int {
    (packed & 0xffff_ffffu64) as int
}

/// Law: the packed word is read as the kernel writes it: the winning block
/// is its low 32 bits and the score its high 32 bits taken as an `i32`, so
/// the word is `score_bits * 2^32 + block`.
pub proof fn lemma_packed_fields(packed: u64)
    ensures
        packed_block(packed) == packed % 0x1_0000_0000,
        packed_score(packed) == ((packed / 0x1_0000_0000) as u32) as i32,
        packed == (packed / 0x1_0000_0000) * 0x1_0000_0000 + packed_block(packed),
{
    let low = packed & 0xffff_ffffu64;
    let high = packed >> 32u64;
    assert(low == packed % 0x1_0000_0000 && high == packed / 0x1_0000_0000) by (bit_vector)
        requires
            low == packed & 0xffff_ffffu64,
            high == packed >> 32u64,
    ;
    assert(high < 0x1_0000_0000) by (bit_vector)
        requires
            high == packed >> 32u64,
    ;
    assert((high as u32) as i32 == (packed >> 32u64) as i32) by (bit_vector)
        requires
            high == packed >> 32u64,
    ;
}

/// The range result that the kernel's output gives for `lo..hi`.
pub fn gpu_range_result(lo: u64, hi: u64, packed: u64, host_arrays: &[u8], host_indices: &[u64]) -> (r: RangeResult)
    requires
        packed != 0 ==> packed_block(packed) * 25 + 25 <= host_arrays@.len(),
        packed != 0 ==> packed_block(packed) < host_indices@.len(),
    ensures
        r.lo == lo,
        r.hi == hi,
        packed == 0 ==> r.best_correct == -1 && r.best_arr@ == Seq::new(25, |k: int| 0u8) && r.best_index == lo,
        packed != 0 ==> {
            &&& r.best_correct == packed_score(packed)
            &&& r.best_arr@ == host_arrays@.subrange(packed_block(packed) * 25, packed_block(packed) * 25 + 25)
            &&& r.best_index == host_indices@[packed_block(packed)]
        },
        packed != 0 ==> {
            &&& r.best_correct == ((packed / 0x1_0000_0000) as u32) as i32
            &&& r.best_arr@ == host_arrays@.subrange(
                (packed % 0x1_0000_0000) * 25,
                (packed % 0x1_0000_0000) * 25 + 25,
            )
            &&& r.best_index == host_indices@[(packed % 0x1_0000_0000) as int]
        },
{
    proof {
        lemma_packed_fields(packed);
    }
    if packed == 0 {
        let r = RangeResult { lo, hi, best_correct: -1, best_arr: [0u8; 25], best_index: lo };
        assert(r.best_arr@ =~= Seq::new(25, |k: int| 0u8));
        return r;
    }
    let best_score = #[verifier::truncate] ((packed >> 32) as i32);
    let low = packed & 0xffff_ffff;
    assert(low <= 0xffff_ffff) by (bit_vector)
        requires
            low == packed & 0xffff_ffff,
    ;
    let n_arrays = host_arrays.len();
    let best_bid = low as usize;
    let arr_start = best_bid * 25;
    let mut best_arr = [0u8; 25];
    let mut k: usize = 0;
    while k < 25
        invariant
            0 <= k <= 25,
            arr_start == packed_block(packed) * 25,
            arr_start + 25 <= host_arrays@.len(),
            n_arrays == host_arrays@.len(),
            forall|i: int| 0 <= i < k ==> best_arr@[i] == host_arrays@[arr_start + i],
        decreases 25 - k,
    {
        best_arr[k] = host_arrays[arr_start + k];
        k = k + 1;
    }
    assert(best_arr@ =~= host_arrays@.subrange(arr_start as int, arr_start + 25));
    RangeResult { lo, hi, best_correct: best_score, best_arr, best_index: host_indices[best_bid] }
}

} // verus!
