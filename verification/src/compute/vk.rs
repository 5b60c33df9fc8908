//! Decoding of the Vulkan kernel's per-workgroup results.
//!
//! Each workgroup writes one 128-byte record, little endian:
//! score `i32` at 0, padding, index low and high `u32` halves at 8 and 12,
//! the permutation as 25 `u32` at 16, then padding.

use vstd::prelude::*;

use crate::net::types::RangeResult;

verus! {

/// Size of one workgroup's result record.
pub const BLOCK_RESULT_BYTES: usize = 128;

/// The little-endian `u32` at `off`.
pub open spec fn le_u32_at(d: Seq<u8>, off: int) -> int {
    d[off] + 256 * d[off + 1] + 65536 * d[off + 2] + 16777216 * d[off + 3]
}

/// The little-endian two's-complement `i32` at `off`.
pub open spec fn le_i32_at(d: Seq<u8>, off: int) -> int {
    let u = le_u32_at(d, off);
    if u >= 0x8000_0000 { u - 0x1_0000_0000 } else { u }
}

pub open spec fn block_score(d: Seq<u8>, b: int) -> int {
    le_i32_at(d, b * 128)
}

pub open spec fn block_index(d: Seq<u8>, b: int) -> int {
    le_u32_at(d, b * 128 + 8) + le_u32_at(d, b * 128 + 12) * 0x1_0000_0000
}

/// The permutation of record `b`: the low byte of each of its 25 `u32` entries.
pub open spec fn block_arr(d: Seq<u8>, b: int) -> Seq<u8> {
    Seq::new(25, |i: int| d[b * 128 + 16 + 4 * i])
}

/// The winner among the first `n` records: a record replaces the current
/// winner only with a strictly higher score; with no record scoring above
/// -1 the winner is score -1, an all-zero permutation and index `lo`.
pub open spec fn winner(d: Seq<u8>, n: int, lo: u64) -> (int, Seq<u8>, int)
    decreases n,
{
    if n <= 0 {
        (-1, Seq::new(25, |i: int| 0u8), lo as int)
    } else {
        let w = winner(d, n - 1, lo);
        if block_score(d, n - 1) <= w.0 {
            w
        } else {
            (block_score(d, n - 1), block_arr(d, n - 1), block_index(d, n - 1))
        }
    }
}

/// Law: the winner among the first `n` records scores at least -1 and at
/// least every one of those records; when it scores at least 0 it is the
/// first record with that score (its score, permutation and index), and
/// otherwise it is score -1 with an all-zero permutation and index `lo`.
pub proof fn lemma_winner_is_first_best(d: Seq<u8>, n: int, lo: u64)
    requires
        0 <= n,
    ensures
        winner(d, n, lo).0 >= -1,
        forall|b: int| 0 <= b < n ==> block_score(d, b) <= #[trigger] winner(d, n, lo).0,
        winner(d, n, lo).0 >= 0 ==> exists|b: int| {
            &&& 0 <= b < n
            &&& #[trigger] block_score(d, b) == winner(d, n, lo).0
            &&& block_arr(d, b) == winner(d, n, lo).1
            &&& block_index(d, b) == winner(d, n, lo).2
            &&& forall|c: int| 0 <= c < b ==> block_score(d, c) < winner(d, n, lo).0
        },
        winner(d, n, lo).0 < 0 ==> winner(d, n, lo).1 == Seq::new(25, |i: int| 0u8) && winner(d, n, lo).2 == lo,
    decreases n,
{
    if n > 0 {
        lemma_winner_is_first_best(d, n - 1, lo);
        let w = winner(d, n - 1, lo);
        if block_score(d, n - 1) > w.0 {
            assert forall|c: int| 0 <= c < n - 1 implies block_score(d, c) < winner(d, n, lo).0 by {
                assert(block_score(d, c) <= w.0);
            }
        } else {
            assert forall|b: int| 0 <= b < n implies block_score(d, b) <= #[trigger] winner(d, n, lo).0 by {
                if b < n - 1 {
                    assert(block_score(d, b) <= w.0);
                }
            }
        }
    }
}

fn read_u32_le(data: &[u8], off: usize) -> (r: u32)
    requires
        off + 4 <= data@.len(),
    ensures
        r == le_u32_at(data@, off as int),
{
    let b0 = data[off];
    let b1 = data[off + 1];
    let b2 = data[off + 2];
    let b3 = data[off + 3];
    let r = (b0 as u32) | ((b1 as u32) << 8) | ((b2 as u32) << 16) | ((b3 as u32) << 24);
    assert(r == b0 as u32 + 256 * (b1 as u32) + 65536 * (b2 as u32) + 16777216 * (b3 as u32)) by (bit_vector)
        requires
            r == (b0 as u32) | ((b1 as u32) << 8) | ((b2 as u32) << 16) | ((b3 as u32) << 24),
    ;
    r
}

fn read_i32_le(data: &[u8], off: usize) -> (r: i32)
    requires
        off + 4 <= data@.len(),
    ensures
        r == le_i32_at(data@, off as int),
{
    let u = read_u32_le(data, off);
    let r = u as i32;
    assert(u >= 0x8000_0000 ==> r == u - 0x1_0000_0000) by (bit_vector)
        requires
            r == u as i32,
    ;
    assert(u < 0x8000_0000 ==> r == u) by (bit_vector)
        requires
            r == u as i32,
    ;
    r
}

/// Picks the winning record among the first `blocks` records of `data`; see `winner`.
pub fn find_winner(data: &[u8], blocks: usize, lo: u64, hi: u64) -> (r: RangeResult)
    requires
        blocks * BLOCK_RESULT_BYTES <= data@.len(),
    ensures
        r.lo == lo,
        r.hi == hi,
        r.best_correct == winner(data@, blocks as int, lo).0,
        r.best_arr@ == winner(data@, blocks as int, lo).1,
        r.best_index == winner(data@, blocks as int, lo).2,
        r.best_correct >= -1,
        forall|b: int| 0 <= b < blocks ==> block_score(data@, b) <= r.best_correct,
        r.best_correct >= 0 ==> exists|b: int| {
            &&& 0 <= b < blocks
            &&& #[trigger] block_score(data@, b) == r.best_correct
            &&& block_arr(data@, b) == r.best_arr@
            &&& block_index(data@, b) == r.best_index
        },
{
    proof {
        lemma_winner_is_first_best(data@, blocks as int, lo);
    }
    let mut best_score: i32 = -1;
    let mut best_arr = [0u8; 25];
    let mut best_index = lo;
    assert(best_arr@ =~= winner(data@, 0, lo).1);
    let len = data.len();
    let mut b: usize = 0;
    while b < blocks
        invariant
            0 <= b <= blocks,
            len == data@.len(),
            blocks * BLOCK_RESULT_BYTES <= data@.len(),
            best_score == winner(data@, b as int, lo).0,
            best_arr@ == winner(data@, b as int, lo).1,
            best_index == winner(data@, b as int, lo).2,
        decreases blocks - b,
    {
        assert(b * 128 + 128 <= blocks * 128) by (nonlinear_arith)
            requires
                b < blocks,
        ;
        let base = b * BLOCK_RESULT_BYTES;
        let score = read_i32_le(data, base);
        if score > best_score {
            let idx_lo = read_u32_le(data, base + 8);
            let idx_hi = read_u32_le(data, base + 12);
            let index = (idx_lo as u64) | ((idx_hi as u64) << 32);
            assert(index == idx_lo as u64 + (idx_hi as u64) * 0x1_0000_0000) by (bit_vector)
                requires
                    index == (idx_lo as u64) | ((idx_hi as u64) << 32),
            ;
            let arr_start = base + 16;
            let mut arr = [0u8; 25];
            let mut i: usize = 0;
            while i < 25
                invariant
                    0 <= i <= 25,
                    arr_start == b * 128 + 16,
                    b * 128 + 128 <= data@.len(),
                    arr@.len() == 25,
                    forall|k: int| 0 <= k < i ==> arr@[k] == data@[arr_start + 4 * k],
                decreases 25 - i,
            {
                let v = read_u32_le(data, arr_start + i * 4);
                let byte = #[verifier::truncate] (v as u8);
                let b0 = data[arr_start + i * 4];
                let b1 = data[arr_start + i * 4 + 1];
                let b2 = data[arr_start + i * 4 + 2];
                let b3 = data[arr_start + i * 4 + 3];
                assert(byte == b0) by (bit_vector)
                    requires
                        byte == v as u8,
                        v == b0 as u32 + 256 * (b1 as u32) + 65536 * (b2 as u32) + 16777216 * (b3 as u32),
                ;
                arr[i] = byte;
                i = i + 1;
            }
            assert(arr@ =~= block_arr(data@, b as int));
            best_score = score;
            best_index = index;
            best_arr = arr;
        }
        b = b + 1;
    }
    RangeResult { lo, hi, best_correct: best_score, best_arr, best_index }
}

/// The kernel is compiled for workgroups of this many threads.
pub const WORKGROUP_THREADS: u32 = 256;

/// Whether a threads-per-block setting fits the kernel.
pub fn workgroup_fits(threads_per_block: u32) -> (r: bool)
    ensures
        r == (threads_per_block == WORKGROUP_THREADS),
{
    threads_per_block == WORKGROUP_THREADS
}

/// The kernel's parameters: base seed, `lo` and `hi`, each split into its
/// low and high 32-bit halves, in that order.
pub fn kernel_params(base_seed: u64, lo: u64, hi: u64) -> (p: [u32; 6])
    ensures
        p@[0] == base_seed % 0x1_0000_0000,
        p@[1] == base_seed / 0x1_0000_0000,
        p@[2] == lo % 0x1_0000_0000,
        p@[3] == lo / 0x1_0000_0000,
        p@[4] == hi % 0x1_0000_0000,
        p@[5] == hi / 0x1_0000_0000,
{
    let p = [split_low(base_seed), split_high(base_seed), split_low(lo), split_high(lo), split_low(hi), split_high(hi)];
    p
}

fn split_low(x: u64) -> (r: u32)
    ensures
        r == x % 0x1_0000_0000,
{
    let r = #[verifier::truncate] (x as u32);
    assert(r == x % 0x1_0000_0000) by (bit_vector)
        requires
            r == x as u32,
    ;
    r
}

fn split_high(x: u64) -> (r: u32)
    ensures
        r == x / 0x1_0000_0000,
{
    let h = x >> 32;
    assert(h == x / 0x1_0000_0000 && h <= 0xffff_ffff) by (bit_vector)
        requires
            h == x >> 32,
    ;
    h as u32
}

} // verus!
