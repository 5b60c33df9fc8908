//! The CPU backend: each shuffle index `i` of a lease with base seed `s`
//! seeds a xoshiro128++ generator from `s + i * GOLDEN` (wrapping), shuffles
//! the identity permutation of 1..=25 with a Fisher-Yates pass, and scores
//! the result by its number of fixed points.

use orx_parallel::{Par, Parallelizable};
use vstd::prelude::*;

use crate::compute::ComputeBackend;
use crate::net::types::RangeResult;
use vstd::wrapping::{u32_specs, u64_specs};

verus! {

pub const GOLDEN: u64 = 0x9e3779b97f4a7c15;

/// State of the xoshiro128++ generator (`s[0]` to `s[3]`).
#[derive(Clone, Copy)]
pub struct XState {
    pub s0: u32,
    pub s1: u32,
    pub s2: u32,
    pub s3: u32,
}

pub open spec fn rotl32(x: u32, n: u32) -> u32 {
    ((x << n) | (x >> (32u32 - n))) as u32
}

/// One splitmix64 step on the counter `z`: the new counter and the output.
pub open spec fn splitmix_step(z: u64) -> (u64, u64) {
    let z1 = u64_specs::wrapping_add(z, GOLDEN);
    let v1 = u64_specs::wrapping_mul(z1 ^ (z1 >> 30u64), 0xbf58476d1ce4e5b9u64);
    let v2 = u64_specs::wrapping_mul(v1 ^ (v1 >> 27u64), 0x94d049bb133111ebu64);
    (z1, v2 ^ (v2 >> 31u64))
}

/// The generator state seeded from `seed` by two splitmix64 outputs; the
/// all-zero state, which the generator cannot leave, becomes `[1, 0, 0, 0]`.
pub open spec fn xseed_spec(seed: u64) -> XState {
    let (z1, a) = splitmix_step(seed);
    let (z2, b) = splitmix_step(z1);
    let s = XState { s0: a as u32, s1: (a >> 32u64) as u32, s2: b as u32, s3: (b >> 32u64) as u32 };
    if s.s0 == 0 && s.s1 == 0 && s.s2 == 0 && s.s3 == 0 {
        XState { s0: 1, ..s }
    } else {
        s
    }
}

/// One xoshiro128++ step: the output and the next state.
pub open spec fn xnext_spec(s: XState) -> (u32, XState) {
    let result = u32_specs::wrapping_add(rotl32(u32_specs::wrapping_add(s.s0, s.s3), 7), s.s0);
    let t = (s.s1 << 9u32) as u32;
    let s2a = s.s2 ^ s.s0;
    let s3a = s.s3 ^ s.s1;
    let s1a = s.s1 ^ s2a;
    let s0a = s.s0 ^ s3a;
    (result, XState { s0: s0a, s1: s1a, s2: s2a ^ t, s3: rotl32(s3a, 11) })
}

/// Outputs below this threshold are rejected when drawing below `max`, so
/// that the accepted ones are uniform modulo `max`.
pub open spec fn reject_below(max: u32) -> u32 {
    (0x1_0000_0000nat % (max as nat)) as u32
}

/// How many draws a rejection loop makes at most before it takes the last one.
pub open spec fn draw_fuel() -> nat {
    0xFFFF_FFFF_FFFF_FFFFnat
}

/// A number below `max` drawn by rejection sampling: the first output at or
/// above `reject_below(max)`, reduced modulo `max`, within `fuel + 1` draws.
pub open spec fn draw(s: XState, max: u32, fuel: nat) -> (u32, XState)
    decreases fuel,
{
    let (x, s2) = xnext_spec(s);
    if x >= reject_below(max) || fuel == 0 {
        ((x % max) as u32, s2)
    } else {
        draw(s2, max, (fuel - 1) as nat)
    }
}

pub proof fn lemma_draw_below(s: XState, max: u32, fuel: nat)
    requires
        max > 0,
    ensures
        draw(s, max, fuel).0 < max,
    decreases fuel,
{
    let (x, s2) = xnext_spec(s);
    if !(x >= reject_below(max) || fuel == 0) {
        lemma_draw_below(s2, max, (fuel - 1) as nat);
    }
}

fn rotl(x: u32, n: u32) -> (r: u32)
    requires
        0 < n < 32,
    ensures
        r == rotl32(x, n),
{
    (x << n) | (x >> (32 - n))
}

fn splitmix64(z: &mut u64) -> (r: u64)
    ensures
        (*final(z), r) == splitmix_step(*old(z)),
{
    *z = z.wrapping_add(GOLDEN);
    let mut v = *z;
    v = (v ^ (v >> 30)).wrapping_mul(0xbf58476d1ce4e5b9);
    v = (v ^ (v >> 27)).wrapping_mul(0x94d049bb133111eb);
    v ^ (v >> 31)
}

fn xseed(seed: u64) -> (s: XState)
    ensures
        s == xseed_spec(seed),
{
    let mut z = seed;
    let a = splitmix64(&mut z);
    let b = splitmix64(&mut z);
    let s = XState { s0: a as u32, s1: (a >> 32) as u32, s2: b as u32, s3: (b >> 32) as u32 };
    if s.s0 == 0 && s.s1 == 0 && s.s2 == 0 && s.s3 == 0 {
        XState { s0: 1, ..s }
    } else {
        s
    }
}

fn xnext(s: &mut XState) -> (r: u32)
    ensures
        (r, *final(s)) == xnext_spec(*old(s)),
{
    let result = rotl(s.s0.wrapping_add(s.s3), 7).wrapping_add(s.s0);
    let t = s.s1 << 9;
    s.s2 = s.s2 ^ s.s0;
    s.s3 = s.s3 ^ s.s1;
    s.s1 = s.s1 ^ s.s2;
    s.s0 = s.s0 ^ s.s3;
    s.s2 = s.s2 ^ t;
    s.s3 = rotl(s.s3, 11);
    result
}

/// Draws a number below `max`; see `draw`.
fn xint(s: &mut XState, max: u32) -> (r: u32)
    requires
        max > 0,
    ensures
        (r, *final(s)) == draw(*old(s), max, draw_fuel()),
        r < max,
{
    let thr: u32 = (0x1_0000_0000u64 % (max as u64)) as u32;
    assert(thr == reject_below(max));
    let mut tries: u64 = 0;
    loop
        invariant
            max > 0,
            thr == reject_below(max),
            draw(*old(s), max, draw_fuel()) == draw(*s, max, (draw_fuel() - tries) as nat),
        decreases draw_fuel() - tries,
    {
        let ghost before = *s;
        let x = xnext(s);
        if x >= thr || tries == u64::MAX {
            proof {
                lemma_draw_below(before, max, (draw_fuel() - tries) as nat);
            }
            return x % max;
        }
        tries = tries + 1;
    }
}

/// The identity permutation `1, 2, ..., 25`.
pub open spec fn identity_arr() -> Seq<u8> {
    Seq::new(25, |k: int| (k + 1) as u8)
}

pub open spec fn swap_at(a: Seq<u8>, i: int, j: int) -> Seq<u8> {
    a.update(i, a[j]).update(j, a[i])
}

/// The Fisher-Yates steps `i, i - 1, ..., 1` on `a`: step `k` swaps
/// position `k` with a position drawn below `k + 1`.
pub open spec fn fy_steps(s: XState, a: Seq<u8>, i: int) -> (XState, Seq<u8>)
    decreases i,
{
    if i < 1 {
        (s, a)
    } else {
        let (j, s2) = draw(s, (i + 1) as u32, draw_fuel());
        fy_steps(s2, swap_at(a, i, j as int), i - 1)
    }
}

/// The shuffle that `seed` produces.
pub open spec fn shuffle_spec(seed: u64) -> Seq<u8> {
    fy_steps(xseed_spec(seed), identity_arr(), 24).1
}

/// Number of positions `k < n` where `a` holds `k + 1`.
pub open spec fn fixed_points(a: Seq<u8>, n: int) -> int
    decreases n,
{
    if n <= 0 {
        0
    } else {
        fixed_points(a, n - 1) + (if a[n - 1] == n { 1int } else { 0int })
    }
}

/// The score of a seed: the fixed points of its shuffle.
pub open spec fn score_spec(seed: u64) -> int {
    fixed_points(shuffle_spec(seed), 25)
}

/// The seed of shuffle index `i` under base seed `base`.
pub open spec fn index_seed(base: u64, i: u64) -> u64 {
    u64_specs::wrapping_add(base, u64_specs::wrapping_mul(i, GOLDEN))
}

pub proof fn lemma_fixed_points_bounds(a: Seq<u8>, n: int)
    ensures
        0 <= fixed_points(a, n) <= (if n < 0 { 0 } else { n }),
    decreases n,
{
    if n > 0 {
        lemma_fixed_points_bounds(a, n - 1);
    }
}

/// Law: the first `n` positions all hold their own number (position `k`
/// holds `k + 1`) exactly when all `n` of them count as fixed points.
pub proof fn lemma_all_fixed(a: Seq<u8>, n: int)
    requires
        0 <= n <= a.len(),
    ensures
        fixed_points(a, n) == n <==> forall|k: int| 0 <= k < n ==> #[trigger] a[k] == k + 1,
    decreases n,
{
    if n > 0 {
        lemma_all_fixed(a, n - 1);
        lemma_fixed_points_bounds(a, n - 1);
    }
}

pub proof fn lemma_fy_len(s: XState, a: Seq<u8>, i: int)
    requires
        a.len() == 25,
        i <= 24,
    ensures
        fy_steps(s, a, i).1.len() == 25,
    decreases i,
{
    if i >= 1 {
        let (j, s2) = draw(s, (i + 1) as u32, draw_fuel());
        lemma_draw_below(s, (i + 1) as u32, draw_fuel());
        lemma_fy_len(s2, swap_at(a, i, j as int), i - 1);
    }
}

/// Some entry of `a` is `v`.
pub open spec fn holds_value(a: Seq<u8>, v: int) -> bool {
    exists|k: int| 0 <= k < a.len() && #[trigger] a[k] == v
}

/// `a` is a permutation of `1..=25`: 25 entries, each in `1..=25`, each value present.
pub open spec fn is_perm25(a: Seq<u8>) -> bool {
    &&& a.len() == 25
    &&& forall|k: int| 0 <= k < 25 ==> 1 <= #[trigger] a[k] <= 25
    &&& forall|v: int| 1 <= v <= 25 ==> #[trigger] holds_value(a, v)
}

pub proof fn lemma_swap_keeps_perm(a: Seq<u8>, i: int, j: int)
    requires
        is_perm25(a),
        0 <= i < 25,
        0 <= j < 25,
    ensures
        is_perm25(swap_at(a, i, j)),
{
    let b = swap_at(a, i, j);
    assert forall|k: int| 0 <= k < 25 implies 1 <= #[trigger] b[k] <= 25 by {
        if k != i && k != j {
            assert(b[k] == a[k]);
        }
    }
    assert forall|v: int| 1 <= v <= 25 implies #[trigger] holds_value(b, v) by {
        assert(holds_value(a, v));
        let k = choose|k: int| 0 <= k < a.len() && #[trigger] a[k] == v;
        if k == i {
            assert(b[j] == v);
        } else if k == j {
            assert(b[i] == v);
        } else {
            assert(b[k] == v);
        }
    }
}

pub proof fn lemma_fy_keeps_perm(s: XState, a: Seq<u8>, i: int)
    requires
        is_perm25(a),
        i <= 24,
    ensures
        is_perm25(fy_steps(s, a, i).1),
    decreases i,
{
    if i >= 1 {
        let (j, s2) = draw(s, (i + 1) as u32, draw_fuel());
        lemma_draw_below(s, (i + 1) as u32, draw_fuel());
        lemma_swap_keeps_perm(a, i, j as int);
        lemma_fy_keeps_perm(s2, swap_at(a, i, j as int), i - 1);
    }
}

/// Law: every shuffle is a permutation of `1..=25`, so its score is between
/// 0 and 25.
pub proof fn lemma_shuffle_is_permutation(seed: u64)
    ensures
        is_perm25(shuffle_spec(seed)),
        0 <= score_spec(seed) <= 25,
{
    let id = identity_arr();
    assert forall|v: int| 1 <= v <= 25 implies #[trigger] holds_value(id, v) by {
        assert(id[v - 1] == v);
    }
    lemma_fy_keeps_perm(xseed_spec(seed), id, 24);
    lemma_fixed_points_bounds(shuffle_spec(seed), 25);
}

/// Law: each step of the shuffle is a Fisher-Yates step. Step `i` (from 24
/// down to 1) swaps position `i` with the partner drawn below `i + 1`, any
/// position from 0 to `i`, `i` itself included (the element then stays in
/// place), and the remaining steps continue from the generator state after
/// that draw.
pub proof fn lemma_fisher_yates_step(s: XState, a: Seq<u8>, i: int)
    requires
        1 <= i <= 24,
        a.len() == 25,
    ensures
        ({
            let (j, s2) = draw(s, (i + 1) as u32, draw_fuel());
            &&& 0 <= j <= i
            &&& fy_steps(s, a, i) == fy_steps(s2, swap_at(a, i, j as int), i - 1)
        }),
        swap_at(a, i, i) == a,
{
    lemma_draw_below(s, (i + 1) as u32, draw_fuel());
    assert(swap_at(a, i, i) =~= a);
}

/// Law: the shuffle of a seed starts from the identity and runs the
/// Fisher-Yates steps 24 down to 1 on the generator seeded from it; after
/// the last step nothing more changes.
pub proof fn lemma_shuffle_runs_all_steps(seed: u64)
    ensures
        shuffle_spec(seed) == fy_steps(xseed_spec(seed), identity_arr(), 24).1,
        forall|s: XState, a: Seq<u8>| #[trigger] fy_steps(s, a, 0) == (s, a),
        forall|k: int| 0 <= k < 25 ==> #[trigger] identity_arr()[k] == k + 1,
{
}

/// The steps `i, i - 1, ..., 1` leave every position above `i` as it was.
pub proof fn lemma_fy_keeps_above(s: XState, a: Seq<u8>, i: int, k: int)
    requires
        a.len() == 25,
        i <= 24,
        i < k < 25,
    ensures
        fy_steps(s, a, i).1[k] == a[k],
    decreases i,
{
    if i >= 1 {
        let (j, s2) = draw(s, (i + 1) as u32, draw_fuel());
        lemma_draw_below(s, (i + 1) as u32, draw_fuel());
        lemma_fy_keeps_above(s2, swap_at(a, i, j as int), i - 1, k);
    }
}

/// Law: the last position of a shuffle holds `j + 1`, where `j` is the first
/// number the seeded generator draws below 25 (any of 0 to 24). When that
/// draw is 24 the last element stays in place, and the shuffle has at least
/// one fixed point.
pub proof fn lemma_shuffle_last_position(seed: u64)
    ensures
        ({
            let j = draw(xseed_spec(seed), 25, draw_fuel()).0;
            &&& 0 <= j <= 24
            &&& shuffle_spec(seed).len() == 25
            &&& shuffle_spec(seed)[24] == j + 1
            &&& j == 24 ==> score_spec(seed) >= 1
        }),
{
    let s = xseed_spec(seed);
    let id = identity_arr();
    let (j, s2) = draw(s, 25, draw_fuel());
    lemma_draw_below(s, 25, draw_fuel());
    let a1 = swap_at(id, 24, j as int);
    assert(fy_steps(s, id, 24) == fy_steps(s2, a1, 23));
    lemma_fy_keeps_above(s2, a1, 23, 24);
    lemma_fy_len(s, id, 24);
    lemma_fixed_points_bounds(shuffle_spec(seed), 24);
}

/// Shuffles the identity permutation with the generator seeded from `seed`,
/// and scores it by its fixed points.
pub fn one_shuffle(seed: u64) -> (r: (i32, [u8; 25]))
    ensures
        r.0 == score_spec(seed),
        r.1@ == shuffle_spec(seed),
        0 <= r.0 <= 25,
        r.1@[24] == draw(xseed_spec(seed), 25, draw_fuel()).0 + 1,
{
    proof {
        lemma_shuffle_last_position(seed);
    }
    let mut s = xseed(seed);
    let mut arr: [u8; 25] = [
        1, 2, 3, 4, 5, 6, 7, 8, 9, 10, 11, 12, 13, 14, 15, 16, 17, 18, 19, 20, 21, 22, 23, 24, 25,
    ];
    assert(arr@ =~= identity_arr());
    let ghost s_start = s;
    let mut i: usize = 24;
    while i >= 1
        invariant
            0 <= i <= 24,
            arr@.len() == 25,
            fy_steps(s_start, identity_arr(), 24) == fy_steps(s, arr@, i as int),
        decreases i,
    {
        let ghost before_s = s;
        let ghost before_a = arr@;
        let j = xint(&mut s, (i + 1) as u32) as usize;
        let ai = arr[i];
        let aj = arr[j];
        arr[i] = aj;
        arr[j] = ai;
        assert(arr@ =~= swap_at(before_a, i as int, j as int));
        i = i - 1;
    }
    proof {
        lemma_fy_len(s_start, identity_arr(), 24);
    }
    let mut correct: i32 = 0;
    let mut k: usize = 0;
    while k < 25
        invariant
            0 <= k <= 25,
            arr@.len() == 25,
            correct == fixed_points(arr@, k as int),
            0 <= correct <= k,
        decreases 25 - k,
    {
        if arr[k] == (k + 1) as u8 {
            correct = correct + 1;
        }
        k = k + 1;
    }
    (correct, arr)
}

/// The best shuffle found so far in a range: its score, permutation and index.
#[derive(Clone, Copy)]
pub struct LocalBest {
    pub score: i32,
    pub arr: [u8; 25],
    pub index: u64,
}

/// Shuffles index `i` of a lease with base seed `base`.
pub fn local_best_at(base: u64, i: usize) -> (b: LocalBest)
    ensures
        b.score == score_spec(index_seed(base, i as u64)),
        b.arr@ == shuffle_spec(index_seed(base, i as u64)),
        b.index == i,
        0 <= b.score <= 25,
{
    let i = i as u64;
    let seed_i = base.wrapping_add(i.wrapping_mul(GOLDEN));
    let (score, arr) = one_shuffle(seed_i);
    LocalBest { score, arr, index: i }
}

/// Keeps the first of two candidates unless the second scores strictly higher.
pub fn pick_better(a: LocalBest, b: LocalBest) -> (r: LocalBest)
    ensures
        r == (if a.score >= b.score { a } else { b }),
{
    if a.score >= b.score { a } else { b }
}

/// Finds the best shuffle over the indices `lo..hi` in parallel.
///
/// Runs orx-parallel's `par()` over the range on up to `threads` threads
/// (all available ones when 0), maps each index with `local_best_at` and
/// reduces with `pick_better`. The contract claims what any reduction order
/// gives: nothing for an empty range, and otherwise one of the mapped
/// candidates whose score no index of the range exceeds. Which of several
/// equal best candidates comes back depends on how the work was split, and
/// is left unsaid.
#[verifier::external_body]
fn par_best(base: u64, lo: usize, hi: usize, threads: usize) -> (r: Option<LocalBest>)
    ensures
        r is None <==> lo >= hi,
        r matches Some(b) ==> {
            &&& lo <= b.index < hi
            &&& b.score == score_spec(index_seed(base, b.index))
            &&& b.arr@ == shuffle_spec(index_seed(base, b.index))
            &&& forall|i: u64| lo <= i < hi ==> score_spec(index_seed(base, i)) <= b.score
        },
{
    (lo..hi).par().num_threads(threads).map(move |i| local_best_at(base, i)).reduce(pick_better)
}

/// The best shuffle of a range under a base seed: `r` holds a highest-scoring
/// index of `lo..hi`, its score and its shuffle; an empty range gives score
/// -1, an all-zero permutation and index `lo`.
pub open spec fn is_range_best(base: u64, lo: u64, hi: u64, r: RangeResult) -> bool {
    &&& r.lo == lo
    &&& r.hi == hi
    &&& if lo < hi {
        &&& lo <= r.best_index < hi
        &&& r.best_correct == score_spec(index_seed(base, r.best_index))
        &&& 0 <= r.best_correct <= 25
        &&& r.best_arr@ == shuffle_spec(index_seed(base, r.best_index))
        &&& forall|i: u64| lo <= i < hi ==> score_spec(index_seed(base, i)) <= r.best_correct
    } else {
        &&& r.best_correct == -1
        &&& r.best_arr@ == Seq::new(25, |k: int| 0u8)
        &&& r.best_index == lo
    }
}

/// Law: the best score of a range does not depend on how the range was
/// searched: any two results that are each a best of the same range under
/// the same base seed (whatever the thread count or the call) have the same
/// score.
pub proof fn lemma_range_best_score_is_unique(base: u64, lo: u64, hi: u64, r1: RangeResult, r2: RangeResult)
    requires
        is_range_best(base, lo, hi, r1),
        is_range_best(base, lo, hi, r2),
    ensures
        r1.best_correct == r2.best_correct,
{
    if lo < hi {
        assert(score_spec(index_seed(base, r1.best_index)) <= r2.best_correct);
        assert(score_spec(index_seed(base, r2.best_index)) <= r1.best_correct);
    }
}

/// The CPU backend, shuffling on a pool of threads.
pub struct CpuBackend {
    num_threads: usize,
}

impl CpuBackend {
    pub closed spec fn thread_count(&self) -> usize {
        self.num_threads
    }

    /// `threads` = 0 means use all logical cores.
    pub fn new(threads: usize) -> (b: Self)
        ensures
            b.thread_count() == threads,
    {
        CpuBackend { num_threads: threads }
    }
}

impl ComputeBackend for CpuBackend {
    fn compute_range(&mut self, base_seed: u64, lo: u64, hi: u64) -> (r: RangeResult)
        ensures
            is_range_best(base_seed, lo, hi, r),
    {
        let threads = self.num_threads;
        let result = match par_best(base_seed, lo as usize, hi as usize, threads) {
            Some(b) => b,
            None => LocalBest { score: -1, arr: [0u8; 25], index: lo },
        };
        let r = RangeResult {
            lo,
            hi,
            best_correct: result.score,
            best_arr: result.arr,
            best_index: result.index,
        };
        assert(lo >= hi ==> r.best_arr@ =~= Seq::new(25, |k: int| 0u8));
        proof {
            lemma_shuffle_is_permutation(index_seed(base_seed, result.index));
        }
        r
    }
}

} // verus!
