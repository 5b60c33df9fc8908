use bogoforge::compute::cpu::{local_best_at, one_shuffle, pick_better, CpuBackend};
use bogoforge::compute::gpu::gpu_range_result;
use bogoforge::compute::vk::{find_winner, kernel_params, workgroup_fits, BLOCK_RESULT_BYTES};
use bogoforge::compute::ComputeBackend;

fn fixed_points(arr: &[u8; 25]) -> i32 {
    arr.iter().zip(1u8..).filter(|(a, b)| **a == *b).count() as i32
}

#[test]
fn shuffle_is_a_permutation_and_scored() {
    for seed in [0u64, 1, 42, u64::MAX, 0x9e3779b97f4a7c15] {
        let (score, arr) = one_shuffle(seed);
        let mut sorted = arr;
        sorted.sort();
        assert_eq!(sorted.to_vec(), (1..=25).collect::<Vec<u8>>());
        assert_eq!(score, fixed_points(&arr));
        assert_eq!(one_shuffle(seed), (score, arr));
    }
}

#[test]
fn index_seeds_follow_the_golden_step() {
    let base = 1234u64;
    for i in 0..5usize {
        let b = local_best_at(base, i);
        let seed = base.wrapping_add((i as u64).wrapping_mul(0x9e3779b97f4a7c15));
        assert_eq!((b.score, b.arr), one_shuffle(seed));
        assert_eq!(b.index, i as u64);
    }
}

#[test]
fn pick_better_prefers_first_on_ties() {
    let a = local_best_at(1, 0);
    let mut b = local_best_at(1, 1);
    b.score = a.score;
    assert_eq!(pick_better(a, b).index, a.index);
    b.score = a.score + 1;
    assert_eq!(pick_better(a, b).index, b.index);
}

#[test]
fn cpu_backend_finds_range_best() {
    let mut cpu = CpuBackend::new(2);
    let (base, lo, hi) = (99u64, 1000u64, 3000u64);
    let r = cpu.compute_range(base, lo, hi);
    assert_eq!((r.lo, r.hi), (lo, hi));
    let best = (lo..hi).map(|i| local_best_at(base, i as usize).score).max().unwrap();
    assert_eq!(r.best_correct, best);
    assert!(lo <= r.best_index && r.best_index < hi);
    let at = local_best_at(base, r.best_index as usize);
    assert_eq!((at.score, at.arr), (r.best_correct, r.best_arr));
}

#[test]
fn cpu_backend_empty_range() {
    let mut cpu = CpuBackend::new(0);
    let r = cpu.compute_range(5, 10, 10);
    assert_eq!((r.best_correct, r.best_arr, r.best_index), (-1, [0u8; 25], 10));
}

fn put_block(buf: &mut Vec<u8>, b: usize, score: i32, index: u64, arr: [u32; 25]) {
    let base = b * BLOCK_RESULT_BYTES;
    buf[base..base + 4].copy_from_slice(&score.to_le_bytes());
    buf[base + 8..base + 12].copy_from_slice(&(index as u32).to_le_bytes());
    buf[base + 12..base + 16].copy_from_slice(&((index >> 32) as u32).to_le_bytes());
    for (i, v) in arr.iter().enumerate() {
        buf[base + 16 + 4 * i..base + 20 + 4 * i].copy_from_slice(&v.to_le_bytes());
    }
}

#[test]
fn vk_winner_takes_first_strict_best() {
    let mut buf = vec![0u8; 3 * BLOCK_RESULT_BYTES];
    put_block(&mut buf, 0, 2, 7, [1; 25]);
    put_block(&mut buf, 1, 5, (3u64 << 32) | 9, [0x1_02; 25]);
    put_block(&mut buf, 2, 5, 11, [3; 25]);
    let r = find_winner(&buf, 3, 100, 200);
    assert_eq!((r.lo, r.hi), (100, 200));
    assert_eq!(r.best_correct, 5);
    assert_eq!(r.best_index, (3u64 << 32) | 9);
    assert_eq!(r.best_arr, [2u8; 25]);
}

#[test]
fn vk_winner_of_nothing() {
    let mut buf = vec![0u8; 2 * BLOCK_RESULT_BYTES];
    put_block(&mut buf, 0, -1, 7, [1; 25]);
    put_block(&mut buf, 1, -5, 8, [1; 25]);
    let r = find_winner(&buf, 2, 42, 50);
    assert_eq!((r.best_correct, r.best_index, r.best_arr), (-1, 42, [0u8; 25]));
    let r = find_winner(&[], 0, 1, 2);
    assert_eq!((r.best_correct, r.best_index), (-1, 1));
}

#[test]
fn gpu_result_decoding() {
    let arrays: Vec<u8> = (0..75).map(|v| v as u8).collect();
    let indices = vec![10u64, 20, 30];
    let packed = (7u64 << 32) | 2;
    let r = gpu_range_result(5, 9, packed, &arrays, &indices);
    assert_eq!((r.lo, r.hi, r.best_correct, r.best_index), (5, 9, 7, 30));
    assert_eq!(r.best_arr.to_vec(), (50..75).map(|v| v as u8).collect::<Vec<u8>>());
    let r = gpu_range_result(5, 9, 0, &arrays, &indices);
    assert_eq!((r.best_correct, r.best_index, r.best_arr), (-1, 5, [0u8; 25]));
}

#[test]
fn best_score_does_not_depend_on_threads() {
    let (base, lo, hi) = (7u64, 0u64, 4000u64);
    let scores: Vec<i32> = [0usize, 1, 2, 8]
        .iter()
        .map(|&t| CpuBackend::new(t).compute_range(base, lo, hi).best_correct)
        .collect();
    assert!(scores.windows(2).all(|w| w[0] == w[1]));
}

#[test]
fn kernel_parameters_split_halves() {
    let p = kernel_params(0x0123_4567_89ab_cdef, 5, (7u64 << 32) | 9);
    assert_eq!(p, [0x89ab_cdef, 0x0123_4567, 5, 0, 9, 7]);
    assert!(workgroup_fits(256));
    assert!(!workgroup_fits(128));
}
