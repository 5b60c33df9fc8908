//! Session metrics: the counters, bests and gauges that the dashboard shows.
//!
//! Floating-point gauges (the compute rate and the host CPU usage) are kept
//! as the raw bits of their `f64` value; their conversion lives with the
//! callers that own the floats.

use std::collections::VecDeque;
use vstd::prelude::*;

verus! {

/// How many report scores the recent-history ring keeps.
pub const RECENT_BESTS_CAP: usize = 20;

pub struct Metrics {
    // Compute
    pub session_shuffles: u64,
    /// Bits of the `f64` compute rate (shuffles per second).
    pub compute_rate_bits: u64,
    // Best tracking
    pub last_report_best: i32,
    pub session_best: i32,
    pub all_time_best: i32,
    // Server
    pub lifetime_shuffles: u64,
    pub recent_bests: VecDeque<i32>,
    pub status: String,
    /// Latest reported permutation, for the visualisation.
    pub last_best_arr: [u8; 25],
    /// Seed of the lease being worked on.
    pub current_seed: String,
    /// Bits of the `f64` host CPU usage percentage.
    pub cpu_usage_bits: u64,
    pub mem_used_bytes: u64,
    pub mem_total_bytes: u64,
    /// `None` when the GPU cannot be monitored; `-1` in the integer gauges means unknown.
    pub gpu_name: Option<String>,
    pub gpu_util_pct: i32,
    pub gpu_mem_used_mb: u64,
    pub gpu_mem_total_mb: u64,
    pub gpu_temp_c: i32,
}

/// The all-zero permutation buffer.
pub open spec fn zero_arr() -> Seq<u8> {
    Seq::new(25, |i: int| 0u8)
}

/// The view of an optional string.
pub open spec fn opt_str_view(o: Option<String>) -> Option<Seq<char>> {
    match o {
        Some(s) => Some(s@),
        None => None,
    }
}

/// The recent-history ring after one more report: the oldest entry leaves
/// once the ring holds `RECENT_BESTS_CAP` entries, and the new one goes last.
pub open spec fn push_history(h: Seq<i32>, best: i32) -> Seq<i32> {
    (if h.len() >= RECENT_BESTS_CAP { h.drop_first() } else { h }).push(best)
}

/// The history that a ring starting as `h` holds after the reports `bests`, in order.
pub open spec fn history_after(h: Seq<i32>, bests: Seq<i32>) -> Seq<i32>
    decreases bests.len(),
{
    if bests.len() == 0 {
        h
    } else {
        push_history(history_after(h, bests.drop_last()), bests.last())
    }
}

/// The last `min(n, s.len())` elements of `s`.
pub open spec fn last_n(s: Seq<i32>, n: int) -> Seq<i32> {
    if s.len() <= n { s } else { s.subrange(s.len() - n, s.len() as int) }
}

pub open spec fn max_i32(a: i32, b: i32) -> i32 {
    if a >= b { a } else { b }
}

/// The parts of the metrics that a finished report writes are the same in `a` and `b`.
pub open spec fn same_report_fields(a: Metrics, b: Metrics) -> bool {
    &&& b.last_report_best == a.last_report_best
    &&& b.session_best == a.session_best
    &&& b.recent_bests@ == a.recent_bests@
    &&& b.last_best_arr == a.last_best_arr
}

/// The gauges of host and GPU are the same in `a` and `b`.
pub open spec fn same_gauges(a: Metrics, b: Metrics) -> bool {
    &&& b.cpu_usage_bits == a.cpu_usage_bits
    &&& b.mem_used_bytes == a.mem_used_bytes
    &&& b.mem_total_bytes == a.mem_total_bytes
    &&& opt_str_view(b.gpu_name) == opt_str_view(a.gpu_name)
    &&& b.gpu_util_pct == a.gpu_util_pct
    &&& b.gpu_mem_used_mb == a.gpu_mem_used_mb
    &&& b.gpu_mem_total_mb == a.gpu_mem_total_mb
    &&& b.gpu_temp_c == a.gpu_temp_c
}

/// The counters and texts are the same in `a` and `b`.
pub open spec fn same_counters_and_text(a: Metrics, b: Metrics) -> bool {
    &&& b.session_shuffles == a.session_shuffles
    &&& b.compute_rate_bits == a.compute_rate_bits
    &&& b.all_time_best == a.all_time_best
    &&& b.lifetime_shuffles == a.lifetime_shuffles
    &&& b.status@ == a.status@
    &&& b.current_seed@ == a.current_seed@
}

/// The report fields of `b` are those of `a` after recording a finished
/// report with score `best` and permutation `arr`.
pub open spec fn report_fields_after(a: Metrics, b: Metrics, best: i32, arr: Seq<u8>) -> bool {
    &&& b.last_report_best == best
    &&& b.session_best == max_i32(a.session_best, best)
    &&& b.last_best_arr@ == (if best >= 0 { arr } else { a.last_best_arr@ })
    &&& b.recent_bests@ == push_history(a.recent_bests@, best)
}

/// `b` is `a` after recording a finished report with score `best` and permutation `arr`.
pub open spec fn reported(a: Metrics, b: Metrics, best: i32, arr: Seq<u8>) -> bool {
    &&& report_fields_after(a, b, best, arr)
    &&& same_counters_and_text(a, b)
    &&& same_gauges(a, b)
}

/// Law: the recent-history ring always holds the last reports. Starting
/// from any ring of at most `RECENT_BESTS_CAP` entries, after the reports
/// `bests` it holds the last `RECENT_BESTS_CAP` entries of the old ring
/// followed by `bests` (all of them, when there are fewer).
pub proof fn lemma_history_holds_last_reports(h: Seq<i32>, bests: Seq<i32>)
    requires
        h.len() <= RECENT_BESTS_CAP,
    ensures
        history_after(h, bests) == last_n(h + bests, RECENT_BESTS_CAP as int),
        history_after(h, bests).len() <= RECENT_BESTS_CAP,
    decreases bests.len(),
{
    let cap = RECENT_BESTS_CAP as int;
    if bests.len() == 0 {
        assert(h + bests =~= h);
    } else {
        let prev = bests.drop_last();
        let x = bests.last();
        lemma_history_holds_last_reports(h, prev);
        let s = h + prev;
        assert(h + bests =~= s.push(x));
        let before = last_n(s, cap);
        if s.len() < cap {
            assert(push_history(before, x) =~= last_n(s.push(x), cap));
        } else {
            assert(before.len() == cap);
            assert(push_history(before, x) =~= last_n(s.push(x), cap));
        }
    }
}

impl Metrics {
    /// Fresh metrics: no shuffles, no best (`-1`), status "starting", unknown GPU.
    pub fn new() -> (m: Metrics)
        ensures
            m.session_shuffles == 0,
            m.compute_rate_bits == 0,
            m.last_report_best == -1,
            m.session_best == -1,
            m.all_time_best == -1,
            m.lifetime_shuffles == 0,
            m.recent_bests@ == Seq::<i32>::empty(),
            m.status@ == "starting"@,
            m.last_best_arr@ == zero_arr(),
            m.current_seed@ == Seq::<char>::empty(),
            m.cpu_usage_bits == 0,
            m.mem_used_bytes == 0,
            m.mem_total_bytes == 0,
            m.gpu_name is None,
            m.gpu_util_pct == -1,
            m.gpu_mem_used_mb == 0,
            m.gpu_mem_total_mb == 0,
            m.gpu_temp_c == -1,
    {
        let m = Metrics {
            session_shuffles: 0,
            compute_rate_bits: 0,
            last_report_best: -1,
            session_best: -1,
            all_time_best: -1,
            lifetime_shuffles: 0,
            recent_bests: VecDeque::new(),
            status: String::from_str("starting"),
            last_best_arr: [0u8; 25],
            current_seed: String::new(),
            cpu_usage_bits: 0,
            mem_used_bytes: 0,
            mem_total_bytes: 0,
            gpu_name: None,
            gpu_util_pct: -1,
            gpu_mem_used_mb: 0,
            gpu_mem_total_mb: 0,
            gpu_temp_c: -1,
        };
        assert(m.last_best_arr@ =~= zero_arr());
        m
    }
    /// Records a report score with an all-zero permutation.
    pub fn push_report_best(&mut self, best: i32)
        ensures
            reported(*old(self), *final(self), best, zero_arr()),
    {
        let zeros = [0u8; 25];
        assert(zeros@ =~= zero_arr());
        self.push_report(best, zeros);
    }

    /// Records a finished report: its score, the winning permutation (kept
    /// only when the score is non-negative), and the score in the
    /// recent-history ring, which never holds more than `RECENT_BESTS_CAP` entries.
    pub fn push_report(&mut self, best: i32, arr: [u8; 25])
        ensures
            reported(*old(self), *final(self), best, arr@),
            old(self).recent_bests@.len() <= RECENT_BESTS_CAP ==> final(self).recent_bests@.len() <= RECENT_BESTS_CAP,
    {
        self.last_report_best = best;
        if best > self.session_best {
            self.session_best = best;
        }
        if best >= 0 {
            self.last_best_arr = arr;
        }
        if self.recent_bests.len() >= RECENT_BESTS_CAP {
            let _ = self.recent_bests.pop_front();
        }
        self.recent_bests.push_back(best);
        assert(self.recent_bests@ =~= push_history(old(self).recent_bests@, best));
    }

    pub fn set_status(&mut self, s: String)
        ensures
            final(self).status@ == s@,
            final(self).current_seed@ == old(self).current_seed@,
            same_report_fields(*old(self), *final(self)),
            final(self).session_shuffles == old(self).session_shuffles,
            final(self).compute_rate_bits == old(self).compute_rate_bits,
            final(self).all_time_best == old(self).all_time_best,
            final(self).lifetime_shuffles == old(self).lifetime_shuffles,
            same_gauges(*old(self), *final(self)),
    {
        self.status = s;
    }

    pub fn set_seed(&mut self, seed: String)
        ensures
            final(self).current_seed@ == seed@,
            final(self).status@ == old(self).status@,
            same_report_fields(*old(self), *final(self)),
            final(self).session_shuffles == old(self).session_shuffles,
            final(self).compute_rate_bits == old(self).compute_rate_bits,
            final(self).all_time_best == old(self).all_time_best,
            final(self).lifetime_shuffles == old(self).lifetime_shuffles,
            same_gauges(*old(self), *final(self)),
    {
        self.current_seed = seed;
    }

    /// Stores the host gauges: the bits of the CPU usage percentage and the memory in use and in total.
    pub fn set_host_stats(&mut self, cpu_usage_bits: u64, mem_used_bytes: u64, mem_total_bytes: u64)
        ensures
            final(self).cpu_usage_bits == cpu_usage_bits,
            final(self).mem_used_bytes == mem_used_bytes,
            final(self).mem_total_bytes == mem_total_bytes,
            opt_str_view(final(self).gpu_name) == opt_str_view(old(self).gpu_name),
            final(self).gpu_util_pct == old(self).gpu_util_pct,
            final(self).gpu_mem_used_mb == old(self).gpu_mem_used_mb,
            final(self).gpu_mem_total_mb == old(self).gpu_mem_total_mb,
            final(self).gpu_temp_c == old(self).gpu_temp_c,
            same_report_fields(*old(self), *final(self)),
            same_counters_and_text(*old(self), *final(self)),
    {
        self.cpu_usage_bits = cpu_usage_bits;
        self.mem_used_bytes = mem_used_bytes;
        self.mem_total_bytes = mem_total_bytes;
    }

    /// Stores the GPU gauges sampled from the driver.
    pub fn set_gpu_stats(&mut self, name: String, util_pct: i32, mem_used_mb: u64, mem_total_mb: u64, temp_c: i32)
        ensures
            opt_str_view(final(self).gpu_name) == Some(name@),
            final(self).gpu_util_pct == util_pct,
            final(self).gpu_mem_used_mb == mem_used_mb,
            final(self).gpu_mem_total_mb == mem_total_mb,
            final(self).gpu_temp_c == temp_c,
            final(self).cpu_usage_bits == old(self).cpu_usage_bits,
            final(self).mem_used_bytes == old(self).mem_used_bytes,
            final(self).mem_total_bytes == old(self).mem_total_bytes,
            same_report_fields(*old(self), *final(self)),
            same_counters_and_text(*old(self), *final(self)),
    {
        self.gpu_name = Some(name);
        self.gpu_util_pct = util_pct;
        self.gpu_mem_used_mb = mem_used_mb;
        self.gpu_mem_total_mb = mem_total_mb;
        self.gpu_temp_c = temp_c;
    }

    /// Marks the GPU as unmonitorable: no name, utilisation and temperature
    /// unknown (`-1`); the memory gauges keep their last values.
    pub fn clear_gpu_stats(&mut self)
        ensures
            final(self).gpu_name is None,
            final(self).gpu_util_pct == -1,
            final(self).gpu_temp_c == -1,
            final(self).gpu_mem_used_mb == old(self).gpu_mem_used_mb,
            final(self).gpu_mem_total_mb == old(self).gpu_mem_total_mb,
            final(self).cpu_usage_bits == old(self).cpu_usage_bits,
            final(self).mem_used_bytes == old(self).mem_used_bytes,
            final(self).mem_total_bytes == old(self).mem_total_bytes,
            same_report_fields(*old(self), *final(self)),
            same_counters_and_text(*old(self), *final(self)),
    {
        self.gpu_name = None;
        self.gpu_util_pct = -1;
        self.gpu_temp_c = -1;
    }
}

} // verus!
