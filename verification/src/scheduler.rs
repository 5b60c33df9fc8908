//! Lease scheduling: how the shuffles of a lease are cut into chunks, handed
//! to idle compute backends, and how finished chunks are accounted for and
//! turned into reports.
//!
//! `LeaseRun` holds the decisions; the caller owns the channels, performs
//! the sends and receives, and feeds every finished chunk back in.

use tokio::sync::mpsc::Sender;
use vstd::prelude::*;

use crate::metrics::{
    report_fields_after, same_gauges, same_report_fields, zero_arr, Metrics,
};
use crate::net::protocol::{server_message_effect, Job, NetAction, ProtocolError, ServerMessage};
use crate::net::types::{Chunk, Lease, RangeResult, Report};

verus! {

#[verifier::external_type_specification]
#[verifier::external_body]
#[verifier::reject_recursive_types(T)]
pub struct ExSender<T>(Sender<T>);

/// One active compute backend: how many shuffles it takes at a time, and
/// where its work goes.
pub struct BackendHandle {
    pub chunk_size: u64,
    pub work_tx: Sender<Chunk>,
}

impl BackendHandle {
    pub fn new(chunk_size: u64, work_tx: Sender<Chunk>) -> (h: Self)
        ensures
            h.chunk_size == chunk_size,
            h.work_tx == work_tx,
    {
        BackendHandle { chunk_size, work_tx }
    }
}

/// The range `[lo, hi)` a backend is working on, if any.
pub type Slot = Option<(u64, u64)>;

/// The abstract state of a lease in progress.
pub struct LeaseView {
    pub seed: u64,
    pub count: u64,
    pub seed_str: Seq<char>,
    /// Chunk size of each backend, by backend id.
    pub chunk_sizes: Seq<u64>,
    /// The range each backend is working on, by backend id.
    pub slots: Seq<Slot>,
    /// Start of the first shuffle index not yet handed out.
    pub next_dispatch: u64,
    /// Number of backends working.
    pub in_flight: nat,
    /// Shuffles finished on this lease.
    pub total_done: u64,
    /// Best score since the last report (-1 when none), its permutation and index.
    pub win_best: i32,
    pub win_arr: Seq<u8>,
    pub win_index: u64,
}

pub open spec fn slot_lo(s: Slot) -> u64 {
    match s {
        Some((lo, _)) => lo,
        None => 0,
    }
}

pub open spec fn slot_hi(s: Slot) -> u64 {
    match s {
        Some((_, hi)) => hi,
        None => 0,
    }
}

pub open spec fn slot_len(s: Slot) -> int {
    match s {
        Some((lo, hi)) => hi - lo,
        None => 0,
    }
}

/// Number of busy slots.
pub open spec fn busy_count(s: Seq<Slot>) -> nat
    decreases s.len(),
{
    if s.len() == 0 {
        0
    } else {
        busy_count(s.drop_last()) + (if s.last() is Some { 1nat } else { 0nat })
    }
}

/// Total number of shuffles in the busy slots.
pub open spec fn busy_len(s: Seq<Slot>) -> int
    decreases s.len(),
{
    if s.len() == 0 {
        0
    } else {
        busy_len(s.drop_last()) + slot_len(s.last())
    }
}

/// Busy ranges are well ordered, lie below `bound`, and do not overlap.
pub open spec fn slots_ok(s: Seq<Slot>, bound: u64) -> bool {
    &&& forall|i: int| 0 <= i < s.len() && #[trigger] s[i] is Some ==> slot_lo(s[i]) <= slot_hi(s[i]) <= bound
    &&& forall|i: int, j: int|
        0 <= i < s.len() && 0 <= j < s.len() && i != j && #[trigger] s[i] is Some && #[trigger] s[j] is Some
            ==> slot_hi(s[i]) <= slot_lo(s[j]) || slot_hi(s[j]) <= slot_lo(s[i])
}

/// The invariant of a lease in progress: everything handed out is either
/// finished or in exactly one busy slot.
pub open spec fn lease_wf(v: LeaseView) -> bool {
    &&& v.slots.len() == v.chunk_sizes.len()
    &&& v.next_dispatch <= v.count
    &&& v.in_flight == busy_count(v.slots)
    &&& v.total_done + busy_len(v.slots) == v.next_dispatch
    &&& slots_ok(v.slots, v.next_dispatch)
    &&& v.win_arr.len() == 25
}

/// Where the dispatch cursor stands after the decisions for backends `0..j`.
pub open spec fn next_after(d: Seq<Option<Chunk>>, start: u64, j: int) -> u64
    decreases j,
{
    if j <= 0 || j > d.len() {
        start
    } else {
        match d[j - 1] {
            Some(c) => c.hi,
            None => next_after(d, start, j - 1),
        }
    }
}

pub open spec fn min_int(a: int, b: int) -> int {
    if a <= b { a } else { b }
}

/// `n` is `o` after one dispatch round that produced `d`, the chunk (if any)
/// for each backend id: every idle backend, in id order, takes the next
/// `chunk_size` shuffles of the lease (fewer at its end) until the lease is
/// all handed out.
pub open spec fn dispatched(o: LeaseView, n: LeaseView, d: Seq<Option<Chunk>>) -> bool {
    &&& d.len() == o.slots.len()
    &&& n.slots.len() == o.slots.len()
    &&& n.seed == o.seed
    &&& n.count == o.count
    &&& n.seed_str == o.seed_str
    &&& n.chunk_sizes == o.chunk_sizes
    &&& n.total_done == o.total_done
    &&& n.win_best == o.win_best
    &&& n.win_arr == o.win_arr
    &&& n.win_index == o.win_index
    &&& n.next_dispatch == next_after(d, o.next_dispatch, d.len() as int)
    &&& forall|j: int| 0 <= j < d.len() ==> match #[trigger] d[j] {
        Some(c) => {
            &&& o.slots[j] is None
            &&& c.seed == o.seed
            &&& c.lo == next_after(d, o.next_dispatch, j)
            &&& c.lo < o.count
            &&& c.hi == min_int(c.lo + o.chunk_sizes[j], o.count as int)
            &&& n.slots[j] == Some((c.lo, c.hi))
        },
        None => {
            &&& n.slots[j] == o.slots[j]
            &&& (o.slots[j] is Some || next_after(d, o.next_dispatch, j) == o.count)
        },
    }
}

/// The best of the current window and a finished chunk: a chunk replaces the
/// window's best only with a strictly higher score.
pub open spec fn better_win(v: LeaseView, r: RangeResult) -> (i32, Seq<u8>, u64) {
    if r.best_correct > v.win_best {
        (r.best_correct, r.best_arr@, r.best_index)
    } else {
        (v.win_best, v.win_arr, v.win_index)
    }
}

/// A report is due after a finished chunk when the report interval has run
/// out or the lease is complete, and the window holds a score.
pub open spec fn report_emitted(o: LeaseView, n: LeaseView, r: RangeResult, report_due: bool) -> bool {
    let lease_done = n.total_done >= n.count && n.in_flight == 0;
    (report_due || lease_done) && better_win(o, r).0 >= 0
}

/// `n`, `m1` and `report` are `o`, `m0` after backend `id` finished chunk `r`.
pub open spec fn completed(
    o: LeaseView,
    n: LeaseView,
    m0: Metrics,
    m1: Metrics,
    id: int,
    r: RangeResult,
    report_due: bool,
    report: Option<Report>,
) -> bool {
    let w = better_win(o, r);
    &&& n.slots == o.slots.update(id, None)
    &&& n.in_flight == o.in_flight - 1
    &&& n.total_done == o.total_done + (r.hi - r.lo)
    &&& n.next_dispatch == o.next_dispatch
    &&& n.seed == o.seed
    &&& n.count == o.count
    &&& n.seed_str == o.seed_str
    &&& n.chunk_sizes == o.chunk_sizes
    &&& m1.session_shuffles == (m0.session_shuffles + (r.hi - r.lo)) % 0x1_0000_0000_0000_0000
    &&& m1.compute_rate_bits == m0.compute_rate_bits
    &&& m1.all_time_best == m0.all_time_best
    &&& m1.lifetime_shuffles == m0.lifetime_shuffles
    &&& m1.status@ == m0.status@
    &&& m1.current_seed@ == m0.current_seed@
    &&& same_gauges(m0, m1)
    &&& if report_emitted(o, n, r, report_due) {
        &&& report is Some
        &&& report->0.seed_str@ == o.seed_str
        &&& report->0.total_done == n.total_done
        &&& report->0.best_correct == w.0 as u32
        &&& report->0.best_arr@ == w.1
        &&& report->0.best_index == w.2
        &&& report_fields_after(m0, m1, w.0, w.1)
        &&& n.win_best == -1
        &&& n.win_arr == zero_arr()
        &&& n.win_index == 0
    } else {
        &&& report is None
        &&& same_report_fields(m0, m1)
        &&& n.win_best == w.0
        &&& n.win_arr == w.1
        &&& n.win_index == w.2
    }
}

pub proof fn lemma_busy_update(s: Seq<Slot>, i: int, v: Slot)
    requires
        0 <= i < s.len(),
    ensures
        busy_count(s.update(i, v)) == busy_count(s) - (if s[i] is Some { 1int } else { 0int }) + (
        if v is Some { 1int } else { 0int }),
        busy_len(s.update(i, v)) == busy_len(s) - slot_len(s[i]) + slot_len(v),
    decreases s.len(),
{
    let u = s.update(i, v);
    if i == s.len() - 1 {
        assert(u.drop_last() =~= s.drop_last());
    } else {
        assert(u.drop_last() =~= s.drop_last().update(i, v));
        lemma_busy_update(s.drop_last(), i, v);
    }
}

pub proof fn lemma_busy_bounds(s: Seq<Slot>)
    requires
        forall|i: int| 0 <= i < s.len() && #[trigger] s[i] is Some ==> slot_lo(s[i]) <= slot_hi(s[i]),
    ensures
        busy_count(s) <= s.len(),
        busy_len(s) >= 0,
        busy_count(s) == 0 ==> forall|i: int| 0 <= i < s.len() ==> #[trigger] s[i] is None,
    decreases s.len(),
{
    if s.len() > 0 {
        let p = s.drop_last();
        assert forall|i: int| 0 <= i < p.len() && #[trigger] p[i] is Some implies slot_lo(p[i]) <= slot_hi(p[i]) by {
            assert(p[i] == s[i]);
        }
        lemma_busy_bounds(p);
        if busy_count(s) == 0 {
            assert forall|i: int| 0 <= i < s.len() implies #[trigger] s[i] is None by {
                if i < s.len() - 1 {
                    assert(s[i] == p[i]);
                }
            }
        }
    }
}

pub proof fn lemma_next_after_push(d: Seq<Option<Chunk>>, x: Option<Chunk>, start: u64, j: int)
    requires
        0 <= j <= d.len(),
    ensures
        next_after(d.push(x), start, j) == next_after(d, start, j),
    decreases j,
{
    if j > 0 {
        assert(d.push(x)[j - 1] == d[j - 1]);
        lemma_next_after_push(d, x, start, j - 1);
    }
}

/// Law: the shuffles finished on a lease never exceed what was handed out,
/// which never exceeds the lease.
pub proof fn lemma_done_within_lease(v: LeaseView)
    requires
        lease_wf(v),
    ensures
        v.total_done <= v.next_dispatch <= v.count,
{
    lemma_busy_bounds(v.slots);
}

/// Law: when, right after a dispatch round over at least one backend, no
/// backend is working, the whole lease has been handed out and finished.
/// This is when the scheduler leaves a lease, so it never leaves one early.
pub proof fn lemma_idle_after_dispatch_means_complete(o: LeaseView, n: LeaseView, d: Seq<Option<Chunk>>)
    requires
        lease_wf(o),
        lease_wf(n),
        dispatched(o, n, d),
        n.slots.len() > 0,
        n.in_flight == 0,
    ensures
        n.next_dispatch == n.count,
        n.total_done == n.count,
{
    lemma_busy_bounds(n.slots);
    assert(n.slots[0] is None);
    // Nothing was handed out in this round, and backend 0 was idle before it.
    assert forall|j: int| 0 <= j < d.len() implies #[trigger] d[j] is None by {
        if d[j] is Some {
            assert(n.slots[j] is Some);
        }
    }
    assert(d[0] is None);
    assert(o.slots[0] is None);
    assert(next_after(d, o.next_dispatch, 0) == o.count);
    lemma_next_after_all_none(d, o.next_dispatch, d.len() as int);
    lemma_busy_zero(n.slots);
}

proof fn lemma_next_after_monotone(o: LeaseView, n: LeaseView, d: Seq<Option<Chunk>>, j: int, k: int)
    requires
        lease_wf(o),
        dispatched(o, n, d),
        0 <= j <= k <= d.len(),
    ensures
        o.next_dispatch <= next_after(d, o.next_dispatch, j) <= next_after(d, o.next_dispatch, k) <= o.count,
    decreases k,
{
    if k > j {
        lemma_next_after_monotone(o, n, d, j, k - 1);
        let c = d[k - 1];
        if c is Some {
            assert(next_after(d, o.next_dispatch, k) == c->0.hi);
        }
    } else if k > 0 {
        lemma_next_after_monotone(o, n, d, 0, k - 1);
        let c = d[k - 1];
        if c is Some {
            assert(next_after(d, o.next_dispatch, k) == c->0.hi);
        }
    }
}

/// Law: a dispatch round hands out exactly the shuffles between where the
/// cursor stood and where it stands after the round: every chunk of the
/// round lies in that range and within the lease, and the chunks follow one
/// another in backend order with neither gap nor overlap.
pub proof fn lemma_round_tiles_range(o: LeaseView, n: LeaseView, d: Seq<Option<Chunk>>)
    requires
        lease_wf(o),
        dispatched(o, n, d),
    ensures
        o.next_dispatch <= n.next_dispatch <= n.count,
        forall|j: int| 0 <= j < d.len() && #[trigger] d[j] is Some ==>
            o.next_dispatch <= d[j]->0.lo <= d[j]->0.hi <= n.next_dispatch,
        forall|j: int, k: int| 0 <= j < k < d.len() && #[trigger] d[j] is Some && #[trigger] d[k] is Some
            && (forall|m: int| j < m < k ==> #[trigger] d[m] is None) ==> d[j]->0.hi == d[k]->0.lo,
{
    lemma_next_after_monotone(o, n, d, 0, d.len() as int);
    assert forall|j: int| 0 <= j < d.len() && #[trigger] d[j] is Some implies
        o.next_dispatch <= d[j]->0.lo <= d[j]->0.hi <= n.next_dispatch by {
        lemma_next_after_monotone(o, n, d, j, j + 1);
        lemma_next_after_monotone(o, n, d, j + 1, d.len() as int);
        assert(next_after(d, o.next_dispatch, j + 1) == d[j]->0.hi);
    }
    assert forall|j: int, k: int| 0 <= j < k < d.len() && #[trigger] d[j] is Some && #[trigger] d[k] is Some
        && (forall|m: int| j < m < k ==> #[trigger] d[m] is None) implies d[j]->0.hi == d[k]->0.lo by {
        lemma_next_after_skips_idle(d, o.next_dispatch, j + 1, k);
        assert(next_after(d, o.next_dispatch, j + 1) == d[j]->0.hi);
    }
}

proof fn lemma_next_after_skips_idle(d: Seq<Option<Chunk>>, start: u64, j: int, k: int)
    requires
        0 < j <= k <= d.len(),
        forall|m: int| j <= m < k ==> #[trigger] d[m] is None,
    ensures
        next_after(d, start, k) == next_after(d, start, j),
    decreases k - j,
{
    if k > j {
        assert(d[k - 1] is None);
        lemma_next_after_skips_idle(d, start, j, k - 1);
    }
}

/// Law: a report carries the seed text of the job it answers, verbatim:
/// the job becomes a lease with that text, a lease run started on it keeps
/// it through a dispatch round, and a report made after it echoes it.
pub proof fn lemma_report_echoes_job_seed(
    job: Job,
    m0: Metrics,
    m1: Metrics,
    lease: Lease,
    start: LeaseView,
    o: LeaseView,
    n: LeaseView,
    d: Seq<Option<Chunk>>,
    m2: Metrics,
    m3: Metrics,
    id: int,
    r: RangeResult,
    report_due: bool,
    report: Report,
)
    requires
        server_message_effect(ServerMessage::Job(job), m0, m1, Ok::<NetAction, ProtocolError>(NetAction::StartLease(lease))),
        start.seed_str == lease.seed_str@,
        dispatched(start, o, d),
        completed(o, n, m2, m3, id, r, report_due, Some(report)),
    ensures
        report.seed_str@ == job.seed@,
{
}

pub proof fn lemma_next_after_all_none(d: Seq<Option<Chunk>>, start: u64, j: int)
    requires
        0 <= j <= d.len(),
        forall|k: int| 0 <= k < d.len() ==> #[trigger] d[k] is None,
    ensures
        next_after(d, start, j) == start,
    decreases j,
{
    if j > 0 {
        assert(d[j - 1] is None);
        lemma_next_after_all_none(d, start, j - 1);
    }
}

/// A lease in progress.
pub struct LeaseRun {
    seed: u64,
    count: u64,
    seed_str: String,
    chunk_sizes: Vec<u64>,
    slots: Vec<Slot>,
    next_dispatch: u64,
    in_flight: usize,
    total_done: u64,
    win_best: i32,
    win_arr: [u8; 25],
    win_index: u64,
}

impl View for LeaseRun {
    type V = LeaseView;

    closed spec fn view(&self) -> LeaseView {
        LeaseView {
            seed: self.seed,
            count: self.count,
            seed_str: self.seed_str@,
            chunk_sizes: self.chunk_sizes@,
            slots: self.slots@,
            next_dispatch: self.next_dispatch,
            in_flight: self.in_flight as nat,
            total_done: self.total_done,
            win_best: self.win_best,
            win_arr: self.win_arr@,
            win_index: self.win_index,
        }
    }
}

impl LeaseRun {
    pub open spec fn wf(&self) -> bool {
        lease_wf(self@)
    }

    /// Starts work on `lease` over `backends`: nothing handed out yet, every
    /// backend idle, no best yet; the metrics show the lease's seed and the
    /// status "computing".
    pub fn start(metrics: &mut Metrics, lease: &Lease, backends: &Vec<BackendHandle>) -> (run: LeaseRun)
        ensures
            run.wf(),
            run@.seed == lease.seed,
            run@.count == lease.count,
            run@.seed_str == lease.seed_str@,
            run@.chunk_sizes.len() == backends@.len(),
            forall|i: int| 0 <= i < backends@.len() ==> run@.chunk_sizes[i] == #[trigger] backends@[i].chunk_size,
            run@.slots == Seq::new(backends@.len(), |i: int| None::<(u64, u64)>),
            run@.next_dispatch == 0,
            run@.in_flight == 0,
            run@.total_done == 0,
            run@.win_best == -1,
            run@.win_arr == zero_arr(),
            run@.win_index == 0,
            final(metrics).status@ == "computing"@,
            final(metrics).current_seed@ == lease.seed_str@,
            same_report_fields(*old(metrics), *final(metrics)),
            final(metrics).session_shuffles == old(metrics).session_shuffles,
            final(metrics).compute_rate_bits == old(metrics).compute_rate_bits,
            final(metrics).all_time_best == old(metrics).all_time_best,
            final(metrics).lifetime_shuffles == old(metrics).lifetime_shuffles,
            same_gauges(*old(metrics), *final(metrics)),
    {
        metrics.set_status(String::from_str("computing"));
        metrics.set_seed(lease.seed_str.clone());
        let mut chunk_sizes: Vec<u64> = Vec::new();
        let mut slots: Vec<Slot> = Vec::new();
        let mut i: usize = 0;
        while i < backends.len()
            invariant
                0 <= i <= backends@.len(),
                chunk_sizes@.len() == i,
                slots@.len() == i,
                forall|k: int| 0 <= k < i ==> chunk_sizes@[k] == #[trigger] backends@[k].chunk_size,
                forall|k: int| 0 <= k < i ==> #[trigger] slots@[k] is None,
            decreases backends@.len() - i,
        {
            chunk_sizes.push(backends[i].chunk_size);
            slots.push(None);
            i = i + 1;
        }
        let run = LeaseRun {
            seed: lease.seed,
            count: lease.count,
            seed_str: lease.seed_str.clone(),
            chunk_sizes,
            slots,
            next_dispatch: 0,
            in_flight: 0,
            total_done: 0,
            win_best: -1,
            win_arr: [0u8; 25],
            win_index: 0,
        };
        assert(run@.slots =~= Seq::new(backends@.len(), |i: int| None::<(u64, u64)>));
        assert(run@.win_arr =~= zero_arr());
        proof {
            lemma_busy_zero(run@.slots);
        }
        run
    }

    /// Ends work on the lease: the metrics show the status "waiting for lease".
    pub fn finish(self, metrics: &mut Metrics)
        ensures
            final(metrics).status@ == "waiting for lease"@,
            final(metrics).current_seed@ == old(metrics).current_seed@,
            same_report_fields(*old(metrics), *final(metrics)),
            final(metrics).session_shuffles == old(metrics).session_shuffles,
            final(metrics).compute_rate_bits == old(metrics).compute_rate_bits,
            final(metrics).all_time_best == old(metrics).all_time_best,
            final(metrics).lifetime_shuffles == old(metrics).lifetime_shuffles,
            same_gauges(*old(metrics), *final(metrics)),
    {
        metrics.set_status(String::from_str("waiting for lease"));
    }

    /// Number of backends working on this lease.
    pub fn in_flight(&self) -> (n: usize)
        ensures
            n == self@.in_flight,
    {
        self.in_flight
    }

    /// The range backend `id` is working on, if any.
    pub fn slot(&self, id: usize) -> (s: Slot)
        requires
            id < self@.slots.len(),
        ensures
            s == self@.slots[id as int],
    {
        self.slots[id]
    }

    /// Number of backends this lease runs on.
    pub fn backend_count(&self) -> (n: usize)
        ensures
            n == self@.slots.len(),
    {
        self.slots.len()
    }

    pub fn total_done(&self) -> (n: u64)
        ensures
            n == self@.total_done,
    {
        self.total_done
    }

    /// Accounts for backend `id` finishing its chunk with `result`: the
    /// backend becomes idle, the chunk's shuffles count as done (on the lease
    /// and in the session counter), and the window keeps the strictly better
    /// score. When the report interval has run out (`report_due`) or the lease
    /// is complete, and the window holds a score, the window becomes a report,
    /// is recorded in the metrics, and starts over.
    pub fn on_result(&mut self, metrics: &mut Metrics, id: usize, result: &RangeResult, report_due: bool) -> (report: Option<Report>)
        requires
            old(self).wf(),
            id < old(self)@.slots.len(),
            old(self)@.slots[id as int] == Some((result.lo, result.hi)),
        ensures
            final(self).wf(),
            completed(old(self)@, final(self)@, *old(metrics), *final(metrics), id as int, *result, report_due, report),
    {
        let ghost o = self@;
        let lo = result.lo;
        let hi = result.hi;
        proof {
            lemma_busy_update(o.slots, id as int, None);
            let u = o.slots.update(id as int, None);
            assert forall|a: int| 0 <= a < u.len() && #[trigger] u[a] is Some implies slot_lo(u[a]) <= slot_hi(u[a]) by {
                assert(u[a] == o.slots[a]);
            }
            lemma_busy_bounds(u);
            assert(slot_lo(o.slots[id as int]) <= slot_hi(o.slots[id as int]));
        }
        self.slots.set(id, None);
        self.in_flight = self.in_flight - 1;
        let count = hi - lo;
        self.total_done = self.total_done + count;
        metrics.session_shuffles = metrics.session_shuffles.wrapping_add(count);
        proof {
            let s = self@.slots;
            assert forall|a: int| 0 <= a < s.len() && #[trigger] s[a] is Some implies slot_lo(s[a]) <= slot_hi(s[a]) <= self.next_dispatch by {
                assert(s[a] == o.slots[a]);
            }
            assert forall|a: int, b: int|
                0 <= a < s.len() && 0 <= b < s.len() && a != b && #[trigger] s[a] is Some && #[trigger] s[b] is Some
                implies slot_hi(s[a]) <= slot_lo(s[b]) || slot_hi(s[b]) <= slot_lo(s[a]) by {
                assert(s[a] == o.slots[a]);
                assert(s[b] == o.slots[b]);
            }
        }
        if result.best_correct > self.win_best {
            self.win_best = result.best_correct;
            self.win_arr = result.best_arr;
            self.win_index = result.best_index;
        }
        let lease_done = self.total_done >= self.count && self.in_flight == 0;
        if (report_due || lease_done) && self.win_best >= 0 {
            let report = Report {
                seed_str: self.seed_str.clone(),
                total_done: self.total_done,
                best_correct: self.win_best as u32,
                best_arr: self.win_arr,
                best_index: self.win_index,
            };
            metrics.push_report(self.win_best, self.win_arr);
            self.win_best = -1;
            self.win_arr = [0u8; 25];
            self.win_index = 0;
            assert(self@.win_arr =~= zero_arr());
            Some(report)
        } else {
            None
        }
    }

    /// Hands the next chunks of the lease to every idle backend, in id order,
    /// while shuffles remain; returns the chunk for each backend id.
    pub fn dispatch(&mut self) -> (chunks: Vec<Option<Chunk>>)
        requires
            old(self).wf(),
        ensures
            final(self).wf(),
            dispatched(old(self)@, final(self)@, chunks@),
    {
        let ghost o = self@;
        let n = self.slots.len();
        let mut chunks: Vec<Option<Chunk>> = Vec::new();
        let mut i: usize = 0;
        while i < n
            invariant
                0 <= i <= n,
                n == o.slots.len(),
                lease_wf(o),
                lease_wf(self@),
                self@.slots.len() == n,
                chunks@.len() == i,
                self@.seed == o.seed,
                self@.count == o.count,
                self@.seed_str == o.seed_str,
                self@.chunk_sizes == o.chunk_sizes,
                self@.total_done == o.total_done,
                self@.win_best == o.win_best,
                self@.win_arr == o.win_arr,
                self@.win_index == o.win_index,
                self.next_dispatch == next_after(chunks@, o.next_dispatch, i as int),
                forall|j: int| i <= j < n ==> self@.slots[j] == o.slots[j],
                forall|j: int| 0 <= j < i ==> match #[trigger] chunks@[j] {
                    Some(c) => {
                        &&& o.slots[j] is None
                        &&& c.seed == o.seed
                        &&& c.lo == next_after(chunks@, o.next_dispatch, j)
                        &&& c.lo < o.count
                        &&& c.hi == min_int(c.lo + o.chunk_sizes[j], o.count as int)
                        &&& self@.slots[j] == Some((c.lo, c.hi))
                    },
                    None => {
                        &&& self@.slots[j] == o.slots[j]
                        &&& (o.slots[j] is Some || next_after(chunks@, o.next_dispatch, j) == o.count)
                    },
                },
            decreases n - i,
        {
            let ghost before = self@;
            let ghost d0 = chunks@;
            proof {
                lemma_busy_bounds(before.slots);
            }
            if self.slots[i].is_none() && self.next_dispatch < self.count {
                let lo = self.next_dispatch;
                let cs = self.chunk_sizes[i];
                let hi = if cs >= self.count - lo { self.count } else { lo + cs };
                let c = Chunk { seed: self.seed, lo, hi };
                proof {
                    lemma_busy_update(before.slots, i as int, Some((lo, hi)));
                    let u = before.slots.update(i as int, Some((lo, hi)));
                    assert forall|a: int| 0 <= a < u.len() && #[trigger] u[a] is Some implies slot_lo(u[a]) <= slot_hi(u[a]) by {
                        if a != i {
                            assert(u[a] == before.slots[a]);
                        }
                    }
                    lemma_busy_bounds(u);
                }
                self.next_dispatch = hi;
                self.slots.set(i, Some((lo, hi)));
                self.in_flight = self.in_flight + 1;
                chunks.push(Some(c));
                proof {
                    assert(self@.slots == before.slots.update(i as int, Some((lo, hi))));
                    assert forall|j: int| 0 <= j <= i implies next_after(chunks@, o.next_dispatch, j)
                        == next_after(d0, o.next_dispatch, j) by {
                        lemma_next_after_push(d0, Some(c), o.next_dispatch, j);
                    }
                    assert(chunks@[i as int] == Some(c));
                    assert(next_after(chunks@, o.next_dispatch, i + 1) == hi);
                    let s = self@.slots;
                    assert forall|a: int| 0 <= a < s.len() && #[trigger] s[a] is Some implies slot_lo(s[a]) <= slot_hi(s[a]) <= hi by {
                        if a != i {
                            assert(s[a] == before.slots[a]);
                        }
                    }
                    assert forall|a: int, b: int|
                        0 <= a < s.len() && 0 <= b < s.len() && a != b && #[trigger] s[a] is Some && #[trigger] s[b] is Some
                        implies slot_hi(s[a]) <= slot_lo(s[b]) || slot_hi(s[b]) <= slot_lo(s[a]) by {
                        if a != i && b != i {
                            assert(s[a] == before.slots[a]);
                            assert(s[b] == before.slots[b]);
                        } else if a == i {
                            assert(s[b] == before.slots[b]);
                        } else {
                            assert(s[a] == before.slots[a]);
                        }
                    }
                    assert forall|j: int| 0 <= j < i + 1 implies match #[trigger] chunks@[j] {
                        Some(c) => {
                            &&& o.slots[j] is None
                            &&& c.seed == o.seed
                            &&& c.lo == next_after(chunks@, o.next_dispatch, j)
                            &&& c.lo < o.count
                            &&& c.hi == min_int(c.lo + o.chunk_sizes[j], o.count as int)
                            &&& self@.slots[j] == Some((c.lo, c.hi))
                        },
                        None => {
                            &&& self@.slots[j] == o.slots[j]
                            &&& (o.slots[j] is Some || next_after(chunks@, o.next_dispatch, j) == o.count)
                        },
                    } by {
                        if j < i {
                            assert(chunks@[j] == d0[j]);
                        }
                    }
                }
            } else {
                chunks.push(None);
                proof {
                    assert forall|j: int| 0 <= j <= i implies next_after(chunks@, o.next_dispatch, j)
                        == next_after(d0, o.next_dispatch, j) by {
                        lemma_next_after_push(d0, None, o.next_dispatch, j);
                    }
                    assert(chunks@[i as int] == None::<Chunk>);
                    assert(next_after(chunks@, o.next_dispatch, i + 1) == self.next_dispatch);
                    assert forall|j: int| 0 <= j < i + 1 implies match #[trigger] chunks@[j] {
                        Some(c) => {
                            &&& o.slots[j] is None
                            &&& c.seed == o.seed
                            &&& c.lo == next_after(chunks@, o.next_dispatch, j)
                            &&& c.lo < o.count
                            &&& c.hi == min_int(c.lo + o.chunk_sizes[j], o.count as int)
                            &&& self@.slots[j] == Some((c.lo, c.hi))
                        },
                        None => {
                            &&& self@.slots[j] == o.slots[j]
                            &&& (o.slots[j] is Some || next_after(chunks@, o.next_dispatch, j) == o.count)
                        },
                    } by {
                        if j < i {
                            assert(chunks@[j] == d0[j]);
                        }
                    }
                }
            }
            i = i + 1;
        }
        chunks
    }
}

pub proof fn lemma_busy_zero(s: Seq<Slot>)
    requires
        forall|i: int| 0 <= i < s.len() ==> #[trigger] s[i] is None,
    ensures
        busy_count(s) == 0,
        busy_len(s) == 0,
    decreases s.len(),
{
    if s.len() > 0 {
        let p = s.drop_last();
        assert forall|i: int| 0 <= i < p.len() implies #[trigger] p[i] is None by {
            assert(p[i] == s[i]);
        }
        lemma_busy_zero(p);
    }
}

} // verus!
