//! Laws of a whole lease: what a run of `LeaseRun` steps, from `start` to
//! the end of the lease, hands out, receives and reports.
//!
//! A run is described by its states, the metrics after each step, and the
//! steps themselves; each step is what `dispatch` or `on_result` ensures.

use vstd::prelude::*;

use crate::metrics::{zero_arr, Metrics};
use crate::net::types::{Chunk, RangeResult, Report};
use crate::scheduler::{
    busy_count, completed, dispatched, lease_wf, min_int, next_after, report_emitted, LeaseView, Slot,
};

verus! {

/// One step of a lease run.
pub enum LeaseEvent {
    /// A dispatch round, with the chunk (if any) for each backend id.
    Dispatched(Seq<Option<Chunk>>),
    /// Backend `id` finished its chunk with `result`; `report` is what came of it.
    Completed { id: int, result: RangeResult, report_due: bool, report: Option<Report> },
}

/// `v1`, `m1` follow from `v0`, `m0` by `e`, as `dispatch` and `on_result` ensure.
pub open spec fn step_ok(v0: LeaseView, v1: LeaseView, m0: Metrics, m1: Metrics, e: LeaseEvent) -> bool {
    match e {
        LeaseEvent::Dispatched(d) => dispatched(v0, v1, d) && m1 == m0,
        LeaseEvent::Completed { id, result, report_due, report } => {
            &&& 0 <= id < v0.slots.len()
            &&& v0.slots[id] == Some((result.lo, result.hi))
            &&& completed(v0, v1, m0, m1, id, result, report_due, report)
        },
    }
}

/// The state `start` gives.
pub open spec fn fresh(v: LeaseView) -> bool {
    &&& forall|j: int| 0 <= j < v.slots.len() ==> #[trigger] v.slots[j] is None
    &&& v.next_dispatch == 0
    &&& v.in_flight == 0
    &&& v.total_done == 0
    &&& v.win_best == -1
    &&& v.win_arr == zero_arr()
    &&& v.win_index == 0
}

/// A run of a lease: `views[k]` and `ms[k]` are the state and metrics
/// before step `es[k]`; it starts fresh and every state is well formed.
pub open spec fn lease_run(views: Seq<LeaseView>, ms: Seq<Metrics>, es: Seq<LeaseEvent>) -> bool {
    &&& views.len() == es.len() + 1
    &&& ms.len() == es.len() + 1
    &&& fresh(views[0])
    &&& forall|k: int| 0 <= k < views.len() ==> lease_wf(#[trigger] views[k])
    &&& forall|k: int| 0 <= k < es.len() ==> step_ok(#[trigger] views[k], views[k + 1], ms[k], ms[k + 1], es[k])
}

/// The chunks of a dispatch round, with the backend id each goes to, in id order.
pub open spec fn round_chunks(d: Seq<Option<Chunk>>) -> Seq<(int, Chunk)>
    decreases d.len(),
{
    if d.len() == 0 {
        Seq::empty()
    } else {
        round_chunks(d.drop_last()) + match d.last() {
            Some(c) => seq![((d.len() - 1) as int, c)],
            None => Seq::empty(),
        }
    }
}

/// The chunks sent over the steps `es`, in send order, with their backend ids.
pub open spec fn sent(es: Seq<LeaseEvent>) -> Seq<(int, Chunk)>
    decreases es.len(),
{
    if es.len() == 0 {
        Seq::empty()
    } else {
        sent(es.drop_last()) + match es.last() {
            LeaseEvent::Dispatched(d) => round_chunks(d),
            _ => Seq::empty(),
        }
    }
}

/// The results received over the steps `es`, in order, with their backend ids.
pub open spec fn received(es: Seq<LeaseEvent>) -> Seq<(int, RangeResult)>
    decreases es.len(),
{
    if es.len() == 0 {
        Seq::empty()
    } else {
        received(es.drop_last()) + match es.last() {
            LeaseEvent::Completed { id, result, .. } => seq![(id, result)],
            _ => Seq::empty(),
        }
    }
}

/// The reports made over the steps `es`, in order.
pub open spec fn reports(es: Seq<LeaseEvent>) -> Seq<Report>
    decreases es.len(),
{
    if es.len() == 0 {
        Seq::empty()
    } else {
        reports(es.drop_last()) + match es.last() {
            LeaseEvent::Completed { report: Some(r), .. } => seq![r],
            _ => Seq::empty(),
        }
    }
}

/// The shuffles of the results `rs`.
pub open spec fn shuffles_of(rs: Seq<(int, RangeResult)>) -> int
    decreases rs.len(),
{
    if rs.len() == 0 {
        0
    } else {
        shuffles_of(rs.drop_last()) + (rs.last().1.hi - rs.last().1.lo)
    }
}

/// The results received since the last report.
pub open spec fn since_report(es: Seq<LeaseEvent>) -> Seq<RangeResult>
    decreases es.len(),
{
    if es.len() == 0 {
        Seq::empty()
    } else {
        match es.last() {
            LeaseEvent::Dispatched(_) => since_report(es.drop_last()),
            LeaseEvent::Completed { result, report, .. } => match report {
                Some(_) => Seq::empty(),
                None => since_report(es.drop_last()).push(result),
            },
        }
    }
}

/// The best of `rs`: the first result with the highest score (its score,
/// permutation and index), or score -1 with nothing when none scores above -1.
pub open spec fn first_best(rs: Seq<RangeResult>) -> (i32, Seq<u8>, u64)
    decreases rs.len(),
{
    if rs.len() == 0 {
        (-1i32, zero_arr(), 0u64)
    } else {
        let w = first_best(rs.drop_last());
        if rs.last().best_correct > w.0 {
            (rs.last().best_correct, rs.last().best_arr@, rs.last().best_index)
        } else {
            w
        }
    }
}

/// Number of chunks in `s` sent to backend `j`.
pub open spec fn sent_to(s: Seq<(int, Chunk)>, j: int) -> nat
    decreases s.len(),
{
    if s.len() == 0 {
        0
    } else {
        sent_to(s.drop_last(), j) + (if s.last().0 == j { 1nat } else { 0nat })
    }
}

/// Number of results in `s` from backend `j`.
pub open spec fn received_from(s: Seq<(int, RangeResult)>, j: int) -> nat
    decreases s.len(),
{
    if s.len() == 0 {
        0
    } else {
        received_from(s.drop_last(), j) + (if s.last().0 == j { 1nat } else { 0nat })
    }
}

/// The chunks `s` follow one another from `a` to `b`: the first starts at
/// `a`, each starts where the previous one ends, the last ends at `b`.
pub open spec fn tiles(s: Seq<(int, Chunk)>, a: int, b: int) -> bool
    decreases s.len(),
{
    if s.len() == 0 {
        a == b
    } else {
        let c = s.last().1;
        &&& tiles(s.drop_last(), a, c.lo as int)
        &&& c.lo <= c.hi
        &&& c.hi == b
    }
}

/// Every chunk of `s` goes to a backend of the run, carries the lease's seed,
/// starts inside the lease and takes at most its backend's chunk size.
pub open spec fn chunks_ok(s: Seq<(int, Chunk)>, v: LeaseView) -> bool {
    forall|i: int| 0 <= i < s.len() ==> {
        let (j, c) = #[trigger] s[i];
        &&& 0 <= j < v.slots.len()
        &&& c.seed == v.seed
        &&& c.lo < v.count
        &&& c.hi == min_int(c.lo + v.chunk_sizes[j], v.count as int)
    }
}

/// What holds of a run after the steps `p`, from start state `v0` and
/// metrics `m0`, in state `v` with metrics `m`.
pub open spec fn run_inv(v0: LeaseView, m0: Metrics, v: LeaseView, m: Metrics, p: Seq<LeaseEvent>) -> bool {
    &&& v.seed == v0.seed
    &&& v.count == v0.count
    &&& v.seed_str == v0.seed_str
    &&& v.chunk_sizes == v0.chunk_sizes
    &&& v.slots.len() == v0.slots.len()
    &&& tiles(sent(p), 0, v.next_dispatch as int)
    &&& chunks_ok(sent(p), v0)
    &&& forall|j: int| 0 <= j < v.slots.len() ==> #[trigger] sent_to(sent(p), j) == received_from(received(p), j) + (
        if v.slots[j] is Some { 1int } else { 0int })
    &&& sent(p).len() == received(p).len() + v.in_flight
    &&& v.total_done == shuffles_of(received(p))
    &&& m.session_shuffles == (m0.session_shuffles + shuffles_of(received(p))) % 0x1_0000_0000_0000_0000
    &&& (v.win_best, v.win_arr, v.win_index) == first_best(since_report(p))
}

proof fn lemma_tiles_append(x: Seq<(int, Chunk)>, y: Seq<(int, Chunk)>, a: int, b: int, c: int)
    requires
        tiles(x, a, b),
        tiles(y, b, c),
    ensures
        tiles(x + y, a, c),
    decreases y.len(),
{
    if y.len() == 0 {
        assert(x + y =~= x);
    } else {
        let l = y.last().1;
        lemma_tiles_append(x, y.drop_last(), a, b, l.lo as int);
        assert((x + y).drop_last() =~= x + y.drop_last());
        assert((x + y).last() == y.last());
    }
}

proof fn lemma_sent_to_append(x: Seq<(int, Chunk)>, y: Seq<(int, Chunk)>, j: int)
    ensures
        sent_to(x + y, j) == sent_to(x, j) + sent_to(y, j),
    decreases y.len(),
{
    if y.len() == 0 {
        assert(x + y =~= x);
    } else {
        lemma_sent_to_append(x, y.drop_last(), j);
        assert((x + y).drop_last() =~= x + y.drop_last());
        assert((x + y).last() == y.last());
    }
}

proof fn lemma_chunks_ok_append(x: Seq<(int, Chunk)>, y: Seq<(int, Chunk)>, v: LeaseView)
    requires
        chunks_ok(x, v),
        chunks_ok(y, v),
    ensures
        chunks_ok(x + y, v),
{
    assert forall|i: int| 0 <= i < (x + y).len() implies {
        let (j, c) = #[trigger] (x + y)[i];
        &&& 0 <= j < v.slots.len()
        &&& c.seed == v.seed
        &&& c.lo < v.count
        &&& c.hi == min_int(c.lo + v.chunk_sizes[j], v.count as int)
    } by {
        if i < x.len() {
            assert((x + y)[i] == x[i]);
        } else {
            assert((x + y)[i] == y[i - x.len()]);
        }
    }
}

/// The chunks of the first `j` decisions of a dispatch round: they tile the
/// cursor's advance, are well formed, go to backends below `j`, one to
/// each backend whose decision holds a chunk, and there are as many as the
/// busy slots gained.
proof fn lemma_round_prefix(o: LeaseView, n: LeaseView, d: Seq<Option<Chunk>>, j: int)
    requires
        lease_wf(o),
        dispatched(o, n, d),
        0 <= j <= d.len(),
    ensures
        tiles(round_chunks(d.take(j)), o.next_dispatch as int, next_after(d, o.next_dispatch, j) as int),
        chunks_ok(round_chunks(d.take(j)), o),
        forall|x: int| #[trigger] sent_to(round_chunks(d.take(j)), x) == (if 0 <= x < j && d[x] is Some { 1int } else { 0int }),
        busy_count(n.slots.take(j)) == busy_count(o.slots.take(j)) + round_chunks(d.take(j)).len(),
    decreases j,
{
    let dj = d.take(j);
    if j == 0 {
        assert(dj =~= Seq::<Option<Chunk>>::empty());
        assert(n.slots.take(0) =~= Seq::<Slot>::empty());
        assert(o.slots.take(0) =~= Seq::<Slot>::empty());
    } else {
        lemma_round_prefix(o, n, d, j - 1);
        let prev = d.take(j - 1);
        assert(dj.drop_last() =~= prev);
        assert(dj.last() == d[j - 1]);
        assert(n.slots.take(j).drop_last() =~= n.slots.take(j - 1));
        assert(o.slots.take(j).drop_last() =~= o.slots.take(j - 1));
        assert(n.slots.take(j).last() == n.slots[j - 1]);
        assert(o.slots.take(j).last() == o.slots[j - 1]);
        let rp = round_chunks(prev);
        match d[j - 1] {
            Some(c) => {
                let tail = seq![((j - 1) as int, c)];
                assert(round_chunks(dj) == rp + tail);
                assert(c.lo <= c.hi);
                assert(tiles(tail, c.lo as int, c.hi as int)) by {
                    assert(tail.drop_last() =~= Seq::<(int, Chunk)>::empty());
                    assert(tiles(Seq::<(int, Chunk)>::empty(), c.lo as int, c.lo as int));
                    assert(tail.last().1 == c);
                }
                assert(next_after(d, o.next_dispatch, j) == c.hi);
                lemma_tiles_append(rp, tail, o.next_dispatch as int, c.lo as int, c.hi as int);
                assert(chunks_ok(tail, o)) by {
                    assert forall|i: int| 0 <= i < tail.len() implies {
                        let (jj, cc) = #[trigger] tail[i];
                        &&& 0 <= jj < o.slots.len()
                        &&& cc.seed == o.seed
                        &&& cc.lo < o.count
                        &&& cc.hi == min_int(cc.lo + o.chunk_sizes[jj], o.count as int)
                    } by {
                        assert(tail[i] == ((j - 1) as int, c));
                    }
                }
                lemma_chunks_ok_append(rp, tail, o);
                assert forall|x: int| #[trigger] sent_to(round_chunks(dj), x) == (if 0 <= x < j && d[x] is Some { 1int } else { 0int }) by {
                    lemma_sent_to_append(rp, tail, x);
                    assert(tail.drop_last() =~= Seq::<(int, Chunk)>::empty());
                    assert(sent_to(Seq::<(int, Chunk)>::empty(), x) == 0);
                    assert(tail.last().0 == j - 1);
                    assert(sent_to(tail, x) == (if x == j - 1 { 1int } else { 0int }));
                    assert(sent_to(rp, x) == (if 0 <= x < j - 1 && d[x] is Some { 1int } else { 0int }));
                }
            },
            None => {
                assert(round_chunks(dj) =~= rp);
                assert(next_after(d, o.next_dispatch, j) == next_after(d, o.next_dispatch, j - 1));
                assert forall|x: int| #[trigger] sent_to(round_chunks(dj), x) == (if 0 <= x < j && d[x] is Some { 1int } else { 0int }) by {
                    assert(sent_to(rp, x) == (if 0 <= x < j - 1 && d[x] is Some { 1int } else { 0int }));
                }
            },
        }
    }
}

proof fn lemma_dispatch_step(
    v0: LeaseView,
    m0: Metrics,
    o: LeaseView,
    n: LeaseView,
    m: Metrics,
    d: Seq<Option<Chunk>>,
    p: Seq<LeaseEvent>,
)
    requires
        run_inv(v0, m0, o, m, p),
        lease_wf(o),
        lease_wf(n),
        dispatched(o, n, d),
    ensures
        run_inv(v0, m0, n, m, p.push(LeaseEvent::Dispatched(d))),
{
    let q = p.push(LeaseEvent::Dispatched(d));
    assert(q.drop_last() =~= p);
    let rc = round_chunks(d);
    assert(sent(q) == sent(p) + rc);
    assert(received(q) == received(p));
    assert(since_report(q) == since_report(p));
    lemma_round_prefix(o, n, d, d.len() as int);
    assert(d.take(d.len() as int) =~= d);
    assert(n.slots.take(d.len() as int) =~= n.slots);
    assert(o.slots.take(d.len() as int) =~= o.slots);
    lemma_tiles_append(sent(p), rc, 0, o.next_dispatch as int, n.next_dispatch as int);
    lemma_chunks_ok_append(sent(p), rc, v0);
    assert forall|j: int| 0 <= j < n.slots.len() implies #[trigger] sent_to(sent(q), j) == received_from(received(q), j) + (
        if n.slots[j] is Some { 1int } else { 0int }) by {
        lemma_sent_to_append(sent(p), rc, j);
        assert(sent_to(sent(p), j) == received_from(received(p), j) + (if o.slots[j] is Some { 1int } else { 0int }));
        assert(d[j] is Some || n.slots[j] == o.slots[j]);
    }
}

proof fn lemma_complete_step(
    v0: LeaseView,
    m0: Metrics,
    o: LeaseView,
    n: LeaseView,
    m: Metrics,
    m1: Metrics,
    id: int,
    r: RangeResult,
    due: bool,
    report: Option<Report>,
    p: Seq<LeaseEvent>,
)
    requires
        run_inv(v0, m0, o, m, p),
        lease_wf(o),
        lease_wf(n),
        0 <= id < o.slots.len(),
        o.slots[id] == Some((r.lo, r.hi)),
        completed(o, n, m, m1, id, r, due, report),
    ensures
        run_inv(v0, m0, n, m1, p.push(LeaseEvent::Completed { id, result: r, report_due: due, report })),
{
    let e = LeaseEvent::Completed { id, result: r, report_due: due, report };
    let q = p.push(e);
    assert(q.drop_last() =~= p);
    assert(sent(q) =~= sent(p));
    assert(received(q) == received(p).push((id, r)));
    assert(received(q).drop_last() =~= received(p));
    assert(shuffles_of(received(q)) == shuffles_of(received(p)) + (r.hi - r.lo));
    assert forall|j: int| 0 <= j < n.slots.len() implies #[trigger] sent_to(sent(q), j) == received_from(received(q), j) + (
        if n.slots[j] is Some { 1int } else { 0int }) by {
        assert(sent_to(sent(p), j) == received_from(received(p), j) + (if o.slots[j] is Some { 1int } else { 0int }));
        assert(received_from(received(q), j) == received_from(received(p), j) + (if j == id { 1int } else { 0int }));
    }
    let big: int = 0x1_0000_0000_0000_0000;
    let x = m0.session_shuffles + shuffles_of(received(p));
    vstd::arithmetic::div_mod::lemma_add_mod_noop(x, r.hi - r.lo, big);
    vstd::arithmetic::div_mod::lemma_mod_twice(r.hi - r.lo, big);
    vstd::arithmetic::div_mod::lemma_add_mod_noop(x % big, r.hi - r.lo, big);
    vstd::arithmetic::div_mod::lemma_mod_twice(x, big);
    assert(m1.session_shuffles == (m0.session_shuffles + shuffles_of(received(q))) % big);
    let since = since_report(p);
    assert(since.push(r).drop_last() =~= since);
    assert(first_best(since.push(r)) == (if r.best_correct > o.win_best {
        (r.best_correct, r.best_arr@, r.best_index)
    } else {
        (o.win_best, o.win_arr, o.win_index)
    }));
    if report_emitted(o, n, r, due) {
        assert(report is Some);
        assert(since_report(q) =~= Seq::<RangeResult>::empty());
    } else {
        assert(since_report(q) == since.push(r));
    }
}

/// What holds after the first `k` steps of a run; see `run_inv`.
pub proof fn lemma_run_inv(views: Seq<LeaseView>, ms: Seq<Metrics>, es: Seq<LeaseEvent>, k: int)
    requires
        lease_run(views, ms, es),
        0 <= k <= es.len(),
    ensures
        run_inv(views[0], ms[0], views[k], ms[k], es.take(k)),
    decreases k,
{
    let v0 = views[0];
    if k == 0 {
        let p = es.take(0);
        assert(p =~= Seq::<LeaseEvent>::empty());
        assert(lease_wf(v0));
        assert forall|j: int| 0 <= j < v0.slots.len() implies #[trigger] sent_to(sent(p), j) == received_from(received(p), j) + (
            if v0.slots[j] is Some { 1int } else { 0int }) by {
            assert(v0.slots[j] is None);
        }
        assert(chunks_ok(sent(p), v0));
        vstd::arithmetic::div_mod::lemma_small_mod(ms[0].session_shuffles as nat, 0x1_0000_0000_0000_0000nat);
        assert(first_best(since_report(p)) == (-1i32, zero_arr(), 0u64));
    } else {
        lemma_run_inv(views, ms, es, k - 1);
        let p = es.take(k - 1);
        assert(es.take(k) =~= p.push(es[k - 1]));
        assert(lease_wf(views[k - 1]));
        assert(lease_wf(views[k]));
        assert(step_ok(views[k - 1], views[k], ms[k - 1], ms[k], es[k - 1]));
        match es[k - 1] {
            LeaseEvent::Dispatched(d) => {
                lemma_dispatch_step(v0, ms[0], views[k - 1], views[k], ms[k - 1], d, p);
            },
            LeaseEvent::Completed { id, result, report_due, report } => {
                lemma_complete_step(v0, ms[0], views[k - 1], views[k], ms[k - 1], ms[k], id, result, report_due, report, p);
            },
        }
    }
}

/// Law: over a whole lease run, the chunks sent, in send order, follow one
/// another from 0 to the dispatch cursor with neither gap nor overlap; each
/// goes to a backend of the run, carries the lease's seed, starts inside the
/// lease and takes at most its backend's chunk size.
pub proof fn lemma_sent_chunks_tile(views: Seq<LeaseView>, ms: Seq<Metrics>, es: Seq<LeaseEvent>, k: int)
    requires
        lease_run(views, ms, es),
        0 <= k <= es.len(),
    ensures
        tiles(sent(es.take(k)), 0, views[k].next_dispatch as int),
        chunks_ok(sent(es.take(k)), views[0]),
        views[k].next_dispatch <= views[0].count,
{
    lemma_run_inv(views, ms, es, k);
    assert(lease_wf(views[k]));
}

/// Law: at most one chunk is in flight per backend. After any number of
/// steps, a backend has been sent either as many chunks as it returned
/// results, or one more (exactly when it is working); and a dispatch round
/// sends a chunk only to a backend that has answered every chunk it got.
pub proof fn lemma_one_chunk_in_flight(views: Seq<LeaseView>, ms: Seq<Metrics>, es: Seq<LeaseEvent>, k: int, j: int)
    requires
        lease_run(views, ms, es),
        0 <= k <= es.len(),
        0 <= j < views[0].slots.len(),
    ensures
        received_from(received(es.take(k)), j) <= sent_to(sent(es.take(k)), j) <= received_from(received(es.take(k)), j) + 1,
        sent_to(sent(es.take(k)), j) == received_from(received(es.take(k)), j) + 1 <==> views[k].slots[j] is Some,
        k < es.len() ==> (es[k] matches LeaseEvent::Dispatched(d) && d[j] is Some ==>
            sent_to(sent(es.take(k)), j) == received_from(received(es.take(k)), j)),
{
    lemma_run_inv(views, ms, es, k);
    assert(sent_to(sent(es.take(k)), j) == received_from(received(es.take(k)), j) + (
        if views[k].slots[j] is Some { 1int } else { 0int }));
    if k < es.len() {
        assert(step_ok(views[k], views[k + 1], ms[k], ms[k + 1], es[k]));
    }
}

/// Properties of the first best of a list of results: no result scores
/// higher, and when it scores at least 0 it is the first result reaching
/// that score, with that result's permutation and index.
pub proof fn lemma_first_best(rs: Seq<RangeResult>)
    ensures
        first_best(rs).0 >= -1,
        forall|i: int| 0 <= i < rs.len() ==> (#[trigger] rs[i]).best_correct <= first_best(rs).0,
        first_best(rs).0 >= 0 ==> exists|i: int| {
            &&& 0 <= i < rs.len()
            &&& (#[trigger] rs[i]).best_correct == first_best(rs).0
            &&& rs[i].best_arr@ == first_best(rs).1
            &&& rs[i].best_index == first_best(rs).2
            &&& forall|m: int| 0 <= m < i ==> #[trigger] rs[m].best_correct < first_best(rs).0
        },
    decreases rs.len(),
{
    if rs.len() > 0 {
        let p = rs.drop_last();
        lemma_first_best(p);
        assert forall|i: int| 0 <= i < rs.len() implies (#[trigger] rs[i]).best_correct <= first_best(rs).0 by {
            if i < rs.len() - 1 {
                assert(rs[i] == p[i]);
            }
        }
        if first_best(rs).0 >= 0 {
            if rs.last().best_correct > first_best(p).0 {
                let i = rs.len() - 1;
                assert forall|m: int| 0 <= m < i implies #[trigger] rs[m].best_correct < first_best(rs).0 by {
                    assert(rs[m] == p[m]);
                }
            } else {
                let i = choose|i: int| {
                    &&& 0 <= i < p.len()
                    &&& (#[trigger] p[i]).best_correct == first_best(p).0
                    &&& p[i].best_arr@ == first_best(p).1
                    &&& p[i].best_index == first_best(p).2
                    &&& forall|m: int| 0 <= m < i ==> #[trigger] p[m].best_correct < first_best(p).0
                };
                assert(rs[i] == p[i]);
                assert forall|m: int| 0 <= m < i implies #[trigger] rs[m].best_correct < first_best(rs).0 by {
                    assert(rs[m] == p[m]);
                }
            }
        }
    }
}

/// Law: what a report holds. The report made at step `k` carries the
/// lease's seed text; its `total_done` is the sum of the shuffles of all
/// results received up to and including that step; and its score,
/// permutation and index are those of the first best result since the
/// previous report (see `lemma_first_best`), a score of at least 0.
pub proof fn lemma_report_contents(views: Seq<LeaseView>, ms: Seq<Metrics>, es: Seq<LeaseEvent>, k: int)
    requires
        lease_run(views, ms, es),
        0 <= k < es.len(),
        es[k] matches LeaseEvent::Completed { report: Some(_), .. },
    ensures
        match es[k] {
            LeaseEvent::Completed { result, report, .. } => {
                let rep = report->0;
                let w = first_best(since_report(es.take(k)).push(result));
                &&& rep.seed_str@ == views[0].seed_str
                &&& rep.total_done == shuffles_of(received(es.take(k + 1)))
                &&& w.0 >= 0
                &&& rep.best_correct == w.0 as u32
                &&& rep.best_arr@ == w.1
                &&& rep.best_index == w.2
                &&& crate::metrics::report_fields_after(ms[k], ms[k + 1], w.0, w.1)
            },
            _ => true,
        },
{
    lemma_run_inv(views, ms, es, k);
    lemma_run_inv(views, ms, es, k + 1);
    assert(step_ok(views[k], views[k + 1], ms[k], ms[k + 1], es[k]));
    if let LeaseEvent::Completed { result, .. } = es[k] {
        let since = since_report(es.take(k));
        assert(since.push(result).drop_last() =~= since);
    }
}

proof fn lemma_dispatch_only(views: Seq<LeaseView>, ms: Seq<Metrics>, es: Seq<LeaseEvent>, a: int, c: int)
    requires
        lease_run(views, ms, es),
        0 <= a <= c <= es.len(),
        forall|i: int| a <= i < c ==> #[trigger] es[i] is Dispatched,
    ensures
        received(es.take(c)) == received(es.take(a)),
        reports(es.take(c)) == reports(es.take(a)),
        views[a].in_flight <= views[c].in_flight,
        views[a].total_done == views[c].total_done,
    decreases c,
{
    if c > a {
        lemma_dispatch_only(views, ms, es, a, c - 1);
        assert(es.take(c).drop_last() =~= es.take(c - 1));
        assert(es.take(c).last() == es[c - 1]);
        assert(es[c - 1] is Dispatched);
        assert(step_ok(views[c - 1], views[c], ms[c - 1], ms[c], es[c - 1]));
        assert(lease_wf(views[c - 1]));
        if let LeaseEvent::Dispatched(d) = es[c - 1] {
            lemma_round_prefix(views[c - 1], views[c], d, d.len() as int);
            assert(views[c].slots.take(d.len() as int) =~= views[c].slots);
            assert(views[c - 1].slots.take(d.len() as int) =~= views[c - 1].slots);
        }
        assert(received(es.take(c)) =~= received(es.take(c - 1)));
        assert(reports(es.take(c)) =~= reports(es.take(c - 1)));
    }
}

proof fn lemma_last_report(views: Seq<LeaseView>, ms: Seq<Metrics>, es: Seq<LeaseEvent>, b: int)
    requires
        lease_run(views, ms, es),
        0 <= b <= es.len(),
        forall|i: int| b <= i < es.len() ==> #[trigger] es[i] is Dispatched,
        forall|i: int| 0 <= i < es.len() ==> (#[trigger] es[i] matches LeaseEvent::Completed { result, .. } ==> result.best_correct >= 0),
        views[es.len() as int].in_flight == 0,
        views[es.len() as int].total_done == views[0].count,
        views[0].count > 0,
    ensures
        reports(es).len() > 0,
        reports(es).last().total_done == views[0].count,
    decreases b,
{
    let n = es.len() as int;
    assert(es.take(n) =~= es);
    lemma_dispatch_only(views, ms, es, b, n);
    lemma_run_inv(views, ms, es, n);
    lemma_run_inv(views, ms, es, 0);
    if b == 0 {
        assert(es.take(0) =~= Seq::<LeaseEvent>::empty());
        assert(received(es.take(0)) =~= Seq::<(int, RangeResult)>::empty());
    } else if es[b - 1] is Dispatched {
        lemma_last_report(views, ms, es, b - 1);
    } else {
        let k = b - 1;
        lemma_run_inv(views, ms, es, k);
        assert(step_ok(views[k], views[b], ms[k], ms[b], es[k]));
        if let LeaseEvent::Completed { result, report_due, report, .. } = es[k] {
            assert(result.best_correct >= 0);
            assert(report_emitted(views[k], views[b], result, report_due));
            assert(es.take(b).drop_last() =~= es.take(k));
            assert(es.take(b).last() == es[k]);
            assert(reports(es.take(b)) == reports(es.take(k)).push(report->0));
        }
    }
}

/// Law: the end of a lease. When a run ends as the scheduler ends it (its
/// last step a dispatch round that leaves no backend working, with at least
/// one backend), the chunks sent tile the whole lease `0..count`, as many
/// results came back as chunks went out, their shuffles add up to the
/// lease, the session counter grew by the lease (modulo 2^64), and, when the
/// lease is not empty and every result holds a score, the last report says
/// the whole lease is done.
pub proof fn lemma_lease_end(views: Seq<LeaseView>, ms: Seq<Metrics>, es: Seq<LeaseEvent>)
    requires
        lease_run(views, ms, es),
        es.len() > 0,
        es.last() is Dispatched,
        views.last().in_flight == 0,
        views[0].slots.len() > 0,
    ensures
        views.last().total_done == views[0].count,
        tiles(sent(es), 0, views[0].count as int),
        sent(es).len() == received(es).len(),
        shuffles_of(received(es)) == views[0].count,
        ms.last().session_shuffles == (ms[0].session_shuffles + views[0].count) % 0x1_0000_0000_0000_0000,
        views[0].count > 0 && (forall|i: int| 0 <= i < es.len() ==> (#[trigger] es[i] matches LeaseEvent::Completed { result, .. } ==> result.best_correct >= 0))
            ==> reports(es).len() > 0 && reports(es).last().total_done == views[0].count,
{
    let n = es.len() as int;
    assert(es.take(n) =~= es);
    lemma_run_inv(views, ms, es, n);
    lemma_run_inv(views, ms, es, n - 1);
    assert(step_ok(views[n - 1], views[n], ms[n - 1], ms[n], es[n - 1]));
    assert(lease_wf(views[n - 1]));
    assert(lease_wf(views[n]));
    if let LeaseEvent::Dispatched(d) = es[n - 1] {
        crate::scheduler::lemma_idle_after_dispatch_means_complete(views[n - 1], views[n], d);
    }
    if views[0].count > 0 && (forall|i: int| 0 <= i < es.len() ==> (#[trigger] es[i] matches LeaseEvent::Completed { result, .. } ==> result.best_correct >= 0)) {
        lemma_last_report(views, ms, es, n);
    }
}

proof fn lemma_reports_within_received(es: Seq<LeaseEvent>)
    ensures
        reports(es).len() <= received(es).len(),
    decreases es.len(),
{
    if es.len() > 0 {
        lemma_reports_within_received(es.drop_last());
    }
}

proof fn lemma_tiles_count(s: Seq<(int, Chunk)>, a: int, b: int)
    requires
        tiles(s, a, b),
        forall|i: int| 0 <= i < s.len() ==> (#[trigger] s[i]).1.lo < s[i].1.hi,
    ensures
        s.len() <= b - a,
    decreases s.len(),
{
    if s.len() > 0 {
        let p = s.drop_last();
        assert forall|i: int| 0 <= i < p.len() implies (#[trigger] p[i]).1.lo < p[i].1.hi by {
            assert(p[i] == s[i]);
        }
        lemma_tiles_count(p, a, s.last().1.lo as int);
        assert(s[s.len() - 1] == s.last());
    }
}

/// Law: results never outnumber chunks, and chunks never outnumber the
/// lease's shuffles when every chunk size is positive; an empty lease sends
/// no chunk, receives no result and makes no report.
pub proof fn lemma_results_match_chunks(views: Seq<LeaseView>, ms: Seq<Metrics>, es: Seq<LeaseEvent>, k: int)
    requires
        lease_run(views, ms, es),
        0 <= k <= es.len(),
    ensures
        received(es.take(k)).len() <= sent(es.take(k)).len(),
        (forall|j: int| 0 <= j < views[0].chunk_sizes.len() ==> #[trigger] views[0].chunk_sizes[j] > 0)
            ==> sent(es.take(k)).len() <= views[0].count,
        views[0].count == 0 ==> sent(es.take(k)).len() == 0 && received(es.take(k)).len() == 0
            && reports(es.take(k)).len() == 0,
{
    lemma_run_inv(views, ms, es, k);
    assert(lease_wf(views[k]));
    assert(lease_wf(views[0]));
    let s = sent(es.take(k));
    lemma_reports_within_received(es.take(k));
    if forall|j: int| 0 <= j < views[0].chunk_sizes.len() ==> #[trigger] views[0].chunk_sizes[j] > 0 {
        assert forall|i: int| 0 <= i < s.len() implies (#[trigger] s[i]).1.lo < s[i].1.hi by {
            let (j, c) = s[i];
            assert(views[0].chunk_sizes[j] > 0);
        }
        lemma_tiles_count(s, 0, views[k].next_dispatch as int);
    }
    if views[0].count == 0 && s.len() > 0 {
        let (j, c) = s[0];
        assert(c.lo < views[0].count);
    }
}

} // verus!
