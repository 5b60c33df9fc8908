use bogoforge::metrics::Metrics;
use bogoforge::net::protocol::{apply_server_message, Job, NetAction, ServerMessage};
use bogoforge::net::types::{Chunk, Lease, RangeResult};
use bogoforge::scheduler::{BackendHandle, LeaseRun};

fn backends(sizes: &[u64]) -> Vec<BackendHandle> {
    sizes
        .iter()
        .map(|&s| {
            let (tx, _rx) = tokio::sync::mpsc::channel::<Chunk>(2);
            BackendHandle::new(s, tx)
        })
        .collect()
}

fn lease(count: u64) -> Lease {
    Lease { seed_str: "77".to_string(), seed: 77, count }
}

fn result_for(c: &Chunk, best: i32) -> RangeResult {
    RangeResult { lo: c.lo, hi: c.hi, best_correct: best, best_arr: [best.max(0) as u8; 25], best_index: c.lo }
}

#[test]
fn start_resets_and_sets_status() {
    let mut m = Metrics::new();
    let b = backends(&[10, 20]);
    let run = LeaseRun::start(&mut m, &lease(100), &b);
    assert_eq!(m.status, "computing");
    assert_eq!(m.current_seed, "77");
    assert_eq!(run.in_flight(), 0);
    assert_eq!(run.total_done(), 0);
    assert_eq!(run.backend_count(), 2);
    assert_eq!(run.slot(0), None);
}

#[test]
fn dispatch_tiles_the_lease_in_order() {
    let mut m = Metrics::new();
    let b = backends(&[10, 20, 5]);
    let mut run = LeaseRun::start(&mut m, &lease(23), &b);
    let chunks = run.dispatch();
    let got: Vec<Option<(u64, u64)>> = chunks.iter().map(|c| c.map(|c| (c.lo, c.hi))).collect();
    // The third backend finds the lease exhausted.
    assert_eq!(got, vec![Some((0, 10)), Some((10, 23)), None]);
    assert!(chunks.iter().flatten().all(|c| c.seed == 77));
    assert_eq!(run.in_flight(), 2);
    // Busy backends get nothing more.
    let again = run.dispatch();
    assert!(again.iter().all(|c| c.is_none()));
}

#[test]
fn results_are_counted_and_reported_at_lease_end() {
    let mut m = Metrics::new();
    let b = backends(&[10, 20]);
    let mut run = LeaseRun::start(&mut m, &lease(30), &b);
    let chunks = run.dispatch();
    let c0 = chunks[0].unwrap();
    let c1 = chunks[1].unwrap();
    let r0 = run.on_result(&mut m, 0, &result_for(&c0, 4), false);
    assert!(r0.is_none());
    assert_eq!(run.total_done(), 10);
    assert_eq!(m.session_shuffles, 10);
    // Backend 0 is idle again, but nothing is left to hand out.
    assert!(run.dispatch().iter().all(|c| c.is_none()));
    let r1 = run.on_result(&mut m, 1, &result_for(&c1, 2), false).expect("lease end reports");
    assert_eq!(r1.seed_str, "77");
    assert_eq!(r1.total_done, 30);
    assert_eq!(r1.best_correct, 4);
    assert_eq!(r1.best_index, 0);
    assert_eq!(m.last_report_best, 4);
    assert_eq!(m.session_shuffles, 30);
    assert_eq!(run.in_flight(), 0);
}

#[test]
fn report_when_due_then_window_restarts() {
    let mut m = Metrics::new();
    let b = backends(&[5]);
    let mut run = LeaseRun::start(&mut m, &lease(15), &b);
    let c = run.dispatch()[0].unwrap();
    let r = run.on_result(&mut m, 0, &result_for(&c, 3), true).expect("due report");
    assert_eq!((r.total_done, r.best_correct), (5, 3));
    let c = run.dispatch()[0].unwrap();
    assert_eq!((c.lo, c.hi), (5, 10));
    // Not due and lease not done: no report, the window keeps the score.
    assert!(run.on_result(&mut m, 0, &result_for(&c, 1), false).is_none());
    let c = run.dispatch()[0].unwrap();
    // A lower score does not replace the window's best.
    let r = run.on_result(&mut m, 0, &result_for(&c, 0), false).expect("lease end reports");
    assert_eq!((r.total_done, r.best_correct, r.best_index), (15, 1, 5));
    assert_eq!(m.recent_bests.iter().copied().collect::<Vec<_>>(), vec![3, 1]);
}

#[test]
fn no_report_without_a_score() {
    let mut m = Metrics::new();
    let b = backends(&[4]);
    let mut run = LeaseRun::start(&mut m, &lease(4), &b);
    let c = run.dispatch()[0].unwrap();
    assert!(run.on_result(&mut m, 0, &result_for(&c, -1), true).is_none());
    assert!(m.recent_bests.is_empty());
}

#[test]
fn empty_lease_dispatches_nothing() {
    let mut m = Metrics::new();
    let b = backends(&[4, 4]);
    let mut run = LeaseRun::start(&mut m, &lease(0), &b);
    assert!(run.dispatch().iter().all(|c| c.is_none()));
    assert_eq!(run.in_flight(), 0);
}

#[test]
fn a_whole_lease_is_tiled_and_finished() {
    let mut m = Metrics::new();
    let b = backends(&[7, 3, 11]);
    let count = 100;
    let mut run = LeaseRun::start(&mut m, &lease(count), &b);
    let mut handed: Vec<(u64, u64)> = Vec::new();
    let mut busy: Vec<Option<Chunk>> = vec![None; 3];
    let mut turn = 0usize;
    loop {
        for (id, c) in run.dispatch().into_iter().enumerate() {
            if let Some(c) = c {
                handed.push((c.lo, c.hi));
                busy[id] = Some(c);
            }
        }
        assert!(run.total_done() <= count);
        if run.in_flight() == 0 {
            break;
        }
        // Finish the busy backends in a rotating order.
        let id = (0..3).map(|k| (turn + k) % 3).find(|&i| busy[i].is_some()).unwrap();
        turn += 1;
        let c = busy[id].take().unwrap();
        run.on_result(&mut m, id, &result_for(&c, (c.lo % 5) as i32), false);
    }
    handed.sort();
    let mut cursor = 0;
    for (lo, hi) in handed {
        assert_eq!(lo, cursor);
        assert!(hi > lo);
        cursor = hi;
    }
    assert_eq!(cursor, count);
    assert_eq!(run.total_done(), count);
    assert_eq!(m.session_shuffles, count);
}

#[test]
fn report_echoes_job_seed_verbatim() {
    let mut m = Metrics::new();
    let lease = match apply_server_message(&mut m, ServerMessage::Job(Job { seed: "+0042".to_string(), count: 3 })) {
        Ok(NetAction::StartLease(l)) => l,
        _ => panic!("job must give a lease"),
    };
    assert_eq!(lease.seed, 42);
    let b = backends(&[8]);
    let mut run = LeaseRun::start(&mut m, &lease, &b);
    let c = run.dispatch()[0].unwrap();
    assert_eq!((c.seed, c.lo, c.hi), (42, 0, 3));
    let r = run.on_result(&mut m, 0, &result_for(&c, 6), false).expect("lease end reports");
    assert_eq!(r.seed_str, "+0042");
    assert_eq!(m.current_seed, "+0042");
}

#[test]
fn finishing_a_lease_waits_for_the_next() {
    let mut m = Metrics::new();
    let b = backends(&[4]);
    let mut run = LeaseRun::start(&mut m, &lease(4), &b);
    let c = run.dispatch()[0].unwrap();
    run.on_result(&mut m, 0, &result_for(&c, 1), false);
    assert_eq!(m.status, "computing");
    run.finish(&mut m);
    assert_eq!(m.status, "waiting for lease");
    assert_eq!(m.session_shuffles, 4);
}
