use bogoforge::metrics::{Metrics, RECENT_BESTS_CAP};

#[test]
fn fresh_metrics() {
    let m = Metrics::new();
    assert_eq!(m.session_shuffles, 0);
    assert_eq!(m.last_report_best, -1);
    assert_eq!(m.session_best, -1);
    assert_eq!(m.all_time_best, -1);
    assert_eq!(m.status, "starting");
    assert_eq!(m.last_best_arr, [0u8; 25]);
    assert!(m.recent_bests.is_empty());
    assert!(m.gpu_name.is_none());
    assert_eq!(m.gpu_util_pct, -1);
    assert_eq!(m.gpu_temp_c, -1);
    assert_eq!(f64::from_bits(m.compute_rate_bits), 0.0);
}

#[test]
fn push_report_tracks_bests() {
    let mut m = Metrics::new();
    let mut arr = [0u8; 25];
    arr[0] = 1;
    m.push_report(3, arr);
    assert_eq!(m.last_report_best, 3);
    assert_eq!(m.session_best, 3);
    assert_eq!(m.last_best_arr, arr);
    m.push_report(1, [9u8; 25]);
    assert_eq!(m.last_report_best, 1);
    assert_eq!(m.session_best, 3);
    assert_eq!(m.last_best_arr, [9u8; 25]);
    // A negative score leaves the permutation alone.
    m.push_report(-1, [7u8; 25]);
    assert_eq!(m.last_best_arr, [9u8; 25]);
    assert_eq!(m.recent_bests.iter().copied().collect::<Vec<_>>(), vec![3, 1, -1]);
}

#[test]
fn push_report_best_uses_zero_permutation() {
    let mut m = Metrics::new();
    m.push_report(2, [5u8; 25]);
    m.push_report_best(4);
    assert_eq!(m.last_best_arr, [0u8; 25]);
    assert_eq!(m.session_best, 4);
}

#[test]
fn history_keeps_last_twenty() {
    let mut m = Metrics::new();
    for b in 0..30 {
        m.push_report(b, [0u8; 25]);
        assert!(m.recent_bests.len() <= RECENT_BESTS_CAP);
    }
    let h: Vec<i32> = m.recent_bests.iter().copied().collect();
    assert_eq!(h, (10..30).collect::<Vec<i32>>());
    assert_eq!(m.session_best, 29);
}

#[test]
fn status_seed_and_gauges() {
    let mut m = Metrics::new();
    m.set_status("computing".to_string());
    m.set_seed("123".to_string());
    assert_eq!(m.status, "computing");
    assert_eq!(m.current_seed, "123");
    m.set_host_stats(12.5f64.to_bits(), 10, 20);
    assert_eq!(f64::from_bits(m.cpu_usage_bits), 12.5);
    assert_eq!((m.mem_used_bytes, m.mem_total_bytes), (10, 20));
    m.set_gpu_stats("gpu".to_string(), 50, 1, 2, 60);
    assert_eq!(m.gpu_name.as_deref(), Some("gpu"));
    assert_eq!((m.gpu_util_pct, m.gpu_mem_used_mb, m.gpu_mem_total_mb, m.gpu_temp_c), (50, 1, 2, 60));
    m.clear_gpu_stats();
    assert!(m.gpu_name.is_none());
    assert_eq!((m.gpu_util_pct, m.gpu_temp_c), (-1, -1));
    // Memory gauges keep their last values.
    assert_eq!((m.gpu_mem_used_mb, m.gpu_mem_total_mb), (1, 2));
}
