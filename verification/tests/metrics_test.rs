use aethalloc::metrics::{
    append_decimal, flush_thread_metrics, format_preload_metrics, format_prometheus_metrics, GlobalMetrics,
    MetricsSnapshot, ThreadMetrics, METRICS_FLUSH_THRESHOLD,
};

#[test]
fn test_format_metrics() {
    let metrics = format_preload_metrics(&GlobalMetrics::new().snapshot(), "0.00");
    assert!(metrics.contains("aethalloc_allocs_total"));
    assert!(metrics.contains("aethalloc_cache_hit_rate"));
    assert!(metrics.contains("# TYPE aethalloc_cache_hits_total counter"));
}

#[test]
fn exposition_text_is_exact() {
    let s = MetricsSnapshot { allocs: 120, frees: 20, cache_hits: 90, cache_misses: 10, direct_allocs: 3 };
    let text = format_prometheus_metrics(&s, "90.00");
    let expected = "# HELP aethalloc_allocs_total Total allocations\n\
# TYPE aethalloc_allocs_total counter\n\
aethalloc_allocs_total 120\n\
# HELP aethalloc_frees_total Total deallocations\n\
# TYPE aethalloc_frees_total counter\n\
aethalloc_frees_total 20\n\
# HELP aethalloc_cache_hits_total Cache hits\n\
# TYPE aethalloc_cache_hits_total counter\n\
aethalloc_cache_hits_total 90\n\
# HELP aethalloc_cache_misses_total Cache misses\n\
# TYPE aethalloc_cache_misses_total counter\n\
aethalloc_cache_misses_total 10\n\
# HELP aethalloc_direct_allocs_total Direct (large) allocations\n\
# TYPE aethalloc_direct_allocs_total counter\n\
aethalloc_direct_allocs_total 3\n\
# HELP aethalloc_cache_hit_rate_percent Cache hit rate percentage\n\
# TYPE aethalloc_cache_hit_rate_percent gauge\n\
aethalloc_cache_hit_rate_percent 90.00\n\
# HELP aethalloc_active_blocks Estimated active blocks\n\
# TYPE aethalloc_active_blocks gauge\n\
aethalloc_active_blocks 100\n";
    assert_eq!(text, expected);
}

#[test]
fn active_blocks_saturate_at_zero() {
    let s = MetricsSnapshot { allocs: 5, frees: 9, cache_hits: 0, cache_misses: 0, direct_allocs: 0 };
    let text = format_preload_metrics(&s, "0.00");
    assert!(text.ends_with("aethalloc_active_blocks 0\n"));
    assert!(text.contains("aethalloc_cache_hit_rate 0.00\n"));
}

#[test]
fn decimals() {
    let mut out = String::from("n=");
    append_decimal(&mut out, 0);
    out.push(' ');
    append_decimal(&mut out, 1234567890);
    out.push(' ');
    append_decimal(&mut out, u64::MAX);
    assert_eq!(out, "n=0 1234567890 18446744073709551615");
}

#[test]
fn flush_adds_and_resets() {
    let mut g = GlobalMetrics::new();
    g.allocs = u64::MAX;
    let mut t = ThreadMetrics::new();
    t.record_alloc();
    t.record_alloc();
    t.record_free();
    t.record_cache_hit();
    t.record_direct_alloc();
    flush_thread_metrics(&mut t, &mut g);
    let s = g.snapshot();
    assert_eq!(s.allocs, 1);
    assert_eq!(s.frees, 1);
    assert_eq!(s.cache_hits, 1);
    assert_eq!(s.direct_allocs, 1);
    assert_eq!(t, ThreadMetrics::new());
}

#[test]
fn maybe_flush_waits_for_the_threshold() {
    let mut g = GlobalMetrics::new();
    let mut t = ThreadMetrics::new();
    for _ in 0..METRICS_FLUSH_THRESHOLD - 1 {
        t.record_alloc();
    }
    assert_eq!(t.maybe_flush(&mut g), None);
    assert_eq!(g.snapshot().allocs, 0);
    t.record_free();
    assert_eq!(t.maybe_flush(&mut g), Some(((METRICS_FLUSH_THRESHOLD - 1) as u64, 1)));
    assert_eq!(g.snapshot().allocs, (METRICS_FLUSH_THRESHOLD - 1) as u64);
    assert_eq!(g.snapshot().frees, 1);
    assert_eq!(t, ThreadMetrics::new());
}
