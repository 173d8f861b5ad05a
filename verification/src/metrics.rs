//! Allocation metrics: per-thread counters, the global totals they are
//! flushed into, and their Prometheus text exposition.

use vstd::prelude::*;
use vstd::wrapping::u64_specs::wrapping_add;
use vstd::string::StringExecFns;

verus! {

/// Thread counters are flushed once this many allocations and frees
/// have been counted.
pub const METRICS_FLUSH_THRESHOLD: usize = 4096;

/// Global allocation counters (each wraps around past `u64::MAX`)
pub struct GlobalMetrics {
    pub allocs: u64,
    pub frees: u64,
    pub cache_hits: u64,
    pub cache_misses: u64,
    pub direct_allocs: u64,
}

/// A copy of the global counters
#[derive(Debug, Clone, Copy, Default, PartialEq, Eq, Structural)]
pub struct MetricsSnapshot {
    pub allocs: u64,
    pub frees: u64,
    pub cache_hits: u64,
    pub cache_misses: u64,
    pub direct_allocs: u64,
}

impl GlobalMetrics {
    pub fn new() -> (m: Self)
        ensures
            m.allocs == 0 && m.frees == 0 && m.cache_hits == 0 && m.cache_misses == 0 && m.direct_allocs == 0,
    {
        Self { allocs: 0, frees: 0, cache_hits: 0, cache_misses: 0, direct_allocs: 0 }
    }

    pub fn snapshot(&self) -> (s: MetricsSnapshot)
        ensures
            s == (MetricsSnapshot {
                allocs: self.allocs,
                frees: self.frees,
                cache_hits: self.cache_hits,
                cache_misses: self.cache_misses,
                direct_allocs: self.direct_allocs,
            }),
    {
        MetricsSnapshot {
            allocs: self.allocs,
            frees: self.frees,
            cache_hits: self.cache_hits,
            cache_misses: self.cache_misses,
            direct_allocs: self.direct_allocs,
        }
    }
}

/// Per-thread counters since the last flush
#[derive(Debug, Clone, Copy, PartialEq, Eq, Structural)]
pub struct ThreadMetrics {
    pub allocs: usize,
    pub frees: usize,
    pub cache_hits: usize,
    pub cache_misses: usize,
    pub direct_allocs: usize,
}

/// The global counters after adding the thread counters `t` to `g`.
pub open spec fn flushed_into(g: MetricsSnapshot, t: ThreadMetrics) -> MetricsSnapshot {
    MetricsSnapshot {
        allocs: wrapping_add(g.allocs, t.allocs as u64),
        frees: wrapping_add(g.frees, t.frees as u64),
        cache_hits: wrapping_add(g.cache_hits, t.cache_hits as u64),
        cache_misses: wrapping_add(g.cache_misses, t.cache_misses as u64),
        direct_allocs: wrapping_add(g.direct_allocs, t.direct_allocs as u64),
    }
}

/// The snapshot of the counters of `g`.
pub open spec fn snapshot_of(g: GlobalMetrics) -> MetricsSnapshot {
    MetricsSnapshot {
        allocs: g.allocs,
        frees: g.frees,
        cache_hits: g.cache_hits,
        cache_misses: g.cache_misses,
        direct_allocs: g.direct_allocs,
    }
}

/// All counters zero.
pub open spec fn zero_thread_metrics() -> ThreadMetrics {
    ThreadMetrics { allocs: 0, frees: 0, cache_hits: 0, cache_misses: 0, direct_allocs: 0 }
}

impl ThreadMetrics {
    pub fn new() -> (m: Self)
        ensures
            m == zero_thread_metrics(),
    {
        Self { allocs: 0, frees: 0, cache_hits: 0, cache_misses: 0, direct_allocs: 0 }
    }

    /// Adds the counters into `global` and resets them, once at least
    /// `METRICS_FLUSH_THRESHOLD` allocations and frees have been counted.
    /// Returns the allocation and free counts that were flushed, for the
    /// support core's statistics.
    pub fn maybe_flush(&mut self, global: &mut GlobalMetrics) -> (r: Option<(u64, u64)>)
        requires
            old(self).allocs + old(self).frees <= usize::MAX,
        ensures
            old(self).allocs + old(self).frees >= METRICS_FLUSH_THRESHOLD ==> (
                r == Some((old(self).allocs as u64, old(self).frees as u64))
                && snapshot_of(*final(global)) == flushed_into(snapshot_of(*old(global)), *old(self))
                && *final(self) == zero_thread_metrics()),
            old(self).allocs + old(self).frees < METRICS_FLUSH_THRESHOLD ==> (
                r is None && snapshot_of(*final(global)) == snapshot_of(*old(global)) && *final(self) == *old(self)),
    {
        if self.allocs + self.frees >= METRICS_FLUSH_THRESHOLD {
            let allocs = self.allocs as u64;
            let frees = self.frees as u64;
            flush_thread_metrics(self, global);
            return Some((allocs, frees));
        }
        None
    }

    pub fn record_alloc(&mut self)
        requires
            old(self).allocs < usize::MAX,
        ensures
            *final(self) == (ThreadMetrics { allocs: (old(self).allocs + 1) as usize, ..*old(self) }),
    {
        self.allocs = self.allocs + 1;
    }

    pub fn record_free(&mut self)
        requires
            old(self).frees < usize::MAX,
        ensures
            *final(self) == (ThreadMetrics { frees: (old(self).frees + 1) as usize, ..*old(self) }),
    {
        self.frees = self.frees + 1;
    }

    pub fn record_cache_hit(&mut self)
        requires
            old(self).cache_hits < usize::MAX,
        ensures
            *final(self) == (ThreadMetrics { cache_hits: (old(self).cache_hits + 1) as usize, ..*old(self) }),
    {
        self.cache_hits = self.cache_hits + 1;
    }

    pub fn record_cache_miss(&mut self)
        requires
            old(self).cache_misses < usize::MAX,
        ensures
            *final(self) == (ThreadMetrics { cache_misses: (old(self).cache_misses + 1) as usize, ..*old(self) }),
    {
        self.cache_misses = self.cache_misses + 1;
    }

    pub fn record_direct_alloc(&mut self)
        requires
            old(self).direct_allocs < usize::MAX,
        ensures
            *final(self) == (ThreadMetrics { direct_allocs: (old(self).direct_allocs + 1) as usize, ..*old(self) }),
    {
        self.direct_allocs = self.direct_allocs + 1;
    }
}

/// Adds the thread counters into `global` and resets them, whatever their
/// values.
pub fn flush_thread_metrics(metrics: &mut ThreadMetrics, global: &mut GlobalMetrics)
    ensures
        snapshot_of(*final(global)) == flushed_into(snapshot_of(*old(global)), *old(metrics)),
        *final(metrics) == zero_thread_metrics(),
{
    global.allocs = global.allocs.wrapping_add(metrics.allocs as u64);
    global.frees = global.frees.wrapping_add(metrics.frees as u64);
    global.cache_hits = global.cache_hits.wrapping_add(metrics.cache_hits as u64);
    global.cache_misses = global.cache_misses.wrapping_add(metrics.cache_misses as u64);
    global.direct_allocs = global.direct_allocs.wrapping_add(metrics.direct_allocs as u64);
    metrics.allocs = 0;
    metrics.frees = 0;
    metrics.cache_hits = 0;
    metrics.cache_misses = 0;
    metrics.direct_allocs = 0;
}

/// The decimal digit `d` (`d < 10`).
pub open spec fn digit_char(d: nat) -> char {
    if d == 0 { '0' } else if d == 1 { '1' } else if d == 2 { '2' } else if d == 3 { '3' }
    else if d == 4 { '4' } else if d == 5 { '5' } else if d == 6 { '6' } else if d == 7 { '7' }
    else if d == 8 { '8' } else { '9' }
}

/// The decimal representation of `n`, without leading zeros.
pub open spec fn decimal(n: nat) -> Seq<char>
    decreases n,
{
    if n < 10 {
        seq![digit_char(n)]
    } else {
        decimal(n / 10).push(digit_char(n % 10))
    }
}

/// The text of the decimal digit `d`.
fn digit_str(d: u64) -> (r: &'static str)
    requires
        d < 10,
    ensures
        r@ == seq![digit_char(d as nat)],
{
    proof {
        reveal_strlit("0");
        reveal_strlit("1");
        reveal_strlit("2");
        reveal_strlit("3");
        reveal_strlit("4");
        reveal_strlit("5");
        reveal_strlit("6");
        reveal_strlit("7");
        reveal_strlit("8");
        reveal_strlit("9");
    }
    match d {
        0 => "0",
        1 => "1",
        2 => "2",
        3 => "3",
        4 => "4",
        5 => "5",
        6 => "6",
        7 => "7",
        8 => "8",
        _ => "9",
    }
}

/// Appends the decimal representation of `n` to `out`.
pub fn append_decimal(out: &mut String, n: u64)
    ensures
        final(out)@ == old(out)@ + decimal(n as nat),
    decreases n,
{
    if n >= 10 {
        append_decimal(out, n / 10);
    }
    out.append(digit_str(n % 10));
    assert(decimal(n as nat) == (if n < 10 { seq![digit_char(n as nat)] } else { decimal((n / 10) as nat).push(digit_char((n % 10) as nat)) }));
}

/// `a - b`, or 0 when `b` is larger.
pub open spec fn saturating_diff(a: u64, b: u64) -> nat {
    if a >= b { (a - b) as nat } else { 0 }
}

/// The counter lines of the exposition: allocations, frees, cache hits,
/// cache misses and direct allocations, each with its help and type lines.
pub open spec fn counter_text(s: MetricsSnapshot) -> Seq<char> {
    "# HELP aethalloc_allocs_total Total allocations\n"@
    + "# TYPE aethalloc_allocs_total counter\n"@
    + "aethalloc_allocs_total "@ + decimal(s.allocs as nat) + "\n"@
    + "# HELP aethalloc_frees_total Total deallocations\n"@
    + "# TYPE aethalloc_frees_total counter\n"@
    + "aethalloc_frees_total "@ + decimal(s.frees as nat) + "\n"@
    + "# HELP aethalloc_cache_hits_total Cache hits\n"@
    + "# TYPE aethalloc_cache_hits_total counter\n"@
    + "aethalloc_cache_hits_total "@ + decimal(s.cache_hits as nat) + "\n"@
    + "# HELP aethalloc_cache_misses_total Cache misses\n"@
    + "# TYPE aethalloc_cache_misses_total counter\n"@
    + "aethalloc_cache_misses_total "@ + decimal(s.cache_misses as nat) + "\n"@
    + "# HELP aethalloc_direct_allocs_total Direct (large) allocations\n"@
    + "# TYPE aethalloc_direct_allocs_total counter\n"@
    + "aethalloc_direct_allocs_total "@ + decimal(s.direct_allocs as nat) + "\n"@
}

/// The closing lines: the estimated number of live blocks.
pub open spec fn active_blocks_text(s: MetricsSnapshot) -> Seq<char> {
    "# HELP aethalloc_active_blocks Estimated active blocks\n"@
    + "# TYPE aethalloc_active_blocks gauge\n"@
    + "aethalloc_active_blocks "@ + decimal(saturating_diff(s.allocs, s.frees)) + "\n"@
}

/// The exporter's text: the counters, the hit rate as the gauge
/// `aethalloc_cache_hit_rate_percent` with the value text `rate`, and the
/// number of live blocks.
pub open spec fn prometheus_text(s: MetricsSnapshot, rate: Seq<char>) -> Seq<char> {
    counter_text(s)
    + "# HELP aethalloc_cache_hit_rate_percent Cache hit rate percentage\n"@
    + "# TYPE aethalloc_cache_hit_rate_percent gauge\n"@
    + "aethalloc_cache_hit_rate_percent "@ + rate + "\n"@
    + active_blocks_text(s)
}

/// The preloaded exporter's text: as `prometheus_text`, with the hit rate
/// as the gauge `aethalloc_cache_hit_rate`.
pub open spec fn preload_metrics_text(s: MetricsSnapshot, rate: Seq<char>) -> Seq<char> {
    counter_text(s)
    + "# HELP aethalloc_cache_hit_rate Cache hit rate percentage\n"@
    + "# TYPE aethalloc_cache_hit_rate gauge\n"@
    + "aethalloc_cache_hit_rate "@ + rate + "\n"@
    + active_blocks_text(s)
}

/// Appends the counter lines.
fn append_counters(out: &mut String, s: &MetricsSnapshot)
    ensures
        final(out)@ == old(out)@ + counter_text(*s),
{
    out.append("# HELP aethalloc_allocs_total Total allocations\n");
    out.append("# TYPE aethalloc_allocs_total counter\n");
    out.append("aethalloc_allocs_total ");
    append_decimal(out, s.allocs);
    out.append("\n");
    out.append("# HELP aethalloc_frees_total Total deallocations\n");
    out.append("# TYPE aethalloc_frees_total counter\n");
    out.append("aethalloc_frees_total ");
    append_decimal(out, s.frees);
    out.append("\n");
    out.append("# HELP aethalloc_cache_hits_total Cache hits\n");
    out.append("# TYPE aethalloc_cache_hits_total counter\n");
    out.append("aethalloc_cache_hits_total ");
    append_decimal(out, s.cache_hits);
    out.append("\n");
    out.append("# HELP aethalloc_cache_misses_total Cache misses\n");
    out.append("# TYPE aethalloc_cache_misses_total counter\n");
    out.append("aethalloc_cache_misses_total ");
    append_decimal(out, s.cache_misses);
    out.append("\n");
    out.append("# HELP aethalloc_direct_allocs_total Direct (large) allocations\n");
    out.append("# TYPE aethalloc_direct_allocs_total counter\n");
    out.append("aethalloc_direct_allocs_total ");
    append_decimal(out, s.direct_allocs);
    out.append("\n");
    assert(final(out)@ =~= old(out)@ + counter_text(*s));
}

/// Appends the live-block lines.
fn append_active_blocks(out: &mut String, s: &MetricsSnapshot)
    ensures
        final(out)@ == old(out)@ + active_blocks_text(*s),
{
    out.append("# HELP aethalloc_active_blocks Estimated active blocks\n");
    out.append("# TYPE aethalloc_active_blocks gauge\n");
    out.append("aethalloc_active_blocks ");
    append_decimal(out, s.allocs.saturating_sub(s.frees));
    out.append("\n");
    assert(final(out)@ =~= old(out)@ + active_blocks_text(*s));
}

/// Prometheus text exposition of `snapshot`, with `hit_rate` the cache hit
/// rate already written as text (a percentage with two decimals).
pub fn format_prometheus_metrics(snapshot: &MetricsSnapshot, hit_rate: &str) -> (r: String)
    ensures
        r@ == prometheus_text(*snapshot, hit_rate@),
{
    let mut output = String::new();
    append_counters(&mut output, snapshot);
    output.append("# HELP aethalloc_cache_hit_rate_percent Cache hit rate percentage\n");
    output.append("# TYPE aethalloc_cache_hit_rate_percent gauge\n");
    output.append("aethalloc_cache_hit_rate_percent ");
    output.append(hit_rate);
    output.append("\n");
    append_active_blocks(&mut output, snapshot);
    assert(output@ =~= prometheus_text(*snapshot, hit_rate@));
    output
}

/// The preloaded exporter's text exposition of `snapshot`, with `hit_rate`
/// the cache hit rate already written as text.
pub fn format_preload_metrics(snapshot: &MetricsSnapshot, hit_rate: &str) -> (r: String)
    ensures
        r@ == preload_metrics_text(*snapshot, hit_rate@),
{
    let mut output = String::new();
    append_counters(&mut output, snapshot);
    output.append("# HELP aethalloc_cache_hit_rate Cache hit rate percentage\n");
    output.append("# TYPE aethalloc_cache_hit_rate gauge\n");
    output.append("aethalloc_cache_hit_rate ");
    output.append(hit_rate);
    output.append("\n");
    append_active_blocks(&mut output, snapshot);
    assert(output@ =~= preload_metrics_text(*snapshot, hit_rate@));
    output
}

} // verus!
