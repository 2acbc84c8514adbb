//! Feed statistics.
//!
//! Monotone counters for messages, bytes and gaps, plus two bounded
//! sliding windows of latency samples (microseconds). A summary of a
//! window reports its minimum, maximum, median, 99th percentile, exact
//! sum and sample count, each pinned to the sorted window; turning the
//! sum into a mean is left to callers.

use vstd::prelude::*;
use vstd::relations::{sorted_by, total_ordering};
use vstd::seq_lib::lemma_sorted_unique;
use std::time::Duration;
use std::time::Instant;

verus! {

/// Capacity of each latency window: recording a further sample evicts
/// the oldest.
pub const WINDOW_SIZE: usize = 10000;

/// Declares `std::time::Instant` so values of it can rest in fields;
/// the type is opaque to the verifier.
#[verifier::external_type_specification]
#[verifier::external_body]
pub struct ExInstant(Instant);

/// Relies on `std::time::Instant::now`: an opaque monotonic timestamp.
#[verifier::external_body]
fn monotonic_now() -> Instant {
    Instant::now()
}

/// Relies on `std::time::Instant::elapsed`: the span from `t` to now.
#[verifier::external_body]
fn elapsed_since(t: &Instant) -> Duration {
    t.elapsed()
}

/// The ascending ordering on `u64` samples.
pub open spec fn spec_sample_le() -> spec_fn(u64, u64) -> bool {
    |a: u64, b: u64| a <= b
}

/// The window's samples in ascending order.
pub open spec fn spec_sorted_window(s: Seq<u64>) -> Seq<u64> {
    s.sort_by(spec_sample_le())
}

/// Exact sum of the window's samples.
pub open spec fn spec_window_sum(s: Seq<u64>) -> int
    decreases s.len(),
{
    if s.len() == 0 {
        0
    } else {
        spec_window_sum(s.drop_last()) + s.last()
    }
}

/// Summary of one latency window, all in microseconds: extremes, median,
/// 99th percentile (by index into the sorted window), exact sum and
/// sample count.
#[derive(Debug, Clone, Copy, PartialEq, Eq, Structural)]
pub struct LatencySummary {
    pub min_us: u64,
    pub max_us: u64,
    pub p50_us: u64,
    pub p99_us: u64,
    pub total_us: u128,
    pub count: usize,
}

/// What a summary of a non-empty window holds: each field against the
/// sorted window and the exact sum.
pub open spec fn spec_summary_of(st: LatencySummary, w: Seq<u64>) -> bool {
    let sorted = spec_sorted_window(w);
    &&& st.count == w.len()
    &&& st.min_us == sorted[0]
    &&& st.max_us == sorted[w.len() - 1]
    &&& st.p50_us == sorted[w.len() as int / 2]
    &&& st.p99_us == sorted[(w.len() * 99) as int / 100]
    &&& st.total_us == spec_window_sum(w)
}

/// Sort the samples ascending: returns exactly the sorted window.
fn sort_window(v: &Vec<u64>) -> (r: Vec<u64>)
    ensures
        r@ == spec_sorted_window(v@),
{
    broadcast use vstd::seq_lib::group_to_multiset_ensures;

    let ghost leq = spec_sample_le();
    let mut r: Vec<u64> = Vec::new();
    let n = v.len();
    let mut i: usize = 0;
    proof {
        assert(v@.take(0) =~= Seq::<u64>::empty());
        assert(v@.take(0).to_multiset() =~= r@.to_multiset());
    }
    while i < n
        invariant
            0 <= i <= n,
            n == v@.len(),
            sorted_by(r@, spec_sample_le()),
            r@.to_multiset() == v@.take(i as int).to_multiset(),
            r@.len() == i,
        decreases n - i,
    {
        let x = v[i];
        let m = r.len();
        let mut j: usize = 0;
        while j < m && r[j] <= x
            invariant
                0 <= j <= m,
                m == r@.len(),
                forall|k: int| 0 <= k < j ==> r@[k] <= x,
            decreases m - j,
        {
            j = j + 1;
        }
        let ghost old_r = r@;
        r.insert(j, x);
        proof {
            old_r.insert_ensures(j as int, x);
            vstd::seq_lib::to_multiset_insert(old_r, j as int, x);
            vstd::seq_lib::to_multiset_build(v@.take(i as int), x);
            assert(v@.take(i + 1) =~= v@.take(i as int).push(x));
            assert forall|a: int, b: int| 0 <= a < b < r@.len() implies spec_sample_le()(
                r@[a],
                r@[b],
            ) by {
                if b < j {
                    assert(spec_sample_le()(old_r[a], old_r[b]));
                } else if b == j {
                    assert(r@[a] == old_r[a] && old_r[a] <= x);
                } else {
                    assert(r@[b] == old_r[b - 1]);
                    if a < j {
                        assert(spec_sample_le()(old_r[a], old_r[a]));
                        if a < b - 1 {
                            assert(spec_sample_le()(old_r[a], old_r[b - 1]));
                        }
                    } else if a == j {
                        assert(old_r[j as int] > x);
                        if j < b - 1 {
                            assert(spec_sample_le()(old_r[j as int], old_r[b - 1]));
                        }
                    } else {
                        assert(spec_sample_le()(old_r[a - 1], old_r[b - 1]));
                    }
                }
            }
        }
        i = i + 1;
    }
    proof {
        assert(v@.take(n as int) =~= v@);
        v@.lemma_sort_by_ensures(leq);
        assert(total_ordering(leq));
        lemma_sorted_unique(r@, spec_sorted_window(v@), leq);
    }
    r
}

/// Summarise a window: `None` exactly when it is empty, otherwise the
/// extremes, percentiles and exact sum of its samples.
fn window_summary(window: &Vec<u64>) -> (r: Option<LatencySummary>)
    requires
        window@.len() <= WINDOW_SIZE,
    ensures
        r is Some <==> window@.len() > 0,
        (r matches Some(st) ==> spec_summary_of(st, window@)),
{
    let n = window.len();
    if n == 0 {
        return None;
    }
    let sorted = sort_window(window);
    proof {
        vstd::seq_lib::lemma_multiset_commutative(Seq::<u64>::empty(), window@);
        window@.lemma_sort_by_ensures(spec_sample_le());
        vstd::seq_lib::to_multiset_len(window@);
        vstd::seq_lib::to_multiset_len(spec_sorted_window(window@));
        assert((n * 99) / 100 < n) by (nonlinear_arith)
            requires
                n >= 1,
        ;
    }
    let mut total: u128 = 0;
    let mut i: usize = 0;
    while i < n
        invariant
            0 <= i <= n,
            n == window@.len(),
            total == spec_window_sum(window@.take(i as int)),
            total <= i * (u64::MAX as int),
        decreases n - i,
    {
        proof {
            assert(window@.take(i + 1).drop_last() =~= window@.take(i as int));
        }
        total = total + window[i] as u128;
        i = i + 1;
    }
    proof {
        assert(window@.take(n as int) =~= window@);
    }
    Some(
        LatencySummary {
            min_us: sorted[0],
            max_us: sorted[n - 1],
            p50_us: sorted[n / 2],
            p99_us: sorted[(n * 99) / 100],
            total_us: total,
            count: n,
        },
    )
}

/// Abstract state of the statistics: whether timing has started, the
/// counters, and both latency windows oldest-first.
pub struct StatsView {
    pub started: bool,
    pub total_messages: u64,
    pub total_bytes: u64,
    pub decode_latencies: Seq<u64>,
    pub book_update_latencies: Seq<u64>,
    pub total_gaps: u32,
    pub gap_events: u32,
}

/// Counters and bounded latency windows for one feed.
#[derive(Debug, Clone)]
pub struct FeedStats {
    start_time: Option<Instant>,
    total_messages: u64,
    total_bytes: u64,
    decode_latencies: Vec<u64>,
    book_update_latencies: Vec<u64>,
    total_gaps: u32,
    gap_events: u32,
}

impl View for FeedStats {
    type V = StatsView;

    closed spec fn view(&self) -> StatsView {
        StatsView {
            started: self.start_time is Some,
            total_messages: self.total_messages,
            total_bytes: self.total_bytes,
            decode_latencies: self.decode_latencies@,
            book_update_latencies: self.book_update_latencies@,
            total_gaps: self.total_gaps,
            gap_events: self.gap_events,
        }
    }
}

/// One window after recording a sample: the oldest is evicted when the
/// window is full, and the sample joins at the young end.
pub open spec fn spec_window_push(w: Seq<u64>, micros: u64) -> Seq<u64> {
    (if w.len() >= WINDOW_SIZE {
        w.drop_first()
    } else {
        w
    }).push(micros)
}

impl FeedStats {
    /// Both windows are inside their capacity.
    pub open spec fn wf(&self) -> bool {
        self@.decode_latencies.len() <= WINDOW_SIZE && self@.book_update_latencies.len()
            <= WINDOW_SIZE
    }

    /// Fresh statistics: zero counters, empty windows, timing not
    /// started.
    pub fn new() -> (r: Self)
        ensures
            r.wf(),
            !r@.started,
            r@.total_messages == 0,
            r@.total_bytes == 0,
            r@.decode_latencies == Seq::<u64>::empty(),
            r@.book_update_latencies == Seq::<u64>::empty(),
            r@.total_gaps == 0,
            r@.gap_events == 0,
    {
        FeedStats {
            start_time: None,
            total_messages: 0,
            total_bytes: 0,
            decode_latencies: Vec::new(),
            book_update_latencies: Vec::new(),
            total_gaps: 0,
            gap_events: 0,
        }
    }

    /// Count one received message of `size` bytes; the first message
    /// starts the wall clock. Both counters saturate at `u64::MAX`.
    pub fn record_message(&mut self, size: usize)
        requires
            old(self).wf(),
        ensures
            final(self).wf(),
            final(self)@.started,
            final(self)@.total_messages == old(self)@.total_messages.saturating_add(1),
            final(self)@.total_bytes == old(self)@.total_bytes.saturating_add(size as u64),
            final(self)@.decode_latencies == old(self)@.decode_latencies,
            final(self)@.book_update_latencies == old(self)@.book_update_latencies,
            final(self)@.total_gaps == old(self)@.total_gaps,
            final(self)@.gap_events == old(self)@.gap_events,
    {
        if self.start_time.is_none() {
            self.start_time = Some(monotonic_now());
        }
        self.total_messages = self.total_messages.saturating_add(1);
        self.total_bytes = self.total_bytes.saturating_add(size as u64);
    }

    /// Record one decode latency sample, evicting the oldest sample when
    /// the window is full.
    pub fn record_decode_latency(&mut self, micros: u64)
        requires
            old(self).wf(),
        ensures
            final(self).wf(),
            final(self)@.decode_latencies == spec_window_push(
                old(self)@.decode_latencies,
                micros,
            ),
            final(self)@.book_update_latencies == old(self)@.book_update_latencies,
            final(self)@.started == old(self)@.started,
            final(self)@.total_messages == old(self)@.total_messages,
            final(self)@.total_bytes == old(self)@.total_bytes,
            final(self)@.total_gaps == old(self)@.total_gaps,
            final(self)@.gap_events == old(self)@.gap_events,
    {
        if self.decode_latencies.len() >= WINDOW_SIZE {
            self.decode_latencies.remove(0);
            proof {
                assert(self.decode_latencies@ =~= old(self)@.decode_latencies.drop_first());
            }
        }
        self.decode_latencies.push(micros);
    }

    /// Record one book-update latency sample, evicting the oldest sample
    /// when the window is full.
    pub fn record_book_update_latency(&mut self, micros: u64)
        requires
            old(self).wf(),
        ensures
            final(self).wf(),
            final(self)@.book_update_latencies == spec_window_push(
                old(self)@.book_update_latencies,
                micros,
            ),
            final(self)@.decode_latencies == old(self)@.decode_latencies,
            final(self)@.started == old(self)@.started,
            final(self)@.total_messages == old(self)@.total_messages,
            final(self)@.total_bytes == old(self)@.total_bytes,
            final(self)@.total_gaps == old(self)@.total_gaps,
            final(self)@.gap_events == old(self)@.gap_events,
    {
        if self.book_update_latencies.len() >= WINDOW_SIZE {
            self.book_update_latencies.remove(0);
            proof {
                assert(self.book_update_latencies@ =~= old(
                    self,
                )@.book_update_latencies.drop_first());
            }
        }
        self.book_update_latencies.push(micros);
    }

    /// Count one gap event of `gap_size` missing messages; the total
    /// wraps modulo 2^32, the event counter saturates.
    pub fn record_gap(&mut self, gap_size: u32)
        requires
            old(self).wf(),
        ensures
            final(self).wf(),
            final(self)@.total_gaps == ((old(self)@.total_gaps + gap_size)
                % 0x1_0000_0000) as u32,
            final(self)@.gap_events == old(self)@.gap_events.saturating_add(1),
            final(self)@.started == old(self)@.started,
            final(self)@.total_messages == old(self)@.total_messages,
            final(self)@.total_bytes == old(self)@.total_bytes,
            final(self)@.decode_latencies == old(self)@.decode_latencies,
            final(self)@.book_update_latencies == old(self)@.book_update_latencies,
    {
        let ghost t = self@.total_gaps;
        proof {
            assert(t.wrapping_add(gap_size) == ((t + gap_size) % 0x1_0000_0000) as u32)
                by (bit_vector);
        }
        self.total_gaps = self.total_gaps.wrapping_add(gap_size);
        self.gap_events = self.gap_events.saturating_add(1);
    }

    /// Summary of the decode-latency window; `None` while it is empty.
    pub fn decode_latency_summary(&self) -> (r: Option<LatencySummary>)
        requires
            self.wf(),
        ensures
            r is Some <==> self@.decode_latencies.len() > 0,
            (r matches Some(st) ==> spec_summary_of(st, self@.decode_latencies)),
    {
        window_summary(&self.decode_latencies)
    }

    /// Summary of the book-update-latency window; `None` while it is
    /// empty.
    pub fn book_update_latency_summary(&self) -> (r: Option<LatencySummary>)
        requires
            self.wf(),
        ensures
            r is Some <==> self@.book_update_latencies.len() > 0,
            (r matches Some(st) ==> spec_summary_of(st, self@.book_update_latencies)),
    {
        window_summary(&self.book_update_latencies)
    }

    /// Wall-clock span since the first recorded message; `None` before
    /// any message was recorded.
    pub fn elapsed(&self) -> (r: Option<Duration>)
        ensures
            r is Some <==> self@.started,
    {
        match &self.start_time {
            Some(st) => Some(elapsed_since(st)),
            None => None,
        }
    }

    /// Messages recorded so far.
    pub fn total_messages(&self) -> (r: u64)
        ensures
            r == self@.total_messages,
    {
        self.total_messages
    }

    /// Bytes recorded so far.
    pub fn total_bytes(&self) -> (r: u64)
        ensures
            r == self@.total_bytes,
    {
        self.total_bytes
    }

    /// Missing messages recorded so far, modulo 2^32.
    pub fn total_gaps(&self) -> (r: u32)
        ensures
            r == self@.total_gaps,
    {
        self.total_gaps
    }

    /// Gap events recorded so far.
    pub fn gap_events(&self) -> (r: u32)
        ensures
            r == self@.gap_events,
    {
        self.gap_events
    }

    /// Forget everything recorded.
    pub fn reset(&mut self)
        ensures
            final(self).wf(),
            !final(self)@.started,
            final(self)@.total_messages == 0,
            final(self)@.total_bytes == 0,
            final(self)@.decode_latencies == Seq::<u64>::empty(),
            final(self)@.book_update_latencies == Seq::<u64>::empty(),
            final(self)@.total_gaps == 0,
            final(self)@.gap_events == 0,
    {
        self.start_time = None;
        self.total_messages = 0;
        self.total_bytes = 0;
        self.decode_latencies.clear();
        self.book_update_latencies.clear();
        self.total_gaps = 0;
        self.gap_events = 0;
    }
}

impl Default for FeedStats {
    /// Same as `new`: zero counters, empty windows.
    fn default() -> (r: Self)
        ensures
            r.wf(),
            !r@.started,
            r@.total_messages == 0,
            r@.total_bytes == 0,
            r@.decode_latencies == Seq::<u64>::empty(),
            r@.book_update_latencies == Seq::<u64>::empty(),
            r@.total_gaps == 0,
            r@.gap_events == 0,
    {
        Self::new()
    }
}

} // verus!
