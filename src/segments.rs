//! What a stream is made of, how its segments are shared among workers, and
//! when a worker gives up on a segment.

use vstd::prelude::*;

verus! {

/// One segment of a stream: where to fetch it and how long it plays.
pub struct StreamSegment {
    pub url: String,
    pub length_ms: u64,
}

/// A stream: its segments in playback order, its bit rate and, for audio,
/// its sampling rate.
pub struct StreamData {
    pub segments: Vec<StreamSegment>,
    pub bandwidth: u64,
    pub sampling_rate: Option<u32>,
}

/// Why a segment download did not complete.
#[derive(Debug)]
pub enum FetchError {
    /// Segment `index` failed on every one of `attempts` attempts.
    RetryExhausted { index: usize, attempts: u32 },
    /// The download ended with segments still held back; their indices.
    BufferNotEmpty { remaining: Vec<usize> },
}

/// Retries allowed for one segment after its first attempt fails.
pub const MAX_RETRIES: u32 = 5;

/// Sum of the segments' lengths in whole seconds (each rounded down).
pub open spec fn seconds_sum(segments: Seq<StreamSegment>) -> nat
    decreases segments.len(),
{
    if segments.len() == 0 {
        0
    } else {
        seconds_sum(segments.drop_last()) + (segments.last().length_ms / 1000) as nat
    }
}

/// Sum of the segments' lengths in milliseconds.
pub open spec fn millis_sum(segments: Seq<StreamSegment>) -> nat
    decreases segments.len(),
{
    if segments.len() == 0 {
        0
    } else {
        millis_sum(segments.drop_last()) + segments.last().length_ms as nat
    }
}

pub open spec fn saturate(x: int) -> u64 {
    if x > u64::MAX { u64::MAX } else { x as u64 }
}

/// The expected size in bytes of a stream: its byte rate times its length in
/// whole seconds, saturating at `u64::MAX`.
pub fn estimate_stream_data_file_size(bandwidth: u64, segments: &Vec<StreamSegment>) -> (r: u64)
    ensures
        r == saturate((bandwidth / 8) as int * seconds_sum(segments@)),
{
    let mut secs: u64 = 0;
    let mut i: usize = 0;
    while i < segments.len()
        invariant
            i <= segments.len(),
            secs == saturate(seconds_sum(segments@.take(i as int)) as int),
        decreases segments.len() - i,
    {
        assert(segments@.take(i + 1).drop_last() =~= segments@.take(i as int));
        let s = segments[i].length_ms / 1000;
        if secs > u64::MAX - s {
            secs = u64::MAX;
        } else {
            secs = secs + s;
        }
        i = i + 1;
    }
    assert(segments@.take(i as int) =~= segments@);
    let rate = bandwidth / 8;
    if rate == 0 {
        assert(rate as int * seconds_sum(segments@) == 0) by (nonlinear_arith)
            requires rate == 0;
        return 0;
    }
    if secs == u64::MAX {
        proof {
            assert(seconds_sum(segments@) >= u64::MAX);
            assert(rate as int * seconds_sum(segments@) >= seconds_sum(segments@)) by (nonlinear_arith)
                requires rate >= 1;
        }
        return u64::MAX;
    }
    assert(rate as int * secs as int <= u64::MAX as int * u64::MAX as int) by (nonlinear_arith)
        requires rate <= u64::MAX, secs <= u64::MAX;
    let product: u128 = rate as u128 * secs as u128;
    if product > u64::MAX as u128 {
        u64::MAX
    } else {
        product as u64
    }
}

/// The playing time of a stream in milliseconds, saturating at `u64::MAX`.
pub fn len_from_segments(segments: &Vec<StreamSegment>) -> (r: u64)
    ensures
        r == saturate(millis_sum(segments@) as int),
{
    let mut ms: u64 = 0;
    let mut i: usize = 0;
    while i < segments.len()
        invariant
            i <= segments.len(),
            ms == saturate(millis_sum(segments@.take(i as int)) as int),
        decreases segments.len() - i,
    {
        assert(segments@.take(i + 1).drop_last() =~= segments@.take(i as int));
        let s = segments[i].length_ms;
        if ms > u64::MAX - s {
            ms = u64::MAX;
        } else {
            ms = ms + s;
        }
        i = i + 1;
    }
    assert(segments@.take(i as int) =~= segments@);
    ms
}

/// The progress total after a segment arrives: the running estimate with
/// that segment's estimated size replaced by its real size (never below 0,
/// never above `u64::MAX`).
pub fn progress_length_after(estimate: u64, bandwidth: u64, segment_ms: u64, actual: u64) -> (r: u64)
    ensures
        r == saturate(
            (if estimate >= (bandwidth / 8) as int * (segment_ms / 1000) as int {
                estimate - (bandwidth / 8) as int * (segment_ms / 1000) as int
            } else {
                0
            }) + actual,
        ),
{
    let rate = bandwidth / 8;
    let secs = segment_ms / 1000;
    assert(rate as int * secs as int <= u64::MAX as int * u64::MAX as int) by (nonlinear_arith)
        requires rate <= u64::MAX, secs <= u64::MAX;
    let guess: u128 = rate as u128 * secs as u128;
    let base: u128 = if estimate as u128 >= guess { estimate as u128 - guess } else { 0 };
    let total: u128 = base + actual as u128;
    if total > u64::MAX as u128 {
        u64::MAX
    } else {
        total as u64
    }
}

/// How many workers share a stream of `segments` segments when at most
/// `threads` may run.
pub fn worker_count(threads: usize, segments: usize) -> (r: usize)
    ensures
        r == if threads < segments { threads } else { segments },
{
    if threads < segments {
        threads
    } else {
        segments
    }
}

/// The segments worker `w` of `workers` downloads, in order: `w`,
/// `w + workers`, `w + 2 * workers`, ... below `total`.
pub open spec fn is_round_robin_share(share: Seq<usize>, w: int, workers: int, total: int) -> bool {
    &&& forall|t: int| 0 <= t < share.len() ==> #[trigger] share[t] == w + t * workers && share[t] < total
    &&& w + share.len() * workers >= total
}

/// Deals segments `0..total` out to `workers` workers round-robin.
pub fn assign_segments(total: usize, workers: usize) -> (r: Vec<Vec<usize>>)
    requires
        workers >= 1,
    ensures
        r.len() == workers,
        forall|w: int| 0 <= w < workers ==> is_round_robin_share(#[trigger] r[w]@, w, workers as int, total as int),
{
    let mut r: Vec<Vec<usize>> = Vec::new();
    let mut w: usize = 0;
    while w < workers
        invariant
            w <= workers,
            r.len() == w,
            forall|v: int| 0 <= v < w ==> is_round_robin_share(#[trigger] r[v]@, v, workers as int, total as int),
        decreases workers - w,
    {
        let mut share: Vec<usize> = Vec::new();
        let mut idx: u128 = w as u128;
        assert(w + share.len() * workers == w) by (nonlinear_arith)
            requires share.len() == 0;
        while idx < total as u128
            invariant
                workers >= 1,
                idx == w + share.len() * workers,
                idx <= total + workers,
                forall|t: int| 0 <= t < share.len() ==> #[trigger] share[t] == w + t * workers && share[t] < total,
            decreases total + workers - idx,
        {
            share.push(idx as usize);
            proof {
                assert(w + share.len() * workers == w + (share.len() - 1) * workers + workers) by (nonlinear_arith);
            }
            idx = idx + workers as u128;
        }
        r.push(share);
        w = w + 1;
    }
    r
}

/// A worker's progress through its share: how many segments are done, how
/// many retries the current one has used, and whether it gave up.
pub struct SegmentWorker {
    assigned: Vec<usize>,
    done: usize,
    retries: u32,
    exhausted: bool,
}

/// The segment a worker in state `st` requests next, if any.
pub open spec fn pending_segment(st: (Seq<usize>, nat, nat, bool)) -> Option<usize> {
    if st.3 || st.1 >= st.0.len() {
        None
    } else {
        Some(st.0[st.1 as int])
    }
}

/// The state after the pending segment arrived.
pub open spec fn after_success(st: (Seq<usize>, nat, nat, bool)) -> (Seq<usize>, nat, nat, bool) {
    (st.0, st.1 + 1, 0, false)
}

/// The state after an attempt at the pending segment failed.
pub open spec fn after_failure(st: (Seq<usize>, nat, nat, bool)) -> (Seq<usize>, nat, nat, bool) {
    if st.2 >= MAX_RETRIES {
        (st.0, st.1, st.2, true)
    } else {
        (st.0, st.1, st.2 + 1, false)
    }
}

/// The state after `k` failed attempts in a row.
pub open spec fn after_failures(st: (Seq<usize>, nat, nat, bool), k: nat) -> (Seq<usize>, nat, nat, bool)
    decreases k,
{
    if k == 0 {
        st
    } else {
        after_failure(after_failures(st, (k - 1) as nat))
    }
}

impl View for SegmentWorker {
    type V = (Seq<usize>, nat, nat, bool);

    closed spec fn view(&self) -> (Seq<usize>, nat, nat, bool) {
        (self.assigned@, self.done as nat, self.retries as nat, self.exhausted)
    }
}

impl SegmentWorker {
    pub closed spec fn wf(&self) -> bool {
        &&& self.done <= self.assigned.len()
        &&& self.retries <= MAX_RETRIES
        &&& self.exhausted ==> self.done < self.assigned.len()
    }

    /// A worker about to download `assigned`, in that order.
    pub fn new(assigned: Vec<usize>) -> (r: SegmentWorker)
        ensures
            r.wf(),
            r@ == (assigned@, 0nat, 0nat, false),
    {
        SegmentWorker { assigned, done: 0, retries: 0, exhausted: false }
    }

    /// The segment to request now; `None` once the share is done or the
    /// worker gave up.
    pub fn next_segment(&self) -> (r: Option<usize>)
        requires
            self.wf(),
        ensures
            r == pending_segment(self@),
    {
        if self.exhausted || self.done >= self.assigned.len() {
            None
        } else {
            Some(self.assigned[self.done])
        }
    }

    /// The number of the attempt in flight at the pending segment (1 for the first).
    pub fn attempt(&self) -> (r: u32)
        requires
            self.wf(),
        ensures
            r == self@.2 + 1,
    {
        self.retries + 1
    }

    /// The pending segment arrived.
    pub fn on_success(&mut self)
        requires
            old(self).wf(),
            pending_segment(old(self)@) is Some,
        ensures
            final(self).wf(),
            final(self)@ == after_success(old(self)@),
    {
        self.done = self.done + 1;
        self.retries = 0;
    }

    /// An attempt at the pending segment failed. Once the retries are spent
    /// the worker gives up and reports the segment.
    pub fn on_failure(&mut self) -> (r: Option<FetchError>)
        requires
            old(self).wf(),
            pending_segment(old(self)@) is Some,
        ensures
            final(self).wf(),
            final(self)@ == after_failure(old(self)@),
            old(self)@.2 >= MAX_RETRIES ==> r == Some(FetchError::RetryExhausted {
                index: pending_segment(old(self)@)->0,
                attempts: (MAX_RETRIES + 1) as u32,
            }),
            old(self)@.2 < MAX_RETRIES ==> r is None,
    {
        if self.retries >= MAX_RETRIES {
            self.exhausted = true;
            Some(FetchError::RetryExhausted { index: self.assigned[self.done], attempts: MAX_RETRIES + 1 })
        } else {
            self.retries = self.retries + 1;
            None
        }
    }
}

/// A worker that starts a segment afresh keeps requesting that same segment
/// through its first six failed attempts, then gives up: after the sixth
/// failure it requests nothing more, neither this segment nor any later one.
pub proof fn lemma_at_most_six_attempts(st: (Seq<usize>, nat, nat, bool), k: nat)
    requires
        st.2 == 0,
        pending_segment(st) is Some,
    ensures
        k <= MAX_RETRIES ==> pending_segment(after_failures(st, k)) == pending_segment(st)
            && after_failures(st, k).2 == k,
        k > MAX_RETRIES ==> pending_segment(after_failures(st, k)) is None && after_failures(st, k).3,
    decreases k,
{
    if k > 0 {
        lemma_at_most_six_attempts(st, (k - 1) as nat);
    }
}

} // verus!
