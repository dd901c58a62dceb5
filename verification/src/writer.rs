//! Segmented-writer schedule and flush-wait backoff.
//!
//! A split plan (see `crate::plan`) dictates how one read's worth of bytes is
//! broken into TCP segments. This module turns a plan into an explicit list
//! of write actions, and provides the capped-exponential backoff used while
//! polling the kernel for an empty send queue after each non-final segment.

use vstd::prelude::*;

use crate::plan::strictly_ascending;

verus! {

/// One write action of a segmented send: the half-open range
/// `[start, end)` of the read buffer to write, and whether the writer must
/// flush and wait for the kernel send queue to drain before the next
/// action, so the receiver observes the range as a distinct TCP segment.
pub struct Segment {
    /// First byte of the range.
    pub start: usize,
    /// One past the last byte of the range.
    pub end: usize,
    /// Flush and wait for zero unsent bytes after writing this range.
    pub flush_after: bool,
}

/// Start of the `i`-th segment a plan cuts: 0 for the first segment, else
/// the previous plan offset.
pub open spec fn seg_start(plan: Seq<usize>, i: int) -> int {
    if i == 0 {
        0
    } else {
        plan[i - 1] as int
    }
}

/// The byte slices a plan cuts a buffer into: slice `i` is
/// `[seg_start(plan, i), plan[i])`.
pub open spec fn plan_segments(b: Seq<u8>, plan: Seq<usize>) -> Seq<Seq<u8>> {
    Seq::new(plan.len(), |i: int| b.subrange(seg_start(plan, i), plan[i] as int))
}

/// Law: the segments of a plan, concatenated in order, reproduce the first
/// `plan.last()` bytes of the buffer exactly — segmenting loses,
/// duplicates and reorders nothing.
pub proof fn lemma_segments_cover_prefix(b: Seq<u8>, plan: Seq<usize>)
    requires
        strictly_ascending(plan),
        plan.len() >= 1,
        plan[plan.len() - 1] as int <= b.len(),
    ensures
        plan_segments(b, plan).flatten() == b.take(plan[plan.len() - 1] as int),
    decreases plan.len(),
{
    let n = plan[plan.len() - 1] as int;
    if plan.len() == 1 {
        plan_segments(b, plan).lemma_flatten_singleton();
        assert(plan_segments(b, plan)[0] == b.subrange(0, n));
        assert(plan_segments(b, plan).flatten() =~= b.take(n));
    } else {
        let sub = plan.drop_last();
        let m = plan[plan.len() - 2] as int;
        assert(sub[sub.len() - 1] == plan[plan.len() - 2]);
        lemma_segments_cover_prefix(b, sub);
        assert(plan_segments(b, plan) =~= plan_segments(b, sub).push(b.subrange(m, n)));
        plan_segments(b, sub).lemma_flatten_push(b.subrange(m, n));
        assert(plan_segments(b, plan).flatten() =~= b.take(m) + b.subrange(m, n));
        assert(b.take(m) + b.subrange(m, n) =~= b.take(n));
    }
}

/// Turn a split plan for a read of `n` bytes into the ordered list of write
/// actions: the plan's segments in ascending order, where every action but
/// the last flushes and waits — and in a single-segment plan the only
/// action, being the last, never does (the hot path for ordinary traffic).
pub fn write_actions(plan: &Vec<usize>, n: usize) -> (acts: Vec<Segment>)
    requires
        strictly_ascending(plan@),
        plan@.len() >= 1,
        plan@[plan@.len() - 1] == n,
    ensures
        acts@.len() == plan@.len(),
        forall|i: int| 0 <= i < acts@.len() ==> acts@[i].start == seg_start(plan@, i),
        forall|i: int| 0 <= i < acts@.len() ==> acts@[i].end == plan@[i],
        forall|i: int| 0 <= i < acts@.len() ==> (acts@[i].flush_after <==> i + 1 < acts@.len()),
        plan@.len() == 1 ==> !acts@[0].flush_after,
        forall|i: int| 0 <= i < acts@.len() - 1 ==> acts@[i].flush_after,
{
    let mut acts: Vec<Segment> = Vec::new();
    let mut start: usize = 0;
    let mut i: usize = 0;
    while i < plan.len()
        invariant
            i <= plan@.len(),
            acts@.len() == i,
            start == seg_start(plan@, i as int),
            forall|j: int| 0 <= j < i ==> acts@[j].start == seg_start(plan@, j),
            forall|j: int| 0 <= j < i ==> acts@[j].end == plan@[j],
            forall|j: int| 0 <= j < i ==> (acts@[j].flush_after <==> j + 1 < plan@.len()),
        decreases plan@.len() - i,
    {
        let end = plan[i];
        let flush = i + 1 < plan.len();
        acts.push(Segment { start, end, flush_after: flush });
        start = end;
        i = i + 1;
    }
    acts
}

/// One step of the flush-wait poll loop: with `notsent` bytes still queued
/// unsent in the kernel and the current backoff `t`, either the flush is
/// complete, or the caller must sleep `t` time units and poll again with
/// the bumped backoff.
pub enum FlushStep {
    /// No unsent bytes remain: the segment has left the send queue.
    Done,
    /// Sleep for the first value, then poll again with the second as the
    /// new backoff.
    Sleep(u64, u64),
}

/// Decide the next move of the flush-wait loop from the kernel's count of
/// unsent bytes and the current backoff.
pub fn flush_step(notsent: u32, t: u64) -> (s: FlushStep)
    ensures
        notsent == 0 ==> s == FlushStep::Done,
        notsent != 0 ==> s == FlushStep::Sleep(t, bumped_backoff(t)),
{
    if notsent == 0 {
        FlushStep::Done
    } else {
        FlushStep::Sleep(t, next_backoff(t))
    }
}

/// The backoff cap, in time units, for the flush-wait poll loop.
pub const BACKOFF_CAP: u64 = 8;

/// The backoff a poll loop starts from.
pub const BACKOFF_START: u64 = 1;

/// The backoff that follows `t`: doubled until it reaches the cap, then held.
pub open spec fn bumped_backoff(t: u64) -> u64 {
    if t < BACKOFF_CAP {
        (2 * t) as u64
    } else {
        t
    }
}

/// Advance the flush-wait backoff one step: double it, capped at
/// `BACKOFF_CAP`. Starting from `BACKOFF_START` this yields 1, 2, 4, 8, 8, …
pub fn next_backoff(t: u64) -> (r: u64)
    ensures
        r == bumped_backoff(t),
{
    if t < BACKOFF_CAP {
        2 * t
    } else {
        t
    }
}

} // verus!
