//! The memory accountant: a counter of net allocated bytes.
//!
//! `ByteCounter` is the sequential model of the counter: one value, adjusted
//! with the wrapping arithmetic of an atomic add or subtract. `SharedCounter`
//! is the same counter behind an atomic cell, for concurrent callers.

use vstd::prelude::*;
use std::sync::atomic::AtomicUsize;
use std::sync::atomic::Ordering;

verus! {

/// One allocation or deallocation of a number of bytes.
#[derive(Clone, Copy, Debug)]
pub enum AllocEvent {
    Alloc(usize),
    Dealloc(usize),
}

/// The number of distinct values of the counter.
pub open spec fn counter_modulus() -> int {
    usize::MAX + 1
}

/// The counter after `size` bytes were added to `value`, wrapping at the top.
pub open spec fn value_after_alloc(value: usize, size: usize) -> usize {
    if value + size > usize::MAX {
        (value + size - counter_modulus()) as usize
    } else {
        (value + size) as usize
    }
}

/// The counter after `size` bytes were taken from `value`, wrapping at zero.
pub open spec fn value_after_dealloc(value: usize, size: usize) -> usize {
    if value < size {
        (value - size + counter_modulus()) as usize
    } else {
        (value - size) as usize
    }
}

/// The counter after one event.
pub open spec fn value_after_event(value: usize, event: AllocEvent) -> usize {
    match event {
        AllocEvent::Alloc(size) => value_after_alloc(value, size),
        AllocEvent::Dealloc(size) => value_after_dealloc(value, size),
    }
}

/// The counter after a sequence of events, applied first to last.
pub open spec fn value_after_events(value: usize, events: Seq<AllocEvent>) -> usize
    decreases events.len(),
{
    if events.len() == 0 {
        value
    } else {
        value_after_event(value_after_events(value, events.drop_last()), events.last())
    }
}

/// The signed number of bytes that one event adds.
pub open spec fn event_bytes(event: AllocEvent) -> int {
    match event {
        AllocEvent::Alloc(size) => size as int,
        AllocEvent::Dealloc(size) => -(size as int),
    }
}

/// The bytes allocated less the bytes released over a sequence of events.
pub open spec fn net_bytes(events: Seq<AllocEvent>) -> int
    decreases events.len(),
{
    if events.len() == 0 {
        0
    } else {
        net_bytes(events.drop_last()) + event_bytes(events.last())
    }
}

/// One allocation for each size, in order.
pub open spec fn allocs_of(sizes: Seq<usize>) -> Seq<AllocEvent> {
    Seq::new(sizes.len(), |i: int| AllocEvent::Alloc(sizes[i]))
}

/// One deallocation for each size, in order.
pub open spec fn deallocs_of(sizes: Seq<usize>) -> Seq<AllocEvent> {
    Seq::new(sizes.len(), |i: int| AllocEvent::Dealloc(sizes[i]))
}

/// A counter of net allocated bytes.
#[derive(Clone, Copy, Debug)]
pub struct ByteCounter {
    live: usize,
}

impl View for ByteCounter {
    type V = usize;

    closed spec fn view(&self) -> usize {
        self.live
    }
}

impl ByteCounter {
    /// A counter that has seen no event.
    pub fn new() -> (counter: ByteCounter)
        ensures
            counter@ == 0,
    {
        ByteCounter { live: 0 }
    }

    /// A counter that continues from an earlier snapshot.
    pub fn from_snapshot(value: usize) -> (counter: ByteCounter)
        ensures
            counter@ == value,
    {
        ByteCounter { live: value }
    }

    /// Counts an allocation of `size` bytes.
    pub fn record_alloc(&mut self, size: usize)
        ensures
            final(self)@ == value_after_alloc(old(self)@, size),
    {
        self.live = self.live.wrapping_add(size);
    }

    /// Counts a deallocation of `size` bytes.
    pub fn record_dealloc(&mut self, size: usize)
        ensures
            final(self)@ == value_after_dealloc(old(self)@, size),
    {
        self.live = self.live.wrapping_sub(size);
    }

    /// Counts one event.
    pub fn record(&mut self, event: AllocEvent)
        ensures
            final(self)@ == value_after_event(old(self)@, event),
    {
        match event {
            AllocEvent::Alloc(size) => self.record_alloc(size),
            AllocEvent::Dealloc(size) => self.record_dealloc(size),
        }
    }

    /// Counts a sequence of events, first to last.
    pub fn record_all(&mut self, events: &Vec<AllocEvent>)
        ensures
            final(self)@ == value_after_events(old(self)@, events@),
    {
        let mut i: usize = 0;
        while i < events.len()
            invariant
                i <= events.len(),
                self@ == value_after_events(old(self)@, events@.take(i as int)),
            decreases events.len() - i,
        {
            proof {
                let next = events@.take(i + 1);
                assert(next.drop_last() =~= events@.take(i as int));
                assert(next.last() == events@[i as int]);
            }
            self.record(events[i]);
            i = i + 1;
        }
        proof {
            assert(events@.take(i as int) =~= events@);
        }
    }

    /// The counter's present value.
    pub fn snapshot(&self) -> (value: usize)
        ensures
            value == self@,
    {
        self.live
    }
}

/// A counter of net allocated bytes that many threads may adjust at once.
/// Every operation is a single relaxed atomic step and never blocks. What a
/// snapshot returns depends on the other callers, so nothing is stated of
/// it; the arithmetic of each step is that of `ByteCounter`.
pub struct SharedCounter {
    cell: AtomicUsize,
}

impl SharedCounter {
    /// A counter that starts at zero.
    pub fn new() -> (counter: SharedCounter) {
        SharedCounter { cell: AtomicUsize::new(0) }
    }

    /// Adds `size` bytes and returns the value just before.
    pub fn record_alloc(&self, size: usize) -> (before: usize) {
        self.cell.fetch_add(size, Ordering::Relaxed)
    }

    /// Takes off `size` bytes and returns the value just before.
    pub fn record_dealloc(&self, size: usize) -> (before: usize) {
        self.cell.fetch_sub(size, Ordering::Relaxed)
    }

    /// The value at some moment during the call.
    pub fn snapshot(&self) -> (value: usize) {
        self.cell.load(Ordering::Relaxed)
    }
}

/// An allocation followed by a deallocation of the same size leaves the
/// counter where it was.
pub proof fn lemma_alloc_then_dealloc_restores(value: usize, size: usize)
    ensures
        value_after_dealloc(value_after_alloc(value, size), size) == value,
{
}

/// The counter after a sequence of events differs from the starting value
/// plus the net bytes by a whole number of wraps.
pub proof fn lemma_value_tracks_net_bytes(value: usize, events: Seq<AllocEvent>) -> (wraps: int)
    ensures
        value_after_events(value, events) == value + net_bytes(events) + wraps * counter_modulus(),
    decreases events.len(),
{
    if events.len() == 0 {
        0
    } else {
        let before = lemma_value_tracks_net_bytes(value, events.drop_last());
        let mid = value_after_events(value, events.drop_last());
        let after = value_after_event(mid, events.last());
        let m = counter_modulus();
        let excess = after - mid - event_bytes(events.last());
        assert(excess == 0 || excess == m || excess == -m);
        let w: int = if excess == 0 {
            0
        } else if excess == m {
            1
        } else {
            -1
        };
        assert(w * m == excess) by (nonlinear_arith)
            requires
                (w == 0 && excess == 0) || (w == 1 && excess == m) || (w == -1 && excess == -m),
        ;
        assert((before + w) * m == before * m + w * m) by (nonlinear_arith);
        before + w
    }
}

/// A sequence of events whose allocated and released bytes are equal in sum
/// leaves the counter where it was, in whatever order the events come.
pub proof fn lemma_balanced_events_restore(value: usize, events: Seq<AllocEvent>)
    requires
        net_bytes(events) == 0,
    ensures
        value_after_events(value, events) == value,
{
    let wraps = lemma_value_tracks_net_bytes(value, events);
    let m = counter_modulus();
    assert(wraps == 0) by (nonlinear_arith)
        requires
            0 <= value < m,
            0 <= value + wraps * m < m,
    ;
}

/// The net bytes of two sequences of events, one after the other, is the sum
/// of their net bytes.
pub proof fn lemma_net_bytes_concat(first: Seq<AllocEvent>, second: Seq<AllocEvent>)
    ensures
        net_bytes(first + second) == net_bytes(first) + net_bytes(second),
    decreases second.len(),
{
    if second.len() == 0 {
        assert(first + second =~= first);
    } else {
        lemma_net_bytes_concat(first, second.drop_last());
        assert((first + second).drop_last() =~= first + second.drop_last());
        assert((first + second).last() == second.last());
    }
}

/// Allocations of given sizes and deallocations of the same sizes cancel.
pub proof fn lemma_matched_sizes_cancel(sizes: Seq<usize>)
    ensures
        net_bytes(allocs_of(sizes)) + net_bytes(deallocs_of(sizes)) == 0,
    decreases sizes.len(),
{
    if sizes.len() > 0 {
        lemma_matched_sizes_cancel(sizes.drop_last());
        assert(allocs_of(sizes).drop_last() =~= allocs_of(sizes.drop_last()));
        assert(deallocs_of(sizes).drop_last() =~= deallocs_of(sizes.drop_last()));
    }
}

/// After one allocation for each of a list of sizes and one deallocation for
/// each of the same sizes, the counter is back at its earlier value.
pub proof fn lemma_matched_calls_restore(value: usize, sizes: Seq<usize>)
    ensures
        value_after_events(value, allocs_of(sizes) + deallocs_of(sizes)) == value,
{
    lemma_matched_sizes_cancel(sizes);
    lemma_net_bytes_concat(allocs_of(sizes), deallocs_of(sizes));
    lemma_balanced_events_restore(value, allocs_of(sizes) + deallocs_of(sizes));
}

} // verus!
