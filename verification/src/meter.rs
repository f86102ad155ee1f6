//! Tick cost accounting for the region server.
//!
//! The simulation reports each tick; the meter folds them into a window and
//! hands the window over once the reporting interval has passed, starting a
//! fresh one. Durations are held as whole nanoseconds.
use vstd::prelude::*;

use crate::clock::{instant_now, nanos_since};

verus! {

/// What the simulation reports of one tick.
#[derive(Clone, Copy, Debug, PartialEq, Eq, Structural)]
pub struct TickSample {
    /// Time inside the tick.
    pub took_nanos: u64,
    /// How late the tick started against its deadline; zero if on time.
    pub late_nanos: u64,
    pub viewers: u64,
    pub candidates: u64,
    pub records: u64,
    pub bytes: u64,
    pub new_ghosts: u64,
    pub departed: u64,
    /// Nanoseconds inside the payload sink, summed across workers.
    pub sink_nanos: u64,
}

/// The ticks of one reporting window.
pub struct Window {
    /// Every tick's duration, in the order the ticks ran. Kept whole so
    /// percentiles are exact.
    pub took: Vec<u64>,
    /// How late each late tick was, in order; ticks on time are left out.
    pub late: Vec<u64>,
    pub viewers: u64,
    pub candidates: u64,
    pub records: u64,
    pub bytes: u64,
    pub new_ghosts: u64,
    pub departed: u64,
    pub sink_nanos: u64,
}

/// A window with nothing in it.
pub open spec fn is_empty_window(w: Window) -> bool {
    &&& w.took@ == Seq::<u64>::empty()
    &&& w.late@ == Seq::<u64>::empty()
    &&& w.viewers == 0
    &&& w.candidates == 0
    &&& w.records == 0
    &&& w.bytes == 0
    &&& w.new_ghosts == 0
    &&& w.departed == 0
    &&& w.sink_nanos == 0
}

/// The counters of `w` can take one more tick's without overflowing.
pub open spec fn can_fold(w: Window, s: TickSample) -> bool {
    &&& w.viewers + s.viewers <= u64::MAX
    &&& w.candidates + s.candidates <= u64::MAX
    &&& w.records + s.records <= u64::MAX
    &&& w.bytes + s.bytes <= u64::MAX
    &&& w.new_ghosts + s.new_ghosts <= u64::MAX
    &&& w.departed + s.departed <= u64::MAX
    &&& w.sink_nanos + s.sink_nanos <= u64::MAX
}

/// `after` is `before` with one more tick folded in: its duration appended,
/// its lateness appended if it was late, and its counts added.
pub open spec fn folded(before: Window, s: TickSample, after: Window) -> bool {
    &&& after.took@ == before.took@.push(s.took_nanos)
    &&& after.late@ == (if s.late_nanos != 0 {
        before.late@.push(s.late_nanos)
    } else {
        before.late@
    })
    &&& after.viewers == before.viewers + s.viewers
    &&& after.candidates == before.candidates + s.candidates
    &&& after.records == before.records + s.records
    &&& after.bytes == before.bytes + s.bytes
    &&& after.new_ghosts == before.new_ghosts + s.new_ghosts
    &&& after.departed == before.departed + s.departed
    &&& after.sink_nanos == before.sink_nanos + s.sink_nanos
}

impl Window {
    /// A window with nothing in it.
    pub fn new() -> (r: Window)
        ensures
            is_empty_window(r),
    {
        Window {
            took: Vec::new(),
            late: Vec::new(),
            viewers: 0,
            candidates: 0,
            records: 0,
            bytes: 0,
            new_ghosts: 0,
            departed: 0,
            sink_nanos: 0,
        }
    }

    /// Folds in one tick.
    pub fn fold(&mut self, s: &TickSample)
        requires
            can_fold(*old(self), *s),
        ensures
            folded(*old(self), *s, *final(self)),
    {
        self.took.push(s.took_nanos);
        if s.late_nanos != 0 {
            self.late.push(s.late_nanos);
        }
        self.viewers = self.viewers + s.viewers;
        self.candidates = self.candidates + s.candidates;
        self.records = self.records + s.records;
        self.bytes = self.bytes + s.bytes;
        self.new_ghosts = self.new_ghosts + s.new_ghosts;
        self.departed = self.departed + s.departed;
        self.sink_nanos = self.sink_nanos + s.sink_nanos;
    }
}

/// The entry a nearest rank picks from a list of `len`: rank `n` is entry
/// `n - 1`, rank 0 reads as the first and a rank past the end as the last.
pub open spec fn rank_index(rank: int, len: int) -> int {
    let i = if rank >= 1 { rank - 1 } else { 0 };
    if i < len - 1 { i } else { len - 1 }
}

/// The value at a nearest rank of a sorted list, or zero for an empty one
/// rather than a panic. The rank is the ceiling of the quantile times the
/// length, worked out by the caller.
pub fn at_rank(sorted: &[u64], rank: usize) -> (r: u64)
    ensures
        sorted@.len() == 0 ==> r == 0,
        sorted@.len() > 0 ==> r == sorted@[rank_index(rank as int, sorted@.len() as int)],
{
    if sorted.len() == 0 {
        return 0;
    }
    let i = rank.saturating_sub(1);
    let last = sorted.len() - 1;
    let pick = if i < last {
        i
    } else {
        last
    };
    sorted[pick]
}

/// The largest of a list, or zero for an empty one.
pub fn longest(values: &[u64]) -> (r: u64)
    ensures
        forall|i: int| 0 <= i < values@.len() ==> values@[i] <= r,
        values@.len() == 0 ==> r == 0,
        values@.len() > 0 ==> values@.contains(r),
{
    let mut best: u64 = 0;
    let mut i: usize = 0;
    while i < values.len()
        invariant
            i <= values@.len(),
            forall|j: int| 0 <= j < i ==> values@[j] <= best,
            i == 0 ==> best == 0,
            i > 0 ==> exists|j: int| 0 <= j < i && values@[j] == best,
        decreases values@.len() - i,
    {
        if values[i] >= best {
            best = values[i];
        }
        i = i + 1;
    }
    best
}

/// Accumulates ticks and hands over a window every `every` nanoseconds.
pub struct Meter {
    every_nanos: u128,
    since: std::time::Instant,
    window: Window,
    threads: usize,
}

impl Meter {
    /// The reporting interval, in nanoseconds.
    pub closed spec fn every(&self) -> u128 {
        self.every_nanos
    }

    /// The ticks of the window so far.
    pub closed spec fn window(&self) -> Window {
        self.window
    }

    /// The worker count, for turning summed sink time back into per-tick cost.
    pub closed spec fn threads(&self) -> usize {
        self.threads
    }

    /// The clock reading at which the current window started.
    pub closed spec fn started(&self) -> std::time::Instant {
        self.since
    }

    /// A meter reporting every `every_nanos` nanoseconds, with an empty window
    /// starting now and one worker.
    pub fn new(every_nanos: u128) -> (r: Meter)
        ensures
            r.every() == every_nanos,
            is_empty_window(r.window()),
            r.threads() == 1,
    {
        Meter { every_nanos, since: instant_now(), window: Window::new(), threads: 1 }
    }

    /// Sets the worker count, treating zero as one.
    pub fn with_threads(self, threads: usize) -> (r: Meter)
        ensures
            r.threads() == (if threads > 1 {
                threads
            } else {
                1
            }),
            r.every() == self.every(),
            r.window() == self.window(),
            r.started() == self.started(),
    {
        let mut m = self;
        m.threads = if threads > 1 {
            threads
        } else {
            1
        };
        m
    }

    /// The worker count.
    pub fn thread_count(&self) -> (r: usize)
        ensures
            r == self.threads(),
    {
        self.threads
    }

    /// Whether one more tick can be folded into the window without a counter
    /// overflowing.
    pub fn can_observe(&self, s: &TickSample) -> (r: bool)
        ensures
            r == can_fold(self.window(), *s),
    {
        let w = &self.window;
        w.viewers <= u64::MAX - s.viewers && w.candidates <= u64::MAX - s.candidates && w.records
            <= u64::MAX - s.records && w.bytes <= u64::MAX - s.bytes && w.new_ghosts <= u64::MAX
            - s.new_ghosts && w.departed <= u64::MAX - s.departed && w.sink_nanos <= u64::MAX
            - s.sink_nanos
    }

    /// Starts a fresh window from now.
    pub fn reset(&mut self)
        ensures
            is_empty_window(final(self).window()),
            final(self).every() == old(self).every(),
            final(self).threads() == old(self).threads(),
    {
        self.since = instant_now();
        self.window = Window::new();
    }

    /// Folds in one tick, `span` nanoseconds after the window started. Once
    /// `span` reaches the interval, hands the window over, with the tick in it
    /// and `span`, and starts a fresh one from now; otherwise keeps it, and
    /// keeps its start.
    pub fn observe_at(&mut self, s: &TickSample, span: u128) -> (r: Option<(Window, u128)>)
        requires
            can_fold(old(self).window(), *s),
        ensures
            final(self).every() == old(self).every(),
            final(self).threads() == old(self).threads(),
            r is Some <==> span >= old(self).every(),
            match r {
                Some((w, t)) => {
                    &&& t == span
                    &&& folded(old(self).window(), *s, w)
                    &&& is_empty_window(final(self).window())
                },
                None => {
                    &&& folded(old(self).window(), *s, final(self).window())
                    &&& final(self).started() == old(self).started()
                },
            },
    {
        self.window.fold(s);
        if span >= self.every_nanos {
            let mut done = Window::new();
            std::mem::swap(&mut done, &mut self.window);
            self.since = instant_now();
            Some((done, span))
        } else {
            None
        }
    }

    /// Folds in one tick. Once the interval has passed since the window
    /// started, by the clock, hands the window over, with the tick in it and
    /// how long it ran in nanoseconds, and starts a fresh one; otherwise keeps
    /// it. What the clock reads decides which; either way the tick is folded.
    pub fn observe(&mut self, s: &TickSample) -> (r: Option<(Window, u128)>)
        requires
            can_fold(old(self).window(), *s),
        ensures
            final(self).every() == old(self).every(),
            final(self).threads() == old(self).threads(),
            match r {
                Some((w, span)) => {
                    &&& folded(old(self).window(), *s, w)
                    &&& is_empty_window(final(self).window())
                    &&& span >= old(self).every()
                },
                None => {
                    &&& folded(old(self).window(), *s, final(self).window())
                    &&& final(self).started() == old(self).started()
                },
            },
    {
        let span = nanos_since(&self.since);
        self.observe_at(s, span)
    }
}

} // verus!
