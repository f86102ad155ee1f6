//! The load generator's bookkeeping: a small deterministic random generator,
//! so a seed reproduces a run exactly, and the marks its once-a-second report
//! measures rates against.
use vstd::prelude::*;

use crate::clock::{instant_now, nanos_since};

verus! {

/// The generator's state after seeding.
pub open spec fn seeded(seed: u64) -> u64 {
    vstd::wrapping::u64_specs::wrapping_add(
        vstd::wrapping::u64_specs::wrapping_mul(seed, 6364136223846793005u64),
        1442695040888963407u64,
    ) | 1u64
}

/// One xorshift step of the generator's state.
pub open spec fn xorshift(s: u64) -> u64 {
    let a = s ^ (s << 13u64);
    let b = a ^ (a >> 7u64);
    b ^ (b << 17u64)
}

/// A small deterministic generator. Nothing here needs to resist anything;
/// it needs to be the same twice.
pub struct Rng {
    state: u64,
}

impl View for Rng {
    type V = u64;

    closed spec fn view(&self) -> u64 {
        self.state
    }
}

impl Rng {
    /// A generator seeded from `seed`. The state is odd, so never zero.
    pub fn new(seed: u64) -> (r: Rng)
        ensures
            r@ == seeded(seed),
            r@ != 0,
    {
        let mixed = seed.wrapping_mul(6364136223846793005).wrapping_add(1442695040888963407);
        let s = mixed | 1;
        assert(s != 0) by (bit_vector)
            requires
                s == mixed | 1u64,
        ;
        Rng { state: s }
    }

    /// Advances the generator and returns the top 24 bits of its state: every
    /// value an `f32` can hold exactly in `[0, 1)` once divided by `2^24`.
    pub fn next_bits(&mut self) -> (r: u32)
        ensures
            final(self)@ == xorshift(old(self)@),
            r == (final(self)@ >> 40u64),
            r < 0x100_0000,
    {
        let mut s = self.state;
        s = s ^ (s << 13u64);
        s = s ^ (s >> 7u64);
        s = s ^ (s << 17u64);
        self.state = s;
        assert((s >> 40u64) < 0x100_0000u64) by (bit_vector);
        (s >> 40u64) as u32
    }
}

/// An xorshift step never turns a nonzero state into zero, so a seeded
/// generator never gets stuck.
pub proof fn lemma_generator_never_sticks(s: u64)
    requires
        s != 0,
    ensures
        xorshift(s) != 0,
{
    let a = s ^ (s << 13u64);
    let b = a ^ (a >> 7u64);
    assert(a != 0) by (bit_vector)
        requires
            s != 0,
            a == s ^ (s << 13u64),
    ;
    assert(b != 0) by (bit_vector)
        requires
            a != 0,
            b == a ^ (a >> 7u64),
    ;
    assert(b ^ (b << 17u64) != 0) by (bit_vector)
        requires
            b != 0,
    ;
}

/// Counts as of the last report: moves sent, packets received, updates
/// received.
pub type Marks = (u64, u64, u64);

/// The report printed once a second, with rates against the wall clock so a
/// run that falls behind says so.
pub struct Report {
    bots: usize,
    conns: usize,
    last: std::time::Instant,
    marks: Marks,
}

impl Report {
    /// The counts as of the last report.
    pub closed spec fn marked(&self) -> Marks {
        self.marks
    }

    /// The farmers and connections the run has.
    pub closed spec fn size(&self) -> (usize, usize) {
        (self.bots, self.conns)
    }

    /// How many farmers the run has.
    pub fn bots(&self) -> (r: usize)
        ensures
            r == self.size().0,
    {
        self.bots
    }

    /// How many connections they ride on.
    pub fn conns(&self) -> (r: usize)
        ensures
            r == self.size().1,
    {
        self.conns
    }

    /// A report for `bots` farmers over `conns` connections, with nothing
    /// counted yet and the clock starting now.
    pub fn new(bots: usize, conns: usize) -> (r: Report)
        ensures
            r.size() == (bots, conns),
            r.marked() == (0u64, 0u64, 0u64),
    {
        Report { bots, conns, last: instant_now(), marks: (0, 0, 0) }
    }

    /// Nanoseconds since the last report.
    pub fn nanos_since_last(&self) -> u128 {
        nanos_since(&self.last)
    }

    /// How far each count has moved since the last report, never below zero.
    pub fn since_marks(&self, counts: Marks) -> (r: Marks)
        ensures
            r.0 == (if counts.0 > self.marked().0 { counts.0 - self.marked().0 } else { 0 }),
            r.1 == (if counts.1 > self.marked().1 { counts.1 - self.marked().1 } else { 0 }),
            r.2 == (if counts.2 > self.marked().2 { counts.2 - self.marked().2 } else { 0 }),
    {
        (
            counts.0.saturating_sub(self.marks.0),
            counts.1.saturating_sub(self.marks.1),
            counts.2.saturating_sub(self.marks.2),
        )
    }

    /// Records the counts just reported and restarts the clock.
    pub fn mark(&mut self, counts: Marks)
        ensures
            final(self).marked() == counts,
            final(self).size() == old(self).size(),
    {
        self.marks = counts;
        self.last = instant_now();
    }
}

} // verus!
