//! How often a client is told where its own entity is, from the sightings of
//! a walker heading one way.
//!
//! A walk is a fixed distance per tick, so the ground covered between two
//! sightings has to be the gap between them times that step; the error is how
//! far it was off. The gaps themselves are what a person sees: the client draws
//! two ticks behind, so a gap wider than that is a stall followed by a jump.
use vstd::prelude::*;

verus! {

/// Ticks the client draws behind the newest sample. A gap wider than this
/// leaves it holding a stale position.
pub const INTERP_DELAY_TICKS: u32 = 2;

/// One sighting of the walker: the tick and where it stood, in raw units.
#[derive(Clone, Copy, Debug, PartialEq, Eq, Structural)]
pub struct Seen {
    pub tick: u32,
    pub x: i32,
    pub y: i32,
}

/// Ticks between sighting `i` and the next, or zero where the next is not
/// later.
pub open spec fn pair_gap(seen: Seq<Seen>, i: int) -> int {
    if seen[i + 1].tick > seen[i].tick {
        seen[i + 1].tick - seen[i].tick
    } else {
        0
    }
}

pub open spec fn abs(v: int) -> int {
    if v < 0 {
        -v
    } else {
        v
    }
}

/// How far the ground covered between sighting `i` and the next is from the
/// gap times one step, on the worse axis.
pub open spec fn pair_error(seen: Seq<Seen>, step: (i32, i32), i: int) -> int {
    let gap = pair_gap(seen, i);
    let ex = abs((seen[i + 1].x - seen[i].x) - step.0 * gap);
    let ey = abs((seen[i + 1].y - seen[i].y) - step.1 * gap);
    if ex >= ey {
        ex
    } else {
        ey
    }
}

/// The arithmetic for the pair starting at sighting `i` stays within the
/// integer widths it is done in.
pub open spec fn pair_fits(seen: Seq<Seen>, step: (i32, i32), i: int) -> bool {
    let gap = pair_gap(seen, i);
    let dx = seen[i + 1].x - seen[i].x;
    let dy = seen[i + 1].y - seen[i].y;
    &&& gap <= i32::MAX
    &&& i32::MIN < dx <= i32::MAX
    &&& i32::MIN < dy <= i32::MAX
    &&& i32::MIN <= step.0 * gap <= i32::MAX
    &&& i32::MIN <= step.1 * gap <= i32::MAX
    &&& i32::MIN < dx - step.0 * gap <= i32::MAX
    &&& i32::MIN < dy - step.1 * gap <= i32::MAX
}

/// The positive gaps among the first `k` pairs, in order.
pub open spec fn gaps_upto(seen: Seq<Seen>, k: int) -> Seq<u32>
    decreases k,
{
    if k <= 0 {
        Seq::empty()
    } else if pair_gap(seen, k - 1) > 0 {
        gaps_upto(seen, k - 1).push(pair_gap(seen, k - 1) as u32)
    } else {
        gaps_upto(seen, k - 1)
    }
}

/// The worst error among the first `k` pairs that have a gap, or zero.
pub open spec fn worst_upto(seen: Seq<Seen>, step: (i32, i32), k: int) -> int
    decreases k,
{
    if k <= 0 {
        0
    } else {
        let w = worst_upto(seen, step, k - 1);
        if pair_gap(seen, k - 1) > 0 && pair_error(seen, step, k - 1) > w {
            pair_error(seen, step, k - 1)
        } else {
            w
        }
    }
}

/// The errors among the first `k` pairs that have a gap, added up.
pub open spec fn total_upto(seen: Seq<Seen>, step: (i32, i32), k: int) -> int
    decreases k,
{
    if k <= 0 {
        0
    } else if pair_gap(seen, k - 1) > 0 {
        total_upto(seen, step, k - 1) + pair_error(seen, step, k - 1)
    } else {
        total_upto(seen, step, k - 1)
    }
}

/// The smallest nonzero movement on either axis among the first `k` pairs
/// that have a gap: the wire's quantum, as far as the run shows it.
pub open spec fn quantum_upto(seen: Seq<Seen>, k: int) -> int
    decreases k,
{
    if k <= 0 {
        i32::MAX as int
    } else {
        let q = quantum_upto(seen, k - 1);
        if pair_gap(seen, k - 1) > 0 {
            let ax = abs(seen[k].x - seen[k - 1].x);
            let ay = abs(seen[k].y - seen[k - 1].y);
            let q1 = if ax > 0 && ax < q {
                ax
            } else {
                q
            };
            if ay > 0 && ay < q1 {
                ay
            } else {
                q1
            }
        } else {
            q
        }
    }
}

/// How many of the first `k` pairs have a gap wider than the draw delay.
pub open spec fn stalled_upto(seen: Seq<Seen>, k: int) -> int
    decreases k,
{
    if k <= 0 {
        0
    } else if pair_gap(seen, k - 1) > INTERP_DELAY_TICKS {
        stalled_upto(seen, k - 1) + 1
    } else {
        stalled_upto(seen, k - 1)
    }
}

/// What a walk's sightings show.
pub struct Cadence {
    /// The gap of every pair of consecutive sightings a tick or more apart,
    /// in order.
    pub gaps: Vec<u32>,
    /// The worst error, in raw units.
    pub worst_error: i32,
    /// The errors added up, for the mean.
    pub total_error: i64,
    /// The smallest nonzero movement seen on an axis.
    pub quantum: i32,
    /// Gaps wider than the draw delay: what stalls.
    pub stalled: usize,
    /// Ticks from the first sighting to the last.
    pub spanned: u32,
}

/// Whether `b` holds the values of `a`, each as often, smallest first.
pub open spec fn sorted_copy(a: Seq<u32>, b: Seq<u32>) -> bool {
    &&& b.to_multiset() == a.to_multiset()
    &&& forall|i: int, j: int| 0 <= i <= j < b.len() ==> b[i] <= b[j]
}

impl Cadence {
    /// The gaps, smallest first.
    pub fn gaps_in_order(&self) -> (r: Vec<u32>)
        ensures
            sorted_copy(self.gaps@, r@),
    {
        let mut out: Vec<u32> = Vec::new();
        let mut i: usize = 0;
        proof {
            broadcast use vstd::seq_lib::group_to_multiset_ensures;

            assert(self.gaps@.take(0) =~= out@);
        }
        while i < self.gaps.len()
            invariant
                i <= self.gaps@.len(),
                sorted_copy(self.gaps@.take(i as int), out@),
            decreases self.gaps@.len() - i,
        {
            let x = self.gaps[i];
            let mut j: usize = 0;
            while j < out.len() && out[j] <= x
                invariant
                    j <= out@.len(),
                    forall|k: int| 0 <= k < j ==> out@[k] <= x,
                decreases out@.len() - j,
            {
                j = j + 1;
            }
            let ghost before = out@;
            out.insert(j, x);
            proof {
                broadcast use vstd::seq_lib::group_to_multiset_ensures;

                assert(self.gaps@.take(i + 1) =~= self.gaps@.take(i as int).push(x));
                assert forall|a: int, b: int| 0 <= a <= b < out@.len() implies out@[a] <= out@[b] by {
                    if a < j && b > j {
                        assert(before[a] <= before[b - 1]);
                    } else if a == j && b > j {
                        assert(before[j as int] <= before[b - 1]);
                    } else if a > j {
                        assert(before[a - 1] <= before[b - 1]);
                    }
                }
            }
            i = i + 1;
        }
        assert(self.gaps@.take(self.gaps@.len() as int) =~= self.gaps@);
        out
    }

    /// The middle gap and the widest, read off the gaps in order of size: the
    /// one at half the count, rounded down, and the last.
    pub fn gap_median_and_worst(&self) -> (r: (u32, u32))
        requires
            self.gaps@.len() > 0,
        ensures
            exists|b: Seq<u32>|
                #[trigger] sorted_copy(self.gaps@, b) && r.0 == b[(b.len() / 2) as int] && r.1 == b[b.len()
                    - 1],
    {
        let sorted = self.gaps_in_order();
        proof {
            broadcast use vstd::seq_lib::group_to_multiset_ensures;

            assert(sorted@.len() == sorted@.to_multiset().len());
            assert(self.gaps@.len() == self.gaps@.to_multiset().len());
        }
        let n = sorted.len();
        (sorted[n / 2], sorted[n - 1])
    }

    /// Whether the walk never skipped or doubled a step: the worst error is no
    /// more than the wire's quantum.
    pub fn kept_pace(&self) -> (r: bool)
        ensures
            r == (self.worst_error <= self.quantum),
    {
        self.worst_error <= self.quantum
    }
}

/// The worst error is no less than how far any measured pair strayed from one
/// step per tick on either axis, and the error total is no less than that
/// either: for every pair of consecutive sightings a tick or more apart, the
/// ground covered on each axis, less the gap times the step on that axis, lies
/// within the worst error and within the total, whichever way it is off.
pub proof fn lemma_errors_cover_every_axis(seen: Seq<Seen>, step: (i32, i32), k: int, i: int)
    requires
        0 <= i < k < seen.len(),
        seen[i + 1].tick > seen[i].tick,
    ensures
        ({
            let gap = seen[i + 1].tick - seen[i].tick;
            let off_x = (seen[i + 1].x - seen[i].x) - step.0 * gap;
            let off_y = (seen[i + 1].y - seen[i].y) - step.1 * gap;
            &&& -worst_upto(seen, step, k) <= off_x <= worst_upto(seen, step, k)
            &&& -worst_upto(seen, step, k) <= off_y <= worst_upto(seen, step, k)
            &&& -total_upto(seen, step, k) <= off_x <= total_upto(seen, step, k)
            &&& -total_upto(seen, step, k) <= off_y <= total_upto(seen, step, k)
        }),
    decreases k,
{
    lemma_errors_never_negative(seen, step, k);
    if k - 1 > i {
        lemma_errors_cover_every_axis(seen, step, k - 1, i);
        lemma_errors_never_negative(seen, step, k - 1);
        if pair_gap(seen, k - 1) > 0 {
            lemma_pair_error_never_negative(seen, step, k - 1);
        }
    } else {
        lemma_errors_never_negative(seen, step, i);
    }
}

/// The worst error is zero or the larger axis deviation of some pair that was
/// measured: it is always a deviation that was actually seen.
pub proof fn lemma_worst_error_was_seen(seen: Seq<Seen>, step: (i32, i32), k: int)
    requires
        0 <= k < seen.len(),
    ensures
        worst_upto(seen, step, k) == 0 || exists|i: int|
            #![trigger seen[i]]
            0 <= i < k && seen[i + 1].tick > seen[i].tick && {
                let gap = seen[i + 1].tick - seen[i].tick;
                let off_x = (seen[i + 1].x - seen[i].x) - step.0 * gap;
                let off_y = (seen[i + 1].y - seen[i].y) - step.1 * gap;
                ||| worst_upto(seen, step, k) == off_x
                ||| worst_upto(seen, step, k) == -off_x
                ||| worst_upto(seen, step, k) == off_y
                ||| worst_upto(seen, step, k) == -off_y
            },
    decreases k,
{
    if k > 0 {
        lemma_worst_error_was_seen(seen, step, k - 1);
        if worst_upto(seen, step, k) != worst_upto(seen, step, k - 1) {
            assert(seen[k].tick > seen[k - 1].tick);
        } else if worst_upto(seen, step, k - 1) != 0 {
            let i = choose|i: int|
                #![trigger seen[i]]
                0 <= i < k - 1 && seen[i + 1].tick > seen[i].tick && {
                    let gap = seen[i + 1].tick - seen[i].tick;
                    let off_x = (seen[i + 1].x - seen[i].x) - step.0 * gap;
                    let off_y = (seen[i + 1].y - seen[i].y) - step.1 * gap;
                    ||| worst_upto(seen, step, k - 1) == off_x
                    ||| worst_upto(seen, step, k - 1) == -off_x
                    ||| worst_upto(seen, step, k - 1) == off_y
                    ||| worst_upto(seen, step, k - 1) == -off_y
                };
            assert(0 <= i < k);
        }
    }
}

/// The sum of some gaps.
pub open spec fn sum_of(s: Seq<u32>) -> int
    decreases s.len(),
{
    if s.len() == 0 {
        0
    } else {
        sum_of(s.drop_last()) + s.last()
    }
}

/// How many of some gaps are wider than `t`.
pub open spec fn count_wider(s: Seq<u32>, t: u32) -> int
    decreases s.len(),
{
    if s.len() == 0 {
        0
    } else {
        count_wider(s.drop_last(), t) + if s.last() > t {
            1int
        } else {
            0
        }
    }
}

/// The gaps are the ticks that passed between sightings: every one is
/// positive, there is one for each pair a tick or more apart, and while ticks
/// never go back they add up to the ticks from the first sighting to the
/// last. The stalls are the gaps wider than the draw delay.
pub proof fn lemma_gaps_add_up_to_the_run(seen: Seq<Seen>, k: int)
    requires
        0 <= k < seen.len(),
    ensures
        forall|j: int| 0 <= j < gaps_upto(seen, k).len() ==> #[trigger] gaps_upto(seen, k)[j] > 0,
        gaps_upto(seen, k).len() <= k,
        (forall|i: int| 0 <= i < k ==> #[trigger] seen[i].tick <= seen[i + 1].tick) ==> sum_of(
            gaps_upto(seen, k),
        ) == seen[k].tick - seen[0].tick,
        stalled_upto(seen, k) == count_wider(gaps_upto(seen, k), INTERP_DELAY_TICKS),
    decreases k,
{
    if k > 0 {
        lemma_gaps_add_up_to_the_run(seen, k - 1);
        let g = gaps_upto(seen, k - 1);
        if pair_gap(seen, k - 1) > 0 {
            assert(gaps_upto(seen, k).drop_last() =~= g);
        }
        if forall|i: int| 0 <= i < k ==> #[trigger] seen[i].tick <= seen[i + 1].tick {
            assert(forall|i: int| 0 <= i < k - 1 ==> #[trigger] seen[i].tick <= seen[i + 1].tick);
            assert(seen[k - 1].tick <= seen[k].tick);
        }
    }
}

/// The quantum is the smallest movement seen: no measured pair moved a
/// nonzero distance shorter than it on either axis, and unless nothing moved
/// it is the distance some measured pair moved on one axis.
pub proof fn lemma_quantum_is_the_smallest_move(seen: Seq<Seen>, k: int)
    requires
        0 <= k < seen.len(),
    ensures
        forall|i: int|
            #![trigger seen[i]]
            0 <= i < k && seen[i + 1].tick > seen[i].tick ==> {
                let dx = seen[i + 1].x - seen[i].x;
                let dy = seen[i + 1].y - seen[i].y;
                &&& (dx == 0 || dx >= quantum_upto(seen, k) || -dx >= quantum_upto(seen, k))
                &&& (dy == 0 || dy >= quantum_upto(seen, k) || -dy >= quantum_upto(seen, k))
            },
        quantum_upto(seen, k) == i32::MAX || exists|i: int|
            #![trigger seen[i]]
            0 <= i < k && seen[i + 1].tick > seen[i].tick && {
                let dx = seen[i + 1].x - seen[i].x;
                let dy = seen[i + 1].y - seen[i].y;
                ||| quantum_upto(seen, k) == dx
                ||| quantum_upto(seen, k) == -dx
                ||| quantum_upto(seen, k) == dy
                ||| quantum_upto(seen, k) == -dy
            },
    decreases k,
{
    if k > 0 {
        lemma_quantum_is_the_smallest_move(seen, k - 1);
        assert(quantum_upto(seen, k) <= quantum_upto(seen, k - 1));
        if quantum_upto(seen, k) != quantum_upto(seen, k - 1) {
            assert(seen[k].tick > seen[k - 1].tick);
        } else if quantum_upto(seen, k - 1) != i32::MAX {
            let i = choose|i: int|
                #![trigger seen[i]]
                0 <= i < k - 1 && seen[i + 1].tick > seen[i].tick && {
                    let dx = seen[i + 1].x - seen[i].x;
                    let dy = seen[i + 1].y - seen[i].y;
                    ||| quantum_upto(seen, k - 1) == dx
                    ||| quantum_upto(seen, k - 1) == -dx
                    ||| quantum_upto(seen, k - 1) == dy
                    ||| quantum_upto(seen, k - 1) == -dy
                };
            assert(0 <= i < k);
        }
    }
}

/// A pair's error is never negative.
proof fn lemma_pair_error_never_negative(seen: Seq<Seen>, step: (i32, i32), i: int)
    ensures
        pair_error(seen, step, i) >= 0,
{
}

/// Neither the worst error nor the total is ever negative.
proof fn lemma_errors_never_negative(seen: Seq<Seen>, step: (i32, i32), k: int)
    ensures
        worst_upto(seen, step, k) >= 0,
        total_upto(seen, step, k) >= 0,
    decreases k,
{
    if k > 0 {
        lemma_errors_never_negative(seen, step, k - 1);
        lemma_pair_error_never_negative(seen, step, k - 1);
    }
}

proof fn lemma_worst_bounds(seen: Seq<Seen>, step: (i32, i32), k: int)
    requires
        0 <= k < seen.len(),
        forall|i: int| 0 <= i < k ==> #[trigger] pair_fits(seen, step, i),
    ensures
        0 <= worst_upto(seen, step, k) <= i32::MAX,
        0 <= total_upto(seen, step, k) <= k * i32::MAX,
        0 < quantum_upto(seen, k) <= i32::MAX,
        0 <= stalled_upto(seen, k) <= k,
        gaps_upto(seen, k).len() <= k,
    decreases k,
{
    if k > 0 {
        lemma_worst_bounds(seen, step, k - 1);
        assert(pair_fits(seen, step, k - 1));
    }
}

/// Whether the pair starting at sighting `i` can be measured without its
/// arithmetic overflowing.
fn pair_fits_at(seen: &[Seen], step: (i32, i32), i: usize) -> (r: bool)
    requires
        i + 1 < seen@.len(),
    ensures
        r == pair_fits(seen@, step, i as int),
{
    let a = seen[i];
    let b = seen[i + 1];
    let gap: i64 = if b.tick > a.tick {
        b.tick as i64 - a.tick as i64
    } else {
        0
    };
    let dx: i64 = b.x as i64 - a.x as i64;
    let dy: i64 = b.y as i64 - a.y as i64;
    let lo: i64 = i32::MIN as i64;
    let hi: i64 = i32::MAX as i64;
    assert(step.0 as int * gap as int <= i64::MAX && step.0 as int * gap as int >= i64::MIN
        && step.1 as int * gap as int <= i64::MAX && step.1 as int * gap as int >= i64::MIN)
        by (nonlinear_arith)
        requires
            0 <= gap <= u32::MAX,
            i32::MIN <= step.0 <= i32::MAX,
            i32::MIN <= step.1 <= i32::MAX,
    ;
    let wx: i64 = step.0 as i64 * gap;
    let wy: i64 = step.1 as i64 * gap;
    gap <= hi && lo < dx && dx <= hi && lo < dy && dy <= hi && lo <= wx && wx <= hi && lo <= wy
        && wy <= hi && lo < dx - wx && dx - wx <= hi && lo < dy - wy && dy - wy <= hi
}

/// Whether a run of sightings can be measured: few enough to count, every
/// pair's arithmetic within its integer widths, and the last no earlier than
/// the first.
pub fn can_analyse(seen: &[Seen], step: (i32, i32)) -> (r: bool)
    ensures
        r == (seen@.len() < 0x1_0000_0000 && (forall|i: int|
            0 <= i < seen@.len() - 1 ==> #[trigger] pair_fits(seen@, step, i)) && (seen@.len() >= 2
            ==> seen@[0].tick <= seen@[seen@.len() - 1].tick)),
{
    if seen.len() as u64 >= 0x1_0000_0000u64 {
        return false;
    }
    let mut i: usize = 0;
    while i + 1 < seen.len()
        invariant
            seen@.len() < 0x1_0000_0000,
            i <= seen@.len(),
            seen@.len() >= 1 ==> i + 1 <= seen@.len(),
            forall|j: int| 0 <= j < i ==> #[trigger] pair_fits(seen@, step, j),
        decreases seen@.len() - i,
    {
        if !pair_fits_at(seen, step, i) {
            return false;
        }
        i = i + 1;
    }
    if seen.len() >= 2 {
        seen[0].tick <= seen[seen.len() - 1].tick
    } else {
        true
    }
}

/// Works out the gaps, the errors against one step per tick of `step` (raw
/// units on each axis), the wire's quantum and the stalls, from sightings in
/// the order they arrived. `None` where there are fewer than two sightings or
/// no two a tick apart, which leaves nothing to measure.
pub fn analyse(seen: &[Seen], step: (i32, i32)) -> (r: Option<Cadence>)
    requires
        seen@.len() < 0x1_0000_0000,
        forall|i: int| 0 <= i < seen@.len() - 1 ==> #[trigger] pair_fits(seen@, step, i),
        seen@.len() >= 2 ==> seen@[0].tick <= seen@[seen@.len() - 1].tick,
    ensures
        r is None <==> (seen@.len() < 2 || gaps_upto(seen@, seen@.len() - 1).len() == 0),
        r matches Some(c) ==> {
            let k = seen@.len() - 1;
            &&& c.gaps@ == gaps_upto(seen@, k)
            &&& c.worst_error == worst_upto(seen@, step, k)
            &&& c.total_error == total_upto(seen@, step, k)
            &&& c.quantum == quantum_upto(seen@, k)
            &&& c.stalled == stalled_upto(seen@, k)
            &&& c.spanned == seen@[k].tick - seen@[0].tick
        },
        r matches Some(c) ==> forall|i: int|
            #![trigger seen@[i]]
            0 <= i < seen@.len() - 1 && seen@[i + 1].tick > seen@[i].tick ==> {
                let gap = seen@[i + 1].tick - seen@[i].tick;
                let off_x = (seen@[i + 1].x - seen@[i].x) - step.0 * gap;
                let off_y = (seen@[i + 1].y - seen@[i].y) - step.1 * gap;
                &&& -c.worst_error <= off_x <= c.worst_error
                &&& -c.worst_error <= off_y <= c.worst_error
                &&& -c.total_error <= off_x <= c.total_error
                &&& -c.total_error <= off_y <= c.total_error
            },
{
    if seen.len() < 2 {
        return None;
    }
    let mut gaps: Vec<u32> = Vec::new();
    let mut worst_error: i32 = 0;
    let mut total_error: i64 = 0;
    let mut quantum: i32 = i32::MAX;
    let mut stalled: usize = 0;
    let mut i: usize = 0;
    while i + 1 < seen.len()
        invariant
            seen@.len() >= 2,
            seen@.len() < 0x1_0000_0000,
            forall|j: int| 0 <= j < seen@.len() - 1 ==> #[trigger] pair_fits(seen@, step, j),
            i + 1 <= seen@.len(),
            gaps@ == gaps_upto(seen@, i as int),
            worst_error == worst_upto(seen@, step, i as int),
            total_error == total_upto(seen@, step, i as int),
            quantum == quantum_upto(seen@, i as int),
            stalled == stalled_upto(seen@, i as int),
        decreases seen@.len() - i,
    {
        proof {
            lemma_worst_bounds(seen@, step, i as int);
            assert(pair_fits(seen@, step, i as int));
        }
        let a = seen[i];
        let b = seen[i + 1];
        let gap = if b.tick > a.tick {
            b.tick - a.tick
        } else {
            0
        };
        if gap > 0 {
            gaps.push(gap);
            let g = gap as i32;
            let want_x = step.0 * g;
            let want_y = step.1 * g;
            let got_x = b.x - a.x;
            let got_y = b.y - a.y;
            let off_x = got_x - want_x;
            let off_y = got_y - want_y;
            let ex = if off_x < 0 {
                -off_x
            } else {
                off_x
            };
            let ey = if off_y < 0 {
                -off_y
            } else {
                off_y
            };
            let error = if ex >= ey {
                ex
            } else {
                ey
            };
            if error > worst_error {
                worst_error = error;
            }
            total_error = total_error + error as i64;
            let ax = if got_x < 0 {
                -got_x
            } else {
                got_x
            };
            let ay = if got_y < 0 {
                -got_y
            } else {
                got_y
            };
            if ax > 0 && ax < quantum {
                quantum = ax;
            }
            if ay > 0 && ay < quantum {
                quantum = ay;
            }
            if gap > INTERP_DELAY_TICKS {
                stalled = stalled + 1;
            }
        }
        i = i + 1;
    }
    if gaps.len() == 0 {
        return None;
    }
    let spanned = seen[seen.len() - 1].tick - seen[0].tick;
    proof {
        assert forall|j: int|
            #![trigger seen@[j]]
            0 <= j < seen@.len() - 1 && seen@[j + 1].tick > seen@[j].tick implies {
                let gap = seen@[j + 1].tick - seen@[j].tick;
                let off_x = (seen@[j + 1].x - seen@[j].x) - step.0 * gap;
                let off_y = (seen@[j + 1].y - seen@[j].y) - step.1 * gap;
                &&& -worst_upto(seen@, step, seen@.len() - 1) <= off_x <= worst_upto(
                    seen@,
                    step,
                    seen@.len() - 1,
                )
                &&& -worst_upto(seen@, step, seen@.len() - 1) <= off_y <= worst_upto(
                    seen@,
                    step,
                    seen@.len() - 1,
                )
                &&& -total_upto(seen@, step, seen@.len() - 1) <= off_x <= total_upto(
                    seen@,
                    step,
                    seen@.len() - 1,
                )
                &&& -total_upto(seen@, step, seen@.len() - 1) <= off_y <= total_upto(
                    seen@,
                    step,
                    seen@.len() - 1,
                )
            } by {
            lemma_errors_cover_every_axis(seen@, step, seen@.len() - 1, j);
        }
    }
    Some(Cadence { gaps, worst_error, total_error, quantum, stalled, spanned })
}

} // verus!
