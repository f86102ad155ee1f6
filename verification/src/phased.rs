//! Entities that advance through contiguous tags on a timer, such as a crop
//! that sprouts, grows and ripens.
//!
//! Transitions are written as durations in milliseconds and turned into
//! cumulative tick thresholds once the tick rate is known. An entity's phase at
//! some age is how many thresholds it has reached.
use vstd::prelude::*;

verus! {

/// Ticks one transition lasts: its milliseconds, truncated to 32 bits, at
/// `tick_hz` ticks a second, rounded down.
pub open spec fn transition_ticks(ms: u128, tick_hz: u32) -> int {
    (ms as u32) as int * tick_hz as int / 1000
}

/// The threshold the `n`th transition ends at: the ticks of the first `n`
/// transitions added up.
pub open spec fn cumulative_ticks(transitions_ms: Seq<u128>, tick_hz: u32, n: int) -> int
    decreases n,
{
    if n <= 0 {
        0
    } else {
        cumulative_ticks(transitions_ms, tick_hz, n - 1) + transition_ticks(
            transitions_ms[n - 1],
            tick_hz,
        )
    }
}

/// Transitions the thresholds can be worked out for without a panic: each
/// lasts at least one tick, its milliseconds times the rate fit in 32 bits,
/// and so does their sum.
pub open spec fn transitions_fit(transitions_ms: Seq<u128>, tick_hz: u32) -> bool {
    &&& forall|i: int|
        0 <= i < transitions_ms.len() ==> (#[trigger] transitions_ms[i] as u32) as int
            * tick_hz as int <= u32::MAX
    &&& forall|i: int|
        0 <= i < transitions_ms.len() ==> transition_ticks(#[trigger] transitions_ms[i], tick_hz)
            > 0
    &&& cumulative_ticks(transitions_ms, tick_hz, transitions_ms.len() as int) <= u32::MAX
}

/// The thresholds for a list of transitions: entry `i` is where transition
/// `i` ends.
pub open spec fn thresholds_for(transitions_ms: Seq<u128>, tick_hz: u32, thresholds: Seq<u32>) -> bool {
    &&& thresholds.len() == transitions_ms.len()
    &&& forall|i: int|
        0 <= i < thresholds.len() ==> #[trigger] thresholds[i] == cumulative_ticks(
            transitions_ms,
            tick_hz,
            i + 1,
        )
}

/// Thresholds that strictly increase.
pub open spec fn strictly_increasing(thresholds: Seq<u32>) -> bool {
    forall|i: int, j: int| 0 <= i < j < thresholds.len() ==> thresholds[i] < thresholds[j]
}

/// `phase` is the phase at `age`: the thresholds before it have all been
/// reached, and it is either the last phase or its own threshold is not yet
/// reached.
pub open spec fn is_phase_at(thresholds: Seq<u32>, age: u32, phase: int) -> bool {
    &&& 0 <= phase <= thresholds.len()
    &&& forall|j: int| 0 <= j < phase ==> thresholds[j] <= age
    &&& phase == thresholds.len() || thresholds[phase] > age
}

/// Ages at which counting the phase stays within a `u8`. The count stops at
/// the first threshold not yet reached, so it passes 255 only when there are
/// 256 thresholds or more and the first 256 are all reached: at most 255
/// thresholds, or one of the first 256 above the age, keeps it in range.
pub open spec fn phase_fits(thresholds: Seq<u32>, age: u32) -> bool {
    thresholds.len() <= 255 || exists|j: int| 0 <= j <= 255 && thresholds[j] > age
}

/// The cumulative ticks grow by at least one with every transition.
proof fn lemma_cumulative_increases(transitions_ms: Seq<u128>, tick_hz: u32, i: int, j: int)
    requires
        0 <= i < j <= transitions_ms.len(),
        forall|k: int|
            0 <= k < transitions_ms.len() ==> transition_ticks(
                #[trigger] transitions_ms[k],
                tick_hz,
            ) > 0,
    ensures
        cumulative_ticks(transitions_ms, tick_hz, i) < cumulative_ticks(transitions_ms, tick_hz, j),
    decreases j - i,
{
    if j > i + 1 {
        lemma_cumulative_increases(transitions_ms, tick_hz, i, j - 1);
    }
    assert(transition_ticks(transitions_ms[j - 1], tick_hz) > 0);
}

/// Works out the cumulative tick thresholds for a list of transitions.
pub fn thresholds_from(transitions_ms: &[u128], tick_hz: u32) -> (r: Vec<u32>)
    requires
        transitions_fit(transitions_ms@, tick_hz),
    ensures
        thresholds_for(transitions_ms@, tick_hz, r@),
        strictly_increasing(r@),
{
    let mut thresholds: Vec<u32> = Vec::new();
    let mut acc: u32 = 0;
    let mut k: usize = 0;
    while k < transitions_ms.len()
        invariant
            transitions_fit(transitions_ms@, tick_hz),
            k <= transitions_ms.len(),
            thresholds@.len() == k,
            acc as int == cumulative_ticks(transitions_ms@, tick_hz, k as int),
            forall|i: int|
                0 <= i < k ==> #[trigger] thresholds@[i] == cumulative_ticks(
                    transitions_ms@,
                    tick_hz,
                    i + 1,
                ),
        decreases transitions_ms.len() - k,
    {
        let ms = transitions_ms[k];
        assert((ms as u32) as int * tick_hz as int <= u32::MAX);
        let ticks = (ms as u32) * tick_hz / 1000;
        assert(ticks as int == transition_ticks(transitions_ms@[k as int], tick_hz));
        proof {
            if k + 1 < transitions_ms.len() {
                lemma_cumulative_increases(
                    transitions_ms@,
                    tick_hz,
                    k as int + 1,
                    transitions_ms@.len() as int,
                );
            }
        }
        acc = acc + ticks;
        thresholds.push(acc);
        k = k + 1;
    }
    proof {
        assert forall|i: int, j: int| 0 <= i < j < thresholds@.len() implies thresholds@[i]
            < thresholds@[j] by {
            lemma_cumulative_increases(transitions_ms@, tick_hz, i + 1, j + 1);
        }
    }
    thresholds
}

/// How many of the thresholds an entity of a given age has reached, counting
/// from the first and stopping at the first it has not.
pub fn phase_at(thresholds: &[u32], age: u32) -> (r: u8)
    requires
        phase_fits(thresholds@, age),
    ensures
        is_phase_at(thresholds@, age, r as int),
{
    let mut phase: u8 = 0;
    let mut k: usize = 0;
    while k < thresholds.len()
        invariant
            phase_fits(thresholds@, age),
            k <= thresholds.len(),
            phase as int == k,
            forall|j: int| 0 <= j < k ==> thresholds@[j] <= age,
        decreases thresholds.len() - k,
    {
        if age >= thresholds[k] {
            proof {
                if k >= 255 {
                    let j = choose|j: int| 0 <= j <= 255 && thresholds@[j] > age;
                    assert(thresholds@[j] <= age);
                }
            }
            phase = phase + 1;
            k = k + 1;
        } else {
            return phase;
        }
    }
    phase
}

/// A phase never goes back as an entity ages: with increasing thresholds, an
/// older entity is in the same phase or a later one.
pub proof fn lemma_phase_never_goes_back(
    thresholds: Seq<u32>,
    younger: u32,
    older: u32,
    p_younger: int,
    p_older: int,
)
    requires
        strictly_increasing(thresholds),
        younger <= older,
        is_phase_at(thresholds, younger, p_younger),
        is_phase_at(thresholds, older, p_older),
    ensures
        p_younger <= p_older,
{
    if p_older < p_younger {
        assert(thresholds[p_older] <= younger);
    }
}

/// An entity starts in the first phase, reaches phase `i + 1` exactly at the
/// `i`th threshold, and stays in the last once past the final one.
pub proof fn lemma_phase_follows_thresholds(thresholds: Seq<u32>, age: u32, phase: int)
    requires
        strictly_increasing(thresholds),
        is_phase_at(thresholds, age, phase),
    ensures
        thresholds.len() > 0 && age < thresholds[0] ==> phase == 0,
        forall|i: int|
            0 <= i < thresholds.len() && #[trigger] thresholds[i] == age ==> phase == i + 1,
        thresholds.len() > 0 && age >= thresholds.last() ==> phase == thresholds.len(),
{
    assert forall|i: int| 0 <= i < thresholds.len() && #[trigger] thresholds[i] == age implies phase
        == i + 1 by {
        if phase < i + 1 {
            if phase < i {
                assert(thresholds[phase] < thresholds[i]);
            }
        }
        if phase > i + 1 {
            assert(thresholds[i + 1] <= age);
        }
    }
    if thresholds.len() > 0 && age >= thresholds.last() && phase < thresholds.len() {
        if phase < thresholds.len() - 1 {
            assert(thresholds[phase] < thresholds[thresholds.len() - 1]);
        }
    }
}

/// A template for an entity that advances through contiguous tags on a timer.
#[derive(Clone, Debug, PartialEq, Eq)]
pub struct PhasedEntity {
    pub base_tag: u16,
    pub thresholds: Vec<u32>,
}

impl PhasedEntity {
    /// Works out the thresholds for transitions given in milliseconds, at
    /// `tick_hz` ticks a second.
    pub fn new(base_tag: u16, transitions_ms: &[u128], tick_hz: u32) -> (r: PhasedEntity)
        requires
            transitions_fit(transitions_ms@, tick_hz),
        ensures
            r.base_tag == base_tag,
            thresholds_for(transitions_ms@, tick_hz, r.thresholds@),
            strictly_increasing(r.thresholds@),
    {
        let thresholds = thresholds_from(transitions_ms, tick_hz);
        PhasedEntity { base_tag, thresholds }
    }

    /// How many phases there are, one more than the transitions, as a `u8`.
    pub fn phases(&self) -> (r: u8)
        ensures
            r as int == (self.thresholds@.len() + 1) % 256,
    {
        let n = self.thresholds.len();
        let low = n as u8;
        assert(low as int == n as int % 256) by (bit_vector)
            requires
                low == n as u8,
        ;
        low.wrapping_add(1)
    }

    /// The tag an entity in a given phase carries.
    pub fn tag_for(&self, phase: u8) -> (r: u16)
        requires
            self.base_tag + phase <= u16::MAX,
        ensures
            r == self.base_tag + phase,
    {
        self.base_tag + phase as u16
    }

    /// Which phase an entity of the given age is in.
    pub fn phase_at(&self, age: u32) -> (r: u8)
        requires
            phase_fits(self.thresholds@, age),
        ensures
            is_phase_at(self.thresholds@, age, r as int),
    {
        phase_at(self.thresholds.as_slice(), age)
    }
}

} // verus!
