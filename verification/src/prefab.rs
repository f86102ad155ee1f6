//! Templates for what the simulation spawns, and dense storage for the
//! entities that advance through phases.
use std::collections::HashMap;
use vstd::prelude::*;

use crate::phased::{
    is_phase_at, phase_at, phase_fits, strictly_increasing, thresholds_for, thresholds_from, transitions_fit,
};
use crate::tags::LETTUCE_SEED;

verus! {

broadcast use vstd::std_specs::hash::group_hash_axioms;

/// A template for an entity that advances through contiguous tags on a timer.
///
/// Stores the transitions as durations in milliseconds. The conversion to
/// tick thresholds happens at spawn time, when the world's tick rate is
/// available.
#[derive(Clone, Debug)]
pub struct PhasedDef {
    base_tag: u16,
    transitions_ms: Vec<u128>,
}

impl View for PhasedDef {
    /// The first tag, and each transition's duration in milliseconds.
    type V = (u16, Seq<u128>);

    closed spec fn view(&self) -> (u16, Seq<u128>) {
        (self.base_tag, self.transitions_ms@)
    }
}

impl PhasedDef {
    pub fn new(base_tag: u16, transitions_ms: Vec<u128>) -> (r: PhasedDef)
        ensures
            r@ == (base_tag, transitions_ms@),
    {
        PhasedDef { base_tag, transitions_ms }
    }

    /// The tag an entity in a given phase carries.
    pub fn tag_for(&self, phase: u8) -> (r: u16)
        requires
            self@.0 + phase <= u16::MAX,
        ensures
            r == self@.0 + phase,
    {
        self.base_tag + phase as u16
    }

    /// Cumulative tick thresholds for each phase transition.
    pub fn thresholds(&self, tick_hz: u32) -> (r: Vec<u32>)
        requires
            transitions_fit(self@.1, tick_hz),
        ensures
            thresholds_for(self@.1, tick_hz, r@),
            strictly_increasing(r@),
    {
        thresholds_from(self.transitions_ms.as_slice(), tick_hz)
    }
}

/// A definition's thresholds at a rate are exactly those an entity started
/// from the same transitions at that rate carries: both are the cumulative
/// tick counts, one per transition.
pub proof fn lemma_definitions_and_entities_agree(
    transitions_ms: Seq<u128>,
    tick_hz: u32,
    of_definition: Seq<u32>,
    of_entity: Seq<u32>,
)
    requires
        thresholds_for(transitions_ms, tick_hz, of_definition),
        thresholds_for(transitions_ms, tick_hz, of_entity),
    ensures
        of_definition == of_entity,
{
    assert(of_definition =~= of_entity);
}

/// The crops that can be planted.
pub struct CropPrefabs {
    pub lettuce: PhasedDef,
}

impl CropPrefabs {
    /// Lettuce: a seed that sprouts after 2 s, grows after 3 s more and ripens
    /// 10 s after that.
    pub fn new() -> (r: CropPrefabs)
        ensures
            r.lettuce@ == (LETTUCE_SEED, seq![2000u128, 3000u128, 10000u128]),
    {
        let transitions: Vec<u128> = vec![2000, 3000, 10000];
        let r = CropPrefabs { lettuce: PhasedDef::new(LETTUCE_SEED, transitions) };
        assert(r.lettuce@.1 =~= seq![2000u128, 3000u128, 10000u128]);
        r
    }
}

/// Every template the simulation spawns from.
pub struct Prefabs {
    pub crops: CropPrefabs,
}

impl Prefabs {
    pub fn new() -> (r: Prefabs)
        ensures
            r.crops.lettuce@ == (LETTUCE_SEED, seq![2000u128, 3000u128, 10000u128]),
    {
        Prefabs { crops: CropPrefabs::new() }
    }
}

/// At 20 Hz lettuce sprouts 40 ticks after planting, grows at 100 and is ripe
/// at 300, which is fifteen seconds.
pub proof fn lemma_lettuce_ripens_in_fifteen_seconds(thresholds: Seq<u32>)
    requires
        thresholds_for(seq![2000u128, 3000u128, 10000u128], 20, thresholds),
    ensures
        transitions_fit(seq![2000u128, 3000u128, 10000u128], 20),
        thresholds == seq![40u32, 100u32, 300u32],
{
    let t = seq![2000u128, 3000u128, 10000u128];
    assert(t[0] as u32 == 2000u32 && t[1] as u32 == 3000u32 && t[2] as u32 == 10000u32);
    reveal_with_fuel(crate::phased::cumulative_ticks, 4);
    assert(thresholds[0] == 40 && thresholds[1] == 100 && thresholds[2] == 300);
    assert(thresholds =~= seq![40u32, 100u32, 300u32]);
}

/// What is kept for one entity: its first tag, its thresholds and the tick it
/// started on.
pub type Progress = (u16, Seq<u32>, u32);

/// How old an entity that started on `started_at` is at `tick`, wrapping
/// around as the tick counter does.
pub open spec fn age_at(tick: u32, started_at: u32) -> u32 {
    vstd::wrapping::u32_specs::wrapping_sub(tick, started_at)
}

/// At `tick`, an entity's phase can be counted and its tag written without an
/// overflow.
pub open spec fn advance_fits(p: Progress, tick: u32) -> bool {
    let age = age_at(tick, p.2);
    &&& phase_fits(p.1, age)
    &&& forall|phase: int| is_phase_at(p.1, age, phase) ==> p.0 + phase <= u16::MAX
}

/// Dense storage for entities that advance through phases.
///
/// Four parallel arrays, one slot per entity, and an index from an entity's
/// id to its slot. Removing swaps the last slot into the hole.
pub struct Phased {
    ids: Vec<u32>,
    base_tags: Vec<u16>,
    thresholds: Vec<Vec<u32>>,
    started_at: Vec<u32>,
    index: HashMap<u32, usize>,
}

impl View for Phased {
    /// Each tracked entity's id and what is kept for it.
    type V = Map<u32, Progress>;

    closed spec fn view(&self) -> Map<u32, Progress> {
        Map::new(
            |k: u32| self.index@.contains_key(k),
            |k: u32|
                {
                    let i = self.index@[k] as int;
                    (self.base_tags@[i], self.thresholds@[i]@, self.started_at@[i])
                },
        )
    }
}

impl Phased {
    /// The arrays are in step and the index names each entity's slot.
    pub closed spec fn wf(&self) -> bool {
        &&& self.base_tags@.len() == self.ids@.len()
        &&& self.thresholds@.len() == self.ids@.len()
        &&& self.started_at@.len() == self.ids@.len()
        &&& forall|i: int|
            0 <= i < self.ids@.len() ==> #[trigger] self.index@.contains_key(self.ids@[i])
                && self.index@[self.ids@[i]] == i
        &&& forall|k: u32|
            #[trigger] self.index@.contains_key(k) ==> self.index@[k] < self.ids@.len()
                && self.ids@[self.index@[k] as int] == k
    }

    /// How many entities are tracked.
    pub closed spec fn count(&self) -> nat {
        self.ids@.len()
    }

    pub fn new() -> (r: Phased)
        ensures
            r.wf(),
            r@ == Map::<u32, Progress>::empty(),
    {
        let r = Phased {
            ids: Vec::new(),
            base_tags: Vec::new(),
            thresholds: Vec::new(),
            started_at: Vec::new(),
            index: HashMap::new(),
        };
        assert(r@ =~= Map::<u32, Progress>::empty());
        r
    }

    /// Whether an entity is tracked.
    pub fn contains(&self, id: u32) -> (r: bool)
        requires
            self.wf(),
        ensures
            r == self@.contains_key(id),
    {
        self.index.contains_key(&id)
    }

    /// Starts tracking an entity from `tick`, with its thresholds worked out
    /// at `tick_hz`.
    pub fn insert(&mut self, id: u32, def: &PhasedDef, tick_hz: u32, tick: u32)
        requires
            old(self).wf(),
            !old(self)@.contains_key(id),
            transitions_fit(def@.1, tick_hz),
        ensures
            final(self).wf(),
            final(self)@.dom() == old(self)@.dom().insert(id),
            forall|k: u32| k != id && old(self)@.contains_key(k) ==> #[trigger] final(self)@[k]
                == old(self)@[k],
            final(self)@[id].0 == def@.0,
            thresholds_for(def@.1, tick_hz, final(self)@[id].1),
            final(self)@[id].2 == tick,
    {
        let slot = self.ids.len();
        let th = def.thresholds(tick_hz);
        self.ids.push(id);
        self.base_tags.push(def.base_tag);
        self.thresholds.push(th);
        self.started_at.push(tick);
        self.index.insert(id, slot);
        assert forall|i: int| 0 <= i < self.ids@.len() implies #[trigger] self.index@.contains_key(
            self.ids@[i],
        ) && self.index@[self.ids@[i]] == i by {
            if i < slot {
                assert(old(self).index@.contains_key(old(self).ids@[i]));
            }
        }
        assert(final(self)@.dom() =~= old(self)@.dom().insert(id));
    }

    /// Stops tracking an entity. An id that is not tracked changes nothing.
    pub fn remove(&mut self, id: u32)
        requires
            old(self).wf(),
        ensures
            final(self).wf(),
            final(self)@ == old(self)@.remove(id),
    {
        let slot = match self.index.remove(&id) {
            Some(slot) => slot,
            None => {
                assert(final(self)@ =~= old(self)@.remove(id));
                return ;
            },
        };
        let last = self.ids.len() - 1;
        let moved_id = self.ids[last];
        let moved_tag = self.base_tags[last];
        let moved_start = self.started_at[last];
        self.ids.pop();
        self.base_tags.pop();
        self.started_at.pop();
        let moved_th = match self.thresholds.pop() {
            Some(th) => th,
            None => Vec::new(),
        };
        if slot != last {
            self.ids[slot] = moved_id;
            self.base_tags[slot] = moved_tag;
            self.started_at[slot] = moved_start;
            self.thresholds[slot] = moved_th;
            self.index.insert(moved_id, slot);
        }
        assert forall|i: int| 0 <= i < self.ids@.len() implies #[trigger] self.index@.contains_key(
            self.ids@[i],
        ) && self.index@[self.ids@[i]] == i by {
            assert(old(self).index@.contains_key(old(self).ids@[i]));
        }
        assert forall|k: u32| #[trigger] self.index@.contains_key(k) implies self.index@[k]
            < self.ids@.len() && self.ids@[self.index@[k] as int] == k by {
            assert(old(self).index@.contains_key(k));
        }
        assert(final(self)@ =~= old(self)@.remove(id));
    }

    /// Each tracked entity's tag at `tick`: its first tag plus the phase its
    /// age has reached, one entry per entity.
    pub fn advance_all(&self, tick: u32) -> (r: Vec<(u32, u16)>)
        requires
            self.wf(),
            forall|k: u32| #[trigger] self@.contains_key(k) ==> advance_fits(self@[k], tick),
        ensures
            r@.len() == self@.dom().len(),
            forall|i: int, j: int| 0 <= i < j < r@.len() ==> r@[i].0 != r@[j].0,
            forall|k: u32| self@.contains_key(k) ==> exists|i: int| 0 <= i < r@.len() && #[trigger] r@[i].0 == k,
            forall|i: int|
                0 <= i < r@.len() ==> {
                    let k = #[trigger] r@[i].0;
                    let p = self@[k];
                    &&& self@.contains_key(k)
                    &&& is_phase_at(p.1, age_at(tick, p.2), r@[i].1 - p.0)
                },
    {
        let mut out: Vec<(u32, u16)> = Vec::new();
        let mut i: usize = 0;
        while i < self.ids.len()
            invariant
                self.wf(),
                forall|k: u32| #[trigger] self@.contains_key(k) ==> advance_fits(self@[k], tick),
                i <= self.ids@.len(),
                out@.len() == i,
                forall|j: int| 0 <= j < i ==> #[trigger] out@[j].0 == self.ids@[j],
                forall|j: int|
                    0 <= j < i ==> {
                        let k = #[trigger] out@[j].0;
                        let p = self@[k];
                        &&& self@.contains_key(k)
                        &&& is_phase_at(p.1, age_at(tick, p.2), out@[j].1 - p.0)
                    },
            decreases self.ids@.len() - i,
        {
            let id = self.ids[i];
            assert(self.index@.contains_key(id) && self.index@[id] == i);
            assert(self@.contains_key(id));
            let age = tick.wrapping_sub(self.started_at[i]);
            let phase = phase_at(self.thresholds[i].as_slice(), age);
            let tag = self.base_tags[i] + phase as u16;
            out.push((id, tag));
            i = i + 1;
        }
        proof {
            assert forall|a: int, b: int| 0 <= a < b < out@.len() implies out@[a].0 != out@[b].0 by {
                assert(self.index@.contains_key(self.ids@[a]));
                assert(self.index@.contains_key(self.ids@[b]));
            }
            assert forall|k: u32| self@.contains_key(k) implies exists|j: int|
                0 <= j < out@.len() && #[trigger] out@[j].0 == k by {
                let j = self.index@[k] as int;
                assert(out@[j].0 == k);
            }
            let dom = self@.dom();
            let firsts = out@.map_values(|e: (u32, u16)| e.0);
            let ids_set = firsts.to_set();
            assert(dom =~= ids_set) by {
                assert forall|k: u32| dom.contains(k) implies ids_set.contains(k) by {
                    let j = self.index@[k] as int;
                    assert(firsts[j] == k);
                }
                assert forall|k: u32| ids_set.contains(k) implies dom.contains(k) by {
                    let j = choose|j: int| 0 <= j < firsts.len() && #[trigger] firsts[j] == k;
                    assert(out@[j].0 == k);
                }
            }
            assert(firsts.no_duplicates()) by {
                assert forall|a: int, b: int|
                    0 <= a < firsts.len() && 0 <= b < firsts.len() && a != b implies firsts[a]
                    != firsts[b] by {
                    assert(self.index@.contains_key(self.ids@[a]));
                    assert(self.index@.contains_key(self.ids@[b]));
                }
            }
            firsts.unique_seq_to_set();
        }
        out
    }
}

} // verus!
