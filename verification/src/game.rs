//! The simulation's side of the game: what it does with the commands players
//! send, and how it moves the farmers who are walking.
use std::collections::HashMap;
use vstd::prelude::*;
use vstd::std_specs::iter::IteratorSpec;

use crate::command::{spec_decode, spec_step_mm, GameCommand, Heading};
use crate::engine::{
    current_tick, live_positions, meters_raw, millimeters_raw, move_to_raw, position_raw, region_raw,
    region_size_raw, running_tick, same_frame, spawn_raw, spec_millimeters_raw, tick_hz, tick_rate,
    vertical_extent_raw, vertical_raw, FIXED_ONE,
};
use crate::phased::{cumulative_ticks, is_phase_at, thresholds_for, transition_ticks, transitions_fit};
use crate::prefab::{age_at, Phased, Prefabs, Progress};
use crate::tags::LETTUCE_SEED;

verus! {

broadcast use vstd::std_specs::hash::group_hash_axioms;

/// One axis of a step, stopped at the region's edge. A region holds
/// `0 .. bound`, so the last position inside it is one raw unit short of
/// `bound`.
pub open spec fn spec_clamp_axis(at: int, step: int, bound: int) -> int {
    let moved = at + step;
    if moved < 0 {
        0
    } else if moved > bound - 1 {
        bound - 1
    } else {
        moved
    }
}

/// Where one tick of walking along a heading takes an entity at `at`, in raw
/// units, in a region of side `bound`.
pub open spec fn spec_walk_target(at: (i32, i32, i32), heading: Heading, bound: i32) -> (int, int, int) {
    let (dx, dy) = spec_step_mm(heading);
    (
        spec_clamp_axis(at.0 as int, spec_millimeters_raw(dx as i32), bound as int),
        spec_clamp_axis(at.1 as int, spec_millimeters_raw(dy as i32), bound as int),
        at.2 as int,
    )
}

/// One axis of a step, stopped at the region's edge.
pub fn clamp_axis(at: i32, step: i32, bound: i32) -> (r: i32)
    requires
        bound > 0,
    ensures
        r == spec_clamp_axis(at as int, step as int, bound as int),
        0 <= r < bound,
{
    let moved: i64 = at as i64 + step as i64;
    if moved < 0 {
        0
    } else if moved > (bound - 1) as i64 {
        bound - 1
    } else {
        moved as i32
    }
}

/// The raw units one tick of walking along `heading` covers on each axis: the
/// heading's step in millimeters, as the engine converts them.
pub fn step_raw(heading: Heading) -> (r: (i32, i32))
    ensures
        r.0 == spec_millimeters_raw(spec_step_mm(heading).0 as i32),
        r.1 == spec_millimeters_raw(spec_step_mm(heading).1 as i32),
{
    let (dx, dy) = heading.step_mm();
    (millimeters_raw(dx), millimeters_raw(dy))
}

/// Where one tick of walking along `heading` takes an entity standing at `at`
/// (raw units), stopping at the edge of a region of side `bound`.
pub fn walk_target(at: (i32, i32, i32), heading: Heading, bound: i32) -> (r: (i32, i32, i32))
    requires
        bound > 0,
    ensures
        (r.0 as int, r.1 as int, r.2 as int) == spec_walk_target(at, heading, bound),
        0 <= r.0 < bound,
        0 <= r.1 < bound,
{
    let (sx, sy) = step_raw(heading);
    (clamp_axis(at.0, sx, bound), clamp_axis(at.1, sy, bound), at.2)
}

/// A farmer inside the region stays inside it, a step that does not reach an
/// edge covers exactly the heading's step in raw units, and no step covers
/// more ground on either axis than the heading's: a sender chooses the
/// direction, never the distance.
pub proof fn lemma_walking_stays_in_the_region(at: (i32, i32, i32), heading: Heading, bound: i32)
    requires
        bound > 0,
    ensures
        ({
            let to = spec_walk_target(at, heading, bound);
            let (dx, dy) = spec_step_mm(heading);
            let (sx, sy) = (spec_millimeters_raw(dx as i32), spec_millimeters_raw(dy as i32));
            &&& 0 <= to.0 < bound
            &&& 0 <= to.1 < bound
            &&& to.2 == at.2
            &&& 0 <= at.0 + sx < bound ==> to.0 == at.0 + sx
            &&& 0 <= at.1 + sy < bound ==> to.1 == at.1 + sy
            &&& 0 <= at.0 < bound ==> abs(to.0 - at.0) <= abs(sx)
            &&& 0 <= at.1 < bound ==> abs(to.1 - at.1) <= abs(sy)
        }),
{
}

/// Where every live entity stands after each walker in `walking` takes one
/// step along its heading, stopping at the edge of a region of side `bound`;
/// everyone else stays put, and so does a walker found outside the vertical
/// range `0 .. vertical`, which the engine would refuse to move.
pub open spec fn walked(
    positions: Map<u32, (i32, i32, i32)>,
    walking: Map<u32, Heading>,
    bound: i32,
    vertical: i32,
) -> Map<u32, (i32, i32, i32)> {
    Map::new(
        |k: u32| positions.contains_key(k),
        |k: u32|
            if walking.contains_key(k) && 0 <= positions[k].2 < vertical {
                let t = spec_walk_target(positions[k], walking[k], bound);
                (t.0 as i32, t.1 as i32, t.2 as i32)
            } else {
                positions[k]
            },
    )
}

/// Where a command plants lettuce, in raw coordinates on the ground, in a
/// region of side `bound`: a planting inside the region, and nothing else.
pub open spec fn planting_at(cmd: GameCommand, bound: i32) -> Option<(i32, i32, i32)> {
    match cmd {
        GameCommand::PlantLettuce { x, y } => if 0 <= x && 0 <= y && x * FIXED_ONE < bound && y
            * FIXED_ONE < bound {
            Some(((x * FIXED_ONE) as i32, (y * FIXED_ONE) as i32, 0i32))
        } else {
            None
        },
        GameCommand::Walk { .. } => None,
    }
}

/// Where a list of commands plants lettuce, in order.
pub open spec fn plantings(cmds: Seq<(u32, GameCommand)>, bound: i32) -> Seq<(i32, i32, i32)>
    decreases cmds.len(),
{
    if cmds.len() == 0 {
        Seq::empty()
    } else {
        let before = plantings(cmds.drop_last(), bound);
        match planting_at(cmds.last().1, bound) {
            Some(at) => before.push(at),
            None => before,
        }
    }
}

/// Where every live entity stands once entity `ids[j]` is added at `at[j]`,
/// for each `j` in order.
pub open spec fn with_plants(
    positions: Map<u32, (i32, i32, i32)>,
    ids: Seq<u32>,
    at: Seq<(i32, i32, i32)>,
) -> Map<u32, (i32, i32, i32)>
    decreases ids.len(),
{
    if ids.len() == 0 || at.len() == 0 {
        positions
    } else {
        with_plants(positions, ids.drop_last(), at.drop_last()).insert(ids.last(), at.last())
    }
}

/// `after` is the crops of `before` with a seed of lettuce added on each of
/// `ids` that had none, started at `tick` with its thresholds at `hz`; crops
/// already growing are left as they were.
pub open spec fn crops_planted(
    before: Map<u32, Progress>,
    after: Map<u32, Progress>,
    ids: Seq<u32>,
    hz: u32,
    tick: u32,
) -> bool {
    &&& forall|k: u32| #[trigger] after.contains_key(k) <==> before.contains_key(k) || ids.contains(k)
    &&& forall|k: u32| #[trigger] before.contains_key(k) ==> after[k] == before[k]
    &&& forall|k: u32|
        !before.contains_key(k) && #[trigger] ids.contains(k) ==> {
            &&& after[k].0 == LETTUCE_SEED
            &&& thresholds_for(lettuce_transitions(), hz, after[k].1)
            &&& after[k].2 == tick
        }
}

/// Ids that named no live entity before, each once.
pub open spec fn fresh(ids: Seq<u32>, positions: Map<u32, (i32, i32, i32)>) -> bool {
    &&& ids.no_duplicates()
    &&& forall|j: int| 0 <= j < ids.len() ==> !positions.contains_key(#[trigger] ids[j])
}

/// The size of a number, whichever side of zero it is on.
pub open spec fn abs(v: int) -> int {
    if v < 0 {
        -v
    } else {
        v
    }
}

/// The walking table after one command: a heading starts or changes a walk,
/// `None` stops it, and planting leaves it alone.
pub open spec fn apply_walk(walking: Map<u32, Heading>, cmd: (u32, GameCommand)) -> Map<u32, Heading> {
    match cmd.1 {
        GameCommand::Walk { heading: Some(h) } => walking.insert(cmd.0, h),
        GameCommand::Walk { heading: None } => walking.remove(cmd.0),
        GameCommand::PlantLettuce { .. } => walking,
    }
}

/// The walking table after a list of commands, applied in order.
pub open spec fn walks_applied(walking: Map<u32, Heading>, cmds: Seq<(u32, GameCommand)>) -> Map<u32, Heading>
    decreases cmds.len(),
{
    if cmds.len() == 0 {
        walking
    } else {
        apply_walk(walks_applied(walking, cmds.drop_last()), cmds.last())
    }
}

/// The durations lettuce's phases last, in milliseconds.
pub open spec fn lettuce_transitions() -> Seq<u128> {
    seq![2000u128, 3000u128, 10000u128]
}

/// Lettuce's thresholds can be worked out at any tick rate the engine
/// accepts.
proof fn lemma_lettuce_fits(hz: u32)
    requires
        1 <= hz <= 1000,
    ensures
        transitions_fit(lettuce_transitions(), hz),
{
    let t = lettuce_transitions();
    assert(t[0] as u32 == 2000u32 && t[1] as u32 == 3000u32 && t[2] as u32 == 10000u32);
    assert(transition_ticks(t[0], hz) == 2 * hz);
    assert(transition_ticks(t[1], hz) == 3 * hz);
    assert(transition_ticks(t[2], hz) == 10 * hz);
    reveal_with_fuel(cumulative_ticks, 4);
    assert(cumulative_ticks(t, hz, 3) == 15 * hz);
}

/// Each entry names a growing crop and the tag its phase at `tick` gives it:
/// its first tag plus the phase its age has reached.
pub open spec fn tags_at(crops: Map<u32, Progress>, tags: Seq<(u32, u16)>, tick: u32) -> bool {
    forall|i: int|
        0 <= i < tags.len() ==> {
            let k = #[trigger] tags[i].0;
            &&& crops.contains_key(k)
            &&& is_phase_at(crops[k].1, age_at(tick, crops[k].2), tags[i].1 - crops[k].0)
        }
}

/// The simulation's game: the commands waiting for the next tick, who is
/// walking which way, and the crops growing.
pub struct MildewValleyGame {
    prefabs: Prefabs,
    phased: Phased,
    pending: Vec<(u32, GameCommand)>,
    /// Which way each farmer is walking, held until they say otherwise. A
    /// farmer standing still is absent rather than present with a zero.
    walking: HashMap<u32, Heading>,
}

impl MildewValleyGame {
    /// The commands received and not yet applied, oldest first, each with the
    /// entity that sent it.
    pub closed spec fn pending(&self) -> Seq<(u32, GameCommand)> {
        self.pending@
    }

    /// Which way each walking farmer is walking.
    pub closed spec fn walking(&self) -> Map<u32, Heading> {
        self.walking@
    }

    /// Every crop growing, by entity id.
    pub closed spec fn crops(&self) -> Map<u32, Progress> {
        self.phased@
    }

    /// The store is consistent, the prefabs are the game's own, and every crop
    /// is lettuce.
    pub closed spec fn wf(&self) -> bool {
        &&& self.phased.wf()
        &&& self.prefabs.crops.lettuce@ == (LETTUCE_SEED, lettuce_transitions())
        &&& forall|k: u32| #[trigger]
            self.phased@.contains_key(k) ==> self.phased@[k].0 == LETTUCE_SEED
                && self.phased@[k].1.len() == 3
    }

    pub fn new() -> (r: MildewValleyGame)
        ensures
            r.wf(),
            r.pending() == Seq::<(u32, GameCommand)>::empty(),
            r.walking() == Map::<u32, Heading>::empty(),
            r.crops() == Map::<u32, Progress>::empty(),
    {
        MildewValleyGame {
            prefabs: Prefabs::new(),
            phased: Phased::new(),
            pending: Vec::new(),
            walking: HashMap::new(),
        }
    }

    /// How many farmers are walking.
    pub fn walkers(&self) -> (r: usize)
        ensures
            r == self.walking().len(),
    {
        proof {
            broadcast use vstd::std_specs::hash::axiom_spec_hash_map_len;
            broadcast use vstd::std_specs::hash::group_hash_axioms;
        }
        self.walking.len()
    }

    /// A message from an entity: a command it decodes to waits for the next
    /// tick; anything else is dropped.
    pub fn message_received(&mut self, from: u32, body: &[u8])
        requires
            old(self).wf(),
        ensures
            final(self).wf(),
            final(self).pending() == (match spec_decode(body@) {
                Some(cmd) => old(self).pending().push((from, cmd)),
                None => old(self).pending(),
            }),
            final(self).walking() == old(self).walking(),
            final(self).crops() == old(self).crops(),
    {
        if let Some(cmd) = GameCommand::decode(body) {
            self.pending.push((from, cmd));
        }
    }

    /// Applies every waiting command in the order received: a walk starts,
    /// changes or stops the sender's heading, and a planting inside the region
    /// spawns a seed there. The simulation decides whether to honor a
    /// command, and refuses a planting outside the region. Returns the
    /// entities planted, in order.
    fn apply_commands(&mut self, world: &mut umwelt::Step<'_>) -> (planted: Ghost<Seq<u32>>)
        requires
            old(self).wf(),
        ensures
            final(self).wf(),
            final(self).pending() == Seq::<(u32, GameCommand)>::empty(),
            final(self).walking() == walks_applied(old(self).walking(), old(self).pending()),
            planted@.len() == plantings(old(self).pending(), region_raw(*old(world))).len(),
            fresh(planted@, live_positions(*old(world))),
            live_positions(*final(world)) == with_plants(
                live_positions(*old(world)),
                planted@,
                plantings(old(self).pending(), region_raw(*old(world))),
            ),
            crops_planted(
                old(self).crops(),
                final(self).crops(),
                planted@,
                tick_rate(*old(world)),
                running_tick(*old(world)),
            ),
            same_frame(*old(world), *final(world)),
    {
        let mut cmds: Vec<(u32, GameCommand)> = Vec::new();
        std::mem::swap(&mut cmds, &mut self.pending);
        let bound = region_size_raw(world);
        let vertical = vertical_extent_raw(world);
        let hz = tick_hz(world);
        let tick = current_tick(world);
        proof {
            lemma_lettuce_fits(hz);
        }
        let ghost start_walking = self.walking@;
        let ghost start_crops = self.phased@;
        let ghost p0 = live_positions(*world);
        let ghost mut ids: Seq<u32> = Seq::empty();
        let mut i: usize = 0;
        while i < cmds.len()
            invariant
                self.wf(),
                self.pending@ == Seq::<(u32, GameCommand)>::empty(),
                cmds@ == old(self).pending@,
                start_walking == old(self).walking@,
                start_crops == old(self).phased@,
                p0 == live_positions(*old(world)),
                transitions_fit(lettuce_transitions(), hz),
                bound > 0,
                vertical > 0,
                region_raw(*world) == bound && vertical_raw(*world) == vertical,
                running_tick(*world) == tick && tick_rate(*world) == hz,
                region_raw(*old(world)) == bound && vertical_raw(*old(world)) == vertical,
                running_tick(*old(world)) == tick && tick_rate(*old(world)) == hz,
                i <= cmds@.len(),
                self.walking@ == walks_applied(start_walking, cmds@.take(i as int)),
                ids.len() == plantings(cmds@.take(i as int), bound).len(),
                fresh(ids, p0),
                live_positions(*world) == with_plants(p0, ids, plantings(cmds@.take(i as int), bound)),
                crops_planted(start_crops, self.phased@, ids, hz, tick),
            decreases cmds@.len() - i,
        {
            let (from, cmd) = cmds[i];
            assert(cmds@.take(i + 1).drop_last() =~= cmds@.take(i as int));
            assert(cmds@.take(i + 1).last() == cmds@[i as int]);
            proof {
                lemma_with_plants_dom(p0, ids, plantings(cmds@.take(i as int), bound));
            }
            match cmd {
                GameCommand::PlantLettuce { x, y } => {
                    let in_region = 0 <= x && 0 <= y && (x as i64) * (FIXED_ONE as i64) < bound as i64
                        && (y as i64) * (FIXED_ONE as i64) < bound as i64;
                    if in_region {
                        let xr = meters_raw(x);
                        let yr = meters_raw(y);
                        let zr = meters_raw(0);
                        let ghost before_crops = self.phased@;
                        let ghost pl = plantings(cmds@.take(i as int), bound);
                        let id = spawn_raw(world, (xr, yr, zr));
                        assert(!ids.contains(id));
                        assert(!p0.contains_key(id));
                        if !self.phased.contains(id) {
                            self.phased.insert(id, &self.prefabs.crops.lettuce, hz, tick);
                        }
                        proof {
                            let ids2 = ids.push(id);
                            let pl2 = pl.push((xr, yr, zr));
                            assert(plantings(cmds@.take(i + 1), bound) == pl2);
                            assert(ids2.drop_last() =~= ids);
                            assert(pl2.drop_last() =~= pl);
                            assert(ids2.no_duplicates()) by {
                                assert forall|a: int, b: int| 0 <= a < ids2.len() && 0 <= b < ids2.len() && a != b implies ids2[a] != ids2[b] by {
                                    if a == ids.len() {
                                        assert(ids.contains(ids2[b]));
                                    } else if b == ids.len() {
                                        assert(ids.contains(ids2[a]));
                                    }
                                }
                            }
                            assert forall|k: u32| #[trigger] ids2.contains(k) <==> ids.contains(k) || k == id by {
                                if k != id {
                                    lemma_push_contains(ids, id, k);
                                } else {
                                    assert(ids2[ids.len() as int] == id);
                                }
                            }
                            assert(crops_planted(start_crops, self.phased@, ids2, hz, tick));
                            ids = ids2;
                        }
                    } else {
                        assert(plantings(cmds@.take(i + 1), bound) == plantings(cmds@.take(i as int), bound));
                    }
                },
                GameCommand::Walk { heading } => {
                    assert(plantings(cmds@.take(i + 1), bound) == plantings(cmds@.take(i as int), bound));
                    match heading {
                        Some(h) => {
                            self.walking.insert(from, h);
                        },
                        None => {
                            self.walking.remove(&from);
                        },
                    }
                },
            }
            i = i + 1;
        }
        assert(cmds@.take(cmds@.len() as int) =~= cmds@);
        Ghost(ids)
    }

    /// Moves everyone who is walking one step along their heading, stopping
    /// at the region's edge. A farmer who has left the world is dropped from
    /// the table, so it tracks the living rather than everyone who ever
    /// walked.
    fn walk_everyone(&mut self, world: &mut umwelt::Step<'_>)
        requires
            old(self).wf(),
        ensures
            final(self).wf(),
            final(self).pending() == old(self).pending(),
            final(self).crops() == old(self).crops(),
            final(self).walking() == old(self).walking().restrict(live_positions(*old(world)).dom()),
            live_positions(*final(world)) == walked(
                live_positions(*old(world)),
                old(self).walking(),
                region_raw(*old(world)),
                vertical_raw(*old(world)),
            ),
            same_frame(*old(world), *final(world)),
    {
        let bound = region_size_raw(world);
        let vertical = vertical_extent_raw(world);
        let ids = walking_ids(&self.walking);
        let ghost start = self.walking@;
        let ghost p0 = live_positions(*world);
        let ghost r0 = region_raw(*world);
        let mut i: usize = 0;
        while i < ids.len()
            invariant
                self.wf(),
                self.pending@ == old(self).pending@,
                self.phased@ == old(self).phased@,
                start == old(self).walking@,
                p0 == live_positions(*old(world)),
                r0 == region_raw(*old(world)),
                vertical == vertical_raw(*old(world)),
                same_frame(*old(world), *world),
                bound == r0,
                bound > 0,
                ids@.to_set() == start.dom(),
                ids@.no_duplicates(),
                i <= ids@.len(),
                forall|k: u32| #[trigger]
                    self.walking@.contains_key(k) <==> (start.contains_key(k) && (ids@.take(
                        i as int,
                    ).contains(k) ==> p0.contains_key(k))),
                forall|k: u32| #[trigger] self.walking@.contains_key(k) ==> self.walking@[k] == start[k],
                live_positions(*world) == Map::new(
                    |k: u32| p0.contains_key(k),
                    |k: u32|
                        if start.contains_key(k) && ids@.take(i as int).contains(k) {
                            walked(p0, start, r0, vertical)[k]
                        } else {
                            p0[k]
                        },
                ),
            decreases ids@.len() - i,
        {
            let id = ids[i];
            assert(ids@.take(i + 1) =~= ids@.take(i as int).push(id));
            assert(!ids@.take(i as int).contains(id)) by {
                if ids@.take(i as int).contains(id) {
                    let j = choose|j: int| 0 <= j < i && ids@.take(i as int)[j] == id;
                    assert(ids@[j] == ids@[i as int]);
                }
            }
            assert(start.contains_key(id)) by {
                assert(ids@.to_set().contains(id));
            }
            assert(ids@.take(i + 1)[i as int] == id);
            assert(ids@.take(i + 1).contains(id));
            assert forall|k: u32| k != id implies ids@.take(i + 1).contains(k) == ids@.take(
                i as int,
            ).contains(k) by {
                lemma_push_contains(ids@.take(i as int), id, k);
            }
            match self.walking.get(&id) {
                Some(heading) => {
                    let heading = *heading;
                    match position_raw(world, id) {
                        Some(at) => {
                            assert(live_positions(*world).contains_key(id));
                            assert(p0.contains_key(id));
                            assert(live_positions(*world)[id] == p0[id]);
                            assert(at == p0[id]);
                            if 0 <= at.2 && at.2 < vertical {
                                let to = walk_target(at, heading, bound);
                                move_to_raw(world, id, to);
                                assert(heading == start[id]);
                                assert(walked(p0, start, r0, vertical)[id] == to);
                            } else {
                                assert(walked(p0, start, r0, vertical)[id] == p0[id]);
                            }
                            assert(live_positions(*world) =~= Map::new(
                                |k: u32| p0.contains_key(k),
                                |k: u32|
                                    if start.contains_key(k) && ids@.take(i + 1).contains(k) {
                                        walked(p0, start, r0, vertical)[k]
                                    } else {
                                        p0[k]
                                    },
                            ));
                        },
                        None => {
                            self.walking.remove(&id);
                            assert(live_positions(*world) =~= Map::new(
                                |k: u32| p0.contains_key(k),
                                |k: u32|
                                    if start.contains_key(k) && ids@.take(i + 1).contains(k) {
                                        walked(p0, start, r0, vertical)[k]
                                    } else {
                                        p0[k]
                                    },
                            ));
                        },
                    }
                },
                None => {
                    assert(false);
                },
            }
            assert forall|k: u32| #[trigger]
                self.walking@.contains_key(k) <==> (start.contains_key(k) && (ids@.take(i + 1).contains(k)
                    ==> p0.contains_key(k))) by {
                if k == id {
                    assert(ids@.take(i + 1)[i as int] == id);
                }
            }
            i = i + 1;
        }
        assert(ids@.take(ids@.len() as int) =~= ids@);
        assert forall|k: u32| start.contains_key(k) implies ids@.contains(k) by {
            assert(ids@.to_set().contains(k));
        }
        assert(self.walking@ =~= start.restrict(p0.dom()));
        assert(live_positions(*world) =~= walked(p0, start, r0, vertical));
    }

    /// One tick of the game: the waiting commands are applied, so each
    /// planting inside the region puts a seed on a fresh entity and each walk
    /// starts, changes or stops a heading; everyone walking takes one step;
    /// and every crop's tag is worked out from its age at the running tick.
    /// Returns each crop's entity id and tag.
    pub fn step(&mut self, world: &mut umwelt::Step<'_>) -> (r: Vec<(u32, u16)>)
        requires
            old(self).wf(),
        ensures
            final(self).wf(),
            final(self).pending() == Seq::<(u32, GameCommand)>::empty(),
            exists|ids: Seq<u32>|
                #![trigger fresh(ids, live_positions(*old(world)))]
                {
                    &&& ids.len() == plantings(old(self).pending(), region_raw(*old(world))).len()
                    &&& fresh(ids, live_positions(*old(world)))
                    &&& crops_planted(
                        old(self).crops(),
                        final(self).crops(),
                        ids,
                        tick_rate(*old(world)),
                        running_tick(*old(world)),
                    )
                    &&& final(self).walking() == walks_applied(
                        old(self).walking(),
                        old(self).pending(),
                    ).restrict(
                        with_plants(
                            live_positions(*old(world)),
                            ids,
                            plantings(old(self).pending(), region_raw(*old(world))),
                        ).dom(),
                    )
                    &&& live_positions(*final(world)) == walked(
                        with_plants(
                            live_positions(*old(world)),
                            ids,
                            plantings(old(self).pending(), region_raw(*old(world))),
                        ),
                        walks_applied(old(self).walking(), old(self).pending()),
                        region_raw(*old(world)),
                        vertical_raw(*old(world)),
                    )
                },
            forall|k: u32| #[trigger]
                final(self).crops().contains_key(k) ==> final(self).crops()[k].0 == LETTUCE_SEED,
            r@.len() == final(self).crops().dom().len(),
            forall|k: u32|
                final(self).crops().contains_key(k) ==> exists|i: int|
                    0 <= i < r@.len() && #[trigger] r@[i].0 == k,
            tags_at(final(self).crops(), r@, running_tick(*old(world))),
    {
        let planted = self.apply_commands(world);
        self.walk_everyone(world);
        let tick = current_tick(world);
        assert forall|k: u32| #[trigger] self.phased@.contains_key(k) implies crate::prefab::advance_fits(
            self.phased@[k],
            tick,
        ) by {
            let p = self.phased@[k];
            assert(p.1.len() == 3);
            assert forall|phase: int| is_phase_at(p.1, age_at(tick, p.2), phase) implies p.0 + phase
                <= u16::MAX by {}
        }
        let tags = self.phased.advance_all(tick);
        assert(tags_at(self.phased@, tags@, tick));
        assert(fresh(planted@, live_positions(*old(world))));
        tags
    }
}

/// Planting adds exactly the planted ids to the live entities.
proof fn lemma_with_plants_dom(
    positions: Map<u32, (i32, i32, i32)>,
    ids: Seq<u32>,
    at: Seq<(i32, i32, i32)>,
)
    requires
        ids.len() == at.len(),
    ensures
        forall|k: u32|
            #[trigger] with_plants(positions, ids, at).contains_key(k) <==> positions.contains_key(k)
                || ids.contains(k),
    decreases ids.len(),
{
    if ids.len() > 0 {
        lemma_with_plants_dom(positions, ids.drop_last(), at.drop_last());
        let inner = with_plants(positions, ids.drop_last(), at.drop_last());
        assert(with_plants(positions, ids, at) == inner.insert(ids.last(), at.last()));
        assert forall|k: u32| #[trigger] with_plants(positions, ids, at).contains_key(k) <==> positions.contains_key(k)
            || ids.contains(k) by {
            assert(inner.contains_key(k) <==> positions.contains_key(k) || ids.drop_last().contains(k));
            if k != ids.last() {
                lemma_push_contains(ids.drop_last(), ids.last(), k);
                assert(ids.drop_last().push(ids.last()) =~= ids);
            } else {
                assert(ids[ids.len() - 1] == k);
            }
        }
    }
}

/// A value other than the one pushed is in a list after the push exactly
/// when it was before.
proof fn lemma_push_contains(s: Seq<u32>, v: u32, k: u32)
    requires
        k != v,
    ensures
        s.push(v).contains(k) == s.contains(k),
{
    if s.contains(k) {
        let j = choose|j: int| 0 <= j < s.len() && s[j] == k;
        assert(s.push(v)[j] == k);
    }
    if s.push(v).contains(k) {
        let j = choose|j: int| 0 <= j < s.push(v).len() && s.push(v)[j] == k;
        assert(j < s.len());
        assert(s[j] == k);
    }
}

/// The ids of everyone in a walking table, each once.
fn walking_ids(walking: &HashMap<u32, Heading>) -> (r: Vec<u32>)
    ensures
        r@.to_set() == walking@.dom(),
        r@.no_duplicates(),
{
    let mut out: Vec<u32> = Vec::new();
    let ghost all = vstd::std_specs::hash::spec_keys_iter(walking).remaining();
    let ghost keys = all.unref();
    proof {
        broadcast use vstd::std_specs::hash::axiom_spec_keys_iter;
        assert(all.unref().to_set() == walking@.dom());
        assert(all.no_duplicates());
    }
    for k in it: walking.keys()
        invariant
            it.seq() == all,
            keys == all.unref(),
            out@.len() == it.index(),
            out@.len() <= keys.len(),
            forall|j: int| 0 <= j < out@.len() ==> out@[j] == keys[j],
    {
        out.push(*k);
    }
    assert(out@ =~= keys);
    proof {
        assert(keys.no_duplicates()) by {
            assert forall|a: int, b: int| 0 <= a < keys.len() && 0 <= b < keys.len() && a != b implies keys[a]
                != keys[b] by {
                assert(all[a] != all[b]);
            }
        }
    }
    out
}

} // verus!
