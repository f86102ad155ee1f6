use std::sync::{Arc, Mutex};

use mildew_valley::command::{GameCommand, Heading};
use mildew_valley::game::{clamp_axis, walk_target, MildewValleyGame};
use mildew_valley::pace::{WALK_STEP_DIAGONAL_MM, WALK_STEP_MM};
use mildew_valley::tags::{LETTUCE_RIPE, LETTUCE_SEED};
use umwelt::{EntityId, Fixed, Game, Step, WorldConfig, WorldSimulation};

/// Messages waiting for the next tick, each with its sender.
type Inbox = Arc<Mutex<Vec<(u32, Vec<u8>)>>>;

/// The game as a region runs it: messages that arrived are handed over at the
/// start of a tick, and the crops' tags are kept from the last one.
struct Region {
    game: MildewValleyGame,
    inbox: Inbox,
    tags: Vec<(u32, u16)>,
}

impl Game for Region {
    fn step(&mut self, world: &mut Step<'_>) {
        let waiting: Vec<(u32, Vec<u8>)> = self.inbox.lock().unwrap().drain(..).collect();
        for (from, body) in waiting {
            self.game.message_received(from, &body);
        }
        self.tags = self.game.step(world);
    }
}

struct Sim {
    sim: WorldSimulation<Region>,
    inbox: Inbox,
}

impl Sim {
    fn new() -> Sim {
        let inbox: Inbox = Arc::new(Mutex::new(Vec::new()));
        let region = Region { game: MildewValleyGame::new(), inbox: Arc::clone(&inbox), tags: Vec::new() };
        Sim { sim: WorldSimulation::new(WorldConfig::default(), region), inbox }
    }

    fn deliver(&self, from: u32, cmd: &GameCommand) {
        self.inbox.lock().unwrap().push((from, cmd.encode()));
    }

    fn tick(&mut self) {
        self.sim.tick();
    }

    fn position(&self, id: u32) -> Option<umwelt::Pos3> {
        self.sim.position(EntityId::from_raw(id))
    }

    fn tag(&self, id: u32) -> Option<u16> {
        self.sim.game().tags.iter().find(|(e, _)| *e == id).map(|(_, t)| *t)
    }
}

/// Nothing here spawns farmers, so a planted crop stands in for one. The walk
/// applies to whatever entity a heading names.
fn plant(sim: &mut Sim, x: i32, y: i32, nth: u32) -> u32 {
    sim.deliver(0, &GameCommand::PlantLettuce { x, y });
    sim.tick();
    nth
}

fn walk(sim: &Sim, who: u32, heading: Option<Heading>) {
    sim.deliver(who, &GameCommand::Walk { heading });
}

fn step_raw() -> i32 {
    Fixed::from_millimeters(0, WALK_STEP_MM).raw()
}

fn mm_raw(v: i32) -> i32 {
    Fixed::from_millimeters(0, v).raw()
}

#[test]
fn a_farmer_walks_the_way_it_was_told() {
    let mut s = Sim::new();
    let who = plant(&mut s, 100, 100, 0);
    let before = s.position(who).expect("planted");

    walk(&s, who, Some(Heading::East));
    s.tick();

    let after = s.position(who).expect("still here");
    assert_eq!(after.y, before.y, "east does not change y");
    assert_eq!(after.x.raw() - before.x.raw(), step_raw(), "one step east");
}

#[test]
fn one_command_keeps_a_farmer_walking() {
    let mut s = Sim::new();
    let who = plant(&mut s, 100, 100, 0);
    let before = s.position(who).expect("planted");

    walk(&s, who, Some(Heading::North));
    for _ in 0..10 {
        s.tick();
    }

    let after = s.position(who).expect("still here");
    assert_eq!(after.y.raw() - before.y.raw(), step_raw() * 10, "ten steps");
}

#[test]
fn a_halt_stops_a_farmer() {
    let mut s = Sim::new();
    let who = plant(&mut s, 100, 100, 0);

    walk(&s, who, Some(Heading::North));
    s.tick();
    let stopped_at = s.position(who).expect("still here");

    walk(&s, who, None);
    for _ in 0..5 {
        s.tick();
    }

    assert_eq!(s.position(who), Some(stopped_at), "a halted farmer stays put");
}

#[test]
fn every_heading_covers_one_walk_step() {
    let want = step_raw() as f32;
    for heading in [
        Heading::North,
        Heading::NorthEast,
        Heading::East,
        Heading::SouthEast,
        Heading::South,
        Heading::SouthWest,
        Heading::West,
        Heading::NorthWest,
    ] {
        let (dx, dy) = heading.step_mm();
        let (x, y) = (mm_raw(dx) as f32, mm_raw(dy) as f32);
        let covered = (x * x + y * y).sqrt();
        assert!((covered - want).abs() <= 2.0, "{heading:?} covers {covered} against {want}");
    }
}

#[test]
fn a_farmer_stops_at_the_region_edge() {
    let mut s = Sim::new();
    let who = plant(&mut s, 1, 1, 0);

    walk(&s, who, Some(Heading::SouthWest));
    for _ in 0..100 {
        s.tick();
    }

    let at = s.position(who).expect("still here");
    assert!(at.x.raw() >= 0 && at.y.raw() >= 0, "inside the region at {at:?}");
    assert_eq!((at.x.raw(), at.y.raw()), (0, 0), "pressed into the corner");
}

#[test]
fn a_heading_for_nobody_is_forgotten() {
    let mut s = Sim::new();
    walk(&s, 9_999, Some(Heading::North));
    s.tick();
    assert_eq!(s.sim.game().game.walkers(), 0, "no heading survives its entity");
}

#[test]
fn a_plant_lettuce_command_produces_ripe_lettuce() {
    let mut s = Sim::new();
    s.deliver(0, &GameCommand::PlantLettuce { x: 0, y: 0 });

    // One tick to process the pending command.
    s.tick();
    assert_eq!(s.tag(0), Some(LETTUCE_SEED));

    // Enough ticks for it to ripen (20 Hz, transitions at 2s + 3s + 10s = 15s).
    for _ in 0..400 {
        s.tick();
    }
    assert_eq!(s.tag(0), Some(LETTUCE_RIPE));
}

#[test]
fn lettuce_sprouts_after_two_seconds() {
    let mut s = Sim::new();
    s.deliver(0, &GameCommand::PlantLettuce { x: 3, y: 4 });
    s.tick();
    // Forty ticks at 20 Hz is two seconds; the tick that plants it is age 0.
    for _ in 0..39 {
        s.tick();
    }
    assert_eq!(s.tag(0), Some(LETTUCE_SEED));
    s.tick();
    assert_eq!(s.tag(0), Some(LETTUCE_SEED + 1));
}

#[test]
fn a_planting_outside_the_region_is_refused() {
    let mut s = Sim::new();
    s.deliver(0, &GameCommand::PlantLettuce { x: -1, y: 5 });
    s.deliver(0, &GameCommand::PlantLettuce { x: 4096, y: 5 });
    s.tick();
    assert!(s.sim.game().tags.is_empty());
    assert_eq!(s.sim.entity_count(), 0);
}

#[test]
fn garbage_from_a_client_is_dropped() {
    let mut s = Sim::new();
    s.inbox.lock().unwrap().push((7, vec![0xFF, 0xFF]));
    s.tick();
    assert_eq!(s.sim.game().game.walkers(), 0);
    assert!(s.sim.game().tags.is_empty());
}

#[test]
fn a_step_stops_one_unit_short_of_the_far_edge() {
    assert_eq!(clamp_axis(10, 5, 100), 15);
    assert_eq!(clamp_axis(98, 5, 100), 99);
    assert_eq!(clamp_axis(3, -5, 100), 0);
    assert_eq!(clamp_axis(i32::MAX, 5, 100), 99);
    let to = walk_target((0, 500, 7), Heading::NorthWest, 1000);
    assert_eq!(to, (0, 500 + mm_raw(WALK_STEP_DIAGONAL_MM), 7));
    assert_eq!(mm_raw(WALK_STEP_DIAGONAL_MM), 162);
}

#[test]
fn a_crop_is_planted_where_it_was_asked() {
    let mut s = Sim::new();
    s.deliver(0, &GameCommand::PlantLettuce { x: 3, y: 4 });
    s.tick();
    let at = s.position(0).expect("planted");
    assert_eq!((at.x.raw(), at.y.raw(), at.z.raw()), (3 * 1024, 4 * 1024, 0));
}

#[test]
fn a_step_in_raw_units_is_the_step_in_millimeters_converted() {
    assert_eq!(mildew_valley::game::step_raw(Heading::East), (230, 0));
    assert_eq!(mildew_valley::game::step_raw(Heading::South), (0, -230));
    assert_eq!(mildew_valley::game::step_raw(Heading::NorthEast), (162, 162));
    assert_eq!(mildew_valley::game::step_raw(Heading::East).0, step_raw());
}
