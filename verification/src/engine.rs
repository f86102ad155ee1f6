//! The calls the game makes into the umwelt simulation engine.
//!
//! Positions cross this boundary as raw fixed-point coordinates: an `i32`
//! with ten fractional bits, so one meter is 1024 units. What the world holds
//! is the engine's state: where each live entity stands is named, and reads
//! and moves are stated over that name as the engine's source shows them.
use vstd::prelude::*;

verus! {

/// One tick of an umwelt world, as handed to the game.
#[verifier::external_type_specification]
#[verifier::external_body]
pub struct ExStep<'a>(umwelt::Step<'a>);

/// Raw units in one meter.
pub const FIXED_ONE: i32 = 1024;

/// The raw units of a whole number of millimeters, rounded toward zero.
pub open spec fn spec_millimeters_raw(mm: i32) -> int {
    if mm >= 0 {
        (mm * FIXED_ONE) as int / 1000
    } else {
        -((-(mm * FIXED_ONE)) as int / 1000)
    }
}

/// Calls `Fixed::from_meters` and reads the raw value: whole meters times
/// 1024, as its source computes.
#[verifier::external_body]
pub(crate) fn meters_raw(m: i32) -> (r: i32)
    requires
        i32::MIN <= m * FIXED_ONE <= i32::MAX,
    ensures
        r == m * FIXED_ONE,
{
    umwelt::Fixed::from_meters(m).raw()
}

/// Calls `Fixed::from_millimeters(0, mm)` and reads the raw value: the
/// millimeters times 1024, divided by 1000 and rounded toward zero, as its
/// source computes.
#[verifier::external_body]
pub(crate) fn millimeters_raw(mm: i32) -> (r: i32)
    requires
        i32::MIN <= mm * FIXED_ONE <= i32::MAX,
    ensures
        r == spec_millimeters_raw(mm),
{
    umwelt::Fixed::from_millimeters(0, mm).raw()
}

/// Where each live entity of a world stands, by id, in raw coordinates: what
/// `Step::position` reads and `Step::move_to` writes.
pub uninterp spec fn live_positions(world: umwelt::Step<'_>) -> Map<u32, (i32, i32, i32)>;

/// The raw side of a world's region, as its configuration holds it.
pub uninterp spec fn region_raw(world: umwelt::Step<'_>) -> i32;

/// The raw height of a world's vertical range, as its configuration holds it.
pub uninterp spec fn vertical_raw(world: umwelt::Step<'_>) -> i32;

/// The tick a world is running.
pub uninterp spec fn running_tick(world: umwelt::Step<'_>) -> u32;

/// The ticks a second a world's configuration runs at.
pub uninterp spec fn tick_rate(world: umwelt::Step<'_>) -> u32;

/// Whether raw coordinates lie inside a world's region and vertical range, as
/// `WorldConfig::contains` decides it.
pub open spec fn inside(world: umwelt::Step<'_>, at: (i32, i32, i32)) -> bool {
    &&& 0 <= at.0 < region_raw(world)
    &&& 0 <= at.1 < region_raw(world)
    &&& 0 <= at.2 < vertical_raw(world)
}

/// What a move or a spawn leaves alone: the configuration and the tick.
pub open spec fn same_frame(before: umwelt::Step<'_>, after: umwelt::Step<'_>) -> bool {
    &&& region_raw(after) == region_raw(before)
    &&& vertical_raw(after) == vertical_raw(before)
    &&& running_tick(after) == running_tick(before)
    &&& tick_rate(after) == tick_rate(before)
}

/// Calls `Step::position` for an entity id, as raw coordinates. Claims what
/// its source shows: `None` for an entity that is not alive, and otherwise
/// where it stands.
#[verifier::external_body]
pub(crate) fn position_raw(world: &umwelt::Step<'_>, id: u32) -> (r: Option<(i32, i32, i32)>)
    ensures
        r == (if live_positions(*world).contains_key(id) {
            Some(live_positions(*world)[id])
        } else {
            None
        }),
{
    match world.position(umwelt::EntityId::from_raw(id)) {
        Some(at) => Some((at.x.raw(), at.y.raw(), at.z.raw())),
        None => None,
    }
}

/// Calls `Step::move_to` with raw coordinates, at a destination inside the
/// region, which debug builds of the engine assert. Claims what its source
/// shows: a live entity now stands at `at`, an id that is not alive is
/// ignored, nothing else moves, and the configuration and tick are untouched.
#[verifier::external_body]
pub(crate) fn move_to_raw(world: &mut umwelt::Step<'_>, id: u32, at: (i32, i32, i32))
    requires
        inside(*old(world), at),
    ensures
        live_positions(*final(world)) == (if live_positions(*old(world)).contains_key(id) {
            live_positions(*old(world)).insert(id, at)
        } else {
            live_positions(*old(world))
        }),
        same_frame(*old(world), *final(world)),
{
    world.move_to(
        umwelt::EntityId::from_raw(id),
        umwelt::Pos3::new(
            umwelt::Fixed::from_raw(at.0),
            umwelt::Fixed::from_raw(at.1),
            umwelt::Fixed::from_raw(at.2),
        ),
    )
}

/// Calls `Step::spawn` with raw coordinates inside the region, which debug
/// builds of the engine assert, and returns the new entity's id. Claims what
/// its source shows: slots are never reused, so the id names no entity that
/// was alive; it is alive at `at` afterwards; nothing else moves; and the
/// configuration and tick are untouched. The id is the slot count read as a
/// `u32`, so the claim that it is new rests on the world holding fewer than
/// 2^32 slots, which the engine's 32-bit ids presuppose; which new id comes
/// back is not claimed.
#[verifier::external_body]
pub(crate) fn spawn_raw(world: &mut umwelt::Step<'_>, at: (i32, i32, i32)) -> (r: u32)
    requires
        inside(*old(world), at),
    ensures
        !live_positions(*old(world)).contains_key(r),
        live_positions(*final(world)) == live_positions(*old(world)).insert(r, at),
        same_frame(*old(world), *final(world)),
{
    world.spawn(
        umwelt::Pos3::new(
            umwelt::Fixed::from_raw(at.0),
            umwelt::Fixed::from_raw(at.1),
            umwelt::Fixed::from_raw(at.2),
        ),
    ).raw()
}

/// Calls `Step::tick`, which reads the tick the world is running.
#[verifier::external_body]
pub(crate) fn current_tick(world: &umwelt::Step<'_>) -> (r: u32)
    ensures
        r == running_tick(*world),
{
    world.tick()
}

/// Calls `WorldConfig::tick_hz` on the world's configuration. A configuration
/// only comes out of the engine's validating builder, which refuses a rate
/// that is zero or does not divide 1000.
#[verifier::external_body]
pub(crate) fn tick_hz(world: &umwelt::Step<'_>) -> (r: u32)
    ensures
        r == tick_rate(*world),
        1 <= r <= 1000,
        1000u32 % r == 0,
{
    world.config().tick_hz()
}

/// Calls `WorldConfig::region_size` on the world's configuration, as raw
/// units. The engine's validating builder refuses a size that is not
/// positive.
#[verifier::external_body]
pub(crate) fn region_size_raw(world: &umwelt::Step<'_>) -> (r: i32)
    ensures
        r == region_raw(*world),
        r > 0,
{
    world.config().region_size().raw()
}

/// Calls `WorldConfig::vertical_extent` on the world's configuration, as raw
/// units. The engine's validating builder refuses an extent that is not
/// positive.
#[verifier::external_body]
pub(crate) fn vertical_extent_raw(world: &umwelt::Step<'_>) -> (r: i32)
    ensures
        r == vertical_raw(*world),
        r > 0,
{
    world.config().vertical_extent().raw()
}

} // verus!
