//! How fast things happen.
//!
//! Shared so that a bot loads the server the way a person does. Rates are held
//! as whole numbers: the simulation works in fixed point, so a walk is a whole
//! number of millimeters per tick rather than a rate multiplied by a frame time.
use vstd::prelude::*;

verus! {

/// The rate the simulation ticks at, per second.
pub const TICK_HZ: u32 = 20;

/// One server tick, in milliseconds.
pub const TICK_MS: u32 = 50;

/// The fastest the simulation will accept, in meters per second.
pub const SPEED_LIMIT_M_PER_SEC: u32 = 40;

/// How fast a farmer walks, in millimeters per second (4.5 m/s).
///
/// Well under the limit. The headroom is for mounts and vehicles later.
pub const WALK_MM_PER_SEC: u32 = 4500;

/// How far one tick of walking covers, in millimeters.
pub const WALK_STEP_MM: i32 = 225;

/// One axis of a diagonal step, `WALK_STEP_MM / sqrt(2)`, so walking into a
/// corner is not faster than walking along a side.
pub const WALK_STEP_DIAGONAL_MM: i32 = 159;

/// The pace constants agree with one another: a tick is the reciprocal of the
/// rate, a walk is under the speed limit, the millimeter step is exactly the
/// walking rate expressed for one tick, one tick of walking stays under what
/// the limit allows in a tick, and a diagonal step covers the same ground as a
/// straight one to within a millimeter.
pub proof fn lemma_pace_is_consistent()
    ensures
        TICK_HZ > 0,
        TICK_MS * TICK_HZ == 1000,
        WALK_MM_PER_SEC < SPEED_LIMIT_M_PER_SEC * 1000,
        WALK_MM_PER_SEC == WALK_STEP_MM * TICK_HZ,
        WALK_STEP_MM * TICK_HZ < SPEED_LIMIT_M_PER_SEC * 1000,
        (WALK_STEP_MM - 1) * (WALK_STEP_MM - 1) < 2 * WALK_STEP_DIAGONAL_MM * WALK_STEP_DIAGONAL_MM,
        2 * WALK_STEP_DIAGONAL_MM * WALK_STEP_DIAGONAL_MM < (WALK_STEP_MM + 1) * (WALK_STEP_MM + 1),
{
}

} // verus!
