use mildew_valley::pace::{
    SPEED_LIMIT_M_PER_SEC, TICK_HZ, TICK_MS, WALK_MM_PER_SEC, WALK_STEP_DIAGONAL_MM, WALK_STEP_MM,
};

/// One server tick, in seconds.
fn tick() -> f32 {
    1.0 / TICK_HZ as f32
}

/// Walking speed in meters per second.
fn walk_m_per_sec() -> f32 {
    WALK_MM_PER_SEC as f32 / 1000.0
}

#[test]
fn a_tick_is_the_reciprocal_of_the_rate() {
    assert!((tick() * TICK_HZ as f32 - 1.0).abs() < f32::EPSILON);
}

#[test]
fn a_tick_of_walking_is_a_sane_step() {
    // Far enough to be worth sending, short enough that a dropped packet
    // does not teleport anyone.
    let step = walk_m_per_sec() * tick();
    assert!((0.05..1.0).contains(&step), "a tick covers {step} m");
}

/// A corner covers the same ground as a side, within the millimeter the
/// step is rounded to.
#[test]
fn a_diagonal_step_is_the_same_length_as_a_straight_one() {
    let d = WALK_STEP_DIAGONAL_MM as f32;
    let diagonal = (d * d * 2.0).sqrt();
    assert!(
        (diagonal - WALK_STEP_MM as f32).abs() < 1.0,
        "a diagonal covers {diagonal} mm against {WALK_STEP_MM}"
    );
}

#[test]
fn the_millimeter_step_is_the_walking_rate_for_one_tick() {
    assert_eq!(TICK_MS * TICK_HZ, 1000);
    assert_eq!(WALK_MM_PER_SEC, WALK_STEP_MM as u32 * TICK_HZ);
    assert!(WALK_MM_PER_SEC < SPEED_LIMIT_M_PER_SEC * 1000);
    let mm = walk_m_per_sec() * tick() * 1000.0;
    assert!((mm - WALK_STEP_MM as f32).abs() < 0.5);
}
