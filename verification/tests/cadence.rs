use mildew_valley::cadence::{analyse, can_analyse, Cadence, Seen, INTERP_DELAY_TICKS};

fn at(tick: u32, x: i32) -> Seen {
    Seen { tick, x, y: 7 }
}

#[test]
fn a_steady_walk_shows_no_error() {
    let seen: Vec<Seen> = (0..10).map(|t| at(100 + t, 1000 + 230 * t as i32)).collect();
    let c = analyse(&seen, (230, 0)).expect("enough to measure");
    assert_eq!(c.gaps, vec![1; 9]);
    assert_eq!(c.worst_error, 0);
    assert_eq!(c.total_error, 0);
    assert_eq!(c.quantum, 230);
    assert_eq!(c.stalled, 0);
    assert_eq!(c.spanned, 9);
}

#[test]
fn a_skipped_step_shows_as_an_error_and_a_long_gap_as_a_stall() {
    let seen = vec![at(0, 0), at(1, 230), at(5, 230 * 4), at(5, 999), at(6, 230 * 5 + 3)];
    let c = analyse(&seen, (230, 0)).expect("enough to measure");
    // The repeated tick has no gap and is left out.
    assert_eq!(c.gaps, vec![1, 4, 1]);
    // 1..5 covered three steps for a gap of four; 999 to 1153 is 154 for one.
    assert_eq!(c.worst_error, 230);
    assert_eq!(c.total_error, 230 + 76);
    assert_eq!(c.quantum, 154);
    assert!(4 > INTERP_DELAY_TICKS);
    assert_eq!(c.stalled, 1);
    assert_eq!(c.spanned, 6);
}

#[test]
fn too_few_sightings_measure_nothing() {
    assert!(analyse(&[], (230, 0)).is_none());
    assert!(analyse(&[at(3, 0)], (230, 0)).is_none());
    assert!(analyse(&[at(3, 0), at(3, 0)], (230, 0)).is_none(), "no two a tick apart");
}

#[test]
fn a_run_that_goes_back_or_jumps_too_far_cannot_be_measured() {
    assert!(can_analyse(&[at(0, 0), at(1, 230)], (230, 0)));
    assert!(can_analyse(&[], (230, 0)));
    assert!(!can_analyse(&[at(5, 0), at(4, 230)], (230, 0)), "the last is before the first");
    assert!(!can_analyse(&[at(0, i32::MIN), at(1, i32::MAX)], (230, 0)), "the ground covered overflows");
    assert!(!can_analyse(&[at(0, 0), at(u32::MAX, 0)], (230, 0)), "the gap times a step overflows");
}

fn cadence_of(gaps: Vec<u32>, worst_error: i32, quantum: i32) -> Cadence {
    Cadence { gaps, worst_error, total_error: 0, quantum, stalled: 0, spanned: 0 }
}

#[test]
fn gaps_come_out_smallest_first_with_every_one_kept() {
    let c = cadence_of(vec![3, 1, 2, 1, 5], 0, 1);
    assert_eq!(c.gaps_in_order(), vec![1, 1, 2, 3, 5]);
    assert_eq!(c.gap_median_and_worst(), (2, 5));
    let even = cadence_of(vec![4, 1, 3, 2], 0, 1);
    assert_eq!(even.gap_median_and_worst(), (3, 4), "the upper of the middle two");
}

#[test]
fn a_walk_keeps_pace_while_its_worst_error_is_within_the_quantum() {
    assert!(cadence_of(vec![1], 230, 230).kept_pace());
    assert!(!cadence_of(vec![1], 231, 230).kept_pace());
}
