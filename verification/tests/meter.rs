use mildew_valley::meter::{at_rank, longest, Meter, TickSample, Window};

/// The value at quantile `q` of a sorted list, by nearest rank.
fn pct(sorted: &[u64], q: f64) -> u64 {
    at_rank(sorted, (q * sorted.len() as f64).ceil() as usize)
}

fn d(millis: u64) -> u64 {
    millis * 1_000_000
}

#[test]
fn a_percentile_picks_a_measured_value() {
    let sorted: Vec<u64> = (1..=10).map(d).collect();
    assert_eq!(pct(&sorted, 0.50), d(5));
    assert_eq!(pct(&sorted, 0.99), d(10));
    assert_eq!(pct(&sorted, 0.0), d(1));
}

#[test]
fn a_percentile_of_nothing_is_zero_rather_than_a_panic() {
    assert_eq!(pct(&[], 0.5), 0);
}

#[test]
fn one_sample_is_every_percentile() {
    assert_eq!(pct(&[d(7)], 0.5), d(7));
    assert_eq!(pct(&[d(7)], 0.99), d(7));
}

#[test]
fn a_single_slow_tick_shows_up_in_the_maximum() {
    let mut took: Vec<u64> = (0..99).map(|_| d(1)).collect();
    took.push(d(500));
    took.sort_unstable();
    assert_eq!(pct(&took, 0.50), d(1));
    assert_eq!(pct(&took, 0.99), d(1));
    assert_eq!(longest(&took), d(500));
}

#[test]
fn a_rank_past_the_end_reads_the_last() {
    assert_eq!(at_rank(&[3, 4, 5], 0), 3);
    assert_eq!(at_rank(&[3, 4, 5], 2), 4);
    assert_eq!(at_rank(&[3, 4, 5], 99), 5);
    assert_eq!(longest(&[]), 0);
    assert_eq!(longest(&[4, 9, 2]), 9);
}

fn sample(took: u64, late: u64, viewers: u64) -> TickSample {
    TickSample {
        took_nanos: took,
        late_nanos: late,
        viewers,
        candidates: 10,
        records: 4,
        bytes: 100,
        new_ghosts: 1,
        departed: 0,
        sink_nanos: 50,
    }
}

#[test]
fn a_window_keeps_every_tick_and_only_the_late_ones() {
    let mut w = Window::new();
    w.fold(&sample(5, 0, 2));
    w.fold(&sample(7, 3, 1));
    w.fold(&sample(6, 0, 4));
    assert_eq!(w.took, vec![5, 7, 6]);
    assert_eq!(w.late, vec![3]);
    assert_eq!(w.viewers, 7);
    assert_eq!(w.candidates, 30);
    assert_eq!(w.records, 12);
    assert_eq!(w.bytes, 300);
    assert_eq!(w.new_ghosts, 3);
    assert_eq!(w.departed, 0);
    assert_eq!(w.sink_nanos, 150);
}

#[test]
fn a_meter_hands_over_its_window_once_the_interval_passes() {
    // An interval of zero has always passed, so every tick closes a window.
    let mut m = Meter::new(0).with_threads(0);
    assert_eq!(m.thread_count(), 1, "zero workers reads as one");
    let (w, _) = m.observe(&sample(5, 0, 2)).expect("the interval has passed");
    assert_eq!(w.took, vec![5]);
    let (w, span) = m.observe(&sample(9, 1, 2)).expect("a fresh window each time");
    assert_eq!(w.took, vec![9]);
    assert_eq!(w.late, vec![1]);
    assert!(span < 60_000_000_000, "a window of a moment, not a minute");
}

#[test]
fn a_meter_holds_its_window_until_the_interval_passes() {
    // An hour will not pass during the test.
    let mut m = Meter::new(3_600_000_000_000).with_threads(4);
    assert_eq!(m.thread_count(), 4);
    assert!(m.observe(&sample(5, 0, 2)).is_none());
    assert!(m.observe(&sample(6, 0, 2)).is_none());
    m.reset();
    assert!(m.observe(&sample(7, 0, 2)).is_none());
}

#[test]
fn a_meter_says_when_a_tick_would_overflow_its_counters() {
    let mut m = Meter::new(3_600_000_000_000);
    let mut big = sample(1, 0, u64::MAX);
    assert!(m.can_observe(&big));
    assert!(m.observe(&big).is_none());
    big.viewers = 1;
    assert!(!m.can_observe(&big), "one more viewer would wrap");
    m.reset();
    assert!(m.can_observe(&big));
}

#[test]
fn a_window_is_handed_over_exactly_when_its_span_reaches_the_interval() {
    let mut m = Meter::new(1_000);
    assert!(m.observe_at(&sample(5, 0, 1), 999).is_none(), "one short of the interval");
    let (w, span) = m.observe_at(&sample(7, 2, 2), 1_000).expect("the interval is reached");
    assert_eq!(span, 1_000);
    assert_eq!(w.took, vec![5, 7]);
    assert_eq!(w.late, vec![2]);
    assert_eq!(w.viewers, 3);
    assert!(m.observe_at(&sample(9, 0, 1), 10).is_none(), "a fresh window starts");
    let (w, span) = m.observe_at(&sample(4, 0, 1), 5_000).expect("long past");
    assert_eq!(span, 5_000);
    assert_eq!(w.took, vec![9, 4], "the window after a handover holds only later ticks");
}
