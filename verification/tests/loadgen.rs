use mildew_valley::loadgen::{Report, Rng};

/// Uniform on `[0, 1)`, as the bots draw it.
fn unit(rng: &mut Rng) -> f32 {
    rng.next_bits() as f32 / (1u32 << 24) as f32
}

#[test]
fn the_generator_covers_its_range() {
    let mut rng = Rng::new(99);
    let (mut lo, mut hi) = (1.0f32, 0.0f32);
    for _ in 0..10_000 {
        let v = unit(&mut rng);
        assert!((0.0..1.0).contains(&v), "out of range: {v}");
        lo = lo.min(v);
        hi = hi.max(v);
    }
    assert!(lo < 0.01 && hi > 0.99, "poor spread: {lo} to {hi}");
}

#[test]
fn the_same_seed_draws_the_same_numbers() {
    let draws = |seed| {
        let mut rng = Rng::new(seed);
        (0..16).map(|_| rng.next_bits()).collect::<Vec<_>>()
    };
    assert_eq!(draws(7), draws(7), "a seeded run has to repeat");
    assert_ne!(draws(7), draws(8), "different seeds must not coincide");
}

#[test]
fn the_first_draw_of_a_seed_is_fixed() {
    // Seed 0 mixes to 1442695040888963407 | 1; one xorshift step of that,
    // worked by hand, and its top 24 bits.
    let mut s: u64 = 1442695040888963407 | 1;
    s ^= s << 13;
    s ^= s >> 7;
    s ^= s << 17;
    let mut rng = Rng::new(0);
    assert_eq!(rng.next_bits() as u64, s >> 40);
}

#[test]
fn a_report_counts_from_its_last_marks() {
    let mut report = Report::new(200, 4);
    assert_eq!((report.bots(), report.conns()), (200, 4));
    assert_eq!(report.since_marks((10, 20, 30)), (10, 20, 30));
    report.mark((10, 20, 30));
    assert_eq!(report.since_marks((15, 20, 45)), (5, 0, 15));
    // A count that went backwards reads as nothing rather than wrapping.
    assert_eq!(report.since_marks((5, 25, 30)), (0, 5, 0));
    assert!(report.nanos_since_last() < 60_000_000_000);
}
