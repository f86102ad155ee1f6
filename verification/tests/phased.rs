use mildew_valley::phased::{phase_at, thresholds_from, PhasedEntity};
use mildew_valley::prefab::{CropPrefabs, Phased, PhasedDef, Prefabs};
use mildew_valley::tags::{LETTUCE_GROWING, LETTUCE_RIPE, LETTUCE_SEED, LETTUCE_SPROUT};

#[test]
fn thresholds_add_up_the_transitions() {
    // 2 s, 3 s and 10 s at 20 Hz are 40, 60 and 200 ticks.
    assert_eq!(thresholds_from(&[2000, 3000, 10000], 20), vec![40, 100, 300]);
    // A fraction of a tick is dropped: 1.5 s at 3 Hz is 4.5 ticks.
    assert_eq!(thresholds_from(&[1500, 1000], 3), vec![4, 7]);
    assert_eq!(thresholds_from(&[], 20), Vec::<u32>::new());
}

#[test]
fn a_phase_counts_the_thresholds_reached() {
    let t = [40, 100, 300];
    assert_eq!(phase_at(&t, 0), 0);
    assert_eq!(phase_at(&t, 39), 0);
    assert_eq!(phase_at(&t, 40), 1);
    assert_eq!(phase_at(&t, 99), 1);
    assert_eq!(phase_at(&t, 100), 2);
    assert_eq!(phase_at(&t, 300), 3);
    assert_eq!(phase_at(&t, u32::MAX), 3);
    assert_eq!(phase_at(&[], 7), 0);
}

#[test]
fn a_phased_entity_steps_through_its_tags() {
    let e = PhasedEntity::new(LETTUCE_SEED, &[2000, 3000, 10000], 20);
    assert_eq!(e.base_tag, LETTUCE_SEED);
    assert_eq!(e.thresholds, vec![40, 100, 300]);
    assert_eq!(e.phases(), 4);
    let tags: Vec<u16> = [0, 40, 100, 300].iter().map(|&age| e.tag_for(e.phase_at(age))).collect();
    assert_eq!(tags, vec![LETTUCE_SEED, LETTUCE_SPROUT, LETTUCE_GROWING, LETTUCE_RIPE]);
}

#[test]
fn a_phase_never_goes_back_as_an_entity_ages() {
    let e = PhasedEntity::new(10, &[50, 50, 200, 1000], 40);
    let mut last = 0;
    for age in 0..200 {
        let p = e.phase_at(age);
        assert!(p >= last, "phase went back from {last} to {p} at age {age}");
        last = p;
    }
    assert_eq!(last, e.phases() - 1);
}

#[test]
fn lettuce_is_a_seed_for_two_seconds_and_ripe_after_fifteen() {
    let crops = CropPrefabs::new();
    assert_eq!(crops.lettuce.tag_for(0), LETTUCE_SEED);
    assert_eq!(crops.lettuce.tag_for(3), LETTUCE_RIPE);
    assert_eq!(crops.lettuce.thresholds(20), vec![40, 100, 300]);
    assert_eq!(Prefabs::new().crops.lettuce.thresholds(10), vec![20, 50, 150]);
}

#[test]
fn the_store_tags_each_entity_by_its_age() {
    let def = PhasedDef::new(LETTUCE_SEED, vec![2000, 3000, 10000]);
    let mut store = Phased::new();
    store.insert(5, &def, 20, 100);
    store.insert(9, &def, 20, 150);
    assert!(store.contains(5) && store.contains(9) && !store.contains(7));

    let mut tags = store.advance_all(180);
    tags.sort();
    assert_eq!(tags, vec![(5, LETTUCE_SPROUT), (9, LETTUCE_SEED)]);

    let mut tags = store.advance_all(250);
    tags.sort();
    assert_eq!(tags, vec![(5, LETTUCE_GROWING), (9, LETTUCE_GROWING)]);
}

#[test]
fn removing_keeps_the_rest_in_step() {
    let def = PhasedDef::new(LETTUCE_SEED, vec![2000, 3000, 10000]);
    let mut store = Phased::new();
    store.insert(1, &def, 20, 0);
    store.insert(2, &def, 20, 50);
    store.insert(3, &def, 20, 100);
    store.remove(1);
    store.remove(42);
    assert!(!store.contains(1));
    let mut tags = store.advance_all(139);
    tags.sort();
    assert_eq!(tags, vec![(2, LETTUCE_SPROUT), (3, LETTUCE_SEED)]);
    store.remove(3);
    assert_eq!(store.advance_all(400), vec![(2, LETTUCE_RIPE)]);
}

#[test]
fn an_age_wraps_with_the_tick_counter() {
    let def = PhasedDef::new(LETTUCE_SEED, vec![2000, 3000, 10000]);
    let mut store = Phased::new();
    store.insert(4, &def, 20, u32::MAX - 9);
    // Ten ticks before the wrap and thirty after: forty ticks old.
    assert_eq!(store.advance_all(30), vec![(4, LETTUCE_SPROUT)]);
}
