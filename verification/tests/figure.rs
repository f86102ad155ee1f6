use mildew_valley::figure::{
    look_of, outfit, pose_for, stage_of, step_offset, Outfit, Pose, HAIR_STYLES,
};
use mildew_valley::pixels::LOOKS;
use mildew_valley::tags::{LETTUCE_GROWING, LETTUCE_RIPE, LETTUCE_SEED, LETTUCE_SPROUT};
use mildew_valley::world::Facing;

#[test]
fn only_a_figure_facing_left_is_mirrored() {
    assert_eq!(pose_for(Facing::Left, true), (Pose::WalkSide, true));
    assert_eq!(pose_for(Facing::Right, true), (Pose::WalkSide, false));
    assert_eq!(pose_for(Facing::Up, false), (Pose::IdleUp, false));
    assert_eq!(pose_for(Facing::Down, true), (Pose::WalkDown, false));
    assert_eq!(pose_for(Facing::Left, false), (Pose::IdleSide, true));
}

#[test]
fn each_pose_has_its_own_row() {
    let rows: Vec<usize> = [
        Pose::IdleDown,
        Pose::IdleSide,
        Pose::IdleUp,
        Pose::WalkDown,
        Pose::WalkSide,
        Pose::WalkUp,
    ]
    .iter()
    .map(|p| p.row())
    .collect();
    assert_eq!(rows, vec![0, 1, 2, 3, 4, 5]);
}

#[test]
fn a_look_is_the_same_on_every_client_and_in_range() {
    for id in 0..500u32 {
        let look = look_of(id, LOOKS);
        assert!(look < LOOKS);
        assert_eq!(look, look_of(id, LOOKS));
        assert!(step_offset(id) < 6);
    }
    assert_eq!(look_of(12, 0), 0, "no looks is read as one");
    assert_eq!(look_of(12, 1), 0);
}

#[test]
fn looks_are_spread_across_the_pack() {
    let mut seen = [false; LOOKS];
    for id in 0..2000u32 {
        seen[look_of(id, LOOKS)] = true;
    }
    assert!(seen.iter().all(|s| *s), "some look is never worn");
}

#[test]
fn a_crop_shows_its_stage() {
    assert_eq!(stage_of(LETTUCE_SEED), 0);
    assert_eq!(stage_of(LETTUCE_SPROUT), 1);
    assert_eq!(stage_of(LETTUCE_GROWING), 2);
    assert_eq!(stage_of(LETTUCE_RIPE), 3);
    assert_eq!(stage_of(999), 3);
}

#[test]
fn each_layer_steps_at_its_own_rate() {
    assert_eq!(
        outfit(0),
        Outfit { shirt: 0, pants: 0, shoes: 0, hair_style: 1, hair_color: 0, skin: 0 }
    );
    assert_eq!(
        outfit(23),
        Outfit { shirt: 7, pants: 3, shoes: 7, hair_style: 6, hair_color: 3, skin: 4 }
    );
    assert_eq!(outfit(20).hair_style as usize, HAIR_STYLES);
    assert_eq!(outfit(24).hair_style, 1);
    assert_eq!(outfit(29).skin, 5);
}
