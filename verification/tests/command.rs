use mildew_valley::command::{of_signs, GameCommand, Heading};
use mildew_valley::pace::{WALK_STEP_DIAGONAL_MM, WALK_STEP_MM};

#[test]
fn round_trip() {
    let cmd = GameCommand::PlantLettuce { x: 12, y: -34 };
    let bytes = cmd.encode();
    let back = GameCommand::decode(&bytes).expect("decodes");
    assert_eq!(back, cmd);
}

#[test]
fn garbage_returns_none() {
    assert_eq!(GameCommand::decode(&[0xFF, 0xFF, 0xFF]), None);
}

#[test]
fn empty_returns_none() {
    assert_eq!(GameCommand::decode(&[]), None);
}

#[test]
fn a_walk_round_trips() {
    for heading in [None, Some(Heading::North), Some(Heading::SouthWest)] {
        let cmd = GameCommand::Walk { heading };
        assert_eq!(GameCommand::decode(&cmd.encode()), Some(cmd));
    }
}

#[test]
fn the_wire_bytes_are_postcards() {
    // Variant 0, then each field zigzagged as a varint.
    assert_eq!(GameCommand::PlantLettuce { x: 12, y: -34 }.encode(), vec![0, 24, 67]);
    assert_eq!(GameCommand::PlantLettuce { x: 200, y: 0 }.encode(), vec![0, 0x90, 0x03, 0]);
    // Variant 1, then the option's tag and the heading's index.
    assert_eq!(GameCommand::Walk { heading: None }.encode(), vec![1, 0]);
    assert_eq!(GameCommand::Walk { heading: Some(Heading::SouthWest) }.encode(), vec![1, 1, 5]);
}

#[test]
fn every_heading_and_many_plantings_round_trip() {
    for h in [
        Heading::North,
        Heading::NorthEast,
        Heading::East,
        Heading::SouthEast,
        Heading::South,
        Heading::SouthWest,
        Heading::West,
        Heading::NorthWest,
    ] {
        let cmd = GameCommand::Walk { heading: Some(h) };
        assert_eq!(GameCommand::decode(&cmd.encode()), Some(cmd));
    }
    for (x, y) in [(0, 0), (i32::MAX, i32::MIN), (-1, 1), (4095, 4096)] {
        let cmd = GameCommand::PlantLettuce { x, y };
        assert_eq!(GameCommand::decode(&cmd.encode()), Some(cmd));
    }
}

#[test]
fn trailing_bytes_after_a_command_are_ignored() {
    let mut bytes = GameCommand::Walk { heading: Some(Heading::East) }.encode();
    bytes.extend_from_slice(&[9, 9, 9]);
    assert_eq!(GameCommand::decode(&bytes), Some(GameCommand::Walk { heading: Some(Heading::East) }));
}

#[test]
fn unknown_variants_and_truncations_are_refused() {
    // No third variant.
    assert_eq!(GameCommand::decode(&[2, 0, 0]), None);
    // A heading index past the eighth.
    assert_eq!(GameCommand::decode(&[1, 1, 8]), None);
    // An option tag that is neither 0 nor 1.
    assert_eq!(GameCommand::decode(&[1, 2]), None);
    // A planting missing its y.
    assert_eq!(GameCommand::decode(&[0, 24]), None);
}

#[test]
fn signs_name_the_eight_directions() {
    assert_eq!(of_signs(0, 1), Some(Heading::North));
    assert_eq!(of_signs(1, 1), Some(Heading::NorthEast));
    assert_eq!(of_signs(-1, 0), Some(Heading::West));
    assert_eq!(of_signs(1, -1), Some(Heading::SouthEast));
    assert_eq!(of_signs(0, 0), None, "no key is no heading");
    assert_eq!(of_signs(2, 0), None);
}

#[test]
fn every_heading_steps_the_same_distance_its_own_way() {
    let s = WALK_STEP_MM;
    let d = WALK_STEP_DIAGONAL_MM;
    assert_eq!(Heading::North.step_mm(), (0, s));
    assert_eq!(Heading::NorthEast.step_mm(), (d, d));
    assert_eq!(Heading::SouthWest.step_mm(), (-d, -d));
    assert_eq!(Heading::West.step_mm(), (-s, 0));
    for h in [
        Heading::North,
        Heading::NorthEast,
        Heading::East,
        Heading::SouthEast,
        Heading::South,
        Heading::SouthWest,
        Heading::West,
        Heading::NorthWest,
    ] {
        let (dx, dy) = h.step_mm();
        assert_eq!(of_signs(dx.signum(), dy.signum()), Some(h));
        let len = ((dx * dx + dy * dy) as f32).sqrt();
        assert!((len - s as f32).abs() < 1.0);
    }
}
