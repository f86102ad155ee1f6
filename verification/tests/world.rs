use mildew_valley::tags::{LETTUCE_RIPE, LETTUCE_SEED};
use mildew_valley::world::{is_lettuce, is_player, Stats, PLAYER_TAG};

#[test]
fn a_person_is_not_a_crop() {
    assert!(is_player(PLAYER_TAG));
    assert!(!is_lettuce(PLAYER_TAG));
    for tag in LETTUCE_SEED..=LETTUCE_RIPE {
        assert!(is_lettuce(tag));
        assert!(!is_player(tag));
    }
    assert!(!is_lettuce(LETTUCE_RIPE + 1));
}

#[test]
fn stats_start_at_nothing() {
    let s = Stats::default();
    assert_eq!((s.packets, s.updates, s.despawns), (0, 0, 0));
    assert!(s.last_packet.is_none());
}
