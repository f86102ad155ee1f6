use mildew_valley::crowd::{crowds, Badges, Crowd, CROWD_KEEP, CROWD_MIN};
use mildew_valley::tags::LETTUCE_RIPE;
use mildew_valley::world::PLAYER_TAG;

/// The cell, in `cell`-meter squares, that a point in meters falls in.
fn cell_of(x: f32, y: f32, cell: f32) -> (i32, i32) {
    ((x / cell).floor() as i32, (y / cell).floor() as i32)
}

/// The middle of a cell, where its badge is pinned.
fn center_of(c: (i32, i32), cell: f32) -> (f32, f32) {
    ((c.0 as f32 + 0.5) * cell, (c.1 as f32 + 0.5) * cell)
}

fn people_at(points: &[(f32, f32)]) -> Vec<((i32, i32), u16)> {
    points.iter().map(|&(x, y)| (cell_of(x, y, 8.0), PLAYER_TAG)).collect()
}

#[test]
fn a_cluster_keeps_its_identity_while_people_move_inside_it() {
    let first: Vec<(f32, f32)> = (0..8).map(|k| (2.0 + k as f32 * 0.3, 2.0)).collect();
    let before = crowds(&people_at(&first));
    assert_eq!(before.len(), 1);

    // Everyone shuffles about, staying inside the same cell.
    let second: Vec<(f32, f32)> = (0..8).map(|k| (1.0 + (7 - k) as f32 * 0.4, 3.0)).collect();
    let after = crowds(&people_at(&second));
    assert_eq!(after.len(), 1);
    assert_eq!(before[0].cell, after[0].cell, "the cell must not move");
    assert_eq!(
        center_of(before[0].cell, 8.0),
        center_of(after[0].cell, 8.0),
        "the badge must not drift"
    );
}

#[test]
fn equal_sized_crowds_keep_a_stable_order() {
    let points: Vec<(f32, f32)> =
        (0..12).map(|k| if k < 6 { (2.0, 2.0) } else { (40.0, 40.0) }).collect();
    let entries = people_at(&points);
    let order: Vec<_> = crowds(&entries).iter().map(|c| c.cell).collect();
    for _ in 0..8 {
        let again: Vec<_> = crowds(&entries).iter().map(|c| c.cell).collect();
        assert_eq!(order, again, "the order changed with nothing moving");
    }
}

#[test]
fn only_crowded_cells_become_clusters() {
    // Six people in one 8 m square, one person well away from them.
    let mut points: Vec<(f32, f32)> = (0..6).map(|k| (1.0 + k as f32 * 0.5, 1.0)).collect();
    points.push((80.0, 80.0));
    let found = crowds(&people_at(&points));
    assert_eq!(found.len(), 1, "the lone walker must not form a cluster");
    assert_eq!(found[0].members.len(), 6);
}

#[test]
fn crops_are_not_counted_as_a_crowd() {
    let entries: Vec<((i32, i32), u16)> =
        (0..20).map(|_| (cell_of(1.0, 1.0, 8.0), LETTUCE_RIPE)).collect();
    assert!(crowds(&entries).is_empty(), "a full field is not a crowd");
}

#[test]
fn the_larger_crowd_comes_first_then_the_lower_cell() {
    let mut entries: Vec<((i32, i32), u16)> = Vec::new();
    for _ in 0..4 {
        entries.push(((3, 1), PLAYER_TAG));
    }
    for _ in 0..7 {
        entries.push(((5, 5), PLAYER_TAG));
    }
    for _ in 0..4 {
        entries.push(((-2, 9), PLAYER_TAG));
    }
    for _ in 0..3 {
        entries.push(((0, 0), PLAYER_TAG));
    }
    let found = crowds(&entries);
    let cells: Vec<_> = found.iter().map(|c| (c.cell, c.members.len())).collect();
    assert_eq!(cells, vec![((5, 5), 7), ((-2, 9), 4), ((3, 1), 4)]);
}

#[test]
fn members_are_named_by_position_in_order() {
    let entries = vec![
        ((1, 1), PLAYER_TAG),
        ((2, 2), PLAYER_TAG),
        ((1, 1), PLAYER_TAG),
        ((1, 1), LETTUCE_RIPE),
        ((1, 1), PLAYER_TAG),
        ((1, 1), PLAYER_TAG),
    ];
    let found = crowds(&entries);
    assert_eq!(found.len(), 1);
    assert_eq!(found[0].cell, (1, 1));
    assert_eq!(found[0].members, vec![0, 2, 4, 5]);
}

#[test]
fn no_one_at_all_is_no_crowd() {
    assert!(crowds(&[]).is_empty());
}

fn crowd(cell: (i32, i32), n: usize) -> Crowd {
    Crowd { cell, members: (0..n).collect() }
}

#[test]
fn a_badge_rises_at_the_minimum_and_holds_down_to_the_keep() {
    assert!(CROWD_KEEP < CROWD_MIN);
    let mut b = Badges::new();
    // Just under the minimum raises nothing.
    b.update(&[crowd((0, 0), CROWD_MIN - 1)]);
    assert!(!b.shows((0, 0)));
    // The minimum raises the badge.
    b.update(&[crowd((0, 0), CROWD_MIN)]);
    assert!(b.shows((0, 0)));
    // Thinning to the keep level holds it up.
    b.update(&[crowd((0, 0), CROWD_KEEP)]);
    assert!(b.shows((0, 0)));
    // Below the keep level takes it down.
    b.update(&[crowd((0, 0), CROWD_KEEP - 1)]);
    assert!(!b.shows((0, 0)));
    // Back at the keep level is not enough to raise it again.
    b.update(&[crowd((0, 0), CROWD_KEEP)]);
    assert!(!b.shows((0, 0)));
}

#[test]
fn a_click_opens_and_a_second_click_closes() {
    let mut b = Badges::new();
    assert_eq!(b.selected(), None);
    b.click((2, 3));
    assert_eq!(b.selected(), Some((2, 3)));
    b.click((4, 4));
    assert_eq!(b.selected(), Some((4, 4)));
    b.click((4, 4));
    assert_eq!(b.selected(), None);
}

#[test]
fn an_open_roster_closes_when_its_crowd_leaves() {
    let mut b = Badges::new();
    b.update(&[crowd((1, 1), CROWD_MIN)]);
    b.click((1, 1));
    b.update(&[crowd((1, 1), CROWD_KEEP)]);
    assert_eq!(b.selected(), Some((1, 1)));
    b.update(&[crowd((9, 9), CROWD_MIN)]);
    assert_eq!(b.selected(), None);
    assert!(!b.shows((1, 1)));
    assert!(b.shows((9, 9)));
}
