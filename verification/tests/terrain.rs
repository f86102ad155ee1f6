use mildew_valley::terrain::{
    animal_at, decor_at, fence_at, hash2, slice9, tile_at, tree_at, Tile, BLOCK,
};

#[test]
fn the_world_is_the_same_everywhere_it_repeats() {
    // Two clients looking at the same coordinate must agree, and the
    // pattern must survive negative coordinates.
    for (x, y) in [(0, 0), (7, 19), (-40, 3), (1_000, -1_000), (-7, -19)] {
        assert!(tile_at(x, y) == tile_at(x, y));
        assert!(tile_at(x, y) == tile_at(x + BLOCK, y + BLOCK));
    }
}

#[test]
fn roads_run_unbroken_along_every_block_edge() {
    for k in 0..BLOCK * 3 {
        assert!(matches!(tile_at(k, 0), Tile::Path), "a lane broke at x={k}");
        assert!(matches!(tile_at(0, k), Tile::Path), "a lane broke at y={k}");
    }
}

#[test]
fn a_block_holds_farmland_and_open_ground() {
    let mut farm = 0;
    let mut open = 0;
    for y in 0..BLOCK {
        for x in 0..BLOCK {
            match tile_at(x, y) {
                Tile::Farm => farm += 1,
                Tile::Grass | Tile::Water => open += 1,
                Tile::Path => {}
            }
        }
    }
    assert!(farm > 200, "too little farmland: {farm}");
    assert!(open > 100, "nowhere to stand: {open}");
}

#[test]
fn nothing_is_planted_on_a_road_or_in_a_pond() {
    for y in -60..60 {
        for x in -60..60 {
            if tree_at(x, y).is_some() || decor_at(x, y, 8).is_some() {
                assert!(matches!(tile_at(x, y), Tile::Grass));
            }
        }
    }
}

#[test]
fn a_solid_interior_tile_uses_the_center_of_the_slice() {
    // Deep inside the first field, every neighbor matches.
    assert!(matches!(tile_at(9, 9), Tile::Farm));
    assert_eq!(slice9(9, 9, Tile::Farm), 4);
}

#[test]
fn the_hash_has_known_values() {
    assert_eq!(hash2(0, 0), 0);
    let h = hash2(1, 0);
    let mut expect = 0x1656_67b1u32;
    expect ^= expect >> 15;
    expect = expect.wrapping_mul(0x2545_f491);
    assert_eq!(h, expect ^ (expect >> 13));
    assert_ne!(hash2(1, 0), hash2(0, 1));
}

#[test]
fn the_three_fields_and_the_commons_sit_where_the_block_puts_them() {
    assert!(matches!(tile_at(4, 4), Tile::Farm));
    assert!(matches!(tile_at(14, 14), Tile::Farm));
    assert!(matches!(tile_at(17, 4), Tile::Farm));
    assert!(matches!(tile_at(4, 27), Tile::Farm));
    assert!(matches!(tile_at(3, 4), Tile::Grass));
    assert!(matches!(tile_at(15, 4), Tile::Grass));
    assert!(matches!(tile_at(1, 20), Tile::Path));
    assert!(matches!(tile_at(-1, 20), Tile::Grass));
    assert!(matches!(tile_at(-32, 20), Tile::Path));
}

#[test]
fn a_block_whose_hash_is_a_multiple_of_three_holds_a_pond() {
    // hash2(0, 0) is zero, so the first block has a pond in its fourth quarter.
    assert!(matches!(tile_at(19, 19), Tile::Water));
    assert!(matches!(tile_at(27, 27), Tile::Water));
    assert!(matches!(tile_at(28, 27), Tile::Grass));
    // A block whose hash is not a multiple of three keeps it as open ground.
    let mut bx = 0;
    while hash2(bx, 0) % 3 == 0 {
        bx += 1;
    }
    assert!(matches!(tile_at(bx * BLOCK + 20, 20), Tile::Grass));
}

#[test]
fn fences_line_the_fields_where_open_ground_meets_them() {
    // Directly south of the first field's bottom row, and directly north of
    // its top row, both on open ground.
    assert!(fence_at(9, 3));
    assert!(fence_at(9, 15));
    assert!(!fence_at(9, 9), "not inside a field");
    assert!(!fence_at(9, 1), "not on a road");
    assert!(!fence_at(3, 9), "not beside a field's side");
}

#[test]
fn edge_tiles_pick_the_matching_slice() {
    // The field's corners and edges.
    assert_eq!(slice9(4, 14, Tile::Farm), 0);
    assert_eq!(slice9(14, 14, Tile::Farm), 2);
    assert_eq!(slice9(4, 4, Tile::Farm), 6);
    assert_eq!(slice9(14, 4, Tile::Farm), 8);
    assert_eq!(slice9(9, 14, Tile::Farm), 1);
    assert_eq!(slice9(4, 9, Tile::Farm), 3);
}

#[test]
fn livestock_and_props_follow_their_rules() {
    let mut cows = 0;
    let mut chickens = 0;
    for y in -64..64 {
        for x in -64..64 {
            if let Some(cow) = animal_at(x, y) {
                assert!(matches!(tile_at(x, y), Tile::Grass));
                assert!(tree_at(x, y).is_none());
                if cow { cows += 1 } else { chickens += 1 }
            }
            if let Some(k) = decor_at(x, y, 3) {
                assert!(k < 3);
                assert!(!fence_at(x, y));
            }
            assert_eq!(decor_at(x, y, 0), None);
        }
    }
    assert!(cows > 0 && chickens > 0);
}

#[test]
fn the_lowest_row_of_the_plane_is_road_with_nothing_on_it() {
    for x in [-70, -1, 0, 9, 40, i32::MAX] {
        assert!(matches!(tile_at(x, i32::MIN), Tile::Path));
        assert!(!fence_at(x, i32::MIN));
        assert_eq!(decor_at(x, i32::MIN, 8), None);
    }
    // One tile in from the plane's west edge, the road has road to its west
    // and open ground to its east.
    assert_eq!(slice9(i32::MIN + 1, 20, Tile::Path), 5);
}
