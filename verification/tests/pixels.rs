use mildew_valley::pixels::{
    bbox, blit, crop, disc, first_sprite, frames_block, over, over_pixel, trim, recolor_skin, shows_anything, union_box, Packer, FRAME, LOOKS, STEPS, TILE,
};

const CLEAR: [u8; 4] = [0, 0, 0, 0];

fn blank(w: u16, h: u16) -> Vec<[u8; 4]> {
    vec![CLEAR; w as usize * h as usize]
}

fn set(img: &mut [[u8; 4]], w: u16, x: u16, y: u16, px: [u8; 4]) {
    img[y as usize * w as usize + x as usize] = px;
}

/// The `size`-square cell at column `col` and row `row` of a sheet `w` wide.
fn cell(sheet: &[[u8; 4]], w: u16, col: u16, row: u16, size: u16) -> Vec<[u8; 4]> {
    let mut out = Vec::new();
    for y in 0..size {
        for x in 0..size {
            let sx = (col * size + x) as usize;
            let sy = (row * size + y) as usize;
            out.push(sheet[sy * w as usize + sx]);
        }
    }
    out
}

fn place(packer: &mut Packer, w: u16, h: u16) -> (u16, u16) {
    assert!(packer.has_room(w, h), "the sprite atlas is too small for the pack");
    packer.place(w, h)
}

#[test]
fn the_atlas_has_room_for_the_whole_pack() {
    let mut packer = Packer::new(2048, 2048);
    place(&mut packer, TILE, TILE);
    for _ in 0..27 {
        place(&mut packer, TILE, TILE); // three nine-slices
    }
    for _ in 0..4 {
        place(&mut packer, TILE, TILE); // crop stages
    }
    place(&mut packer, 64, 80); // big oak
    place(&mut packer, 32, 48); // medium oak
    for _ in 0..3 {
        place(&mut packer, TILE, TILE); // fence, chicken, cow
    }
    for _ in 0..100 {
        place(&mut packer, TILE, TILE); // flowers, generously
    }
    // Farmer blocks, at the widest crop the union box could produce.
    for _ in 0..LOOKS {
        place(&mut packer, FRAME * STEPS as u16, FRAME * 6);
    }
    let used = packer.cursor_at().1 as u32 + packer.shelf() as u32;
    assert!(used <= 2048, "the pack needs {used} rows, the atlas has 2048");
}

#[test]
fn nothing_is_placed_outside_the_atlas() {
    let mut packer = Packer::new(256, 256);
    for _ in 0..40 {
        let r = place(&mut packer, 48, 24);
        assert!(r.0 as u32 + 48 <= 256, "ran off the right edge: {r:?}");
        assert!(r.1 as u32 + 24 <= 256, "ran off the bottom: {r:?}");
    }
}

#[test]
fn a_full_shelf_moves_down_past_its_tallest_sprite() {
    let mut packer = Packer::new(100, 100);
    assert_eq!(place(&mut packer, 40, 10), (0, 0));
    assert_eq!(place(&mut packer, 40, 30), (41, 0));
    assert_eq!(packer.shelf(), 30);
    // 82 + 40 runs past 100, so the next goes to a new shelf a pixel below.
    assert_eq!(place(&mut packer, 40, 5), (0, 31));
    assert_eq!(packer.cursor_at(), (41, 31));
    assert_eq!(packer.shelf(), 5);
}

#[test]
fn a_sprite_that_cannot_fit_is_reported() {
    let packer = Packer::new(64, 64);
    assert!(packer.has_room(64, 64));
    assert!(!packer.has_room(64, 65));
}

#[test]
fn compositing_puts_the_upper_layer_on_top() {
    let mut under = vec![[255, 0, 0, 255], [255, 0, 0, 255]];
    let top = vec![[0, 0, 255, 255], CLEAR];
    over(&mut under, &top);
    assert_eq!(under[0][..3], [0, 0, 255], "the layer on top must win");
    assert_eq!(under[1][..3], [255, 0, 0], "a clear pixel must not erase what is under it");
}

#[test]
fn a_half_clear_pixel_blends_rather_than_replaces() {
    let mut under = vec![[0, 0, 0, 255]];
    let top = vec![[255, 255, 255, 128]];
    over(&mut under, &top);
    let mid = under[0][0];
    assert!((120..=136).contains(&mid), "expected roughly half, got {mid}");
}

#[test]
fn a_blend_weighs_each_channel_by_alpha_and_keeps_the_larger_alpha() {
    // 200 * 51 + 100 * 204 = 30600, and 30600 / 255 = 120.
    let px = over_pixel([100, 0, 255, 30], [200, 255, 0, 51]);
    assert_eq!(px, [120, 51, 204, 51]);
    assert_eq!(over_pixel([1, 2, 3, 200], [9, 9, 9, 100])[3], 200);
}

#[test]
fn the_union_box_covers_every_frame() {
    // One sheet with a mark in the top-left frame and another in the
    // bottom-right; the box has to reach both.
    let w = FRAME * STEPS as u16;
    let h = FRAME * 6;
    let mut sheet = blank(w, h);
    set(&mut sheet, w, 10, 12, [255, 0, 0, 255]);
    set(&mut sheet, w, FRAME * 2 - 5, FRAME * 2 - 6, [255, 0, 0, 255]);
    let mut boxes = Vec::new();
    for r in 0..6u16 {
        for c in 0..STEPS as u16 {
            boxes.push(bbox(FRAME, FRAME, &cell(&sheet, w, c, r, FRAME)));
        }
    }
    let b = union_box(&boxes);
    assert!(b.0 <= 10 && b.1 <= 12, "box {b:?} misses the first mark");
    assert!(b.2 >= FRAME - 5 && b.3 >= FRAME - 6, "box {b:?} misses the second");
}

#[test]
fn the_union_box_adds_a_pixel_of_margin_inside_the_frame() {
    assert_eq!(union_box(&[Some((10, 20, 30, 40)), None, Some((5, 25, 12, 64))]), (4, 19, 31, 64));
    assert_eq!(union_box(&[Some((0, 0, 64, 64))]), (0, 0, 64, 64));
    assert_eq!(union_box(&[]), (FRAME - 1, FRAME - 1, 1, 1));
}

#[test]
fn a_bounding_box_is_tight_and_ends_are_exclusive() {
    let mut img = blank(8, 4);
    set(&mut img, 8, 2, 1, [0, 0, 0, 255]);
    set(&mut img, 8, 5, 3, [0, 0, 0, 17]);
    // Faint pixels do not count.
    set(&mut img, 8, 7, 0, [0, 0, 0, 16]);
    assert_eq!(bbox(8, 4, &img), Some((2, 1, 6, 4)));
    assert_eq!(bbox(8, 4, &blank(8, 4)), None);
}

#[test]
fn skin_is_recolored_and_the_outline_is_not() {
    let src = vec![[0xf6, 0xca, 0x9f, 255], [0x0e, 0x07, 0x1b, 255]];
    // Look 5 is the first that lands on a tone other than the pack's own.
    let out = recolor_skin(&src, 5);
    assert_ne!(out[0][..3], [0xf6, 0xca, 0x9f], "skin was not recolored");
    assert_eq!(out[1][..3], [0x0e, 0x07, 0x1b], "the outline must be left alone");
}

#[test]
fn skin_takes_the_tone_of_its_look() {
    let src = vec![[0xf6, 0xca, 0x9f, 200], [0xd2, 0x9f, 0x70, 255], [0xf6, 0xca, 0x9f, 0]];
    let out = recolor_skin(&src, 12);
    // Look 12 is tone 2.
    assert_eq!(out[0], [0xd1, 0x9a, 0x6e, 200]);
    assert_eq!(out[1], [0xa8, 0x74, 0x4c, 255]);
    assert_eq!(out[2], [0xf6, 0xca, 0x9f, 0], "a clear pixel is left alone");
    assert_eq!(recolor_skin(&src, 4), src, "looks below five keep the pack's tone");
}

#[test]
fn a_blit_replaces_the_block_and_nothing_else() {
    let mut dst = vec![[1, 1, 1, 1]; 4 * 3];
    let src = vec![[9, 9, 9, 9], CLEAR, [7, 7, 7, 7], [8, 8, 8, 8]];
    blit(&mut dst, 4, 3, &src, 2, 2, 1, 1);
    let o = [1, 1, 1, 1];
    assert_eq!(
        dst,
        vec![
            o, o, o, o, //
            o, [9, 9, 9, 9], CLEAR, o, //
            o, [7, 7, 7, 7], [8, 8, 8, 8], o,
        ],
        "a clear pixel is copied too: a blit is not a composite"
    );
}

fn painted(img: &[[u8; 4]], w: u16) -> Vec<(u16, u16)> {
    let mut out = Vec::new();
    for (i, px) in img.iter().enumerate() {
        if px[3] != 0 {
            out.push(((i % w as usize) as u16, (i / w as usize) as u16));
        }
    }
    out
}

#[test]
fn a_disc_paints_what_lies_within_its_radius() {
    let ink = [5, 6, 7, 255];
    let mut img = blank(5, 5);
    disc(&mut img, 5, 5, 2, 2, 1, ink);
    assert_eq!(painted(&img, 5), vec![(2, 1), (1, 2), (2, 2), (3, 2), (2, 3)]);

    let mut img = blank(5, 5);
    disc(&mut img, 5, 5, 2, 2, 2, ink);
    assert_eq!(painted(&img, 5).len(), 13, "a radius of two covers thirteen pixels");

    let mut img = blank(5, 5);
    disc(&mut img, 5, 5, 3, 1, 0, ink);
    assert_eq!(painted(&img, 5), vec![(3, 1)]);
}

#[test]
fn a_disc_off_the_edge_is_clipped_and_a_negative_radius_paints_nothing() {
    let ink = [5, 6, 7, 255];
    let mut img = blank(4, 4);
    disc(&mut img, 4, 4, 0, 0, 1, ink);
    assert_eq!(painted(&img, 4), vec![(0, 0), (1, 0), (0, 1)]);

    let mut img = blank(4, 4);
    disc(&mut img, 4, 4, 2, 2, -1, ink);
    assert!(painted(&img, 4).is_empty());

    let mut img = blank(4, 4);
    disc(&mut img, 4, 4, -10, 2, 3, ink);
    assert!(painted(&img, 4).is_empty());
}

#[test]
fn every_frame_is_cropped_to_the_same_box_and_laid_side_by_side() {
    // Two frames across, one down; each pixel records where it came from.
    let (sw, sh) = (FRAME * 2, FRAME);
    let mut sheet = blank(sw, sh);
    for y in 0..sh {
        for x in 0..sw {
            set(&mut sheet, sw, x, y, [x as u8, y as u8, 0, 255]);
        }
    }
    let block = frames_block(&sheet, sw, sh, (10, 20, 12, 23), 2, 1);
    assert_eq!(block.len(), 4 * 3);
    let from: Vec<(u8, u8)> = block.iter().map(|p| (p[0], p[1])).collect();
    assert_eq!(
        from,
        vec![
            (10, 20), (11, 20), (74, 20), (75, 20),
            (10, 21), (11, 21), (74, 21), (75, 21),
            (10, 22), (11, 22), (74, 22), (75, 22),
        ]
    );
}

#[test]
fn a_crop_is_the_part_under_it() {
    let w = 4;
    let img: Vec<[u8; 4]> = (0..12u8).map(|i| [i, 0, 0, 255]).collect();
    let part = crop(&img, w, 3, 1, 1, 2, 2);
    assert_eq!(part.iter().map(|p| p[0]).collect::<Vec<_>>(), vec![5, 6, 9, 10]);
    assert!(crop(&img, w, 3, 4, 0, 0, 3).is_empty());
}

#[test]
fn trimming_keeps_only_what_an_image_holds() {
    let mut img = blank(6, 5);
    set(&mut img, 6, 2, 1, [1, 0, 0, 255]);
    set(&mut img, 6, 4, 3, [2, 0, 0, 255]);
    let (out, w, h) = trim(&img, 6, 5);
    assert_eq!((w, h), (3, 3));
    assert_eq!(out.len(), 9);
    assert_eq!(out[0][0], 1);
    assert_eq!(out[8][0], 2);
    let clear = blank(3, 2);
    assert_eq!(trim(&clear, 3, 2), (clear.clone(), 3, 2), "a clear image comes back whole");
}

#[test]
fn the_first_sprite_is_the_first_cell_holding_anything() {
    // Three 4-pixel cells across, two down; the second row's middle cell and
    // the first row's last cell both hold something.
    let (w, h) = (12, 8);
    let mut sheet = blank(w, h);
    set(&mut sheet, w, 5, 6, [7, 0, 0, 255]);
    set(&mut sheet, w, 9, 2, [8, 0, 0, 255]);
    set(&mut sheet, w, 10, 3, [9, 0, 0, 255]);
    let (out, sw, sh) = first_sprite(&sheet, w, h, 4);
    assert_eq!((sw, sh), (2, 2));
    assert_eq!(out.iter().map(|p| p[0]).collect::<Vec<_>>(), vec![8, 0, 0, 9]);

    let empty = blank(8, 4);
    assert_eq!(first_sprite(&empty, 8, 4, 4), (empty.clone(), 8, 4));
}

#[test]
fn placing_moves_the_cursor_a_pixel_past_the_sprite() {
    let mut packer = Packer::new(100, 100);
    assert_eq!(place(&mut packer, 10, 4), (0, 0));
    assert_eq!(packer.cursor_at(), (11, 0));
    assert_eq!(packer.shelf(), 4);
    assert_eq!(place(&mut packer, 20, 2), (11, 0));
    assert_eq!(packer.cursor_at(), (32, 0));
    assert_eq!(packer.shelf(), 4, "a shorter sprite leaves the shelf as tall as it was");
}

#[test]
fn sprites_never_touch() {
    let mut packer = Packer::new(64, 64);
    let mut rects: Vec<(u32, u32, u32, u32)> = Vec::new();
    for i in 0..12u16 {
        let (w, h) = (8 + i % 5, 3 + i % 4);
        let (x, y) = place(&mut packer, w, h);
        rects.push((x as u32, y as u32, w as u32, h as u32));
    }
    for (i, a) in rects.iter().enumerate() {
        for b in &rects[i + 1..] {
            let clear = a.0 + a.2 < b.0 || b.0 + b.2 < a.0 || a.1 + a.3 < b.1 || b.1 + b.3 < a.1;
            assert!(clear, "{a:?} and {b:?} touch");
        }
    }
}

#[test]
fn a_prop_cell_needs_a_pixel_more_than_an_eighth_opaque() {
    assert!(!shows_anything(&[]));
    assert!(!shows_anything(&[[9, 9, 9, 0], [255, 255, 255, 32]]));
    assert!(shows_anything(&[[0, 0, 0, 0], [1, 2, 3, 33]]));
}
