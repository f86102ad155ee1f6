//! The ground under everyone's feet.
//!
//! Every tile is a pure function of its coordinates, so every client draws the
//! same field in the same place without anything being sent. The layout
//! repeats on a fixed block so the world is walkable in any direction.
use vstd::prelude::*;

verus! {

/// Side of one repeating block, in meters. One meter is one tile.
pub const BLOCK: i32 = 32;

/// What is underfoot.
#[derive(Clone, Copy, PartialEq, Eq, Structural, Debug)]
pub enum Tile {
    Grass,
    Farm,
    Path,
    Water,
}

/// The scrambled value of a pair of coordinates.
pub open spec fn spec_hash2(x: i32, y: i32) -> u32 {
    let h0 = vstd::wrapping::u32_specs::wrapping_mul(x as u32, 0x1656_67b1u32)
        ^ vstd::wrapping::u32_specs::wrapping_mul(y as u32, 0x27d4_eb2du32);
    let h1 = h0 ^ (h0 >> 15u32);
    let h2 = vstd::wrapping::u32_specs::wrapping_mul(h1, 0x2545_f491u32);
    h2 ^ (h2 >> 13u32)
}

/// Whether a block-local coordinate pair lies inside the field that starts at
/// the block's corner.
pub open spec fn in_field(a: int, b: int) -> bool {
    4 <= a <= 14 && 4 <= b <= 14
}

/// The coordinate of a tile inside its block, in `0 .. BLOCK`.
pub open spec fn block_offset(t: i32) -> int {
    t as int % BLOCK as int
}

/// Which block a tile falls in, rounding toward negative infinity.
pub open spec fn block_index(t: i32) -> int {
    t as int / BLOCK as int
}

/// Whether the tile lies on one of the two-meter lanes along a block's edges.
pub open spec fn on_lane(tx: i32, ty: i32) -> bool {
    block_offset(tx) < 2 || block_offset(ty) < 2
}

/// Whether the tile lies in one of the three fields of its block.
pub open spec fn on_field(tx: i32, ty: i32) -> bool {
    let bx = block_offset(tx);
    let by = block_offset(ty);
    in_field(bx, by) || in_field(bx - 13, by) || in_field(bx, by - 13)
}

/// Whether the tile lies where the fourth quarter of its block holds a pond:
/// every block whose hash is a multiple of three has one.
pub open spec fn in_pond(tx: i32, ty: i32) -> bool {
    let bx = block_offset(tx);
    let by = block_offset(ty);
    &&& spec_hash2(block_index(tx) as i32, block_index(ty) as i32) % 3 == 0
    &&& 19 <= bx <= 27
    &&& 19 <= by <= 27
}

/// What sits at a tile.
pub open spec fn spec_tile_at(tx: i32, ty: i32) -> Tile {
    if on_lane(tx, ty) {
        Tile::Path
    } else if on_field(tx, ty) {
        Tile::Farm
    } else if in_pond(tx, ty) {
        Tile::Water
    } else {
        Tile::Grass
    }
}

/// The nine-slice cell a tile of `kind` needs, as `row * 3 + col`.
pub open spec fn spec_slice9(tx: i32, ty: i32, kind: Tile) -> int {
    let col = if spec_tile_at((tx - 1) as i32, ty) != kind {
        0int
    } else if spec_tile_at((tx + 1) as i32, ty) != kind {
        2int
    } else {
        1int
    };
    let row = if spec_tile_at(tx, (ty + 1) as i32) != kind {
        0int
    } else if spec_tile_at(tx, (ty - 1) as i32) != kind {
        2int
    } else {
        1int
    };
    row * 3 + col
}

/// Whether a fence rail runs across the tile: open ground directly north or
/// south of a field.
pub open spec fn spec_fence_at(tx: i32, ty: i32) -> bool {
    spec_tile_at(tx, ty) == Tile::Grass && (spec_tile_at(tx, (ty - 1) as i32) == Tile::Farm
        || spec_tile_at(tx, (ty + 1) as i32) == Tile::Farm)
}

/// Whether a tree stands on the tile, and whether it is the large one.
pub open spec fn spec_tree_at(tx: i32, ty: i32) -> Option<bool> {
    if spec_tile_at(tx, ty) != Tile::Grass {
        None
    } else {
        let h = spec_hash2(tx ^ 0x2ac1i32, ty ^ 0x7e15i32);
        if h % 23 == 0 {
            Some(true)
        } else if h % 23 == 1 || h % 23 == 2 {
            Some(false)
        } else {
            None
        }
    }
}

/// Livestock on open ground that no tree stands on: `true` for a cow, `false`
/// for a chicken.
pub open spec fn spec_animal_at(tx: i32, ty: i32) -> Option<bool> {
    if spec_tile_at(tx, ty) != Tile::Grass || spec_tree_at(tx, ty) is Some {
        None
    } else {
        let h = spec_hash2(tx ^ 0x6b1fi32, ty ^ 0x33a7i32);
        if h % 61 == 0 {
            Some(true)
        } else if h % 61 == 1 || h % 61 == 2 {
            Some(false)
        } else {
            None
        }
    }
}

/// A prop for an unfenced grass tile, as an index below `kinds`, or nothing.
pub open spec fn spec_decor_at(tx: i32, ty: i32, kinds: usize) -> Option<usize> {
    if spec_tile_at(tx, ty) != Tile::Grass || kinds == 0 || spec_fence_at(tx, ty) {
        None
    } else {
        let h = spec_hash2(tx ^ 0x5f37i32, ty ^ 0x1d9bi32);
        if h % 100 < 34 {
            Some(((h >> 8u32) as usize % kinds) as usize)
        } else {
            None
        }
    }
}

/// Scrambles a pair of coordinates into something that looks unpatterned.
pub fn hash2(x: i32, y: i32) -> (r: u32)
    ensures
        r == spec_hash2(x, y),
{
    let h0 = (x as u32).wrapping_mul(0x1656_67b1) ^ (y as u32).wrapping_mul(0x27d4_eb2d);
    let h1 = h0 ^ (h0 >> 15u32);
    let h2 = h1.wrapping_mul(0x2545_f491);
    h2 ^ (h2 >> 13u32)
}

/// The block-local coordinate and the block index of a tile coordinate.
fn split_block(t: i32) -> (r: (i32, i32))
    ensures
        r.0 as int == block_offset(t),
        r.1 as int == block_index(t),
        0 <= r.0 < BLOCK,
{
    let off = match t.checked_rem_euclid(BLOCK) {
        Some(v) => v,
        None => 0,
    };
    let idx = match t.checked_div_euclid(BLOCK) {
        Some(v) => v,
        None => 0,
    };
    (off, idx)
}

/// What sits at a tile. Total, deterministic, and cheap.
pub fn tile_at(tx: i32, ty: i32) -> (r: Tile)
    ensures
        r == spec_tile_at(tx, ty),
        ({
            let bx = tx as int % 32;
            let by = ty as int % 32;
            &&& (r == Tile::Path) <==> (bx < 2 || by < 2)
            &&& (r == Tile::Farm) <==> ((4 <= bx <= 14 && 4 <= by <= 14) || (17 <= bx <= 27 && 4
                <= by <= 14) || (4 <= bx <= 14 && 17 <= by <= 27))
        }),
{
    proof {
        lemma_fields_lie_at_fixed_offsets(tx, ty);
    }
    let (bx, block_x) = split_block(tx);
    let (by, block_y) = split_block(ty);

    // Two-meter lanes along the north and west edges of every block, which
    // meet to form a continuous grid of roads.
    if bx < 2 || by < 2 {
        return Tile::Path;
    }
    // Three fields to a block, with the fourth quarter left open as a commons
    // or given over to a pond.
    if (4 <= bx && bx <= 14 && 4 <= by && by <= 14) || (4 <= bx - 13 && bx - 13 <= 14 && 4 <= by
        && by <= 14) || (4 <= bx && bx <= 14 && 4 <= by - 13 && by - 13 <= 14) {
        return Tile::Farm;
    }
    let block = hash2(block_x, block_y);
    if block % 3 == 0 && 19 <= bx && bx <= 27 && 19 <= by && by <= 27 {
        return Tile::Water;
    }
    Tile::Grass
}

/// Which of a nine-slice's cells a tile needs, as `row * 3 + col`.
///
/// Edges are chosen by whether the neighbor on each side is the same
/// material. North is `ty + 1`, which is the cell drawn above this one.
pub fn slice9(tx: i32, ty: i32, kind: Tile) -> (r: usize)
    requires
        tx > i32::MIN,
        ty < i32::MAX,
        tx == i32::MAX ==> spec_tile_at((tx - 1) as i32, ty) != kind,
        ty == i32::MIN ==> spec_tile_at(tx, (ty + 1) as i32) != kind,
    ensures
        r == spec_slice9(tx, ty, kind),
        r < 9,
        (r % 3 == 0) <==> spec_tile_at((tx - 1) as i32, ty) != kind,
        (r % 3 == 2) <==> spec_tile_at((tx - 1) as i32, ty) == kind && spec_tile_at(
            (tx + 1) as i32,
            ty,
        ) != kind,
        (r / 3 == 0) <==> spec_tile_at(tx, (ty + 1) as i32) != kind,
        (r / 3 == 2) <==> spec_tile_at(tx, (ty + 1) as i32) == kind && spec_tile_at(
            tx,
            (ty - 1) as i32,
        ) != kind,
        spec_tile_at((tx - 1) as i32, ty) == kind && spec_tile_at((tx + 1) as i32, ty) == kind
            && spec_tile_at(tx, (ty + 1) as i32) == kind && spec_tile_at(tx, (ty - 1) as i32)
            == kind ==> r == 4,
{
    let col: usize = if tile_at(tx - 1, ty) != kind {
        0
    } else if tile_at(tx + 1, ty) != kind {
        2
    } else {
        1
    };
    let row: usize = if tile_at(tx, ty + 1) != kind {
        0
    } else if tile_at(tx, ty - 1) != kind {
        2
    } else {
        1
    };
    row * 3 + col
}

/// Whether a fence rail runs across this tile.
///
/// Fields are fenced where they meet open ground; roads are left clear.
pub fn fence_at(tx: i32, ty: i32) -> (r: bool)
    requires
        ty == i32::MAX ==> spec_tile_at(tx, ty) != Tile::Grass || spec_tile_at(tx, (ty - 1) as i32)
            == Tile::Farm,
    ensures
        r == spec_fence_at(tx, ty),
        r ==> spec_tile_at(tx, ty) == Tile::Grass,
{
    tile_at(tx, ty) == Tile::Grass && (tile_at(tx, ty - 1) == Tile::Farm || tile_at(tx, ty + 1)
        == Tile::Farm)
}

/// Livestock on open ground: `true` for a cow, `false` for a chicken.
pub fn animal_at(tx: i32, ty: i32) -> (r: Option<bool>)
    ensures
        r == spec_animal_at(tx, ty),
        r is Some ==> spec_tile_at(tx, ty) == Tile::Grass && spec_tree_at(tx, ty) is None,
{
    if tile_at(tx, ty) != Tile::Grass || tree_at(tx, ty).is_some() {
        return None;
    }
    let h = hash2(tx ^ 0x6b1f, ty ^ 0x33a7) % 61;
    if h == 0 {
        Some(true)
    } else if h == 1 || h == 2 {
        Some(false)
    } else {
        None
    }
}

/// A prop to scatter on a grass tile, as an index into a list of `kinds`
/// props, or nothing.
pub fn decor_at(tx: i32, ty: i32, kinds: usize) -> (r: Option<usize>)
    requires
        ty == i32::MAX ==> spec_tile_at(tx, ty) != Tile::Grass || kinds == 0 || spec_tile_at(
            tx,
            (ty - 1) as i32,
        ) == Tile::Farm,
    ensures
        r == spec_decor_at(tx, ty, kinds),
        r is Some ==> spec_tile_at(tx, ty) == Tile::Grass && !spec_fence_at(tx, ty) && r->0
            < kinds,
{
    if tile_at(tx, ty) != Tile::Grass || kinds == 0 || fence_at(tx, ty) {
        return None;
    }
    let h = hash2(tx ^ 0x5f37, ty ^ 0x1d9b);
    if h % 100 < 34 {
        Some((h >> 8u32) as usize % kinds)
    } else {
        None
    }
}

/// Whether a tree stands on this tile, and whether it is the large one.
///
/// Trees are kept off farmland, roads and ponds.
pub fn tree_at(tx: i32, ty: i32) -> (r: Option<bool>)
    ensures
        r == spec_tree_at(tx, ty),
        r is Some ==> spec_tile_at(tx, ty) == Tile::Grass,
{
    if tile_at(tx, ty) != Tile::Grass {
        return None;
    }
    let h = hash2(tx ^ 0x2ac1, ty ^ 0x7e15);
    let m = h % 23;
    if m == 0 {
        Some(true)
    } else if m == 1 || m == 2 {
        Some(false)
    } else {
        None
    }
}

/// Roads run unbroken along every block edge: a tile within two meters of a
/// block's west or south edge is always road, and no other tile is.
pub proof fn lemma_roads_follow_block_edges(tx: i32, ty: i32)
    ensures
        (spec_tile_at(tx, ty) == Tile::Path) <==> (block_offset(tx) < 2 || block_offset(ty) < 2),
{
}

/// Every block has three fields at fixed places, each eleven meters square:
/// one at block offsets 4 to 14 on both axes, one 13 meters east of it and
/// one 13 meters north of it. A tile is farmland exactly when its offsets in
/// its 32-meter block fall in one of them.
pub proof fn lemma_fields_lie_at_fixed_offsets(tx: i32, ty: i32)
    ensures
        ({
            let bx = tx as int % 32;
            let by = ty as int % 32;
            (spec_tile_at(tx, ty) == Tile::Farm) <==> ((4 <= bx <= 14 && 4 <= by <= 14) || (17
                <= bx <= 27 && 4 <= by <= 14) || (4 <= bx <= 14 && 17 <= by <= 27))
        }),
{
}

/// Ponds lie only in the fourth quarter of a block, offsets 19 to 27 on both
/// axes, and fill it in every block whose scrambled block coordinates are a
/// multiple of three; everything that is not road, field or pond is grass.
pub proof fn lemma_ponds_lie_in_the_open_quarter(tx: i32, ty: i32)
    ensures
        ({
            let bx = tx as int % 32;
            let by = ty as int % 32;
            let block = spec_hash2((tx as int / 32) as i32, (ty as int / 32) as i32);
            &&& (spec_tile_at(tx, ty) == Tile::Water) <==> (19 <= bx <= 27 && 19 <= by <= 27
                && block % 3 == 0)
            &&& (spec_tile_at(tx, ty) == Tile::Grass) <==> !(bx < 2 || by < 2) && !((4 <= bx
                <= 14 && 4 <= by <= 14) || (17 <= bx <= 27 && 4 <= by <= 14) || (4 <= bx <= 14
                && 17 <= by <= 27)) && !(19 <= bx <= 27 && 19 <= by <= 27 && block % 3 == 0)
        }),
{
}

/// The layout of roads and fields repeats every block in both directions;
/// only where ponds lie depends on which block it is.
pub proof fn lemma_layout_repeats_every_block(tx: i32, ty: i32)
    requires
        tx as int + BLOCK as int <= i32::MAX,
        ty as int + BLOCK as int <= i32::MAX,
    ensures
        (spec_tile_at((tx + BLOCK) as i32, ty) == Tile::Path) == (spec_tile_at(tx, ty)
            == Tile::Path),
        (spec_tile_at((tx + BLOCK) as i32, ty) == Tile::Farm) == (spec_tile_at(tx, ty)
            == Tile::Farm),
        (spec_tile_at(tx, (ty + BLOCK) as i32) == Tile::Path) == (spec_tile_at(tx, ty)
            == Tile::Path),
        (spec_tile_at(tx, (ty + BLOCK) as i32) == Tile::Farm) == (spec_tile_at(tx, ty)
            == Tile::Farm),
{
    assert(block_offset((tx + BLOCK) as i32) == block_offset(tx)) by {
        vstd::arithmetic::div_mod::lemma_mod_add_multiples_vanish(tx as int, BLOCK as int);
    }
    assert(block_offset((ty + BLOCK) as i32) == block_offset(ty)) by {
        vstd::arithmetic::div_mod::lemma_mod_add_multiples_vanish(ty as int, BLOCK as int);
    }
}

/// Nothing grows or stands on a road, a field or in a pond: trees, livestock,
/// props and fences are only ever placed on grass, and livestock never shares
/// a tile with a tree.
pub proof fn lemma_scenery_stands_on_grass(tx: i32, ty: i32, kinds: usize)
    ensures
        spec_tree_at(tx, ty) is Some ==> spec_tile_at(tx, ty) == Tile::Grass,
        spec_animal_at(tx, ty) is Some ==> spec_tile_at(tx, ty) == Tile::Grass && spec_tree_at(
            tx,
            ty,
        ) is None,
        spec_decor_at(tx, ty, kinds) is Some ==> spec_tile_at(tx, ty) == Tile::Grass,
        spec_fence_at(tx, ty) ==> spec_tile_at(tx, ty) == Tile::Grass,
{
}

} // verus!
