//! How a figure is drawn: which row of the character sheets it uses, which
//! way it is mirrored, which farmer it looks like, and which stage of a crop a
//! tag shows.
use vstd::prelude::*;

use crate::tags::{LETTUCE_GROWING, LETTUCE_SEED, LETTUCE_SPROUT};
use crate::terrain::{hash2, spec_hash2};
use crate::world::Facing;

verus! {

/// Rows of the character sheets. The pack orders them the same way in every
/// layer, so one row index addresses all of them.
#[derive(Clone, Copy, PartialEq, Eq, Structural, Debug)]
pub enum Pose {
    IdleDown,
    IdleSide,
    IdleUp,
    WalkDown,
    WalkSide,
    WalkUp,
}

/// The sheet row a pose is drawn from.
pub open spec fn spec_pose_row(p: Pose) -> usize {
    match p {
        Pose::IdleDown => 0,
        Pose::IdleSide => 1,
        Pose::IdleUp => 2,
        Pose::WalkDown => 3,
        Pose::WalkSide => 4,
        Pose::WalkUp => 5,
    }
}

impl Pose {
    /// The sheet row this pose is drawn from.
    pub fn row(self) -> (r: usize)
        ensures
            r == spec_pose_row(self),
            r < 6,
    {
        match self {
            Pose::IdleDown => 0,
            Pose::IdleSide => 1,
            Pose::IdleUp => 2,
            Pose::WalkDown => 3,
            Pose::WalkSide => 4,
            Pose::WalkUp => 5,
        }
    }
}

/// The frame row for a figure facing some way, walking or standing, and
/// whether it is mirrored. The pack draws its character facing right, so
/// left is the same art flipped.
pub open spec fn spec_pose_for(facing: Facing, moving: bool) -> (Pose, bool) {
    match facing {
        Facing::Up => (if moving { Pose::WalkUp } else { Pose::IdleUp }, false),
        Facing::Down => (if moving { Pose::WalkDown } else { Pose::IdleDown }, false),
        Facing::Left => (if moving { Pose::WalkSide } else { Pose::IdleSide }, true),
        Facing::Right => (if moving { Pose::WalkSide } else { Pose::IdleSide }, false),
    }
}

/// The frame row for a figure, and whether it needs mirroring.
pub fn pose_for(facing: Facing, moving: bool) -> (r: (Pose, bool))
    ensures
        r == spec_pose_for(facing, moving),
        facing == Facing::Up ==> r.0 == (if moving { Pose::WalkUp } else { Pose::IdleUp }),
        facing == Facing::Down ==> r.0 == (if moving { Pose::WalkDown } else { Pose::IdleDown }),
        (facing == Facing::Left || facing == Facing::Right) ==> r.0 == (if moving {
            Pose::WalkSide
        } else {
            Pose::IdleSide
        }),
        r.1 == (facing == Facing::Left),
{
    proof {
        lemma_pose_looks_the_way_it_faces(facing, moving);
    }
    match (facing, moving) {
        (Facing::Up, true) => (Pose::WalkUp, false),
        (Facing::Up, false) => (Pose::IdleUp, false),
        (Facing::Down, true) => (Pose::WalkDown, false),
        (Facing::Down, false) => (Pose::IdleDown, false),
        (Facing::Left, true) => (Pose::WalkSide, true),
        (Facing::Left, false) => (Pose::IdleSide, true),
        (Facing::Right, true) => (Pose::WalkSide, false),
        (Facing::Right, false) => (Pose::IdleSide, false),
    }
}

/// A figure is drawn looking the way it faces: facing up it uses an up row,
/// facing down a down row, and facing either side a side row; walking picks
/// the walk row of that direction and standing the idle one. Only a figure
/// facing left is mirrored.
pub proof fn lemma_pose_looks_the_way_it_faces(facing: Facing, moving: bool)
    ensures
        facing == Facing::Up ==> spec_pose_for(facing, moving).0 == (if moving {
            Pose::WalkUp
        } else {
            Pose::IdleUp
        }),
        facing == Facing::Down ==> spec_pose_for(facing, moving).0 == (if moving {
            Pose::WalkDown
        } else {
            Pose::IdleDown
        }),
        (facing == Facing::Left || facing == Facing::Right) ==> spec_pose_for(facing, moving).0
            == (if moving {
            Pose::WalkSide
        } else {
            Pose::IdleSide
        }),
        spec_pose_for(facing, moving).1 == (facing == Facing::Left),
{
}

/// Only a figure facing left is mirrored, and a walking figure is always in
/// one of the walk rows.
pub proof fn lemma_only_left_is_mirrored(facing: Facing, moving: bool)
    ensures
        spec_pose_for(facing, moving).1 == (facing == Facing::Left),
        moving ==> spec_pose_row(spec_pose_for(facing, moving).0) >= 3,
        !moving ==> spec_pose_row(spec_pose_for(facing, moving).0) < 3,
{
}

/// The appearance an entity wears, out of `count`, from its id.
///
/// Derived from the id rather than assigned as it arrives, so every client
/// draws the same person the same way and someone stays recognizable after
/// walking out of view and back.
pub fn look_of(id: u32, count: usize) -> (r: usize)
    ensures
        r == (spec_hash2(id as i32, 0x51ed) as usize) % (if count > 1 {
            count
        } else {
            1
        }),
        count > 0 ==> r < count,
        count <= 1 ==> r == 0,
{
    let looks: usize = if count > 1 {
        count
    } else {
        1
    };
    hash2(id as i32, 0x51ed) as usize % looks
}

/// How many frames an entity's walk cycle is offset by, from its id, so a
/// crowd does not march in step.
pub fn step_offset(id: u32) -> (r: usize)
    ensures
        r == (spec_hash2(id as i32, 7) as usize) % 6,
        r < 6,
{
    hash2(id as i32, 7) as usize % 6
}

/// Which of the four lettuce sprites a tag shows, youngest first; anything
/// past growing shows ripe.
pub fn stage_of(tag: u16) -> (r: usize)
    ensures
        r == (if tag == LETTUCE_SEED {
            0usize
        } else if tag == LETTUCE_SPROUT {
            1usize
        } else if tag == LETTUCE_GROWING {
            2usize
        } else {
            3usize
        }),
        r < 4,
{
    if tag == LETTUCE_SEED {
        0
    } else if tag == LETTUCE_SPROUT {
        1
    } else if tag == LETTUCE_GROWING {
        2
    } else {
        3
    }
}

/// Shirt colors in the pack.
pub const SHIRT_COLORS: usize = 8;
/// Trouser colors in the pack.
pub const PANTS_COLORS: usize = 8;
/// Shoe colors in the pack.
pub const SHOE_COLORS: usize = 8;
/// Hair styles in the pack, numbered from 1.
pub const HAIR_STYLES: usize = 6;
/// Hair colors in the pack.
pub const HAIR_COLORS: usize = 5;
/// Skin tones a farmer can be recolored to.
pub const SKIN_TONES: usize = 6;

/// Which layer of each kind makes up one farmer: the shirt, trouser, shoe and
/// hair color indices, the hair style number, and the skin tone.
#[derive(Clone, Copy, PartialEq, Eq, Structural, Debug)]
pub struct Outfit {
    pub shirt: usize,
    pub pants: usize,
    pub shoes: usize,
    pub hair_style: u8,
    pub hair_color: usize,
    pub skin: usize,
}

/// The layers farmer `n` is stacked from. Each kind steps at its own rate, so
/// neighbouring farmers differ in several layers at once.
pub fn outfit(n: usize) -> (r: Outfit)
    ensures
        r.shirt == n % SHIRT_COLORS,
        r.pants == (n / 2) % PANTS_COLORS,
        r.shoes == (n / 3) % SHOE_COLORS,
        r.hair_style == (n / 4) % HAIR_STYLES + 1,
        r.hair_color == n % HAIR_COLORS,
        r.skin == (n / 5) % SKIN_TONES,
        r.shirt < SHIRT_COLORS && r.pants < PANTS_COLORS && r.shoes < SHOE_COLORS,
        1 <= r.hair_style <= HAIR_STYLES && r.hair_color < HAIR_COLORS && r.skin < SKIN_TONES,
{
    let style = (n / 4) % HAIR_STYLES;
    Outfit {
        shirt: n % SHIRT_COLORS,
        pants: (n / 2) % PANTS_COLORS,
        shoes: (n / 3) % SHOE_COLORS,
        hair_style: (style + 1) as u8,
        hair_color: n % HAIR_COLORS,
        skin: (n / 5) % SKIN_TONES,
    }
}

} // verus!
