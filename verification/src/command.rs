//! What a game client asks of the simulation, and the bytes it travels in.
use vstd::prelude::*;

use crate::pace::{WALK_STEP_DIAGONAL_MM, WALK_STEP_MM};
use crate::wire::{
    lemma_take_i32_round_trip, lemma_take_opt_u32_round_trip, lemma_take_u32_round_trip,
    lemma_takes_refuse_cut_short, postcard_i32_bytes, postcard_opt_u32_bytes, postcard_take_i32,
    postcard_take_opt_u32, postcard_take_u32, postcard_u32_bytes, take_i32, take_opt_u32, take_u32,
    varint_bytes, write_i32, write_opt_u32, write_u32,
};

verus! {

/// Which way a farmer is walking.
///
/// Eight directions, which is what a keyboard produces. A heading names a
/// direction and nothing else. The step it stands for is fixed here, so a
/// sender cannot ask to travel further in one tick than a walk covers.
#[derive(Clone, Copy, Debug, PartialEq, Eq, Structural, Hash)]
pub enum Heading {
    North,
    NorthEast,
    East,
    SouthEast,
    South,
    SouthWest,
    West,
    NorthWest,
}

/// The millimeters one tick of walking covers on each axis, for a heading.
pub open spec fn spec_step_mm(h: Heading) -> (int, int) {
    let s = WALK_STEP_MM as int;
    let d = WALK_STEP_DIAGONAL_MM as int;
    match h {
        Heading::North => (0, s),
        Heading::NorthEast => (d, d),
        Heading::East => (s, 0),
        Heading::SouthEast => (d, -d),
        Heading::South => (0, -s),
        Heading::SouthWest => (-d, -d),
        Heading::West => (-s, 0),
        Heading::NorthWest => (-d, d),
    }
}

/// The heading a pair of axis signs names, each in `-1 ..= 1`, or `None`
/// when neither axis is pressed or a sign is out of range.
pub open spec fn spec_of_signs(sx: int, sy: int) -> Option<Heading> {
    if sx == 0 && sy == 1 {
        Some(Heading::North)
    } else if sx == 1 && sy == 1 {
        Some(Heading::NorthEast)
    } else if sx == 1 && sy == 0 {
        Some(Heading::East)
    } else if sx == 1 && sy == -1 {
        Some(Heading::SouthEast)
    } else if sx == 0 && sy == -1 {
        Some(Heading::South)
    } else if sx == -1 && sy == -1 {
        Some(Heading::SouthWest)
    } else if sx == -1 && sy == 0 {
        Some(Heading::West)
    } else if sx == -1 && sy == 1 {
        Some(Heading::NorthWest)
    } else {
        None
    }
}

/// Which side of zero a value falls on.
pub open spec fn signum(v: int) -> int {
    if v > 0 {
        1
    } else if v < 0 {
        -1
    } else {
        0
    }
}

impl Heading {
    /// How far one tick of walking moves, in millimeters on each axis.
    pub fn step_mm(self) -> (r: (i32, i32))
        ensures
            r.0 == spec_step_mm(self).0,
            r.1 == spec_step_mm(self).1,
    {
        let s: i32 = WALK_STEP_MM;
        let d: i32 = WALK_STEP_DIAGONAL_MM;
        match self {
            Heading::North => (0, s),
            Heading::NorthEast => (d, d),
            Heading::East => (s, 0),
            Heading::SouthEast => (d, -d),
            Heading::South => (0, -s),
            Heading::SouthWest => (-d, -d),
            Heading::West => (-s, 0),
            Heading::NorthWest => (-d, d),
        }
    }
}

/// The heading a pair of axis signs names, or `None` when neither axis is
/// pressed.
pub fn of_signs(sx: i32, sy: i32) -> (r: Option<Heading>)
    ensures
        r == spec_of_signs(sx as int, sy as int),
{
    if sx == 0 && sy == 1 {
        Some(Heading::North)
    } else if sx == 1 && sy == 1 {
        Some(Heading::NorthEast)
    } else if sx == 1 && sy == 0 {
        Some(Heading::East)
    } else if sx == 1 && sy == -1 {
        Some(Heading::SouthEast)
    } else if sx == 0 && sy == -1 {
        Some(Heading::South)
    } else if sx == -1 && sy == -1 {
        Some(Heading::SouthWest)
    } else if sx == -1 && sy == 0 {
        Some(Heading::West)
    } else if sx == -1 && sy == 1 {
        Some(Heading::NorthWest)
    } else {
        None
    }
}

/// Every heading's step covers one walk step, to within the millimeter the
/// diagonal is rounded to, and points the way the heading names: the signs of
/// its two axes name that heading again.
pub proof fn lemma_every_heading_steps_its_own_way(h: Heading)
    ensures
        ({
            let (dx, dy) = spec_step_mm(h);
            &&& (WALK_STEP_MM - 1) * (WALK_STEP_MM - 1) < dx * dx + dy * dy
            &&& dx * dx + dy * dy < (WALK_STEP_MM + 1) * (WALK_STEP_MM + 1)
            &&& spec_of_signs(signum(dx), signum(dy)) == Some(h)
        }),
{
    let (dx, dy) = spec_step_mm(h);
    assert(dx == 0 || dx == 225 || dx == -225 || dx == 159 || dx == -159);
    assert(dy == 0 || dy == 225 || dy == -225 || dy == 159 || dy == -159);
    assert((dx == 159 || dx == -159) <==> (dy == 159 || dy == -159));
    assert(dx * dx + dy * dy == 225 * 225 || dx * dx + dy * dy == 2 * 159 * 159) by (
    nonlinear_arith)
        requires
            dx == 0 || dx == 225 || dx == -225 || dx == 159 || dx == -159,
            dy == 0 || dy == 225 || dy == -225 || dy == 159 || dy == -159,
            (dx == 159 || dx == -159) <==> (dy == 159 || dy == -159),
            (dx == 0) <==> (dy == 225 || dy == -225),
    ;
}

/// Every heading is named by exactly one pair of signs, and no pair names
/// one when neither axis is pressed.
pub proof fn lemma_signs_name_each_heading_once(sx: int, sy: int, h: Heading)
    ensures
        spec_of_signs(0, 0) is None,
        spec_of_signs(sx, sy) == Some(h) ==> sx == signum(spec_step_mm(h).0) && sy == signum(
            spec_step_mm(h).1,
        ),
{
}

/// A game client's request to the simulation, encoded as the body of a game
/// message. The simulation decides whether to honor it.
#[derive(Clone, Copy, Debug, PartialEq, Eq, Structural)]
pub enum GameCommand {
    PlantLettuce { x: i32, y: i32 },
    /// Walk this way until told otherwise. `None` stands still.
    ///
    /// The simulation owns the position and moves the entity itself. A sender
    /// chooses the direction and the moment, never the distance.
    Walk { heading: Option<Heading> },
}

/// The variant index postcard writes for `PlantLettuce`.
pub const PLANT_LETTUCE_VARIANT: u32 = 0;

/// The variant index postcard writes for `Walk`.
pub const WALK_VARIANT: u32 = 1;

/// A heading's variant index, in declaration order.
pub open spec fn heading_index(h: Heading) -> u32 {
    match h {
        Heading::North => 0,
        Heading::NorthEast => 1,
        Heading::East => 2,
        Heading::SouthEast => 3,
        Heading::South => 4,
        Heading::SouthWest => 5,
        Heading::West => 6,
        Heading::NorthWest => 7,
    }
}

/// The heading with a variant index, if there is one.
pub open spec fn heading_at_index(i: u32) -> Option<Heading> {
    if i == 0 {
        Some(Heading::North)
    } else if i == 1 {
        Some(Heading::NorthEast)
    } else if i == 2 {
        Some(Heading::East)
    } else if i == 3 {
        Some(Heading::SouthEast)
    } else if i == 4 {
        Some(Heading::South)
    } else if i == 5 {
        Some(Heading::SouthWest)
    } else if i == 6 {
        Some(Heading::West)
    } else if i == 7 {
        Some(Heading::NorthWest)
    } else {
        None
    }
}

/// A walk's heading as the variant index postcard writes for it.
pub open spec fn heading_field(heading: Option<Heading>) -> Option<u32> {
    match heading {
        Some(h) => Some(heading_index(h)),
        None => None,
    }
}

/// The variant index a command is written with.
pub open spec fn variant_of(cmd: GameCommand) -> u32 {
    match cmd {
        GameCommand::PlantLettuce { .. } => PLANT_LETTUCE_VARIANT,
        GameCommand::Walk { .. } => WALK_VARIANT,
    }
}

/// The bytes of a command's fields, in order.
pub open spec fn body_bytes(cmd: GameCommand) -> Seq<u8> {
    match cmd {
        GameCommand::PlantLettuce { x, y } => postcard_i32_bytes(x).add(postcard_i32_bytes(y)),
        GameCommand::Walk { heading } => postcard_opt_u32_bytes(heading_field(heading)),
    }
}

/// The bytes a command is sent as: the variant index, then each field in
/// order.
pub open spec fn spec_encode(cmd: GameCommand) -> Seq<u8> {
    postcard_u32_bytes(variant_of(cmd)).add(body_bytes(cmd))
}

/// The command some bytes begin with, or `None` where they do not begin with
/// one. Bytes after a whole command are ignored.
pub open spec fn spec_decode(bytes: Seq<u8>) -> Option<GameCommand> {
    match postcard_take_u32(bytes) {
        Some((variant, rest)) => if variant == PLANT_LETTUCE_VARIANT {
            match postcard_take_i32(rest) {
                Some((x, rest)) => match postcard_take_i32(rest) {
                    Some((y, _)) => Some(GameCommand::PlantLettuce { x, y }),
                    None => None,
                },
                None => None,
            }
        } else if variant == WALK_VARIANT {
            match postcard_take_opt_u32(rest) {
                Some((None, _)) => Some(GameCommand::Walk { heading: None }),
                Some((Some(i), _)) => match heading_at_index(i) {
                    Some(h) => Some(GameCommand::Walk { heading: Some(h) }),
                    None => None,
                },
                None => None,
            }
        } else {
            None
        },
        None => None,
    }
}

/// A heading's variant index.
fn index_of_heading(h: Heading) -> (r: u32)
    ensures
        r == heading_index(h),
        heading_at_index(r) == Some(h),
{
    match h {
        Heading::North => 0,
        Heading::NorthEast => 1,
        Heading::East => 2,
        Heading::SouthEast => 3,
        Heading::South => 4,
        Heading::SouthWest => 5,
        Heading::West => 6,
        Heading::NorthWest => 7,
    }
}

/// The heading at a variant index.
fn heading_of_index(i: u32) -> (r: Option<Heading>)
    ensures
        r == heading_at_index(i),
{
    match i {
        0 => Some(Heading::North),
        1 => Some(Heading::NorthEast),
        2 => Some(Heading::East),
        3 => Some(Heading::SouthEast),
        4 => Some(Heading::South),
        5 => Some(Heading::SouthWest),
        6 => Some(Heading::West),
        7 => Some(Heading::NorthWest),
        _ => None,
    }
}

impl GameCommand {
    /// Serializes to postcard's compact binary representation.
    pub fn encode(&self) -> (r: Vec<u8>)
        ensures
            r@ == spec_encode(*self),
    {
        match *self {
            GameCommand::PlantLettuce { x, y } => {
                let mut out = write_u32(PLANT_LETTUCE_VARIANT);
                let mut xs = write_i32(x);
                let mut ys = write_i32(y);
                out.append(&mut xs);
                out.append(&mut ys);
                assert(out@ =~= spec_encode(*self));
                out
            },
            GameCommand::Walk { heading } => {
                let mut out = write_u32(WALK_VARIANT);
                let field = match heading {
                    Some(h) => Some(index_of_heading(h)),
                    None => None,
                };
                let mut hs = write_opt_u32(field);
                out.append(&mut hs);
                assert(out@ =~= spec_encode(*self));
                out
            },
        }
    }

    /// Deserializes from bytes produced by [`encode`](Self::encode).
    /// Returns `None` if the bytes are malformed or truncated.
    ///
    /// Whatever `encode` wrote decodes to the command it was written from, and
    /// the same bytes cut short decode to nothing.
    pub fn decode(bytes: &[u8]) -> (r: Option<GameCommand>)
        ensures
            r == spec_decode(bytes@),
            forall|c: GameCommand| bytes@ == spec_encode(c) ==> r == Some(c),
            forall|c: GameCommand, k: int|
                0 <= k < spec_encode(c).len() && bytes@ == #[trigger] spec_encode(c).take(k) ==> r
                    is None,
            bytes@.len() == 0 ==> r is None,
    {
        proof {
            assert forall|c: GameCommand| bytes@ == spec_encode(c) implies spec_decode(bytes@)
                == Some(c) by {
                lemma_decode_reads_back_encode(c);
            }
            assert forall|c: GameCommand, k: int|
                0 <= k < spec_encode(c).len() && bytes@ == #[trigger] spec_encode(c).take(
                    k,
                ) implies spec_decode(bytes@) is None by {
                lemma_decode_refuses_cut_short(c, k);
            }
        }
        let (variant, rest) = match take_u32(bytes) {
            Some(pair) => pair,
            None => return None,
        };
        if variant == PLANT_LETTUCE_VARIANT {
            let (x, rest2) = match take_i32(rest) {
                Some(pair) => pair,
                None => return None,
            };
            let (y, _) = match take_i32(rest2) {
                Some(pair) => pair,
                None => return None,
            };
            Some(GameCommand::PlantLettuce { x, y })
        } else if variant == WALK_VARIANT {
            match take_opt_u32(rest) {
                Some((None, _)) => Some(GameCommand::Walk { heading: None }),
                Some((Some(i), _)) => match heading_of_index(i) {
                    Some(h) => Some(GameCommand::Walk { heading: Some(h) }),
                    None => None,
                },
                None => None,
            }
        } else {
            None
        }
    }
}

/// A walk with a heading travels as three bytes: `1` for a walk, `1` for a
/// heading to follow, and then the heading as a count of eighth turns
/// clockwise from north, as postcard writes an enum by its place in the
/// declaration. The heading's step points the way that many eighth turns
/// point: none is north, two east, four south, six west, and the odd counts
/// the diagonals between.
pub proof fn lemma_headings_travel_as_eighth_turns(h: Heading)
    ensures
        ({
            let e = spec_encode(GameCommand::Walk { heading: Some(h) });
            let b = e[2] as int;
            let (dx, dy) = spec_step_mm(h);
            &&& e.len() == 3 && e[0] == 1 && e[1] == 1 && b < 8
            &&& signum(dx) == (if b == 0 || b == 4 {
                0
            } else if b < 4 {
                1
            } else {
                -1
            })
            &&& signum(dy) == (if b == 2 || b == 6 {
                0
            } else if b < 2 || b == 7 {
                1
            } else {
                -1
            })
        }),
{
    let i = heading_index(h);
    let e = spec_encode(GameCommand::Walk { heading: Some(h) });
    assert(postcard_u32_bytes(WALK_VARIANT) =~= seq![1u8]);
    assert(varint_bytes(i as nat) =~= seq![i as u8]);
    assert(e =~= seq![1u8, 1u8, i as u8]);
}

/// The three bytes of a walk with a heading decode to the heading that many
/// eighth turns clockwise from north points, for counts below eight; a count
/// of eight or more names no heading and is refused. A walk with no heading
/// travels as `1, 0`.
pub proof fn lemma_eighth_turns_decode_to_headings(b: u8)
    ensures
        b < 8 ==> (spec_decode(seq![1u8, 1u8, b]) matches Some(
            GameCommand::Walk { heading: Some(h) },
        ) && signum(spec_step_mm(h).0) == (if b == 0 || b == 4 {
            0
        } else if b < 4 {
            1
        } else {
            -1
        }) && signum(spec_step_mm(h).1) == (if b == 2 || b == 6 {
            0
        } else if b < 2 || b == 7 {
            1
        } else {
            -1
        })),
        8 <= b < 128 ==> spec_decode(seq![1u8, 1u8, b]) is None,
        spec_decode(seq![1u8, 0u8]) == Some(GameCommand::Walk { heading: None }),
        spec_encode(GameCommand::Walk { heading: None }) == seq![1u8, 0u8],
{
    let bytes = seq![1u8, 1u8, b];
    assert(bytes.skip(1) =~= seq![1u8, b]);
    assert(seq![1u8, b].drop_first() =~= seq![b]);
    assert(seq![b].skip(1) =~= Seq::<u8>::empty());
    assert(seq![1u8, 0u8].skip(1) =~= seq![0u8]);
    assert(seq![0u8].drop_first() =~= Seq::<u8>::empty());
    assert(postcard_u32_bytes(WALK_VARIANT) =~= seq![1u8]);
    assert(spec_encode(GameCommand::Walk { heading: None }) =~= seq![1u8, 0u8]);
}

/// Decoding the bytes a command is sent as gives the command back.
pub proof fn lemma_decode_reads_back_encode(c: GameCommand)
    ensures
        spec_decode(spec_encode(c)) == Some(c),
{
    let body = body_bytes(c);
    lemma_take_u32_round_trip(variant_of(c), body);
    match c {
        GameCommand::PlantLettuce { x, y } => {
            lemma_take_i32_round_trip(x, postcard_i32_bytes(y));
            lemma_take_i32_round_trip(y, Seq::<u8>::empty());
            assert(postcard_i32_bytes(y).add(Seq::<u8>::empty()) =~= postcard_i32_bytes(y));
        },
        GameCommand::Walk { heading } => {
            lemma_take_opt_u32_round_trip(heading_field(heading), Seq::<u8>::empty());
            assert(postcard_opt_u32_bytes(heading_field(heading)).add(Seq::<u8>::empty())
                =~= body);
        },
    }
}

/// The bytes a command is sent as, cut short anywhere before their end,
/// decode to nothing.
pub proof fn lemma_decode_refuses_cut_short(c: GameCommand, k: int)
    requires
        0 <= k < spec_encode(c).len(),
    ensures
        spec_decode(spec_encode(c).take(k)) is None,
{
    let head = postcard_u32_bytes(variant_of(c));
    let body = body_bytes(c);
    let cut = spec_encode(c).take(k);
    if k < head.len() {
        assert(cut =~= head.take(k));
        lemma_takes_refuse_cut_short(variant_of(c), 0, None, k);
    } else {
        let kb = k - head.len();
        assert(cut =~= head.add(body.take(kb)));
        lemma_take_u32_round_trip(variant_of(c), body.take(kb));
        match c {
            GameCommand::PlantLettuce { x, y } => {
                let xs = postcard_i32_bytes(x);
                let ys = postcard_i32_bytes(y);
                if kb < xs.len() {
                    assert(body.take(kb) =~= xs.take(kb));
                    lemma_takes_refuse_cut_short(0, x, None, kb);
                } else {
                    assert(body.take(kb) =~= xs.add(ys.take(kb - xs.len())));
                    lemma_take_i32_round_trip(x, ys.take(kb - xs.len()));
                    lemma_takes_refuse_cut_short(0, y, None, kb - xs.len());
                }
            },
            GameCommand::Walk { heading } => {
                lemma_takes_refuse_cut_short(0, 0, heading_field(heading), kb);
            },
        }
    }
}

} // verus!
