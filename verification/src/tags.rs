//! What a tag means. Tags are the game's own labels for entities: a crop's
//! growth stage, or a person.
use vstd::prelude::*;

verus! {

/// Lettuce, one tag per growth stage, youngest first.
pub const LETTUCE_SEED: u16 = 1;
/// A sprouted lettuce.
pub const LETTUCE_SPROUT: u16 = 2;
/// A lettuce part way grown.
pub const LETTUCE_GROWING: u16 = 3;
/// A lettuce ready to pick.
pub const LETTUCE_RIPE: u16 = 4;

/// Whether a tag is one of lettuce's growth stages, `LETTUCE_SEED ..=
/// LETTUCE_RIPE`.
pub open spec fn is_lettuce_tag(tag: u16) -> bool {
    LETTUCE_SEED <= tag <= LETTUCE_RIPE
}

} // verus!
