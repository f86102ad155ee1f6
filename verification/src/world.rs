//! What a client keeps about the world, and how it reads a tag.
use vstd::prelude::*;

use crate::tags::{is_lettuce_tag, LETTUCE_RIPE, LETTUCE_SEED};

verus! {

/// The tag an entity carries when it is a person rather than a crop. Clients
/// spawn as observers, which the simulation tags 0.
pub const PLAYER_TAG: u16 = 0;

/// Whether a tag marks a person.
pub fn is_player(tag: u16) -> (r: bool)
    ensures
        r == (tag == PLAYER_TAG),
{
    tag == PLAYER_TAG
}

/// Whether a tag marks lettuce at any point in its growth.
pub fn is_lettuce(tag: u16) -> (r: bool)
    ensures
        r == is_lettuce_tag(tag),
{
    LETTUCE_SEED <= tag && tag <= LETTUCE_RIPE
}

/// No tag marks both a person and a crop.
pub proof fn lemma_people_are_not_crops(tag: u16)
    ensures
        !(tag == PLAYER_TAG && is_lettuce_tag(tag)),
{
}

/// Which way a figure is turned.
///
/// Facing is not on the wire. The client infers it from where an entity was
/// last seen heading, and remembers it once they stop.
#[derive(Clone, Copy, PartialEq, Eq, Structural, Debug)]
pub enum Facing {
    Down,
    Up,
    Left,
    Right,
}

/// Counters behind the telemetry readout.
pub struct Stats {
    pub packets: u64,
    pub updates: u64,
    pub despawns: u64,
    pub last_packet: Option<std::time::Instant>,
}

impl Default for Stats {
    /// Nothing counted and no packet seen.
    fn default() -> (r: Stats)
        ensures
            r.packets == 0,
            r.updates == 0,
            r.despawns == 0,
            r.last_packet is None,
    {
        Stats { packets: 0, updates: 0, despawns: 0, last_packet: None }
    }
}

} // verus!
