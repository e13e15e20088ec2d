//! Actors and their cached perception state.

use vstd::prelude::*;
use crate::grid::Coordinate;

verus! {

/// Role tag: the player, or a non-player actor.
#[derive(Clone, Copy, PartialEq, Eq, Structural, Debug)]
pub enum Role {
    Player,
    NonPlayer,
}

/// Cached perception state of one actor: its radius, the last-computed
/// visible sets, and a dirty flag. While the flag is set the cached sets are
/// stale and must not be read before recomputation.
#[derive(Debug)]
pub struct Viewshed {
    /// Perception radius, in tiles.
    pub radius: u16,
    /// Whether the cached sets are stale.
    pub dirty: bool,
    /// The coordinates visible at the last computation.
    pub visible_tiles: Vec<Coordinate>,
    /// The identities of the other actors visible at the last computation.
    pub visible_actors: Vec<u64>,
}

impl Viewshed {
    /// A fresh viewshed: nothing is cached yet, so it starts dirty.
    pub fn new(radius: u16) -> (v: Viewshed)
        ensures
            v.radius == radius,
            v.dirty,
    {
        Viewshed { radius, dirty: true, visible_tiles: Vec::new(), visible_actors: Vec::new() }
    }
}

/// One actor of the simulation: identity, position, role, scheduling state
/// and perception state. An actor without a viewshed is blind.
#[derive(Debug)]
pub struct Actor {
    /// Identity, unique within a world.
    pub id: u64,
    /// Current position; the occupancy invariant keeps it unique too.
    pub pos: Coordinate,
    /// Player or non-player.
    pub role: Role,
    /// Action points accrued per tick.
    pub quickness: u32,
    /// Accumulated action-point balance.
    pub budget: u64,
    /// How many times this actor has been the active actor.
    pub times_active: u64,
    /// Cached perception, if the actor perceives at all.
    pub viewshed: Option<Viewshed>,
}

} // verus!
