//! The non-player subsystem handle.

use vstd::prelude::*;

verus! {

/// Handle under which an embedding engine registers the non-player
/// subsystem: turn scheduling, perception refresh and the invader decision
/// procedure run behind it. The simulation core itself keeps no engine
/// state, so the handle holds nothing; `World::run_tick` is its work.
pub struct NpcPlugin;

} // verus!
