//! Turn-based simulation core of a grid roguelike.
//!
//! The crate decides, every discrete tick, which actor may act, what that
//! actor can perceive, and — for non-player actors — what action they choose:
//! a fairness-bound turn scheduler, an occlusion-aware field-of-view engine
//! whose caches are invalidated lazily on movement, a decision procedure that
//! picks a legal action under bounded retries, and an executor that applies
//! the chosen action while keeping the occupancy invariant.

pub mod actor;
pub mod decision;
pub mod grid;
pub mod npc;
pub mod scheduler;
pub mod terrain;
pub mod visibility;
pub mod world;
