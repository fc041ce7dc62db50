//! Entity-component substrate of a 2D real-time game.
//!
//! The crate provides an entity store with per-type component tables, and the
//! per-frame systems built on top of it: movement integration, direction
//! facing, an animation state machine, AI and bomb timers, and a depth-sorted
//! render pass that turns world state into an ordered list of draw commands.
//!
//! All coordinates, velocities and durations are fixed-point integers: a
//! position coordinate is measured in thousandths of a pixel, a velocity axis
//! in thousandths of full speed, and time in milliseconds.
use vstd::prelude::*;

pub mod components;
pub mod entity_system;
pub mod laws;
pub mod numeric;
pub mod systems;
pub mod table;

use crate::entity_system::EntitySystemError;
use crate::systems::SystemsError;

verus! {

/// Top-level error: either the entity store or one of the systems failed.
#[derive(Clone, Copy, PartialEq, Eq, Structural, Debug)]
pub enum GameError {
    EntitySystemError(EntitySystemError),
    SystemsError(SystemsError),
}

impl From<EntitySystemError> for GameError {
    fn from(err: EntitySystemError) -> (r: Self) {
        GameError::EntitySystemError(err)
    }
}

impl vstd::std_specs::convert::FromSpecImpl<EntitySystemError> for GameError {
    open spec fn obeys_from_spec() -> bool {
        true
    }

    open spec fn from_spec(err: EntitySystemError) -> Self {
        GameError::EntitySystemError(err)
    }
}

impl From<SystemsError> for GameError {
    fn from(err: SystemsError) -> (r: Self) {
        GameError::SystemsError(err)
    }
}

impl vstd::std_specs::convert::FromSpecImpl<SystemsError> for GameError {
    open spec fn obeys_from_spec() -> bool {
        true
    }

    open spec fn from_spec(err: SystemsError) -> Self {
        GameError::SystemsError(err)
    }
}

} // verus!
