//! Per-entity state and the rules that run on it each tick.

pub mod block;
pub mod deletion;
pub mod effect;
pub mod properties;

use vstd::prelude::*;

verus! {

/// The network identifier of an entity.
#[derive(Debug, Clone, Copy, PartialEq, Eq, Hash, Structural)]
pub struct EntityId(pub i32);

} // verus!
