//! Status effects and attribute modifiers of simulated entities, and the
//! tick-driven rules that replicate them to observers.
//!
//! - [`effect`] is the catalog of status effects.
//! - [`entityproperty`] holds the attributes of an entity and their
//!   modifiers, and [`name`] the order of attribute names.
//! - [`wire`] lays out the values of the binary protocol, [`codec`] the
//!   attributes, and [`packet`] the packets.
//! - [`entity`] holds the per-entity state and the rules that run on it
//!   each tick: starting, expiring and refreshing effects, announcing
//!   changed attributes, and making and destroying block entities.
//!
//! Nothing here waits or sends: every rule takes the state of one entity and
//! the number of the tick, changes the state, and hands back the packets to
//! send.

pub mod codec;
pub mod effect;
pub mod entity;
pub mod entityproperty;
pub mod name;
pub mod packet;
pub mod wire;
