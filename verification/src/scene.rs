//! The scene view handed to every node each frame: bevy_ecs's entity/component
//! store.  The two node types in this crate never read it, but it is part of
//! the general node contract, so it flows through `update` unexamined.

use vstd::prelude::*;

verus! {

/// Relies on bevy_ecs::world::World only as an opaque value: the graph passes
/// a shared reference through to node `update` calls and states nothing about
/// its contents.
#[verifier::external_type_specification]
#[verifier::external_body]
pub struct ExWorld(bevy_ecs::world::World);

} // verus!
