//! Systems: the units of behaviour that a driver runs against a world.

use crate::world::World;
use vstd::prelude::*;

verus! {

/// A unit of behaviour. A driver runs it once per tick, with exclusive
/// access to the world for the length of the call; the world is its only
/// channel to entities and components. In which order systems run is up to
/// the driver.
pub trait System {
    /// Runs the system once. It is handed a well-formed world and leaves a
    /// well-formed world.
    fn run(&mut self, world: &mut World)
        requires
            old(world).wf(),
        ensures
            final(world).wf(),
    ;
}

} // verus!
