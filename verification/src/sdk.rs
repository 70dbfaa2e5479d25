//! The decision-unit side of the protocol: the handles a colony program
//! uses to look at the game world. The world access itself is served by the
//! host; these are the entry points.

use vstd::prelude::*;

verus! {

/// Information and controls specific to one colony.
#[derive(Debug, Clone, Copy, PartialEq, Eq, Structural)]
pub struct Colony {}

/// The stellar navigation view of the universe.
#[derive(Debug, Clone, Copy, PartialEq, Eq, Structural)]
pub struct UniverseMap {}

/// Provides a colony program with access to the game world.
#[derive(Debug, Clone, Copy, PartialEq, Eq, Structural)]
pub struct Game {}

impl Game {
    /// Information and controls specific to your colony.
    pub fn my_colony() -> (r: Colony)
        ensures
            r == (Colony {  }),
    {
        Colony {  }
    }

    /// Access to the stellar navigation view of the universe.
    pub fn map() -> (r: UniverseMap)
        ensures
            r == (UniverseMap {  }),
    {
        UniverseMap {  }
    }
}

} // verus!
