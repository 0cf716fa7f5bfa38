use vstd::prelude::*;

verus! {

/// The ways in which a request to the simulation can be refused.
#[derive(Clone, Copy, Debug, PartialEq, Eq, Structural)]
pub enum SimError {
    /// A coordinate does not name a cell of the world.
    OutOfBounds,
    /// A handle does not name a creature of the population.
    UnknownHandle,
    /// A handle already names a creature of the population.
    DuplicateHandle,
    /// More creatures were asked for than the world has cells.
    PopulationExceedsCapacity,
    /// The world and the population do not fit together, so no tick can run.
    InvariantBroken,
}

} // verus!
