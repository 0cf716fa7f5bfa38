use vstd::prelude::*;

verus! {

/// One cell of the grid. `vacant` is kept beside the occupant so that a cell
/// can be reserved for a newborn before the newborn has a handle: a reserved
/// cell has no occupant and is not vacant.
#[derive(Clone, Copy, Debug, PartialEq, Eq, Structural)]
pub struct Area {
    /// Handle of the creature standing here, if any.
    pub key_creature: Option<usize>,
    /// Whether a creature may move or be born here.
    pub vacant: bool,
    /// Free payload, untouched by the simulation rules.
    pub param: usize,
}

impl Area {
    /// An empty, vacant cell.
    pub fn new() -> (a: Area)
        ensures
            a == (Area { key_creature: None, vacant: true, param: 0 }),
    {
        Area { key_creature: None, vacant: true, param: 0 }
    }

    /// The cell as it is while `handle` stands on it.
    pub open spec fn occupied_by(self, handle: usize) -> Area {
        Area { key_creature: Some(handle), vacant: false, param: self.param }
    }

    /// The cell after its occupant has left.
    pub open spec fn vacated(self) -> Area {
        Area { key_creature: None, vacant: true, param: self.param }
    }

    /// The cell once it is held back for a newborn that has no handle yet.
    pub open spec fn reserved(self) -> Area {
        Area { key_creature: self.key_creature, vacant: false, param: self.param }
    }
}

} // verus!
