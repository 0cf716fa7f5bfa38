use vstd::prelude::*;

verus! {

/// A mobile inhabitant of the world. Its handle is the key under which the
/// population stores it; the record itself only knows where it stands.
#[derive(Clone, Copy, Debug, PartialEq, Eq)]
pub struct Creature {
    /// Coordinate of the area the creature stands on.
    pub key_area: (usize, usize),
    /// Set once the creature has died during the running tick.
    pub to_remove: bool,
    /// Free payload, untouched by the simulation rules.
    pub param: usize,
}

impl Creature {
    /// A living creature standing on `key_area`.
    pub fn new(key_area: (usize, usize)) -> (c: Creature)
        ensures
            c == (Creature { key_area, to_remove: false, param: 0 }),
    {
        Creature { key_area, to_remove: false, param: 0 }
    }

    /// Whether the record survives the removal pass that ends a tick.
    pub fn is_live(&self) -> (live: bool)
        ensures
            live == !self.to_remove,
    {
        !self.to_remove
    }
}

} // verus!
