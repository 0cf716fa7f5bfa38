use crate::area::Area;
use crate::error::SimError;
use crate::grid::{in_bounds, neighbors, neighbors_of};
use crate::store::{
    area_entries, area_order, areas_empty, areas_get, areas_insert, areas_keys, TAreas,
};
use vstd::pervasive::unreached;
use vstd::prelude::*;

verus! {

/// The grid: `size_x` by `size_y` cells, each found under its coordinate.
pub struct World {
    pub size_x: usize,
    pub size_y: usize,
    pub areas: TAreas,
}

impl View for World {
    type V = Map<(usize, usize), Area>;

    /// The cells of the world by coordinate.
    open spec fn view(&self) -> Map<(usize, usize), Area> {
        area_entries(self.areas)
    }
}

impl World {
    /// The coordinates of the cells in the order the world walks them.
    pub open spec fn order(&self) -> Seq<(usize, usize)> {
        area_order(self.areas)
    }

    /// Whether `at` lies inside the world's rectangle.
    pub open spec fn contains(&self, at: (usize, usize)) -> bool {
        in_bounds(self.size_x, self.size_y, at)
    }

    /// A well-formed world has one cell for every coordinate of its rectangle
    /// and no others, and walks each of them once.
    pub open spec fn wf(&self) -> bool {
        &&& forall|at: (usize, usize)| #[trigger] self@.dom().contains(at) <==> self.contains(at)
        &&& self.order().no_duplicates()
        &&& forall|at: (usize, usize)| #[trigger]
            self.order().contains(at) <==> self@.dom().contains(at)
    }

    /// Whether `other` has the shape of `self`: the same rectangle, the same
    /// cells present, walked in the same order.
    pub open spec fn same_shape(&self, other: &World) -> bool {
        &&& other.size_x == self.size_x
        &&& other.size_y == self.size_y
        &&& other@.dom() == self@.dom()
        &&& other.order() == self.order()
    }

    /// Whether `other` is `self` with other occupants: the same shape, and
    /// every cell with the payload it has in `self`.
    pub open spec fn same_ground(&self, other: &World) -> bool {
        &&& self.same_shape(other)
        &&& forall|at: (usize, usize)| #[trigger]
            self@.dom().contains(at) ==> other@[at].param == self@[at].param
    }

    /// A world of no extent and without cells.
    pub fn empty() -> (world: World)
        ensures
            world.size_x == 0,
            world.size_y == 0,
            world@.dom().is_empty(),
            world.order().len() == 0,
    {
        World::new(areas_empty())
    }

    /// A world of no extent around the given cells.
    pub fn new(areas: TAreas) -> (world: World)
        ensures
            world.size_x == 0,
            world.size_y == 0,
            world.areas == areas,
    {
        World { size_x: 0, size_y: 0, areas }
    }

    /// The cell at `at`, or `OutOfBounds` when the world has none there.
    pub fn get(&self, at: (usize, usize)) -> (found: Result<Area, SimError>)
        ensures
            match found {
                Ok(area) => self.contains(at) && self@.dom().contains(at) && area == self@[at],
                Err(e) => e == SimError::OutOfBounds && !(self.contains(at) && self@.dom().contains(
                    at,
                )),
            },
    {
        if at.0 < self.size_x && at.1 < self.size_y {
            match areas_get(&self.areas, at) {
                Some(area) => Ok(area),
                None => Err(SimError::OutOfBounds),
            }
        } else {
            Err(SimError::OutOfBounds)
        }
    }

    /// Replaces the cell at `at`, or reports `OutOfBounds` and changes
    /// nothing when the world has no cell there.
    pub fn set(&mut self, at: (usize, usize), area: Area) -> (done: Result<(), SimError>)
        ensures
            match done {
                Ok(_) => {
                    &&& old(self).contains(at)
                    &&& old(self)@.dom().contains(at)
                    &&& final(self)@ == old(self)@.insert(at, area)
                    &&& old(self).same_shape(final(self))
                },
                Err(e) => {
                    &&& e == SimError::OutOfBounds
                    &&& !(old(self).contains(at) && old(self)@.dom().contains(at))
                    &&& *final(self) == *old(self)
                },
            },
            old(self).wf() ==> final(self).wf(),
    {
        if at.0 < self.size_x && at.1 < self.size_y {
            match areas_get(&self.areas, at) {
                Some(_) => {
                    areas_insert(&mut self.areas, at, area);
                    assert(self@.dom() =~= old(self)@.dom());
                    Ok(())
                },
                None => Err(SimError::OutOfBounds),
            }
        } else {
            Err(SimError::OutOfBounds)
        }
    }

    /// Whether the world is well-formed: walks its coordinates to see that
    /// none lies outside the rectangle, then the rectangle to see that no
    /// cell is missing.
    #[verifier::loop_isolation(false)]
    pub fn well_formed(&self) -> (ok: bool)
        ensures
            ok == self.wf(),
    {
        let coords = self.coords();
        let mut i: usize = 0;
        while i < coords.len()
            invariant
                i <= coords.len(),
                forall|at: (usize, usize)| coords@.contains(at) <==> self@.dom().contains(at),
                forall|j: int| 0 <= j < i ==> self.contains(#[trigger] coords@[j]),
            decreases coords.len() - i,
        {
            let at = coords[i];
            if at.0 >= self.size_x || at.1 >= self.size_y {
                assert(coords@.contains(at));
                return false;
            }
            i += 1;
        }
        let mut x: usize = 0;
        while x < self.size_x
            invariant
                x <= self.size_x,
                forall|at: (usize, usize)|
                    at.0 < x && at.1 < self.size_y ==> #[trigger] self@.dom().contains(at),
            decreases self.size_x - x,
        {
            let mut y: usize = 0;
            while y < self.size_y
                invariant
                    x < self.size_x,
                    y <= self.size_y,
                    forall|at: (usize, usize)|
                        (at.0 < x && at.1 < self.size_y) || (at.0 == x && at.1 < y)
                            ==> #[trigger] self@.dom().contains(at),
                decreases self.size_y - y,
            {
                let at = (x, y);
                if areas_get(&self.areas, at).is_none() {
                    assert(self.contains(at) && !self@.dom().contains(at));
                    return false;
                }
                y += 1;
            }
            x += 1;
        }
        assert forall|at: (usize, usize)| #[trigger] self@.dom().contains(at) implies self.contains(
            at,
        ) by {
            assert(coords@.contains(at));
            let j = choose|j: int| 0 <= j < coords@.len() && coords@[j] == at;
            assert(self.contains(coords@[j]));
        }
        true
    }

    /// The cell at a coordinate the world is known to have.
    pub(crate) fn cell(&self, at: (usize, usize)) -> (area: Area)
        requires
            self@.dom().contains(at),
        ensures
            area == self@[at],
    {
        match areas_get(&self.areas, at) {
            Some(area) => area,
            None => unreached(),
        }
    }

    /// Replaces a cell the world is known to have.
    pub(crate) fn put(&mut self, at: (usize, usize), area: Area)
        requires
            old(self)@.dom().contains(at),
        ensures
            final(self)@ == old(self)@.insert(at, area),
            old(self).same_shape(final(self)),
            old(self).wf() ==> final(self).wf(),
    {
        areas_insert(&mut self.areas, at, area);
        assert(self@.dom() =~= old(self)@.dom());
    }

    /// Every coordinate of the world, in the order the world walks them.
    pub fn coords(&self) -> (all: Vec<(usize, usize)>)
        ensures
            all@ == self.order(),
            all@.no_duplicates(),
            forall|at: (usize, usize)| all@.contains(at) <==> self@.dom().contains(at),
    {
        areas_keys(&self.areas)
    }

    /// The cells one step away from `at`, or `OutOfBounds` when `at` lies
    /// outside the world.
    pub fn neighbors(&self, at: (usize, usize)) -> (found: Result<Vec<(usize, usize)>, SimError>)
        ensures
            match found {
                Ok(near) => self.contains(at) && near@ == neighbors_of(self.size_x, self.size_y, at),
                Err(e) => e == SimError::OutOfBounds && !self.contains(at),
            },
    {
        if at.0 < self.size_x && at.1 < self.size_y {
            Ok(neighbors(self.size_x, self.size_y, at))
        } else {
            Err(SimError::OutOfBounds)
        }
    }
}

} // verus!
