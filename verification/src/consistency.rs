//! The rule that ties the world to the population, and `validate`, which
//! tells whether it holds.
//!
//! Between ticks every creature stands on a cell that names it, every cell
//! that names a creature is the one that creature stands on, and a cell is
//! vacant exactly when it names nobody. While a tick runs the rule is
//! relaxed: the dead are still listed but stand nowhere, and cells may be
//! held back for the newborn.

use crate::area::Area;
use crate::creature::Creature;
use crate::population::Population;
use crate::store::{areas_get, creatures_get, marked_handles};
use crate::world::World;
use vstd::prelude::*;
use vstd::set_lib::lemma_map_size;

verus! {

/// What `validate` found wrong, and where.
#[derive(Clone, Copy, Debug, PartialEq, Eq)]
pub enum ConsistencyViolation {
    /// The creature stands on a coordinate that has no cell.
    CreatureOffGrid { handle: usize },
    /// The cell the creature stands on names nobody.
    AreaNotOccupied { handle: usize },
    /// The cell the creature stands on names another creature.
    AreaOccupiedByOther { handle: usize },
    /// The creature has died but is still listed.
    MarkedForRemoval { handle: usize },
    /// The cell names a handle that no creature has.
    OccupantUnknown { at: (usize, usize) },
    /// The cell names a creature that stands somewhere else.
    OccupantElsewhere { at: (usize, usize) },
    /// The cell names a creature and yet is flagged vacant.
    OccupiedYetVacant { at: (usize, usize) },
    /// The cell names nobody and yet is not flagged vacant.
    EmptyYetTaken { at: (usize, usize) },
}

/// The first thing wrong with the creature under `handle`, if anything is.
pub open spec fn creature_fault(
    areas: Map<(usize, usize), Area>,
    creatures: Map<usize, Creature>,
    handle: usize,
) -> Option<ConsistencyViolation> {
    let creature = creatures[handle];
    if !areas.dom().contains(creature.key_area) {
        Some(ConsistencyViolation::CreatureOffGrid { handle })
    } else if areas[creature.key_area].key_creature is None {
        Some(ConsistencyViolation::AreaNotOccupied { handle })
    } else if areas[creature.key_area].key_creature != Some(handle) {
        Some(ConsistencyViolation::AreaOccupiedByOther { handle })
    } else if creature.to_remove {
        Some(ConsistencyViolation::MarkedForRemoval { handle })
    } else {
        None
    }
}

/// The first thing wrong with the cell at `at`, if anything is.
pub open spec fn area_fault(
    areas: Map<(usize, usize), Area>,
    creatures: Map<usize, Creature>,
    at: (usize, usize),
) -> Option<ConsistencyViolation> {
    match areas[at].key_creature {
        Some(handle) => {
            if !creatures.dom().contains(handle) {
                Some(ConsistencyViolation::OccupantUnknown { at })
            } else if creatures[handle].key_area != at {
                Some(ConsistencyViolation::OccupantElsewhere { at })
            } else if areas[at].vacant {
                Some(ConsistencyViolation::OccupiedYetVacant { at })
            } else {
                None
            }
        },
        None => {
            if !areas[at].vacant {
                Some(ConsistencyViolation::EmptyYetTaken { at })
            } else {
                None
            }
        },
    }
}

/// The fault of the first faulty creature among `order[from..]`.
pub open spec fn first_creature_fault(
    areas: Map<(usize, usize), Area>,
    creatures: Map<usize, Creature>,
    order: Seq<usize>,
    from: int,
) -> Option<ConsistencyViolation>
    decreases order.len() - from,
{
    if from < 0 || from >= order.len() {
        None
    } else if creature_fault(areas, creatures, order[from]) is Some {
        creature_fault(areas, creatures, order[from])
    } else {
        first_creature_fault(areas, creatures, order, from + 1)
    }
}

/// The fault of the first faulty cell among `order[from..]`.
pub open spec fn first_area_fault(
    areas: Map<(usize, usize), Area>,
    creatures: Map<usize, Creature>,
    order: Seq<(usize, usize)>,
    from: int,
) -> Option<ConsistencyViolation>
    decreases order.len() - from,
{
    if from < 0 || from >= order.len() {
        None
    } else if area_fault(areas, creatures, order[from]) is Some {
        area_fault(areas, creatures, order[from])
    } else {
        first_area_fault(areas, creatures, order, from + 1)
    }
}

/// What `validate` answers: the fault of the first faulty creature in the
/// population's order; failing that, of the first faulty cell in the world's
/// order; failing that, success.
pub open spec fn verdict(world: World, population: Population) -> Result<
    (),
    ConsistencyViolation,
> {
    match first_creature_fault(world@, population@, population.order(), 0) {
        Some(fault) => Err(fault),
        None => match first_area_fault(world@, population@, world.order(), 0) {
            Some(fault) => Err(fault),
            None => Ok(()),
        },
    }
}

/// The rule between ticks: no creature and no cell is at fault.
pub open spec fn consistent(
    areas: Map<(usize, usize), Area>,
    creatures: Map<usize, Creature>,
) -> bool {
    &&& forall|k: usize| #[trigger]
        creatures.dom().contains(k) ==> creature_fault(areas, creatures, k) is None
    &&& forall|at: (usize, usize)| #[trigger]
        areas.dom().contains(at) ==> area_fault(areas, creatures, at) is None
}

/// A living creature stands on a cell that names it.
pub open spec fn creature_placed(
    areas: Map<(usize, usize), Area>,
    creatures: Map<usize, Creature>,
    handle: usize,
) -> bool {
    let creature = creatures[handle];
    creature.to_remove || (areas.dom().contains(creature.key_area)
        && areas[creature.key_area].key_creature == Some(handle))
}

/// A cell that names a creature names a living one that stands on it, and is
/// not vacant.
pub open spec fn area_claimed(
    areas: Map<(usize, usize), Area>,
    creatures: Map<usize, Creature>,
    at: (usize, usize),
) -> bool {
    match areas[at].key_creature {
        Some(handle) => {
            &&& creatures.dom().contains(handle)
            &&& creatures[handle].key_area == at
            &&& !creatures[handle].to_remove
            &&& !areas[at].vacant
        },
        None => true,
    }
}

/// The rule while a tick runs.
pub open spec fn coherent(
    areas: Map<(usize, usize), Area>,
    creatures: Map<usize, Creature>,
) -> bool {
    &&& forall|k: usize| #[trigger]
        creatures.dom().contains(k) ==> creature_placed(areas, creatures, k)
    &&& forall|at: (usize, usize)| #[trigger]
        areas.dom().contains(at) ==> area_claimed(areas, creatures, at)
}

/// The coordinates of the cells held back for a newborn.
pub open spec fn reserved_cells(areas: Map<(usize, usize), Area>) -> Set<(usize, usize)> {
    Set::new(
        |at: (usize, usize)|
            areas.dom().contains(at) && areas[at].key_creature is None && !areas[at].vacant,
    )
}

/// The coordinates of the cells that name a creature.
pub open spec fn occupied_cells(areas: Map<(usize, usize), Area>) -> Set<(usize, usize)> {
    Set::new(|at: (usize, usize)| areas.dom().contains(at) && areas[at].key_creature is Some)
}

/// The rule between ticks is the rule while a tick runs, with nobody dead
/// and nothing held back.
pub proof fn lemma_consistent_iff_settled(
    areas: Map<(usize, usize), Area>,
    creatures: Map<usize, Creature>,
)
    ensures
        consistent(areas, creatures) <==> coherent(areas, creatures) && marked_handles(
            creatures,
        ).is_empty() && reserved_cells(areas).is_empty(),
{
    if coherent(areas, creatures) && marked_handles(creatures).is_empty() && reserved_cells(
        areas,
    ).is_empty() {
        assert forall|k: usize| #[trigger] creatures.dom().contains(k) implies creature_fault(
            areas,
            creatures,
            k,
        ) is None by {
            assert(creature_placed(areas, creatures, k));
            assert(!marked_handles(creatures).contains(k));
        }
        assert forall|at: (usize, usize)| #[trigger] areas.dom().contains(at) implies area_fault(
            areas,
            creatures,
            at,
        ) is None by {
            assert(area_claimed(areas, creatures, at));
            assert(!reserved_cells(areas).contains(at));
        }
    }
}

/// Under the rule no two creatures stand on the same cell.
pub proof fn lemma_no_double_occupancy(
    areas: Map<(usize, usize), Area>,
    creatures: Map<usize, Creature>,
    a: usize,
    b: usize,
)
    requires
        consistent(areas, creatures),
        creatures.dom().contains(a),
        creatures.dom().contains(b),
        a != b,
    ensures
        creatures[a].key_area != creatures[b].key_area,
{
}

/// Under the rule the population and the payloads of the cells leave no
/// choice about the world: two worlds over the same cells, with the same
/// payloads, that both fit the population are the same.
pub proof fn lemma_world_follows_population(
    areas: Map<(usize, usize), Area>,
    other: Map<(usize, usize), Area>,
    creatures: Map<usize, Creature>,
)
    requires
        consistent(areas, creatures),
        consistent(other, creatures),
        other.dom() == areas.dom(),
        forall|at: (usize, usize)| #[trigger]
            areas.dom().contains(at) ==> other[at].param == areas[at].param,
    ensures
        other == areas,
{
}

/// Under the rule there are as many creatures as cells that name one.
pub proof fn lemma_population_fills_occupied_cells(
    areas: Map<(usize, usize), Area>,
    creatures: Map<usize, Creature>,
)
    requires
        consistent(areas, creatures),
        creatures.dom().finite(),
    ensures
        occupied_cells(areas).finite(),
        occupied_cells(areas).len() == creatures.dom().len(),
{
    let stands_on = |k: usize| creatures[k].key_area;
    assert(creatures.dom().map(stands_on) =~= occupied_cells(areas));
    lemma_map_size(creatures.dom(), occupied_cells(areas), stands_on);
}

/// Where the world and the population walk what they hold, `validate`
/// succeeds exactly when the rule between ticks holds.
pub proof fn lemma_verdict_meaning(world: World, population: Population)
    requires
        forall|k: usize| population.order().contains(k) <==> population@.dom().contains(k),
        forall|at: (usize, usize)| world.order().contains(at) <==> world@.dom().contains(at),
    ensures
        verdict(world, population) is Ok <==> consistent(world@, population@),
{
    let areas = world@;
    let creatures = population@;
    lemma_first_creature_fault(areas, creatures, population.order(), 0);
    lemma_first_area_fault(areas, creatures, world.order(), 0);
    if verdict(world, population) is Ok {
        assert forall|k: usize| #[trigger] creatures.dom().contains(k) implies creature_fault(
            areas,
            creatures,
            k,
        ) is None by {
            assert(population.order().contains(k));
        }
        assert forall|at: (usize, usize)| #[trigger] areas.dom().contains(at) implies area_fault(
            areas,
            creatures,
            at,
        ) is None by {
            assert(world.order().contains(at));
        }
    }
    if consistent(areas, creatures) {
        assert forall|i: int| 0 <= i < population.order().len() implies creature_fault(
            areas,
            creatures,
            #[trigger] population.order()[i],
        ) is None by {
            assert(population.order().contains(population.order()[i]));
        }
        assert forall|i: int| 0 <= i < world.order().len() implies area_fault(
            areas,
            creatures,
            #[trigger] world.order()[i],
        ) is None by {
            assert(world.order().contains(world.order()[i]));
        }
    }
}

/// `first_creature_fault` finds nothing exactly when nothing is there.
proof fn lemma_first_creature_fault(
    areas: Map<(usize, usize), Area>,
    creatures: Map<usize, Creature>,
    order: Seq<usize>,
    from: int,
)
    requires
        0 <= from <= order.len(),
    ensures
        first_creature_fault(areas, creatures, order, from) is None <==> forall|i: int|
            from <= i < order.len() ==> creature_fault(areas, creatures, #[trigger] order[i])
                is None,
    decreases order.len() - from,
{
    if from < order.len() {
        lemma_first_creature_fault(areas, creatures, order, from + 1);
    }
}

/// `first_area_fault` finds nothing exactly when nothing is there.
proof fn lemma_first_area_fault(
    areas: Map<(usize, usize), Area>,
    creatures: Map<usize, Creature>,
    order: Seq<(usize, usize)>,
    from: int,
)
    requires
        0 <= from <= order.len(),
    ensures
        first_area_fault(areas, creatures, order, from) is None <==> forall|i: int|
            from <= i < order.len() ==> area_fault(areas, creatures, #[trigger] order[i]) is None,
    decreases order.len() - from,
{
    if from < order.len() {
        lemma_first_area_fault(areas, creatures, order, from + 1);
    }
}

/// Holds one creature against the world.
fn find_creature_fault(world: &World, population: &Population, handle: usize) -> (fault: Option<
    ConsistencyViolation,
>)
    requires
        population@.dom().contains(handle),
    ensures
        fault == creature_fault(world@, population@, handle),
{
    let creature = population.record(handle);
    match areas_get(&world.areas, creature.key_area) {
        None => Some(ConsistencyViolation::CreatureOffGrid { handle }),
        Some(area) => match area.key_creature {
            None => Some(ConsistencyViolation::AreaNotOccupied { handle }),
            Some(occupant) => {
                if occupant != handle {
                    Some(ConsistencyViolation::AreaOccupiedByOther { handle })
                } else if creature.to_remove {
                    Some(ConsistencyViolation::MarkedForRemoval { handle })
                } else {
                    None
                }
            },
        },
    }
}

/// Holds one cell against the population.
fn find_area_fault(world: &World, population: &Population, at: (usize, usize)) -> (fault: Option<
    ConsistencyViolation,
>)
    requires
        world@.dom().contains(at),
    ensures
        fault == area_fault(world@, population@, at),
{
    let area = world.cell(at);
    match area.key_creature {
        Some(handle) => match creatures_get(&population.creatures, handle) {
            None => Some(ConsistencyViolation::OccupantUnknown { at }),
            Some(creature) => {
                if creature.key_area.0 != at.0 || creature.key_area.1 != at.1 {
                    Some(ConsistencyViolation::OccupantElsewhere { at })
                } else if area.vacant {
                    Some(ConsistencyViolation::OccupiedYetVacant { at })
                } else {
                    None
                }
            },
        },
        None => {
            if !area.vacant {
                Some(ConsistencyViolation::EmptyYetTaken { at })
            } else {
                None
            }
        },
    }
}

/// Tells whether the rule between ticks holds. Walks the creatures, then
/// the cells, and stops at the first fault.
pub fn validate(world: &World, population: &Population) -> (outcome: Result<
    (),
    ConsistencyViolation,
>)
    ensures
        outcome == verdict(*world, *population),
        outcome is Ok <==> consistent(world@, population@),
{
    let handles = population.handles();
    let coords = world.coords();
    let mut i: usize = 0;
    while i < handles.len()
        invariant
            i <= handles.len(),
            handles@ == population.order(),
            coords@ == world.order(),
            forall|k: usize| handles@.contains(k) <==> population@.dom().contains(k),
            forall|at: (usize, usize)| coords@.contains(at) <==> world@.dom().contains(at),
            first_creature_fault(world@, population@, handles@, 0) == first_creature_fault(
                world@,
                population@,
                handles@,
                i as int,
            ),
        decreases handles.len() - i,
    {
        let handle = handles[i];
        assert(handles@.contains(handle));
        match find_creature_fault(world, population, handle) {
            Some(fault) => {
                return Err(fault);
            },
            None => {},
        }
        i += 1;
    }
    let mut j: usize = 0;
    while j < coords.len()
        invariant
            j <= coords.len(),
            coords@ == world.order(),
            handles@ == population.order(),
            forall|k: usize| handles@.contains(k) <==> population@.dom().contains(k),
            forall|at: (usize, usize)| coords@.contains(at) <==> world@.dom().contains(at),
            first_creature_fault(world@, population@, handles@, 0) is None,
            first_area_fault(world@, population@, coords@, 0) == first_area_fault(
                world@,
                population@,
                coords@,
                j as int,
            ),
        decreases coords.len() - j,
    {
        let at = coords[j];
        assert(coords@.contains(at));
        match find_area_fault(world, population, at) {
            Some(fault) => {
                return Err(fault);
            },
            None => {},
        }
        j += 1;
    }
    proof {
        lemma_verdict_meaning(*world, *population);
    }
    Ok(())
}

} // verus!
