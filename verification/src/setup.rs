//! Building a world and its first population.

use crate::area::Area;
use crate::behavior::{running, settled};
use crate::consistency::{
    area_claimed, creature_placed, lemma_consistent_iff_settled, reserved_cells,
};
use crate::creature::Creature;
use crate::error::SimError;
use crate::grid::{grid_order, lemma_grid_order_place};
use crate::population::Population;
use crate::random::shuffle;
use crate::seqs::{lemma_push_fresh, lemma_same_members};
use crate::store::{areas_insert, marked_handles};
use crate::world::World;
use rand::rngs::StdRng;
use vstd::prelude::*;

verus! {

/// The handles `0, 1, .., n - 1` in that order.
pub open spec fn first_handles(n: nat) -> Seq<usize> {
    Seq::new(n, |i: int| i as usize)
}

/// A world and a population that nothing has been put into yet.
pub open spec fn blank(world: World, population: Population) -> bool {
    &&& world@.dom().is_empty()
    &&& world.order().len() == 0
    &&& population@.dom().is_empty()
    &&& population.order().len() == 0
    &&& population.free_keys@.len() == 0
}

/// What `fill_world_population` leaves behind: a settled world of the given
/// extent that walks its cells column by column, whose creatures have the
/// handles `0 .. pop_size`, each newly made and standing on a cell of its
/// own, all other cells being newly made too.
pub open spec fn populated(
    world: World,
    population: Population,
    world_size: (usize, usize),
    pop_size: usize,
) -> bool {
    &&& settled(world, population)
    &&& world.size_x == world_size.0
    &&& world.size_y == world_size.1
    &&& world.order() == grid_order(world_size.0, world_size.1)
    &&& population.order() == first_handles(pop_size as nat)
    &&& population.free_keys@.len() == 0
    &&& forall|k: usize| #[trigger]
        population@.dom().contains(k) ==> population@[k] == (Creature {
            key_area: population@[k].key_area,
            to_remove: false,
            param: 0,
        })
    &&& forall|at: (usize, usize)| #[trigger] world@.dom().contains(at) ==> world@[at].param == 0
}

/// Lays out `world_size.0` by `world_size.1` empty cells, column by column,
/// then puts `pop_size` creatures on cells picked at random.
pub fn fill_world_population(
    world: &mut World,
    population: &mut Population,
    world_size: (usize, usize),
    pop_size: usize,
    rng: &mut StdRng,
)
    requires
        blank(*old(world), *old(population)),
        world_size.0 * world_size.1 <= usize::MAX,
        pop_size <= world_size.0 * world_size.1,
    ensures
        populated(*final(world), *final(population), world_size, pop_size),
{
    let width = world_size.0;
    let height = world_size.1;
    world.size_x = width;
    world.size_y = height;
    let mut x: usize = 0;
    assert(0 * height == 0) by (nonlinear_arith);
    while x < width
        invariant
            x <= width,
            width * height <= usize::MAX,
            world.size_x == width,
            world.size_y == height,
            *population == *old(population),
            world.order().len() == x * height,
            forall|i: int|
                0 <= i < world.order().len() ==> world.order()[i] == #[trigger] grid_order(
                    width,
                    height,
                )[i],
            world.order().no_duplicates(),
            forall|at: (usize, usize)| world.order().contains(at) <==> world@.dom().contains(at),
            forall|at: (usize, usize)| #[trigger]
                world@.dom().contains(at) <==> at.0 < x && at.1 < height,
            forall|at: (usize, usize)| #[trigger]
                world@.dom().contains(at) ==> world@[at] == (Area {
                    key_creature: None,
                    vacant: true,
                    param: 0,
                }),
        decreases width - x,
    {
        let mut y: usize = 0;
        while y < height
            invariant
                x < width,
                y <= height,
                width * height <= usize::MAX,
                world.size_x == width,
                world.size_y == height,
                *population == *old(population),
                world.order().len() == x * height + y,
                forall|i: int|
                    0 <= i < world.order().len() ==> world.order()[i] == #[trigger] grid_order(
                        width,
                        height,
                    )[i],
                world.order().no_duplicates(),
                forall|at: (usize, usize)|
                    world.order().contains(at) <==> world@.dom().contains(at),
                forall|at: (usize, usize)| #[trigger]
                    world@.dom().contains(at) <==> (at.0 < x && at.1 < height) || (at.0 == x
                        && at.1 < y),
                forall|at: (usize, usize)| #[trigger]
                    world@.dom().contains(at) ==> world@[at] == (Area {
                        key_creature: None,
                        vacant: true,
                        param: 0,
                    }),
            decreases height - y,
        {
            let ghost cells = world@;
            let ghost walked = world.order();
            areas_insert(&mut world.areas, (x, y), Area::new());
            proof {
                lemma_grid_order_place(width, height, (x, y));
                lemma_push_fresh(walked, cells.dom(), (x, y));
            }
            y += 1;
        }
        assert((x + 1) * height == x * height + height) by (nonlinear_arith);
        x += 1;
    }
    proof {
        assert(world.order() =~= grid_order(width, height));
        assert(marked_handles(population@) =~= Set::empty());
        assert(reserved_cells(world@) =~= Set::empty());
        lemma_consistent_iff_settled(world@, population@);
    }
    let mut keys = world.coords();
    let ghost walked = keys@;
    shuffle(&mut keys, rng);
    proof {
        lemma_same_members(walked, keys@);
        assert forall|j: int| 0 <= j < keys@.len() implies world@.dom().contains(
            #[trigger] keys@[j],
        ) && world@[keys@[j]].vacant by {
            assert(keys@.contains(keys@[j]));
        }
    }
    let ghost laid = *world;
    place_population(world, population, &keys, pop_size);
    proof {
        assert(laid.same_ground(world));
        assert forall|k: usize| #[trigger] population@.dom().contains(k) implies population@[k] == (
        Creature { key_area: population@[k].key_area, to_remove: false, param: 0 }) by {
            assert(population.order().contains(k));
            let j = choose|j: int| 0 <= j < population.order().len() && population.order()[j] == k;
            assert(first_handles(pop_size as nat)[j] == j as usize);
            assert(population@[j as usize].key_area == keys@[j]);
        }
        assert forall|at: (usize, usize)| #[trigger] world@.dom().contains(at) implies world@[at].param
            == 0 by {
            assert(laid@.dom().contains(at));
        }
    }
}

/// Puts `pop_size` creatures on the first `pop_size` cells of `keys`: the
/// creature with handle `i` on `keys[i]`.
pub fn place_population(
    world: &mut World,
    population: &mut Population,
    keys: &Vec<(usize, usize)>,
    pop_size: usize,
)
    requires
        settled(*old(world), *old(population)),
        old(population).order().len() == 0,
        old(population).free_keys@.len() == 0,
        keys@.no_duplicates(),
        pop_size <= keys@.len(),
        forall|i: int|
            0 <= i < keys@.len() ==> old(world)@.dom().contains(#[trigger] keys@[i])
                && old(world)@[keys@[i]].vacant,
    ensures
        settled(*final(world), *final(population)),
        old(world).same_ground(final(world)),
        final(population).order() == first_handles(pop_size as nat),
        final(population).free_keys@.len() == 0,
        forall|i: int|
            0 <= i < pop_size ==> final(population)@[i as usize] == (Creature {
                key_area: #[trigger] keys@[i],
                to_remove: false,
                param: 0,
            }),
        forall|i: int|
            0 <= i < pop_size ==> final(world)@[#[trigger] keys@[i]] == old(
                world,
            )@[keys@[i]].occupied_by(i as usize),
        forall|at: (usize, usize)| #[trigger]
            final(world)@.dom().contains(at) && !keys@.take(pop_size as int).contains(at)
                ==> final(world)@[at] == old(world)@[at],
{
    proof {
        lemma_consistent_iff_settled(world@, population@);
        assert(population.order() =~= first_handles(0));
    }
    let mut i: usize = 0;
    while i < pop_size
        invariant
            i <= pop_size <= keys@.len(),
            keys@.no_duplicates(),
            forall|j: int|
                0 <= j < keys@.len() ==> old(world)@.dom().contains(#[trigger] keys@[j])
                    && old(world)@[keys@[j]].vacant && old(world)@[keys@[j]].key_creature is None,
            running(*world, *population),
            marked_handles(population@).is_empty(),
            reserved_cells(world@).is_empty(),
            old(world).same_ground(world),
            population.order() == first_handles(i as nat),
            population.free_keys@.len() == 0,
            forall|j: int|
                0 <= j < i ==> population@[j as usize] == (Creature {
                    key_area: #[trigger] keys@[j],
                    to_remove: false,
                    param: 0,
                }),
            forall|j: int|
                0 <= j < i ==> world@[#[trigger] keys@[j]] == old(world)@[keys@[j]].occupied_by(
                    j as usize,
                ),
            forall|at: (usize, usize)| #[trigger]
                world@.dom().contains(at) && !keys@.take(i as int).contains(at) ==> world@[at]
                    == old(world)@[at],
        decreases pop_size - i,
    {
        let at = keys[i];
        let ghost cells = world@;
        let ghost crowd = population@;
        proof {
            assert(!keys@.take(i as int).contains(at)) by {
                if keys@.take(i as int).contains(at) {
                    let j = choose|j: int| 0 <= j < i && keys@.take(i as int)[j] == at;
                    assert(keys@[j] == keys@[i as int]);
                }
            }
            assert(cells.dom().contains(keys@[i as int]));
            assert(cells[at] == old(world)@[at]);
        }
        let handle = population.adopt(Creature::new(at));
        let area = world.cell(at);
        world.put(at, Area { key_creature: Some(handle), vacant: false, param: area.param });
        proof {
            let a1 = world@;
            let c1 = population@;
            assert(handle == i);
            assert forall|k: usize| #[trigger] c1.dom().contains(k) implies creature_placed(
                a1,
                c1,
                k,
            ) by {
                if k != handle {
                    assert(creature_placed(cells, crowd, k));
                }
            }
            assert forall|cell: (usize, usize)| #[trigger] a1.dom().contains(cell) implies area_claimed(
                a1,
                c1,
                cell,
            ) by {
                assert(area_claimed(cells, crowd, cell));
            }
            assert(marked_handles(c1) =~= Set::empty()) by {
                assert forall|k: usize| !marked_handles(c1).contains(k) by {
                    if k != handle {
                        assert(!marked_handles(crowd).contains(k));
                    }
                }
            }
            assert(reserved_cells(a1) =~= Set::empty()) by {
                assert forall|cell: (usize, usize)| !reserved_cells(a1).contains(cell) by {
                    assert(!reserved_cells(cells).contains(cell));
                }
            }
            assert(population.order() =~= first_handles((i + 1) as nat));
            assert forall|j: int| 0 <= j < i + 1 implies c1[j as usize] == (Creature {
                key_area: #[trigger] keys@[j],
                to_remove: false,
                param: 0,
            }) && a1[keys@[j]] == old(world)@[keys@[j]].occupied_by(j as usize) by {
                if j < i {
                    assert(crowd.dom().contains(j as usize)) by {
                        assert(first_handles(i as nat)[j] == j as usize);
                        assert(population.order()[j] == j as usize);
                        assert(first_handles(i as nat).contains(j as usize));
                    }
                    assert(keys@[j] != keys@[i as int]);
                }
            }
            assert forall|cell: (usize, usize)| #[trigger]
                a1.dom().contains(cell) && !keys@.take(i + 1).contains(cell) implies a1[cell]
                == old(world)@[cell] by {
                assert(keys@.take(i + 1)[i as int] == at);
                if keys@.take(i as int).contains(cell) {
                    let j = choose|j: int| 0 <= j < i && keys@.take(i as int)[j] == cell;
                    assert(keys@.take(i + 1)[j] == cell);
                }
            }
        }
        i += 1;
    }
    proof {
        lemma_consistent_iff_settled(world@, population@);
    }
}

/// Builds a world of `width` by `height` cells with `initial_population`
/// creatures on cells picked at random, or reports
/// `PopulationExceedsCapacity` when there are fewer cells than creatures.
pub fn build(width: usize, height: usize, initial_population: usize, rng: &mut StdRng) -> (built:
    Result<(World, Population), SimError>)
    requires
        width * height <= usize::MAX,
    ensures
        match built {
            Ok((world, population)) => {
                &&& initial_population <= width * height
                &&& populated(world, population, (width, height), initial_population)
            },
            Err(e) => e == SimError::PopulationExceedsCapacity && initial_population > width
                * height,
        },
{
    if initial_population > width * height {
        return Err(SimError::PopulationExceedsCapacity);
    }
    let mut world = World::empty();
    let mut population = Population::empty();
    fill_world_population(&mut world, &mut population, (width, height), initial_population, rng);
    Ok((world, population))
}

} // verus!
