//! What one creature does in one tick: it may die, then it may move, then it
//! may reserve a neighbouring cell for a newborn.
//!
//! Each stage comes in two layers. The inner one takes the random outcome as
//! an argument and says exactly what then happens. The outer one draws the
//! outcome and says what holds whichever way the draw went.

use crate::area::Area;
use crate::consistency::{coherent, consistent, creature_placed, reserved_cells};
use crate::creature::Creature;
use crate::grid::{
    adjacent, in_bounds, lemma_neighbors_are_adjacent_cells, move_options, neighbors,
    neighbors_of, one_step,
};
use crate::population::Population;
use crate::random::{chance, shuffle};
use crate::seqs::{lemma_filter_members, lemma_same_members};
use crate::world::World;
use rand::rngs::StdRng;
use vstd::prelude::*;

verus! {

/// The chances, in hundredths, that steer a tick.
#[derive(Clone, Copy, Debug, PartialEq, Eq, Structural)]
pub struct Rules {
    /// Chance that a creature dies in a tick.
    pub removal_percent: u32,
    /// Chance that a creature able to breed reserves a given vacant
    /// neighbouring cell.
    pub spawn_percent: u32,
}

impl Rules {
    /// Chances are at most one hundred hundredths.
    pub open spec fn wf(&self) -> bool {
        self.removal_percent <= 100 && self.spawn_percent <= 100
    }
}

impl Default for Rules {
    /// One creature in ten dies, one chance in ten to breed.
    fn default() -> (rules: Rules)
        ensures
            rules == (Rules { removal_percent: 10, spawn_percent: 10 }),
    {
        Rules { removal_percent: 10, spawn_percent: 10 }
    }
}

/// What a creature did in its turn.
#[derive(Clone, Copy, Debug, PartialEq, Eq)]
pub struct Turn {
    /// The creature died.
    pub removed: bool,
    /// The creature stepped to another cell.
    pub moved: bool,
    /// The cell the creature reserved for a newborn.
    pub spawn: Option<(usize, usize)>,
}

/// The world and the population fit together as they must while a tick runs.
pub open spec fn running(world: World, population: Population) -> bool {
    &&& world.wf()
    &&& population.wf()
    &&& coherent(world@, population@)
}

/// The world and the population fit together as they must between ticks.
pub open spec fn settled(world: World, population: Population) -> bool {
    &&& world.wf()
    &&& population.wf()
    &&& consistent(world@, population@)
}

/// A settled state is a running state with nobody dead and nothing reserved.
pub proof fn lemma_settled_is_running(world: World, population: Population)
    requires
        settled(world, population),
    ensures
        running(world, population),
{
}

/// How a creature's record may differ after its turn: it is at most one step
/// away, it does not come back from the dead, and its payload is untouched.
pub open spec fn turn_of(before: Creature, after: Creature) -> bool {
    &&& after.param == before.param
    &&& one_step(before.key_area, after.key_area)
    &&& before.to_remove ==> after == before
    &&& after.to_remove ==> after.key_area == before.key_area
}

/// The creature as it is once it has died.
pub open spec fn dead(creature: Creature) -> Creature {
    Creature { key_area: creature.key_area, to_remove: true, param: creature.param }
}

/// The creature as it is once it stands on `at`.
pub open spec fn moved_to(creature: Creature, at: (usize, usize)) -> Creature {
    Creature { key_area: at, to_remove: creature.to_remove, param: creature.param }
}

/// Carries out the removal stage for a draw that came out as `hit`: a living
/// creature that is hit is marked dead and its cell is vacated at once;
/// otherwise nothing changes.
pub fn apply_removal(
    world: &mut World,
    population: &mut Population,
    handle: usize,
    hit: bool,
) -> (removed: bool)
    requires
        running(*old(world), *old(population)),
        old(population)@.dom().contains(handle),
    ensures
        removed == (hit && !old(population)@[handle].to_remove),
        removed ==> final(population)@ == old(population)@.insert(
            handle,
            dead(old(population)@[handle]),
        ),
        removed ==> final(world)@ == old(world)@.insert(
            old(population)@[handle].key_area,
            old(world)@[old(population)@[handle].key_area].vacated(),
        ),
        !removed ==> *final(world) == *old(world) && *final(population) == *old(population),
        running(*final(world), *final(population)),
        old(world).same_ground(final(world)),
        final(population).order() == old(population).order(),
        final(population).free_keys == old(population).free_keys,
        reserved_cells(final(world)@) == reserved_cells(old(world)@),
{
    if !hit {
        return false;
    }
    let creature = population.record(handle);
    if creature.to_remove {
        return false;
    }
    let here = creature.key_area;
    population.update(
        handle,
        Creature { key_area: creature.key_area, to_remove: true, param: creature.param },
    );
    let area = world.cell(here);
    world.put(here, Area { key_creature: None, vacant: true, param: area.param });
    true
}

/// The removal stage: with the chance the rules give, the creature dies.
pub fn remove_creature(
    world: &mut World,
    population: &mut Population,
    handle: usize,
    rules: &Rules,
    rng: &mut StdRng,
) -> (removed: bool)
    requires
        running(*old(world), *old(population)),
        old(population)@.dom().contains(handle),
        rules.wf(),
    ensures
        removed ==> !old(population)@[handle].to_remove && rules.removal_percent > 0,
        !old(population)@[handle].to_remove && rules.removal_percent == 100 ==> removed,
        removed ==> final(population)@ == old(population)@.insert(
            handle,
            dead(old(population)@[handle]),
        ),
        removed ==> final(world)@ == old(world)@.insert(
            old(population)@[handle].key_area,
            old(world)@[old(population)@[handle].key_area].vacated(),
        ),
        !removed ==> *final(world) == *old(world) && *final(population) == *old(population),
        running(*final(world), *final(population)),
        old(world).same_ground(final(world)),
        final(population).order() == old(population).order(),
        final(population).free_keys == old(population).free_keys,
        reserved_cells(final(world)@) == reserved_cells(old(world)@),
{
    let hit = chance(rng, rules.removal_percent, 100);
    apply_removal(world, population, handle, hit)
}

/// Where a creature standing on `here` ends up when it tries `options` one
/// after the other from `options[from]` on, passing over `here` itself: on
/// the first vacant cell among them, or nowhere new when none is vacant.
pub open spec fn move_target(
    areas: Map<(usize, usize), Area>,
    options: Seq<(usize, usize)>,
    here: (usize, usize),
    from: int,
) -> Option<(usize, usize)>
    decreases options.len() - from,
{
    if from < 0 || from >= options.len() {
        None
    } else if options[from] != here && areas[options[from]].vacant {
        Some(options[from])
    } else {
        move_target(areas, options, here, from + 1)
    }
}

/// A move target is one of the options, is vacant and is not where the
/// creature already stands; and there is one unless every option is the
/// creature's own cell or not vacant.
pub proof fn lemma_move_target(
    areas: Map<(usize, usize), Area>,
    options: Seq<(usize, usize)>,
    here: (usize, usize),
    from: int,
)
    requires
        0 <= from,
    ensures
        match move_target(areas, options, here, from) {
            Some(to) => options.contains(to) && areas[to].vacant && to != here,
            None => forall|i: int|
                from <= i < options.len() ==> (#[trigger] options[i]) == here
                    || !areas[options[i]].vacant,
        },
    decreases options.len() - from,
{
    if from < options.len() {
        if options[from] == here || !areas[options[from]].vacant {
            lemma_move_target(areas, options, here, from + 1);
        }
    }
}

/// Whether one of `cells` is vacant.
pub open spec fn vacant_among(
    areas: Map<(usize, usize), Area>,
    cells: Seq<(usize, usize)>,
) -> bool {
    exists|i: int| 0 <= i < cells.len() && (#[trigger] areas[cells[i]]).vacant
}

/// Carries out the movement stage for candidates that came out of the
/// shuffle as `options`: a living creature takes the cell `move_target`
/// names, leaving its own vacant; a dead one, or one without a target, stays.
pub fn apply_move(
    world: &mut World,
    population: &mut Population,
    handle: usize,
    options: &Vec<(usize, usize)>,
) -> (moved: bool)
    requires
        running(*old(world), *old(population)),
        old(population)@.dom().contains(handle),
        forall|i: int| 0 <= i < options@.len() ==> old(world)@.dom().contains(#[trigger] options@[i]),
    ensures
        match planned_move(old(world)@, old(population)@[handle], options@) {
            Some(to) => {
                &&& moved
                &&& final(population)@ == old(population)@.insert(
                    handle,
                    moved_to(old(population)@[handle], to),
                )
                &&& final(world)@ == old(world)@.insert(
                    to,
                    old(world)@[to].occupied_by(handle),
                ).insert(
                    old(population)@[handle].key_area,
                    old(world)@[old(population)@[handle].key_area].vacated(),
                )
            },
            None => !moved && *final(world) == *old(world) && *final(population) == *old(population),
        },
        running(*final(world), *final(population)),
        old(world).same_ground(final(world)),
        final(population).order() == old(population).order(),
        final(population).free_keys == old(population).free_keys,
        reserved_cells(final(world)@) == reserved_cells(old(world)@),
{
    let creature = population.record(handle);
    if creature.to_remove {
        return false;
    }
    let here = creature.key_area;
    let mut i: usize = 0;
    while i < options.len()
        invariant
            i <= options.len(),
            *world == *old(world),
            *population == *old(population),
            running(*world, *population),
            population@.dom().contains(handle),
            creature == population@[handle],
            !creature.to_remove,
            here == creature.key_area,
            forall|i: int| 0 <= i < options@.len() ==> world@.dom().contains(#[trigger] options@[i]),
            move_target(world@, options@, here, 0) == move_target(world@, options@, here, i as int),
        decreases options.len() - i,
    {
        let to = options[i];
        let target = world.cell(to);
        if (to.0 != here.0 || to.1 != here.1) && target.vacant {
            world.put(to, Area { key_creature: Some(handle), vacant: false, param: target.param });
            population.update(
                handle,
                Creature { key_area: to, to_remove: creature.to_remove, param: creature.param },
            );
            let origin = world.cell(here);
            world.put(here, Area { key_creature: None, vacant: true, param: origin.param });
            return true;
        }
        i += 1;
    }
    false
}

/// The cell a creature moves to when it tries `options` in turn, if any.
pub open spec fn planned_move(
    areas: Map<(usize, usize), Area>,
    creature: Creature,
    options: Seq<(usize, usize)>,
) -> Option<(usize, usize)> {
    if creature.to_remove {
        None
    } else {
        move_target(areas, options, creature.key_area, 0)
    }
}

/// The movement stage: the creature goes through its own cell and its
/// neighbours in a random order, passes over its own, and takes the first
/// that is vacant. So it moves exactly when it is alive and has a vacant
/// neighbour; the draw only decides which one it takes.
pub fn move_creature(
    world: &mut World,
    population: &mut Population,
    handle: usize,
    rng: &mut StdRng,
) -> (moved: bool)
    requires
        running(*old(world), *old(population)),
        old(population)@.dom().contains(handle),
    ensures
        running(*final(world), *final(population)),
        old(world).same_ground(final(world)),
        final(population).order() == old(population).order(),
        final(population).free_keys == old(population).free_keys,
        reserved_cells(final(world)@) == reserved_cells(old(world)@),
        final(population)@ == old(population)@.insert(handle, final(population)@[handle]),
        turn_of(old(population)@[handle], final(population)@[handle]),
        final(population)@[handle].to_remove == old(population)@[handle].to_remove,
        moved == (!old(population)@[handle].to_remove && vacant_among(
            old(world)@,
            neighbors_of(old(world).size_x, old(world).size_y, old(population)@[handle].key_area),
        )),
        moved == (final(population)@[handle].key_area != old(population)@[handle].key_area),
        moved ==> old(world)@[final(population)@[handle].key_area].vacant,
        moved ==> final(world)@ == old(world)@.insert(
            final(population)@[handle].key_area,
            old(world)@[final(population)@[handle].key_area].occupied_by(handle),
        ).insert(
            old(population)@[handle].key_area,
            old(world)@[old(population)@[handle].key_area].vacated(),
        ),
        !moved ==> *final(world) == *old(world) && *final(population) == *old(population),
{
    let creature = population.record(handle);
    if creature.to_remove {
        return false;
    }
    let here = creature.key_area;
    let mut options = move_options(world.size_x, world.size_y, here);
    let ghost listed = options@;
    shuffle(&mut options, rng);
    proof {
        lemma_same_members(listed, options@);
        assert forall|i: int| 0 <= i < options@.len() implies world@.dom().contains(
            #[trigger] options@[i],
        ) by {
            assert(options@.contains(options@[i]));
            assert(listed.contains(options@[i]));
        }
        lemma_move_target(world@, options@, here, 0);
        assert(creature_placed(world@, population@, handle));
        lemma_neighbors_are_adjacent_cells(world.size_x, world.size_y, here);
        let near = neighbors_of(world.size_x, world.size_y, here);
        match move_target(world@, options@, here, 0) {
            Some(to) => {
                assert(listed.contains(to));
                let k = choose|k: int| 0 <= k < listed.len() && listed[k] == to;
                assert(near[k - 1] == to);
                assert(world@[near[k - 1]].vacant);
            },
            None => {
                assert forall|j: int| 0 <= j < near.len() implies !(#[trigger] world@[near[j]])
                    .vacant by {
                    assert(near.contains(near[j]));
                    assert(listed[j + 1] == near[j]);
                    assert(listed.contains(near[j]));
                    assert(options@.contains(near[j]));
                    let k = choose|k: int| 0 <= k < options@.len() && options@[k] == near[j];
                    assert(options@[k] != here);
                }
            },
        }
    }
    apply_move(world, population, handle, &options)
}

/// Whether one of the first `upto` cells of `cells` names a creature.
pub open spec fn occupied_before(
    areas: Map<(usize, usize), Area>,
    cells: Seq<(usize, usize)>,
    upto: int,
) -> bool {
    exists|i: int|
        0 <= i < upto && !(#[trigger] areas[cells[i]]).vacant && areas[cells[i]].key_creature
            is Some
}

/// The test "this cell is vacant".
pub open spec fn vacant_in(areas: Map<(usize, usize), Area>) -> spec_fn((usize, usize)) -> bool {
    |at: (usize, usize)| areas[at].vacant
}

/// The cells a creature may reserve for a newborn: none if it is dead or has
/// no neighbour that names a creature; else its vacant neighbours, in the
/// order the grid lists them.
pub open spec fn spawn_candidates_of(
    areas: Map<(usize, usize), Area>,
    width: usize,
    height: usize,
    creature: Creature,
) -> Seq<(usize, usize)> {
    let near = neighbors_of(width, height, creature.key_area);
    if !creature.to_remove && occupied_before(areas, near, near.len() as int) {
        near.filter(vacant_in(areas))
    } else {
        Seq::empty()
    }
}

/// A spawn candidate of a living creature is a vacant cell of the grid one
/// step away from it.
pub proof fn lemma_spawn_candidates(
    areas: Map<(usize, usize), Area>,
    width: usize,
    height: usize,
    creature: Creature,
)
    requires
        creature.to_remove || in_bounds(width, height, creature.key_area),
    ensures
        spawn_candidates_of(areas, width, height, creature).no_duplicates(),
        forall|at: (usize, usize)|
            spawn_candidates_of(areas, width, height, creature).contains(at) ==> {
                &&& !creature.to_remove
                &&& in_bounds(width, height, at)
                &&& adjacent(creature.key_area, at)
                &&& areas[at].vacant
            },
{
    let found = spawn_candidates_of(areas, width, height, creature);
    if !creature.to_remove {
        let near = neighbors_of(width, height, creature.key_area);
        lemma_filter_members(near, vacant_in(areas));
        assert forall|at: (usize, usize)| found.contains(at) implies in_bounds(width, height, at)
            && adjacent(creature.key_area, at) && areas[at].vacant by {
            assert(near.filter(vacant_in(areas)).contains(at));
            assert(near.contains(at) && vacant_in(areas)(at));
        }
    }
}

/// Lists the cells the creature under `handle` may reserve for a newborn.
pub fn spawn_candidates(world: &World, population: &Population, handle: usize) -> (found: Vec<
    (usize, usize),
>)
    requires
        running(*world, *population),
        population@.dom().contains(handle),
    ensures
        found@ == spawn_candidates_of(world@, world.size_x, world.size_y, population@[handle]),
{
    let creature = population.record(handle);
    let mut found: Vec<(usize, usize)> = Vec::new();
    if creature.to_remove {
        return found;
    }
    let near = neighbors(world.size_x, world.size_y, creature.key_area);
    let ghost free = vacant_in(world@);
    let mut crowded = false;
    let mut i: usize = 0;
    while i < near.len()
        invariant
            i <= near.len(),
            world.wf(),
            free == vacant_in(world@),
            near@ == neighbors_of(world.size_x, world.size_y, creature.key_area),
            forall|n: (usize, usize)| near@.contains(n) ==> in_bounds(world.size_x, world.size_y, n),
            found@ == near@.take(i as int).filter(free),
            crowded == occupied_before(world@, near@, i as int),
        decreases near.len() - i,
    {
        let at = near[i];
        assert(near@.contains(at));
        let area = world.cell(at);
        proof {
            assert(near@.take(i + 1) =~= near@.take(i as int).push(at));
            near@.take(i as int).lemma_filter_push(at, free);
        }
        if area.vacant {
            found.push(at);
        } else if area.key_creature.is_some() {
            crowded = true;
        }
        i += 1;
    }
    assert(near@.take(near.len() as int) =~= near@);
    if crowded {
        found
    } else {
        Vec::new()
    }
}

/// Carries out one spawn attempt for a draw that came out as `hit`: a vacant
/// cell that is hit stops being vacant; otherwise nothing changes.
pub fn claim_for_newborn(world: &mut World, at: (usize, usize), hit: bool) -> (claimed: bool)
    requires
        old(world)@.dom().contains(at),
    ensures
        claimed == (hit && old(world)@[at].vacant),
        claimed ==> final(world)@ == old(world)@.insert(at, old(world)@[at].reserved()),
        !claimed ==> *final(world) == *old(world),
        old(world).same_ground(final(world)),
        old(world).wf() ==> final(world).wf(),
{
    let area = world.cell(at);
    if area.vacant && hit {
        world.put(at, Area { key_creature: area.key_creature, vacant: false, param: area.param });
        true
    } else {
        false
    }
}

/// The spawn stage: a living creature with a neighbour goes through its
/// vacant neighbouring cells in a random order and, with the chance the
/// rules give for each, reserves the first that is hit.
pub fn new_creature(
    world: &mut World,
    population: &Population,
    handle: usize,
    rules: &Rules,
    rng: &mut StdRng,
) -> (spawn: Option<(usize, usize)>)
    requires
        running(*old(world), *population),
        population@.dom().contains(handle),
        rules.wf(),
    ensures
        match spawn {
            Some(at) => {
                &&& rules.spawn_percent > 0
                &&& spawn_candidates_of(
                    old(world)@,
                    old(world).size_x,
                    old(world).size_y,
                    population@[handle],
                ).contains(at)
                &&& final(world)@ == old(world)@.insert(at, old(world)@[at].reserved())
                &&& !reserved_cells(old(world)@).contains(at)
                &&& reserved_cells(final(world)@) == reserved_cells(old(world)@).insert(at)
            },
            None => {
                &&& *final(world) == *old(world)
                &&& rules.spawn_percent == 100 ==> spawn_candidates_of(
                    old(world)@,
                    old(world).size_x,
                    old(world).size_y,
                    population@[handle],
                ).len() == 0
            },
        },
        running(*final(world), *population),
        old(world).same_ground(final(world)),
{
    let mut candidates = spawn_candidates(world, population, handle);
    let ghost listed = candidates@;
    shuffle(&mut candidates, rng);
    proof {
        lemma_same_members(listed, candidates@);
        lemma_spawn_candidates(world@, world.size_x, world.size_y, population@[handle]);
    }
    let mut i: usize = 0;
    while i < candidates.len()
        invariant
            i <= candidates.len(),
            *world == *old(world),
            running(*world, *population),
            rules.wf(),
            listed == spawn_candidates_of(
                world@,
                world.size_x,
                world.size_y,
                population@[handle],
            ),
            listed.len() == candidates@.len(),
            forall|at: (usize, usize)| listed.contains(at) <==> candidates@.contains(at),
            forall|at: (usize, usize)|
                listed.contains(at) ==> world.contains(at) && world@[at].vacant,
            rules.spawn_percent == 100 ==> i == 0,
        decreases candidates.len() - i,
    {
        let at = candidates[i];
        assert(listed.contains(at));
        assert(world@.dom().contains(at));
        if world.cell(at).vacant {
            let hit = chance(rng, rules.spawn_percent, 100);
            if claim_for_newborn(world, at, hit) {
                return Some(at);
            }
        }
        i += 1;
    }
    None
}

/// What one turn of the creature under `handle` does, whichever way its
/// draws go: the state still fits together, only this creature's record has
/// changed, and only as `turn_of` allows; a creature that is alive after its
/// turn has moved exactly if it had a vacant neighbour; `turn` reports what
/// happened, and the cell it names, if any, is the one cell newly held back.
pub open spec fn took_turn(
    before: (World, Population),
    after: (World, Population),
    handle: usize,
    turn: Turn,
) -> bool {
    &&& running(after.0, after.1)
    &&& before.0.same_ground(&after.0)
    &&& after.1.order() == before.1.order()
    &&& after.1.free_keys == before.1.free_keys
    &&& after.1@ == before.1@.insert(handle, after.1@[handle])
    &&& turn_of(before.1@[handle], after.1@[handle])
    &&& turn.removed == (!before.1@[handle].to_remove && after.1@[handle].to_remove)
    &&& turn.moved == (after.1@[handle].key_area != before.1@[handle].key_area)
    &&& !after.1@[handle].to_remove ==> turn.moved == vacant_among(
        before.0@,
        neighbors_of(before.0.size_x, before.0.size_y, before.1@[handle].key_area),
    )
    &&& match turn.spawn {
        Some(at) => {
            &&& !after.1@[handle].to_remove
            &&& after.0.contains(at)
            &&& adjacent(after.1@[handle].key_area, at)
            &&& !reserved_cells(before.0@).contains(at)
            &&& reserved_cells(after.0@) == reserved_cells(before.0@).insert(at)
        },
        None => reserved_cells(after.0@) == reserved_cells(before.0@),
    }
}

/// One creature's whole turn: the removal stage, the movement stage and the
/// spawn stage, in that order. A creature that dies does nothing more.
pub fn creature_logic(
    world: &mut World,
    population: &mut Population,
    handle: usize,
    rules: &Rules,
    rng: &mut StdRng,
) -> (turn: Turn)
    requires
        running(*old(world), *old(population)),
        old(population)@.dom().contains(handle),
        rules.wf(),
    ensures
        took_turn(
            (*old(world), *old(population)),
            (*final(world), *final(population)),
            handle,
            turn,
        ),
        rules.removal_percent == 0 ==> !turn.removed,
        rules.removal_percent == 100 ==> final(population)@[handle].to_remove,
        rules.spawn_percent == 0 ==> turn.spawn is None,
        rules.spawn_percent == 100 && turn.spawn is None ==> spawn_candidates_of(
            final(world)@,
            final(world).size_x,
            final(world).size_y,
            final(population)@[handle],
        ).len() == 0,
{
    let removed = remove_creature(world, population, handle, rules, rng);
    let moved = move_creature(world, population, handle, rng);
    let ghost before_spawn = world@;
    proof {
        assert(creature_placed(before_spawn, population@, handle));
        lemma_spawn_candidates(before_spawn, world.size_x, world.size_y, population@[handle]);
    }
    let spawn = new_creature(world, population, handle, rules, rng);
    Turn { removed, moved, spawn }
}

} // verus!
