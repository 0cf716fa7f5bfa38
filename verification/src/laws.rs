//! What holds of the simulation as a whole, proved from the contracts of
//! `build`, `advance` and `validate`.

use crate::behavior::{running, settled, took_turn, Turn};
use crate::consistency::{
    area_claimed, creature_placed, lemma_consistent_iff_settled, lemma_verdict_meaning,
    lemma_world_follows_population, reserved_cells, verdict,
};
use crate::grid::{
    in_bounds, lemma_neighbors_are_adjacent_cells, move_options_of, neighbors_of, one_step,
};
use crate::population::Population;
use crate::progress::{deaths_in, moves_in, ran_turns, spawns_of, turn_at};
use crate::seqs::{lemma_filter_all_or_none, lemma_filter_split};
use crate::scheduler::{
    among, apart_from, awaited, lemma_awaited_after_turn, tick_course, tick_handles,
    tick_outcome, tick_result, ticked, TickStats,
};
use crate::store::marked_handles;
use crate::setup::populated;
use crate::world::World;
use vstd::prelude::*;
use vstd::set_lib::{lemma_len_subset, lemma_set_empty_equivalency_len};

verus! {

/// On a settled state `validate` succeeds.
pub proof fn lemma_settled_passes_validation(world: World, population: Population)
    requires
        settled(world, population),
    ensures
        verdict(world, population) is Ok,
{
    lemma_verdict_meaning(world, population);
}

/// In a history that starts with a freshly built state and goes on by
/// ticks, every state is settled and `validate` succeeds on it.
pub proof fn lemma_every_tick_passes_validation(
    history: Seq<(World, Population)>,
    stats: Seq<TickStats>,
    world_size: (usize, usize),
    pop_size: usize,
    at: int,
)
    requires
        0 <= at < history.len(),
        stats.len() + 1 == history.len(),
        populated(history[0].0, history[0].1, world_size, pop_size),
        forall|i: int|
            0 <= i < stats.len() ==> ticked(#[trigger] history[i], history[i + 1], stats[i]),
    ensures
        settled(history[at].0, history[at].1),
        verdict(history[at].0, history[at].1) is Ok,
    decreases at,
{
    if at > 0 {
        lemma_every_tick_passes_validation(history, stats, world_size, pop_size, at - 1);
    }
    lemma_settled_passes_validation(history[at].0, history[at].1);
}

/// Turns may be taken in any order: whichever creature takes the next turn,
/// and however often the same one comes up, the state keeps fitting
/// together, every handle keeps naming a creature, so that any of them may
/// take the turn after, and the cells reported are exactly those held back.
pub proof fn lemma_turns_in_any_order(
    history: Seq<(World, Population)>,
    handles: Seq<usize>,
    turns: Seq<Turn>,
    at: int,
)
    requires
        0 <= at < history.len(),
        handles.len() + 1 == history.len(),
        turns.len() + 1 == history.len(),
        running(history[0].0, history[0].1),
        reserved_cells(history[0].0@).is_empty(),
        forall|i: int| 0 <= i < handles.len() ==> history[0].1@.dom().contains(#[trigger] handles[i]),
        forall|i: int| 0 <= i < handles.len() ==> #[trigger] turn_at(history, handles, turns, i),
    ensures
        running(history[at].0, history[at].1),
        history[0].0.same_ground(&history[at].0),
        history[at].1@.dom() == history[0].1@.dom(),
        awaited(history[at].0, spawns_of(turns, at)),
    decreases at,
{
    if at > 0 {
        lemma_turns_in_any_order(history, handles, turns, at - 1);
        assert(turn_at(history, handles, turns, at - 1));
        lemma_awaited_after_turn(
            history[at - 1].0,
            history[at].0,
            spawns_of(turns, at - 1),
            turns[at - 1].spawn,
        );
    }
}

/// After a tick there are as many creatures as before, less those that
/// died, plus those that were born.
pub proof fn lemma_population_conserved(
    before: (World, Population),
    after: (World, Population),
    stats: TickStats,
)
    requires
        ticked(before, after, stats),
    ensures
        after.1@.dom().len() == before.1@.dom().len() - stats.removed + stats.spawned,
{
    let gone = choose|gone: Set<usize>| tick_result(before, after, stats, gone);
    assert(tick_outcome(before.1@, after.1@, stats, gone));
}

/// A tick in which nobody died and nobody was born leaves the handles as
/// they were: the same are walked, in the same order, and the same wait to
/// be reused.
pub proof fn lemma_quiet_tick_keeps_handles(
    before: (World, Population),
    after: (World, Population),
    stats: TickStats,
)
    requires
        before.1.wf(),
        ticked(before, after, stats),
        stats.removed == 0,
        stats.spawned == 0,
    ensures
        after.1.order() == before.1.order(),
        after.1.free_keys@ == before.1.free_keys@,
{
    let gone = choose|gone: Set<usize>| tick_result(before, after, stats, gone);
    assert(tick_outcome(before.1@, after.1@, stats, gone));
    assert(tick_handles(before.1, after.1, stats, gone));
    let order = before.1.order();
    before.1.lemma_len_counts_creatures();
    lemma_len_subset(gone, before.1@.dom());
    lemma_set_empty_equivalency_len(gone);
    lemma_filter_all_or_none(order, among(gone));
    lemma_filter_all_or_none(order, apart_from(gone));
    let dead = order.filter(among(gone));
    assert(dead =~= Seq::empty());
    assert(before.1.free_keys@ + dead =~= before.1.free_keys@);
    assert(after.1.order() =~= after.1.order().take(order.len() as int));
    assert(after.1.free_keys@ =~= before.1.free_keys@);
}

/// The handles given out never become fewer over a tick.
pub proof fn lemma_span_never_shrinks(
    before: (World, Population),
    after: (World, Population),
    stats: TickStats,
)
    requires
        ticked(before, after, stats),
    ensures
        after.1.span() >= before.1.span(),
{
    let gone = choose|gone: Set<usize>| tick_result(before, after, stats, gone);
    assert(tick_handles(before.1, after.1, stats, gone));
    lemma_filter_split(before.1.order(), apart_from(gone), among(gone));
}

/// Deaths only add up as more turns are read.
proof fn lemma_deaths_add_up(turns: Seq<Turn>, fewer: int, more: int)
    requires
        fewer <= more,
    ensures
        deaths_in(turns, fewer) <= deaths_in(turns, more),
    decreases more - fewer,
{
    if fewer < more {
        lemma_deaths_add_up(turns, fewer, more - 1);
    }
}

/// Where no cell is vacant and no turn ends in death, the state after `i`
/// turns is the state before the first.
proof fn lemma_still_after_turns(
    before: (World, Population),
    history: Seq<(World, Population)>,
    turns: Seq<Turn>,
    i: int,
)
    requires
        settled(before.0, before.1),
        forall|at: (usize, usize)| #[trigger] before.0@.dom().contains(at) ==> !before.0@[at].vacant,
        ran_turns(
            before,
            history[before.1.order().len() as int],
            before.1.order(),
            history,
            turns,
        ),
        deaths_in(turns, before.1.order().len() as int) == 0,
        0 <= i <= before.1.order().len(),
    ensures
        running(history[i].0, history[i].1),
        before.0.same_ground(&history[i].0),
        history[i].0@ == before.0@,
        history[i].1@ == before.1@,
        history[i].1.order() == before.1.order(),
        spawns_of(turns, i).len() == 0,
        moves_in(turns, i) == 0,
    decreases i,
{
    lemma_consistent_iff_settled(before.0@, before.1@);
    if i > 0 {
        lemma_still_after_turns(before, history, turns, i - 1);
        lemma_deaths_add_up(turns, i, before.1.order().len() as int);
        let was = history[i - 1];
        let is = history[i];
        let handle = before.1.order()[i - 1];
        let turn = turns[i - 1];
        let cells = before.0@;
        let crowd = before.1@;
        assert(turn_at(history, before.1.order(), turns, i - 1));
        assert(took_turn(was, is, handle, turn));
        assert(before.1.order().contains(handle));
        assert(crowd.dom().contains(handle));
        assert(!marked_handles(crowd).contains(handle));
        assert(!turn.removed);
        assert(creature_placed(cells, crowd, handle));
        lemma_neighbors_are_adjacent_cells(was.0.size_x, was.0.size_y, crowd[handle].key_area);
        let near = neighbors_of(was.0.size_x, was.0.size_y, crowd[handle].key_area);
        assert forall|j: int| 0 <= j < near.len() implies !(#[trigger] cells[near[j]]).vacant by {
            assert(near.contains(near[j]));
            assert(cells.dom().contains(near[j]));
        }
        assert(!turn.moved);
        assert(is.1@ =~= crowd);
        match turn.spawn {
            Some(at) => {
                assert(reserved_cells(is.0@).contains(at));
                assert(cells.dom().contains(at));
                assert(!reserved_cells(cells).contains(at));
                assert(area_claimed(cells, crowd, at));
                let k = cells[at].key_creature->Some_0;
                assert(creature_placed(is.0@, is.1@, k));
                assert(false);
            },
            None => {},
        }
        assert(reserved_cells(is.0@) =~= Set::empty());
        assert(marked_handles(is.1@) =~= Set::empty());
        lemma_consistent_iff_settled(is.0@, is.1@);
        lemma_world_follows_population(cells, is.0@, crowd);
    }
}

/// On a world without a vacant cell a tick in which nobody dies changes
/// nothing: nobody moves, nobody is born, and the world and the population
/// are afterwards what they were.
pub proof fn lemma_full_world_stands_still(
    before: (World, Population),
    after: (World, Population),
    stats: TickStats,
)
    requires
        settled(before.0, before.1),
        forall|at: (usize, usize)| #[trigger] before.0@.dom().contains(at) ==> !before.0@[at].vacant,
        ticked(before, after, stats),
        stats.removed == 0,
    ensures
        stats.moved == 0,
        stats.spawned == 0,
        after.0@ == before.0@,
        after.1@ == before.1@,
{
    let (history, turns, thinned) = choose|
        history: Seq<(World, Population)>,
        turns: Seq<Turn>,
        thinned: Population,
    | tick_course(before, after, stats, history, turns, thinned);
    assert(tick_course(before, after, stats, history, turns, thinned));
    let n = before.1.order().len() as int;
    lemma_still_after_turns(before, history, turns, n);
    lemma_consistent_iff_settled(before.0@, before.1@);
    let mid = history[n];
    assert(spawns_of(turns, n) =~= Seq::empty());
    assert(marked_handles(mid.1@) =~= Set::empty());
    assert(thinned@ =~= mid.1@);
    mid.1.lemma_len_counts_creatures();
    thinned.lemma_len_counts_creatures();
    after.1.lemma_len_counts_creatures();
    assert(after.1@.dom() =~= thinned@.dom());
    assert(after.1@ =~= before.1@);
    assert(after.0@ =~= before.0@);
}

/// After a tick no two creatures stand on the same cell.
pub proof fn lemma_no_double_occupancy_after_tick(
    before: (World, Population),
    after: (World, Population),
    stats: TickStats,
    a: usize,
    b: usize,
)
    requires
        ticked(before, after, stats),
        after.1@.dom().contains(a),
        after.1@.dom().contains(b),
        a != b,
    ensures
        after.1@[a].key_area != after.1@[b].key_area,
{
}

/// Being at most one step away means differing by at most one along one
/// axis and not at all along the other.
pub proof fn lemma_one_step_is_local(a: (usize, usize), b: (usize, usize))
    requires
        one_step(a, b),
    ensures
        -1 <= a.0 - b.0 <= 1,
        -1 <= a.1 - b.1 <= 1,
        a.0 == b.0 || a.1 == b.1,
{
}

/// All creatures but those that died in the tick, of which there are
/// `stats.removed`, are still there under their handle and stand at most
/// one step from where they stood.
pub proof fn lemma_movement_is_local(
    before: (World, Population),
    after: (World, Population),
    stats: TickStats,
)
    requires
        ticked(before, after, stats),
    ensures
        exists|gone: Set<usize>|
            {
                &&& gone.subset_of(before.1@.dom())
                &&& #[trigger] gone.len() == stats.removed
                &&& forall|k: usize| #[trigger]
                    before.1@.dom().contains(k) && !gone.contains(k) ==> after.1@.dom().contains(k)
                        && one_step(before.1@[k].key_area, after.1@[k].key_area)
            },
{
    let gone = choose|gone: Set<usize>| tick_result(before, after, stats, gone);
    assert(tick_outcome(before.1@, after.1@, stats, gone));
}

/// Whatever a creature on the grid may look at or step to lies on the
/// grid.
pub proof fn lemma_proposals_stay_on_grid(
    width: usize,
    height: usize,
    here: (usize, usize),
    there: (usize, usize),
)
    requires
        in_bounds(width, height, here),
        neighbors_of(width, height, here).contains(there) || move_options_of(
            width,
            height,
            here,
        ).contains(there),
    ensures
        in_bounds(width, height, there),
{
}

/// While a tick runs, and between ticks, every living creature stands on
/// the grid.
pub proof fn lemma_creatures_stand_on_grid(world: World, population: Population, handle: usize)
    requires
        running(world, population) || settled(world, population),
        population@.dom().contains(handle),
        !population@[handle].to_remove,
    ensures
        world.contains(population@[handle].key_area),
{
}

} // verus!
