//! One tick: the creatures take their turns chunk by chunk, then the dead
//! are dropped, then the newborn are placed.

use crate::area::Area;
use crate::behavior::{creature_logic, running, settled, turn_of, Rules, Turn};
use crate::consistency::{
    area_claimed, creature_placed, lemma_consistent_iff_settled, reserved_cells, validate,
};
use crate::creature::Creature;
use crate::error::SimError;
use crate::population::Population;
use crate::progress::{
    deaths_in, lemma_course_chains, lemma_progress_chains, lemma_progress_of_one_turn,
    lemma_progress_starts, lemma_run_of_one, lemma_runs_chain, lemma_tallies_bounded,
    lemma_turn_counts_bounded, lemma_turns_read_in_parts, moved_handles, moves_in, progressed,
    ran_turns, spawns_of,
};
use crate::seqs::{
    lemma_distinct_len, lemma_filter_agree, lemma_filter_members, lemma_filter_split,
    lemma_push_fresh,
};
use crate::store::{live_in, marked_handles, marked_in};
use crate::world::World;
use rand::rngs::StdRng;
use vstd::pervasive::unreached;
use vstd::prelude::*;

verus! {

/// What happened in a run of turns.
#[derive(Clone, Copy, Debug, PartialEq, Eq, Structural)]
pub struct Tally {
    /// Creatures that died.
    pub removed: usize,
    /// Creatures that stepped to another cell.
    pub moved: usize,
}

/// What happened in a tick.
#[derive(Clone, Copy, Debug, PartialEq, Eq, Structural)]
pub struct TickStats {
    /// Chunks the creatures were dealt out in.
    pub chunks: usize,
    /// Creatures that died and were dropped.
    pub removed: usize,
    /// Creatures that were born and placed.
    pub spawned: usize,
    /// Creatures that stepped to another cell.
    pub moved: usize,
}

/// `pending` lists the cells held back for a newborn, each once.
pub open spec fn awaited(world: World, pending: Seq<(usize, usize)>) -> bool {
    &&& pending.no_duplicates()
    &&& forall|at: (usize, usize)|
        pending.contains(at) <==> #[trigger] reserved_cells(world@).contains(at)
}

/// The list of cells held back stays right when the cell a turn reports is
/// appended to it.
pub proof fn lemma_awaited_after_turn(
    before: World,
    after: World,
    pending: Seq<(usize, usize)>,
    spawn: Option<(usize, usize)>,
)
    requires
        awaited(before, pending),
        match spawn {
            Some(at) => !reserved_cells(before@).contains(at) && reserved_cells(after@)
                == reserved_cells(before@).insert(at),
            None => reserved_cells(after@) == reserved_cells(before@),
        },
    ensures
        awaited(
            after,
            match spawn {
                Some(at) => pending.push(at),
                None => pending,
            },
        ),
{
    match spawn {
        Some(at) => {
            lemma_push_fresh(pending, reserved_cells(before@), at);
        },
        None => {},
    }
}

/// The course of one chunk: `after` is reached from `before` by one turn of
/// each of `handles`, in order; the cells the turns reported are appended to
/// the list of cells held back, which leads from `listed.0` to `listed.1`;
/// and `tally` counts the turns that ended in death and those that were a
/// step to another cell.
pub open spec fn chunk_course(
    before: (World, Population),
    after: (World, Population),
    handles: Seq<usize>,
    listed: (Seq<(usize, usize)>, Seq<(usize, usize)>),
    tally: Tally,
    history: Seq<(World, Population)>,
    turns: Seq<Turn>,
) -> bool {
    &&& ran_turns(before, after, handles, history, turns)
    &&& listed.1 == listed.0 + spawns_of(turns, handles.len() as int)
    &&& tally.removed == deaths_in(turns, handles.len() as int)
    &&& tally.moved == moves_in(turns, handles.len() as int)
}

/// Lets the creatures of one chunk take their turns, in the chunk's order,
/// and appends the cells they reserve to `pending`.
#[verifier::rlimit(40)]
pub fn run_chunk(
    world: &mut World,
    population: &mut Population,
    chunk: &Vec<usize>,
    rules: &Rules,
    rng: &mut StdRng,
    pending: &mut Vec<(usize, usize)>,
) -> (tally: Tally)
    requires
        running(*old(world), *old(population)),
        rules.wf(),
        chunk@.no_duplicates(),
        forall|i: int| 0 <= i < chunk@.len() ==> old(population)@.dom().contains(#[trigger] chunk@[i]),
        awaited(*old(world), old(pending)@),
    ensures
        running(*final(world), *final(population)),
        old(world).same_ground(final(world)),
        final(population).order() == old(population).order(),
        final(population).free_keys == old(population).free_keys,
        awaited(*final(world), final(pending)@),
        old(pending)@.is_prefix_of(final(pending)@),
        progressed(
            old(population)@,
            final(population)@,
            chunk@,
            tally.removed as nat,
            tally.moved as nat,
        ),
        exists|history: Seq<(World, Population)>, turns: Seq<Turn>| #[trigger]
            chunk_course(
                (*old(world), *old(population)),
                (*final(world), *final(population)),
                chunk@,
                (old(pending)@, final(pending)@),
                tally,
                history,
                turns,
            ),
        rules.removal_percent == 0 ==> tally.removed == 0,
        rules.removal_percent == 100 ==> final(pending)@ == old(pending)@ && forall|i: int|
            0 <= i < chunk@.len() ==> final(population)@[#[trigger] chunk@[i]].to_remove,
        rules.spawn_percent == 0 ==> final(pending)@ == old(pending)@,
{
    let mut removed: usize = 0;
    let mut moved: usize = 0;
    let mut i: usize = 0;
    let ghost start = (*world, *population);
    let ghost mut history: Seq<(World, Population)> = seq![start];
    let ghost mut turns: Seq<Turn> = Seq::empty();
    proof {
        old(population).lemma_len_counts_creatures();
        lemma_progress_starts(old(population)@);
        assert(pending@ =~= old(pending)@ + spawns_of(turns, 0));
    }
    while i < chunk.len()
        invariant
            i <= chunk.len(),
            removed <= i,
            moved <= i,
            running(*world, *population),
            rules.wf(),
            chunk@.no_duplicates(),
            forall|i: int| 0 <= i < chunk@.len() ==> old(population)@.dom().contains(
                #[trigger] chunk@[i],
            ),
            old(world).same_ground(world),
            population.order() == old(population).order(),
            population.free_keys == old(population).free_keys,
            awaited(*world, pending@),
            old(pending)@.is_prefix_of(pending@),
            progressed(
                old(population)@,
                population@,
                chunk@.take(i as int),
                removed as nat,
                moved as nat,
            ),
            start == (*old(world), *old(population)),
            chunk_course(
                start,
                (*world, *population),
                chunk@.take(i as int),
                (old(pending)@, pending@),
                Tally { removed, moved },
                history,
                turns,
            ),
            rules.removal_percent == 0 ==> removed == 0,
            rules.removal_percent == 100 ==> pending@ == old(pending)@ && forall|j: int|
                0 <= j < i ==> population@[#[trigger] chunk@[j]].to_remove,
            rules.spawn_percent == 0 ==> pending@ == old(pending)@,
        decreases chunk.len() - i,
    {
        let handle = chunk[i];
        let ghost before = population@;
        let ghost was = *world;
        let ghost state = (*world, *population);
        let ghost listed = pending@;
        let turn = creature_logic(world, population, handle, rules, rng);
        proof {
            lemma_awaited_after_turn(was, *world, listed, turn.spawn);
        }
        match turn.spawn {
            Some(at) => {
                pending.push(at);
            },
            None => {},
        }
        proof {
            let done = chunk@.take(i as int);
            let gone = if turn.removed {
                1nat
            } else {
                0nat
            };
            let went = if turn.moved {
                1nat
            } else {
                0nat
            };
            lemma_progress_of_one_turn(before, population@, handle);
            lemma_progress_chains(
                old(population)@,
                before,
                population@,
                done,
                seq![handle],
                (removed as nat, gone),
                (moved as nat, went),
            );
            assert(done + seq![handle] =~= chunk@.take(i + 1));
            let next = (*world, *population);
            lemma_run_of_one(state, next, handle, turn);
            lemma_runs_chain(
                start,
                state,
                next,
                (done, seq![handle]),
                (history, seq![state, next]),
                (turns, seq![turn]),
            );
            lemma_turns_read_in_parts(turns, seq![turn], 1);
            history = history + seq![state, next].drop_first();
            turns = turns + seq![turn];
            assert(pending@ =~= old(pending)@ + spawns_of(turns, i + 1));
        }
        if turn.removed {
            removed += 1;
        }
        if turn.moved {
            moved += 1;
        }
        i += 1;
    }
    let tally = Tally { removed, moved };
    proof {
        assert(chunk@.take(chunk.len() as int) =~= chunk@);
        assert(chunk_course(
            start,
            (*world, *population),
            chunk@,
            (old(pending)@, pending@),
            tally,
            history,
            turns,
        ));
    }
    tally
}

/// A creature as it is born: alive, with an empty payload.
pub open spec fn newborn(creature: Creature) -> bool {
    !creature.to_remove && creature.param == 0
}

/// The handle of the newborn placed after `j` others, when placing began
/// with the handles in `free` given up and `count` creatures alive: the
/// handle given up `j`-th to last, or `count + j` when fewer were given up.
pub open spec fn newborn_handle(free: Seq<usize>, count: nat, j: int) -> usize {
    if j < free.len() {
        free[free.len() - 1 - j]
    } else {
        (count + j) as usize
    }
}

/// What placing the newborn does: every cell of `pending`, taken from the
/// last to the first, names a newborn that stands on it; the newborn placed
/// after `j` others has the handle `newborn_handle` gives and is walked `j`
/// places after those who were there; the handles taken are gone from the
/// end of the list of handles given up; everybody else and every other cell
/// is as before; and no cell is held back any more.
pub open spec fn placed_newborn(
    before: (World, Population),
    after: (World, Population),
    pending: Seq<(usize, usize)>,
) -> bool {
    let placed = pending.len();
    let count = before.1.order().len();
    let free = before.1.free_keys@;
    &&& running(after.0, after.1)
    &&& reserved_cells(after.0@).is_empty()
    &&& marked_handles(after.1@) == marked_handles(before.1@)
    &&& before.0.same_ground(&after.0)
    &&& after.1.order().len() == count + placed
    &&& after.1.order().take(count as int) == before.1.order()
    &&& after.1.free_keys@ == free.take(
        if free.len() > placed {
            free.len() - placed
        } else {
            0
        },
    )
    &&& forall|j: int|
        0 <= j < placed ==> {
            let handle = #[trigger] newborn_handle(free, count, j);
            let at = pending[placed - 1 - j];
            &&& !before.1@.dom().contains(handle)
            &&& after.1.order()[count + j] == handle
            &&& after.1@.dom().contains(handle)
            &&& after.1@[handle] == (Creature { key_area: at, to_remove: false, param: 0 })
            &&& after.0@[at] == before.0@[at].occupied_by(handle)
        }
    &&& forall|k: usize| #[trigger]
        before.1@.dom().contains(k) ==> after.1@.dom().contains(k) && after.1@[k] == before.1@[k]
    &&& forall|k: usize| #[trigger]
        after.1@.dom().contains(k) && !before.1@.dom().contains(k) ==> newborn(after.1@[k])
            && pending.contains(after.1@[k].key_area)
    &&& forall|at: (usize, usize)| #[trigger]
        after.0@.dom().contains(at) && !pending.contains(at) ==> after.0@[at] == before.0@[at]
    &&& forall|at: (usize, usize)|
        pending.contains(at) ==> {
            &&& (#[trigger] after.0@[at]).key_creature is Some
            &&& !before.1@.dom().contains(after.0@[at].key_creature->Some_0)
            &&& after.0@[at].param == before.0@[at].param
        }
}

/// Places a newborn on every cell of `pending`, last cell first. Each gets
/// the handle most recently given up, or the next never used when none is
/// left.
pub fn place_spawned(
    world: &mut World,
    population: &mut Population,
    pending: Vec<(usize, usize)>,
) -> (placed: usize)
    requires
        running(*old(world), *old(population)),
        awaited(*old(world), pending@),
    ensures
        placed == pending@.len(),
        placed_newborn(
            (*old(world), *old(population)),
            (*final(world), *final(population)),
            pending@,
        ),
{
    let placed = pending.len();
    let mut left = pending;
    while left.len() > 0
        invariant
            placed == pending@.len(),
            running(*world, *population),
            awaited(*world, left@),
            left@ == pending@.take(left@.len() as int),
            left@.len() <= pending@.len(),
            marked_handles(population@) == marked_handles(old(population)@),
            old(world).same_ground(world),
            population.order().len() + left@.len() == old(population).order().len() + placed,
            population.order().take(old(population).order().len() as int) == old(population).order(),
            population.free_keys@ == old(population).free_keys@.take(
                if old(population).free_keys@.len() > placed - left@.len() {
                    old(population).free_keys@.len() - (placed - left@.len())
                } else {
                    0
                },
            ),
            forall|j: int|
                0 <= j < placed - left@.len() ==> {
                    let handle = #[trigger] newborn_handle(
                        old(population).free_keys@,
                        old(population).order().len(),
                        j,
                    );
                    let at = pending@[placed - 1 - j];
                    &&& !old(population)@.dom().contains(handle)
                    &&& population.order()[old(population).order().len() + j] == handle
                    &&& population@.dom().contains(handle)
                    &&& population@[handle] == (Creature {
                        key_area: at,
                        to_remove: false,
                        param: 0,
                    })
                    &&& world@[at] == old(world)@[at].occupied_by(handle)
                },
            forall|k: usize| #[trigger]
                old(population)@.dom().contains(k) ==> population@.dom().contains(k)
                    && population@[k] == old(population)@[k],
            forall|k: usize| #[trigger]
                population@.dom().contains(k) && !old(population)@.dom().contains(k) ==> newborn(
                    population@[k],
                ) && pending@.contains(population@[k].key_area) && !left@.contains(
                    population@[k].key_area,
                ),
            forall|at: (usize, usize)| #[trigger]
                world@.dom().contains(at) && (!pending@.contains(at) || left@.contains(at))
                    ==> world@[at] == old(world)@[at],
            forall|at: (usize, usize)|
                pending@.contains(at) && !left@.contains(at) ==> (#[trigger] world@[at]).key_creature
                    is Some && !old(population)@.dom().contains(world@[at].key_creature->Some_0)
                    && world@[at].param == old(world)@[at].param,
        decreases left@.len(),
    {
        let ghost cells = world@;
        let ghost waiting = left@;
        let at = match left.pop() {
            Some(at) => at,
            None => unreached(),
        };
        proof {
            assert(reserved_cells(cells).contains(at));
        }
        let handle = population.adopt(Creature::new(at));
        let area = world.cell(at);
        world.put(at, Area { key_creature: Some(handle), vacant: area.vacant, param: area.param });
        proof {
            let a1 = world@;
            assert forall|c: (usize, usize)|
                left@.contains(c) <==> #[trigger] reserved_cells(a1).contains(c) by {
                assert(reserved_cells(a1).contains(c) <==> reserved_cells(cells).contains(c) && c
                    != at);
                if left@.contains(c) {
                    let j = choose|j: int| 0 <= j < left@.len() && left@[j] == c;
                    assert(waiting[j] == c);
                }
                if waiting.contains(c) && c != at {
                    let j = choose|j: int| 0 <= j < waiting.len() && waiting[j] == c;
                    assert(left@[j] == c);
                }
            }
            assert(left@ =~= pending@.take(left@.len() as int));
        }
    }
    placed
}

/// Where chunk `c` begins when `len` items are dealt out in chunks of
/// `size`: after `c` full chunks, or at the end if there are not that many.
pub open spec fn chunk_edge(len: int, size: int, c: int) -> int {
    if c * size < len {
        c * size
    } else {
        len
    }
}

/// How many chunks of `size` it takes to deal out `len` items.
pub open spec fn chunk_count(len: int, size: int) -> int {
    if len <= 0 {
        0
    } else {
        (len - 1) / size + 1
    }
}

/// Chunk `c` of `keys` dealt out in chunks of `size`.
pub open spec fn chunk_of(keys: Seq<usize>, size: int, c: int) -> Seq<usize> {
    keys.subrange(chunk_edge(keys.len() as int, size, c), chunk_edge(keys.len() as int, size, c + 1))
}

/// The chunks lie one after the other inside the items: each begins where
/// the one before ends, the first begins at the start, and the one after
/// the last would begin at the end.
pub proof fn lemma_chunk_edges(len: int, size: int, c: int)
    requires
        0 <= len,
        0 < size,
        0 <= c,
    ensures
        0 <= chunk_edge(len, size, c) <= chunk_edge(len, size, c + 1) <= len,
        chunk_edge(len, size, 0) == 0,
        c < chunk_count(len, size) ==> chunk_edge(len, size, c) == c * size && c * size < len,
        c >= chunk_count(len, size) ==> chunk_edge(len, size, c) == len,
        chunk_edge(len, size, c + 1) - chunk_edge(len, size, c) <= size,
{
    assert((c + 1) * size == c * size + size) by (nonlinear_arith);
    assert(0 * size == 0) by (nonlinear_arith);
    assert(0 <= c * size) by (nonlinear_arith)
        requires
            0 <= c,
            0 < size,
    ;
    if len > 0 {
        let q = (len - 1) / size;
        assert(q * size <= len - 1 < q * size + size) by (nonlinear_arith)
            requires
                q == (len - 1) / size,
                0 < size,
                0 <= len - 1,
        ;
        if c <= q {
            assert(c * size <= q * size) by (nonlinear_arith)
                requires
                    0 <= c <= q,
                    0 < size,
            ;
        } else {
            assert(c * size >= q * size + size) by (nonlinear_arith)
                requires
                    c >= q + 1,
                    0 < size,
            ;
        }
    }
}

/// Deals `keys` out in chunks of `chunk_size`, keeping their order; only the
/// last chunk may be shorter.
pub fn split_chunks(keys: &Vec<usize>, chunk_size: usize) -> (chunks: Vec<Vec<usize>>)
    requires
        chunk_size > 0,
    ensures
        chunks@.len() == chunk_count(keys@.len() as int, chunk_size as int),
        forall|c: int|
            0 <= c < chunks@.len() ==> (#[trigger] chunks@[c])@ == chunk_of(
                keys@,
                chunk_size as int,
                c,
            ),
{
    let len = keys.len();
    let mut chunks: Vec<Vec<usize>> = Vec::new();
    let mut start: usize = 0;
    while start < len
        invariant
            len == keys@.len(),
            chunk_size > 0,
            start <= len,
            start == chunk_edge(len as int, chunk_size as int, chunks@.len() as int),
            chunks@.len() <= chunk_count(len as int, chunk_size as int),
            start == len ==> chunks@.len() == chunk_count(len as int, chunk_size as int),
            forall|c: int|
                0 <= c < chunks@.len() ==> (#[trigger] chunks@[c])@ == chunk_of(
                    keys@,
                    chunk_size as int,
                    c,
                ),
        decreases len - start,
    {
        let ghost c = chunks@.len() as int;
        proof {
            lemma_chunk_edges(len as int, chunk_size as int, c);
            lemma_chunk_edges(len as int, chunk_size as int, c + 1);
        }
        let end = if len - start > chunk_size {
            start + chunk_size
        } else {
            len
        };
        assert(end == chunk_edge(len as int, chunk_size as int, c + 1)) by {
            assert((c + 1) * chunk_size == c * chunk_size + chunk_size) by (nonlinear_arith);
        }
        let mut chunk: Vec<usize> = Vec::new();
        let mut j: usize = start;
        while j < end
            invariant
                start <= j <= end <= len,
                len == keys@.len(),
                chunk@ == keys@.subrange(start as int, j as int),
            decreases end - j,
        {
            chunk.push(keys[j]);
            j += 1;
        }
        chunks.push(chunk);
        start = end;
    }
    chunks
}

/// The survivors of a tick that stand elsewhere after it than before.
pub open spec fn survivors_moved(
    before: Map<usize, Creature>,
    after: Map<usize, Creature>,
    gone: Set<usize>,
) -> Set<usize> {
    Set::new(
        |k: usize|
            before.dom().contains(k) && !gone.contains(k) && after[k].key_area
                != before[k].key_area,
    )
}

/// What a tick does to the population, given the set `gone` of the handles
/// whose creature died in it: the tallies count what they say, every other
/// creature is still there under its handle, alive and at most one step
/// away, and whatever else is there was born in the tick.
pub open spec fn tick_outcome(
    before: Map<usize, Creature>,
    after: Map<usize, Creature>,
    stats: TickStats,
    gone: Set<usize>,
) -> bool {
    &&& before.dom().finite()
    &&& after.dom().finite()
    &&& gone.subset_of(before.dom())
    &&& gone.len() == stats.removed
    &&& after.dom().len() + stats.removed == before.dom().len() + stats.spawned
    &&& survivors_moved(before, after, gone).len() == stats.moved
    &&& forall|k: usize| #[trigger]
        before.dom().contains(k) && !gone.contains(k) ==> {
            &&& after.dom().contains(k)
            &&& turn_of(before[k], after[k])
            &&& !after[k].to_remove
        }
    &&& forall|k: usize| #[trigger]
        after.dom().contains(k) && (!before.dom().contains(k) || gone.contains(k)) ==> newborn(
            after[k],
        )
}

/// The test "this handle is one of `handles`".
pub open spec fn among(handles: Set<usize>) -> spec_fn(usize) -> bool {
    |k: usize| handles.contains(k)
}

/// The test "this handle is none of `handles`".
pub open spec fn apart_from(handles: Set<usize>) -> spec_fn(usize) -> bool {
    |k: usize| !handles.contains(k)
}

/// What a tick does to the handles, given the set `gone` of the handles
/// whose creature died in it: the handles of the dead, in walking order, are
/// put at the end of the list of handles given up, and the newborn take
/// theirs from that end, or fresh ones once it is used up; the survivors are
/// walked in their old order, the newborn after them.
pub open spec fn tick_handles(
    before: Population,
    after: Population,
    stats: TickStats,
    gone: Set<usize>,
) -> bool {
    let dead = before.order().filter(among(gone));
    let survivors = before.order().filter(apart_from(gone));
    let free = before.free_keys@ + dead;
    &&& after.free_keys@ == free.take(
        if free.len() > stats.spawned {
            free.len() - stats.spawned
        } else {
            0
        },
    )
    &&& after.order().len() == survivors.len() + stats.spawned
    &&& after.order().take(survivors.len() as int) == survivors
    &&& forall|j: int|
        0 <= j < stats.spawned ==> after.order()[survivors.len() + j] == #[trigger] newborn_handle(
            free,
            survivors.len(),
            j,
        )
}

/// What a tick does to the population and its handles, given the set `gone`
/// of the handles whose creature died in it.
pub open spec fn tick_result(
    before: (World, Population),
    after: (World, Population),
    stats: TickStats,
    gone: Set<usize>,
) -> bool {
    &&& tick_outcome(before.1@, after.1@, stats, gone)
    &&& tick_handles(before.1, after.1, stats, gone)
}

/// What dropping the dead does: the living stay, with their records and in
/// their order, and the handles of the dead, in walking order, are put at
/// the end of the list of handles given up.
pub open spec fn dropped_dead(before: Population, after: Population) -> bool {
    &&& after.wf()
    &&& after@ == before@.remove_keys(marked_handles(before@))
    &&& after.order() == before.order().filter(live_in(before@))
    &&& after.free_keys@ == before.free_keys@ + before.order().filter(marked_in(before@))
}

/// The course of a tick: every creature walked at its start takes one turn,
/// in walking order, which leads through `history` to a middle state; there
/// the dead are dropped, which leaves the population `thinned`; then the
/// newborn are placed on the cells the turns reported. The tallies count the
/// turns that ended in death, the turns that were a step, and the cells
/// reported.
pub open spec fn tick_course(
    before: (World, Population),
    after: (World, Population),
    stats: TickStats,
    history: Seq<(World, Population)>,
    turns: Seq<Turn>,
    thinned: Population,
) -> bool {
    let handles = before.1.order();
    let mid = history[handles.len() as int];
    &&& ran_turns(before, mid, handles, history, turns)
    &&& stats.removed == deaths_in(turns, handles.len() as int)
    &&& stats.moved == moves_in(turns, handles.len() as int)
    &&& stats.spawned == spawns_of(turns, handles.len() as int).len()
    &&& dropped_dead(mid.1, thinned)
    &&& placed_newborn((mid.0, thinned), after, spawns_of(turns, handles.len() as int))
}

/// What a tick does: it leads from one settled state to another over the
/// same grid, along `tick_course`, and changes the population and its
/// handles as `tick_result` says for some set of creatures that died.
pub open spec fn ticked(
    before: (World, Population),
    after: (World, Population),
    stats: TickStats,
) -> bool {
    &&& settled(after.0, after.1)
    &&& before.0.same_ground(&after.0)
    &&& exists|gone: Set<usize>| #[trigger] tick_result(before, after, stats, gone)
    &&& exists|history: Seq<(World, Population)>, turns: Seq<Turn>, thinned: Population| #[trigger]
        tick_course(before, after, stats, history, turns, thinned)
}

/// All that `advance` promises of a tick run with the given chunk size and
/// rules: what `ticked` says, the number of chunks, and what is certain when
/// a chance is nil or full.
pub open spec fn advanced(
    before: (World, Population),
    after: (World, Population),
    stats: TickStats,
    chunk_size: usize,
    rules: Rules,
) -> bool {
    &&& ticked(before, after, stats)
    &&& stats.chunks == chunk_count(before.1.order().len() as int, chunk_size as int)
    &&& rules.removal_percent == 0 ==> stats.removed == 0
    &&& rules.removal_percent == 100 ==> stats.removed == before.1.order().len() && stats.moved
        == 0 && stats.spawned == 0 && after.1@.dom().is_empty()
    &&& rules.spawn_percent == 0 ==> stats.spawned == 0
}

/// Lets every creature listed in `keys` take one turn: deals the handles out
/// in chunks of `chunk_size` and runs the chunks one after the other.
/// Returns the cells reserved, the tally, and the number of chunks.
#[verifier::rlimit(40)]
pub fn run_turns(
    world: &mut World,
    population: &mut Population,
    keys: &Vec<usize>,
    chunk_size: usize,
    rules: &Rules,
    rng: &mut StdRng,
) -> (ran: (Vec<(usize, usize)>, Tally, usize))
    requires
        running(*old(world), *old(population)),
        reserved_cells(old(world)@).is_empty(),
        rules.wf(),
        chunk_size > 0,
        keys@.no_duplicates(),
        forall|i: int| 0 <= i < keys@.len() ==> old(population)@.dom().contains(#[trigger] keys@[i]),
    ensures
        running(*final(world), *final(population)),
        old(world).same_ground(final(world)),
        final(population).order() == old(population).order(),
        final(population).free_keys == old(population).free_keys,
        awaited(*final(world), ran.0@),
        progressed(
            old(population)@,
            final(population)@,
            keys@,
            ran.1.removed as nat,
            ran.1.moved as nat,
        ),
        exists|history: Seq<(World, Population)>, turns: Seq<Turn>| #[trigger]
            chunk_course(
                (*old(world), *old(population)),
                (*final(world), *final(population)),
                keys@,
                (Seq::empty(), ran.0@),
                ran.1,
                history,
                turns,
            ),
        ran.2 == chunk_count(keys@.len() as int, chunk_size as int),
        rules.removal_percent == 0 ==> ran.1.removed == 0,
        rules.removal_percent == 100 ==> ran.0@.len() == 0 && forall|i: int|
            0 <= i < keys@.len() ==> final(population)@[#[trigger] keys@[i]].to_remove,
        rules.spawn_percent == 0 ==> ran.0@.len() == 0,
{
    let total = keys.len();
    let chunks = split_chunks(keys, chunk_size);
    let mut pending: Vec<(usize, usize)> = Vec::new();
    let mut removed: usize = 0;
    let mut moved: usize = 0;
    let mut c: usize = 0;
    let ghost start = population@;
    let ghost first = (*world, *population);
    let ghost mut history: Seq<(World, Population)> = seq![first];
    let ghost mut turns: Seq<Turn> = Seq::empty();
    proof {
        old(population).lemma_len_counts_creatures();
        lemma_progress_starts(start);
        lemma_chunk_edges(keys@.len() as int, chunk_size as int, 0);
        assert(keys@.take(0) =~= Seq::<usize>::empty());
        assert(pending@ =~= Seq::<(usize, usize)>::empty() + spawns_of(turns, 0));
    }
    while c < chunks.len()
        invariant
            c <= chunks@.len(),
            chunk_size > 0,
            rules.wf(),
            start == old(population)@,
            first == (*old(world), *old(population)),
            start.dom().finite(),
            total == keys@.len(),
            keys@.no_duplicates(),
            forall|i: int| 0 <= i < keys@.len() ==> start.dom().contains(#[trigger] keys@[i]),
            chunks@.len() == chunk_count(keys@.len() as int, chunk_size as int),
            forall|d: int|
                0 <= d < chunks@.len() ==> (#[trigger] chunks@[d])@ == chunk_of(
                    keys@,
                    chunk_size as int,
                    d,
                ),
            running(*world, *population),
            old(world).same_ground(world),
            population.order() == old(population).order(),
            population.free_keys == old(population).free_keys,
            awaited(*world, pending@),
            progressed(
                start,
                population@,
                keys@.take(chunk_edge(keys@.len() as int, chunk_size as int, c as int)),
                removed as nat,
                moved as nat,
            ),
            chunk_course(
                first,
                (*world, *population),
                keys@.take(chunk_edge(keys@.len() as int, chunk_size as int, c as int)),
                (Seq::empty(), pending@),
                Tally { removed, moved },
                history,
                turns,
            ),
            rules.removal_percent == 0 ==> removed == 0,
            rules.removal_percent == 100 ==> pending@.len() == 0 && forall|j: int|
                0 <= j < chunk_edge(keys@.len() as int, chunk_size as int, c as int)
                    ==> population@[#[trigger] keys@[j]].to_remove,
            rules.spawn_percent == 0 ==> pending@.len() == 0,
        decreases chunks@.len() - c,
    {
        let ghost before = population@;
        let ghost state = (*world, *population);
        let ghost listed = pending@;
        let ghost lo = chunk_edge(keys@.len() as int, chunk_size as int, c as int);
        let ghost hi = chunk_edge(keys@.len() as int, chunk_size as int, c + 1);
        let chunk = &chunks[c];
        proof {
            lemma_chunk_edges(keys@.len() as int, chunk_size as int, c as int);
            assert(chunk@ == keys@.subrange(lo, hi));
            assert(chunk@.len() == hi - lo);
            assert forall|i: int| 0 <= i < chunk@.len() implies before.dom().contains(
                #[trigger] chunk@[i],
            ) by {
                assert(chunk@[i] == keys@[lo + i]);
            }
        }
        let tally = run_chunk(world, population, chunk, rules, rng, &mut pending);
        proof {
            let done = keys@.take(lo);
            let next = (*world, *population);
            assert forall|k: usize| done.contains(k) implies !chunk@.contains(k) by {
                let i = choose|i: int| 0 <= i < done.len() && done[i] == k;
                if chunk@.contains(k) {
                    let j = choose|j: int| 0 <= j < chunk@.len() && chunk@[j] == k;
                    assert(keys@[i] == keys@[lo + j]);
                }
            }
            lemma_progress_chains(
                start,
                before,
                population@,
                done,
                chunk@,
                (removed as nat, tally.removed as nat),
                (moved as nat, tally.moved as nat),
            );
            assert(done + chunk@ =~= keys@.take(hi));
            if rules.removal_percent == 100 {
                assert forall|j: int| 0 <= j < hi implies population@[#[trigger] keys@[j]].to_remove by {
                    if j < lo {
                        assert(before.dom().contains(keys@[j]));
                        assert(turn_of(before[keys@[j]], population@[keys@[j]]));
                    } else {
                        assert(chunk@[j - lo] == keys@[j]);
                    }
                }
            }
            let (more, told) = choose|more: Seq<(World, Population)>, told: Seq<Turn>|
                chunk_course(state, next, chunk@, (listed, pending@), tally, more, told);
            lemma_course_chains(
                (first, state, next),
                (done, chunk@),
                (history, more),
                (turns, told),
            );
            history = history + more.drop_first();
            turns = turns + told;
            assert(pending@ =~= Seq::<(usize, usize)>::empty() + spawns_of(turns, hi));
            lemma_turn_counts_bounded(turns, hi);
        }
        removed += tally.removed;
        moved += tally.moved;
        c += 1;
    }
    proof {
        lemma_chunk_edges(keys@.len() as int, chunk_size as int, c as int);
        assert(keys@.take(keys@.len() as int) =~= keys@);
    }
    (pending, Tally { removed, moved }, chunks.len())
}

/// Advances the simulation by one tick. The handles are dealt out in chunks
/// of `chunk_size` and the chunks take their turns one after the other;
/// then the dead are dropped and the newborn are placed.
#[verifier::rlimit(40)]
pub fn advance(
    world: &mut World,
    population: &mut Population,
    chunk_size: usize,
    rules: &Rules,
    rng: &mut StdRng,
) -> (stats: TickStats)
    requires
        settled(*old(world), *old(population)),
        chunk_size > 0,
        rules.wf(),
    ensures
        advanced(
            (*old(world), *old(population)),
            (*final(world), *final(population)),
            stats,
            chunk_size,
            *rules,
        ),
{
    let keys = population.handles();
    let ghost was = (*world, *population);
    let ghost start = population@;
    proof {
        lemma_consistent_iff_settled(world@, population@);
        old(population).lemma_len_counts_creatures();
        assert forall|i: int| 0 <= i < keys@.len() implies start.dom().contains(
            #[trigger] keys@[i],
        ) by {
            assert(keys@.contains(keys@[i]));
        }
    }
    let (pending, tally, chunks) = run_turns(world, population, &keys, chunk_size, rules, rng);
    let ghost middle = (*world, *population);
    let ghost mid = population@;
    let ghost gone = marked_handles(mid);
    let ghost listed = pending@;
    population.remove_marked();
    let ghost thinned = *population;
    proof {
        let a = world@;
        let c1 = population@;
        assert forall|k: usize| #[trigger] c1.dom().contains(k) implies creature_placed(a, c1, k) by {
            assert(mid.dom().contains(k));
            assert(creature_placed(a, mid, k));
        }
        assert forall|cell: (usize, usize)| #[trigger]
            a.dom().contains(cell) implies area_claimed(a, c1, cell) by {
            assert(area_claimed(a, mid, cell));
        }
    }
    let spawned = place_spawned(world, population, pending);
    let stats = TickStats { chunks, removed: tally.removed, spawned, moved: tally.moved };
    proof {
        let is = (*world, *population);
        lemma_tick_sums_up(was, middle, thinned, is, stats, keys@, listed);
        let (history, turns) = choose|history: Seq<(World, Population)>, turns: Seq<Turn>|
            chunk_course(was, middle, keys@, (Seq::empty(), listed), tally, history, turns);
        assert(spawns_of(turns, keys@.len() as int) =~= listed);
        assert(tick_course(was, is, stats, history, turns, thinned));
        if rules.removal_percent == 100 {
            assert(gone =~= start.dom()) by {
                assert forall|k: usize| mid.dom().contains(k) implies gone.contains(k) by {
                    assert(keys@.contains(k));
                    let j = choose|j: int| 0 <= j < keys@.len() && keys@[j] == k;
                    assert(mid[keys@[j]].to_remove);
                }
            }
            assert(is.1@.dom() =~= Set::empty());
            assert(moved_handles(start, mid) =~= Set::empty()) by {
                assert forall|k: usize| !moved_handles(start, mid).contains(k) by {
                    if start.dom().contains(k) {
                        assert(turn_of(start[k], mid[k]));
                        assert(gone.contains(k));
                    }
                }
            }
        }
    }
    stats
}

/// From what the three phases of a tick ensure: the state after is settled,
/// and the population and its handles have changed as `tick_result` says
/// for the set of those who were dead in the middle state.
pub proof fn lemma_tick_sums_up(
    before: (World, Population),
    middle: (World, Population),
    thinned: Population,
    after: (World, Population),
    stats: TickStats,
    keys: Seq<usize>,
    listed: Seq<(usize, usize)>,
)
    requires
        settled(before.0, before.1),
        keys == before.1.order(),
        running(middle.0, middle.1),
        before.0.same_ground(&middle.0),
        middle.1.order() == before.1.order(),
        middle.1.free_keys == before.1.free_keys,
        progressed(before.1@, middle.1@, keys, stats.removed as nat, stats.moved as nat),
        dropped_dead(middle.1, thinned),
        running(middle.0, thinned),
        placed_newborn((middle.0, thinned), after, listed),
        stats.spawned == listed.len(),
    ensures
        settled(after.0, after.1),
        before.0.same_ground(&after.0),
        tick_result(before, after, stats, marked_handles(middle.1@)),
{
    let start = before.1@;
    let mid = middle.1@;
    let end = after.1@;
    let gone = marked_handles(mid);
    let order = before.1.order();
    lemma_consistent_iff_settled(before.0@, start);
    lemma_consistent_iff_settled(after.0@, end);
    before.1.lemma_len_counts_creatures();
    middle.1.lemma_len_counts_creatures();
    thinned.lemma_len_counts_creatures();
    after.1.lemma_len_counts_creatures();
    lemma_tallies_bounded(start, mid);
    assert(marked_handles(start) =~= Set::empty());
    assert(marked_handles(thinned@) =~= Set::empty());
    lemma_filter_members(order, marked_in(mid));
    lemma_filter_members(order, live_in(mid));
    lemma_filter_split(order, live_in(mid), marked_in(mid));
    assert forall|k: usize| order.filter(marked_in(mid)).contains(k) <==> gone.contains(k) by {
        assert(order.contains(k) <==> mid.dom().contains(k));
    }
    lemma_distinct_len(order.filter(marked_in(mid)), gone);
    assert forall|i: int| 0 <= i < order.len() implies marked_in(mid)(#[trigger] order[i])
        == among(gone)(order[i]) && live_in(mid)(order[i]) == apart_from(gone)(order[i]) by {
        assert(order.contains(order[i]));
        assert(mid.dom().contains(order[i]));
    }
    assert forall|k: usize| #[trigger]
        start.dom().contains(k) && !gone.contains(k) implies end.dom().contains(k) && turn_of(
        start[k],
        end[k],
    ) && !end[k].to_remove by {
        assert(mid.dom().contains(k));
        assert(thinned@.dom().contains(k));
    }
    assert forall|k: usize| #[trigger]
        end.dom().contains(k) && (!start.dom().contains(k) || gone.contains(k)) implies newborn(
        end[k],
    ) by {
        assert(!thinned@.dom().contains(k));
    }
    assert forall|k: usize|
        survivors_moved(start, end, gone).contains(k) <==> moved_handles(start, mid).contains(
            k,
        ) by {
        if start.dom().contains(k) {
            assert(mid.dom().contains(k));
            assert(turn_of(start[k], mid[k]));
            if !gone.contains(k) {
                assert(thinned@.dom().contains(k));
            }
        }
    }
    assert(survivors_moved(start, end, gone) =~= moved_handles(start, mid));
    assert(tick_outcome(start, end, stats, gone));
    lemma_filter_agree(order, marked_in(mid), among(gone));
    lemma_filter_agree(order, live_in(mid), apart_from(gone));
    assert(tick_handles(before.1, after.1, stats, gone));
}

/// Whether a tick may run: the state is settled and the handles fit the
/// machine.
pub open spec fn tick_ready(world: World, population: Population) -> bool {
    settled(world, population) && population.span() <= usize::MAX
}

/// Tells whether a tick may run on this state.
pub fn ready(world: &World, population: &Population) -> (ok: bool)
    ensures
        ok == tick_ready(*world, *population),
{
    world.well_formed() && population.well_formed() && validate(world, population).is_ok()
}

/// Advances the simulation by one tick if a tick may run; otherwise reports
/// `InvariantBroken` and changes nothing.
pub fn try_advance(
    world: &mut World,
    population: &mut Population,
    chunk_size: usize,
    rules: &Rules,
    rng: &mut StdRng,
) -> (outcome: Result<TickStats, SimError>)
    ensures
        match outcome {
            Ok(stats) => {
                &&& tick_ready(*old(world), *old(population))
                &&& chunk_size > 0
                &&& rules.wf()
                &&& advanced(
                    (*old(world), *old(population)),
                    (*final(world), *final(population)),
                    stats,
                    chunk_size,
                    *rules,
                )
            },
            Err(e) => {
                &&& e == SimError::InvariantBroken
                &&& !(tick_ready(*old(world), *old(population)) && chunk_size > 0 && rules.wf())
                &&& *final(world) == *old(world)
                &&& *final(population) == *old(population)
            },
        },
{
    if chunk_size == 0 || rules.removal_percent > 100 || rules.spawn_percent > 100 {
        return Err(SimError::InvariantBroken);
    }
    if !ready(world, population) {
        return Err(SimError::InvariantBroken);
    }
    Ok(advance(world, population, chunk_size, rules, rng))
}

} // verus!
