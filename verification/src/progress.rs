//! How the population changes while the creatures take their turns, stated
//! as a relation between the population before and after a run of turns.

use crate::behavior::{took_turn, turn_of, Turn};
use crate::creature::Creature;
use crate::population::Population;
use crate::store::marked_handles;
use crate::world::World;
use vstd::prelude::*;
use vstd::set_lib::{lemma_len_subset, lemma_set_disjoint_lens};

verus! {

/// The handles whose creature stands elsewhere in `now` than in `start`.
pub open spec fn moved_handles(
    start: Map<usize, Creature>,
    now: Map<usize, Creature>,
) -> Set<usize> {
    Set::new(|k: usize| start.dom().contains(k) && now[k].key_area != start[k].key_area)
}

/// `now` is what `start` becomes when the creatures listed in `done`, and
/// no others, have each taken one turn, `removed` of them have died in it
/// and `moved` of them have stepped to another cell.
pub open spec fn progressed(
    start: Map<usize, Creature>,
    now: Map<usize, Creature>,
    done: Seq<usize>,
    removed: nat,
    moved: nat,
) -> bool {
    &&& start.dom().finite()
    &&& now.dom() == start.dom()
    &&& forall|k: usize| #[trigger] start.dom().contains(k) ==> turn_of(start[k], now[k])
    &&& forall|k: usize| #[trigger]
        start.dom().contains(k) && !done.contains(k) ==> now[k] == start[k]
    &&& marked_handles(now).len() == marked_handles(start).len() + removed
    &&& moved_handles(start, now).len() == moved
}

/// The dead and the moved are among the creatures, so there are finitely
/// many of each and no more than there are creatures.
pub proof fn lemma_tallies_bounded(start: Map<usize, Creature>, now: Map<usize, Creature>)
    requires
        start.dom().finite(),
        now.dom() == start.dom(),
    ensures
        marked_handles(now).finite(),
        moved_handles(start, now).finite(),
        marked_handles(now).len() <= start.dom().len(),
        moved_handles(start, now).len() <= start.dom().len(),
{
    lemma_len_subset(marked_handles(now), start.dom());
    lemma_len_subset(moved_handles(start, now), start.dom());
}

/// Before anybody has taken a turn nothing has changed.
pub proof fn lemma_progress_starts(start: Map<usize, Creature>)
    requires
        start.dom().finite(),
    ensures
        progressed(start, start, Seq::empty(), 0, 0),
{
    assert(moved_handles(start, start) =~= Set::empty());
}

/// One creature's turn is a run of one.
pub proof fn lemma_progress_of_one_turn(
    start: Map<usize, Creature>,
    now: Map<usize, Creature>,
    handle: usize,
)
    requires
        start.dom().finite(),
        start.dom().contains(handle),
        now == start.insert(handle, now[handle]),
        turn_of(start[handle], now[handle]),
    ensures
        progressed(
            start,
            now,
            seq![handle],
            if !start[handle].to_remove && now[handle].to_remove {
                1nat
            } else {
                0nat
            },
            if now[handle].key_area != start[handle].key_area {
                1nat
            } else {
                0nat
            },
        ),
{
    lemma_tallies_bounded(start, start);
    assert(now.dom() =~= start.dom());
    assert(seq![handle][0] == handle);
    if !start[handle].to_remove && now[handle].to_remove {
        assert(marked_handles(now) =~= marked_handles(start).insert(handle));
    } else {
        assert(marked_handles(now) =~= marked_handles(start));
    }
    if now[handle].key_area != start[handle].key_area {
        assert(moved_handles(start, now) =~= Set::<usize>::empty().insert(handle));
    } else {
        assert(moved_handles(start, now) =~= Set::<usize>::empty());
    }
}

/// Two runs of turns taken by different creatures make one run, and their
/// tallies add up.
pub proof fn lemma_progress_chains(
    start: Map<usize, Creature>,
    mid: Map<usize, Creature>,
    now: Map<usize, Creature>,
    first: Seq<usize>,
    second: Seq<usize>,
    removed: (nat, nat),
    moved: (nat, nat),
)
    requires
        progressed(start, mid, first, removed.0, moved.0),
        progressed(mid, now, second, removed.1, moved.1),
        forall|k: usize| first.contains(k) ==> !second.contains(k),
    ensures
        progressed(start, now, first + second, removed.0 + removed.1, moved.0 + moved.1),
{
    let both = first + second;
    assert forall|k: usize| both.contains(k) <==> first.contains(k) || second.contains(k) by {
        if both.contains(k) {
            let i = choose|i: int| 0 <= i < both.len() && both[i] == k;
            if i < first.len() {
                assert(first[i] == k);
            } else {
                assert(second[i - first.len()] == k);
            }
        }
        if first.contains(k) {
            let i = choose|i: int| 0 <= i < first.len() && first[i] == k;
            assert(both[i] == k);
        }
        if second.contains(k) {
            let i = choose|i: int| 0 <= i < second.len() && second[i] == k;
            assert(both[first.len() + i] == k);
        }
    }
    let early = moved_handles(start, mid);
    let late = moved_handles(mid, now);
    lemma_tallies_bounded(start, mid);
    lemma_tallies_bounded(mid, now);
    assert(moved_handles(start, now) =~= early + late);
    lemma_set_disjoint_lens(early, late);
}

/// The cells reported as held back by the first `upto` of the `turns`,
/// in the order they were reported.
pub open spec fn spawns_of(turns: Seq<Turn>, upto: int) -> Seq<(usize, usize)>
    decreases upto,
{
    if upto <= 0 {
        Seq::empty()
    } else {
        match turns[upto - 1].spawn {
            Some(at) => spawns_of(turns, upto - 1).push(at),
            None => spawns_of(turns, upto - 1),
        }
    }
}

/// How many of the first `upto` of the `turns` ended in death.
pub open spec fn deaths_in(turns: Seq<Turn>, upto: int) -> nat
    decreases upto,
{
    if upto <= 0 {
        0
    } else if turns[upto - 1].removed {
        deaths_in(turns, upto - 1) + 1
    } else {
        deaths_in(turns, upto - 1)
    }
}

/// How many of the first `upto` of the `turns` were a step to another cell.
pub open spec fn moves_in(turns: Seq<Turn>, upto: int) -> nat
    decreases upto,
{
    if upto <= 0 {
        0
    } else if turns[upto - 1].moved {
        moves_in(turns, upto - 1) + 1
    } else {
        moves_in(turns, upto - 1)
    }
}

/// `after` is reached from `before` by one turn of each of `handles`, in
/// that order: `history` lists the states passed through, from `before` to
/// `after`, and `turns` what each turn reported.
pub open spec fn ran_turns(
    before: (World, Population),
    after: (World, Population),
    handles: Seq<usize>,
    history: Seq<(World, Population)>,
    turns: Seq<Turn>,
) -> bool {
    &&& history.len() == handles.len() + 1
    &&& turns.len() == handles.len()
    &&& history[0] == before
    &&& history[handles.len() as int] == after
    &&& forall|i: int| 0 <= i < handles.len() ==> #[trigger] turn_at(history, handles, turns, i)
}

/// In a run through `history`, step `i` is a turn of `handles[i]` that
/// reported `turns[i]`.
pub open spec fn turn_at(
    history: Seq<(World, Population)>,
    handles: Seq<usize>,
    turns: Seq<Turn>,
    i: int,
) -> bool {
    took_turn(history[i], history[i + 1], handles[i], turns[i])
}

/// No more turns ended in death, and no more were a step, than were taken.
pub proof fn lemma_turn_counts_bounded(turns: Seq<Turn>, upto: int)
    requires
        0 <= upto,
    ensures
        deaths_in(turns, upto) <= upto,
        moves_in(turns, upto) <= upto,
    decreases upto,
{
    if upto > 0 {
        lemma_turn_counts_bounded(turns, upto - 1);
    }
}

/// What is read off the first `upto` turns does not depend on the turns
/// that follow.
pub proof fn lemma_turns_read_by_prefix(a: Seq<Turn>, b: Seq<Turn>, upto: int)
    requires
        upto <= a.len(),
        upto <= b.len(),
        forall|i: int| 0 <= i < upto ==> a[i] == b[i],
    ensures
        spawns_of(a, upto) == spawns_of(b, upto),
        deaths_in(a, upto) == deaths_in(b, upto),
        moves_in(a, upto) == moves_in(b, upto),
    decreases upto,
{
    if upto > 0 {
        lemma_turns_read_by_prefix(a, b, upto - 1);
    }
}

/// What is read off two runs of turns put together is what is read off
/// each, put together.
pub proof fn lemma_turns_read_in_parts(first: Seq<Turn>, second: Seq<Turn>, upto: int)
    requires
        0 <= upto <= second.len(),
    ensures
        spawns_of(first + second, first.len() + upto) == spawns_of(first, first.len() as int)
            + spawns_of(second, upto),
        deaths_in(first + second, first.len() + upto) == deaths_in(first, first.len() as int)
            + deaths_in(second, upto),
        moves_in(first + second, first.len() + upto) == moves_in(first, first.len() as int)
            + moves_in(second, upto),
    decreases upto,
{
    let both = first + second;
    if upto == 0 {
        lemma_turns_read_by_prefix(both, first, first.len() as int);
        assert(spawns_of(first, first.len() as int) + spawns_of(second, 0) =~= spawns_of(
            first,
            first.len() as int,
        ));
    } else {
        lemma_turns_read_in_parts(first, second, upto - 1);
        assert(both[first.len() + upto - 1] == second[upto - 1]);
        match second[upto - 1].spawn {
            Some(at) => {
                assert(spawns_of(first, first.len() as int) + spawns_of(second, upto - 1).push(at)
                    =~= (spawns_of(first, first.len() as int) + spawns_of(second, upto - 1)).push(
                    at,
                ));
            },
            None => {},
        }
    }
}

/// Two runs of turns, the second beginning where the first ends, make one
/// run.
pub proof fn lemma_runs_chain(
    before: (World, Population),
    mid: (World, Population),
    after: (World, Population),
    handles: (Seq<usize>, Seq<usize>),
    histories: (Seq<(World, Population)>, Seq<(World, Population)>),
    turns: (Seq<Turn>, Seq<Turn>),
)
    requires
        ran_turns(before, mid, handles.0, histories.0, turns.0),
        ran_turns(mid, after, handles.1, histories.1, turns.1),
    ensures
        ran_turns(
            before,
            after,
            handles.0 + handles.1,
            histories.0 + histories.1.drop_first(),
            turns.0 + turns.1,
        ),
{
    let all = handles.0 + handles.1;
    let history = histories.0 + histories.1.drop_first();
    let told = turns.0 + turns.1;
    let n = handles.0.len() as int;
    assert forall|i: int| 0 <= i < all.len() implies #[trigger] turn_at(history, all, told, i) by {
        if i < n {
            assert(turn_at(histories.0, handles.0, turns.0, i));
            assert(history[i] == histories.0[i]);
            if i + 1 <= n {
                assert(history[i + 1] == histories.0[i + 1]);
            }
        } else {
            assert(turn_at(histories.1, handles.1, turns.1, i - n));
            assert(history[i + 1] == histories.1[i - n + 1]);
            if i == n {
                assert(history[i] == histories.0[n]);
            } else {
                assert(history[i] == histories.1.drop_first()[i - n - 1]);
            }
        }
    }
}

/// Two runs of turns, the second beginning where the first ends, make one
/// run, and what is read off their turns adds up.
pub proof fn lemma_course_chains(
    states: ((World, Population), (World, Population), (World, Population)),
    handles: (Seq<usize>, Seq<usize>),
    histories: (Seq<(World, Population)>, Seq<(World, Population)>),
    turns: (Seq<Turn>, Seq<Turn>),
)
    requires
        ran_turns(states.0, states.1, handles.0, histories.0, turns.0),
        ran_turns(states.1, states.2, handles.1, histories.1, turns.1),
    ensures
        ran_turns(
            states.0,
            states.2,
            handles.0 + handles.1,
            histories.0 + histories.1.drop_first(),
            turns.0 + turns.1,
        ),
        spawns_of(turns.0 + turns.1, (handles.0 + handles.1).len() as int) == spawns_of(
            turns.0,
            handles.0.len() as int,
        ) + spawns_of(turns.1, handles.1.len() as int),
        deaths_in(turns.0 + turns.1, (handles.0 + handles.1).len() as int) == deaths_in(
            turns.0,
            handles.0.len() as int,
        ) + deaths_in(turns.1, handles.1.len() as int),
        moves_in(turns.0 + turns.1, (handles.0 + handles.1).len() as int) == moves_in(
            turns.0,
            handles.0.len() as int,
        ) + moves_in(turns.1, handles.1.len() as int),
{
    lemma_runs_chain(states.0, states.1, states.2, handles, histories, turns);
    lemma_turns_read_in_parts(turns.0, turns.1, turns.1.len() as int);
}

/// One turn is a run of one.
pub proof fn lemma_run_of_one(
    before: (World, Population),
    after: (World, Population),
    handle: usize,
    turn: Turn,
)
    requires
        took_turn(before, after, handle, turn),
    ensures
        ran_turns(before, after, seq![handle], seq![before, after], seq![turn]),
        spawns_of(seq![turn], 1) == match turn.spawn {
            Some(at) => seq![at],
            None => Seq::<(usize, usize)>::empty(),
        },
        deaths_in(seq![turn], 1) == if turn.removed {
            1nat
        } else {
            0nat
        },
        moves_in(seq![turn], 1) == if turn.moved {
            1nat
        } else {
            0nat
        },
{
    reveal_with_fuel(spawns_of, 2);
    reveal_with_fuel(deaths_in, 2);
    reveal_with_fuel(moves_in, 2);
    assert(turn_at(seq![before, after], seq![handle], seq![turn], 0));
    match turn.spawn {
        Some(at) => {
            assert(Seq::<(usize, usize)>::empty().push(at) =~= seq![at]);
        },
        None => {},
    }
}

} // verus!
