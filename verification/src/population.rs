use crate::creature::Creature;
use crate::error::SimError;
use crate::seqs::{
    lemma_distinct_len, lemma_filter_members, lemma_filter_split, lemma_push_fresh,
};
use crate::store::{
    creature_entries, creature_order, creatures_empty, creatures_get, creatures_insert,
    creatures_keys, creatures_len, creatures_retain_live, live_in, marked_handles, marked_in,
    TCreatures,
};
use vstd::pervasive::unreached;
use vstd::prelude::*;

verus! {

/// The creatures by handle, and the handles given up by the dead that the
/// next newborn may take.
pub struct Population {
    pub creatures: TCreatures,
    pub free_keys: Vec<usize>,
}

impl View for Population {
    type V = Map<usize, Creature>;

    /// The creatures of the population by handle.
    open spec fn view(&self) -> Map<usize, Creature> {
        creature_entries(self.creatures)
    }
}

impl Population {
    /// The handles in the order the population walks them.
    pub open spec fn order(&self) -> Seq<usize> {
        creature_order(self.creatures)
    }

    /// The handles walked are the handles held, each once.
    pub open spec fn indexed(&self) -> bool {
        &&& self.order().no_duplicates()
        &&& forall|k: usize| #[trigger] self.order().contains(k) <==> self@.dom().contains(k)
    }

    /// One more than the largest handle ever given out.
    pub open spec fn span(&self) -> nat {
        self.order().len() + self.free_keys@.len()
    }

    /// A well-formed population has given out the handles below `span()` and
    /// no others; each of them either names a creature or waits in
    /// `free_keys`, once. A fresh handle can then always be found.
    pub open spec fn wf(&self) -> bool {
        &&& self.indexed()
        &&& self.free_keys@.no_duplicates()
        &&& forall|k: usize| #[trigger] self@.dom().contains(k) ==> k < self.span()
        &&& forall|i: int|
            0 <= i < self.free_keys@.len() ==> (#[trigger] self.free_keys@[i]) < self.span()
                && !self@.dom().contains(self.free_keys@[i])
        &&& forall|k: usize|
            k < self.span() && !(#[trigger] self@.dom().contains(k)) ==> self.free_keys@.contains(k)
    }

    /// In a population that walks what it holds, the number of handles walked
    /// is the number of creatures.
    pub proof fn lemma_len_counts_creatures(&self)
        requires
            self.indexed(),
        ensures
            self@.dom().finite(),
            self@.dom().len() == self.order().len(),
    {
        lemma_distinct_len(self.order(), self@.dom());
    }

    /// A population without creatures and with no handle to reuse.
    pub fn empty() -> (population: Population)
        ensures
            population@.dom().is_empty(),
            population.order().len() == 0,
            population.free_keys@.len() == 0,
    {
        Population::new(creatures_empty())
    }

    /// A population around the given creatures, with no handle to reuse.
    pub fn new(creatures: TCreatures) -> (population: Population)
        ensures
            population.creatures == creatures,
            population.free_keys@.len() == 0,
    {
        Population { creatures, free_keys: Vec::new() }
    }

    /// The number of creatures.
    pub fn len(&self) -> (n: usize)
        ensures
            n == self.order().len(),
            self.indexed() ==> self@.dom().finite() && n == self@.dom().len(),
    {
        proof {
            if self.indexed() {
                self.lemma_len_counts_creatures();
            }
        }
        creatures_len(&self.creatures)
    }

    /// The creature named by `handle`, or `UnknownHandle`.
    pub fn get(&self, handle: usize) -> (found: Result<Creature, SimError>)
        ensures
            match found {
                Ok(creature) => self@.dom().contains(handle) && creature == self@[handle],
                Err(e) => e == SimError::UnknownHandle && !self@.dom().contains(handle),
            },
    {
        match creatures_get(&self.creatures, handle) {
            Some(creature) => Ok(creature),
            None => Err(SimError::UnknownHandle),
        }
    }

    /// Stores `creature` under the unused `handle`, last in the order, or
    /// reports `DuplicateHandle` and changes nothing.
    pub fn insert(&mut self, handle: usize, creature: Creature) -> (done: Result<(), SimError>)
        ensures
            final(self).free_keys == old(self).free_keys,
            match done {
                Ok(_) => {
                    &&& !old(self)@.dom().contains(handle)
                    &&& final(self)@ == old(self)@.insert(handle, creature)
                    &&& final(self).order() == old(self).order().push(handle)
                },
                Err(e) => {
                    &&& e == SimError::DuplicateHandle
                    &&& old(self)@.dom().contains(handle)
                    &&& *final(self) == *old(self)
                },
            },
            old(self).indexed() ==> final(self).indexed(),
    {
        match creatures_get(&self.creatures, handle) {
            Some(_) => Err(SimError::DuplicateHandle),
            None => {
                creatures_insert(&mut self.creatures, handle, creature);
                proof {
                    if old(self).indexed() {
                        Self::lemma_push_keeps_index(*old(self), handle, *self);
                    }
                }
                Ok(())
            },
        }
    }

    /// Appending an unused handle keeps the order in step with the creatures.
    proof fn lemma_push_keeps_index(before: Population, handle: usize, after: Population)
        requires
            before.indexed(),
            !before@.dom().contains(handle),
            after@.dom() == before@.dom().insert(handle),
            after.order() == before.order().push(handle),
        ensures
            after.indexed(),
    {
        lemma_push_fresh(before.order(), before@.dom(), handle);
    }

    /// Every handle, in the order the population walks them.
    pub fn handles(&self) -> (all: Vec<usize>)
        ensures
            all@ == self.order(),
            all@.no_duplicates(),
            forall|k: usize| all@.contains(k) <==> self@.dom().contains(k),
    {
        creatures_keys(&self.creatures)
    }

    /// Whether the population is well-formed and its handles fit the
    /// machine: ticks off the handles waiting for reuse, then looks for
    /// every handle below `span()` among the creatures or the ticks.
    #[verifier::loop_isolation(false)]
    pub fn well_formed(&self) -> (ok: bool)
        ensures
            ok == (self.wf() && self.span() <= usize::MAX),
    {
        let handles = self.handles();
        let span = match handles.len().checked_add(self.free_keys.len()) {
            Some(span) => span,
            None => {
                return false;
            },
        };
        let mut ticks: Vec<bool> = Vec::new();
        while ticks.len() < span
            invariant
                ticks@.len() <= span,
                forall|k: int| 0 <= k < ticks@.len() ==> !ticks@[k],
            decreases span - ticks@.len(),
        {
            ticks.push(false);
        }
        let mut i: usize = 0;
        while i < self.free_keys.len()
            invariant
                i <= self.free_keys@.len(),
                span == self.span(),
                ticks@.len() == span,
                forall|k: int|
                    0 <= k < span ==> (#[trigger] ticks@[k] <==> self.free_keys@.take(
                        i as int,
                    ).contains(k as usize)),
                self.free_keys@.take(i as int).no_duplicates(),
                forall|j: int|
                    0 <= j < i ==> (#[trigger] self.free_keys@[j]) < span && !self@.dom().contains(
                        self.free_keys@[j],
                    ),
            decreases self.free_keys@.len() - i,
        {
            let freed = self.free_keys[i];
            let ghost seen = self.free_keys@.take(i as int);
            let ghost more = self.free_keys@.take(i + 1);
            if freed >= span {
                return false;
            }
            if ticks[freed] {
                proof {
                    let j = choose|j: int| 0 <= j < seen.len() && seen[j] == freed;
                    assert(self.free_keys@[j] == self.free_keys@[i as int]);
                }
                return false;
            }
            if creatures_get(&self.creatures, freed).is_some() {
                return false;
            }
            ticks.set(freed, true);
            proof {
                assert forall|k: int| 0 <= k < span implies (#[trigger] ticks@[k] <==> more.contains(
                    k as usize,
                )) by {
                    if more.contains(k as usize) {
                        let j = choose|j: int| 0 <= j < more.len() && more[j] == k as usize;
                        if j < i {
                            assert(seen[j] == k as usize);
                        }
                    }
                    if seen.contains(k as usize) {
                        let j = choose|j: int| 0 <= j < seen.len() && seen[j] == k as usize;
                        assert(more[j] == k as usize);
                    }
                    if k == freed {
                        assert(more[i as int] == freed);
                    }
                }
            }
            i += 1;
        }
        assert(self.free_keys@.take(self.free_keys@.len() as int) =~= self.free_keys@);
        let mut j: usize = 0;
        while j < handles.len()
            invariant
                j <= handles.len(),
                forall|k: usize| handles@.contains(k) <==> self@.dom().contains(k),
                forall|n: int| 0 <= n < j ==> (#[trigger] handles@[n]) < span,
            decreases handles.len() - j,
        {
            if handles[j] >= span {
                assert(handles@.contains(handles@[j as int]));
                return false;
            }
            j += 1;
        }
        let mut k: usize = 0;
        while k < span
            invariant
                k <= span,
                ticks@.len() == span,
                forall|n: int|
                    0 <= n < span ==> (#[trigger] ticks@[n] <==> self.free_keys@.contains(n as usize)),
                forall|n: usize|
                    n < k && !(#[trigger] self@.dom().contains(n)) ==> self.free_keys@.contains(n),
            decreases span - k,
        {
            if !ticks[k] && creatures_get(&self.creatures, k).is_none() {
                assert(k < self.span() && !self@.dom().contains(k));
                return false;
            }
            k += 1;
        }
        assert forall|n: usize| #[trigger] self@.dom().contains(n) implies n < self.span() by {
            assert(handles@.contains(n));
            let m = choose|m: int| 0 <= m < handles@.len() && handles@[m] == n;
            assert(handles@[m] < span);
        }
        true
    }

    /// The creature under a handle the population is known to hold.
    pub(crate) fn record(&self, handle: usize) -> (creature: Creature)
        requires
            self@.dom().contains(handle),
        ensures
            creature == self@[handle],
    {
        match creatures_get(&self.creatures, handle) {
            Some(creature) => creature,
            None => unreached(),
        }
    }

    /// Replaces the creature under a handle the population is known to hold.
    pub(crate) fn update(&mut self, handle: usize, creature: Creature)
        requires
            old(self)@.dom().contains(handle),
        ensures
            final(self)@ == old(self)@.insert(handle, creature),
            final(self)@.dom() == old(self)@.dom(),
            final(self).order() == old(self).order(),
            final(self).free_keys == old(self).free_keys,
            old(self).indexed() ==> final(self).indexed(),
            old(self).wf() ==> final(self).wf(),
    {
        creatures_insert(&mut self.creatures, handle, creature);
    }

    /// Takes `creature` in under a fresh handle: the handle most recently
    /// given up if there is one, else the next never used.
    pub fn adopt(&mut self, creature: Creature) -> (handle: usize)
        requires
            old(self).wf(),
        ensures
            final(self).wf(),
            !old(self)@.dom().contains(handle),
            handle == if old(self).free_keys@.len() > 0 {
                old(self).free_keys@.last()
            } else {
                old(self).order().len() as usize
            },
            final(self)@ == old(self)@.insert(handle, creature),
            final(self).order() == old(self).order().push(handle),
            final(self).free_keys@ == if old(self).free_keys@.len() > 0 {
                old(self).free_keys@.drop_last()
            } else {
                old(self).free_keys@
            },
    {
        let handle = match self.free_keys.pop() {
            Some(freed) => {
                freed
            },
            None => creatures_len(&self.creatures),
        };
        assert(!old(self)@.dom().contains(handle));
        creatures_insert(&mut self.creatures, handle, creature);
        proof {
            Self::lemma_push_keeps_index(*old(self), handle, *self);
            let free = old(self).free_keys@;
            let left = self.free_keys@;
            assert forall|k: usize|
                k < self.span() && !(#[trigger] self@.dom().contains(k)) implies left.contains(
                k,
            ) by {
                assert(!old(self)@.dom().contains(k));
                assert(free.contains(k));
                let i = choose|i: int| 0 <= i < free.len() && free[i] == k;
                assert(left[i] == k);
            }
        }
        handle
    }

    /// Drops the creatures that have died and puts their handles, in the
    /// order the population walked them, at the end of `free_keys`. Returns
    /// those handles.
    pub fn remove_marked(&mut self) -> (freed: Vec<usize>)
        requires
            old(self).wf(),
        ensures
            final(self).wf(),
            final(self)@ == old(self)@.remove_keys(marked_handles(old(self)@)),
            final(self).order() == old(self).order().filter(live_in(old(self)@)),
            freed@ == old(self).order().filter(marked_in(old(self)@)),
            final(self).free_keys@ == old(self).free_keys@ + freed@,
            freed@.no_duplicates(),
            forall|k: usize| freed@.contains(k) <==> marked_handles(old(self)@).contains(k),
            marked_handles(old(self)@).finite(),
            freed@.len() == marked_handles(old(self)@).len(),
            final(self).order().len() + freed@.len() == old(self).order().len(),
    {
        let keys = creatures_keys(&self.creatures);
        let mut freed: Vec<usize> = Vec::new();
        let ghost before = self@;
        let ghost dead = marked_in(before);
        let mut i: usize = 0;
        while i < keys.len()
            invariant
                i <= keys.len(),
                keys@ == old(self).order(),
                self.creatures == old(self).creatures,
                before == old(self)@,
                dead == marked_in(before),
                old(self).wf(),
                freed@ == keys@.take(i as int).filter(dead),
                self.free_keys@ == old(self).free_keys@ + freed@,
            decreases keys.len() - i,
        {
            let handle = keys[i];
            assert(keys@.contains(handle));
            let creature = self.record(handle);
            proof {
                assert(keys@.take(i + 1) =~= keys@.take(i as int).push(handle));
                keys@.take(i as int).lemma_filter_push(handle, dead);
            }
            if creature.to_remove {
                freed.push(handle);
                self.free_keys.push(handle);
            }
            i += 1;
        }
        assert(keys@.take(keys.len() as int) =~= keys@);
        creatures_retain_live(&mut self.creatures);
        proof {
            let order = old(self).order();
            let live = live_in(before);
            lemma_filter_members(order, dead);
            lemma_filter_members(order, live);
            lemma_filter_split(order, live, dead);
            assert forall|k: usize| freed@.contains(k) <==> marked_handles(before).contains(k) by {
                assert(order.contains(k) <==> before.dom().contains(k));
            }
            lemma_distinct_len(freed@, marked_handles(before));
            let free = old(self).free_keys@;
            let all = self.free_keys@;
            assert forall|k: usize| #[trigger]
                self.order().contains(k) <==> self@.dom().contains(k) by {
                assert(order.contains(k) <==> before.dom().contains(k));
            }
            assert forall|i: int, j: int| 0 <= i < all.len() && 0 <= j < all.len() && i
                != j implies all[i] != all[j] by {
                if i < free.len() && j >= free.len() {
                    assert(freed@.contains(freed@[j - free.len()]));
                } else if j < free.len() && i >= free.len() {
                    assert(freed@.contains(freed@[i - free.len()]));
                } else if i >= free.len() {
                    assert(freed@[i - free.len()] != freed@[j - free.len()]);
                }
            }
            assert forall|i: int| 0 <= i < all.len() implies (#[trigger] all[i]) < self.span()
                && !self@.dom().contains(all[i]) by {
                if i >= free.len() {
                    assert(freed@.contains(freed@[i - free.len()]));
                } else {
                    assert(all[i] == free[i]);
                }
            }
            assert forall|k: usize|
                k < self.span() && !(#[trigger] self@.dom().contains(
                    k,
                )) implies all.contains(k) by {
                if before.dom().contains(k) {
                    assert(freed@.contains(k));
                    let j = choose|j: int| 0 <= j < freed@.len() && freed@[j] == k;
                    assert(all[free.len() + j] == k);
                } else {
                    assert(free.contains(k));
                    let j = choose|j: int| 0 <= j < free.len() && free[j] == k;
                    assert(all[j] == k);
                }
            }
        }
        freed
    }
}

} // verus!
