//! Facts about sequences that the rest of the crate leans on.

use vstd::prelude::*;
use vstd::seq_lib::{seq_to_set_is_finite, to_multiset_contains, to_multiset_len};

verus! {

/// Filtering a sequence without repeats leaves a sequence without repeats
/// that holds exactly the members passing the test.
pub proof fn lemma_filter_members<A>(s: Seq<A>, p: spec_fn(A) -> bool)
    requires
        s.no_duplicates(),
    ensures
        s.filter(p).no_duplicates(),
        forall|x: A| s.filter(p).contains(x) <==> s.contains(x) && p(x),
    decreases s.len(),
{
    let f = s.filter(p);
    assert forall|x: A| f.contains(x) <==> s.contains(x) && p(x) by {
        if f.contains(x) {
            s.lemma_filter_contains_rev(p, x);
            let i = choose|i: int| 0 <= i < f.len() && f[i] == x;
            s.lemma_filter_pred(p, i);
        }
        if s.contains(x) && p(x) {
            let j = choose|j: int| 0 <= j < s.len() && s[j] == x;
            s.lemma_filter_contains(p, j);
        }
    }
    if s.len() > 0 {
        let rest = s.drop_last();
        let last = s.last();
        lemma_filter_members(rest, p);
        assert(s =~= rest.push(last));
        rest.lemma_filter_push(last, p);
        let g = rest.filter(p);
        assert forall|i: int, j: int| 0 <= i < f.len() && 0 <= j < f.len() && i != j implies f[i]
            != f[j] by {
            if p(last) && (i == f.len() - 1 || j == f.len() - 1) {
                let other = if i == f.len() - 1 { j } else { i };
                assert(g.contains(g[other]));
                rest.lemma_filter_contains_rev(p, g[other]);
                let k = choose|k: int| 0 <= k < rest.len() && rest[k] == g[other];
                assert(s[k] != s[s.len() - 1]);
            } else {
                assert(g[i] != g[j]);
            }
        }
    }
}

/// Two tests that agree on the members of a sequence pick the same members.
pub proof fn lemma_filter_agree<A>(s: Seq<A>, p: spec_fn(A) -> bool, q: spec_fn(A) -> bool)
    requires
        forall|i: int| 0 <= i < s.len() ==> p(#[trigger] s[i]) == q(s[i]),
    ensures
        s.filter(p) == s.filter(q),
    decreases s.len(),
{
    reveal(Seq::filter);
    if s.len() > 0 {
        let rest = s.drop_last();
        assert forall|i: int| 0 <= i < rest.len() implies p(#[trigger] rest[i]) == q(rest[i]) by {
            assert(rest[i] == s[i]);
        }
        lemma_filter_agree(rest, p, q);
        assert(s =~= rest.push(s.last()));
        rest.lemma_filter_push(s.last(), p);
        rest.lemma_filter_push(s.last(), q);
    }
}

/// A test that every member passes picks the whole sequence, and one that
/// none passes picks nothing.
pub proof fn lemma_filter_all_or_none<A>(s: Seq<A>, p: spec_fn(A) -> bool)
    ensures
        (forall|i: int| 0 <= i < s.len() ==> p(#[trigger] s[i])) ==> s.filter(p) == s,
        (forall|i: int| 0 <= i < s.len() ==> !p(#[trigger] s[i])) ==> s.filter(p).len() == 0,
    decreases s.len(),
{
    reveal(Seq::filter);
    if s.len() > 0 {
        let rest = s.drop_last();
        lemma_filter_all_or_none(rest, p);
        assert(s =~= rest.push(s.last()));
        rest.lemma_filter_push(s.last(), p);
        if forall|i: int| 0 <= i < s.len() ==> p(#[trigger] s[i]) {
            assert forall|i: int| 0 <= i < rest.len() implies p(#[trigger] rest[i]) by {
                assert(rest[i] == s[i]);
            }
            assert(p(s[s.len() - 1]));
        }
        if forall|i: int| 0 <= i < s.len() ==> !p(#[trigger] s[i]) {
            assert forall|i: int| 0 <= i < rest.len() implies !p(#[trigger] rest[i]) by {
                assert(rest[i] == s[i]);
            }
            assert(!p(s[s.len() - 1]));
        }
    }
}

/// Two tests that split the members of a sequence also split its length.
pub proof fn lemma_filter_split<A>(s: Seq<A>, p: spec_fn(A) -> bool, q: spec_fn(A) -> bool)
    requires
        forall|i: int| 0 <= i < s.len() ==> (p(#[trigger] s[i]) <==> !q(s[i])),
    ensures
        s.filter(p).len() + s.filter(q).len() == s.len(),
    decreases s.len(),
{
    reveal(Seq::filter);
    if s.len() > 0 {
        let rest = s.drop_last();
        let last = s.last();
        lemma_filter_split(rest, p, q);
    }
}

/// A sequence without repeats has as many members as its set.
pub proof fn lemma_distinct_len<A>(s: Seq<A>, members: Set<A>)
    requires
        s.no_duplicates(),
        forall|x: A| s.contains(x) <==> members.contains(x),
    ensures
        members.finite(),
        members.len() == s.len(),
{
    broadcast use seq_to_set_is_finite;

    s.unique_seq_to_set();
    assert(s.to_set() =~= members);
}

/// Appending a new member keeps a sequence without repeats in step with the
/// set of its members.
pub proof fn lemma_push_fresh<A>(s: Seq<A>, members: Set<A>, x: A)
    requires
        s.no_duplicates(),
        forall|y: A| s.contains(y) <==> members.contains(y),
        !members.contains(x),
    ensures
        s.push(x).no_duplicates(),
        forall|y: A| s.push(x).contains(y) <==> members.insert(x).contains(y),
{
    let p = s.push(x);
    assert forall|y: A| p.contains(y) <==> members.insert(x).contains(y) by {
        if p.contains(y) {
            let i = choose|i: int| 0 <= i < p.len() && p[i] == y;
            if i < s.len() {
                assert(s[i] == y);
                assert(s.contains(y));
            }
        }
        if members.insert(x).contains(y) {
            if y == x {
                assert(p[s.len() as int] == y);
            } else {
                assert(s.contains(y));
                let i = choose|i: int| 0 <= i < s.len() && s[i] == y;
                assert(p[i] == y);
            }
        }
    }
}

/// Two sequences with the same members counted the same way have the same
/// length and the same members, and repeat a member together or not at all.
pub proof fn lemma_same_members<A>(a: Seq<A>, b: Seq<A>)
    requires
        a.to_multiset() == b.to_multiset(),
    ensures
        a.len() == b.len(),
        forall|x: A| a.contains(x) <==> b.contains(x),
        a.no_duplicates() <==> b.no_duplicates(),
{
    to_multiset_len(a);
    to_multiset_len(b);
    assert forall|x: A| a.contains(x) <==> b.contains(x) by {
        to_multiset_contains(a, x);
        to_multiset_contains(b, x);
    }
    if a.no_duplicates() {
        a.lemma_multiset_has_no_duplicates();
        b.lemma_multiset_has_no_duplicates_conv();
    }
    if b.no_duplicates() {
        b.lemma_multiset_has_no_duplicates();
        a.lemma_multiset_has_no_duplicates_conv();
    }
}

} // verus!
