//! Geometry of the rectangular grid: which coordinates exist and which are
//! one step apart. Edges clip; nothing wraps around.

use vstd::arithmetic::div_mod::lemma_fundamental_div_mod_converse;
use vstd::prelude::*;

verus! {

/// Whether `at` lies in the `width` by `height` rectangle.
pub open spec fn in_bounds(width: usize, height: usize, at: (usize, usize)) -> bool {
    at.0 < width && at.1 < height
}

/// Whether `a` and `b` differ by exactly one step along exactly one axis.
pub open spec fn adjacent(a: (usize, usize), b: (usize, usize)) -> bool {
    ||| a.1 == b.1 && (a.0 + 1 == b.0 || b.0 + 1 == a.0)
    ||| a.0 == b.0 && (a.1 + 1 == b.1 || b.1 + 1 == a.1)
}

/// Whether `b` is `a` itself or one step away from it.
pub open spec fn one_step(a: (usize, usize), b: (usize, usize)) -> bool {
    a == b || adjacent(a, b)
}

/// The coordinates of the rectangle column by column: `(0, 0)`, `(0, 1)`,
/// .., `(0, height - 1)`, `(1, 0)`, and so on.
pub open spec fn grid_order(width: usize, height: usize) -> Seq<(usize, usize)> {
    Seq::new(
        (width * height) as nat,
        |i: int| ((i / height as int) as usize, (i % height as int) as usize),
    )
}

/// In column order the cell `(x, y)` comes at place `x * height + y`.
pub proof fn lemma_grid_order_place(width: usize, height: usize, at: (usize, usize))
    requires
        in_bounds(width, height, at),
    ensures
        0 <= at.0 * height + at.1 < width * height,
        grid_order(width, height)[at.0 * height + at.1] == at,
{
    let x = at.0 as int;
    let y = at.1 as int;
    let w = width as int;
    let h = height as int;
    assert(x * h + y < w * h && 0 <= x * h) by (nonlinear_arith)
        requires
            0 <= x < w,
            0 <= y < h,
    ;
    lemma_fundamental_div_mod_converse(x * h + y, h, x, y);
}

/// The neighbours of `at` inside the rectangle: west, east, north, south, in
/// that order, leaving out those that would fall off an edge.
pub open spec fn neighbors_of(width: usize, height: usize, at: (usize, usize)) -> Seq<
    (usize, usize),
> {
    let west = if at.0 > 0 {
        seq![((at.0 - 1) as usize, at.1)]
    } else {
        seq![]
    };
    let east = if at.0 + 1 < width {
        seq![((at.0 + 1) as usize, at.1)]
    } else {
        seq![]
    };
    let north = if at.1 > 0 {
        seq![(at.0, (at.1 - 1) as usize)]
    } else {
        seq![]
    };
    let south = if at.1 + 1 < height {
        seq![(at.0, (at.1 + 1) as usize)]
    } else {
        seq![]
    };
    west + east + north + south
}

/// The places a creature standing on `at` may end a move on: `at` itself,
/// then its neighbours.
pub open spec fn move_options_of(width: usize, height: usize, at: (usize, usize)) -> Seq<
    (usize, usize),
> {
    seq![at] + neighbors_of(width, height, at)
}

/// The neighbours of a cell are exactly the cells of the grid one step away
/// from it, each listed once.
pub proof fn lemma_neighbors_are_adjacent_cells(width: usize, height: usize, at: (usize, usize))
    requires
        in_bounds(width, height, at),
    ensures
        neighbors_of(width, height, at).no_duplicates(),
        forall|n: (usize, usize)|
            neighbors_of(width, height, at).contains(n) <==> in_bounds(width, height, n)
                && adjacent(at, n),
{
    let s = neighbors_of(width, height, at);
    assert forall|n: (usize, usize)| in_bounds(width, height, n) && adjacent(at, n) implies s.contains(
        n,
    ) by {
        if n.1 == at.1 && n.0 + 1 == at.0 {
            assert(s[0] == n);
        } else if n.1 == at.1 && at.0 + 1 == n.0 {
            let i = if at.0 > 0 { 1int } else { 0int };
            assert(s[i] == n);
        } else if n.0 == at.0 && n.1 + 1 == at.1 {
            let i = (if at.0 > 0 { 1int } else { 0int }) + (if at.0 + 1 < width { 1int } else { 0int });
            assert(s[i] == n);
        } else {
            let i = (if at.0 > 0 { 1int } else { 0int }) + (if at.0 + 1 < width { 1int } else { 0int })
                + (if at.1 > 0 { 1int } else { 0int });
            assert(s[i] == n);
        }
    }
}

/// A move never leaves the grid and never goes further than one step.
pub proof fn lemma_move_options_stay_close(width: usize, height: usize, at: (usize, usize))
    requires
        in_bounds(width, height, at),
    ensures
        move_options_of(width, height, at).no_duplicates(),
        forall|n: (usize, usize)|
            move_options_of(width, height, at).contains(n) <==> in_bounds(width, height, n)
                && one_step(at, n),
{
    lemma_neighbors_are_adjacent_cells(width, height, at);
    let nb = neighbors_of(width, height, at);
    let s = move_options_of(width, height, at);
    assert(s[0] == at);
    assert forall|n: (usize, usize)| nb.contains(n) implies s.contains(n) by {
        let i = choose|i: int| 0 <= i < nb.len() && nb[i] == n;
        assert(s[i + 1] == n);
    }
}

/// Lists the neighbours of `at`.
pub fn neighbors(width: usize, height: usize, at: (usize, usize)) -> (found: Vec<(usize, usize)>)
    requires
        in_bounds(width, height, at),
    ensures
        found@ == neighbors_of(width, height, at),
{
    let mut found: Vec<(usize, usize)> = Vec::new();
    if at.0 > 0 {
        found.push((at.0 - 1, at.1));
    }
    if at.0 < width - 1 {
        found.push((at.0 + 1, at.1));
    }
    if at.1 > 0 {
        found.push((at.0, at.1 - 1));
    }
    if at.1 < height - 1 {
        found.push((at.0, at.1 + 1));
    }
    found
}

/// Lists the places a creature standing on `at` may end a move on.
pub fn move_options(width: usize, height: usize, at: (usize, usize)) -> (found: Vec<
    (usize, usize),
>)
    requires
        in_bounds(width, height, at),
    ensures
        found@ == move_options_of(width, height, at),
{
    let mut found: Vec<(usize, usize)> = Vec::new();
    found.push(at);
    let mut near = neighbors(width, height, at);
    found.append(&mut near);
    found
}

} // verus!
