use crate::grid::{lemma_ext_equal, lemma_mod_of_shifted, lemma_wrapped_unit, wrapped, GridModel};
use crate::rule::{
    alive_among, has_neighbor_in, moore, moore_dx, moore_dy, successor, Rule,
};
use vstd::arithmetic::div_mod::{
    lemma_fundamental_div_mod, lemma_mod_bound, lemma_mod_multiples_vanish, lemma_small_mod,
};
use vstd::prelude::*;

verus! {

/// `(a mod n + b) mod n == (a + b) mod n`.
proof fn lemma_mod_add_inner(a: int, b: int, n: int)
    requires
        n > 0,
    ensures
        (a % n + b) % n == (a + b) % n,
{
    lemma_fundamental_div_mod(a, n);
    lemma_mod_multiples_vanish(a / n, a % n + b, n);
}

/// The Moore neighbours of an on-grid cell lie on the grid.
proof fn lemma_moore_on_grid(g: GridModel, x: int, y: int, k: int)
    requires
        g.wf(),
        g.in_bounds(x, y),
        0 <= k < 8,
    ensures
        g.in_bounds(
            wrapped(x, moore_dx(k), g.width as int),
            wrapped(y, moore_dy(k), g.height as int),
        ),
{
    lemma_wrapped_unit(x, moore_dx(k), g.width as int);
    lemma_wrapped_unit(y, moore_dy(k), g.height as int);
}

/// The cell `(x, y)` of a uniform grid sees only the uniform state around it.
proof fn lemma_uniform_neighbors(g: GridModel, k: i32, x: int, y: int)
    requires
        g.wf(),
        g.uniform(k),
        g.in_bounds(x, y),
    ensures
        forall|j: int| 0 <= j < 8 ==> #[trigger] moore(g, x, y, j) == k,
{
    assert forall|j: int| 0 <= j < 8 implies #[trigger] moore(g, x, y, j) == k by {
        lemma_moore_on_grid(g, x, y, j);
    }
}

/// Equal neighbourhoods give equal alive counts.
proof fn lemma_alive_among_equal(
    g1: GridModel,
    x1: int,
    y1: int,
    g2: GridModel,
    x2: int,
    y2: int,
    k: nat,
)
    requires
        k <= 8,
        forall|j: int| 0 <= j < 8 ==> #[trigger] moore(g1, x1, y1, j) == moore(g2, x2, y2, j),
    ensures
        alive_among(g1, x1, y1, k) == alive_among(g2, x2, y2, k),
    decreases k,
{
    if k > 0 {
        lemma_alive_among_equal(g1, x1, y1, g2, x2, y2, (k - 1) as nat);
        assert(moore(g1, x1, y1, k - 1) == moore(g2, x2, y2, k - 1));
    }
}

/// A rule's next state depends on the centre and its eight neighbours alone.
proof fn lemma_same_neighborhood_same_next(
    rule: Rule,
    g1: GridModel,
    x1: int,
    y1: int,
    g2: GridModel,
    x2: int,
    y2: int,
)
    requires
        g1.at(x1, y1) == g2.at(x2, y2),
        forall|j: int| 0 <= j < 8 ==> #[trigger] moore(g1, x1, y1, j) == moore(g2, x2, y2, j),
    ensures
        rule.next_cell(g1, x1, y1) == rule.next_cell(g2, x2, y2),
{
    lemma_alive_among_equal(g1, x1, y1, g2, x2, y2, 8);
    let t = successor(g1.at(x1, y1), rule.state_count());
    if has_neighbor_in(g1, x1, y1, t) {
        let j = choose|j: int| 0 <= j < 8 && #[trigger] moore(g1, x1, y1, j) == t;
        assert(moore(g2, x2, y2, j) == t);
    }
    if has_neighbor_in(g2, x2, y2, t) {
        let j = choose|j: int| 0 <= j < 8 && #[trigger] moore(g2, x2, y2, j) == t;
        assert(moore(g1, x1, y1, j) == t);
    }
}

/// The `k`-th neighbour of `(x, y)` in a shifted grid is the `k`-th neighbour
/// of the cell that was moved to `(x, y)`.
proof fn lemma_shift_moore(g: GridModel, sx: int, sy: int, x: int, y: int, k: int)
    requires
        g.wf(),
        g.in_bounds(x, y),
        0 <= k < 8,
    ensures
        moore(g.shift(sx, sy), x, y, k) == moore(
            g,
            (x - sx) % (g.width as int),
            (y - sy) % (g.height as int),
            k,
        ),
{
    let w = g.width as int;
    let h = g.height as int;
    let dx = moore_dx(k);
    let dy = moore_dy(k);
    lemma_moore_on_grid(g, x, y, k);
    lemma_mod_add_inner(x + w + dx, -sx, w);
    lemma_mod_add_inner(x - sx, w + dx, w);
    lemma_mod_add_inner(y + h + dy, -sy, h);
    lemma_mod_add_inner(y - sy, h + dy, h);
    assert((x + w + dx) + -sx == (x - sx) + (w + dx));
    assert((y + h + dy) + -sy == (y - sy) + (h + dy));
}

/// Translation symmetry: moving a grid by `(sx, sy)` with wrap-around and then
/// advancing one generation gives the same grid as advancing first and
/// moving the result.
pub proof fn lemma_shift_commutes_with_next(rule: Rule, g: GridModel, sx: int, sy: int)
    requires
        g.wf(),
    ensures
        rule.next_model(g.shift(sx, sy)) == rule.next_model(g).shift(sx, sy),
{
    let w = g.width as int;
    let h = g.height as int;
    let sg = g.shift(sx, sy);
    let a = rule.next_model(sg);
    let b = rule.next_model(g).shift(sx, sy);
    assert forall|x: int, y: int| a.in_bounds(x, y) implies #[trigger] a.at(x, y) == b.at(x, y) by {
        let px = (x - sx) % w;
        let py = (y - sy) % h;
        lemma_mod_bound(x - sx, w);
        lemma_mod_bound(y - sy, h);
        assert forall|j: int| 0 <= j < 8 implies #[trigger] moore(sg, x, y, j) == moore(
            g,
            px,
            py,
            j,
        ) by {
            lemma_shift_moore(g, sx, sy, x, y, j);
        }
        lemma_same_neighborhood_same_next(rule, sg, x, y, g, px, py);
    }
    lemma_ext_equal(a, b);
}

/// A grid with no alive cell stays without one under the survival/birth rule.
pub proof fn lemma_binary_all_dead_fixed(g: GridModel)
    requires
        g.wf(),
        g.uniform(0),
    ensures
        Rule::BinarySurvival.next_model(g) == g,
{
    let n = Rule::BinarySurvival.next_model(g);
    assert forall|x: int, y: int| n.in_bounds(x, y) implies #[trigger] n.at(x, y) == g.at(x, y) by {
        lemma_uniform_neighbors(g, 0, x, y);
        lemma_no_alive(g, x, y, 8);
    }
    lemma_ext_equal(n, g);
}

/// No alive neighbour is counted where every neighbour is dead.
proof fn lemma_no_alive(g: GridModel, x: int, y: int, k: nat)
    requires
        k <= 8,
        forall|j: int| 0 <= j < 8 ==> #[trigger] moore(g, x, y, j) == 0,
    ensures
        alive_among(g, x, y, k) == 0,
    decreases k,
{
    if k > 0 {
        lemma_no_alive(g, x, y, (k - 1) as nat);
        assert(moore(g, x, y, k - 1) == 0);
    }
}

/// Under the cyclic rule a cell either keeps its state or steps to its
/// successor; no other value can follow.
pub proof fn lemma_cyclic_steps_by_one(s: i32, g: GridModel, x: int, y: int)
    ensures
        Rule::CyclicSuccessor(s).next_cell(g, x, y) == g.at(x, y)
            || Rule::CyclicSuccessor(s).next_cell(g, x, y) == successor(g.at(x, y), s),
{
}

/// Under the cyclic rule a grid whose cells all hold one state `k` is a
/// fixed point.
pub proof fn lemma_cyclic_uniform_fixed(s: i32, g: GridModel, k: i32)
    requires
        s >= 2,
        0 <= k < s,
        g.wf(),
        g.uniform(k),
    ensures
        Rule::CyclicSuccessor(s).next_model(g) == g,
{
    if k + 1 < s {
        lemma_small_mod((k + 1) as nat, s as nat);
    } else {
        lemma_mod_of_shifted(s as int, s as int, 1, 0);
    }
    assert(successor(k, s) != k);
    let n = Rule::CyclicSuccessor(s).next_model(g);
    assert forall|x: int, y: int| n.in_bounds(x, y) implies #[trigger] n.at(x, y) == g.at(x, y) by {
        lemma_uniform_neighbors(g, k, x, y);
        if has_neighbor_in(g, x, y, successor(k, s)) {
            let j = choose|j: int| 0 <= j < 8 && #[trigger] moore(g, x, y, j) == successor(k, s);
        }
    }
    lemma_ext_equal(n, g);
}

} // verus!
