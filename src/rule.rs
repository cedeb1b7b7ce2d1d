use crate::grid::{ConfigError, Grid, GridModel};
use vstd::prelude::*;

verus! {

/// Column step of the `k`-th Moore offset, in the order
/// (-1,-1), (-1,0), (-1,1), (0,-1), (0,1), (1,-1), (1,0), (1,1).
pub open spec fn moore_dx(k: int) -> int {
    if k < 3 {
        -1
    } else if k < 5 {
        0
    } else {
        1
    }
}

/// Row step of the `k`-th Moore offset, in the same order as `moore_dx`.
pub open spec fn moore_dy(k: int) -> int {
    if k == 0 || k == 3 || k == 5 {
        -1
    } else if k == 1 || k == 6 {
        0
    } else {
        1
    }
}

/// The state of the `k`-th Moore neighbour of `(x, y)`.
pub open spec fn moore(g: GridModel, x: int, y: int, k: int) -> i32 {
    g.neighbor(x, y, moore_dx(k), moore_dy(k))
}

/// How many of the first `k` Moore neighbours of `(x, y)` are alive (state 1).
pub open spec fn alive_among(g: GridModel, x: int, y: int, k: nat) -> nat
    decreases k,
{
    if k == 0 {
        0
    } else {
        alive_among(g, x, y, (k - 1) as nat) + if moore(g, x, y, k - 1) == 1 {
            1nat
        } else {
            0nat
        }
    }
}

/// The number of alive cells among the eight neighbours of `(x, y)`.
pub open spec fn alive_neighbors(g: GridModel, x: int, y: int) -> nat {
    alive_among(g, x, y, 8)
}

/// Next state of `(x, y)` under the two-state survival/birth rule.
pub open spec fn binary_next(g: GridModel, x: int, y: int) -> i32 {
    let n = alive_neighbors(g, x, y);
    if n <= 1 {
        0
    } else if n == 2 {
        g.at(x, y)
    } else if n == 3 {
        1
    } else {
        0
    }
}

/// The state that follows `c` in a cycle of `s` states.
pub open spec fn successor(c: i32, s: i32) -> i32 {
    ((c + 1) % (s as int)) as i32
}

/// Some neighbour of `(x, y)` holds the state `t`.
pub open spec fn has_neighbor_in(g: GridModel, x: int, y: int, t: i32) -> bool {
    exists|k: int| 0 <= k < 8 && #[trigger] moore(g, x, y, k) == t
}

/// Next state of `(x, y)` under the cyclic rule with `s` states: the
/// successor of the centre if a neighbour already holds it, else the centre.
pub open spec fn cyclic_next(g: GridModel, x: int, y: int, s: i32) -> i32 {
    let t = successor(g.at(x, y), s);
    if has_neighbor_in(g, x, y, t) {
        t
    } else {
        g.at(x, y)
    }
}

/// The `k`-th Moore offset as `(dx, dy)`.
fn moore_offset(k: usize) -> (r: (i32, i32))
    requires
        k < 8,
    ensures
        r.0 == moore_dx(k as int),
        r.1 == moore_dy(k as int),
{
    match k {
        0 => (-1, -1),
        1 => (-1, 0),
        2 => (-1, 1),
        3 => (0, -1),
        4 => (0, 1),
        5 => (1, -1),
        6 => (1, 0),
        _ => (1, 1),
    }
}

/// A local update rule over the Moore neighbourhood.
#[derive(Clone, Copy, Debug, PartialEq, Eq, Structural)]
pub enum Rule {
    /// Two states, dead 0 and alive 1: birth on three alive neighbours,
    /// survival on two, death otherwise.
    BinarySurvival,
    /// A cycle of the given number of states: a cell steps to its successor
    /// when some neighbour already holds it.
    CyclicSuccessor(i32),
}

impl Rule {
    /// A cyclic rule has at least two states.
    pub open spec fn wf(self) -> bool {
        match self {
            Rule::BinarySurvival => true,
            Rule::CyclicSuccessor(s) => s >= 2,
        }
    }

    pub open spec fn spec_state_count(&self) -> i32 {
        match *self {
            Rule::BinarySurvival => 2,
            Rule::CyclicSuccessor(s) => s,
        }
    }

    /// The next state of the cell `(x, y)` of `g`.
    pub open spec fn next_cell(self, g: GridModel, x: int, y: int) -> i32 {
        match self {
            Rule::BinarySurvival => binary_next(g, x, y),
            Rule::CyclicSuccessor(s) => cyclic_next(g, x, y, s),
        }
    }

    /// The generation after `g`: every cell updated at once from `g`.
    pub open spec fn next_model(self, g: GridModel) -> GridModel {
        GridModel::from_fn(g.width, g.height, |x: int, y: int| self.next_cell(g, x, y))
    }

    /// The two-state survival/birth rule.
    pub fn binary_survival() -> (r: Rule)
        ensures
            r == Rule::BinarySurvival,
            r.wf(),
    {
        Rule::BinarySurvival
    }

    /// The cyclic rule with `states` states; fewer than two are refused.
    pub fn cyclic_successor(states: i32) -> (r: Result<Rule, ConfigError>)
        ensures
            states >= 2 ==> r == Ok::<Rule, ConfigError>(Rule::CyclicSuccessor(states)),
            states < 2 ==> r == Err::<Rule, ConfigError>(ConfigError::InvalidStateCount),
            r matches Ok(rule) ==> rule.wf(),
    {
        if states < 2 {
            Err(ConfigError::InvalidStateCount)
        } else {
            Ok(Rule::CyclicSuccessor(states))
        }
    }

    /// Whether the rule is well formed: a cyclic rule needs two states or more.
    pub fn is_valid(&self) -> (r: bool)
        ensures
            r == self.wf(),
    {
        match self {
            Rule::BinarySurvival => true,
            Rule::CyclicSuccessor(s) => *s >= 2,
        }
    }

    /// How many states a cell can take under this rule.
    #[verifier::when_used_as_spec(spec_state_count)]
    pub fn state_count(&self) -> (r: i32)
        ensures
            r == self.spec_state_count(),
    {
        match self {
            Rule::BinarySurvival => 2,
            Rule::CyclicSuccessor(s) => *s,
        }
    }

    /// The next state of the cell `(x, y)` of `g`, read from `g` alone.
    pub fn next_state(&self, g: &Grid, x: usize, y: usize) -> (r: i32)
        requires
            self.wf(),
            g@.wf(),
            g@.states_below(self.state_count() as int),
            g@.in_bounds(x as int, y as int),
        ensures
            r == self.next_cell(g@, x as int, y as int),
            0 <= r < self.state_count(),
    {
        proof {
            lemma_next_state_in_range(*self, g@, x as int, y as int);
        }
        match self {
            Rule::BinarySurvival => binary_next_state(g, x, y),
            Rule::CyclicSuccessor(s) => cyclic_next_state(g, x, y, *s),
        }
    }

    /// The next generation of `g`: every cell's next state, each computed from
    /// `g` alone, so that no update is seen by another within one sweep.
    pub fn next_gen(&self, g: &Grid) -> (r: Grid)
        requires
            self.wf(),
            g@.wf(),
            g@.states_below(self.state_count() as int),
        ensures
            r@ == self.next_model(g@),
            r@.wf(),
            r@.states_below(self.state_count() as int),
    {
        let width = g.width();
        let height = g.height();
        let ghost m = g@;
        let mut cols: Vec<Vec<i32>> = Vec::new();
        let mut x: usize = 0;
        while x < width
            invariant
                self.wf(),
                m == g@,
                m.wf(),
                m.states_below(self.state_count() as int),
                width == m.width,
                height == m.height,
                x <= width,
                cols@.len() == x,
                forall|i: int| 0 <= i < x ==> (#[trigger] cols@[i])@ == self.next_model(m).cells[i],
            decreases width - x,
        {
            let mut col: Vec<i32> = Vec::new();
            let mut y: usize = 0;
            while y < height
                invariant
                    self.wf(),
                    m == g@,
                    m.wf(),
                    m.states_below(self.state_count() as int),
                    width == m.width,
                    height == m.height,
                    x < width,
                    y <= height,
                    col@.len() == y,
                    forall|j: int| 0 <= j < y ==> #[trigger] col@[j] == self.next_cell(m, x as int, j),
                decreases height - y,
            {
                let v = self.next_state(g, x, y);
                col.push(v);
                y += 1;
            }
            assert(col@ =~= self.next_model(m).cells[x as int]);
            cols.push(col);
            x += 1;
        }
        let r = Grid::from_columns(width, height, cols);
        assert(r@.cells =~= self.next_model(m).cells);
        proof {
            assert forall|i: int, j: int| r@.in_bounds(i, j) implies 0 <= #[trigger] r@.at(i, j)
                < self.state_count() by {
                lemma_next_state_in_range(*self, m, i, j);
            }
        }
        r
    }
}

/// The survival/birth rule at one cell: counts alive neighbours, then applies
/// the table 0-1 dies, 2 keeps, 3 is born, 4 or more dies.
fn binary_next_state(g: &Grid, x: usize, y: usize) -> (r: i32)
    requires
        g@.wf(),
        g@.in_bounds(x as int, y as int),
    ensures
        r == binary_next(g@, x as int, y as int),
{
    let mut alive: u32 = 0;
    let mut k: usize = 0;
    while k < 8
        invariant
            k <= 8,
            g@.wf(),
            g@.in_bounds(x as int, y as int),
            alive == alive_among(g@, x as int, y as int, k as nat),
            alive <= k,
        decreases 8 - k,
    {
        let (dx, dy) = moore_offset(k);
        if g.neighbor(x, y, dx, dy) == 1 {
            alive += 1;
        }
        k += 1;
    }
    if alive <= 1 {
        0
    } else if alive == 2 {
        g.get(x, y)
    } else if alive == 3 {
        1
    } else {
        0
    }
}

/// The cyclic rule at one cell: the first neighbour found in the successor
/// state decides; with none the cell keeps its state.
fn cyclic_next_state(g: &Grid, x: usize, y: usize, s: i32) -> (r: i32)
    requires
        s >= 2,
        g@.wf(),
        g@.states_below(s as int),
        g@.in_bounds(x as int, y as int),
    ensures
        r == cyclic_next(g@, x as int, y as int, s),
{
    let center = g.get(x, y);
    let target = (center + 1) % s;
    let mut k: usize = 0;
    while k < 8
        invariant
            k <= 8,
            g@.wf(),
            g@.in_bounds(x as int, y as int),
            target == successor(center, s),
            center == g@.at(x as int, y as int),
            forall|j: int| 0 <= j < k ==> #[trigger] moore(g@, x as int, y as int, j) != target,
        decreases 8 - k,
    {
        let (dx, dy) = moore_offset(k);
        if g.neighbor(x, y, dx, dy) == target {
            assert(moore(g@, x as int, y as int, k as int) == target);
            return target;
        }
        k += 1;
    }
    center
}

/// Every next state lies in `[0, state_count)` on a grid whose states do.
pub proof fn lemma_next_state_in_range(rule: Rule, g: GridModel, x: int, y: int)
    requires
        rule.wf(),
        g.wf(),
        g.states_below(rule.state_count() as int),
        g.in_bounds(x, y),
    ensures
        0 <= rule.next_cell(g, x, y) < rule.state_count(),
{
    assert(0 <= g.at(x, y) < rule.state_count());
}

} // verus!
