use crate::grid::{ConfigError, Grid, GridModel};
use crate::random::seeded_rng;
use crate::rule::Rule;
use vstd::prelude::*;

verus! {

/// The cell `(x, y)` lies on `cur` and holds there another state than in `prev`.
pub open spec fn differs(cur: GridModel, prev: GridModel, x: int, y: int) -> bool {
    cur.in_bounds(x, y) && cur.at(x, y) != prev.at(x, y)
}

/// Column-major order of coordinates: `(ax, ay)` comes before `(bx, by)`.
pub open spec fn precedes(ax: int, ay: int, bx: int, by: int) -> bool {
    ax < bx || (ax == bx && ay < by)
}

/// The mathematical content of a simulation.
pub struct SimulationModel {
    pub current: GridModel,
    pub previous: GridModel,
    pub rule: Rule,
}

impl SimulationModel {
    /// Both generations share one shape and hold only states of the rule.
    pub open spec fn wf(self) -> bool {
        &&& self.rule.wf()
        &&& self.current.wf()
        &&& self.previous.wf()
        &&& self.previous.same_shape(self.current)
        &&& self.current.states_below(self.rule.state_count() as int)
        &&& self.previous.states_below(self.rule.state_count() as int)
    }

    /// The state after one advance: the current generation becomes the
    /// previous one and its successor under the rule the current one.
    pub open spec fn advanced(self) -> SimulationModel {
        SimulationModel {
            current: self.rule.next_model(self.current),
            previous: self.current,
            rule: self.rule,
        }
    }

    /// No cell differs between the current and the previous generation.
    pub open spec fn quiet(self) -> bool {
        forall|x: int, y: int| !#[trigger] differs(self.current, self.previous, x, y)
    }
}

/// A running simulation: the current generation, the one before it, and the
/// rule that leads from one to the next.
pub struct Simulation {
    current: Grid,
    previous: Grid,
    rule: Rule,
}

impl View for Simulation {
    type V = SimulationModel;

    closed spec fn view(&self) -> SimulationModel {
        SimulationModel { current: self.current@, previous: self.previous@, rule: self.rule }
    }
}

impl Simulation {
    /// A board of the given dimensions drawn at random from the generator
    /// seeded with `seed`, one state of the rule per cell; its previous
    /// generation is a copy of it. Empty dimensions are refused first, then a
    /// cyclic rule of fewer than two states.
    pub fn new(width: usize, height: usize, rule: Rule, seed: u64) -> (r: Result<
        Simulation,
        ConfigError,
    >)
        ensures
            (width == 0 || height == 0) ==> r == Err::<Simulation, ConfigError>(
                ConfigError::InvalidDimensions,
            ),
            (width > 0 && height > 0 && !rule.wf()) ==> r == Err::<Simulation, ConfigError>(
                ConfigError::InvalidStateCount,
            ),
            (width > 0 && height > 0 && rule.wf()) <==> r is Ok,
            r matches Ok(s) ==> {
                &&& s@.wf()
                &&& s@.rule == rule
                &&& s@.current.width == width
                &&& s@.current.height == height
                &&& s@.previous == s@.current
            },
    {
        let mut board = match Grid::new(width, height) {
            Ok(g) => g,
            Err(e) => return Err(e),
        };
        if !rule.is_valid() {
            return Err(ConfigError::InvalidStateCount);
        }
        let mut rng = seeded_rng(seed);
        board.randomize(rule.state_count(), &mut rng);
        Ok(Simulation::from_grid(board, rule))
    }

    /// A simulation that starts from `grid`, its previous generation a copy of it.
    pub fn from_grid(grid: Grid, rule: Rule) -> (r: Simulation)
        requires
            rule.wf(),
            grid@.wf(),
            grid@.states_below(rule.state_count() as int),
        ensures
            r@.wf(),
            r@.current == grid@,
            r@.previous == grid@,
            r@.rule == rule,
    {
        let previous = grid.snapshot();
        Simulation { current: grid, previous, rule }
    }

    pub fn current(&self) -> (r: &Grid)
        ensures
            r@ == self@.current,
    {
        &self.current
    }

    pub fn previous(&self) -> (r: &Grid)
        ensures
            r@ == self@.previous,
    {
        &self.previous
    }

    pub fn rule(&self) -> (r: Rule)
        ensures
            r == self@.rule,
    {
        self.rule
    }

    /// Moves to the next generation: the current grid becomes the previous
    /// one, and the rule's sweep over it the current one.
    pub fn advance(&mut self)
        requires
            old(self)@.wf(),
        ensures
            final(self)@ == old(self)@.advanced(),
            final(self)@.wf(),
    {
        let mut next = self.rule.next_gen(&self.current);
        std::mem::swap(&mut self.current, &mut next);
        self.previous = next;
    }

    /// Each cell whose state differs between the current and the previous
    /// generation, as `(x, y, current state)`, in column-major order.
    pub fn changed_cells(&self) -> (r: Vec<(usize, usize, i32)>)
        requires
            self@.wf(),
        ensures
            forall|i: int|
                0 <= i < r@.len() ==> {
                    let (x, y, v) = #[trigger] r@[i];
                    &&& differs(self@.current, self@.previous, x as int, y as int)
                    &&& v == self@.current.at(x as int, y as int)
                },
            forall|x: int, y: int|
                #[trigger] differs(self@.current, self@.previous, x, y) ==> exists|i: int|
                    0 <= i < r@.len() && (#[trigger] r@[i]).0 == x && r@[i].1 == y,
            forall|i: int, j: int|
                0 <= i < j < r@.len() ==> precedes(
                    (#[trigger] r@[i]).0 as int,
                    r@[i].1 as int,
                    (#[trigger] r@[j]).0 as int,
                    r@[j].1 as int,
                ),
    {
        let ghost cur = self@.current;
        let ghost prev = self@.previous;
        let width = self.current.width();
        let height = self.current.height();
        let mut out: Vec<(usize, usize, i32)> = Vec::new();
        let mut x: usize = 0;
        while x < width
            invariant
                self@.wf(),
                cur == self@.current,
                prev == self@.previous,
                width == cur.width,
                height == cur.height,
                x <= width,
                forall|i: int|
                    0 <= i < out@.len() ==> {
                        let (a, b, v) = #[trigger] out@[i];
                        &&& differs(cur, prev, a as int, b as int)
                        &&& v == cur.at(a as int, b as int)
                        &&& a < x
                    },
                forall|a: int, b: int|
                    a < x && #[trigger] differs(cur, prev, a, b) ==> exists|i: int|
                        0 <= i < out@.len() && (#[trigger] out@[i]).0 == a && out@[i].1 == b,
                forall|i: int, j: int|
                    0 <= i < j < out@.len() ==> precedes(
                        (#[trigger] out@[i]).0 as int,
                        out@[i].1 as int,
                        (#[trigger] out@[j]).0 as int,
                        out@[j].1 as int,
                    ),
            decreases width - x,
        {
            let mut y: usize = 0;
            while y < height
                invariant
                    self@.wf(),
                    cur == self@.current,
                    prev == self@.previous,
                    width == cur.width,
                    height == cur.height,
                    x < width,
                    y <= height,
                    forall|i: int|
                        0 <= i < out@.len() ==> {
                            let (a, b, v) = #[trigger] out@[i];
                            &&& differs(cur, prev, a as int, b as int)
                            &&& v == cur.at(a as int, b as int)
                            &&& precedes(a as int, b as int, x as int, y as int)
                        },
                    forall|a: int, b: int|
                        precedes(a, b, x as int, y as int) && #[trigger] differs(cur, prev, a, b)
                            ==> exists|i: int|
                            0 <= i < out@.len() && (#[trigger] out@[i]).0 == a && out@[i].1 == b,
                    forall|i: int, j: int|
                        0 <= i < j < out@.len() ==> precedes(
                            (#[trigger] out@[i]).0 as int,
                            out@[i].1 as int,
                            (#[trigger] out@[j]).0 as int,
                            out@[j].1 as int,
                        ),
                decreases height - y,
            {
                let v = self.current.get(x, y);
                let ghost before = out@;
                if v != self.previous.get(x, y) {
                    out.push((x, y, v));
                    assert forall|a: int, b: int|
                        precedes(a, b, x as int, y as int + 1) && #[trigger] differs(
                            cur,
                            prev,
                            a,
                            b,
                        ) implies exists|i: int|
                        0 <= i < out@.len() && (#[trigger] out@[i]).0 == a && out@[i].1 == b by {
                        if a == x && b == y {
                            assert(out@[before.len() as int].0 == a);
                        } else {
                            let i = choose|i: int|
                                0 <= i < before.len() && (#[trigger] before[i]).0 == a && before[i].1
                                    == b;
                            assert(out@[i] == before[i]);
                        }
                    }
                }
                y += 1;
            }
            x += 1;
        }
        out
    }
}

/// From a fixed point of the rule, an advance changes no cell, and neither
/// does a second advance.
pub proof fn lemma_fixed_point_stays_quiet(m: SimulationModel)
    requires
        m.wf(),
        m.rule.next_model(m.current) == m.current,
    ensures
        m.advanced().quiet(),
        m.advanced().advanced().quiet(),
{
}

} // verus!
