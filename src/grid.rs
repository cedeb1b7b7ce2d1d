use vstd::arithmetic::div_mod::{lemma_fundamental_div_mod_converse_mod, lemma_mod_bound};
use crate::random::draw_below;
use rand::rngs::StdRng;
use vstd::prelude::*;

verus! {

/// Why a configuration cannot start a simulation.
#[derive(Debug, Clone, Copy, PartialEq, Eq, Structural)]
pub enum ConfigError {
    /// The board has no columns or no rows.
    InvalidDimensions,
    /// A rule was asked for fewer than two states.
    InvalidStateCount,
}

/// The wrapped coordinate reached from `c` by the step `d` on a ring of `n`.
pub open spec fn wrapped(c: int, d: int, n: int) -> int {
    (c + n + d) % n
}

/// The mathematical content of a grid: its dimensions and its cells,
/// indexed as `cells[x][y]` for column `x` and row `y`.
pub struct GridModel {
    pub width: nat,
    pub height: nat,
    pub cells: Seq<Seq<i32>>,
}

impl GridModel {
    /// Positive dimensions and one state for every coordinate.
    pub open spec fn wf(self) -> bool {
        &&& self.width > 0
        &&& self.height > 0
        &&& self.cells.len() == self.width
        &&& forall|x: int| 0 <= x < self.width ==> (#[trigger] self.cells[x]).len() == self.height
    }

    pub open spec fn in_bounds(self, x: int, y: int) -> bool {
        0 <= x < self.width && 0 <= y < self.height
    }

    pub open spec fn at(self, x: int, y: int) -> i32 {
        self.cells[x][y]
    }

    /// The state of the cell reached from `(x, y)` by the step `(dx, dy)`
    /// with wrap-around at every edge.
    pub open spec fn neighbor(self, x: int, y: int, dx: int, dy: int) -> i32 {
        self.at(wrapped(x, dx, self.width as int), wrapped(y, dy, self.height as int))
    }

    /// Every cell holds a state in `[0, s)`.
    pub open spec fn states_below(self, s: int) -> bool {
        forall|x: int, y: int| self.in_bounds(x, y) ==> 0 <= #[trigger] self.at(x, y) < s
    }

    /// Same dimensions as `other`.
    pub open spec fn same_shape(self, other: GridModel) -> bool {
        self.width == other.width && self.height == other.height
    }

    /// Every cell holds the state `k`.
    pub open spec fn uniform(self, k: i32) -> bool {
        forall|x: int, y: int| self.in_bounds(x, y) ==> #[trigger] self.at(x, y) == k
    }

    /// The grid of the given dimensions whose cell `(x, y)` is `f(x, y)`.
    pub open spec fn from_fn(width: nat, height: nat, f: spec_fn(int, int) -> i32) -> GridModel {
        GridModel {
            width,
            height,
            cells: Seq::new(width, |x: int| Seq::new(height, |y: int| f(x, y))),
        }
    }

    /// This grid moved by `(sx, sy)` with wrap-around: what stood at `(x, y)`
    /// stands at `(x + sx, y + sy)` taken modulo the dimensions.
    pub open spec fn shift(self, sx: int, sy: int) -> GridModel {
        GridModel::from_fn(
            self.width,
            self.height,
            |x: int, y: int| self.at((x - sx) % (self.width as int), (y - sy) % (self.height as int)),
        )
    }

    /// This grid with the cell `(x, y)` set to `v`.
    pub open spec fn set(self, x: int, y: int, v: i32) -> GridModel {
        GridModel { cells: self.cells.update(x, self.cells[x].update(y, v)), ..self }
    }
}

/// `v % n == r` where `v` and `r` differ by a multiple of `n`.
pub proof fn lemma_mod_of_shifted(v: int, n: int, q: int, r: int)
    requires
        n > 0,
        0 <= r < n,
        v == q * n + r,
    ensures
        v % n == r,
{
    lemma_fundamental_div_mod_converse_mod(v, n, q, r);
}

/// The wrapped coordinate of an in-range coordinate and a unit step.
pub proof fn lemma_wrapped_unit(c: int, d: int, n: int)
    requires
        0 <= c < n,
        -1 <= d <= 1,
    ensures
        wrapped(c, d, n) == if c + d < 0 {
            n - 1
        } else if c + d >= n {
            0
        } else {
            c + d
        },
        0 <= wrapped(c, d, n) < n,
{
    if c + d < 0 {
        lemma_mod_of_shifted(c + n + d, n, 0, n - 1);
    } else if c + d >= n {
        lemma_mod_of_shifted(c + n + d, n, 2, 0);
    } else {
        lemma_mod_of_shifted(c + n + d, n, 1, c + d);
    }
    lemma_mod_bound(c + n + d, n);
}

/// Two well-formed grids of one shape that agree on every cell are equal.
pub proof fn lemma_ext_equal(a: GridModel, b: GridModel)
    requires
        a.wf(),
        b.wf(),
        a.same_shape(b),
        forall|x: int, y: int| a.in_bounds(x, y) ==> #[trigger] a.at(x, y) == b.at(x, y),
    ensures
        a == b,
{
    assert forall|x: int| 0 <= x < a.width implies #[trigger] a.cells[x] =~= b.cells[x] by {
        assert forall|y: int| 0 <= y < a.height implies a.cells[x][y] == b.cells[x][y] by {
            assert(a.at(x, y) == b.at(x, y));
        }
    }
    assert(a.cells =~= b.cells);
}

/// The coordinate reached from `c` by the step `d` (one of -1, 0, 1) on a ring
/// of `n` positions: `(c + n + d) mod n`, computed without overflow.
pub fn wrap_coord(c: usize, d: i32, n: usize) -> (r: usize)
    requires
        c < n,
        -1 <= d <= 1,
    ensures
        r as int == wrapped(c as int, d as int, n as int),
        r < n,
{
    proof {
        lemma_wrapped_unit(c as int, d as int, n as int);
    }
    if d < 0 {
        if c == 0 {
            n - 1
        } else {
            c - 1
        }
    } else if d > 0 {
        if c + 1 == n {
            0
        } else {
            c + 1
        }
    } else {
        c
    }
}

/// A fixed-size rectangular grid of cell states, owned column by column.
#[derive(Debug)]
pub struct Grid {
    width: usize,
    height: usize,
    cols: Vec<Vec<i32>>,
}

impl View for Grid {
    type V = GridModel;

    closed spec fn view(&self) -> GridModel {
        GridModel {
            width: self.width as nat,
            height: self.height as nat,
            cells: self.cols@.map_values(|c: Vec<i32>| c@),
        }
    }
}

impl Grid {
    /// A grid of the given dimensions with every cell in state 0; empty
    /// dimensions are refused.
    pub fn new(width: usize, height: usize) -> (r: Result<Grid, ConfigError>)
        ensures
            (width == 0 || height == 0) <==> r is Err,
            r is Err ==> r == Err::<Grid, ConfigError>(ConfigError::InvalidDimensions),
            r matches Ok(g) ==> {
                &&& g@.wf()
                &&& g@.width == width
                &&& g@.height == height
                &&& g@.uniform(0)
            },
    {
        if width == 0 || height == 0 {
            return Err(ConfigError::InvalidDimensions);
        }
        let mut cols: Vec<Vec<i32>> = Vec::new();
        let mut x: usize = 0;
        while x < width
            invariant
                x <= width,
                height > 0,
                cols@.len() == x,
                forall|i: int| 0 <= i < x ==> (#[trigger] cols@[i])@ == Seq::new(height as nat, |y: int| 0i32),
            decreases width - x,
        {
            let mut col: Vec<i32> = Vec::new();
            let mut y: usize = 0;
            while y < height
                invariant
                    y <= height,
                    col@ == Seq::new(y as nat, |j: int| 0i32),
                decreases height - y,
            {
                col.push(0);
                y += 1;
                assert(col@ =~= Seq::new(y as nat, |j: int| 0i32));
            }
            cols.push(col);
            x += 1;
        }
        let g = Grid { width, height, cols };
        assert(g@.wf());
        Ok(g)
    }

    pub fn width(&self) -> (r: usize)
        ensures
            r == self@.width,
    {
        self.width
    }

    pub fn height(&self) -> (r: usize)
        ensures
            r == self@.height,
    {
        self.height
    }

    /// The state at `(x, y)`; the coordinate must lie on the grid.
    pub fn get(&self, x: usize, y: usize) -> (r: i32)
        requires
            self@.wf(),
            self@.in_bounds(x as int, y as int),
        ensures
            r == self@.at(x as int, y as int),
    {
        assert(self@.cells[x as int] == self.cols@[x as int]@);
        self.cols[x][y]
    }

    /// Overwrites the state at `(x, y)`; the coordinate must lie on the grid.
    pub fn set(&mut self, x: usize, y: usize, v: i32)
        requires
            old(self)@.wf(),
            old(self)@.in_bounds(x as int, y as int),
        ensures
            final(self)@ == old(self)@.set(x as int, y as int, v),
            final(self)@.wf(),
    {
        assert(old(self)@.cells[x as int] == old(self).cols@[x as int]@);
        let mut col = self.cols[x].clone();
        assert(col@ =~= old(self).cols@[x as int]@);
        col.set(y, v);
        self.cols.set(x, col);
        assert(self@.cells =~= old(self)@.set(x as int, y as int, v).cells);
    }

    /// The state of the neighbour of `(x, y)` at the step `(dx, dy)`, with
    /// wrap-around at every edge. Both rules look neighbours up through here.
    pub fn neighbor(&self, x: usize, y: usize, dx: i32, dy: i32) -> (r: i32)
        requires
            self@.wf(),
            self@.in_bounds(x as int, y as int),
            -1 <= dx <= 1,
            -1 <= dy <= 1,
        ensures
            r == self@.neighbor(x as int, y as int, dx as int, dy as int),
    {
        let nx = wrap_coord(x, dx, self.width);
        let ny = wrap_coord(y, dy, self.height);
        self.get(nx, ny)
    }

    /// A grid made of the given columns, each `height` cells long.
    pub(crate) fn from_columns(width: usize, height: usize, cols: Vec<Vec<i32>>) -> (r: Grid)
        requires
            width > 0,
            height > 0,
            cols@.len() == width,
            forall|i: int| 0 <= i < width ==> (#[trigger] cols@[i])@.len() == height,
        ensures
            r@ == (GridModel {
                width: width as nat,
                height: height as nat,
                cells: cols@.map_values(|c: Vec<i32>| c@),
            }),
            r@.wf(),
    {
        Grid { width, height, cols }
    }

    /// Overwrites every cell with the given states: cell `(x, y)` takes
    /// `draws[x][y]`, whatever it held before.
    pub fn fill_from(&mut self, draws: Vec<Vec<i32>>)
        requires
            old(self)@.wf(),
            draws@.len() == old(self)@.width,
            forall|i: int| 0 <= i < draws@.len() ==> (#[trigger] draws@[i])@.len() == old(self)@.height,
        ensures
            final(self)@.wf(),
            final(self)@.same_shape(old(self)@),
            final(self)@.cells == draws@.map_values(|c: Vec<i32>| c@),
    {
        self.cols = draws;
    }

    /// Overwrites every cell with a state drawn from `rng` in
    /// `[0, state_count)`, one draw per cell, column by column; the drawn
    /// columns are placed by `fill_from`.
    pub fn randomize(&mut self, state_count: i32, rng: &mut StdRng)
        requires
            old(self)@.wf(),
            state_count > 0,
        ensures
            final(self)@.wf(),
            final(self)@.same_shape(old(self)@),
            final(self)@.states_below(state_count as int),
    {
        let mut cols: Vec<Vec<i32>> = Vec::new();
        let mut x: usize = 0;
        while x < self.width
            invariant
                self@.wf(),
                self@ == old(self)@,
                state_count > 0,
                x <= self.width,
                cols@.len() == x,
                forall|i: int| 0 <= i < x ==> (#[trigger] cols@[i])@.len() == self.height,
                forall|i: int, j: int|
                    0 <= i < x && 0 <= j < self.height ==> 0 <= #[trigger] cols@[i]@[j] < state_count,
            decreases self.width - x,
        {
            let mut col: Vec<i32> = Vec::new();
            let mut y: usize = 0;
            while y < self.height
                invariant
                    state_count > 0,
                    y <= self.height,
                    col@.len() == y,
                    forall|j: int| 0 <= j < y ==> 0 <= #[trigger] col@[j] < state_count,
                decreases self.height - y,
            {
                let v = draw_below(rng, state_count);
                col.push(v);
                y += 1;
            }
            cols.push(col);
            x += 1;
        }
        let ghost drawn = cols@;
        self.fill_from(cols);
        assert forall|i: int, j: int| self@.in_bounds(i, j) implies 0 <= #[trigger] self@.at(i, j)
            < state_count by {
            assert(self@.cells[i] == drawn[i]@);
        }
    }

    /// An independent copy holding the same cells.
    pub fn snapshot(&self) -> (r: Grid)
        ensures
            r@ == self@,
    {
        let mut cols: Vec<Vec<i32>> = Vec::new();
        let mut x: usize = 0;
        while x < self.cols.len()
            invariant
                x <= self.cols@.len(),
                cols@.len() == x,
                forall|i: int| 0 <= i < x ==> (#[trigger] cols@[i])@ == self.cols@[i]@,
            decreases self.cols@.len() - x,
        {
            let col = self.cols[x].clone();
            assert(col@ =~= self.cols@[x as int]@);
            cols.push(col);
            x += 1;
        }
        let r = Grid { width: self.width, height: self.height, cols };
        assert(r@.cells =~= self@.cells);
        r
    }
}

} // verus!
