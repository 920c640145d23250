use vstd::prelude::*;

use crate::cell::{next_cell, next_state, Cell};

verus! {

/// Number of columns of the grid (the range of `x`).
pub const WORLD_WIDTH: u32 = 80;

/// Number of rows of the grid (the range of `y`).
pub const WORLD_HEIGHT: u32 = 100;

/// The width as a mathematical integer (`WORLD_WIDTH`).
#[verifier::inline]
pub open spec fn width() -> int {
    80
}

/// The height as a mathematical integer (`WORLD_HEIGHT`).
#[verifier::inline]
pub open spec fn height() -> int {
    100
}

/// The coordinates of the grid. A grid is modelled as a `Seq<Seq<Cell>>`
/// in which `g[x][y]` is the cell in column `x` and row `y`.
pub open spec fn in_bounds(x: int, y: int) -> bool {
    0 <= x < width() && 0 <= y < height()
}

/// 1 when the cell at `(x, y)`, wrapped onto the torus, is Alive; 0 otherwise.
pub open spec fn alive_at(g: Seq<Seq<Cell>>, x: int, y: int) -> int {
    if g[x % width()][y % height()] == Cell::Alive {
        1
    } else {
        0
    }
}

/// Number of Alive cells among the eight wrapped neighbours of `(x, y)`.
pub open spec fn neighbours(g: Seq<Seq<Cell>>, x: int, y: int) -> int {
    alive_at(g, x - 1, y - 1) + alive_at(g, x - 1, y) + alive_at(g, x - 1, y + 1)
        + alive_at(g, x, y - 1) + alive_at(g, x, y + 1)
        + alive_at(g, x + 1, y - 1) + alive_at(g, x + 1, y) + alive_at(g, x + 1, y + 1)
}

/// Wrapping a coordinate once more changes nothing.
proof fn lemma_alive_at_wrapped(g: Seq<Seq<Cell>>, a: int, b: int)
    ensures
        alive_at(g, a % width(), b % height()) == alive_at(g, a, b),
{
    vstd::arithmetic::div_mod::lemma_mod_twice(a, width());
    vstd::arithmetic::div_mod::lemma_mod_twice(b, height());
}

/// The state of the cell `(x, y)` in the generation that follows `g`.
#[verifier::opaque]
pub open spec fn next_cell_at(g: Seq<Seq<Cell>>, x: int, y: int) -> Cell {
    next_state(g[x][y], neighbours(g, x, y))
}

/// The generation that follows `g`: every cell moves by the transition rule,
/// with neighbours counted in `g` alone.
pub open spec fn next_gen(g: Seq<Seq<Cell>>) -> Seq<Seq<Cell>> {
    Seq::new(width() as nat, |x: int| Seq::new(height() as nat, |y: int| next_cell_at(g, x, y)))
}

/// A grid model with every cell Dead.
pub open spec fn all_dead() -> Seq<Seq<Cell>> {
    Seq::new(width() as nat, |x: int| Seq::new(height() as nat, |y: int| Cell::Dead))
}

/// The cell that a draw stands for: `true` is Alive.
pub open spec fn drawn_cell(b: bool) -> Cell {
    if b {
        Cell::Alive
    } else {
        Cell::Dead
    }
}

/// The grid that a sequence of draws gives, read column by column:
/// the draw at `x * height + y` decides the cell `(x, y)`.
pub open spec fn grid_of_draws(d: Seq<bool>) -> Seq<Seq<Cell>> {
    Seq::new(width() as nat, |x: int| Seq::new(height() as nat, |y: int| drawn_cell(d[flat_index(x, y)])))
}

/// The position of the cell `(x, y)` in the column-major store.
#[verifier::inline]
pub open spec fn flat_index(x: int, y: int) -> int {
    x * height() + y
}

/// The coordinate `v + d` wrapped into `[0, n)`, for a step `d` of at most one.
fn wrapped(v: u32, d: i32, n: u32) -> (r: u32)
    requires
        v < n,
        -1 <= d <= 1,
    ensures
        r == (v + d) % (n as int),
        r < n,
{
    if d < 0 {
        if v == 0 {
            proof {
                vstd::arithmetic::div_mod::lemma_mod_add_multiples_vanish(-1, n as int);
                vstd::arithmetic::div_mod::lemma_small_mod((n - 1) as nat, n as nat);
            }
            n - 1
        } else {
            proof {
                vstd::arithmetic::div_mod::lemma_small_mod((v - 1) as nat, n as nat);
            }
            v - 1
        }
    } else if d > 0 {
        if v + 1 == n {
            proof {
                vstd::arithmetic::div_mod::lemma_mod_self_0(n as int);
            }
            0
        } else {
            proof {
                vstd::arithmetic::div_mod::lemma_small_mod((v + 1) as nat, n as nat);
            }
            v + 1
        }
    } else {
        proof {
            vstd::arithmetic::div_mod::lemma_small_mod(v as nat, n as nat);
        }
        v
    }
}

/// Every neighbour count lies between 0 and 8, whatever the grid and the
/// coordinates.
pub proof fn lemma_neighbours_range(g: Seq<Seq<Cell>>, x: int, y: int)
    ensures
        0 <= neighbours(g, x, y) <= 8,
{
}

/// The next generation depends on the present one alone: two equal grids
/// always have equal successors.
pub proof fn lemma_next_gen_deterministic(g1: Seq<Seq<Cell>>, g2: Seq<Seq<Cell>>)
    requires
        g1 == g2,
    ensures
        next_gen(g1) == next_gen(g2),
{
}

/// A Game of Life grid of `WORLD_WIDTH` by `WORLD_HEIGHT` cells, held in one
/// buffer, column by column.
pub struct World {
    cells: Vec<Cell>,
}

impl View for World {
    type V = Seq<Seq<Cell>>;

    closed spec fn view(&self) -> Seq<Seq<Cell>> {
        Seq::new(width() as nat, |x: int| Seq::new(height() as nat, |y: int| self.cells@[flat_index(x, y)]))
    }
}

impl Clone for World {
    /// A grid with the same cells.
    fn clone(&self) -> (r: World)
        ensures
            r@ == self@,
    {
        proof {
            use_type_invariant(self);
        }
        let cells = self.cells.clone();
        proof {
            assert forall|i: int| 0 <= i < cells@.len() implies cells@[i] == self.cells@[i] by {
                assert(cloned::<Cell>(self.cells@[i], cells@[i]));
            }
            assert(cells@ =~= self.cells@);
        }
        World { cells }
    }
}

impl World {
    #[verifier::type_invariant]
    closed spec fn inv(self) -> bool {
        self.cells@.len() == width() * height()
    }

    /// A grid with every cell Dead.
    pub fn new() -> (r: World)
        ensures
            r@ == all_dead(),
    {
        let n: usize = (WORLD_WIDTH as usize) * (WORLD_HEIGHT as usize);
        let cells = vec![Cell::Dead; n];
        let r = World { cells };
        assert(r@ =~~= all_dead());
        r
    }

    /// The state of the cell `(x, y)`.
    pub fn get_cell(&self, x: u32, y: u32) -> (r: Cell)
        requires
            in_bounds(x as int, y as int),
        ensures
            r == self@[x as int][y as int],
    {
        proof {
            use_type_invariant(self);
        }
        assert((x as usize) * (WORLD_HEIGHT as usize) == flat_index(x as int, 0));
        self.cells[(x as usize) * (WORLD_HEIGHT as usize) + (y as usize)]
    }

    /// Overwrites the state of the cell `(x, y)`; every other cell keeps its state.
    pub fn set_cell(&mut self, x: u32, y: u32, cell: Cell)
        requires
            in_bounds(x as int, y as int),
        ensures
            final(self)@ == old(self)@.update(x as int, old(self)@[x as int].update(y as int, cell)),
    {
        proof {
            use_type_invariant(&*self);
        }
        let g = Ghost(self@);
        assert((x as usize) * (WORLD_HEIGHT as usize) == flat_index(x as int, 0));
        self.cells[(x as usize) * (WORLD_HEIGHT as usize) + (y as usize)] = cell;
        proof {
            let h = g@.update(x as int, g@[x as int].update(y as int, cell));
            assert forall|a: int| 0 <= a < width() implies #[trigger] self@[a] =~= h[a] by {
                assert forall|b: int| 0 <= b < height() implies #[trigger] self@[a][b] == h[a][b] by {
                    assert(flat_index(a, b) == flat_index(x as int, y as int) <==> (a == x && b == y));
                }
            }
            assert(self@ =~~= h);
        }
    }

    /// Sets every cell from a sequence of draws, one per cell, read column by
    /// column: the draw at `x * WORLD_HEIGHT + y` makes the cell `(x, y)` Alive
    /// when it is `true` and Dead when it is `false`.
    pub fn set_random_grid(&mut self, draws: &[bool])
        requires
            draws@.len() == width() * height(),
        ensures
            final(self)@ == grid_of_draws(draws@),
    {
        let mut x: u32 = 0;
        while x < WORLD_WIDTH
            invariant
                x <= WORLD_WIDTH,
                draws@.len() == width() * height(),
                forall|x0: int, y0: int|
                    0 <= x0 < x && 0 <= y0 < height() ==> #[trigger] self@[x0][y0]
                        == drawn_cell(draws@[flat_index(x0, y0)]),
            decreases WORLD_WIDTH - x,
        {
            let mut y: u32 = 0;
            while y < WORLD_HEIGHT
                invariant
                    x < WORLD_WIDTH,
                    y <= WORLD_HEIGHT,
                    draws@.len() == width() * height(),
                    forall|x0: int, y0: int|
                        ((0 <= x0 < x && 0 <= y0 < height()) || (x0 == x && 0 <= y0 < y))
                            ==> #[trigger] self@[x0][y0] == drawn_cell(draws@[flat_index(x0, y0)]),
                decreases WORLD_HEIGHT - y,
            {
                assert((x as usize) * (WORLD_HEIGHT as usize) == flat_index(x as int, 0));
                let i = (x as usize) * (WORLD_HEIGHT as usize) + (y as usize);
                let cell = if draws[i] {
                    Cell::Alive
                } else {
                    Cell::Dead
                };
                self.set_cell(x, y, cell);
                y = y + 1;
            }
            x = x + 1;
        }
        assert(self@ =~~= grid_of_draws(draws@));
    }

    /// 1 when the cell `(x, y)` is Alive, 0 when it is Dead.
    fn alive_count(&self, x: u32, y: u32) -> (r: u8)
        requires
            in_bounds(x as int, y as int),
        ensures
            r == alive_at(self@, x as int, y as int),
    {
        proof {
            vstd::arithmetic::div_mod::lemma_small_mod(x as nat, WORLD_WIDTH as nat);
            vstd::arithmetic::div_mod::lemma_small_mod(y as nat, WORLD_HEIGHT as nat);
        }
        match self.get_cell(x, y) {
            Cell::Alive => 1,
            Cell::Dead => 0,
        }
    }

    /// The number of Alive cells among the eight neighbours of `(x, y)`,
    /// where the grid wraps around at its edges.
    pub fn count_neighbours(&self, x: u32, y: u32) -> (r: u8)
        requires
            in_bounds(x as int, y as int),
        ensures
            r == neighbours(self@, x as int, y as int),
            r <= 8,
    {
        let left = wrapped(x, -1, WORLD_WIDTH);
        let right = wrapped(x, 1, WORLD_WIDTH);
        let up = wrapped(y, -1, WORLD_HEIGHT);
        let down = wrapped(y, 1, WORLD_HEIGHT);
        proof {
            let (gx, gy) = (x as int, y as int);
            lemma_alive_at_wrapped(self@, gx - 1, gy - 1);
            lemma_alive_at_wrapped(self@, gx - 1, gy);
            lemma_alive_at_wrapped(self@, gx - 1, gy + 1);
            lemma_alive_at_wrapped(self@, gx, gy - 1);
            lemma_alive_at_wrapped(self@, gx, gy + 1);
            lemma_alive_at_wrapped(self@, gx + 1, gy - 1);
            lemma_alive_at_wrapped(self@, gx + 1, gy);
            lemma_alive_at_wrapped(self@, gx + 1, gy + 1);
        }
        self.alive_count(left, up) + self.alive_count(left, y) + self.alive_count(left, down)
            + self.alive_count(x, up) + self.alive_count(x, down)
            + self.alive_count(right, up) + self.alive_count(right, y) + self.alive_count(right, down)
    }

    /// The cells of the next generation, in the order of the store.
    fn next_cells(&self) -> (r: Vec<Cell>)
        ensures
            r@.len() == width() * height(),
            forall|x: int, y: int|
                in_bounds(x, y) ==> r@[#[trigger] flat_index(x, y)] == next_cell_at(self@, x, y),
    {
        let mut r: Vec<Cell> = Vec::new();
        let mut x: u32 = 0;
        while x < WORLD_WIDTH
            invariant
                x <= WORLD_WIDTH,
                r@.len() == flat_index(x as int, 0),
                forall|x0: int, y0: int|
                    0 <= x0 < x && 0 <= y0 < height() ==> r@[#[trigger] flat_index(x0, y0)]
                        == next_cell_at(self@, x0, y0),
            decreases WORLD_WIDTH - x,
        {
            let mut y: u32 = 0;
            while y < WORLD_HEIGHT
                invariant
                    x < WORLD_WIDTH,
                    y <= WORLD_HEIGHT,
                    r@.len() == flat_index(x as int, y as int),
                    forall|x0: int, y0: int|
                        ((0 <= x0 < x && 0 <= y0 < height()) || (x0 == x && 0 <= y0 < y))
                            ==> r@[#[trigger] flat_index(x0, y0)] == next_cell_at(self@, x0, y0),
                decreases WORLD_HEIGHT - y,
            {
                let cell = self.get_cell(x, y);
                let n = self.count_neighbours(x, y);
                let c = next_cell(cell, n);
                assert(c == next_cell_at(self@, x as int, y as int)) by {
                    reveal(next_cell_at);
                }
                r.push(c);
                y = y + 1;
            }
            x = x + 1;
        }
        r
    }

    /// Replaces the grid by its next generation. Every cell's new state is
    /// computed from the grid as it was before the call.
    pub fn tick(&mut self)
        ensures
            final(self)@ == next_gen(old(self)@),
    {
        let new_cells = self.next_cells();
        let g = Ghost(self@);
        self.cells = new_cells;
        assert forall|x: int| 0 <= x < width() implies #[trigger] self@[x] =~= next_gen(g@)[x] by {
            assert forall|y: int| 0 <= y < height() implies #[trigger] self@[x][y] == next_gen(g@)[x][y] by {
                assert(in_bounds(x, y));
            }
        }
        assert(self@ =~~= next_gen(g@));
    }
}

/// Every grid, however it was reached, has exactly `WORLD_WIDTH` columns of
/// `WORLD_HEIGHT` cells: its coordinates are those of `in_bounds`.
pub proof fn lemma_dimensions(w: &World)
    ensures
        width() == WORLD_WIDTH,
        height() == WORLD_HEIGHT,
        w@.len() == width(),
        forall|x: int| 0 <= x < width() ==> #[trigger] w@[x].len() == height(),
{
}

} // verus!
