use vstd::prelude::*;

use crate::element::Element;
use crate::particle::Particle;

verus! {

/// Number of columns of every grid.
pub const WIDTH: i32 = 64;

/// Number of rows of every grid.
pub const HEIGHT: i32 = 64;

/// Whether `(x, y)` addresses a cell of the grid.
pub open spec fn in_world(x: int, y: int) -> bool {
    0 <= x < WIDTH as int && 0 <= y < HEIGHT as int
}

/// A grid model is well formed when it has exactly `HEIGHT` rows of
/// exactly `WIDTH` cells each.
pub open spec fn grid_wf(g: Seq<Seq<Particle>>) -> bool {
    &&& g.len() == HEIGHT as int
    &&& forall|j: int| 0 <= j < g.len() ==> (#[trigger] g[j]).len() == WIDTH as int
}

/// The cell of the model at column `x` of row `y`.
pub open spec fn cell_at(g: Seq<Seq<Particle>>, x: int, y: int) -> Particle {
    g[y][x]
}

/// The model with the cell at `(x, y)` replaced by `p`.
pub open spec fn put(g: Seq<Seq<Particle>>, x: int, y: int, p: Particle) -> Seq<Seq<Particle>> {
    g.update(y, g[y].update(x, p))
}

/// The model with the full states of the cells at `(x, y)` and `(nx, ny)`
/// exchanged.
pub open spec fn swapped(
    g: Seq<Seq<Particle>>,
    x: int,
    y: int,
    nx: int,
    ny: int,
) -> Seq<Seq<Particle>> {
    put(put(g, nx, ny, cell_at(g, x, y)), x, y, cell_at(g, nx, ny))
}

/// Replacing one cell leaves a well-formed model well formed, changes that
/// cell to the new particle, and leaves every other cell alone.
pub proof fn lemma_put_cells(g: Seq<Seq<Particle>>, x: int, y: int, p: Particle)
    requires
        grid_wf(g),
        in_world(x, y),
    ensures
        grid_wf(put(g, x, y, p)),
        cell_at(put(g, x, y, p), x, y) == p,
        forall|i: int, j: int|
            in_world(i, j) && !(i == x && j == y) ==> cell_at(put(g, x, y, p), i, j) == cell_at(
                g,
                i,
                j,
            ),
{
}

/// Exchanging two cells leaves a well-formed model well formed, moves each
/// cell's full state to the other position, and leaves every other cell
/// alone.
pub proof fn lemma_swap_exchanges_cells(g: Seq<Seq<Particle>>, x: int, y: int, nx: int, ny: int)
    requires
        grid_wf(g),
        in_world(x, y),
        in_world(nx, ny),
    ensures
        grid_wf(swapped(g, x, y, nx, ny)),
        cell_at(swapped(g, x, y, nx, ny), nx, ny) == cell_at(g, x, y),
        cell_at(swapped(g, x, y, nx, ny), x, y) == cell_at(g, nx, ny),
        forall|i: int, j: int|
            in_world(i, j) && !(i == x && j == y) && !(i == nx && j == ny) ==> cell_at(
                swapped(g, x, y, nx, ny),
                i,
                j,
            ) == cell_at(g, i, j),
{
}

/// The fixed-size store of all cells; the sole authoritative simulation
/// state.
pub struct Grid {
    pub particles: Vec<Vec<Particle>>,
}

/// Each row of the abstract model is the view of the stored row.
pub proof fn lemma_view_index(g: &Grid, j: int)
    requires
        0 <= j < g.particles@.len(),
    ensures
        g@[j] == g.particles@[j]@,
        g@.len() == g.particles@.len(),
{
}

impl View for Grid {
    type V = Seq<Seq<Particle>>;

    open spec fn view(&self) -> Seq<Seq<Particle>> {
        Seq::new(self.particles@.len(), |j: int| self.particles@[j]@)
    }
}

/// A grid is well formed exactly when its abstract model is.
pub proof fn lemma_wf_model(g: &Grid)
    ensures
        g.wf() <==> grid_wf(g@),
{
    if g.wf() {
        assert forall|j: int| 0 <= j < g@.len() implies (#[trigger] g@[j]).len()
            == WIDTH as int by {
            lemma_view_index(g, j);
        }
    }
    if grid_wf(g@) {
        assert forall|j: int| 0 <= j < g.particles@.len() implies (#[trigger] g.particles@[j])@.len()
            == WIDTH as int by {
            lemma_view_index(g, j);
        }
    }
}

impl Grid {
    /// Structural well-formedness: exactly `HEIGHT` rows of `WIDTH` cells.
    pub open spec fn wf(&self) -> bool {
        &&& self.particles@.len() == HEIGHT as int
        &&& forall|j: int|
            0 <= j < self.particles@.len() ==> (#[trigger] self.particles@[j])@.len()
                == WIDTH as int
    }

    /// A grid fully populated with default (Air) cells.
    pub fn new() -> (r: Grid)
        ensures
            r.wf(),
            forall|i: int, j: int|
                in_world(i, j) ==> {
                    &&& (#[trigger] cell_at(r@, i, j)).element == Element::Air
                    &&& cell_at(r@, i, j).last_ticked == 0
                    &&& cell_at(r@, i, j).age == 0
                },
    {
        let mut rows: Vec<Vec<Particle>> = Vec::new();
        let mut y: usize = 0;
        while y < HEIGHT as usize
            invariant
                y <= HEIGHT as usize,
                rows@.len() == y as int,
                forall|j: int|
                    0 <= j < y as int ==> {
                        &&& (#[trigger] rows@[j])@.len() == WIDTH as int
                        &&& forall|i: int|
                            0 <= i < WIDTH as int ==> {
                                &&& (#[trigger] rows@[j]@[i]).element == Element::Air
                                &&& rows@[j]@[i].last_ticked == 0
                                &&& rows@[j]@[i].age == 0
                            }
                    },
            decreases HEIGHT as int - y as int,
        {
            let mut row: Vec<Particle> = Vec::new();
            let mut x: usize = 0;
            while x < WIDTH as usize
                invariant
                    x <= WIDTH as usize,
                    row@.len() == x as int,
                    forall|i: int|
                        0 <= i < x as int ==> {
                            &&& (#[trigger] row@[i]).element == Element::Air
                            &&& row@[i].last_ticked == 0
                            &&& row@[i].age == 0
                        },
                decreases WIDTH as int - x as int,
            {
                row.push(Particle::default());
                x = x + 1;
            }
            rows.push(row);
            y = y + 1;
        }
        Grid { particles: rows }
    }

    /// Whether `(x, y)` addresses a cell of the grid.
    pub fn pos_in_world(x: i32, y: i32) -> (r: bool)
        ensures
            r == in_world(x as int, y as int),
    {
        x >= 0 && x < WIDTH && y >= 0 && y < HEIGHT
    }

    /// Read-only access to the cell at `(x, y)`; `None` exactly when the
    /// position is out of bounds.
    pub fn get(&self, x: i32, y: i32) -> (r: Option<&Particle>)
        requires
            self.wf(),
        ensures
            match r {
                Some(p) => in_world(x as int, y as int) && *p == cell_at(
                    self@,
                    x as int,
                    y as int,
                ),
                None => !in_world(x as int, y as int),
            },
    {
        if Grid::pos_in_world(x, y) {
            let row: &Vec<Particle> = &self.particles[y as usize];
            Some(&row[x as usize])
        } else {
            None
        }
    }

    /// Mutable access to the cell at `(x, y)`; `None` exactly when the
    /// position is out of bounds.  Whatever the caller writes through the
    /// returned reference becomes the cell at `(x, y)`; every other cell is
    /// untouched.
    pub fn get_mut(&mut self, x: i32, y: i32) -> (r: Option<&mut Particle>)
        requires
            old(self).wf(),
        ensures
            match r {
                Some(p) => {
                    &&& in_world(x as int, y as int)
                    &&& *p == cell_at(old(self)@, x as int, y as int)
                    &&& final(self).wf()
                    &&& cell_at(final(self)@, x as int, y as int) == *final(p)
                    &&& forall|i: int, j: int|
                        in_world(i, j) && !(i == x as int && j == y as int) ==> cell_at(
                            final(self)@,
                            i,
                            j,
                        ) == cell_at(old(self)@, i, j)
                },
                None => !in_world(x as int, y as int) && *final(self) == *old(self),
            },
    {
        if Grid::pos_in_world(x, y) {
            proof {
                lemma_view_index(self, y as int);
                assert(self.particles@[y as int]@.len() == WIDTH as int);
            }
            let row: &mut Vec<Particle> = &mut self.particles[y as usize];
            Some(&mut row[x as usize])
        } else {
            None
        }
    }

    /// Overwrite the cell at `(x, y)` with `p`; a silent no-op out of
    /// bounds.
    pub fn set(&mut self, x: i32, y: i32, p: Particle)
        requires
            old(self).wf(),
        ensures
            final(self).wf(),
            in_world(x as int, y as int) ==> final(self)@ == put(
                old(self)@,
                x as int,
                y as int,
                p,
            ),
            !in_world(x as int, y as int) ==> *final(self) == *old(self),
    {
        if !Grid::pos_in_world(x, y) {
            return ;
        }
        proof {
            lemma_view_index(self, y as int);
            assert(self.particles@[y as int]@.len() == WIDTH as int);
        }
        let row: &mut Vec<Particle> = &mut self.particles[y as usize];
        row[x as usize] = p;
        proof {
            lemma_view_index(self, y as int);
            assert(self@ =~~= put(old(self)@, x as int, y as int, p));
        }
    }

    /// Exchange the full states of the cells at `(x, y)` and `(nx, ny)`.
    /// Fails, mutating nothing, exactly when either endpoint is out of
    /// bounds.
    pub fn swap(&mut self, x: i32, y: i32, new_x: i32, new_y: i32) -> (r: bool)
        requires
            old(self).wf(),
        ensures
            final(self).wf(),
            r == (in_world(x as int, y as int) && in_world(new_x as int, new_y as int)),
            r ==> final(self)@ == swapped(
                old(self)@,
                x as int,
                y as int,
                new_x as int,
                new_y as int,
            ),
            !r ==> *final(self) == *old(self),
    {
        if !Grid::pos_in_world(new_x, new_y) || !Grid::pos_in_world(x, y) {
            return false;
        }
        proof {
            lemma_view_index(self, y as int);
            lemma_view_index(self, new_y as int);
            assert(self.particles@[y as int]@.len() == WIDTH as int);
            assert(self.particles@[new_y as int]@.len() == WIDTH as int);
        }
        let row_a: &Vec<Particle> = &self.particles[y as usize];
        let a: Particle = row_a[x as usize];
        let row_b: &Vec<Particle> = &self.particles[new_y as usize];
        let b: Particle = row_b[new_x as usize];
        let row_m: &mut Vec<Particle> = &mut self.particles[new_y as usize];
        row_m[new_x as usize] = a;
        proof {
            assert(self.particles@[y as int]@.len() == WIDTH as int);
        }
        let row_n: &mut Vec<Particle> = &mut self.particles[y as usize];
        row_n[x as usize] = b;
        proof {
            assert(self@ =~~= swapped(old(self)@, x as int, y as int, new_x as int, new_y as int));
        }
        true
    }

    /// Every cell together with its coordinates, in row-major order: the
    /// entry for `(x, y)` is at index `y * WIDTH + x`.
    pub fn iter(&self) -> (r: Vec<(i32, i32, Particle)>)
        requires
            self.wf(),
        ensures
            r@.len() == WIDTH as int * HEIGHT as int,
            forall|i: int, j: int|
                in_world(i, j) ==> {
                    &&& (#[trigger] r@[j * WIDTH as int + i]).0 == i as i32
                    &&& r@[j * WIDTH as int + i].1 == j as i32
                    &&& r@[j * WIDTH as int + i].2 == cell_at(self@, i, j)
                },
    {
        let mut out: Vec<(i32, i32, Particle)> = Vec::new();
        let mut y: i32 = 0;
        while y < HEIGHT
            invariant
                self.wf(),
                0 <= y <= HEIGHT,
                out@.len() == y as int * WIDTH as int,
                forall|i: int, j: int|
                    0 <= i < WIDTH as int && 0 <= j < y as int ==> {
                        &&& (#[trigger] out@[j * WIDTH as int + i]).0 == i as i32
                        &&& out@[j * WIDTH as int + i].1 == j as i32
                        &&& out@[j * WIDTH as int + i].2 == cell_at(self@, i, j)
                    },
            decreases HEIGHT as int - y as int,
        {
            let mut x: i32 = 0;
            while x < WIDTH
                invariant
                    self.wf(),
                    0 <= y < HEIGHT,
                    0 <= x <= WIDTH,
                    out@.len() == y as int * WIDTH as int + x as int,
                    forall|i: int, j: int|
                        0 <= i < WIDTH as int && 0 <= j < y as int ==> {
                            &&& (#[trigger] out@[j * WIDTH as int + i]).0 == i as i32
                            &&& out@[j * WIDTH as int + i].1 == j as i32
                            &&& out@[j * WIDTH as int + i].2 == cell_at(self@, i, j)
                        },
                    forall|i: int|
                        0 <= i < x as int ==> {
                            &&& (#[trigger] out@[y as int * WIDTH as int + i]).0 == i as i32
                            &&& out@[y as int * WIDTH as int + i].1 == y as i32
                            &&& out@[y as int * WIDTH as int + i].2 == cell_at(self@, i, y as int)
                        },
                decreases WIDTH as int - x as int,
            {
                let row: &Vec<Particle> = &self.particles[y as usize];
                let p: Particle = row[x as usize];
                out.push((x, y, p));
                x = x + 1;
            }
            y = y + 1;
        }
        out
    }
}

} // verus!
