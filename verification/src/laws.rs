use vstd::prelude::*;

use crate::element::{lifetime_of, Element};
use crate::grid::{cell_at, grid_wf, in_world, lemma_put_cells, put, WIDTH};
use crate::model::{
    after_dispatch, after_set_if_empty, cell_step, fresh_particle, has_neighbor,
    lemma_rowmajor_bounds, move_allowed, neighbor_matches, offset_dx, offset_dy, stamped,
    sweep_upto,
};
use crate::particle::Particle;

verus! {

/// Wall is never a successful movement destination: whatever the source
/// cell holds and whichever direction the move goes, the movement rule
/// refuses a destination that holds Wall.
pub proof fn lemma_wall_never_destination(
    g: Seq<Seq<Particle>>,
    x: int,
    y: int,
    nx: int,
    ny: int,
)
    requires
        in_world(nx, ny),
        cell_at(g, nx, ny).element == Element::Wall,
    ensures
        !move_allowed(g, x, y, nx, ny),
{
}

/// Writing into an occupied cell never happens: `set_if_empty` leaves the
/// grid untouched whenever the target cell does not hold Air, and also
/// whenever the target is out of bounds.
pub proof fn lemma_set_if_empty_never_overwrites(
    g: Seq<Seq<Particle>>,
    x: int,
    y: int,
    p: Particle,
)
    requires
        !in_world(x, y) || cell_at(g, x, y).element != Element::Air,
    ensures
        after_set_if_empty(g, x, y, p) == g,
{
}

/// Lifetime expiry is strict.  A cell of a decaying kind that the sweep
/// visits is erased to fresh Air exactly when its age strictly exceeds
/// its lifetime; at age equal to the lifetime it is still stamped and
/// dispatched as its own kind.
pub proof fn lemma_decay_is_strict(
    g: Seq<Seq<Particle>>,
    x: int,
    y: int,
    tick: u32,
    d1: u32,
    d2: u32,
    d3: u32,
)
    requires
        in_world(x, y),
        cell_at(g, x, y).last_ticked != tick,
        lifetime_of(cell_at(g, x, y).element) > 0,
    ensures
        cell_at(g, x, y).age > lifetime_of(cell_at(g, x, y).element) ==> cell_step(
            g,
            x,
            y,
            tick,
            d1,
            d2,
            d3,
        ) == put(g, x, y, fresh_particle(Element::Air, tick)),
        cell_at(g, x, y).age <= lifetime_of(cell_at(g, x, y).element) ==> cell_step(
            g,
            x,
            y,
            tick,
            d1,
            d2,
            d3,
        ) == after_dispatch(
            put(g, x, y, stamped(cell_at(g, x, y), tick)),
            x,
            y,
            cell_at(g, x, y).element,
            tick,
            d1,
            d2,
            d3,
        ),
{
}

/// No neighbor offset points at the cell itself.
proof fn lemma_offsets_nonzero(k: int)
    requires
        0 <= k < 8,
    ensures
        offset_dx(k) != 0 || offset_dy(k) != 0,
{
}

/// Replacing the cell at `(x, y)` itself does not change what the eight
/// neighbors of `(x, y)` hold.
pub proof fn lemma_neighbors_ignore_center(
    g: Seq<Seq<Particle>>,
    x: int,
    y: int,
    p: Particle,
    e: Element,
)
    requires
        grid_wf(g),
        in_world(x, y),
    ensures
        has_neighbor(put(g, x, y, p), x, y, e) == has_neighbor(g, x, y, e),
{
    let gm = put(g, x, y, p);
    lemma_put_cells(g, x, y, p);
    if has_neighbor(g, x, y, e) {
        let k0 = choose|k: int| 0 <= k < 8 && #[trigger] neighbor_matches(g, x, y, k, e);
        lemma_offsets_nonzero(k0);
        assert(neighbor_matches(gm, x, y, k0, e));
    }
    if has_neighbor(gm, x, y, e) {
        let k0 = choose|k: int| 0 <= k < 8 && #[trigger] neighbor_matches(gm, x, y, k, e);
        lemma_offsets_nonzero(k0);
        assert(neighbor_matches(g, x, y, k0, e));
    }
}

/// Transformation comes before movement.  A Water cell with a Fire or
/// Lava neighbor that the sweep visits becomes a fresh Steam cell of age
/// 0 in the very cell it occupied, and nothing else of the grid changes:
/// no fall and no jitter is attempted for it this tick.
pub proof fn lemma_water_transforms_before_moving(
    g: Seq<Seq<Particle>>,
    x: int,
    y: int,
    tick: u32,
    d1: u32,
    d2: u32,
    d3: u32,
)
    requires
        grid_wf(g),
        in_world(x, y),
        cell_at(g, x, y).element == Element::Water,
        cell_at(g, x, y).last_ticked != tick,
        has_neighbor(g, x, y, Element::Fire) || has_neighbor(g, x, y, Element::Lava),
    ensures
        cell_step(g, x, y, tick, d1, d2, d3) == put(g, x, y, fresh_particle(Element::Steam, tick)),
{
    let c = cell_at(g, x, y);
    let gs = put(g, x, y, stamped(c, tick));
    lemma_neighbors_ignore_center(g, x, y, stamped(c, tick), Element::Fire);
    lemma_neighbors_ignore_center(g, x, y, stamped(c, tick), Element::Lava);
    assert(cell_step(g, x, y, tick, d1, d2, d3) == put(
        gs,
        x,
        y,
        fresh_particle(Element::Steam, tick),
    ));
    assert(put(gs, x, y, fresh_particle(Element::Steam, tick)) =~~= put(
        g,
        x,
        y,
        fresh_particle(Element::Steam, tick),
    ));
}

/// The same, for Steam near Ice: a Steam cell with an Ice neighbor that
/// the sweep visits condenses into a fresh Water cell of age 0 in place,
/// attempting no movement this tick.
pub proof fn lemma_steam_condenses_before_moving(
    g: Seq<Seq<Particle>>,
    x: int,
    y: int,
    tick: u32,
    d1: u32,
    d2: u32,
    d3: u32,
)
    requires
        grid_wf(g),
        in_world(x, y),
        cell_at(g, x, y).element == Element::Steam,
        cell_at(g, x, y).last_ticked != tick,
        has_neighbor(g, x, y, Element::Ice),
    ensures
        cell_step(g, x, y, tick, d1, d2, d3) == put(g, x, y, fresh_particle(Element::Water, tick)),
{
    let c = cell_at(g, x, y);
    let gs = put(g, x, y, stamped(c, tick));
    lemma_neighbors_ignore_center(g, x, y, stamped(c, tick), Element::Ice);
    assert(cell_step(g, x, y, tick, d1, d2, d3) == put(
        gs,
        x,
        y,
        fresh_particle(Element::Water, tick),
    ));
    assert(put(gs, x, y, fresh_particle(Element::Water, tick)) =~~= put(
        g,
        x,
        y,
        fresh_particle(Element::Water, tick),
    ));
}

/// An all-Air grid is a fixed point of one sweep visit: the visited cell
/// is stamped and aged but stays Air, and nothing moves.
proof fn lemma_all_air_cell_step(
    g: Seq<Seq<Particle>>,
    x: int,
    y: int,
    tick: u32,
    d1: u32,
    d2: u32,
    d3: u32,
)
    requires
        grid_wf(g),
        in_world(x, y),
        crate::model::all_air(g),
    ensures
        grid_wf(cell_step(g, x, y, tick, d1, d2, d3)),
        crate::model::all_air(cell_step(g, x, y, tick, d1, d2, d3)),
{
    let c = cell_at(g, x, y);
    if c.last_ticked == tick {
    } else {
        let gs = put(g, x, y, stamped(c, tick));
        lemma_put_cells(g, x, y, stamped(c, tick));
        assert forall|i: int, j: int|
            in_world(i, j) implies (#[trigger] cell_at(gs, i, j)).element == Element::Air by {
            if !(i == x && j == y) {
                assert(cell_at(gs, i, j) == cell_at(g, i, j));
            }
        }
    }
}

/// An all-Air grid is a fixed point of the sweep, whatever the tick and
/// whatever the draws: every cell still holds Air after any number of
/// visited cells, so stepping such a grid any number of times never
/// conjures a particle.
pub proof fn lemma_all_air_fixed_point(
    g0: Seq<Seq<Particle>>,
    tick: u32,
    ds: Seq<(u32, u32, u32)>,
    n: int,
)
    requires
        grid_wf(g0),
        crate::model::all_air(g0),
        n <= WIDTH as int * crate::grid::HEIGHT as int,
    ensures
        grid_wf(sweep_upto(g0, tick, ds, n)),
        crate::model::all_air(sweep_upto(g0, tick, ds, n)),
    decreases n,
{
    if n > 0 {
        lemma_all_air_fixed_point(g0, tick, ds, n - 1);
        lemma_rowmajor_bounds(n - 1);
        lemma_all_air_cell_step(
            sweep_upto(g0, tick, ds, n - 1),
            (n - 1) % (WIDTH as int),
            (n - 1) / (WIDTH as int),
            tick,
            ds[n - 1].0,
            ds[n - 1].1,
            ds[n - 1].2,
        );
    }
}

} // verus!
