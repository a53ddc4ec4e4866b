use vstd::prelude::*;

use crate::element::{density_of, lifetime_of, Element};
use crate::grid::{
    cell_at, grid_wf, in_world, lemma_put_cells, lemma_swap_exchanges_cells, put, swapped, HEIGHT,
    WIDTH,
};
use crate::particle::Particle;

verus! {

/// Number of fallback directions a sideways pick chooses from.
pub const SIDE_PICKS: u32 = 2;

/// Size of the chance draw of Fire and of Lava; the draw landing on 0 is
/// the one-in-sixteen transformation chance.
pub const CHANCE_RANGE: u32 = 16;

/// Number of neighbor offsets an omnidirectional jitter picks from.
pub const NEIGHBOR_COUNT: u32 = 8;

/// Column offset of the `k`-th neighbor, in the fixed scan order.
pub open spec fn offset_dx(k: int) -> int {
    if k == 0 {
        -1
    } else if k == 1 {
        0
    } else if k == 2 {
        1
    } else if k == 3 {
        -1
    } else if k == 4 {
        1
    } else if k == 5 {
        -1
    } else if k == 6 {
        0
    } else {
        1
    }
}

/// Row offset of the `k`-th neighbor, in the fixed scan order.
pub open spec fn offset_dy(k: int) -> int {
    if k <= 2 {
        -1
    } else if k <= 4 {
        0
    } else {
        1
    }
}

/// Whether the `k`-th neighbor of `(x, y)` exists and holds `e`.
pub open spec fn neighbor_matches(
    g: Seq<Seq<Particle>>,
    x: int,
    y: int,
    k: int,
    e: Element,
) -> bool {
    &&& in_world(x + offset_dx(k), y + offset_dy(k))
    &&& cell_at(g, x + offset_dx(k), y + offset_dy(k)).element == e
}

/// Whether at least one of the eight neighbors of `(x, y)` holds `e`;
/// neighbors outside the grid are skipped.
pub open spec fn has_neighbor(g: Seq<Seq<Particle>>, x: int, y: int, e: Element) -> bool {
    exists|k: int| 0 <= k < 8 && #[trigger] neighbor_matches(g, x, y, k, e)
}

/// The movement rule: whether the occupant of `(x, y)` may relocate into
/// `(nx, ny)`.  Both cells must exist; a Wall destination always refuses;
/// an Air destination always accepts; otherwise the density ordering
/// decides by the vertical relation of the two rows.
pub open spec fn move_allowed(g: Seq<Seq<Particle>>, x: int, y: int, nx: int, ny: int) -> bool {
    &&& in_world(x, y)
    &&& in_world(nx, ny)
    &&& cell_at(g, nx, ny).element != Element::Wall
    &&& {
        ||| cell_at(g, nx, ny).element == Element::Air
        ||| (ny == y && density_of(cell_at(g, x, y).element) >= density_of(
            cell_at(g, nx, ny).element,
        ))
        ||| (ny > y && density_of(cell_at(g, x, y).element) > density_of(
            cell_at(g, nx, ny).element,
        ))
        ||| (ny < y && density_of(cell_at(g, x, y).element) < density_of(
            cell_at(g, nx, ny).element,
        ))
    }
}

/// The grid after one move attempt: the two cells exchanged on success,
/// unchanged on failure.
pub open spec fn after_move(g: Seq<Seq<Particle>>, x: int, y: int, nx: int, ny: int) -> Seq<
    Seq<Particle>,
> {
    if move_allowed(g, x, y, nx, ny) {
        swapped(g, x, y, nx, ny)
    } else {
        g
    }
}

/// One fall step from `(x, y)` with fallback pick `d`: on the last row the
/// cell counts as handled without moving; otherwise straight down is
/// tried, and if it is refused the one diagonal picked by `d` (0 is
/// down-left, 1 is down-right) is tried instead.  The flag tells whether
/// any attempt succeeded.
pub open spec fn after_fall(g: Seq<Seq<Particle>>, x: int, y: int, d: u32) -> (
    Seq<Seq<Particle>>,
    bool,
) {
    if y == HEIGHT as int - 1 {
        (g, true)
    } else if move_allowed(g, x, y, x, y + 1) {
        (swapped(g, x, y, x, y + 1), true)
    } else {
        let nx = if d == 0 {
            x - 1
        } else {
            x + 1
        };
        (after_move(g, x, y, nx, y + 1), move_allowed(g, x, y, nx, y + 1))
    }
}

/// Mirror of [`after_fall`] against the first row, moving upward.
pub open spec fn after_fall_up(g: Seq<Seq<Particle>>, x: int, y: int, d: u32) -> (
    Seq<Seq<Particle>>,
    bool,
) {
    if y == 0 {
        (g, true)
    } else if move_allowed(g, x, y, x, y - 1) {
        (swapped(g, x, y, x, y - 1), true)
    } else {
        let nx = if d == 0 {
            x - 1
        } else {
            x + 1
        };
        (after_move(g, x, y, nx, y - 1), move_allowed(g, x, y, nx, y - 1))
    }
}

/// One sideways jitter: the single neighbor picked by `d` (0 is left, 1 is
/// right) is tried.
pub open spec fn after_jitter(g: Seq<Seq<Particle>>, x: int, y: int, d: u32) -> (
    Seq<Seq<Particle>>,
    bool,
) {
    let nx = if d == 0 {
        x - 1
    } else {
        x + 1
    };
    (after_move(g, x, y, nx, y), move_allowed(g, x, y, nx, y))
}

/// One omnidirectional jitter: the single neighbor picked by `d` out of
/// all eight is tried.
pub open spec fn after_expand_jitter(g: Seq<Seq<Particle>>, x: int, y: int, d: u32) -> (
    Seq<Seq<Particle>>,
    bool,
) {
    let nx = x + offset_dx(d as int);
    let ny = y + offset_dy(d as int);
    (after_move(g, x, y, nx, ny), move_allowed(g, x, y, nx, ny))
}

/// Writing `p` at `(x, y)` only when that cell currently holds Air.
pub open spec fn after_set_if_empty(g: Seq<Seq<Particle>>, x: int, y: int, p: Particle) -> Seq<
    Seq<Particle>,
> {
    if in_world(x, y) && cell_at(g, x, y).element == Element::Air {
        put(g, x, y, p)
    } else {
        g
    }
}

/// A particle of kind `e` freshly created at `tick`.
pub open spec fn fresh_particle(e: Element, tick: u32) -> Particle {
    Particle { element: e, last_ticked: tick, age: 0 }
}

/// The cell `c` as the sweep stamps it: processed at `tick`, one tick
/// older.
pub open spec fn stamped(c: Particle, tick: u32) -> Particle {
    Particle { element: c.element, last_ticked: tick, age: (c.age + 1) as u32 }
}

/// Falling kinds: fall, and if that is blocked jitter sideways once.
pub open spec fn after_fall_chain(g: Seq<Seq<Particle>>, x: int, y: int, d1: u32, d2: u32) -> Seq<
    Seq<Particle>,
> {
    let moved = after_fall(g, x, y, d1);
    if moved.1 {
        moved.0
    } else {
        after_jitter(moved.0, x, y, d2).0
    }
}

/// Rising kinds: fall upward, and if that is blocked jitter sideways once.
pub open spec fn after_rise_chain(g: Seq<Seq<Particle>>, x: int, y: int, d1: u32, d2: u32) -> Seq<
    Seq<Particle>,
> {
    let moved = after_fall_up(g, x, y, d1);
    if moved.1 {
        moved.0
    } else {
        after_jitter(moved.0, x, y, d2).0
    }
}

/// The per-kind behavior of the already-stamped cell at `(x, y)` whose
/// kind is `e`, given the up-to-three draws the branch may consume:
/// `d1` for the fall or rise pick, `d2` for the jitter pick, `d3` for the
/// transformation chance of Fire and of Lava.
pub open spec fn after_dispatch(
    g: Seq<Seq<Particle>>,
    x: int,
    y: int,
    e: Element,
    tick: u32,
    d1: u32,
    d2: u32,
    d3: u32,
) -> Seq<Seq<Particle>> {
    match e {
        Element::Air => g,
        Element::Sand => after_fall(g, x, y, d1).0,
        Element::Oil => after_fall_chain(g, x, y, d1, d2),
        Element::Water => {
            if has_neighbor(g, x, y, Element::Fire) || has_neighbor(g, x, y, Element::Lava) {
                put(g, x, y, fresh_particle(Element::Steam, tick))
            } else {
                after_fall_chain(g, x, y, d1, d2)
            }
        },
        Element::Fire => {
            let gm = after_rise_chain(g, x, y, d1, d2);
            if d3 == 0 {
                put(gm, x, y, fresh_particle(Element::Smoke, tick))
            } else {
                gm
            }
        },
        Element::Smoke => after_rise_chain(g, x, y, d1, d2),
        Element::Steam => {
            if has_neighbor(g, x, y, Element::Ice) {
                put(g, x, y, fresh_particle(Element::Water, tick))
            } else {
                after_rise_chain(g, x, y, d1, d2)
            }
        },
        Element::Wood => g,
        Element::Wall => g,
        Element::Ice => after_fall(g, x, y, d1).0,
        Element::Lava => {
            let gm = after_fall_chain(g, x, y, d1, d2);
            if d3 == 0 {
                after_set_if_empty(gm, x, y - 1, fresh_particle(Element::Fire, tick))
            } else {
                gm
            }
        },
    }
}

/// One visit of the sweep to `(x, y)`: skip a cell already stamped this
/// tick; decay a cell strictly older than its positive lifetime into
/// fresh Air; otherwise stamp it and run its kind's behavior.
pub open spec fn cell_step(
    g: Seq<Seq<Particle>>,
    x: int,
    y: int,
    tick: u32,
    d1: u32,
    d2: u32,
    d3: u32,
) -> Seq<Seq<Particle>> {
    let c = cell_at(g, x, y);
    if c.last_ticked == tick {
        g
    } else if lifetime_of(c.element) > 0 && c.age > lifetime_of(c.element) {
        put(g, x, y, fresh_particle(Element::Air, tick))
    } else {
        after_dispatch(put(g, x, y, stamped(c, tick)), x, y, c.element, tick, d1, d2, d3)
    }
}

/// Bounds of the draws one cell visit may consume.
pub open spec fn draws_valid(ds: Seq<(u32, u32, u32)>) -> bool {
    forall|k: int|
        0 <= k < ds.len() ==> {
            &&& (#[trigger] ds[k]).0 < SIDE_PICKS
            &&& ds[k].1 < SIDE_PICKS
            &&& ds[k].2 < CHANCE_RANGE
        }
}

/// The grid after the sweep has visited the first `n` cells in row-major
/// order (cell `k` is column `k % WIDTH` of row `k / WIDTH`), consuming
/// the `k`-th draw triple at the `k`-th cell.
pub open spec fn sweep_upto(
    g0: Seq<Seq<Particle>>,
    tick: u32,
    ds: Seq<(u32, u32, u32)>,
    n: int,
) -> Seq<Seq<Particle>>
    decreases n,
{
    if n <= 0 {
        g0
    } else {
        let g = sweep_upto(g0, tick, ds, n - 1);
        cell_step(
            g,
            (n - 1) % (WIDTH as int),
            (n - 1) / (WIDTH as int),
            tick,
            ds[n - 1].0,
            ds[n - 1].1,
            ds[n - 1].2,
        )
    }
}

/// The grid after one whole sweep at `tick` driven by the draws `ds`.
pub open spec fn sweep(g0: Seq<Seq<Particle>>, tick: u32, ds: Seq<(u32, u32, u32)>) -> Seq<
    Seq<Particle>,
> {
    sweep_upto(g0, tick, ds, WIDTH as int * HEIGHT as int)
}

/// Every cell is at most as old as its stamp, and no stamp is newer than
/// `tick`.  This holds of a fresh grid at any tick, is maintained by the
/// sweep, and keeps ages from ever outrunning the tick counter.
pub open spec fn ages_ok(g: Seq<Seq<Particle>>, tick: u32) -> bool {
    forall|i: int, j: int|
        in_world(i, j) ==> {
            &&& (#[trigger] cell_at(g, i, j)).age <= cell_at(g, i, j).last_ticked
            &&& cell_at(g, i, j).last_ticked <= tick
        }
}

/// Every cell of the grid holds Air.
pub open spec fn all_air(g: Seq<Seq<Particle>>) -> bool {
    forall|i: int, j: int|
        in_world(i, j) ==> (#[trigger] cell_at(g, i, j)).element == Element::Air
}

/// The two grids have Wall in exactly the same cells.
pub open spec fn walls_match(g1: Seq<Seq<Particle>>, g2: Seq<Seq<Particle>>) -> bool {
    forall|i: int, j: int|
        #![trigger cell_at(g1, i, j), cell_at(g2, i, j)]
        in_world(i, j) ==> ((cell_at(g1, i, j).element == Element::Wall) <==> (cell_at(
            g2,
            i,
            j,
        ).element == Element::Wall))
}

/// Wall placement matching is transitive.
pub proof fn lemma_walls_match_trans(
    g1: Seq<Seq<Particle>>,
    g2: Seq<Seq<Particle>>,
    g3: Seq<Seq<Particle>>,
)
    requires
        walls_match(g1, g2),
        walls_match(g2, g3),
    ensures
        walls_match(g1, g3),
{
    assert forall|i: int, j: int|
        #![trigger cell_at(g1, i, j), cell_at(g3, i, j)]
        in_world(i, j) implies ((cell_at(g1, i, j).element == Element::Wall) <==> (cell_at(
        g3,
        i,
        j,
    ).element == Element::Wall)) by {
        let c1 = cell_at(g1, i, j);
        let c2 = cell_at(g2, i, j);
        let c3 = cell_at(g3, i, j);
        assert((c1.element == Element::Wall) <==> (c2.element == Element::Wall));
        assert((c2.element == Element::Wall) <==> (c3.element == Element::Wall));
    }
}

/// One move attempt keeps the grid well formed, keeps every age within
/// its stamp and every stamp within the tick, never creates or destroys a
/// Wall when the source cell is not one, and keeps an all-Air grid
/// all Air.
pub proof fn lemma_move_preserves(
    g: Seq<Seq<Particle>>,
    x: int,
    y: int,
    nx: int,
    ny: int,
    tick: u32,
)
    requires
        grid_wf(g),
        ages_ok(g, tick),
    ensures
        grid_wf(after_move(g, x, y, nx, ny)),
        ages_ok(after_move(g, x, y, nx, ny), tick),
        cell_at(g, x, y).element != Element::Wall ==> walls_match(g, after_move(g, x, y, nx, ny)),
        all_air(g) ==> all_air(after_move(g, x, y, nx, ny)),
{
    if move_allowed(g, x, y, nx, ny) {
        let gm = after_move(g, x, y, nx, ny);
        lemma_swap_exchanges_cells(g, x, y, nx, ny);
        assert forall|i: int, j: int| in_world(i, j) implies {
            &&& (#[trigger] cell_at(gm, i, j)).age <= cell_at(gm, i, j).last_ticked
            &&& cell_at(gm, i, j).last_ticked <= tick
            &&& (all_air(g) ==> cell_at(gm, i, j).element == Element::Air)
        } by {
            if i == nx && j == ny {
                assert(cell_at(gm, i, j) == cell_at(g, x, y));
            } else if i == x && j == y {
                assert(cell_at(gm, i, j) == cell_at(g, nx, ny));
            } else {
                assert(cell_at(gm, i, j) == cell_at(g, i, j));
            }
        }
        if cell_at(g, x, y).element != Element::Wall {
            assert forall|i: int, j: int|
                #![trigger cell_at(g, i, j), cell_at(gm, i, j)]
                in_world(i, j) implies ((cell_at(g, i, j).element == Element::Wall) <==> (cell_at(
                gm,
                i,
                j,
            ).element == Element::Wall)) by {
                if i == nx && j == ny {
                    assert(cell_at(gm, i, j) == cell_at(g, x, y));
                } else if i == x && j == y {
                    assert(cell_at(gm, i, j) == cell_at(g, nx, ny));
                } else {
                    assert(cell_at(gm, i, j) == cell_at(g, i, j));
                }
            }
        }
    }
}

/// Replacing the cell at `(x, y)` by a particle that respects the tick
/// and does not change whether the cell is a Wall preserves the sweep
/// invariants; when the new particle is Air it also keeps an all-Air grid
/// all Air.
pub proof fn lemma_replace_preserves(g: Seq<Seq<Particle>>, x: int, y: int, p: Particle, tick: u32)
    requires
        grid_wf(g),
        ages_ok(g, tick),
        in_world(x, y),
        p.age <= p.last_ticked,
        p.last_ticked <= tick,
        (cell_at(g, x, y).element == Element::Wall) <==> (p.element == Element::Wall),
    ensures
        grid_wf(put(g, x, y, p)),
        ages_ok(put(g, x, y, p), tick),
        walls_match(g, put(g, x, y, p)),
        all_air(g) && p.element == Element::Air ==> all_air(put(g, x, y, p)),
{
    let gm = put(g, x, y, p);
    lemma_put_cells(g, x, y, p);
    assert forall|i: int, j: int| in_world(i, j) implies {
        &&& (#[trigger] cell_at(gm, i, j)).age <= cell_at(gm, i, j).last_ticked
        &&& cell_at(gm, i, j).last_ticked <= tick
        &&& (all_air(g) && p.element == Element::Air ==> cell_at(gm, i, j).element == Element::Air)
    } by {
        if !(i == x && j == y) {
            assert(cell_at(gm, i, j) == cell_at(g, i, j));
        }
    }
    assert forall|i: int, j: int|
        #![trigger cell_at(g, i, j), cell_at(gm, i, j)]
        in_world(i, j) implies ((cell_at(g, i, j).element == Element::Wall) <==> (cell_at(
        gm,
        i,
        j,
    ).element == Element::Wall)) by {
        if !(i == x && j == y) {
            assert(cell_at(gm, i, j) == cell_at(g, i, j));
        }
    }
}

/// One fall step preserves the sweep invariants.
pub proof fn lemma_fall_preserves(g: Seq<Seq<Particle>>, x: int, y: int, d: u32, tick: u32)
    requires
        grid_wf(g),
        ages_ok(g, tick),
    ensures
        grid_wf(after_fall(g, x, y, d).0),
        ages_ok(after_fall(g, x, y, d).0, tick),
        cell_at(g, x, y).element != Element::Wall ==> walls_match(g, after_fall(g, x, y, d).0),
        all_air(g) ==> all_air(after_fall(g, x, y, d).0),
{
    if y == HEIGHT as int - 1 {
    } else if move_allowed(g, x, y, x, y + 1) {
        lemma_move_preserves(g, x, y, x, y + 1, tick);
        assert(after_fall(g, x, y, d).0 == after_move(g, x, y, x, y + 1));
    } else {
        let nx = if d == 0 {
            x - 1
        } else {
            x + 1
        };
        lemma_move_preserves(g, x, y, nx, y + 1, tick);
    }
}

/// One upward fall step preserves the sweep invariants.
pub proof fn lemma_fall_up_preserves(g: Seq<Seq<Particle>>, x: int, y: int, d: u32, tick: u32)
    requires
        grid_wf(g),
        ages_ok(g, tick),
    ensures
        grid_wf(after_fall_up(g, x, y, d).0),
        ages_ok(after_fall_up(g, x, y, d).0, tick),
        cell_at(g, x, y).element != Element::Wall ==> walls_match(g, after_fall_up(g, x, y, d).0),
        all_air(g) ==> all_air(after_fall_up(g, x, y, d).0),
{
    if y == 0 {
    } else if move_allowed(g, x, y, x, y - 1) {
        lemma_move_preserves(g, x, y, x, y - 1, tick);
        assert(after_fall_up(g, x, y, d).0 == after_move(g, x, y, x, y - 1));
    } else {
        let nx = if d == 0 {
            x - 1
        } else {
            x + 1
        };
        lemma_move_preserves(g, x, y, nx, y - 1, tick);
    }
}

/// One sideways jitter preserves the sweep invariants.
pub proof fn lemma_jitter_preserves(g: Seq<Seq<Particle>>, x: int, y: int, d: u32, tick: u32)
    requires
        grid_wf(g),
        ages_ok(g, tick),
    ensures
        grid_wf(after_jitter(g, x, y, d).0),
        ages_ok(after_jitter(g, x, y, d).0, tick),
        cell_at(g, x, y).element != Element::Wall ==> walls_match(g, after_jitter(g, x, y, d).0),
        all_air(g) ==> all_air(after_jitter(g, x, y, d).0),
{
    let nx = if d == 0 {
        x - 1
    } else {
        x + 1
    };
    lemma_move_preserves(g, x, y, nx, y, tick);
}

/// The fall-else-jitter chain preserves the sweep invariants.
pub proof fn lemma_fall_chain_preserves(
    g: Seq<Seq<Particle>>,
    x: int,
    y: int,
    d1: u32,
    d2: u32,
    tick: u32,
)
    requires
        grid_wf(g),
        ages_ok(g, tick),
    ensures
        grid_wf(after_fall_chain(g, x, y, d1, d2)),
        ages_ok(after_fall_chain(g, x, y, d1, d2), tick),
        cell_at(g, x, y).element != Element::Wall ==> walls_match(
            g,
            after_fall_chain(g, x, y, d1, d2),
        ),
        all_air(g) ==> all_air(after_fall_chain(g, x, y, d1, d2)),
{
    lemma_fall_preserves(g, x, y, d1, tick);
    let moved = after_fall(g, x, y, d1);
    if !moved.1 {
        assert(moved.0 == g);
        lemma_jitter_preserves(g, x, y, d2, tick);
    }
}

/// The rise-else-jitter chain preserves the sweep invariants.
pub proof fn lemma_rise_chain_preserves(
    g: Seq<Seq<Particle>>,
    x: int,
    y: int,
    d1: u32,
    d2: u32,
    tick: u32,
)
    requires
        grid_wf(g),
        ages_ok(g, tick),
    ensures
        grid_wf(after_rise_chain(g, x, y, d1, d2)),
        ages_ok(after_rise_chain(g, x, y, d1, d2), tick),
        cell_at(g, x, y).element != Element::Wall ==> walls_match(
            g,
            after_rise_chain(g, x, y, d1, d2),
        ),
        all_air(g) ==> all_air(after_rise_chain(g, x, y, d1, d2)),
{
    lemma_fall_up_preserves(g, x, y, d1, tick);
    let moved = after_fall_up(g, x, y, d1);
    if !moved.1 {
        assert(moved.0 == g);
        lemma_jitter_preserves(g, x, y, d2, tick);
    }
}

/// One kind dispatch preserves the sweep invariants: well-formedness,
/// age/stamp bounds, the exact placement of Walls, and an all-Air grid
/// staying all Air.
pub proof fn lemma_dispatch_preserves(
    g: Seq<Seq<Particle>>,
    x: int,
    y: int,
    e: Element,
    tick: u32,
    d1: u32,
    d2: u32,
    d3: u32,
)
    requires
        grid_wf(g),
        ages_ok(g, tick),
        in_world(x, y),
        cell_at(g, x, y).element == e,
    ensures
        grid_wf(after_dispatch(g, x, y, e, tick, d1, d2, d3)),
        ages_ok(after_dispatch(g, x, y, e, tick, d1, d2, d3), tick),
        walls_match(g, after_dispatch(g, x, y, e, tick, d1, d2, d3)),
        all_air(g) ==> all_air(after_dispatch(g, x, y, e, tick, d1, d2, d3)),
{
    match e {
        Element::Air => {},
        Element::Sand => {
            lemma_fall_preserves(g, x, y, d1, tick);
        },
        Element::Oil => {
            lemma_fall_chain_preserves(g, x, y, d1, d2, tick);
        },
        Element::Water => {
            if has_neighbor(g, x, y, Element::Fire) || has_neighbor(g, x, y, Element::Lava) {
                lemma_replace_preserves(g, x, y, fresh_particle(Element::Steam, tick), tick);
            } else {
                lemma_fall_chain_preserves(g, x, y, d1, d2, tick);
            }
        },
        Element::Fire => {
            lemma_rise_chain_preserves(g, x, y, d1, d2, tick);
            let gm = after_rise_chain(g, x, y, d1, d2);
            if d3 == 0 {
                assert(cell_at(gm, x, y).element != Element::Wall);
                lemma_replace_preserves(gm, x, y, fresh_particle(Element::Smoke, tick), tick);
                lemma_walls_match_trans(g, gm, put(gm, x, y, fresh_particle(Element::Smoke, tick)));
            }
        },
        Element::Smoke => {
            lemma_rise_chain_preserves(g, x, y, d1, d2, tick);
        },
        Element::Steam => {
            if has_neighbor(g, x, y, Element::Ice) {
                lemma_replace_preserves(g, x, y, fresh_particle(Element::Water, tick), tick);
            } else {
                lemma_rise_chain_preserves(g, x, y, d1, d2, tick);
            }
        },
        Element::Wood => {},
        Element::Wall => {},
        Element::Ice => {
            lemma_fall_preserves(g, x, y, d1, tick);
        },
        Element::Lava => {
            lemma_fall_chain_preserves(g, x, y, d1, d2, tick);
            let gm = after_fall_chain(g, x, y, d1, d2);
            if d3 == 0 && in_world(x, y - 1) && cell_at(gm, x, y - 1).element == Element::Air {
                lemma_replace_preserves(gm, x, y - 1, fresh_particle(Element::Fire, tick), tick);
                lemma_walls_match_trans(
                    g,
                    gm,
                    put(gm, x, y - 1, fresh_particle(Element::Fire, tick)),
                );
            }
        },
    }
}

/// One sweep visit preserves the sweep invariants.
pub proof fn lemma_cell_step_preserves(
    g: Seq<Seq<Particle>>,
    x: int,
    y: int,
    tick: u32,
    d1: u32,
    d2: u32,
    d3: u32,
)
    requires
        grid_wf(g),
        ages_ok(g, tick),
        in_world(x, y),
    ensures
        grid_wf(cell_step(g, x, y, tick, d1, d2, d3)),
        ages_ok(cell_step(g, x, y, tick, d1, d2, d3), tick),
        walls_match(g, cell_step(g, x, y, tick, d1, d2, d3)),
        all_air(g) ==> all_air(cell_step(g, x, y, tick, d1, d2, d3)),
{
    let c = cell_at(g, x, y);
    if c.last_ticked == tick {
    } else if lifetime_of(c.element) > 0 && c.age > lifetime_of(c.element) {
        lemma_replace_preserves(g, x, y, fresh_particle(Element::Air, tick), tick);
    } else {
        let gs = put(g, x, y, stamped(c, tick));
        lemma_replace_preserves(g, x, y, stamped(c, tick), tick);
        lemma_dispatch_preserves(gs, x, y, c.element, tick, d1, d2, d3);
        lemma_walls_match_trans(g, gs, after_dispatch(gs, x, y, c.element, tick, d1, d2, d3));
    }
}

/// Column and row of the `n`-th cell of the row-major order.
pub proof fn lemma_rowmajor_bounds(n: int)
    requires
        0 <= n < WIDTH as int * HEIGHT as int,
    ensures
        in_world(n % (WIDTH as int), n / (WIDTH as int)),
{
    assert(0 <= n % 64 < 64 && 0 <= n / 64 < 64) by (nonlinear_arith)
        requires
            0 <= n < 4096,
    ;
}

/// The index of column `x` of row `y` in the row-major order.
pub proof fn lemma_rowmajor_index(x: int, y: int)
    requires
        in_world(x, y),
    ensures
        (y * WIDTH as int + x) % (WIDTH as int) == x,
        (y * WIDTH as int + x) / (WIDTH as int) == y,
{
    assert((y * 64 + x) % 64 == x && (y * 64 + x) / 64 == y) by (nonlinear_arith)
        requires
            0 <= x < 64 && 0 <= y < 64,
    ;
}

/// A partial sweep reads only the draw triples it has consumed: two draw
/// sequences that agree on the first `n` triples drive it to the same
/// grid.
pub proof fn lemma_sweep_upto_prefix(
    g0: Seq<Seq<Particle>>,
    tick: u32,
    ds1: Seq<(u32, u32, u32)>,
    ds2: Seq<(u32, u32, u32)>,
    n: int,
)
    requires
        forall|k: int| 0 <= k < n ==> ds1[k] == ds2[k],
    ensures
        sweep_upto(g0, tick, ds1, n) == sweep_upto(g0, tick, ds2, n),
    decreases n,
{
    if n > 0 {
        lemma_sweep_upto_prefix(g0, tick, ds1, ds2, n - 1);
    }
}

/// Appending a draw triple within bounds keeps a draw sequence valid.
pub proof fn lemma_draws_push(ds: Seq<(u32, u32, u32)>, t: (u32, u32, u32))
    requires
        draws_valid(ds),
        t.0 < SIDE_PICKS,
        t.1 < SIDE_PICKS,
        t.2 < CHANCE_RANGE,
    ensures
        draws_valid(ds.push(t)),
{
    assert forall|k: int| 0 <= k < ds.push(t).len() implies {
        &&& (#[trigger] ds.push(t)[k]).0 < SIDE_PICKS
        &&& ds.push(t)[k].1 < SIDE_PICKS
        &&& ds.push(t)[k].2 < CHANCE_RANGE
    } by {
        if k < ds.len() {
            assert(ds.push(t)[k] == ds[k]);
        } else {
            assert(ds.push(t)[k] == t);
        }
    }
}

/// Extending a partial sweep that stands at the cell `(x, y)` by the draw
/// triple that cell consumed performs exactly one more visit.
pub proof fn lemma_sweep_extend(
    g0: Seq<Seq<Particle>>,
    tick: u32,
    ds: Seq<(u32, u32, u32)>,
    t: (u32, u32, u32),
    x: int,
    y: int,
)
    requires
        in_world(x, y),
        ds.len() == y * WIDTH as int + x,
    ensures
        sweep_upto(g0, tick, ds.push(t), ds.len() as int + 1) == cell_step(
            sweep_upto(g0, tick, ds, ds.len() as int),
            x,
            y,
            tick,
            t.0,
            t.1,
            t.2,
        ),
{
    let n = ds.len() as int;
    lemma_rowmajor_index(x, y);
    lemma_sweep_upto_prefix(g0, tick, ds.push(t), ds, n);
    assert(ds.push(t)[n] == t);
}

/// A partial sweep preserves the sweep invariants: the grid stays well
/// formed, ages and stamps stay within the tick, and Walls stay exactly
/// where they were.
pub proof fn lemma_sweep_upto_preserves(
    g0: Seq<Seq<Particle>>,
    tick: u32,
    ds: Seq<(u32, u32, u32)>,
    n: int,
)
    requires
        grid_wf(g0),
        ages_ok(g0, tick),
        n <= WIDTH as int * HEIGHT as int,
    ensures
        grid_wf(sweep_upto(g0, tick, ds, n)),
        ages_ok(sweep_upto(g0, tick, ds, n), tick),
        walls_match(g0, sweep_upto(g0, tick, ds, n)),
        all_air(g0) ==> all_air(sweep_upto(g0, tick, ds, n)),
    decreases n,
{
    if n > 0 {
        lemma_sweep_upto_preserves(g0, tick, ds, n - 1);
        let g = sweep_upto(g0, tick, ds, n - 1);
        lemma_rowmajor_bounds(n - 1);
        lemma_cell_step_preserves(
            g,
            (n - 1) % (WIDTH as int),
            (n - 1) / (WIDTH as int),
            tick,
            ds[n - 1].0,
            ds[n - 1].1,
            ds[n - 1].2,
        );
        lemma_walls_match_trans(g0, g, sweep_upto(g0, tick, ds, n));
    }
}

} // verus!
