use vstd::prelude::*;

use crate::element::Element;
use crate::grid::{cell_at, grid_wf, in_world, lemma_wf_model, put, Grid, HEIGHT, WIDTH};
use crate::model::{
    after_expand_jitter, after_fall, after_fall_chain, after_fall_up, after_jitter, after_move,
    after_rise_chain, after_set_if_empty, ages_ok, all_air, cell_step, draws_valid, fresh_particle,
    has_neighbor, lemma_draws_push, lemma_sweep_extend, lemma_sweep_upto_preserves, move_allowed,
    neighbor_matches, offset_dx, offset_dy, stamped, sweep, sweep_upto, walls_match, CHANCE_RANGE,
    NEIGHBOR_COUNT, SIDE_PICKS,
};
use crate::particle::Particle;
use crate::rng::RandomSource;

verus! {

/// Whether row `y` is the last row, below which nothing can fall.
pub fn on_floor(y: i32) -> (r: bool)
    ensures
        r == (y as int == HEIGHT as int - 1),
{
    y == HEIGHT - 1
}

/// Whether row `y` is the first row, above which nothing can rise.
pub fn on_ceiling(y: i32) -> (r: bool)
    ensures
        r == (y as int == 0),
{
    y == 0
}

/// The `k`-th of the eight neighbor offsets, in the fixed scan order.
fn neighbor_offset(k: u32) -> (r: (i32, i32))
    requires
        k < 8,
    ensures
        r.0 as int == offset_dx(k as int),
        r.1 as int == offset_dy(k as int),
{
    if k == 0 {
        (-1, -1)
    } else if k == 1 {
        (0, -1)
    } else if k == 2 {
        (1, -1)
    } else if k == 3 {
        (-1, 0)
    } else if k == 4 {
        (1, 0)
    } else if k == 5 {
        (-1, 1)
    } else if k == 6 {
        (0, 1)
    } else {
        (1, 1)
    }
}

/// Write `p` at `(x, y)` only if that cell currently holds Air; a no-op
/// otherwise, and out of bounds.
pub fn set_if_empty(grid: &mut Grid, x: i32, y: i32, p: Particle)
    requires
        old(grid).wf(),
    ensures
        final(grid).wf(),
        final(grid)@ == after_set_if_empty(old(grid)@, x as int, y as int, p),
{
    let mut empty: bool = false;
    match grid.get(x, y) {
        Some(tp) => {
            if tp.element == Element::Air {
                empty = true;
            }
        },
        None => {},
    }
    if empty {
        grid.set(x, y, p);
    }
}

/// Attempt to relocate the occupant of `(x, y)` into `(new_x, new_y)`.
/// Returns whether the movement rule permits the move; on success the two
/// cells' full states are exchanged, on failure nothing changes.
pub fn try_move(grid: &mut Grid, x: i32, y: i32, new_x: i32, new_y: i32) -> (r: bool)
    requires
        old(grid).wf(),
    ensures
        final(grid).wf(),
        r == move_allowed(old(grid)@, x as int, y as int, new_x as int, new_y as int),
        final(grid)@ == after_move(old(grid)@, x as int, y as int, new_x as int, new_y as int),
{
    let mut allowed: bool = false;
    match (grid.get(x, y), grid.get(new_x, new_y)) {
        (Some(p), Some(tp)) => {
            if tp.element == Element::Wall {
                allowed = false;
            } else if tp.element == Element::Air {
                allowed = true;
            } else if y == new_y {
                allowed = p.density() >= tp.density();
            } else if new_y > y {
                allowed = p.density() > tp.density();
            } else {
                allowed = p.density() < tp.density();
            }
        },
        _ => {},
    }
    if allowed {
        grid.swap(x, y, new_x, new_y);
        true
    } else {
        false
    }
}

/// Whether at least one of the eight neighbors of `(x, y)` holds the
/// given kind; neighbors outside the grid are skipped.
pub fn check_nearby_for(grid: &Grid, x: i32, y: i32, element: Element) -> (r: bool)
    requires
        grid.wf(),
        in_world(x as int, y as int),
    ensures
        r == has_neighbor(grid@, x as int, y as int, element),
{
    let mut k: u32 = 0;
    while k < NEIGHBOR_COUNT
        invariant
            grid.wf(),
            in_world(x as int, y as int),
            k <= NEIGHBOR_COUNT,
            forall|kk: int|
                0 <= kk < k as int ==> !neighbor_matches(grid@, x as int, y as int, kk, element),
        decreases NEIGHBOR_COUNT - k,
    {
        let (dx, dy) = neighbor_offset(k);
        let cx = x + dx;
        let cy = y + dy;
        match grid.get(cx, cy) {
            Some(p) => {
                if p.element == element {
                    proof {
                        assert(neighbor_matches(grid@, x as int, y as int, k as int, element));
                    }
                    return true;
                }
            },
            None => {},
        }
        proof {
            assert(!neighbor_matches(grid@, x as int, y as int, k as int, element));
        }
        k = k + 1;
    }
    proof {
        assert(!has_neighbor(grid@, x as int, y as int, element)) by {
            if has_neighbor(grid@, x as int, y as int, element) {
                let k0 = choose|kk: int|
                    0 <= kk < 8 && #[trigger] neighbor_matches(
                        grid@,
                        x as int,
                        y as int,
                        kk,
                        element,
                    );
                assert(!neighbor_matches(grid@, x as int, y as int, k0, element));
            }
        }
    }
    false
}

/// Try to fall straight down; if that is refused, pick one diagonal at
/// random and try only that one.  On the last row the cell counts as
/// handled without any attempt.  The result and the grid are those of
/// [`after_fall`] for the draw that was made.
pub fn fall<R: RandomSource>(grid: &mut Grid, rng: &mut R, x: i32, y: i32) -> (r: bool)
    requires
        old(grid).wf(),
        in_world(x as int, y as int),
    ensures
        final(grid).wf(),
        exists|d: u32|
            d < SIDE_PICKS && (#[trigger] after_fall(old(grid)@, x as int, y as int, d)).0
                == final(grid)@ && after_fall(old(grid)@, x as int, y as int, d).1 == r,
{
    if on_floor(y) {
        proof {
            assert(after_fall(grid@, x as int, y as int, 0).0 == grid@);
        }
        return true;
    }
    if try_move(grid, x, y, x, y + 1) {
        proof {
            assert(after_fall(old(grid)@, x as int, y as int, 0).0 == grid@);
        }
        return true;
    }
    let d = rng.next_below(SIDE_PICKS);
    let r = if d == 0 {
        try_move(grid, x, y, x - 1, y + 1)
    } else {
        try_move(grid, x, y, x + 1, y + 1)
    };
    proof {
        assert(after_fall(old(grid)@, x as int, y as int, d).0 == grid@);
    }
    r
}

/// Mirror of [`fall`] against the first row, moving upward.
pub fn fall_up<R: RandomSource>(grid: &mut Grid, rng: &mut R, x: i32, y: i32) -> (r: bool)
    requires
        old(grid).wf(),
        in_world(x as int, y as int),
    ensures
        final(grid).wf(),
        exists|d: u32|
            d < SIDE_PICKS && (#[trigger] after_fall_up(old(grid)@, x as int, y as int, d)).0
                == final(grid)@ && after_fall_up(old(grid)@, x as int, y as int, d).1 == r,
{
    if on_ceiling(y) {
        proof {
            assert(after_fall_up(grid@, x as int, y as int, 0).0 == grid@);
        }
        return true;
    }
    if try_move(grid, x, y, x, y - 1) {
        proof {
            assert(after_fall_up(old(grid)@, x as int, y as int, 0).0 == grid@);
        }
        return true;
    }
    let d = rng.next_below(SIDE_PICKS);
    let r = if d == 0 {
        try_move(grid, x, y, x - 1, y - 1)
    } else {
        try_move(grid, x, y, x + 1, y - 1)
    };
    proof {
        assert(after_fall_up(old(grid)@, x as int, y as int, d).0 == grid@);
    }
    r
}

/// Pick left or right at random and try only that one sideways move.
pub fn jitter_left_right<R: RandomSource>(grid: &mut Grid, rng: &mut R, x: i32, y: i32) -> (r:
    bool)
    requires
        old(grid).wf(),
        in_world(x as int, y as int),
    ensures
        final(grid).wf(),
        exists|d: u32|
            d < SIDE_PICKS && (#[trigger] after_jitter(old(grid)@, x as int, y as int, d)).0
                == final(grid)@ && after_jitter(old(grid)@, x as int, y as int, d).1 == r,
{
    let d = rng.next_below(SIDE_PICKS);
    let r = if d == 0 {
        try_move(grid, x, y, x - 1, y)
    } else {
        try_move(grid, x, y, x + 1, y)
    };
    proof {
        assert(after_jitter(old(grid)@, x as int, y as int, d).0 == grid@);
    }
    r
}

/// Pick one of the eight neighbors at random and try only that one move.
pub fn expand_jitter<R: RandomSource>(grid: &mut Grid, rng: &mut R, x: i32, y: i32) -> (r: bool)
    requires
        old(grid).wf(),
        in_world(x as int, y as int),
    ensures
        final(grid).wf(),
        exists|d: u32|
            d < NEIGHBOR_COUNT && (#[trigger] after_expand_jitter(
                old(grid)@,
                x as int,
                y as int,
                d,
            )).0 == final(grid)@ && after_expand_jitter(old(grid)@, x as int, y as int, d).1 == r,
{
    let d = rng.next_below(NEIGHBOR_COUNT);
    let (dx, dy) = neighbor_offset(d);
    let r = try_move(grid, x, y, x + dx, y + dy);
    proof {
        assert(after_expand_jitter(old(grid)@, x as int, y as int, d).0 == grid@);
    }
    r
}

/// Fall, and only if that is blocked jitter sideways once.
fn fall_then_jitter<R: RandomSource>(grid: &mut Grid, rng: &mut R, x: i32, y: i32)
    requires
        old(grid).wf(),
        in_world(x as int, y as int),
    ensures
        final(grid).wf(),
        exists|d1: u32, d2: u32|
            d1 < SIDE_PICKS && d2 < SIDE_PICKS && #[trigger] after_fall_chain(
                old(grid)@,
                x as int,
                y as int,
                d1,
                d2,
            ) == final(grid)@,
{
    let ghost gs = grid@;
    let moved = fall(grid, rng, x, y);
    let ghost d1: u32 = choose|d: u32|
        d < SIDE_PICKS && (#[trigger] after_fall(gs, x as int, y as int, d)).0 == grid@
            && after_fall(gs, x as int, y as int, d).1 == moved;
    if moved {
        proof {
            assert(after_fall_chain(gs, x as int, y as int, d1, 0u32) == grid@);
        }
    } else {
        let ghost g1 = grid@;
        let jm = jitter_left_right(grid, rng, x, y);
        proof {
            let d2: u32 = choose|d: u32|
                d < SIDE_PICKS && (#[trigger] after_jitter(g1, x as int, y as int, d)).0 == grid@
                    && after_jitter(g1, x as int, y as int, d).1 == jm;
            assert(after_fall_chain(gs, x as int, y as int, d1, d2) == grid@);
        }
    }
}

/// Fall upward, and only if that is blocked jitter sideways once.
fn rise_then_jitter<R: RandomSource>(grid: &mut Grid, rng: &mut R, x: i32, y: i32)
    requires
        old(grid).wf(),
        in_world(x as int, y as int),
    ensures
        final(grid).wf(),
        exists|d1: u32, d2: u32|
            d1 < SIDE_PICKS && d2 < SIDE_PICKS && #[trigger] after_rise_chain(
                old(grid)@,
                x as int,
                y as int,
                d1,
                d2,
            ) == final(grid)@,
{
    let ghost gs = grid@;
    let moved = fall_up(grid, rng, x, y);
    let ghost d1: u32 = choose|d: u32|
        d < SIDE_PICKS && (#[trigger] after_fall_up(gs, x as int, y as int, d)).0 == grid@
            && after_fall_up(gs, x as int, y as int, d).1 == moved;
    if moved {
        proof {
            assert(after_rise_chain(gs, x as int, y as int, d1, 0u32) == grid@);
        }
    } else {
        let ghost g1 = grid@;
        let jm = jitter_left_right(grid, rng, x, y);
        proof {
            let d2: u32 = choose|d: u32|
                d < SIDE_PICKS && (#[trigger] after_jitter(g1, x as int, y as int, d)).0 == grid@
                    && after_jitter(g1, x as int, y as int, d).1 == jm;
            assert(after_rise_chain(gs, x as int, y as int, d1, d2) == grid@);
        }
    }
}

/// One tick of the simulation: visit every cell once in row-major order,
/// skipping cells already stamped this tick, decaying cells strictly older
/// than their positive lifetime into fresh Air, and otherwise stamping the
/// cell and running its kind's behavior.
///
/// The resulting grid is exactly one whole [`sweep`] of the model driven
/// by some in-range sequence of draws; on top of that, ages and stamps
/// stay bounded by the tick, Walls stay exactly where they were, and an
/// all-Air grid stays all Air.
pub fn step_particles<R: RandomSource>(grid: &mut Grid, rng: &mut R, frame_clock: u32)
    requires
        old(grid).wf(),
        ages_ok(old(grid)@, frame_clock),
    ensures
        final(grid).wf(),
        ages_ok(final(grid)@, frame_clock),
        walls_match(old(grid)@, final(grid)@),
        all_air(old(grid)@) ==> all_air(final(grid)@),
        exists|ds: Seq<(u32, u32, u32)>|
            #[trigger] draws_valid(ds) && ds.len() == WIDTH as int * HEIGHT as int && final(grid)@
                == sweep(old(grid)@, frame_clock, ds),
{
    let ghost g0 = grid@;
    let ghost mut ds: Seq<(u32, u32, u32)> = Seq::empty();
    proof {
        lemma_wf_model(grid);
    }
    let mut y: i32 = 0;
    while y < HEIGHT
        invariant
            grid.wf(),
            grid_wf(g0),
            ages_ok(g0, frame_clock),
            0 <= y <= HEIGHT,
            ds.len() == y as int * WIDTH as int,
            draws_valid(ds),
            grid@ == sweep_upto(g0, frame_clock, ds, ds.len() as int),
        decreases HEIGHT as int - y as int,
    {
        let mut x: i32 = 0;
        while x < WIDTH
            invariant
                grid.wf(),
                grid_wf(g0),
                ages_ok(g0, frame_clock),
                0 <= y < HEIGHT,
                0 <= x <= WIDTH,
                ds.len() == y as int * WIDTH as int + x as int,
                draws_valid(ds),
                grid@ == sweep_upto(g0, frame_clock, ds, ds.len() as int),
            decreases WIDTH as int - x as int,
        {
            let ghost gcur = grid@;
            proof {
                lemma_sweep_upto_preserves(g0, frame_clock, ds, ds.len() as int);
            }
            let ghost mut t: (u32, u32, u32) = (0u32, 0u32, 0u32);
            let c: Particle = *grid.get(x, y).unwrap();
            let lt = c.lifetime();
            if c.last_ticked == frame_clock {
                proof {
                    assert(grid@ == cell_step(
                        gcur,
                        x as int,
                        y as int,
                        frame_clock,
                        t.0,
                        t.1,
                        t.2,
                    ));
                }
            } else if lt > 0 && c.age > lt {
                grid.set(x, y, Particle::new(Element::Air, frame_clock));
                proof {
                    assert(grid@ == cell_step(
                        gcur,
                        x as int,
                        y as int,
                        frame_clock,
                        t.0,
                        t.1,
                        t.2,
                    ));
                }
            } else {
                proof {
                    assert(cell_at(gcur, x as int, y as int) == c);
                    assert(c.age < frame_clock);
                }
                let stamped_c = Particle {
                    element: c.element,
                    last_ticked: frame_clock,
                    age: c.age + 1,
                };
                grid.set(x, y, stamped_c);
                let ghost gs = grid@;
                proof {
                    assert(stamped_c == stamped(c, frame_clock));
                    assert(gs == put(gcur, x as int, y as int, stamped(c, frame_clock)));
                }
                match c.element {
                    Element::Air => {},
                    Element::Wood => {},
                    Element::Wall => {},
                    Element::Sand => {
                        let moved = fall(grid, rng, x, y);
                        proof {
                            let d1: u32 = choose|d: u32|
                                d < SIDE_PICKS && (#[trigger] after_fall(
                                    gs,
                                    x as int,
                                    y as int,
                                    d,
                                )).0 == grid@ && after_fall(gs, x as int, y as int, d).1 == moved;
                            t = (d1, 0u32, 0u32);
                        }
                    },
                    Element::Ice => {
                        let moved = fall(grid, rng, x, y);
                        proof {
                            let d1: u32 = choose|d: u32|
                                d < SIDE_PICKS && (#[trigger] after_fall(
                                    gs,
                                    x as int,
                                    y as int,
                                    d,
                                )).0 == grid@ && after_fall(gs, x as int, y as int, d).1 == moved;
                            t = (d1, 0u32, 0u32);
                        }
                    },
                    Element::Oil => {
                        fall_then_jitter(grid, rng, x, y);
                        proof {
                            let (d1, d2): (u32, u32) = choose|d1: u32, d2: u32|
                                d1 < SIDE_PICKS && d2 < SIDE_PICKS && #[trigger] after_fall_chain(
                                    gs,
                                    x as int,
                                    y as int,
                                    d1,
                                    d2,
                                ) == grid@;
                            t = (d1, d2, 0u32);
                        }
                    },
                    Element::Water => {
                        let near_fire = check_nearby_for(grid, x, y, Element::Fire);
                        let near_lava = check_nearby_for(grid, x, y, Element::Lava);
                        if near_fire || near_lava {
                            grid.set(x, y, Particle::new(Element::Steam, frame_clock));
                            proof {
                                assert(grid@ == put(
                                    gs,
                                    x as int,
                                    y as int,
                                    fresh_particle(Element::Steam, frame_clock),
                                ));
                            }
                        } else {
                            fall_then_jitter(grid, rng, x, y);
                            proof {
                                let (d1, d2): (u32, u32) = choose|d1: u32, d2: u32|
                                    d1 < SIDE_PICKS && d2 < SIDE_PICKS
                                        && #[trigger] after_fall_chain(
                                        gs,
                                        x as int,
                                        y as int,
                                        d1,
                                        d2,
                                    ) == grid@;
                                t = (d1, d2, 0u32);
                            }
                        }
                    },
                    Element::Fire => {
                        rise_then_jitter(grid, rng, x, y);
                        let ghost gm = grid@;
                        let chance = rng.next_below(CHANCE_RANGE);
                        if chance == 0 {
                            grid.set(x, y, Particle::new(Element::Smoke, frame_clock));
                        }
                        proof {
                            let (d1, d2): (u32, u32) = choose|d1: u32, d2: u32|
                                d1 < SIDE_PICKS && d2 < SIDE_PICKS && #[trigger] after_rise_chain(
                                    gs,
                                    x as int,
                                    y as int,
                                    d1,
                                    d2,
                                ) == gm;
                            t = (d1, d2, chance);
                        }
                    },
                    Element::Smoke => {
                        rise_then_jitter(grid, rng, x, y);
                        proof {
                            let (d1, d2): (u32, u32) = choose|d1: u32, d2: u32|
                                d1 < SIDE_PICKS && d2 < SIDE_PICKS && #[trigger] after_rise_chain(
                                    gs,
                                    x as int,
                                    y as int,
                                    d1,
                                    d2,
                                ) == grid@;
                            t = (d1, d2, 0u32);
                        }
                    },
                    Element::Steam => {
                        let near_ice = check_nearby_for(grid, x, y, Element::Ice);
                        if near_ice {
                            grid.set(x, y, Particle::new(Element::Water, frame_clock));
                            proof {
                                assert(grid@ == put(
                                    gs,
                                    x as int,
                                    y as int,
                                    fresh_particle(Element::Water, frame_clock),
                                ));
                            }
                        } else {
                            rise_then_jitter(grid, rng, x, y);
                            proof {
                                let (d1, d2): (u32, u32) = choose|d1: u32, d2: u32|
                                    d1 < SIDE_PICKS && d2 < SIDE_PICKS
                                        && #[trigger] after_rise_chain(
                                        gs,
                                        x as int,
                                        y as int,
                                        d1,
                                        d2,
                                    ) == grid@;
                                t = (d1, d2, 0u32);
                            }
                        }
                    },
                    Element::Lava => {
                        fall_then_jitter(grid, rng, x, y);
                        let ghost gm = grid@;
                        let chance = rng.next_below(CHANCE_RANGE);
                        if chance == 0 {
                            set_if_empty(grid, x, y - 1, Particle::new(Element::Fire, frame_clock));
                        }
                        proof {
                            let (d1, d2): (u32, u32) = choose|d1: u32, d2: u32|
                                d1 < SIDE_PICKS && d2 < SIDE_PICKS && #[trigger] after_fall_chain(
                                    gs,
                                    x as int,
                                    y as int,
                                    d1,
                                    d2,
                                ) == gm;
                            t = (d1, d2, chance);
                        }
                    },
                }
                proof {
                    assert(grid@ == cell_step(
                        gcur,
                        x as int,
                        y as int,
                        frame_clock,
                        t.0,
                        t.1,
                        t.2,
                    ));
                }
            }
            proof {
                lemma_sweep_extend(g0, frame_clock, ds, t, x as int, y as int);
                lemma_draws_push(ds, t);
                ds = ds.push(t);
            }
            x = x + 1;
        }
        y = y + 1;
    }
    proof {
        assert(ds.len() == WIDTH as int * HEIGHT as int);
        lemma_sweep_upto_preserves(g0, frame_clock, ds, ds.len() as int);
        assert(draws_valid(ds) && ds.len() == WIDTH as int * HEIGHT as int && grid@ == sweep(
            g0,
            frame_clock,
            ds,
        ));
    }
}

} // verus!
