use falling_sand::behaviour::{
    check_nearby_for, expand_jitter, fall, fall_up, jitter_left_right, on_ceiling, on_floor,
    set_if_empty, try_move,
};
use falling_sand::element::Element;
use falling_sand::grid::{Grid, HEIGHT, WIDTH};
use falling_sand::particle::Particle;
use falling_sand::rng::RandomSource;

/// A deterministic stand-in for the thread generator: always answers with
/// the fixed value, clipped into the requested range.
struct FixedRandom {
    v: u32,
}

impl RandomSource for FixedRandom {
    fn next_below(&mut self, n: u32) -> u32 {
        if self.v < n {
            self.v
        } else {
            n - 1
        }
    }
}

/// The movement rule of the design: Wall refuses, Air accepts, otherwise
/// the density ordering decides by the vertical direction of the move.
fn expected_move(src: Element, dst: Element, dy: i32) -> bool {
    if dst == Element::Wall {
        return false;
    }
    if dst == Element::Air {
        return true;
    }
    let ds = Particle::new(src, 0).density();
    let dd = Particle::new(dst, 0).density();
    if dy == 0 {
        ds >= dd
    } else if dy > 0 {
        ds > dd
    } else {
        ds < dd
    }
}

#[test]
fn test_on_floor_and_ceiling() {
    assert!(on_floor(HEIGHT - 1));
    assert!(!on_floor(0));
    assert!(!on_floor(HEIGHT - 2));
    assert!(on_ceiling(0));
    assert!(!on_ceiling(1));
}

#[test]
fn test_wall_never_destination() {
    // Whatever the source holds and whichever direction the move goes,
    // a Wall destination refuses.
    for src in Element::variants() {
        for (nx, ny) in [(5, 6), (5, 4), (6, 5)] {
            let mut g = Grid::new();
            g.set(5, 5, Particle::new(src, 0));
            g.set(nx, ny, Particle::new(Element::Wall, 0));
            assert!(!try_move(&mut g, 5, 5, nx, ny));
            assert_eq!(g.get(5, 5).unwrap().element, src);
            assert_eq!(g.get(nx, ny).unwrap().element, Element::Wall);
        }
    }
}

#[test]
fn test_density_rule_all_pairs() {
    // Every ordered pair of kinds, in each of the three directions,
    // moves exactly when the density rule says so.
    for src in Element::variants() {
        for dst in Element::variants() {
            for (nx, ny) in [(5, 6), (5, 4), (6, 5)] {
                let mut g = Grid::new();
                g.set(5, 5, Particle::new(src, 0));
                g.set(nx, ny, Particle::new(dst, 0));
                let want = expected_move(src, dst, ny - 5);
                let got = try_move(&mut g, 5, 5, nx, ny);
                assert_eq!(
                    got, want,
                    "move {:?} into {:?} toward ({}, {})",
                    src, dst, nx, ny
                );
                if want {
                    assert_eq!(g.get(nx, ny).unwrap().element, src);
                    assert_eq!(g.get(5, 5).unwrap().element, dst);
                } else {
                    assert_eq!(g.get(5, 5).unwrap().element, src);
                    assert_eq!(g.get(nx, ny).unwrap().element, dst);
                }
            }
        }
    }
}

#[test]
fn test_try_move_out_of_bounds() {
    let mut g = Grid::new();
    g.set(0, 0, Particle::new(Element::Sand, 0));
    assert!(!try_move(&mut g, 0, 0, -1, 0));
    assert!(!try_move(&mut g, 0, 0, 0, -1));
    assert!(!try_move(&mut g, -3, -3, 0, 0));
    assert_eq!(g.get(0, 0).unwrap().element, Element::Sand);
}

#[test]
fn test_try_move_swaps_full_state() {
    let mut g = Grid::new();
    g.set(
        2,
        2,
        Particle {
            element: Element::Sand,
            last_ticked: 5,
            age: 5,
        },
    );
    assert!(try_move(&mut g, 2, 2, 2, 3));
    let moved = *g.get(2, 3).unwrap();
    assert_eq!(moved.element, Element::Sand);
    assert_eq!(moved.last_ticked, 5);
    assert_eq!(moved.age, 5);
    assert_eq!(g.get(2, 2).unwrap().element, Element::Air);
}

#[test]
fn test_set_if_empty() {
    let mut g = Grid::new();
    set_if_empty(&mut g, 4, 4, Particle::new(Element::Fire, 1));
    assert_eq!(g.get(4, 4).unwrap().element, Element::Fire);
    // An occupied cell is never overwritten.
    set_if_empty(&mut g, 4, 4, Particle::new(Element::Sand, 1));
    assert_eq!(g.get(4, 4).unwrap().element, Element::Fire);
    // Out of bounds is a silent no-op.
    set_if_empty(&mut g, -1, 70, Particle::new(Element::Sand, 1));
}

#[test]
fn test_check_nearby_finds_each_neighbor() {
    let offsets = [
        (-1, -1),
        (0, -1),
        (1, -1),
        (-1, 0),
        (1, 0),
        (-1, 1),
        (0, 1),
        (1, 1),
    ];
    for (dx, dy) in offsets {
        let mut g = Grid::new();
        g.set(5 + dx, 5 + dy, Particle::new(Element::Fire, 0));
        assert!(check_nearby_for(&g, 5, 5, Element::Fire));
        assert!(!check_nearby_for(&g, 5, 5, Element::Lava));
    }
}

#[test]
fn test_check_nearby_ignores_center_and_far_cells() {
    let mut g = Grid::new();
    g.set(5, 5, Particle::new(Element::Fire, 0));
    g.set(8, 5, Particle::new(Element::Fire, 0));
    assert!(!check_nearby_for(&g, 5, 5, Element::Fire));
}

#[test]
fn test_check_nearby_skips_out_of_bounds() {
    let g = Grid::new();
    // At a corner five of the eight neighbors do not exist; they are
    // skipped rather than erroring or counting as matches.
    assert!(!check_nearby_for(&g, 0, 0, Element::Fire));
    let mut g = Grid::new();
    g.set(1, 0, Particle::new(Element::Ice, 0));
    assert!(check_nearby_for(&g, 0, 0, Element::Ice));
}

#[test]
fn test_fall_straight_down() {
    let mut g = Grid::new();
    let mut rng = FixedRandom { v: 1 };
    g.set(3, 3, Particle::new(Element::Sand, 0));
    assert!(fall(&mut g, &mut rng, 3, 3));
    assert_eq!(g.get(3, 4).unwrap().element, Element::Sand);
    assert_eq!(g.get(3, 3).unwrap().element, Element::Air);
}

#[test]
fn test_fall_diagonal_fallback() {
    // Straight down blocked by Wood: the drawn side decides the diagonal.
    for (v, nx) in [(0, 2), (1, 4)] {
        let mut g = Grid::new();
        let mut rng = FixedRandom { v };
        g.set(3, 3, Particle::new(Element::Sand, 0));
        g.set(3, 4, Particle::new(Element::Wood, 0));
        assert!(fall(&mut g, &mut rng, 3, 3));
        assert_eq!(g.get(nx, 4).unwrap().element, Element::Sand);
        assert_eq!(g.get(3, 3).unwrap().element, Element::Air);
    }
}

#[test]
fn test_fall_on_floor_is_handled() {
    let mut g = Grid::new();
    let mut rng = FixedRandom { v: 0 };
    g.set(3, HEIGHT - 1, Particle::new(Element::Sand, 0));
    assert!(fall(&mut g, &mut rng, 3, HEIGHT - 1));
    assert_eq!(g.get(3, HEIGHT - 1).unwrap().element, Element::Sand);
}

#[test]
fn test_fall_blocked_returns_false() {
    let mut g = Grid::new();
    let mut rng = FixedRandom { v: 0 };
    g.set(3, 3, Particle::new(Element::Sand, 0));
    g.set(3, 4, Particle::new(Element::Wood, 0));
    g.set(2, 4, Particle::new(Element::Wood, 0));
    assert!(!fall(&mut g, &mut rng, 3, 3));
    assert_eq!(g.get(3, 3).unwrap().element, Element::Sand);
}

#[test]
fn test_fall_up_mirror() {
    let mut g = Grid::new();
    let mut rng = FixedRandom { v: 0 };
    g.set(3, 3, Particle::new(Element::Smoke, 0));
    assert!(fall_up(&mut g, &mut rng, 3, 3));
    assert_eq!(g.get(3, 2).unwrap().element, Element::Smoke);
    // On the ceiling the cell counts as handled without moving.
    let mut g = Grid::new();
    g.set(3, 0, Particle::new(Element::Smoke, 0));
    assert!(fall_up(&mut g, &mut rng, 3, 0));
    assert_eq!(g.get(3, 0).unwrap().element, Element::Smoke);
}

#[test]
fn test_jitter_left_right() {
    for (v, nx) in [(0, 2), (1, 4)] {
        let mut g = Grid::new();
        let mut rng = FixedRandom { v };
        g.set(3, 3, Particle::new(Element::Oil, 0));
        assert!(jitter_left_right(&mut g, &mut rng, 3, 3));
        assert_eq!(g.get(nx, 3).unwrap().element, Element::Oil);
    }
}

#[test]
fn test_expand_jitter_single_direction() {
    // Draw 6 picks the straight-down neighbor of the fixed offset order.
    let mut g = Grid::new();
    let mut rng = FixedRandom { v: 6 };
    g.set(3, 3, Particle::new(Element::Sand, 0));
    assert!(expand_jitter(&mut g, &mut rng, 3, 3));
    assert_eq!(g.get(3, 4).unwrap().element, Element::Sand);
    assert_eq!(g.get(3, 3).unwrap().element, Element::Air);
}

#[test]
fn test_water_sinks_through_oil() {
    let mut g = Grid::new();
    g.set(5, 5, Particle::new(Element::Water, 0));
    g.set(5, 6, Particle::new(Element::Oil, 0));
    assert!(try_move(&mut g, 5, 5, 5, 6));
    assert_eq!(g.get(5, 6).unwrap().element, Element::Water);
    assert_eq!(g.get(5, 5).unwrap().element, Element::Oil);
}

#[test]
fn test_width_unused_column_guard() {
    // Falling from the last column may only pick the in-bounds diagonal;
    // the out-of-bounds one fails and the grain stays.
    let mut g = Grid::new();
    let mut rng = FixedRandom { v: 1 };
    g.set(WIDTH - 1, 3, Particle::new(Element::Sand, 0));
    g.set(WIDTH - 1, 4, Particle::new(Element::Wood, 0));
    assert!(!fall(&mut g, &mut rng, WIDTH - 1, 3));
    assert_eq!(g.get(WIDTH - 1, 3).unwrap().element, Element::Sand);
}
