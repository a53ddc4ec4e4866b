use falling_sand::element::Element;
use falling_sand::particle::Particle;

fn all_elements() -> Vec<Element> {
    Element::variants()
}

#[test]
fn test_density_table() {
    assert_eq!(Particle::new(Element::Air, 0).density(), 0);
    assert_eq!(Particle::new(Element::Sand, 0).density(), 20);
    assert_eq!(Particle::new(Element::Oil, 0).density(), 9);
    assert_eq!(Particle::new(Element::Water, 0).density(), 10);
    assert_eq!(Particle::new(Element::Fire, 0).density(), 0);
    assert_eq!(Particle::new(Element::Smoke, 0).density(), -1);
    assert_eq!(Particle::new(Element::Steam, 0).density(), -2);
    assert_eq!(Particle::new(Element::Wood, 0).density(), 30);
    assert_eq!(Particle::new(Element::Wall, 0).density(), 100);
    assert_eq!(Particle::new(Element::Ice, 0).density(), 30);
    assert_eq!(Particle::new(Element::Lava, 0).density(), 30);
}

#[test]
fn test_lifetime_table() {
    for e in all_elements() {
        let expected = match e {
            Element::Fire => 8,
            Element::Smoke => 120,
            _ => 0,
        };
        assert_eq!(Particle::new(e, 0).lifetime(), expected);
    }
}

#[test]
fn test_is_static_table() {
    for e in all_elements() {
        let expected = e == Element::Wall;
        assert_eq!(Particle::new(e, 0).is_static(), expected);
    }
}

#[test]
fn test_color_table() {
    assert_eq!(Element::Air.color(), (0, 0, 0, 0));
    assert_eq!(Element::Sand.color(), (255, 255, 0, 255));
    assert_eq!(Element::Oil.color(), (255, 0, 255, 255));
    assert_eq!(Element::Water.color(), (0, 0, 255, 255));
    assert_eq!(Element::Fire.color(), (255, 0, 0, 255));
    assert_eq!(Element::Smoke.color(), (128, 128, 128, 255));
    assert_eq!(Element::Steam.color(), (200, 200, 255, 255));
    assert_eq!(Element::Wood.color(), (128, 64, 0, 255));
    assert_eq!(Element::Wall.color(), (255, 255, 255, 255));
    assert_eq!(Element::Ice.color(), (200, 200, 255, 255));
    assert_eq!(Element::Lava.color(), (255, 128, 0, 255));
    for e in all_elements() {
        assert_eq!(Particle::new(e, 0).color(), e.color());
    }
}

#[test]
fn test_element_names() {
    assert_eq!(Element::Air.name(), "Air");
    assert_eq!(Element::Sand.name(), "Sand");
    assert_eq!(Element::Oil.name(), "Oil");
    assert_eq!(Element::Water.name(), "Water");
    assert_eq!(Element::Fire.name(), "Fire");
    assert_eq!(Element::Smoke.name(), "Smoke");
    assert_eq!(Element::Steam.name(), "Steam");
    assert_eq!(Element::Wood.name(), "Wood");
    assert_eq!(Element::Wall.name(), "Wall");
    assert_eq!(Element::Ice.name(), "Ice");
    assert_eq!(Element::Lava.name(), "Lava");
}

#[test]
fn test_variants_order() {
    let v = all_elements();
    assert_eq!(
        v,
        vec![
            Element::Air,
            Element::Sand,
            Element::Oil,
            Element::Water,
            Element::Fire,
            Element::Smoke,
            Element::Steam,
            Element::Wood,
            Element::Wall,
            Element::Ice,
            Element::Lava,
        ]
    );
}

#[test]
fn test_cycle_follows_variant_order() {
    let v = all_elements();
    for k in 0..v.len() {
        let next = v[(k + 1) % v.len()];
        let prev = v[(k + v.len() - 1) % v.len()];
        assert_eq!(v[k].next_variant(), next);
        assert_eq!(v[k].previous_variant(), prev);
    }
}

#[test]
fn test_cycle_roundtrip() {
    for e in all_elements() {
        assert_eq!(e.next_variant().previous_variant(), e);
        assert_eq!(e.previous_variant().next_variant(), e);
    }
    // A full trip forward through all eleven kinds wraps back to the start.
    let mut e = Element::Air;
    for _ in 0..11 {
        e = e.next_variant();
    }
    assert_eq!(e, Element::Air);
}

#[test]
fn test_particle_new() {
    let p = Particle::new(Element::Lava, 42);
    assert_eq!(p.element, Element::Lava);
    assert_eq!(p.last_ticked, 42);
    assert_eq!(p.age, 0);
}

#[test]
fn test_particle_default() {
    let p = Particle::default();
    assert_eq!(p.element, Element::Air);
    assert_eq!(p.last_ticked, 0);
    assert_eq!(p.age, 0);
}
