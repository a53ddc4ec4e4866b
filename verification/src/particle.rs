use vstd::prelude::*;

use crate::element::{color_of, density_of, is_static_of, lifetime_of, Element};

verus! {

/// The mutable state occupying one grid position: its kind, its age in
/// ticks, and the tick at which the sweep last processed it.
#[derive(Clone, Copy, PartialEq, Eq, Structural, Debug)]
pub struct Particle {
    pub element: Element,
    pub last_ticked: u32,
    pub age: u32,
}

impl Default for Particle {
    /// A freshly created empty cell: Air, never ticked, age 0.
    fn default() -> (r: Self)
        ensures
            r.element == Element::Air,
            r.last_ticked == 0,
            r.age == 0,
    {
        Particle { element: Element::Air, last_ticked: 0, age: 0 }
    }
}

impl Particle {
    /// A fresh particle of the given kind, created at the given tick.
    pub fn new(element: Element, last_ticked: u32) -> (r: Particle)
        ensures
            r.element == element,
            r.last_ticked == last_ticked,
            r.age == 0,
    {
        Particle { element, last_ticked, age: 0 }
    }

    /// Display color of this particle's kind.
    pub fn color(&self) -> (r: (u8, u8, u8, u8))
        ensures
            r == color_of(self.element),
    {
        self.element.color()
    }

    /// Decay lifetime of this particle's kind; 0 means it never decays.
    pub fn lifetime(&self) -> (r: u32)
        ensures
            r == lifetime_of(self.element),
    {
        match self.element {
            Element::Air => 0,
            Element::Sand => 0,
            Element::Water => 0,
            Element::Oil => 0,
            Element::Fire => 8,
            Element::Smoke => 120,
            Element::Steam => 0,
            Element::Wood => 0,
            Element::Wall => 0,
            Element::Ice => 0,
            Element::Lava => 0,
        }
    }

    /// Relative density of this particle's kind.
    pub fn density(&self) -> (r: i32)
        ensures
            r == density_of(self.element),
    {
        match self.element {
            Element::Air => 0,
            Element::Sand => 20,
            Element::Water => 10,
            Element::Oil => 9,
            Element::Fire => 0,
            Element::Smoke => -1,
            Element::Steam => -2,
            Element::Wood => 30,
            Element::Wall => 100,
            Element::Ice => 30,
            Element::Lava => 30,
        }
    }

    /// Whether this particle's kind is immovable.
    pub fn is_static(&self) -> (r: bool)
        ensures
            r == is_static_of(self.element),
    {
        match self.element {
            Element::Air => false,
            Element::Sand => false,
            Element::Water => false,
            Element::Oil => false,
            Element::Fire => false,
            Element::Smoke => false,
            Element::Steam => false,
            Element::Wood => false,
            Element::Wall => true,
            Element::Ice => false,
            Element::Lava => false,
        }
    }
}

} // verus!
