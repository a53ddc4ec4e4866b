use vstd::prelude::*;

verus! {

/// The closed set of particle kinds the simulation knows about.
///
/// The declaration order is also the order the brush selector cycles
/// through (see [`Element::next_variant`] and [`Element::previous_variant`]).
#[derive(Clone, Copy, PartialEq, Eq, Structural, Debug)]
pub enum Element {
    Air,
    Sand,
    Oil,
    Water,
    Fire,
    Smoke,
    Steam,
    Wood,
    Wall,
    Ice,
    Lava,
}

/// Relative density of each kind; only the ordering matters.  A denser
/// occupant sinks through a lighter one and a lighter one rises through a
/// denser one.
pub open spec fn density_of(e: Element) -> int {
    match e {
        Element::Air => 0,
        Element::Sand => 20,
        Element::Oil => 9,
        Element::Water => 10,
        Element::Fire => 0,
        Element::Smoke => -1,
        Element::Steam => -2,
        Element::Wood => 30,
        Element::Wall => 100,
        Element::Ice => 30,
        Element::Lava => 30,
    }
}

/// Decay lifetime in ticks; a cell older than this turns back into Air.
/// 0 means the kind never decays on its own.
pub open spec fn lifetime_of(e: Element) -> int {
    match e {
        Element::Air => 0,
        Element::Sand => 0,
        Element::Oil => 0,
        Element::Water => 0,
        Element::Fire => 8,
        Element::Smoke => 120,
        Element::Steam => 0,
        Element::Wood => 0,
        Element::Wall => 0,
        Element::Ice => 0,
        Element::Lava => 0,
    }
}

/// True for the kinds that never move; only Wall is immovable.
pub open spec fn is_static_of(e: Element) -> bool {
    e == Element::Wall
}

/// Display color of each kind, as red, green, blue and alpha channels.
pub open spec fn color_of(e: Element) -> (u8, u8, u8, u8) {
    match e {
        Element::Air => (0, 0, 0, 0),
        Element::Sand => (255, 255, 0, 255),
        Element::Oil => (255, 0, 255, 255),
        Element::Water => (0, 0, 255, 255),
        Element::Fire => (255, 0, 0, 255),
        Element::Smoke => (128, 128, 128, 255),
        Element::Steam => (200, 200, 255, 255),
        Element::Wood => (128, 64, 0, 255),
        Element::Wall => (255, 255, 255, 255),
        Element::Ice => (200, 200, 255, 255),
        Element::Lava => (255, 128, 0, 255),
    }
}

/// Display name of each kind.
pub open spec fn name_of(e: Element) -> Seq<char> {
    match e {
        Element::Air => "Air"@,
        Element::Sand => "Sand"@,
        Element::Oil => "Oil"@,
        Element::Water => "Water"@,
        Element::Fire => "Fire"@,
        Element::Smoke => "Smoke"@,
        Element::Steam => "Steam"@,
        Element::Wood => "Wood"@,
        Element::Wall => "Wall"@,
        Element::Ice => "Ice"@,
        Element::Lava => "Lava"@,
    }
}

/// The successor of each kind in declaration order, wrapping at the end.
pub open spec fn next_of(e: Element) -> Element {
    match e {
        Element::Air => Element::Sand,
        Element::Sand => Element::Oil,
        Element::Oil => Element::Water,
        Element::Water => Element::Fire,
        Element::Fire => Element::Smoke,
        Element::Smoke => Element::Steam,
        Element::Steam => Element::Wood,
        Element::Wood => Element::Wall,
        Element::Wall => Element::Ice,
        Element::Ice => Element::Lava,
        Element::Lava => Element::Air,
    }
}

/// The predecessor of each kind in declaration order, wrapping at the start.
pub open spec fn previous_of(e: Element) -> Element {
    match e {
        Element::Air => Element::Lava,
        Element::Sand => Element::Air,
        Element::Oil => Element::Sand,
        Element::Water => Element::Oil,
        Element::Fire => Element::Water,
        Element::Smoke => Element::Fire,
        Element::Steam => Element::Smoke,
        Element::Wood => Element::Steam,
        Element::Wall => Element::Wood,
        Element::Ice => Element::Wall,
        Element::Lava => Element::Ice,
    }
}

/// All kinds, in declaration order.
pub open spec fn variants_seq() -> Seq<Element> {
    seq![
        Element::Air,
        Element::Sand,
        Element::Oil,
        Element::Water,
        Element::Fire,
        Element::Smoke,
        Element::Steam,
        Element::Wood,
        Element::Wall,
        Element::Ice,
        Element::Lava,
    ]
}

impl Element {
    /// Display color as red, green, blue and alpha channels.
    pub fn color(&self) -> (r: (u8, u8, u8, u8))
        ensures
            r == color_of(*self),
    {
        match *self {
            Element::Air => (0, 0, 0, 0),
            Element::Sand => (255, 255, 0, 255),
            Element::Oil => (255, 0, 255, 255),
            Element::Water => (0, 0, 255, 255),
            Element::Fire => (255, 0, 0, 255),
            Element::Smoke => (128, 128, 128, 255),
            Element::Steam => (200, 200, 255, 255),
            Element::Wood => (128, 64, 0, 255),
            Element::Wall => (255, 255, 255, 255),
            Element::Ice => (200, 200, 255, 255),
            Element::Lava => (255, 128, 0, 255),
        }
    }

    /// Display name of the kind.
    pub fn name(&self) -> (r: &'static str)
        ensures
            r@ == name_of(*self),
    {
        match *self {
            Element::Air => "Air",
            Element::Sand => "Sand",
            Element::Oil => "Oil",
            Element::Water => "Water",
            Element::Fire => "Fire",
            Element::Smoke => "Smoke",
            Element::Steam => "Steam",
            Element::Wood => "Wood",
            Element::Wall => "Wall",
            Element::Ice => "Ice",
            Element::Lava => "Lava",
        }
    }

    /// The next kind in the brush-selector cycle, wrapping from the last
    /// variant back to the first.
    pub fn next_variant(&self) -> (r: Element)
        ensures
            r == next_of(*self),
    {
        match *self {
            Element::Air => Element::Sand,
            Element::Sand => Element::Oil,
            Element::Oil => Element::Water,
            Element::Water => Element::Fire,
            Element::Fire => Element::Smoke,
            Element::Smoke => Element::Steam,
            Element::Steam => Element::Wood,
            Element::Wood => Element::Wall,
            Element::Wall => Element::Ice,
            Element::Ice => Element::Lava,
            Element::Lava => Element::Air,
        }
    }

    /// The previous kind in the brush-selector cycle, wrapping from the
    /// first variant back to the last.
    pub fn previous_variant(&self) -> (r: Element)
        ensures
            r == previous_of(*self),
    {
        match *self {
            Element::Air => Element::Lava,
            Element::Sand => Element::Air,
            Element::Oil => Element::Sand,
            Element::Water => Element::Oil,
            Element::Fire => Element::Water,
            Element::Smoke => Element::Fire,
            Element::Steam => Element::Smoke,
            Element::Wood => Element::Steam,
            Element::Wall => Element::Wood,
            Element::Ice => Element::Wall,
            Element::Lava => Element::Ice,
        }
    }

    /// Every kind, in the stable order the brush selector presents them.
    pub fn variants() -> (r: Vec<Element>)
        ensures
            r@ == variants_seq(),
    {
        let v: Vec<Element> = vec![
            Element::Air,
            Element::Sand,
            Element::Oil,
            Element::Water,
            Element::Fire,
            Element::Smoke,
            Element::Steam,
            Element::Wood,
            Element::Wall,
            Element::Ice,
            Element::Lava,
        ];
        proof {
            assert(v@ =~= variants_seq());
        }
        v
    }
}

/// Cyclic navigation is a bijection: stepping forward and then backward
/// (or backward and then forward) returns to the starting kind.
pub proof fn lemma_cycle_inverse(e: Element)
    ensures
        previous_of(next_of(e)) == e,
        next_of(previous_of(e)) == e,
{
}

} // verus!
