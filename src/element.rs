use vstd::prelude::*;

verus! {

/// The kind of particle that occupies one grid cell.
#[derive(Clone, Copy, Debug, PartialEq, Eq, Structural)]
pub enum ParticleElement {
    Air,
    Water,
    Lava,
    QuickSand,
    Slime,
    HealingSpring,
    ToxicGas,
}

/// Elements that can carry velocity and be relocated by the simulation.
pub open spec fn movable(e: ParticleElement) -> bool {
    e != ParticleElement::Air && e != ParticleElement::HealingSpring
}

impl ParticleElement {
    /// Whether the element can carry velocity and be moved.
    pub fn is_movable(&self) -> (r: bool)
        ensures
            r == movable(*self),
    {
        match self {
            ParticleElement::Air => false,
            ParticleElement::HealingSpring => false,
            _ => true,
        }
    }
}

} // verus!
