use vstd::prelude::*;

verus! {

/// Starting hit points of an enemy.
pub const ENEMY_MAX_HP: i32 = 100;

/// An enemy's hit points.
#[derive(Clone, Copy, Debug, PartialEq, Eq, Structural)]
pub struct Health {
    pub hp: i32,
}

impl Health {
    /// Full health.
    pub fn new() -> (r: Health)
        ensures
            r.hp == ENEMY_MAX_HP,
    {
        Health { hp: ENEMY_MAX_HP }
    }
}

} // verus!
