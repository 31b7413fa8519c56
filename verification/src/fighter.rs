//! The combat-capable component: hit points, power, defense, experience.

use vstd::prelude::*;

verus! {

/// Largest base stat (and largest experience reward) an entity may carry.
pub const STAT_MAX: i32 = 1_000_000;
/// Largest current hit-point value; leaves room above every effective
/// maximum (base plus all equipment bonuses).
pub const HP_LIMIT: i32 = 2_000_000;
/// Largest accumulated experience total.
pub const XP_MAX: i32 = 1_000_000_000;

/// Which closing scene plays when the owner of this component dies.
#[derive(Clone, Copy, PartialEq, Eq, Structural, Debug)]
pub enum DeathCallback {
    Player,
    Monster,
}

/// Combat stats. `base_*` fields exclude equipment bonuses; `xp` is the
/// accumulated experience of the owner, and doubles as the reward granted
/// to whoever lands the killing blow.
#[derive(Clone, Copy, PartialEq, Eq, Structural, Debug)]
pub struct Fighter {
    pub base_max_hp: i32,
    pub hp: i32,
    pub base_defense: i32,
    pub base_power: i32,
    pub xp: i32,
    pub on_death: DeathCallback,
}

impl Fighter {
    /// Every stat is non-negative and bounded, so combat arithmetic fits.
    pub open spec fn wf(self) -> bool {
        &&& 0 <= self.base_max_hp <= STAT_MAX
        &&& 0 <= self.hp <= HP_LIMIT
        &&& 0 <= self.base_defense <= STAT_MAX
        &&& 0 <= self.base_power <= STAT_MAX
        &&& 0 <= self.xp <= XP_MAX
    }
}

} // verus!
