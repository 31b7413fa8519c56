//! Display names, modelled as structured data.
//!
//! Every entity the kernel creates carries one of a closed set of base names;
//! death marks the name as remains ("remains of orc"). The rendering
//! collaborator turns a `Name` into text.

use vstd::prelude::*;

verus! {

/// The base name of an entity.
#[derive(Clone, Copy, PartialEq, Eq, Structural, Debug)]
pub enum NameKind {
    Player,
    Orc,
    Troll,
    Stairs,
    Dagger,
    Sword,
    Shield,
    HealingPotion,
    LightningScroll,
    FireballScroll,
    ConfusionScroll,
}

/// A display name: a base name, possibly marked as the remains of that base.
#[derive(Clone, Copy, PartialEq, Eq, Structural, Debug)]
pub struct Name {
    pub kind: NameKind,
    pub remains: bool,
}

impl Name {
    /// Only the living player entity contributes inventory bonuses to stats.
    pub open spec fn spec_is_player(self) -> bool {
        self.kind == NameKind::Player && !self.remains
    }

    /// A fresh (non-remains) name with the given base.
    pub fn fresh(kind: NameKind) -> (n: Name)
        ensures
            n == (Name { kind, remains: false }),
    {
        Name { kind, remains: false }
    }

    /// The name an entity takes when it dies: the remains of its old name.
    pub fn into_remains(self) -> (n: Name)
        ensures
            n == (Name { kind: self.kind, remains: true }),
    {
        Name { kind: self.kind, remains: true }
    }

    /// Whether this is the (living) player's name.
    pub fn is_player(&self) -> (r: bool)
        ensures
            r == self.spec_is_player(),
    {
        match self.kind {
            NameKind::Player => !self.remains,
            _ => false,
        }
    }
}

} // verus!
