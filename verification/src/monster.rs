//! Monster archetypes and their spawn stats.

use vstd::prelude::*;

use crate::ai::Ai;
use crate::color::ColorTag;
use crate::fighter::{DeathCallback, Fighter};
use crate::name::{Name, NameKind};
use crate::object::Object;
use crate::tile::{MAP_HEIGHT, MAP_WIDTH};

verus! {

/// Every monster kind the generator can spawn.
#[derive(Clone, Copy, PartialEq, Eq, Structural, Debug)]
pub enum Monster {
    Orc,
    Troll,
}

/// The entity an orc spawns as.
pub open spec fn spec_orc(x: i32, y: i32) -> Object {
    Object {
        x,
        y,
        glyph: 'o',
        color: ColorTag::DesaturatedGreen,
        name: Name { kind: NameKind::Orc, remains: false },
        blocks: true,
        alive: true,
        level: 1,
        fighter: Some(
            Fighter {
                base_max_hp: 20,
                hp: 20,
                base_defense: 0,
                base_power: 4,
                xp: 35,
                on_death: DeathCallback::Monster,
            },
        ),
        ai: Some(Ai::Basic),
        item: None,
        equipment: None,
        always_visible: false,
    }
}

/// The entity a troll spawns as.
pub open spec fn spec_troll(x: i32, y: i32) -> Object {
    Object {
        x,
        y,
        glyph: 'T',
        color: ColorTag::DarkerGreen,
        name: Name { kind: NameKind::Troll, remains: false },
        blocks: true,
        alive: true,
        level: 1,
        fighter: Some(
            Fighter {
                base_max_hp: 30,
                hp: 30,
                base_defense: 2,
                base_power: 8,
                xp: 100,
                on_death: DeathCallback::Monster,
            },
        ),
        ai: Some(Ai::Basic),
        item: None,
        equipment: None,
        always_visible: false,
    }
}

impl Monster {
    /// Spawn a monster of this kind at (x, y).
    pub fn create(monster: Monster, x: i32, y: i32) -> (o: Object)
        requires
            0 <= x < MAP_WIDTH,
            0 <= y < MAP_HEIGHT,
        ensures
            o == match monster {
                Monster::Orc => spec_orc(x, y),
                Monster::Troll => spec_troll(x, y),
            },
            o.wf(),
            o.blocks,
            o.alive,
    {
        match monster {
            Monster::Orc => create_orc(x, y),
            Monster::Troll => create_troll(x, y),
        }
    }
}

fn create_orc(x: i32, y: i32) -> (o: Object)
    requires
        0 <= x < MAP_WIDTH,
        0 <= y < MAP_HEIGHT,
    ensures
        o == spec_orc(x, y),
{
    let mut orc = Object::new(
        x,
        y,
        'o',
        ColorTag::DesaturatedGreen,
        Name::fresh(NameKind::Orc),
        true,
    );
    orc.alive = true;
    orc.fighter = Some(
        Fighter {
            base_max_hp: 20,
            hp: 20,
            base_defense: 0,
            base_power: 4,
            xp: 35,
            on_death: DeathCallback::Monster,
        },
    );
    orc.ai = Some(Ai::Basic);
    orc
}

fn create_troll(x: i32, y: i32) -> (o: Object)
    requires
        0 <= x < MAP_WIDTH,
        0 <= y < MAP_HEIGHT,
    ensures
        o == spec_troll(x, y),
{
    let mut troll = Object::new(
        x,
        y,
        'T',
        ColorTag::DarkerGreen,
        Name::fresh(NameKind::Troll),
        true,
    );
    troll.alive = true;
    troll.fighter = Some(
        Fighter {
            base_max_hp: 30,
            hp: 30,
            base_defense: 2,
            base_power: 8,
            xp: 100,
            on_death: DeathCallback::Monster,
        },
    );
    troll.ai = Some(Ai::Basic);
    troll
}

} // verus!
