//! Equipment: the component of items that can be worn or wielded.

use vstd::prelude::*;

use crate::game::Game;
use crate::item::UseResult;
use crate::message::LogEntry;
use crate::object::{spec_set_equipped, Object};

verus! {

/// Largest stat bonus a single piece of equipment may carry; keeps every
/// aggregated stat well inside `i32`.
pub const BONUS_MAX: i32 = 10_000;

/// The body slot a piece of equipment occupies.
#[derive(Clone, Copy, PartialEq, Eq, Structural, Debug)]
pub enum Slot {
    LeftHand,
    RightHand,
    Head,
}

/// The equippable component: a slot, whether it is currently worn, and the
/// stat bonuses it grants while worn.
#[derive(Clone, Copy, PartialEq, Eq, Structural, Debug)]
pub struct Equipment {
    pub slot: Slot,
    pub equipped: bool,
    pub max_hp_bonus: i32,
    pub defense_bonus: i32,
    pub power_bonus: i32,
}

impl Equipment {
    /// Bonuses are non-negative and bounded, so sums over an inventory fit.
    pub open spec fn wf(self) -> bool {
        &&& 0 <= self.max_hp_bonus <= BONUS_MAX
        &&& 0 <= self.defense_bonus <= BONUS_MAX
        &&& 0 <= self.power_bonus <= BONUS_MAX
    }
}


/// Whether an entity is a piece of equipment currently worn in `slot`.
pub open spec fn spec_equipped_in(o: Object, slot: Slot) -> bool {
    match o.equipment {
        Some(e) => e.equipped && e.slot == slot,
        None => false,
    }
}

/// The full effect of using a piece of equipment from the inventory: worn
/// gear is taken off; otherwise whatever occupies its slot (the first such
/// entry) is taken off first and the gear is put on; an entry without an
/// equipment component is a cancellation. Gear is always kept.
pub open spec fn spec_toggle_effect(
    id: int,
    inv0: Seq<Object>,
    log0: Seq<LogEntry>,
    inv1: Seq<Object>,
    log1: Seq<LogEntry>,
    r: UseResult,
) -> bool {
    match inv0[id].equipment {
        None => {
            &&& r == UseResult::Cancelled
            &&& inv1 == inv0
            &&& log1 == log0
        },
        Some(e) => {
            &&& r == UseResult::UsedAndKept
            &&& if e.equipped {
                &&& inv1 == inv0.update(id, spec_set_equipped(inv0[id], false))
                &&& log1 == log0.push(spec_dequipped_entry(inv0[id]))
            } else {
                ({
                    ||| {
                        // nothing else occupies the slot: the item is put on
                        &&& (forall|j: int|
                            0 <= j < inv0.len() ==> !spec_equipped_in(#[trigger] inv0[j], e.slot))
                        &&& inv1 == inv0.update(id, spec_set_equipped(inv0[id], true))
                        &&& log1 == log0.push(spec_equipped_entry(inv0[id]))
                    }
                    ||| exists|cur: int|
                        {
                            // the first occupant of the slot is taken off first
                            &&& 0 <= cur < inv0.len()
                            &&& spec_equipped_in(#[trigger] inv0[cur], e.slot)
                            &&& forall|j: int|
                                0 <= j < cur ==> !spec_equipped_in(#[trigger] inv0[j], e.slot)
                            &&& inv1 == inv0.update(
                                cur,
                                spec_set_equipped(inv0[cur], false),
                            ).update(id, spec_set_equipped(inv0[id], true))
                            &&& log1 == log0.push(spec_dequipped_entry(inv0[cur])).push(
                                spec_equipped_entry(inv0[id]),
                            )
                        }
                })
            }
        },
    }
}

impl Equipment {
    /// The first inventory entry currently worn in `slot`, if any.
    pub fn get_equipped_in_slot(slot: Slot, inventory: &Vec<Object>) -> (r: Option<usize>)
        ensures
            match r {
                Some(i) => {
                    &&& i < inventory@.len()
                    &&& spec_equipped_in(inventory@[i as int], slot)
                    &&& forall|j: int|
                        0 <= j < i ==> !spec_equipped_in(#[trigger] inventory@[j], slot)
                },
                None => forall|j: int|
                    0 <= j < inventory@.len() ==> !spec_equipped_in(
                        #[trigger] inventory@[j],
                        slot,
                    ),
            },
    {
        let n = inventory.len();
        let mut i: usize = 0;
        while i < n
            invariant
                n == inventory@.len(),
                i <= n,
                forall|j: int| 0 <= j < i ==> !spec_equipped_in(#[trigger] inventory@[j], slot),
            decreases n - i,
        {
            let worn = match &inventory[i].equipment {
                Some(e) => e.equipped && e.slot == slot,
                None => false,
            };
            if worn {
                return Some(i);
            }
            i = i + 1;
        }
        None
    }

    /// Use a piece of equipment from the inventory: take it off if it is
    /// worn; otherwise take off whatever occupies its slot and put it on.
    /// An inventory entry without an equipment component is a cancellation.
    #[verifier::rlimit(100)]
    #[verifier::spinoff_prover]
    pub fn toggle(id: usize, game: &mut Game) -> (r: UseResult)
        requires
            old(game).wf(),
            id < old(game).inventory@.len(),
        ensures
            final(game).wf(),
            final(game).map == old(game).map,
            final(game).dungeon_level == old(game).dungeon_level,
            spec_toggle_effect(
                id as int,
                old(game).inventory@,
                old(game).messages.entries@,
                final(game).inventory@,
                final(game).messages.entries@,
                r,
            ),
    {
        let equipment = match &game.inventory[id].equipment {
            Some(e) => *e,
            None => {
                return UseResult::Cancelled;
            },
        };

        if equipment.equipped {
            let mut o = game.inventory.remove(id);
            o.dequip(&mut game.messages);
            game.inventory.insert(id, o);
            proof {
                assert(game.inventory@ =~= old(game).inventory@.update(
                    id as int,
                    spec_set_equipped(old(game).inventory@[id as int], false),
                ));
            }
        } else {
            if let Some(cur) = Equipment::get_equipped_in_slot(equipment.slot, &game.inventory) {
                let mut c = game.inventory.remove(cur);
                c.dequip(&mut game.messages);
                game.inventory.insert(cur, c);
                proof {
                    assert(game.inventory@ =~= old(game).inventory@.update(
                        cur as int,
                        spec_set_equipped(old(game).inventory@[cur as int], false),
                    ));
                }
            }
            let ghost pre_equip = game.inventory@;
            let mut o = game.inventory.remove(id);
            o.equip(&mut game.messages);
            game.inventory.insert(id, o);
            proof {
                assert(game.inventory@ =~= pre_equip.update(
                    id as int,
                    spec_set_equipped(pre_equip[id as int], true),
                ));
            }
        }
        UseResult::UsedAndKept
    }
}

/// The log entry announcing that a piece of equipment was put on.
pub open spec fn spec_equipped_entry(o: Object) -> crate::message::LogEntry {
    crate::message::LogEntry {
        text: crate::message::LogText {
            kind: crate::message::MessageKind::Equipped,
            subject: Some(o.name),
            target: None,
            slot: match o.equipment {
                Some(e) => Some(e.slot),
                None => None,
            },
            amount: 0,
        },
        color: crate::color::ColorTag::LightGreen,
    }
}

/// The log entry announcing that a piece of equipment was taken off.
pub open spec fn spec_dequipped_entry(o: Object) -> crate::message::LogEntry {
    crate::message::LogEntry {
        text: crate::message::LogText {
            kind: crate::message::MessageKind::Dequipped,
            subject: Some(o.name),
            target: None,
            slot: match o.equipment {
                Some(e) => Some(e.slot),
                None => None,
            },
            amount: 0,
        },
        color: crate::color::ColorTag::LightGreen,
    }
}

} // verus!

