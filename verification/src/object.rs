//! The uniform entity type and the combat model.
//!
//! An `Object` is anything on the map — the player, a monster, an item, the
//! stairs — with optional capability components. Effective stats are the
//! base stats plus, for the player only, the bonuses of every equipped item
//! in the inventory.

use vstd::prelude::*;

use crate::ai::Ai;
use crate::color::ColorTag;
use crate::equipment::{Equipment, BONUS_MAX};
use crate::fighter::{DeathCallback, Fighter, HP_LIMIT, STAT_MAX, XP_MAX};
use crate::game::{Game, INVENTORY_CAP};
use crate::item::Item;
use crate::message::{LogEntry, LogText, MessageKind, Messages};
use crate::name::Name;
use crate::tile::{MAP_HEIGHT, MAP_WIDTH};

verus! {

/// Base experience needed for the first level-up.
pub const LEVEL_UP_BASE: i32 = 200;
/// Additional experience needed per character level.
pub const LEVEL_UP_FACTOR: i32 = 150;
/// Largest character level, so threshold arithmetic fits in `i32`.
pub const LEVEL_MAX: i32 = 1_000_000;

/// A generic entity: the player, a monster, an item, the stairs...
#[derive(PartialEq, Eq, Debug)]
pub struct Object {
    pub x: i32,
    pub y: i32,
    pub glyph: char,
    pub color: ColorTag,
    pub name: Name,
    pub blocks: bool,
    pub alive: bool,
    pub level: i32,
    pub fighter: Option<Fighter>,
    pub ai: Option<Ai>,
    pub item: Option<Item>,
    pub equipment: Option<Equipment>,
    pub always_visible: bool,
}

impl Object {
    /// The entity invariant: position on the grid, bounded level, well-formed
    /// components, no equipment without an item kind, no behavior state on a
    /// dead entity.
    pub open spec fn wf(self) -> bool {
        &&& 0 <= self.x < MAP_WIDTH
        &&& 0 <= self.y < MAP_HEIGHT
        &&& 1 <= self.level <= LEVEL_MAX
        &&& (self.fighter matches Some(f) ==> f.wf())
        &&& (self.equipment matches Some(e) ==> e.wf())
        &&& (self.equipment is Some ==> self.item is Some)
        &&& (self.ai is Some ==> self.alive)
        &&& (self.ai is Some ==> self.fighter is Some)
        &&& (self.glyph as u32) < 0xD800
    }

    /// A fresh entity with no components, not yet alive.
    pub fn new(x: i32, y: i32, glyph: char, color: ColorTag, name: Name, blocks: bool) -> (o:
        Object)
        requires
            0 <= x < MAP_WIDTH,
            0 <= y < MAP_HEIGHT,
        ensures
            o == (Object {
                x,
                y,
                glyph,
                color,
                name,
                blocks,
                alive: false,
                level: 1,
                fighter: None,
                ai: None,
                item: None,
                equipment: None,
                always_visible: false,
            }),
    {
        Object {
            x,
            y,
            glyph,
            color,
            name,
            blocks,
            alive: false,
            level: 1,
            fighter: None,
            ai: None,
            item: None,
            equipment: None,
            always_visible: false,
        }
    }

    /// The entity's position.
    pub fn pos(&self) -> (p: (i32, i32))
        ensures
            p == (self.x, self.y),
    {
        (self.x, self.y)
    }

    /// Move the entity to (x, y); everything else is kept.
    pub fn set_pos(&mut self, x: i32, y: i32)
        ensures
            *final(self) == (Object { x, y, ..*old(self) }),
    {
        self.x = x;
        self.y = y;
    }

    /// Squared Euclidean distance from this entity to (x, y).
    ///
    /// Distances are compared, never displayed, so the kernel works with the
    /// exact square instead of a rounded root.
    pub fn distance_sq(&self, x: i32, y: i32) -> (d: i32)
        requires
            self.wf(),
            0 <= x < MAP_WIDTH,
            0 <= y < MAP_HEIGHT,
        ensures
            d == (x - self.x) * (x - self.x) + (y - self.y) * (y - self.y),
    {
        let dx = x - self.x;
        let dy = y - self.y;
        proof {
            assert(0 <= dx * dx <= 25600) by (nonlinear_arith)
                requires
                    -160 <= dx <= 160,
            ;
            assert(0 <= dy * dy <= 25600) by (nonlinear_arith)
                requires
                    -160 <= dy <= 160,
            ;
        }
        dx * dx + dy * dy
    }

    /// Squared Euclidean distance between two entities.
    pub fn distance_sq_to(&self, other: &Object) -> (d: i32)
        requires
            self.wf(),
            other.wf(),
        ensures
            d == (other.x - self.x) * (other.x - self.x) + (other.y - self.y) * (other.y
                - self.y),
    {
        self.distance_sq(other.x, other.y)
    }

    /// Experience needed for the next level-up: `200 + 150 * level`.
    pub fn level_up_xp(&self) -> (r: i32)
        requires
            1 <= self.level <= LEVEL_MAX,
        ensures
            r == spec_threshold(self.level as int),
    {
        LEVEL_UP_BASE + self.level * LEVEL_UP_FACTOR
    }
}

/// Experience threshold that triggers a level-up at the given level.
pub open spec fn spec_threshold(level: int) -> int {
    LEVEL_UP_BASE + level * LEVEL_UP_FACTOR
}

/// Clamp an integer at zero from below.
pub open spec fn clamp0(x: int) -> int {
    if x >= 0 {
        x
    } else {
        0
    }
}

/// Current hit points of an entity; 0 without a combat component.
pub open spec fn hp_of(o: Object) -> int {
    match o.fighter {
        Some(f) => f.hp as int,
        None => 0,
    }
}

/// Whether applying `damage` kills the entity: it has a combat component,
/// is still alive, and the clamped hit points reach zero.
pub open spec fn spec_dies(o: Object, damage: int) -> bool {
    match o.fighter {
        Some(f) => o.alive && clamp0(f.hp - damage) == 0,
        None => false,
    }
}

/// The inert remains an entity turns into when it dies: presentation switches
/// to remains, it stops blocking, and the combat and behavior components are
/// cleared.
pub open spec fn spec_remains(o: Object) -> Object {
    Object {
        glyph: '%',
        color: ColorTag::DarkRed,
        name: Name { kind: o.name.kind, remains: true },
        blocks: false,
        alive: false,
        fighter: None,
        ai: None,
        ..o
    }
}

/// The log entry the death scene emits, chosen by the death-callback kind.
pub open spec fn spec_death_entry(o: Object) -> LogEntry {
    match o.fighter {
        Some(f) => match f.on_death {
            DeathCallback::Player => LogEntry {
                text: LogText {
                    kind: MessageKind::PlayerDied,
                    subject: None,
                    target: None,
                    slot: None,
                    amount: 0,
                },
                color: ColorTag::Red,
            },
            DeathCallback::Monster => LogEntry {
                text: LogText {
                    kind: MessageKind::MonsterDied,
                    subject: Some(o.name),
                    target: None,
                    slot: None,
                    amount: f.xp,
                },
                color: ColorTag::Orange,
            },
        },
        None => LogEntry {
            text: LogText {
                kind: MessageKind::PlayerDied,
                subject: None,
                target: None,
                slot: None,
                amount: 0,
            },
            color: ColorTag::Red,
        },
    }
}

/// The full effect of applying `damage` to an entity: the entity afterwards,
/// and the experience reward handed to whoever dealt the blow (`Some` exactly
/// when this application is the death transition).
pub open spec fn spec_take_damage(o: Object, damage: int) -> (Object, Option<i32>) {
    match o.fighter {
        None => (o, None),
        Some(f) => {
            let new_hp = clamp0(f.hp - damage);
            if o.alive && new_hp == 0 {
                (spec_remains(o), Some(f.xp))
            } else {
                (Object { fighter: Some(Fighter { hp: new_hp as i32, ..f }), ..o }, None)
            }
        },
    }
}

impl Object {
    /// Apply damage: hit points drop to `max(0, hp - damage)`. If that ends a
    /// living entity, the death scene plays exactly once — a death message is
    /// logged, the entity turns into remains, and the experience reward is
    /// returned to the caller for crediting the killer.
    pub fn take_damage(&mut self, damage: i32, messages: &mut Messages) -> (xp: Option<i32>)
        requires
            old(self).wf(),
            0 <= damage,
        ensures
            final(self).wf(),
            (*final(self), xp) == spec_take_damage(*old(self), damage as int),
            final(messages).entries@ == if spec_dies(*old(self), damage as int) {
                old(messages).entries@.push(spec_death_entry(*old(self)))
            } else {
                old(messages).entries@
            },
    {
        if let Some(f) = self.fighter {
            if damage > 0 {
                let new_hp = if f.hp - damage >= 0 {
                    f.hp - damage
                } else {
                    0
                };
                self.fighter = Some(Fighter { hp: new_hp, ..f });
            }
        }
        if let Some(f) = self.fighter {
            if self.alive && f.hp == 0 {
                self.alive = false;
                match f.on_death {
                    DeathCallback::Player => {
                        messages.add(
                            LogText::plain(MessageKind::PlayerDied),
                            ColorTag::Red,
                        );
                    },
                    DeathCallback::Monster => {
                        messages.add(
                            LogText::counted(MessageKind::MonsterDied, self.name, f.xp),
                            ColorTag::Orange,
                        );
                    },
                }
                self.glyph = '%';
                self.color = ColorTag::DarkRed;
                self.blocks = false;
                self.fighter = None;
                self.ai = None;
                self.name = self.name.into_remains();
                return Some(f.xp);
            }
        }
        None
    }
}

/// Law: for every damage value >= 0, the hit points after `take_damage` are
/// exactly `max(0, hp before - damage)`; hit points are never negative.
pub proof fn lemma_damage_clamps(o: Object, damage: int)
    requires
        o.wf(),
        0 <= damage,
    ensures
        hp_of(spec_take_damage(o, damage).0) == clamp0(hp_of(o) - damage),
        hp_of(spec_take_damage(o, damage).0) >= 0,
{
}

/// Law: the death transition fires at most once. Damaging an entity that a
/// first blow has already killed changes nothing, returns no experience
/// reward, and (because it is no death) logs no further death message.
pub proof fn lemma_death_idempotent(o: Object, d1: int, d2: int)
    requires
        o.wf(),
        0 <= d1,
        0 <= d2,
        spec_dies(o, d1),
    ensures
        ({
            let (o2, xp1) = spec_take_damage(o, d1);
            &&& xp1 is Some
            &&& spec_take_damage(o2, d2) == (o2, None::<i32>)
            &&& !spec_dies(o2, d2)
        }),
{
}


/// The equipment pieces currently worn, drawn from an inventory in order.
pub open spec fn equipped_items(inv: Seq<Object>) -> Seq<Equipment>
    decreases inv.len(),
{
    if inv.len() == 0 {
        Seq::empty()
    } else {
        let rest = equipped_items(inv.drop_last());
        match inv.last().equipment {
            Some(e) => if e.equipped {
                rest.push(e)
            } else {
                rest
            },
            None => rest,
        }
    }
}

/// Sum of the power bonuses of a list of equipment.
pub open spec fn power_bonus_total(es: Seq<Equipment>) -> int
    decreases es.len(),
{
    if es.len() == 0 {
        0
    } else {
        power_bonus_total(es.drop_last()) + es.last().power_bonus
    }
}

/// Sum of the defense bonuses of a list of equipment.
pub open spec fn defense_bonus_total(es: Seq<Equipment>) -> int
    decreases es.len(),
{
    if es.len() == 0 {
        0
    } else {
        defense_bonus_total(es.drop_last()) + es.last().defense_bonus
    }
}

/// Sum of the maximum-hit-point bonuses of a list of equipment.
pub open spec fn max_hp_bonus_total(es: Seq<Equipment>) -> int
    decreases es.len(),
{
    if es.len() == 0 {
        0
    } else {
        max_hp_bonus_total(es.drop_last()) + es.last().max_hp_bonus
    }
}

/// Effective power: base power plus, for the player only, every equipped
/// power bonus in the inventory.
pub open spec fn spec_power(o: Object, inv: Seq<Object>) -> int {
    (match o.fighter {
        Some(f) => f.base_power as int,
        None => 0,
    }) + if o.name.spec_is_player() {
        power_bonus_total(equipped_items(inv))
    } else {
        0
    }
}

/// Effective defense: base defense plus, for the player only, every equipped
/// defense bonus in the inventory.
pub open spec fn spec_defense(o: Object, inv: Seq<Object>) -> int {
    (match o.fighter {
        Some(f) => f.base_defense as int,
        None => 0,
    }) + if o.name.spec_is_player() {
        defense_bonus_total(equipped_items(inv))
    } else {
        0
    }
}

/// Effective maximum hit points: base maximum plus, for the player only,
/// every equipped maximum-hit-point bonus in the inventory.
pub open spec fn spec_max_hp(o: Object, inv: Seq<Object>) -> int {
    (match o.fighter {
        Some(f) => f.base_max_hp as int,
        None => 0,
    }) + if o.name.spec_is_player() {
        max_hp_bonus_total(equipped_items(inv))
    } else {
        0
    }
}

/// The worn equipment of a well-formed inventory is well formed, there is no
/// more of it than there are inventory entries, and each bonus sum lies
/// between 0 and the entry count times `BONUS_MAX`.
pub proof fn lemma_equipped_bounds(inv: Seq<Object>)
    requires
        forall|i: int| 0 <= i < inv.len() ==> (#[trigger] inv[i]).wf(),
    ensures
        equipped_items(inv).len() <= inv.len(),
        forall|i: int|
            0 <= i < equipped_items(inv).len() ==> (#[trigger] equipped_items(inv)[i]).wf(),
        0 <= power_bonus_total(equipped_items(inv)) <= equipped_items(inv).len() * BONUS_MAX,
        0 <= defense_bonus_total(equipped_items(inv)) <= equipped_items(inv).len() * BONUS_MAX,
        0 <= max_hp_bonus_total(equipped_items(inv)) <= equipped_items(inv).len() * BONUS_MAX,
    decreases inv.len(),
{
    if inv.len() > 0 {
        assert(inv.last().wf());
        lemma_equipped_bounds(inv.drop_last());
        let rest = equipped_items(inv.drop_last());
        match inv.last().equipment {
            Some(e) => {
                if e.equipped {
                    assert(rest.push(e).drop_last() =~= rest);
                }
            },
            None => {},
        }
    }
}

impl Object {
    /// The equipment the entity benefits from: every equipped inventory item
    /// for the player, nothing for anyone else.
    pub fn get_all_equipped(&self, game: &Game) -> (r: Vec<Equipment>)
        requires
            game.wf(),
        ensures
            r@ == if self.name.spec_is_player() {
                equipped_items(game.inventory@)
            } else {
                Seq::<Equipment>::empty()
            },
    {
        let mut r: Vec<Equipment> = Vec::new();
        if !self.name.is_player() {
            return r;
        }
        let n = game.inventory.len();
        let mut i: usize = 0;
        while i < n
            invariant
                n == game.inventory@.len(),
                i <= n,
                r@ == equipped_items(game.inventory@.take(i as int)),
            decreases n - i,
        {
            let ghost prefix = game.inventory@.take(i as int);
            match &game.inventory[i].equipment {
                Some(e) => {
                    if e.equipped {
                        r.push(*e);
                    }
                },
                None => {},
            }
            proof {
                let next = game.inventory@.take(i + 1int);
                assert(next.drop_last() =~= prefix);
                assert(next.last() == game.inventory@[i as int]);
            }
            i = i + 1;
        }
        proof {
            assert(game.inventory@.take(n as int) =~= game.inventory@);
        }
        r
    }

    /// Effective power, including the player's equipped bonuses.
    pub fn power(&self, game: &Game) -> (p: i32)
        requires
            self.wf(),
            game.wf(),
        ensures
            p == spec_power(*self, game.inventory@),
    {
        let base = match &self.fighter {
            Some(f) => f.base_power,
            None => 0,
        };
        let equipped = self.get_all_equipped(game);
        proof {
            lemma_equipped_bounds(game.inventory@);
        }
        let mut bonus: i32 = 0;
        let mut i: usize = 0;
        while i < equipped.len()
            invariant
                i <= equipped@.len(),
                equipped@.len() <= INVENTORY_CAP,
                forall|j: int| 0 <= j < equipped@.len() ==> (#[trigger] equipped@[j]).wf(),
                bonus == power_bonus_total(equipped@.take(i as int)),
                0 <= bonus <= i * BONUS_MAX,
            decreases equipped@.len() - i,
        {
            proof {
                let next = equipped@.take(i + 1int);
                assert(next.drop_last() =~= equipped@.take(i as int));
                assert(next.last() == equipped@[i as int]);
            }
            bonus = bonus + equipped[i].power_bonus;
            i = i + 1;
        }
        proof {
            assert(equipped@.take(equipped@.len() as int) =~= equipped@);
        }
        base + bonus
    }

    /// Effective defense, including the player's equipped bonuses.
    pub fn defense(&self, game: &Game) -> (p: i32)
        requires
            self.wf(),
            game.wf(),
        ensures
            p == spec_defense(*self, game.inventory@),
    {
        let base = match &self.fighter {
            Some(f) => f.base_defense,
            None => 0,
        };
        let equipped = self.get_all_equipped(game);
        proof {
            lemma_equipped_bounds(game.inventory@);
        }
        let mut bonus: i32 = 0;
        let mut i: usize = 0;
        while i < equipped.len()
            invariant
                i <= equipped@.len(),
                equipped@.len() <= INVENTORY_CAP,
                forall|j: int| 0 <= j < equipped@.len() ==> (#[trigger] equipped@[j]).wf(),
                bonus == defense_bonus_total(equipped@.take(i as int)),
                0 <= bonus <= i * BONUS_MAX,
            decreases equipped@.len() - i,
        {
            proof {
                let next = equipped@.take(i + 1int);
                assert(next.drop_last() =~= equipped@.take(i as int));
                assert(next.last() == equipped@[i as int]);
            }
            bonus = bonus + equipped[i].defense_bonus;
            i = i + 1;
        }
        proof {
            assert(equipped@.take(equipped@.len() as int) =~= equipped@);
        }
        base + bonus
    }

    /// Effective maximum hit points, including the player's equipped bonuses.
    pub fn max_hp(&self, game: &Game) -> (p: i32)
        requires
            self.wf(),
            game.wf(),
        ensures
            p == spec_max_hp(*self, game.inventory@),
    {
        let base = match &self.fighter {
            Some(f) => f.base_max_hp,
            None => 0,
        };
        let equipped = self.get_all_equipped(game);
        proof {
            lemma_equipped_bounds(game.inventory@);
        }
        let mut bonus: i32 = 0;
        let mut i: usize = 0;
        while i < equipped.len()
            invariant
                i <= equipped@.len(),
                equipped@.len() <= INVENTORY_CAP,
                forall|j: int| 0 <= j < equipped@.len() ==> (#[trigger] equipped@[j]).wf(),
                bonus == max_hp_bonus_total(equipped@.take(i as int)),
                0 <= bonus <= i * BONUS_MAX,
            decreases equipped@.len() - i,
        {
            proof {
                let next = equipped@.take(i + 1int);
                assert(next.drop_last() =~= equipped@.take(i as int));
                assert(next.last() == equipped@[i as int]);
            }
            bonus = bonus + equipped[i].max_hp_bonus;
            i = i + 1;
        }
        proof {
            assert(equipped@.take(equipped@.len() as int) =~= equipped@);
        }
        base + bonus
    }

    /// Heal by `amount`, clamped at the effective maximum. An entity without
    /// a combat component is unchanged.
    pub fn heal(&mut self, amount: i32, game: &Game)
        requires
            old(self).wf(),
            game.wf(),
            0 <= amount <= STAT_MAX,
        ensures
            final(self).wf(),
            *final(self) == match old(self).fighter {
                Some(f) => {
                    let capped = spec_max_hp(*old(self), game.inventory@);
                    let healed = if f.hp + amount <= capped {
                        f.hp + amount
                    } else {
                        capped
                    };
                    Object { fighter: Some(Fighter { hp: healed as i32, ..f }), ..*old(self) }
                },
                None => *old(self),
            },
    {
        let max_hp = self.max_hp(game);
        proof {
            lemma_equipped_bounds(game.inventory@);
        }
        if let Some(f) = self.fighter {
            let healed = if f.hp + amount <= max_hp {
                f.hp + amount
            } else {
                max_hp
            };
            self.fighter = Some(Fighter { hp: healed, ..f });
        }
    }
}

/// An entity with the given experience reward credited to its combat
/// component.
pub open spec fn spec_award_xp(o: Object, reward: int) -> Object {
    match o.fighter {
        Some(f) => Object { fighter: Some(Fighter { xp: (f.xp + reward) as i32, ..f }), ..o },
        None => o,
    }
}

/// The log entry announcing a successful hit.
pub open spec fn spec_attack_entry(attacker: Object, target: Object, damage: int) -> LogEntry {
    LogEntry {
        text: LogText {
            kind: MessageKind::Attack,
            subject: Some(attacker.name),
            target: Some(target.name),
            slot: None,
            amount: damage as i32,
        },
        color: ColorTag::White,
    }
}

/// The log entry announcing a blow without effect.
pub open spec fn spec_no_effect_entry(attacker: Object, target: Object) -> LogEntry {
    LogEntry {
        text: LogText {
            kind: MessageKind::NoEffect,
            subject: Some(attacker.name),
            target: Some(target.name),
            slot: None,
            amount: 0,
        },
        color: ColorTag::White,
    }
}

/// The full effect of one attack, over the attacker, the target and the log:
/// damage is effective power minus effective defense; a positive difference
/// is applied in full and logged with its exact value (with the death scene
/// and the kill reward if it kills); anything else is logged as a blow
/// without effect.
pub open spec fn spec_attack_effect(
    attacker: Object,
    target: Object,
    inv: Seq<Object>,
    log: Seq<LogEntry>,
) -> (Object, Object, Seq<LogEntry>) {
    let dmg = spec_power(attacker, inv) - spec_defense(target, inv);
    if dmg > 0 {
        let hit_log = log.push(spec_attack_entry(attacker, target, dmg));
        if spec_dies(target, dmg) {
            (
                spec_award_xp(attacker, spec_take_damage(target, dmg).1->Some_0 as int),
                spec_take_damage(target, dmg).0,
                hit_log.push(spec_death_entry(target)),
            )
        } else {
            (attacker, spec_take_damage(target, dmg).0, hit_log)
        }
    } else {
        (attacker, target, log.push(spec_no_effect_entry(attacker, target)))
    }
}

impl Object {
    /// One attack: damage is effective power minus the target's effective
    /// defense. A positive difference is applied in full and logged with its
    /// exact value; the kill reward, if any, is credited to this attacker.
    /// Anything else is logged as a blow without effect.
    pub fn attack(&mut self, other: &mut Object, game: &mut Game)
        requires
            old(self).wf(),
            old(other).wf(),
            old(game).wf(),
            old(self).fighter is Some,
            (match (old(self).fighter, old(other).fighter) {
                (Some(a), Some(t)) => a.xp + t.xp <= XP_MAX,
                _ => true,
            }),
        ensures
            final(self).wf(),
            final(other).wf(),
            final(game).wf(),
            final(game).map == old(game).map,
            final(game).inventory == old(game).inventory,
            final(game).dungeon_level == old(game).dungeon_level,
            (*final(self), *final(other), final(game).messages.entries@) == spec_attack_effect(
                *old(self),
                *old(other),
                old(game).inventory@,
                old(game).messages.entries@,
            ),
    {
        proof {
            lemma_equipped_bounds(old(game).inventory@);
        }
        let damage = self.power(game) - other.defense(game);
        if damage > 0 {
            game.messages.add(
                LogText::versus(MessageKind::Attack, self.name, other.name, damage),
                ColorTag::White,
            );
            if let Some(xp) = other.take_damage(damage, &mut game.messages) {
                let f = self.fighter.unwrap();
                self.fighter = Some(Fighter { xp: f.xp + xp, ..f });
            }
        } else {
            game.messages.add(
                LogText::versus(MessageKind::NoEffect, self.name, other.name, 0),
                ColorTag::White,
            );
        }
    }

    /// Mark this entity's equipment as worn, logging the change; equipping a
    /// non-item or non-equipment entity only logs a complaint, and equipping
    /// what is already worn does nothing.
    pub fn equip(&mut self, messages: &mut Messages)
        ensures
            *final(self) == match old(self).equipment {
                Some(e) => if old(self).item is Some && !e.equipped {
                    Object { equipment: Some(Equipment { equipped: true, ..e }), ..*old(self) }
                } else {
                    *old(self)
                },
                None => *old(self),
            },
            final(messages).entries@ == if old(self).item is None {
                old(messages).entries@.push(
                    LogEntry {
                        text: LogText {
                            kind: MessageKind::CantEquipNotItem,
                            subject: Some(old(self).name),
                            target: None,
                            slot: None,
                            amount: 0,
                        },
                        color: ColorTag::Red,
                    },
                )
            } else {
                match old(self).equipment {
                    Some(e) => if !e.equipped {
                        old(messages).entries@.push(
                            LogEntry {
                                text: LogText {
                                    kind: MessageKind::Equipped,
                                    subject: Some(old(self).name),
                                    target: None,
                                    slot: Some(e.slot),
                                    amount: 0,
                                },
                                color: ColorTag::LightGreen,
                            },
                        )
                    } else {
                        old(messages).entries@
                    },
                    None => old(messages).entries@.push(
                        LogEntry {
                            text: LogText {
                                kind: MessageKind::CantEquipNotEquipment,
                                subject: Some(old(self).name),
                                target: None,
                                slot: None,
                                amount: 0,
                            },
                            color: ColorTag::Red,
                        },
                    ),
                }
            },
    {
        if self.item.is_none() {
            messages.add(
                LogText::named(MessageKind::CantEquipNotItem, self.name),
                ColorTag::Red,
            );
            return;
        }
        if let Some(e) = self.equipment {
            if !e.equipped {
                self.equipment = Some(Equipment { equipped: true, ..e });
                messages.add(
                    LogText::slotted(MessageKind::Equipped, self.name, e.slot),
                    ColorTag::LightGreen,
                );
            }
        } else {
            messages.add(
                LogText::named(MessageKind::CantEquipNotEquipment, self.name),
                ColorTag::Red,
            );
        }
    }

    /// Take this entity's equipment off, logging the change; dequipping a
    /// non-item or non-equipment entity only logs a complaint, and dequipping
    /// what is not worn does nothing.
    pub fn dequip(&mut self, messages: &mut Messages)
        ensures
            *final(self) == match old(self).equipment {
                Some(e) => if old(self).item is Some && e.equipped {
                    Object { equipment: Some(Equipment { equipped: false, ..e }), ..*old(self) }
                } else {
                    *old(self)
                },
                None => *old(self),
            },
            final(messages).entries@ == if old(self).item is None {
                old(messages).entries@.push(
                    LogEntry {
                        text: LogText {
                            kind: MessageKind::CantDequipNotItem,
                            subject: Some(old(self).name),
                            target: None,
                            slot: None,
                            amount: 0,
                        },
                        color: ColorTag::Red,
                    },
                )
            } else {
                match old(self).equipment {
                    Some(e) => if e.equipped {
                        old(messages).entries@.push(
                            LogEntry {
                                text: LogText {
                                    kind: MessageKind::Dequipped,
                                    subject: Some(old(self).name),
                                    target: None,
                                    slot: Some(e.slot),
                                    amount: 0,
                                },
                                color: ColorTag::LightGreen,
                            },
                        )
                    } else {
                        old(messages).entries@
                    },
                    None => old(messages).entries@.push(
                        LogEntry {
                            text: LogText {
                                kind: MessageKind::CantDequipNotEquipment,
                                subject: Some(old(self).name),
                                target: None,
                                slot: None,
                                amount: 0,
                            },
                            color: ColorTag::Red,
                        },
                    ),
                }
            },
    {
        if self.item.is_none() {
            messages.add(
                LogText::named(MessageKind::CantDequipNotItem, self.name),
                ColorTag::Red,
            );
            return;
        }
        if let Some(e) = self.equipment {
            if e.equipped {
                self.equipment = Some(Equipment { equipped: false, ..e });
                messages.add(
                    LogText::slotted(MessageKind::Dequipped, self.name, e.slot),
                    ColorTag::LightGreen,
                );
            }
        } else {
            messages.add(
                LogText::named(MessageKind::CantDequipNotEquipment, self.name),
                ColorTag::Red,
            );
        }
    }
}


/// An entity with its equipment's worn flag set to `worn`; an entity without
/// equipment is unchanged.
pub open spec fn spec_set_equipped(o: Object, worn: bool) -> Object {
    match o.equipment {
        Some(e) => Object { equipment: Some(Equipment { equipped: worn, ..e }), ..o },
        None => o,
    }
}

/// Law: toggling the worn flag of one inventory entry changes each aggregated
/// bonus total by exactly that entry's own bonus — added when it is put on,
/// removed when it is taken off — and leaves every other entry's contribution
/// intact.
pub proof fn lemma_toggle_changes_totals(inv: Seq<Object>, i: int, worn: bool)
    requires
        0 <= i < inv.len(),
        inv[i].equipment matches Some(e) && e.equipped != worn,
    ensures
        ({
            let e = inv[i].equipment->Some_0;
            let inv2 = inv.update(i, spec_set_equipped(inv[i], worn));
            &&& power_bonus_total(equipped_items(inv2)) == power_bonus_total(equipped_items(inv))
                + (if worn { e.power_bonus as int } else { -(e.power_bonus as int) })
            &&& defense_bonus_total(equipped_items(inv2)) == defense_bonus_total(
                equipped_items(inv),
            ) + (if worn { e.defense_bonus as int } else { -(e.defense_bonus as int) })
            &&& max_hp_bonus_total(equipped_items(inv2)) == max_hp_bonus_total(
                equipped_items(inv),
            ) + (if worn { e.max_hp_bonus as int } else { -(e.max_hp_bonus as int) })
        }),
    decreases inv.len(),
{
    let e = inv[i].equipment->Some_0;
    let inv2 = inv.update(i, spec_set_equipped(inv[i], worn));
    if i == inv.len() - 1 {
        assert(inv2.drop_last() =~= inv.drop_last());
        let rest = equipped_items(inv.drop_last());
        if worn {
            let e2 = Equipment { equipped: true, ..e };
            assert(inv2.last() == spec_set_equipped(inv[i], true));
            assert(inv2.last().equipment == Some(e2));
            assert(equipped_items(inv2) == rest.push(e2));
            assert(rest.push(e2).drop_last() =~= rest);
            assert(rest.push(e2).last() == e2);
            assert(equipped_items(inv) == rest);
            assert(power_bonus_total(rest.push(e2)) == power_bonus_total(rest) + e.power_bonus);
        } else {
            let e2 = Equipment { equipped: false, ..e };
            assert(inv2.last().equipment == Some(e2));
            assert(equipped_items(inv2) == rest);
            assert(equipped_items(inv) == rest.push(e));
            assert(rest.push(e).drop_last() =~= rest);
            assert(rest.push(e).last() == e);
            assert(power_bonus_total(rest.push(e)) == power_bonus_total(rest) + e.power_bonus);
        }
    } else {
        assert(inv2.last() == inv.last());
        assert(inv2.drop_last() =~= inv.drop_last().update(i, spec_set_equipped(inv[i], worn)));
        lemma_toggle_changes_totals(inv.drop_last(), i, worn);
        let rest1 = equipped_items(inv.drop_last());
        let rest2 = equipped_items(inv2.drop_last());
        match inv.last().equipment {
            Some(le) => {
                if le.equipped {
                    assert(rest1.push(le).drop_last() =~= rest1);
                    assert(rest2.push(le).drop_last() =~= rest2);
                }
            },
            None => {},
        }
    }
}

/// Law: putting one inventory item on raises the player's effective power by
/// exactly that item's power bonus, and taking it off removes exactly that
/// bonus, whatever else is worn.
pub proof fn lemma_equip_power_delta(player: Object, inv: Seq<Object>, i: int, worn: bool)
    requires
        player.name.spec_is_player(),
        0 <= i < inv.len(),
        inv[i].equipment matches Some(e) && e.equipped != worn,
    ensures
        ({
            let e = inv[i].equipment->Some_0;
            let inv2 = inv.update(i, spec_set_equipped(inv[i], worn));
            spec_power(player, inv2) == spec_power(player, inv)
                + (if worn { e.power_bonus as int } else { -(e.power_bonus as int) })
        }),
{
    lemma_toggle_changes_totals(inv, i, worn);
}

} // verus!


