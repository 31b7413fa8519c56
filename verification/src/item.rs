//! Item kinds: the component of entities that can be picked up and used.

use vstd::prelude::*;

use crate::ai::{Ai, CONFUSE_NUM_TURNS};
use crate::color::ColorTag;
use crate::equipment::{spec_toggle_effect, Equipment, Slot};
use crate::fighter::XP_MAX;
use crate::game::{FovGrid, Game, Selection, PLAYER};
use crate::message::{LogEntry, LogText, MessageKind};
use crate::name::{Name, NameKind};
use crate::object::{
    spec_award_xp, spec_death_entry, spec_dies, spec_max_hp, spec_set_equipped, spec_take_damage,
    Object,
};
use crate::tile::{MAP_HEIGHT, MAP_WIDTH};

verus! {

/// Every kind of usable item the dungeon can hold.
#[derive(Clone, Copy, PartialEq, Eq, Structural, Debug)]
pub enum Item {
    Heal,
    Lightning,
    Confusion,
    Fireball,
    Sword,
    Shield,
}

/// What using an item came to.
#[derive(Clone, Copy, PartialEq, Eq, Structural, Debug)]
pub enum UseResult {
    UsedUp,
    Cancelled,
    UsedAndKept,
}

/// What a use of this item needs from the targeting collaborator before the
/// kernel can resolve it.
#[derive(Clone, Copy, PartialEq, Eq, Structural, Debug)]
pub enum Targeting {
    Untargeted,
    Monster,
    Tile,
}

impl Item {
    /// The selection the interactive targeting collaborator must gather
    /// before `use_item` can resolve this item.
    pub fn targeting(self) -> (t: Targeting)
        ensures
            t == match self {
                Item::Confusion => Targeting::Monster,
                Item::Fireball => Targeting::Tile,
                _ => Targeting::Untargeted,
            },
    {
        match self {
            Item::Confusion => Targeting::Monster,
            Item::Fireball => Targeting::Tile,
            _ => Targeting::Untargeted,
        }
    }
}


/// The entity an item of the given kind lies on the floor as.
pub open spec fn spec_item_object(item: Item, x: i32, y: i32) -> Object {
    let base = Object {
        x,
        y,
        glyph: ' ',
        color: ColorTag::White,
        name: Name { kind: NameKind::HealingPotion, remains: false },
        blocks: false,
        alive: false,
        level: 1,
        fighter: None,
        ai: None,
        item: Some(item),
        equipment: None,
        always_visible: false,
    };
    match item {
        Item::Heal => Object {
            glyph: '!',
            color: ColorTag::Violet,
            name: Name { kind: NameKind::HealingPotion, remains: false },
            ..base
        },
        Item::Shield => Object {
            glyph: 'o',
            color: ColorTag::DarkerOrange,
            name: Name { kind: NameKind::Shield, remains: false },
            equipment: Some(
                Equipment {
                    equipped: false,
                    slot: Slot::LeftHand,
                    max_hp_bonus: 0,
                    defense_bonus: 1,
                    power_bonus: 0,
                },
            ),
            ..base
        },
        Item::Sword => Object {
            glyph: '/',
            color: ColorTag::Sky,
            name: Name { kind: NameKind::Sword, remains: false },
            equipment: Some(
                Equipment {
                    equipped: false,
                    slot: Slot::RightHand,
                    max_hp_bonus: 0,
                    defense_bonus: 0,
                    power_bonus: 3,
                },
            ),
            ..base
        },
        Item::Lightning => Object {
            glyph: '#',
            color: ColorTag::LightYellow,
            name: Name { kind: NameKind::LightningScroll, remains: false },
            ..base
        },
        Item::Fireball => Object {
            glyph: '#',
            color: ColorTag::LightYellow,
            name: Name { kind: NameKind::FireballScroll, remains: false },
            ..base
        },
        Item::Confusion => Object {
            glyph: '#',
            color: ColorTag::LightYellow,
            name: Name { kind: NameKind::ConfusionScroll, remains: false },
            ..base
        },
    }
}

impl Item {
    /// Create the floor entity for an item of the given kind at (x, y).
    pub fn create(item: Item, x: i32, y: i32) -> (o: Object)
        requires
            0 <= x < MAP_WIDTH,
            0 <= y < MAP_HEIGHT,
        ensures
            o == spec_item_object(item, x, y),
            o.wf(),
            !o.blocks,
            o.item == Some(item),
    {
        match item {
            Item::Heal => {
                let mut object = Object::new(
                    x,
                    y,
                    '!',
                    ColorTag::Violet,
                    Name::fresh(NameKind::HealingPotion),
                    false,
                );
                object.item = Some(Item::Heal);
                object
            },
            Item::Shield => {
                let mut object = Object::new(
                    x,
                    y,
                    'o',
                    ColorTag::DarkerOrange,
                    Name::fresh(NameKind::Shield),
                    false,
                );
                object.item = Some(Item::Shield);
                object.equipment = Some(
                    Equipment {
                        equipped: false,
                        slot: Slot::LeftHand,
                        max_hp_bonus: 0,
                        defense_bonus: 1,
                        power_bonus: 0,
                    },
                );
                object
            },
            Item::Sword => {
                let mut object = Object::new(
                    x,
                    y,
                    '/',
                    ColorTag::Sky,
                    Name::fresh(NameKind::Sword),
                    false,
                );
                object.item = Some(Item::Sword);
                object.equipment = Some(
                    Equipment {
                        equipped: false,
                        slot: Slot::RightHand,
                        max_hp_bonus: 0,
                        defense_bonus: 0,
                        power_bonus: 3,
                    },
                );
                object
            },
            Item::Lightning => {
                let mut object = Object::new(
                    x,
                    y,
                    '#',
                    ColorTag::LightYellow,
                    Name::fresh(NameKind::LightningScroll),
                    false,
                );
                object.item = Some(Item::Lightning);
                object
            },
            Item::Fireball => {
                let mut object = Object::new(
                    x,
                    y,
                    '#',
                    ColorTag::LightYellow,
                    Name::fresh(NameKind::FireballScroll),
                    false,
                );
                object.item = Some(Item::Fireball);
                object
            },
            Item::Confusion => {
                let mut object = Object::new(
                    x,
                    y,
                    '#',
                    ColorTag::LightYellow,
                    Name::fresh(NameKind::ConfusionScroll),
                    false,
                );
                object.item = Some(Item::Confusion);
                object
            },
        }
    }
}


/// Hit points a healing potion restores.
pub const HEAL_AMOUNT: i32 = 40;
/// Damage of a lightning bolt.
pub const LIGHTNING_DAMAGE: i32 = 40;
/// Farthest distance (in tiles) at which lightning finds a target.
pub const LIGHTNING_RANGE: i32 = 5;
/// Farthest distance (in tiles) at which a confusion scroll can be aimed.
pub const CONFUSE_RANGE: i32 = 8;
/// Blast radius of a fireball.
pub const FIREBALL_RADIUS: i32 = 3;
/// Damage a fireball deals to everything in its blast.
pub const FIREBALL_DAMAGE: i32 = 25;

/// Whether entity `j` is a target lightning considers: an autonomous,
/// combat-capable entity other than the player, on a visible tile.
pub open spec fn spec_lightning_candidate(objects: Seq<Object>, j: int, fov: FovGrid) -> bool {
    &&& 0 < j < objects.len()
    &&& objects[j].fighter is Some
    &&& objects[j].ai is Some
    &&& fov.spec_visible(objects[j].x as int, objects[j].y as int)
}

/// Squared distance between the player and entity `j`.
pub open spec fn spec_d2_to_player(objects: Seq<Object>, j: int) -> int {
    let p = objects[0];
    let o = objects[j];
    (o.x - p.x) * (o.x - p.x) + (o.y - p.y) * (o.y - p.y)
}

/// The closest visible monster within `max_range` tiles of the player; on
/// equal distances the earliest in the collection wins.
pub fn target_closest(objects: &Vec<Object>, fov: &FovGrid, max_range: i32) -> (r: Option<usize>)
    requires
        fov.wf(),
        objects@.len() >= 1,
        forall|i: int| 0 <= i < objects@.len() ==> (#[trigger] objects@[i]).wf(),
        0 <= max_range <= 100,
    ensures
        match r {
            Some(i) => {
                &&& spec_lightning_candidate(objects@, i as int, *fov)
                &&& spec_d2_to_player(objects@, i as int) < (max_range + 1) * (max_range + 1)
                &&& forall|j: int|
                    #![trigger spec_lightning_candidate(objects@, j, *fov)]
                    spec_lightning_candidate(objects@, j, *fov) && j < i ==> spec_d2_to_player(
                        objects@,
                        j,
                    ) > spec_d2_to_player(objects@, i as int)
                &&& forall|j: int|
                    #![trigger spec_lightning_candidate(objects@, j, *fov)]
                    spec_lightning_candidate(objects@, j, *fov) && j > i ==> spec_d2_to_player(
                        objects@,
                        j,
                    ) >= spec_d2_to_player(objects@, i as int)
            },
            None => forall|j: int|
                #![trigger spec_lightning_candidate(objects@, j, *fov)]
                spec_lightning_candidate(objects@, j, *fov) ==> spec_d2_to_player(objects@, j)
                    >= (max_range + 1) * (max_range + 1),
        },
{
    let mut closest_enemy: Option<usize> = None;
    proof {
        assert(0 <= (max_range + 1) * (max_range + 1) <= 10201) by (nonlinear_arith)
            requires
                0 <= max_range <= 100,
        ;
    }
    let limit = (max_range + 1) * (max_range + 1);
    let mut closest_d2: i32 = limit;
    let n = objects.len();
    let mut id: usize = 1;
    while id < n
        invariant
            fov.wf(),
            n == objects@.len(),
            1 <= id <= n,
            forall|i: int| 0 <= i < objects@.len() ==> (#[trigger] objects@[i]).wf(),
            0 <= max_range <= 100,
            limit == (max_range + 1) * (max_range + 1),
            closest_d2 <= limit,
            match closest_enemy {
                Some(i) => {
                    &&& 0 < i < id
                    &&& closest_d2 < limit
                    &&& spec_lightning_candidate(objects@, i as int, *fov)
                    &&& closest_d2 == spec_d2_to_player(objects@, i as int)
                    &&& forall|j: int|
                        #![trigger spec_lightning_candidate(objects@, j, *fov)]
                        spec_lightning_candidate(objects@, j, *fov) && j < i
                            ==> spec_d2_to_player(objects@, j) > closest_d2
                    &&& forall|j: int|
                        #![trigger spec_lightning_candidate(objects@, j, *fov)]
                        spec_lightning_candidate(objects@, j, *fov) && i < j < id
                            ==> spec_d2_to_player(objects@, j) >= closest_d2
                },
                None => {
                    &&& closest_d2 == limit
                    &&& forall|j: int|
                        #![trigger spec_lightning_candidate(objects@, j, *fov)]
                        spec_lightning_candidate(objects@, j, *fov) && j < id
                            ==> spec_d2_to_player(objects@, j) >= limit
                },
            },
        decreases n - id,
    {
        let is_candidate = {
            let o = &objects[id];
            let has_parts = match (&o.fighter, &o.ai) {
                (Some(_), Some(_)) => true,
                _ => false,
            };
            has_parts && fov.is_visible(o.x, o.y)
        };
        if is_candidate {
            let d2 = objects[PLAYER].distance_sq_to(&objects[id]);
            if d2 < closest_d2 {
                closest_enemy = Some(id);
                closest_d2 = d2;
            }
        }
        id = id + 1;
    }
    closest_enemy
}

/// The full effect of using a healing potion: a combat-capable player not at
/// full effective health heals by `HEAL_AMOUNT`, clamped at the maximum, and
/// the potion is spent; at full health, or without a combat component, the
/// use is cancelled.
pub open spec fn spec_cast_heal_effect(
    objs0: Seq<Object>,
    inv: Seq<Object>,
    log0: Seq<LogEntry>,
    objs1: Seq<Object>,
    log1: Seq<LogEntry>,
    r: UseResult,
) -> bool {
    let player = objs0[PLAYER as int];
    let capped = spec_max_hp(player, inv);
    match player.fighter {
        Some(f) => if f.hp == capped {
            &&& r == UseResult::Cancelled
            &&& objs1 == objs0
            &&& log1 == log0.push(
                LogEntry {
                    text: LogText {
                        kind: MessageKind::AlreadyFullHealth,
                        subject: None,
                        target: None,
                        slot: None,
                        amount: 0,
                    },
                    color: ColorTag::Red,
                },
            )
        } else {
            let healed_hp = if f.hp + HEAL_AMOUNT <= capped {
                f.hp + HEAL_AMOUNT
            } else {
                capped
            };
            &&& r == UseResult::UsedUp
            &&& objs1 == objs0.update(
                PLAYER as int,
                Object {
                    fighter: Some(crate::fighter::Fighter { hp: healed_hp as i32, ..f }),
                    ..player
                },
            )
            &&& log1 == log0.push(
                LogEntry {
                    text: LogText {
                        kind: MessageKind::WoundsFeelBetter,
                        subject: None,
                        target: None,
                        slot: None,
                        amount: 0,
                    },
                    color: ColorTag::LightViolet,
                },
            )
        },
        None => {
            &&& r == UseResult::Cancelled
            &&& objs1 == objs0
            &&& log1 == log0
        },
    }
}

/// Use a healing potion: a combat-capable player not at full effective
/// health heals by `HEAL_AMOUNT` (clamped at the maximum) and the potion is
/// spent; at full health, or without a combat component, nothing happens.
pub fn cast_heal(game: &mut Game, objects: &mut Vec<Object>) -> (r: UseResult)
    requires
        old(game).wf(),
        old(objects)@.len() >= 1,
        forall|i: int| 0 <= i < old(objects)@.len() ==> (#[trigger] old(objects)@[i]).wf(),
    ensures
        final(game).wf(),
        final(game).map == old(game).map,
        final(game).inventory == old(game).inventory,
        final(game).dungeon_level == old(game).dungeon_level,
        forall|i: int| 0 <= i < final(objects)@.len() ==> (#[trigger] final(objects)@[i]).wf(),
        spec_cast_heal_effect(
            old(objects)@,
            old(game).inventory@,
            old(game).messages.entries@,
            final(objects)@,
            final(game).messages.entries@,
            r,
        ),
{
    let has_fighter = objects[PLAYER].fighter.is_some();
    if has_fighter {
        let max_hp = objects[PLAYER].max_hp(game);
        let hp = match &objects[PLAYER].fighter {
            Some(f) => f.hp,
            None => 0,
        };
        if hp == max_hp {
            game.messages.add(LogText::plain(MessageKind::AlreadyFullHealth), ColorTag::Red);
            return UseResult::Cancelled;
        }
        game.messages.add(LogText::plain(MessageKind::WoundsFeelBetter), ColorTag::LightViolet);
        proof {
            crate::object::lemma_equipped_bounds(game.inventory@);
        }
        let mut player = objects.remove(PLAYER);
        player.heal(HEAL_AMOUNT, game);
        objects.insert(PLAYER, player);
        proof {
            assert(objects@ =~= old(objects)@.update(PLAYER as int, objects@[PLAYER as int]));
        }
        return UseResult::UsedUp;
    }
    UseResult::Cancelled
}

/// The full effect of aiming a confusion scroll: the selected monster's
/// behavior is overridden by a fresh confusion wrapping its prior state and
/// the scroll is spent; a cancelled selection uses nothing. The aiming
/// prompt is logged either way.
pub open spec fn spec_cast_confusion_effect(
    target: Option<usize>,
    objs0: Seq<Object>,
    log0: Seq<LogEntry>,
    objs1: Seq<Object>,
    log1: Seq<LogEntry>,
    r: UseResult,
) -> bool {
    let prompt = LogEntry {
        text: LogText {
            kind: MessageKind::ChooseConfuseTarget,
            subject: None,
            target: None,
            slot: None,
            amount: 0,
        },
        color: ColorTag::LightCyan,
    };
    match target {
        Some(id) => {
            let victim = objs0[id as int];
            &&& r == UseResult::UsedUp
            &&& log1 == log0.push(prompt).push(
                LogEntry {
                    text: LogText {
                        kind: MessageKind::ConfuseStart,
                        subject: Some(victim.name),
                        target: None,
                        slot: None,
                        amount: 0,
                    },
                    color: ColorTag::LightGreen,
                },
            )
            &&& objs1.len() == objs0.len()
            &&& (forall|k: int|
                0 <= k < objs0.len() && k != id ==> #[trigger] objs1[k] == objs0[k])
            &&& objs1[id as int] == (Object { ai: objs1[id as int].ai, ..victim })
            &&& (objs1[id as int].ai matches Some(a) && (a matches Ai::Confused {
                previous_ai,
                lasts_for,
            } && *previous_ai == (match victim.ai {
                Some(prev) => prev,
                None => Ai::Basic,
            }) && lasts_for == CONFUSE_NUM_TURNS))
        },
        None => {
            &&& r == UseResult::Cancelled
            &&& objs1 == objs0
            &&& log1 == log0.push(prompt)
        },
    }
}

/// Aim a confusion scroll: the selected monster's behavior is overridden by
/// a fresh confusion that wraps its prior state; a cancelled selection uses
/// nothing. The aiming prompt is logged either way.
pub fn cast_confusion(target: Option<usize>, game: &mut Game, objects: &mut Vec<Object>) -> (r:
    UseResult)
    requires
        old(game).wf(),
        forall|i: int| 0 <= i < old(objects)@.len() ==> (#[trigger] old(objects)@[i]).wf(),
        (target matches Some(id) ==> 0 < id < old(objects)@.len() && old(
            objects,
        )@[id as int].fighter is Some && old(objects)@[id as int].alive),
    ensures
        final(game).wf(),
        final(game).map == old(game).map,
        final(game).inventory == old(game).inventory,
        final(game).dungeon_level == old(game).dungeon_level,
        forall|i: int| 0 <= i < final(objects)@.len() ==> (#[trigger] final(objects)@[i]).wf(),
        spec_cast_confusion_effect(
            target,
            old(objects)@,
            old(game).messages.entries@,
            final(objects)@,
            final(game).messages.entries@,
            r,
        ),
{
    game.messages.add(LogText::plain(MessageKind::ChooseConfuseTarget), ColorTag::LightCyan);
    match target {
        Some(id) => {
            let mut victim = objects.remove(id);
            game.messages.add(
                LogText::named(MessageKind::ConfuseStart, victim.name),
                ColorTag::LightGreen,
            );
            let old_ai = match victim.ai.take() {
                Some(a) => a,
                None => Ai::Basic,
            };
            victim.ai = Some(
                Ai::Confused { previous_ai: Box::new(old_ai), lasts_for: CONFUSE_NUM_TURNS },
            );
            objects.insert(id, victim);
            proof {
                assert(objects@ =~= old(objects)@.update(id as int, objects@[id as int]));
            }
            UseResult::UsedUp
        },
        None => UseResult::Cancelled,
    }
}


/// The log entry announcing a lightning strike.
pub open spec fn spec_lightning_entry(target: Object) -> LogEntry {
    LogEntry {
        text: LogText {
            kind: MessageKind::LightningStrike,
            subject: Some(target.name),
            target: None,
            slot: None,
            amount: LIGHTNING_DAMAGE,
        },
        color: ColorTag::LightBlue,
    }
}

/// The full effect of using a lightning scroll: the bolt strikes the
/// closest visible monster within range (on equal distances the earliest in
/// the collection) for `LIGHTNING_DAMAGE`, crediting any kill to the player
/// and spending the scroll; with no enemy close enough, the scroll is kept
/// and a complaint is logged.
pub open spec fn spec_cast_lightning_effect(
    objs0: Seq<Object>,
    fov: FovGrid,
    log0: Seq<LogEntry>,
    objs1: Seq<Object>,
    log1: Seq<LogEntry>,
    r: UseResult,
) -> bool {
    ||| exists|t: int|
        #![auto]
        {
            &&& spec_lightning_candidate(objs0, t, fov)
            &&& spec_d2_to_player(objs0, t) < (LIGHTNING_RANGE + 1) * (LIGHTNING_RANGE + 1)
            &&& (forall|j: int|
                #![trigger spec_lightning_candidate(objs0, j, fov)]
                spec_lightning_candidate(objs0, j, fov) && j < t ==> spec_d2_to_player(objs0, j)
                    > spec_d2_to_player(objs0, t))
            &&& (forall|j: int|
                #![trigger spec_lightning_candidate(objs0, j, fov)]
                spec_lightning_candidate(objs0, j, fov) && j > t ==> spec_d2_to_player(objs0, j)
                    >= spec_d2_to_player(objs0, t))
            &&& r == UseResult::UsedUp
            &&& ({
                let victim = objs0[t];
                let (v2, reward) = spec_take_damage(victim, LIGHTNING_DAMAGE as int);
                let mid = objs0.update(t, v2);
                &&& objs1 == if spec_dies(victim, LIGHTNING_DAMAGE as int) {
                    mid.update(
                        PLAYER as int,
                        spec_award_xp(mid[PLAYER as int], reward->Some_0 as int),
                    )
                } else {
                    mid
                }
                &&& log1 == if spec_dies(victim, LIGHTNING_DAMAGE as int) {
                    log0.push(spec_lightning_entry(victim)).push(spec_death_entry(victim))
                } else {
                    log0.push(spec_lightning_entry(victim))
                }
            })
        }
    ||| {
        &&& (forall|j: int|
            #![trigger spec_lightning_candidate(objs0, j, fov)]
            spec_lightning_candidate(objs0, j, fov) ==> spec_d2_to_player(objs0, j) >= (
            LIGHTNING_RANGE + 1) * (LIGHTNING_RANGE + 1))
        &&& r == UseResult::Cancelled
        &&& objs1 == objs0
        &&& log1 == log0.push(
            LogEntry {
                text: LogText {
                    kind: MessageKind::NoEnemyClose,
                    subject: None,
                    target: None,
                    slot: None,
                    amount: 0,
                },
                color: ColorTag::Red,
            },
        )
    }
}

/// Use a lightning scroll: the bolt strikes the closest visible monster
/// within range for `LIGHTNING_DAMAGE`, crediting any kill to the player;
/// with no enemy close enough the scroll is kept and a complaint is logged.
pub fn cast_lightning(game: &mut Game, objects: &mut Vec<Object>, fov: &FovGrid) -> (r: UseResult)
    requires
        old(game).wf(),
        fov.wf(),
        old(objects)@.len() >= 1,
        forall|i: int| 0 <= i < old(objects)@.len() ==> (#[trigger] old(objects)@[i]).wf(),
        old(objects)@[PLAYER as int].fighter is Some,
        (forall|i: int|
            0 <= i < old(objects)@.len() ==> (match (
                old(objects)@[PLAYER as int].fighter,
                (#[trigger] old(objects)@[i]).fighter,
            ) {
                (Some(a), Some(t)) => a.xp + t.xp <= XP_MAX,
                _ => true,
            })),
    ensures
        final(game).wf(),
        final(game).map == old(game).map,
        final(game).inventory == old(game).inventory,
        final(game).dungeon_level == old(game).dungeon_level,
        forall|i: int| 0 <= i < final(objects)@.len() ==> (#[trigger] final(objects)@[i]).wf(),
        spec_cast_lightning_effect(
            old(objects)@,
            *fov,
            old(game).messages.entries@,
            final(objects)@,
            final(game).messages.entries@,
            r,
        ),
{
    match target_closest(objects, fov, LIGHTNING_RANGE) {
        Some(id) => {
            let name = objects[id].name;
            game.messages.add(
                LogText::counted(MessageKind::LightningStrike, name, LIGHTNING_DAMAGE),
                ColorTag::LightBlue,
            );
            let mut victim = objects.remove(id);
            let xp_opt = victim.take_damage(LIGHTNING_DAMAGE, &mut game.messages);
            objects.insert(id, victim);
            proof {
                assert(objects@ =~= old(objects)@.update(id as int, objects@[id as int]));
            }
            if let Some(xp) = xp_opt {
                let mut player = objects.remove(PLAYER);
                let f = player.fighter.unwrap();
                player.fighter = Some(crate::fighter::Fighter { xp: f.xp + xp, ..f });
                objects.insert(PLAYER, player);
                proof {
                    assert(objects@ =~= old(objects)@.update(id as int, objects@[id as int]).update(
                        PLAYER as int,
                        objects@[PLAYER as int],
                    ));
                }
            }
            UseResult::UsedUp
        },
        None => {
            game.messages.add(LogText::plain(MessageKind::NoEnemyClose), ColorTag::Red);
            UseResult::Cancelled
        },
    }
}

/// Whether an entity stands in a fireball's blast and can be burned: within
/// the radius of the blast center and combat-capable.
pub open spec fn spec_in_blast(o: Object, cx: int, cy: int) -> bool {
    (cx - o.x) * (cx - o.x) + (cy - o.y) * (cy - o.y) <= FIREBALL_RADIUS * FIREBALL_RADIUS
        && o.fighter is Some
}

/// The log entry announcing one burn.
pub open spec fn spec_burned_entry(o: Object) -> LogEntry {
    LogEntry {
        text: LogText {
            kind: MessageKind::Burned,
            subject: Some(o.name),
            target: None,
            slot: None,
            amount: FIREBALL_DAMAGE,
        },
        color: ColorTag::Orange,
    }
}

/// The fireball's sweep over the first `upto` entities: every combat-capable
/// entity within the radius — the player included — is burned for
/// `FIREBALL_DAMAGE`, and the rewards of every kill except the player's own
/// death are summed for crediting.
pub open spec fn spec_fireball_fold(
    objects: Seq<Object>,
    cx: int,
    cy: int,
    log: Seq<LogEntry>,
    upto: int,
) -> (Seq<Object>, Seq<LogEntry>, int)
    decreases upto,
{
    if upto <= 0 {
        (objects, log, 0)
    } else {
        let (objs, lg, xp) = spec_fireball_fold(objects, cx, cy, log, upto - 1);
        let k = upto - 1;
        let o = objs[k];
        if spec_in_blast(o, cx, cy) {
            let lg1 = lg.push(spec_burned_entry(o));
            let (o2, reward) = spec_take_damage(o, FIREBALL_DAMAGE as int);
            let lg2 = if spec_dies(o, FIREBALL_DAMAGE as int) {
                lg1.push(spec_death_entry(o))
            } else {
                lg1
            };
            let gained: int = if k != 0 && spec_dies(o, FIREBALL_DAMAGE as int) {
                reward->Some_0 as int
            } else {
                0
            };
            (objs.update(k, o2), lg2, xp + gained)
        } else {
            (objs, lg, xp)
        }
    }
}

/// Total experience carried by the first `upto` entities.
pub open spec fn spec_total_xp_upto(objects: Seq<Object>, upto: int) -> int
    decreases upto,
{
    if upto <= 0 {
        0
    } else {
        spec_total_xp_upto(objects, upto - 1) + (match objects[upto - 1].fighter {
            Some(f) => f.xp as int,
            None => 0,
        })
    }
}

/// With well-formed entities, prefix experience totals are non-negative and
/// grow with the prefix.
pub proof fn lemma_total_xp_monotone(objects: Seq<Object>, a: int, b: int)
    requires
        0 <= a <= b <= objects.len(),
        forall|i: int| 0 <= i < objects.len() ==> (#[trigger] objects[i]).wf(),
    ensures
        0 <= spec_total_xp_upto(objects, a) <= spec_total_xp_upto(objects, b),
    decreases b,
{
    if b > 0 {
        if a == b {
            lemma_total_xp_monotone(objects, a - 1, b - 1);
        } else {
            lemma_total_xp_monotone(objects, a, b - 1);
        }
    }
}

/// The fireball sweep leaves untouched entities in place, keeps everything
/// well formed, and gains no more experience than the swept entities carry.
pub proof fn lemma_fireball_fold_frame(
    objects: Seq<Object>,
    cx: int,
    cy: int,
    log: Seq<LogEntry>,
    upto: int,
)
    requires
        0 <= upto <= objects.len(),
        forall|i: int| 0 <= i < objects.len() ==> (#[trigger] objects[i]).wf(),
    ensures
        ({
            let (objs, lg, xp) = spec_fireball_fold(objects, cx, cy, log, upto);
            &&& objs.len() == objects.len()
            &&& (forall|k: int| upto <= k < objects.len() ==> #[trigger] objs[k] == objects[k])
            &&& (forall|i: int| 0 <= i < objs.len() ==> (#[trigger] objs[i]).wf())
            &&& 0 <= xp <= spec_total_xp_upto(objects, upto)
            &&& (objects.len() > 0 ==> match objs[0].fighter {
                Some(f) => objects[0].fighter matches Some(g) && f.xp == g.xp,
                None => true,
            })
        }),
    decreases upto,
{
    if upto > 0 {
        lemma_fireball_fold_frame(objects, cx, cy, log, upto - 1);
    }
}

/// The full effect of using a fireball scroll at a selected tile:
/// everything combat-capable within the radius — the player included —
/// burns for `FIREBALL_DAMAGE`, the rewards of every kill except the
/// player's own death are credited to a player still able to receive them,
/// and the scroll is spent; a cancelled selection uses nothing. The aiming
/// prompt is logged either way.
pub open spec fn spec_cast_fireball_effect(
    target: Option<(i32, i32)>,
    objs0: Seq<Object>,
    log0: Seq<LogEntry>,
    objs1: Seq<Object>,
    log1: Seq<LogEntry>,
    r: UseResult,
) -> bool {
    let prompt = LogEntry {
        text: LogText {
            kind: MessageKind::ChooseFireballTile,
            subject: None,
            target: None,
            slot: None,
            amount: 0,
        },
        color: ColorTag::LightCyan,
    };
    match target {
        Some(t) => {
            let explodes = LogEntry {
                text: LogText {
                    kind: MessageKind::FireballExplodes,
                    subject: None,
                    target: None,
                    slot: None,
                    amount: FIREBALL_RADIUS,
                },
                color: ColorTag::Orange,
            };
            let (objs, lg, xp) = spec_fireball_fold(
                objs0,
                t.0 as int,
                t.1 as int,
                log0.push(prompt).push(explodes),
                objs0.len() as int,
            );
            &&& r == UseResult::UsedUp
            &&& objs1 == objs.update(PLAYER as int, spec_award_xp(objs[PLAYER as int], xp))
            &&& log1 == lg
        },
        None => {
            &&& r == UseResult::Cancelled
            &&& objs1 == objs0
            &&& log1 == log0.push(prompt)
        },
    }
}

/// Use a fireball scroll at the selected tile: everything combat-capable
/// within the radius burns for `FIREBALL_DAMAGE` — the player included — and
/// the rewards of every kill except the player's own death are credited to
/// the player (if the blast leaves the player alive to receive them). A
/// cancelled selection uses nothing. The aiming prompt is logged either way.
pub fn cast_fireball(target: Option<(i32, i32)>, game: &mut Game, objects: &mut Vec<Object>) -> (r:
    UseResult)
    requires
        old(game).wf(),
        old(objects)@.len() >= 1,
        forall|i: int| 0 <= i < old(objects)@.len() ==> (#[trigger] old(objects)@[i]).wf(),
        (match old(objects)@[PLAYER as int].fighter {
            Some(f) => f.xp as int,
            None => 0,
        }) + spec_total_xp_upto(old(objects)@, old(objects)@.len() as int) <= XP_MAX,
        (target matches Some(t) ==> 0 <= t.0 < MAP_WIDTH && 0 <= t.1 < MAP_HEIGHT),
    ensures
        final(game).wf(),
        final(game).map == old(game).map,
        final(game).inventory == old(game).inventory,
        final(game).dungeon_level == old(game).dungeon_level,
        forall|i: int| 0 <= i < final(objects)@.len() ==> (#[trigger] final(objects)@[i]).wf(),
        spec_cast_fireball_effect(
            target,
            old(objects)@,
            old(game).messages.entries@,
            final(objects)@,
            final(game).messages.entries@,
            r,
        ),
{
    game.messages.add(LogText::plain(MessageKind::ChooseFireballTile), ColorTag::LightCyan);
    let (x, y) = match target {
        Some(t) => t,
        None => {
            return UseResult::Cancelled;
        },
    };
    game.messages.add(
        LogText::numbered(MessageKind::FireballExplodes, FIREBALL_RADIUS),
        ColorTag::Orange,
    );

    let ghost base_objects = objects@;
    let ghost base_log = game.messages.entries@;
    let n = objects.len();
    let mut xp_to_gain: i32 = 0;
    let mut id: usize = 0;
    while id < n
        invariant
            game.wf(),
            n == objects@.len(),
            id <= n,
            0 <= x < MAP_WIDTH,
            0 <= y < MAP_HEIGHT,
            base_objects.len() == n,
            forall|i: int| 0 <= i < base_objects.len() ==> (#[trigger] base_objects[i]).wf(),
            game.map == old(game).map,
            game.inventory == old(game).inventory,
            game.dungeon_level == old(game).dungeon_level,
            (match base_objects[PLAYER as int].fighter {
                Some(f) => f.xp as int,
                None => 0,
            }) + spec_total_xp_upto(base_objects, base_objects.len() as int) <= XP_MAX,
            0 <= xp_to_gain,
            ({
                let (objs, lg, xp) = spec_fireball_fold(
                    base_objects,
                    x as int,
                    y as int,
                    base_log,
                    id as int,
                );
                &&& objects@ == objs
                &&& game.messages.entries@ == lg
                &&& xp_to_gain == xp
            }),
        decreases n - id,
    {
        proof {
            lemma_fireball_fold_frame(base_objects, x as int, y as int, base_log, id as int);
            lemma_fireball_fold_frame(base_objects, x as int, y as int, base_log, id + 1int);
            lemma_total_xp_monotone(base_objects, id + 1int, base_objects.len() as int);
        }
        let in_range = objects[id].distance_sq(x, y) <= FIREBALL_RADIUS * FIREBALL_RADIUS;
        let has_fighter = objects[id].fighter.is_some();
        if in_range && has_fighter {
            let name = objects[id].name;
            game.messages.add(
                LogText::counted(MessageKind::Burned, name, FIREBALL_DAMAGE),
                ColorTag::Orange,
            );
            let ghost pre = objects@;
            let mut victim = objects.remove(id);
            let xp_opt = victim.take_damage(FIREBALL_DAMAGE, &mut game.messages);
            objects.insert(id, victim);
            proof {
                assert(objects@ =~= pre.update(id as int, objects@[id as int]));
            }
            if let Some(xp) = xp_opt {
                if id != PLAYER {
                    xp_to_gain = xp_to_gain + xp;
                }
            }
        }
        id = id + 1;
    }

    proof {
        lemma_fireball_fold_frame(base_objects, x as int, y as int, base_log, n as int);
    }
    let ghost swept = objects@;
    let mut player = objects.remove(PLAYER);
    if let Some(f) = player.fighter {
        player.fighter = Some(crate::fighter::Fighter { xp: f.xp + xp_to_gain, ..f });
    }
    objects.insert(PLAYER, player);
    proof {
        assert(objects@ =~= swept.update(PLAYER as int, spec_award_xp(swept[PLAYER as int], xp_to_gain as int)));
    }

    UseResult::UsedUp
}


/// The log entry acknowledging a cancelled use.
pub open spec fn spec_cancelled_entry() -> LogEntry {
    LogEntry {
        text: LogText {
            kind: MessageKind::Cancelled,
            subject: None,
            target: None,
            slot: None,
            amount: 0,
        },
        color: ColorTag::White,
    }
}

/// The log entry complaining that an inventory entry cannot be used.
pub open spec fn spec_cant_be_used_entry(o: Object) -> LogEntry {
    LogEntry {
        text: LogText {
            kind: MessageKind::CantBeUsed,
            subject: Some(o.name),
            target: None,
            slot: None,
            amount: 0,
        },
        color: ColorTag::White,
    }
}

/// The full effect of one item use from the inventory: the entry's kind
/// picks the handler — potions heal, scrolls strike, confuse or burn with
/// the collaborator's selection, gear toggles — and the postlude spends what
/// was used up and acknowledges what was cancelled. An entry without an item
/// kind only logs a complaint.
pub open spec fn spec_use_item_effect(
    id: int,
    selection: Selection,
    fov: FovGrid,
    objs0: Seq<Object>,
    inv0: Seq<Object>,
    log0: Seq<LogEntry>,
    objs1: Seq<Object>,
    inv1: Seq<Object>,
    log1: Seq<LogEntry>,
    r: UseResult,
) -> bool {

    let item0 = inv0[id];
    match item0.item {
                    // an entry without an item kind: a complaint and nothing else
                    None => {
                        &&& r == UseResult::Cancelled
                        &&& inv1 == inv0
                        &&& objs1 == objs0
                        &&& log1 == log0.push(spec_cant_be_used_entry(item0))
                    },
                    // the kind's handler ran exactly once, then the postlude:
                    // a used-up consumable leaves the inventory, a cancelled
                    // use is acknowledged, kept gear changes nothing more
                    Some(kind) => ({
                        let log_mid = if r == UseResult::Cancelled {
                            log1.drop_last()
                        } else {
                            log1
                        };
                        {
                            &&& (match kind {
                                Item::Heal => spec_cast_heal_effect(
                                    objs0,
                                    inv0,
                                    log0,
                                    objs1,
                                    log_mid,
                                    r,
                                ),
                                Item::Lightning => spec_cast_lightning_effect(
                                    objs0,
                                    fov,
                                    log0,
                                    objs1,
                                    log_mid,
                                    r,
                                ),
                                Item::Confusion => spec_cast_confusion_effect(
                                    match selection {
                                        Selection::Monster(m) => Some(m),
                                        _ => None,
                                    },
                                    objs0,
                                    log0,
                                    objs1,
                                    log_mid,
                                    r,
                                ),
                                Item::Fireball => spec_cast_fireball_effect(
                                    match selection {
                                        Selection::Tile(cx, cy) => Some((cx, cy)),
                                        _ => None,
                                    },
                                    objs0,
                                    log0,
                                    objs1,
                                    log_mid,
                                    r,
                                ),
                                Item::Sword | Item::Shield => spec_toggle_effect(
                                    id,
                                    inv0,
                                    log0,
                                    inv1,
                                    log_mid,
                                    r,
                                ) && objs1 == objs0,
                            })
                            &&& (r == UseResult::UsedUp ==> inv1 == inv0.remove(id) && log1
                                == log_mid)
                            &&& (r == UseResult::Cancelled ==> log1 == log_mid.push(
                                spec_cancelled_entry(),
                            ))
                            &&& (r == UseResult::UsedAndKept ==> log1 == log_mid)
                            &&& (match kind {
                                Item::Sword | Item::Shield => true,
                                _ => r != UseResult::UsedAndKept && (r == UseResult::Cancelled
                                    ==> inv1 == inv0),
                            })
                        }
                    }),
                }
}

impl Item {
    /// Use inventory entry `id`: dispatch on its item kind — potions heal,
    /// scrolls strike, confuse or burn (with the collaborator's selection),
    /// gear toggles — then spend what was used up and acknowledge what was
    /// cancelled. A non-usable entry only logs a complaint.
    pub fn use_item(
        id: usize,
        selection: Selection,
        game: &mut Game,
        objects: &mut Vec<Object>,
        fov: &FovGrid,
    ) -> (r: UseResult)
        requires
            old(game).wf(),
            fov.wf(),
            id < old(game).inventory@.len(),
            old(objects)@.len() >= 1,
            forall|i: int| 0 <= i < old(objects)@.len() ==> (#[trigger] old(objects)@[i]).wf(),
            (match old(game).inventory@[id as int].item {
                Some(Item::Confusion) => match selection {
                    Selection::Monster(m) => 0 < m < old(objects)@.len() && old(
                        objects,
                    )@[m as int].fighter is Some && old(objects)@[m as int].alive,
                    Selection::Cancelled => true,
                    _ => false,
                },
                Some(Item::Fireball) => match selection {
                    Selection::Tile(cx, cy) => 0 <= cx < MAP_WIDTH && 0 <= cy < MAP_HEIGHT,
                    Selection::Cancelled => true,
                    _ => false,
                },
                _ => selection == Selection::Unneeded,
            }),
            (old(game).inventory@[id as int].item == Some(Item::Lightning) ==> old(
                objects,
            )@[PLAYER as int].fighter is Some && (forall|i: int|
                0 <= i < old(objects)@.len() ==> (match (
                    old(objects)@[PLAYER as int].fighter,
                    (#[trigger] old(objects)@[i]).fighter,
                ) {
                    (Some(a), Some(t)) => a.xp + t.xp <= XP_MAX,
                    _ => true,
                }))),
            (old(game).inventory@[id as int].item == Some(Item::Fireball) ==> (match old(
                objects,
            )@[PLAYER as int].fighter {
                Some(f) => f.xp as int,
                None => 0,
            }) + spec_total_xp_upto(old(objects)@, old(objects)@.len() as int) <= XP_MAX),
        ensures
            final(game).wf(),
            final(game).map == old(game).map,
            final(game).dungeon_level == old(game).dungeon_level,
            final(objects)@.len() == old(objects)@.len(),
            forall|i: int| 0 <= i < final(objects)@.len() ==> (#[trigger] final(objects)@[i]).wf(),
            spec_use_item_effect(
                id as int,
                selection,
                *fov,
                old(objects)@,
                old(game).inventory@,
                old(game).messages.entries@,
                final(objects)@,
                final(game).inventory@,
                final(game).messages.entries@,
                r,
            ),
        {
        let item_opt = match &game.inventory[id].item {
            Some(i) => Some(*i),
            None => None,
        };
        let item = match item_opt {
            Some(i) => i,
            None => {
                let name = game.inventory[id].name;
                game.messages.add(LogText::named(MessageKind::CantBeUsed, name), ColorTag::White);
                return UseResult::Cancelled;
            },
        };
        let result = match item {
            Item::Heal => cast_heal(game, objects),
            Item::Lightning => cast_lightning(game, objects, fov),
            Item::Confusion => {
                let target = match selection {
                    Selection::Monster(m) => Some(m),
                    _ => None,
                };
                cast_confusion(target, game, objects)
            },
            Item::Fireball => {
                let target = match selection {
                    Selection::Tile(cx, cy) => Some((cx, cy)),
                    _ => None,
                };
                let fr = cast_fireball(target, game, objects);
                proof {
                    if let Some((cx, cy)) = target {
                        lemma_fireball_fold_frame(
                            old(objects)@,
                            cx as int,
                            cy as int,
                            old(game).messages.entries@.push(
                                LogEntry {
                                    text: LogText {
                                        kind: MessageKind::ChooseFireballTile,
                                        subject: None,
                                        target: None,
                                        slot: None,
                                        amount: 0,
                                    },
                                    color: ColorTag::LightCyan,
                                },
                            ).push(
                                LogEntry {
                                    text: LogText {
                                        kind: MessageKind::FireballExplodes,
                                        subject: None,
                                        target: None,
                                        slot: None,
                                        amount: FIREBALL_RADIUS,
                                    },
                                    color: ColorTag::Orange,
                                },
                            ),
                            old(objects)@.len() as int,
                        );
                    }
                }
                fr
            },
            Item::Sword => Equipment::toggle(id, game),
            Item::Shield => Equipment::toggle(id, game),
        };
        let ghost entries_mid = game.messages.entries@;
        match result {
            UseResult::UsedUp => {
                let _ = game.inventory.remove(id);
            },
            UseResult::Cancelled => {
                game.messages.add(LogText::plain(MessageKind::Cancelled), ColorTag::White);
            },
            UseResult::UsedAndKept => {},
        }
        proof {
            if result == UseResult::Cancelled {
                assert(game.messages.entries@.drop_last() =~= entries_mid);
            }
        }
        result
    }
}

} // verus!




