//! The session state: map, message log, inventory, dungeon depth.

use vstd::prelude::*;

use crate::color::ColorTag;
use crate::equipment::{spec_equipped_in, Equipment, Slot};
use crate::fighter::{Fighter, DeathCallback, HP_LIMIT, STAT_MAX, XP_MAX};
use crate::item::{Item, UseResult};
use crate::map_gen::{make_map, spec_fresh_level};
use crate::message::{LogEntry, LogText, MessageKind, Messages};
use crate::name::{Name, NameKind};
use crate::object::{
    lemma_equipped_bounds, spec_attack_effect, spec_max_hp, spec_set_equipped, spec_threshold,
    Object, LEVEL_MAX,
};
use crate::tile::{is_out_of_bounds, DungeonMap, Tile, MAP_HEIGHT, MAP_WIDTH};

verus! {

/// Most items the player's inventory can hold.
pub const INVENTORY_CAP: usize = 26;
/// Deepest dungeon level a session can reach.
pub const DUNGEON_LEVEL_MAX: u32 = 1_000_000;

/// Everything a session owns besides the world-entity collection.
pub struct Game {
    pub map: DungeonMap,
    pub messages: Messages,
    pub inventory: Vec<Object>,
    pub dungeon_level: u32,
}

impl Game {
    /// The session invariant: a well-formed grid, a bounded inventory of
    /// well-formed entities, and a bounded depth counter.
    pub open spec fn wf(self) -> bool {
        &&& self.map.wf()
        &&& self.inventory@.len() <= INVENTORY_CAP
        &&& forall|i: int| 0 <= i < self.inventory@.len() ==> (#[trigger] self.inventory@[i]).wf()
        &&& 1 <= self.dungeon_level <= DUNGEON_LEVEL_MAX
    }
}


/// Index of the player in the world-entity collection: always slot 0.
pub const PLAYER: usize = 0;

/// What the player's action came to, as the scheduler sees it.
#[derive(Clone, Copy, PartialEq, Eq, Structural, Debug)]
pub enum PlayerAction {
    TookTurn,
    DidntTakeTurn,
    Exit,
}

/// What the interactive targeting collaborator handed back for a use of an
/// item: nothing was needed, a monster or a tile was selected, or the user
/// cancelled.
#[derive(Clone, Copy, PartialEq, Eq, Structural, Debug)]
pub enum Selection {
    Unneeded,
    Monster(usize),
    Tile(i32, i32),
    Cancelled,
}

/// A decoded player intent. Raw key and mouse events never reach the kernel;
/// the input collaborator decodes them into one of these.
#[derive(Clone, Copy, PartialEq, Eq, Structural, Debug)]
pub enum Intent {
    Move(i32, i32),
    Wait,
    PickUp,
    DropItem(usize),
    UseItem(usize, Selection),
    Descend,
    Exit,
}

/// The visibility collaborator's answer, one flag per tile.
pub struct FovGrid {
    pub cells: Vec<Vec<bool>>,
}

impl FovGrid {
    /// The grid covers the whole map.
    pub open spec fn wf(self) -> bool {
        &&& self.cells@.len() == MAP_WIDTH
        &&& forall|x: int| 0 <= x < MAP_WIDTH ==> (#[trigger] self.cells@[x])@.len() == MAP_HEIGHT
    }

    /// Whether tile (x, y) is visible.
    pub open spec fn spec_visible(self, x: int, y: int) -> bool {
        self.cells@[x]@[y]
    }

    /// Read the visibility flag of tile (x, y).
    pub fn is_visible(&self, x: i32, y: i32) -> (r: bool)
        requires
            self.wf(),
            0 <= x < MAP_WIDTH,
            0 <= y < MAP_HEIGHT,
        ensures
            r == self.spec_visible(x as int, y as int),
    {
        self.cells[x as usize][y as usize]
    }
}

/// Whether tile (x, y) cannot be stepped on: it is a wall, or some blocking
/// entity stands on it.
pub open spec fn spec_is_blocked(x: int, y: int, map: DungeonMap, objects: Seq<Object>) -> bool {
    map.spec_tile(x, y).blocked || exists|i: int|
        0 <= i < objects.len() && (#[trigger] objects[i]).blocks && objects[i].x == x
            && objects[i].y == y
}

/// Whether tile (x, y) is a wall or occupied by a blocking entity.
pub fn is_blocked(x: i32, y: i32, map: &DungeonMap, objects: &Vec<Object>) -> (r: bool)
    requires
        map.wf(),
        0 <= x < MAP_WIDTH,
        0 <= y < MAP_HEIGHT,
    ensures
        r == spec_is_blocked(x as int, y as int, *map, objects@),
{
    if map.tile_at(x, y).blocked {
        return true;
    }
    let n = objects.len();
    let mut i: usize = 0;
    while i < n
        invariant
            n == objects@.len(),
            i <= n,
            forall|j: int|
                0 <= j < i ==> !((#[trigger] objects@[j]).blocks && objects@[j].x == x
                    && objects@[j].y == y),
        decreases n - i,
    {
        if objects[i].blocks && objects[i].x == x && objects[i].y == y {
            return true;
        }
        i = i + 1;
    }
    false
}

/// The world after entity `id` tries to step by (dx, dy): unchanged when the
/// destination is off the grid or blocked, else only that entity's position
/// changes.
pub open spec fn spec_move_by(
    objects: Seq<Object>,
    id: int,
    dx: int,
    dy: int,
    map: DungeonMap,
) -> Seq<Object> {
    let o = objects[id];
    let nx = o.x + dx;
    let ny = o.y + dy;
    if !(0 <= nx < MAP_WIDTH && 0 <= ny < MAP_HEIGHT) || spec_is_blocked(nx, ny, map, objects) {
        objects
    } else {
        objects.update(id, Object { x: nx as i32, y: ny as i32, ..o })
    }
}

/// Step entity `id` by (dx, dy) if the destination tile is on the grid and
/// not blocked; otherwise do nothing.
pub fn move_by(id: usize, dx: i32, dy: i32, game: &Game, objects: &mut Vec<Object>)
    requires
        game.wf(),
        id < old(objects)@.len(),
        old(objects)@[id as int].wf(),
        -1 <= dx <= 1,
        -1 <= dy <= 1,
    ensures
        final(objects)@ == spec_move_by(old(objects)@, id as int, dx as int, dy as int, game.map),
{
    let new_x = objects[id].x + dx;
    let new_y = objects[id].y + dy;

    if is_out_of_bounds(new_x, new_y) {
        return;
    }
    if is_blocked(new_x, new_y, &game.map, objects) {
        return;
    }

    let mut o = objects.remove(id);
    o.set_pos(new_x, new_y);
    objects.insert(id, o);
    proof {
        assert(objects@ =~= old(objects)@.update(
            id as int,
            Object { x: new_x, y: new_y, ..old(objects)@[id as int] },
        ));
    }
}

/// The index of the entity with a combat component standing at (x, y), if
/// any: the attack target for a step onto that tile.
pub fn fighter_at(x: i32, y: i32, objects: &Vec<Object>) -> (r: Option<usize>)
    ensures
        match r {
            Some(i) => {
                &&& i < objects@.len()
                &&& objects@[i as int].fighter is Some
                &&& objects@[i as int].x == x
                &&& objects@[i as int].y == y
                &&& forall|j: int|
                    0 <= j < i ==> !((#[trigger] objects@[j]).fighter is Some && objects@[j].x == x
                        && objects@[j].y == y)
            },
            None => forall|j: int|
                0 <= j < objects@.len() ==> !((#[trigger] objects@[j]).fighter is Some
                    && objects@[j].x == x && objects@[j].y == y),
        },
{
    let n = objects.len();
    let mut i: usize = 0;
    while i < n
        invariant
            n == objects@.len(),
            i <= n,
            forall|j: int|
                0 <= j < i ==> !((#[trigger] objects@[j]).fighter is Some && objects@[j].x == x
                    && objects@[j].y == y),
        decreases n - i,
    {
        let is_target = match &objects[i].fighter {
            Some(_) => objects[i].x == x && objects[i].y == y,
            None => false,
        };
        if is_target {
            return Some(i);
        }
        i = i + 1;
    }
    None
}

/// The full effect of one movement intent: a combat-capable entity on the
/// destination tile (the first in collection order) is attacked; otherwise
/// the player steps there, stalling against a wall, an edge, or a blocker.
pub open spec fn spec_move_or_attack_effect(
    dx: int,
    dy: int,
    objs0: Seq<Object>,
    inv0: Seq<Object>,
    log0: Seq<LogEntry>,
    map: DungeonMap,
    objs1: Seq<Object>,
    log1: Seq<LogEntry>,
) -> bool {
    let nx = objs0[PLAYER as int].x + dx;
    let ny = objs0[PLAYER as int].y + dy;
    match spec_first_fighter_at(objs0, nx, ny) {
        Some(t) => {
            let (a2, t2, log2) = spec_attack_effect(objs0[PLAYER as int], objs0[t], inv0, log0);
            &&& objs1 == objs0.update(PLAYER as int, a2).update(t, t2)
            &&& log1 == log2
        },
        None => {
            &&& objs1 == spec_move_by(objs0, PLAYER as int, dx, dy, map)
            &&& log1 == log0
        },
    }
}

/// One movement intent: if a combat-capable entity stands on the destination
/// tile the player attacks it, otherwise the player steps there (or stalls
/// against a wall or the map edge).
pub fn player_move_or_attack(dx: i32, dy: i32, game: &mut Game, objects: &mut Vec<Object>)
    requires
        old(game).wf(),
        old(objects)@.len() >= 1,
        forall|i: int| 0 <= i < old(objects)@.len() ==> (#[trigger] old(objects)@[i]).wf(),
        old(objects)@[PLAYER as int].fighter is Some,
        -1 <= dx <= 1,
        -1 <= dy <= 1,
        !(dx == 0 && dy == 0),
        (forall|i: int|
            0 <= i < old(objects)@.len() ==> (match (
                old(objects)@[PLAYER as int].fighter,
                (#[trigger] old(objects)@[i]).fighter,
            ) {
                (Some(a), Some(t)) => a.xp + t.xp <= XP_MAX,
                _ => true,
            })),
    ensures
        final(game).wf(),
        final(game).map == old(game).map,
        final(game).inventory == old(game).inventory,
        final(game).dungeon_level == old(game).dungeon_level,
        final(objects)@.len() == old(objects)@.len(),
        forall|i: int| 0 <= i < final(objects)@.len() ==> (#[trigger] final(objects)@[i]).wf(),
        spec_move_or_attack_effect(
            dx as int,
            dy as int,
            old(objects)@,
            old(game).inventory@,
            old(game).messages.entries@,
            old(game).map,
            final(objects)@,
            final(game).messages.entries@,
        ),
{
    let new_x = objects[PLAYER].x + dx;
    let new_y = objects[PLAYER].y + dy;

    let target_id = fighter_at(new_x, new_y, objects);
    proof {
        lemma_first_fighter_at_matches(objects@, new_x as int, new_y as int, target_id);
    }

    match target_id {
        Some(id) => {
            // a nonzero step never lands on the player's own tile
            assert(id != PLAYER);
            let mut target = objects.remove(id);
            let mut player = objects.remove(PLAYER);
            player.attack(&mut target, game);
            objects.insert(PLAYER, player);
            objects.insert(id, target);
            proof {
                assert(objects@ =~= old(objects)@.update(
                    PLAYER as int,
                    objects@[PLAYER as int],
                ).update(id as int, objects@[id as int]));
            }
        },
        None => {
            move_by(PLAYER, dx, dy, game, objects);
        },
    }
}

/// The first entity with a combat component standing at (x, y), scanning the
/// collection in order.
pub open spec fn spec_first_fighter_at(objects: Seq<Object>, x: int, y: int) -> Option<int>
    decreases objects.len(),
{
    if objects.len() == 0 {
        None
    } else if objects[0].fighter is Some && objects[0].x == x && objects[0].y == y {
        Some(0)
    } else {
        match spec_first_fighter_at(objects.drop_first(), x, y) {
            Some(k) => Some(k + 1),
            None => None,
        }
    }
}

/// Ties the searching loop's answer to `spec_first_fighter_at`.
proof fn lemma_first_fighter_at_matches(objects: Seq<Object>, x: int, y: int, r: Option<usize>)
    requires
        match r {
            Some(i) => {
                &&& i < objects.len()
                &&& objects[i as int].fighter is Some
                &&& objects[i as int].x == x
                &&& objects[i as int].y == y
                &&& forall|j: int|
                    0 <= j < i ==> !((#[trigger] objects[j]).fighter is Some && objects[j].x == x
                        && objects[j].y == y)
            },
            None => forall|j: int|
                0 <= j < objects.len() ==> !((#[trigger] objects[j]).fighter is Some
                    && objects[j].x == x && objects[j].y == y),
        },
    ensures
        spec_first_fighter_at(objects, x, y) == match r {
            Some(i) => Some(i as int),
            None => None::<int>,
        },
    decreases objects.len(),
{
    if objects.len() > 0 {
        if objects[0].fighter is Some && objects[0].x == x && objects[0].y == y {
        } else {
            let rest = objects.drop_first();
            match r {
                Some(i) => {
                    lemma_first_fighter_at_matches(rest, x, y, Some((i - 1) as usize));
                },
                None => {
                    lemma_first_fighter_at_matches(rest, x, y, None);
                },
            }
        }
    }
}


/// The log entry announcing a pickup.
pub open spec fn spec_picked_up_entry(item: Object) -> LogEntry {
    LogEntry {
        text: LogText {
            kind: MessageKind::PickedUp,
            subject: Some(item.name),
            target: None,
            slot: None,
            amount: 0,
        },
        color: ColorTag::Green,
    }
}

/// The log entry announcing a rejected pickup: the inventory is full.
pub open spec fn spec_inventory_full_entry(item: Object) -> LogEntry {
    LogEntry {
        text: LogText {
            kind: MessageKind::InventoryFull,
            subject: Some(item.name),
            target: None,
            slot: None,
            amount: 0,
        },
        color: ColorTag::Red,
    }
}

/// Whether a freshly picked-up item is put on at once: it is equippable and
/// nothing in the inventory (the item itself included) is worn in its slot.
pub open spec fn spec_auto_equip(inv: Seq<Object>, item: Object) -> bool {
    match item.equipment {
        Some(e) => forall|j: int|
            0 <= j < inv.push(item).len() ==> !spec_equipped_in(#[trigger] inv.push(item)[j], e.slot),
        None => false,
    }
}

/// The full effect of one pickup: a full inventory rejects it with a message
/// and no other change; otherwise the entity moves from the floor (the gap
/// closed by swapping the last entity in) into the inventory, put on at once
/// when it is equippable and its slot is free.
pub open spec fn spec_pick_item_up_effect(
    id: int,
    objs0: Seq<Object>,
    inv0: Seq<Object>,
    log0: Seq<LogEntry>,
    objs1: Seq<Object>,
    inv1: Seq<Object>,
    log1: Seq<LogEntry>,
) -> bool {
    if inv0.len() >= INVENTORY_CAP {
        &&& objs1 == objs0
        &&& inv1 == inv0
        &&& log1 == log0.push(spec_inventory_full_entry(objs0[id]))
    } else {
        let item = objs0[id];
        &&& objs1 == objs0.update(id, objs0.last()).drop_last()
        &&& inv1 == if spec_auto_equip(inv0, item) {
            inv0.push(spec_set_equipped(item, true))
        } else {
            inv0.push(item)
        }
        &&& log1 == if spec_auto_equip(inv0, item) {
            log0.push(spec_picked_up_entry(item)).push(crate::equipment::spec_equipped_entry(item))
        } else {
            log0.push(spec_picked_up_entry(item))
        }
    }
}

/// Pick the entity `id` up off the floor into the inventory. A full
/// inventory rejects the pickup with a message and no other change; an
/// equippable pickup is put on at once when its slot is free. The floor
/// collection closes the gap by swapping its last entity in.
pub fn pick_item_up(id: usize, game: &mut Game, objects: &mut Vec<Object>)
    requires
        old(game).wf(),
        id < old(objects)@.len(),
        old(objects)@[id as int].item is Some,
        forall|i: int| 0 <= i < old(objects)@.len() ==> (#[trigger] old(objects)@[i]).wf(),
    ensures
        final(game).wf(),
        final(game).map == old(game).map,
        final(game).dungeon_level == old(game).dungeon_level,
        forall|i: int| 0 <= i < final(objects)@.len() ==> (#[trigger] final(objects)@[i]).wf(),
        spec_pick_item_up_effect(
            id as int,
            old(objects)@,
            old(game).inventory@,
            old(game).messages.entries@,
            final(objects)@,
            final(game).inventory@,
            final(game).messages.entries@,
        ),
{
    if game.inventory.len() >= INVENTORY_CAP {
        let name = objects[id].name;
        game.messages.add(LogText::named(MessageKind::InventoryFull, name), ColorTag::Red);
    } else {
        let item = objects.swap_remove(id);
        game.messages.add(LogText::named(MessageKind::PickedUp, item.name), ColorTag::Green);
        let slot_opt = match &item.equipment {
            Some(e) => Some(e.slot),
            None => None,
        };
        game.inventory.push(item);

        if let Some(slot) = slot_opt {
            let free = match Equipment::get_equipped_in_slot(slot, &game.inventory) {
                Some(_) => false,
                None => true,
            };
            if free {
                let index = game.inventory.len() - 1;
                let mut o = game.inventory.remove(index);
                o.equip(&mut game.messages);
                game.inventory.insert(index, o);
                proof {
                    assert(game.inventory@ =~= old(game).inventory@.push(
                        spec_set_equipped(old(objects)@[id as int], true),
                    ));
                }
            }
        }
    }
}

/// The log entry announcing a drop.
pub open spec fn spec_dropped_entry(item: Object) -> LogEntry {
    LogEntry {
        text: LogText {
            kind: MessageKind::Dropped,
            subject: Some(item.name),
            target: None,
            slot: None,
            amount: 0,
        },
        color: ColorTag::Yellow,
    }
}

/// The full effect of one drop: worn gear is taken off first, then the
/// entity leaves the inventory and returns to the floor at the player's
/// feet, with the drop logged last.
pub open spec fn spec_drop_item_effect(
    id: int,
    objs0: Seq<Object>,
    inv0: Seq<Object>,
    log0: Seq<LogEntry>,
    objs1: Seq<Object>,
    inv1: Seq<Object>,
    log1: Seq<LogEntry>,
) -> bool {
    let item0 = inv0[id];
    let player = objs0[PLAYER as int];
    let unequips = item0.item is Some && (item0.equipment matches Some(e) && e.equipped);
    let item1 = if unequips {
        spec_set_equipped(item0, false)
    } else {
        item0
    };
    let item2 = Object { x: player.x, y: player.y, ..item1 };
    &&& inv1 == inv0.remove(id)
    &&& objs1 == objs0.push(item2)
    &&& log1 == (if item0.equipment is Some {
        if item0.item is None {
            log0.push(
                LogEntry {
                    text: LogText {
                        kind: MessageKind::CantDequipNotItem,
                        subject: Some(item0.name),
                        target: None,
                        slot: None,
                        amount: 0,
                    },
                    color: ColorTag::Red,
                },
            )
        } else if item0.equipment->Some_0.equipped {
            log0.push(crate::equipment::spec_dequipped_entry(item0))
        } else {
            log0
        }
    } else {
        log0
    }).push(spec_dropped_entry(item0))
}

/// Drop inventory entry `id` at the player's feet: worn gear is taken off
/// first, then the entity returns to the floor collection.
pub fn drop_item(id: usize, game: &mut Game, objects: &mut Vec<Object>)
    requires
        old(game).wf(),
        id < old(game).inventory@.len(),
        old(objects)@.len() >= 1,
        forall|i: int| 0 <= i < old(objects)@.len() ==> (#[trigger] old(objects)@[i]).wf(),
    ensures
        final(game).wf(),
        final(game).map == old(game).map,
        final(game).dungeon_level == old(game).dungeon_level,
        forall|i: int| 0 <= i < final(objects)@.len() ==> (#[trigger] final(objects)@[i]).wf(),
        spec_drop_item_effect(
            id as int,
            old(objects)@,
            old(game).inventory@,
            old(game).messages.entries@,
            final(objects)@,
            final(game).inventory@,
            final(game).messages.entries@,
        ),
{
    let mut item = game.inventory.remove(id);
    let has_equipment = item.equipment.is_some();
    if has_equipment {
        item.dequip(&mut game.messages);
    }
    let px = objects[PLAYER].x;
    let py = objects[PLAYER].y;
    item.set_pos(px, py);
    game.messages.add(LogText::named(MessageKind::Dropped, item.name), ColorTag::Yellow);
    objects.push(item);
}

/// Whether the player's experience has reached the next level-up threshold.
pub open spec fn spec_pending_level_up(player: Object) -> bool {
    match player.fighter {
        Some(f) => f.xp >= spec_threshold(player.level as int),
        None => false,
    }
}

/// Checked once per scheduler cycle: a player whose experience has reached
/// `200 + 150 * level` is owed a level-up.
pub fn pending_level_up(objects: &Vec<Object>) -> (r: bool)
    requires
        objects@.len() >= 1,
        objects@[PLAYER as int].wf(),
    ensures
        r == spec_pending_level_up(objects@[PLAYER as int]),
{
    let threshold = objects[PLAYER].level_up_xp();
    match &objects[PLAYER].fighter {
        Some(f) => f.xp >= threshold,
        None => false,
    }
}

/// The three stat upgrades a level-up offers.
#[derive(Clone, Copy, PartialEq, Eq, Structural, Debug)]
pub enum LevelUpChoice {
    Constitution,
    Strength,
    Agility,
}

/// The player after one level-up: one level higher, the threshold consumed
/// from the experience total, and the chosen stat raised.
pub open spec fn spec_level_up(player: Object, choice: LevelUpChoice) -> Object {
    match player.fighter {
        Some(f) => {
            let f1 = Fighter { xp: (f.xp - spec_threshold(player.level as int)) as i32, ..f };
            let f2 = match choice {
                LevelUpChoice::Constitution => Fighter {
                    base_max_hp: (f1.base_max_hp + 20) as i32,
                    hp: (f1.hp + 20) as i32,
                    ..f1
                },
                LevelUpChoice::Strength => Fighter { base_power: (f1.base_power + 1) as i32, ..f1 },
                LevelUpChoice::Agility => Fighter {
                    base_defense: (f1.base_defense + 1) as i32,
                    ..f1
                },
            };
            Object { level: (player.level + 1) as i32, fighter: Some(f2), ..player }
        },
        None => player,
    }
}

/// Law: the threshold is exactly `200 + 150 * level`; experience equal to it
/// triggers a level-up on the next check, one point below it does not.
pub proof fn lemma_threshold_boundary(player: Object)
    requires
        player.fighter is Some,
    ensures
        spec_threshold(player.level as int) == 200 + 150 * player.level,
        player.fighter->Some_0.xp == spec_threshold(player.level as int)
            ==> spec_pending_level_up(player),
        player.fighter->Some_0.xp == spec_threshold(player.level as int) - 1
            ==> !spec_pending_level_up(player),
{
}

/// Resolve a level-up with the caller's (already validated) choice: raise the
/// level, subtract the threshold from the experience total, apply the chosen
/// upgrade, and log the new level. The caller must re-present the choice
/// until it gets a valid one; nothing here happens before that.
pub fn apply_level_up(choice: LevelUpChoice, game: &mut Game, objects: &mut Vec<Object>)
    requires
        old(game).wf(),
        old(objects)@.len() >= 1,
        forall|i: int| 0 <= i < old(objects)@.len() ==> (#[trigger] old(objects)@[i]).wf(),
        spec_pending_level_up(old(objects)@[PLAYER as int]),
        old(objects)@[PLAYER as int].level < LEVEL_MAX,
        ({
            let f = old(objects)@[PLAYER as int].fighter->Some_0;
            match choice {
                LevelUpChoice::Constitution => f.base_max_hp + 20 <= STAT_MAX && f.hp + 20
                    <= HP_LIMIT,
                LevelUpChoice::Strength => f.base_power + 1 <= STAT_MAX,
                LevelUpChoice::Agility => f.base_defense + 1 <= STAT_MAX,
            }
        }),
    ensures
        final(game).wf(),
        final(game).map == old(game).map,
        final(game).inventory == old(game).inventory,
        final(game).dungeon_level == old(game).dungeon_level,
        forall|i: int| 0 <= i < final(objects)@.len() ==> (#[trigger] final(objects)@[i]).wf(),
        final(objects)@ == old(objects)@.update(
            PLAYER as int,
            spec_level_up(old(objects)@[PLAYER as int], choice),
        ),
        final(game).messages.entries@ == old(game).messages.entries@.push(
            LogEntry {
                text: LogText {
                    kind: MessageKind::LevelUp,
                    subject: None,
                    target: None,
                    slot: None,
                    amount: (old(objects)@[PLAYER as int].level + 1) as i32,
                },
                color: ColorTag::Yellow,
            },
        ),
{
    let threshold = objects[PLAYER].level_up_xp();
    let mut player = objects.remove(PLAYER);
    player.level = player.level + 1;
    game.messages.add(
        LogText::numbered(MessageKind::LevelUp, player.level),
        ColorTag::Yellow,
    );
    let f = player.fighter.unwrap();
    let f1 = Fighter { xp: f.xp - threshold, ..f };
    let f2 = match choice {
        LevelUpChoice::Constitution => Fighter {
            base_max_hp: f1.base_max_hp + 20,
            hp: f1.hp + 20,
            ..f1
        },
        LevelUpChoice::Strength => Fighter { base_power: f1.base_power + 1, ..f1 },
        LevelUpChoice::Agility => Fighter { base_defense: f1.base_defense + 1, ..f1 },
    };
    player.fighter = Some(f2);
    objects.insert(PLAYER, player);
    proof {
        assert(objects@ =~= old(objects)@.update(
            PLAYER as int,
            spec_level_up(old(objects)@[PLAYER as int], choice),
        ));
    }
}

/// The full effect of one descent: the player rests, healing by half of the
/// current effective maximum (clamped at it); the narrative is logged; the
/// depth counter rises; the inventory is kept; and the map is regenerated
/// wholesale at the new depth — a fresh level whose entities, besides the
/// repositioned player, are only that generation's spawns and its stairs.
pub open spec fn spec_next_level_effect(
    g0: Game,
    objs0: Seq<Object>,
    g1: Game,
    objs1: Seq<Object>,
) -> bool {
    &&& g1.dungeon_level == g0.dungeon_level + 1
    &&& g1.inventory == g0.inventory
    &&& spec_fresh_level(g1.map, objs1, (g0.dungeon_level + 1) as u32)
    &&& ({
        let p0 = objs0[PLAYER as int];
        let healed = match p0.fighter {
            Some(f) => {
                let capped = spec_max_hp(p0, g0.inventory@);
                let amount = capped / 2;
                let new_hp = if f.hp + amount <= capped {
                    f.hp + amount
                } else {
                    capped
                };
                Object { fighter: Some(Fighter { hp: new_hp as i32, ..f }), ..p0 }
            },
            None => p0,
        };
        let p1 = objs1[PLAYER as int];
        p1 == (Object { x: p1.x, y: p1.y, ..healed })
    })
    &&& g1.messages.entries@ == g0.messages.entries@.push(
        LogEntry {
            text: LogText {
                kind: MessageKind::Rest,
                subject: None,
                target: None,
                slot: None,
                amount: 0,
            },
            color: ColorTag::Violet,
        },
    ).push(
        LogEntry {
            text: LogText {
                kind: MessageKind::DescendDeeper,
                subject: None,
                target: None,
                slot: None,
                amount: 0,
            },
            color: ColorTag::Red,
        },
    )
}

/// Descend one dungeon level: the player rests (healing half of the current
/// effective maximum), the narrative is logged, the depth counter rises, and
/// a fresh map replaces the old one, discarding every transient entity.
pub fn next_level(game: &mut Game, objects: &mut Vec<Object>)
    requires
        old(game).wf(),
        old(objects)@.len() >= 1,
        forall|i: int| 0 <= i < old(objects)@.len() ==> (#[trigger] old(objects)@[i]).wf(),
        old(game).dungeon_level < DUNGEON_LEVEL_MAX,
    ensures
        final(game).wf(),
        spec_next_level_effect(*old(game), old(objects)@, *final(game), final(objects)@),
{
    game.messages.add(LogText::plain(MessageKind::Rest), ColorTag::Violet);
    proof {
        lemma_equipped_bounds(game.inventory@);
    }
    let heal_hp = objects[PLAYER].max_hp(game) / 2;
    let mut player = objects.remove(PLAYER);
    player.heal(heal_hp, game);
    objects.insert(PLAYER, player);
    proof {
        assert(objects@ =~= old(objects)@.update(PLAYER as int, objects@[PLAYER as int]));
    }

    game.messages.add(LogText::plain(MessageKind::DescendDeeper), ColorTag::Red);
    game.dungeon_level = game.dungeon_level + 1;
    let new_map = make_map(objects, game.dungeon_level);
    game.map = new_map;
}

/// The welcome line of a fresh session.
pub open spec fn spec_welcome_entry() -> LogEntry {
    LogEntry {
        text: LogText {
            kind: MessageKind::Welcome,
            subject: None,
            target: None,
            slot: None,
            amount: 0,
        },
        color: ColorTag::Red,
    }
}

/// The player entity a fresh session starts with, before the generator
/// positions it.
pub open spec fn spec_new_player(x: i32, y: i32) -> Object {
    Object {
        x,
        y,
        glyph: '@',
        color: ColorTag::White,
        name: Name { kind: NameKind::Player, remains: false },
        blocks: true,
        alive: true,
        level: 1,
        fighter: Some(
            Fighter {
                base_max_hp: 100,
                hp: 100,
                base_defense: 1,
                base_power: 2,
                xp: 0,
                on_death: DeathCallback::Player,
            },
        ),
        ai: None,
        item: None,
        equipment: None,
        always_visible: false,
    }
}

/// The dagger a fresh session's inventory starts with, already wielded.
pub open spec fn spec_starting_dagger() -> Object {
    Object {
        x: 0,
        y: 0,
        glyph: '-',
        color: ColorTag::Sky,
        name: Name { kind: NameKind::Dagger, remains: false },
        blocks: false,
        alive: false,
        level: 1,
        fighter: None,
        ai: None,
        item: Some(Item::Sword),
        equipment: Some(
            Equipment {
                equipped: true,
                slot: Slot::RightHand,
                max_hp_bonus: 0,
                defense_bonus: 0,
                power_bonus: 2,
            },
        ),
        always_visible: false,
    }
}

/// Start a fresh session: a level-1 player with a wielded dagger, a freshly
/// generated first level, and the welcome line in the log.
pub fn new_game() -> (r: (Game, Vec<Object>))
    ensures
        r.0.wf(),
        r.0.dungeon_level == 1,
        r.0.inventory@ =~= seq![spec_starting_dagger()],
        r.0.messages.entries@ =~= seq![spec_welcome_entry()],
        r.1@[PLAYER as int] == spec_new_player(r.1@[PLAYER as int].x, r.1@[PLAYER as int].y),
        // the map and the entities are a fresh first level from the generator
        spec_fresh_level(r.0.map, r.1@, 1),
{
    let mut player = Object::new(
        0,
        0,
        '@',
        ColorTag::White,
        Name::fresh(NameKind::Player),
        true,
    );
    player.alive = true;
    player.fighter = Some(
        Fighter {
            base_max_hp: 100,
            hp: 100,
            base_defense: 1,
            base_power: 2,
            xp: 0,
            on_death: DeathCallback::Player,
        },
    );

    let mut objects: Vec<Object> = Vec::new();
    objects.push(player);

    let map = make_map(&mut objects, 1);

    let mut game = Game { map, messages: Messages::new(), inventory: Vec::new(), dungeon_level: 1 };

    let mut dagger = Object::new(0, 0, '-', ColorTag::Sky, Name::fresh(NameKind::Dagger), false);
    dagger.item = Some(Item::Sword);
    dagger.equipment = Some(
        Equipment {
            equipped: true,
            slot: Slot::RightHand,
            max_hp_bonus: 0,
            defense_bonus: 0,
            power_bonus: 2,
        },
    );
    game.inventory.push(dagger);

    game.messages.add(LogText::plain(MessageKind::Welcome), ColorTag::Red);

    (game, objects)
}


/// The first entity with an item component standing at (x, y), scanning the
/// collection in order: what a pickup at that tile takes.
pub open spec fn spec_first_item_at(objects: Seq<Object>, x: int, y: int) -> Option<int>
    decreases objects.len(),
{
    if objects.len() == 0 {
        None
    } else if objects[0].item is Some && objects[0].x == x && objects[0].y == y {
        Some(0)
    } else {
        match spec_first_item_at(objects.drop_first(), x, y) {
            Some(k) => Some(k + 1),
            None => None,
        }
    }
}

/// Ties the searching loop's answer to `spec_first_item_at`.
proof fn lemma_first_item_at_matches(objects: Seq<Object>, x: int, y: int, r: Option<usize>)
    requires
        match r {
            Some(i) => {
                &&& i < objects.len()
                &&& objects[i as int].item is Some
                &&& objects[i as int].x == x
                &&& objects[i as int].y == y
                &&& forall|j: int|
                    0 <= j < i ==> !((#[trigger] objects[j]).item is Some && objects[j].x == x
                        && objects[j].y == y)
            },
            None => forall|j: int|
                0 <= j < objects.len() ==> !((#[trigger] objects[j]).item is Some && objects[j].x
                    == x && objects[j].y == y),
        },
    ensures
        spec_first_item_at(objects, x, y) == match r {
            Some(i) => Some(i as int),
            None => None::<int>,
        },
    decreases objects.len(),
{
    if objects.len() > 0 {
        if objects[0].item is Some && objects[0].x == x && objects[0].y == y {
        } else {
            let rest = objects.drop_first();
            match r {
                Some(i) => {
                    lemma_first_item_at_matches(rest, x, y, Some((i - 1) as usize));
                },
                None => {
                    lemma_first_item_at_matches(rest, x, y, None);
                },
            }
        }
    }
}

/// Whether the stairs marker stands at (x, y).
pub open spec fn spec_stairs_at(objects: Seq<Object>, x: int, y: int) -> bool {
    exists|j: int|
        0 <= j < objects.len() && (#[trigger] objects[j]).name == (Name {
            kind: NameKind::Stairs,
            remains: false,
        }) && objects[j].x == x && objects[j].y == y
}

/// The index of the first entity with an item component standing at (x, y):
/// what a pickup at that tile takes.
pub fn first_item_at(x: i32, y: i32, objects: &Vec<Object>) -> (r: Option<usize>)
    ensures
        match r {
            Some(i) => {
                &&& i < objects@.len()
                &&& objects@[i as int].item is Some
                &&& objects@[i as int].x == x
                &&& objects@[i as int].y == y
                &&& forall|j: int|
                    0 <= j < i ==> !((#[trigger] objects@[j]).item is Some && objects@[j].x == x
                        && objects@[j].y == y)
            },
            None => forall|j: int|
                0 <= j < objects@.len() ==> !((#[trigger] objects@[j]).item is Some
                    && objects@[j].x == x && objects@[j].y == y),
        },
{
    let n = objects.len();
    let mut i: usize = 0;
    while i < n
        invariant
            n == objects@.len(),
            i <= n,
            forall|j: int|
                0 <= j < i ==> !((#[trigger] objects@[j]).item is Some && objects@[j].x == x
                    && objects@[j].y == y),
        decreases n - i,
    {
        let found = match &objects[i].item {
            Some(_) => objects[i].x == x && objects[i].y == y,
            None => false,
        };
        if found {
            return Some(i);
        }
        i = i + 1;
    }
    None
}

/// Whether some entity at (x, y) is the stairs marker.
pub fn stairs_at(x: i32, y: i32, objects: &Vec<Object>) -> (r: bool)
    ensures
        r == spec_stairs_at(objects@, x as int, y as int),
{
    let n = objects.len();
    let mut i: usize = 0;
    while i < n
        invariant
            n == objects@.len(),
            i <= n,
            forall|j: int|
                0 <= j < i ==> !((#[trigger] objects@[j]).name == (Name {
                    kind: NameKind::Stairs,
                    remains: false,
                }) && objects@[j].x == x && objects@[j].y == y),
        decreases n - i,
    {
        let is_stairs = match objects[i].name.kind {
            NameKind::Stairs => !objects[i].name.remains && objects[i].x == x && objects[i].y == y,
            _ => false,
        };
        if is_stairs {
            return true;
        }
        i = i + 1;
    }
    false
}

/// Whether every (attacker, target) pair can settle a kill without the
/// experience total leaving its bounds. The caller tests this before a
/// combat-bearing turn.
pub fn combat_xp_ok(objects: &Vec<Object>) -> (r: bool)
    requires
        objects@.len() >= 1,
        forall|i: int| 0 <= i < objects@.len() ==> (#[trigger] objects@[i]).wf(),
    ensures
        r == (forall|i: int|
            0 <= i < objects@.len() ==> (match (
                (#[trigger] objects@[i]).fighter,
                objects@[PLAYER as int].fighter,
            ) {
                (Some(a), Some(t)) => a.xp + t.xp <= XP_MAX,
                _ => true,
            })),
{
    let player_xp = match &objects[PLAYER].fighter {
        Some(f) => f.xp,
        None => {
            return true;
        },
    };
    let n = objects.len();
    let mut i: usize = 0;
    while i < n
        invariant
            n == objects@.len(),
            i <= n,
            forall|k: int| 0 <= k < objects@.len() ==> (#[trigger] objects@[k]).wf(),
            0 <= player_xp <= XP_MAX,
            objects@[PLAYER as int].fighter matches Some(f) && f.xp == player_xp,
            forall|j: int|
                0 <= j < i ==> (match (
                    (#[trigger] objects@[j]).fighter,
                    objects@[PLAYER as int].fighter,
                ) {
                    (Some(a), Some(t)) => a.xp + t.xp <= XP_MAX,
                    _ => true,
                }),
        decreases n - i,
    {
        let over = match &objects[i].fighter {
            Some(f) => f.xp > XP_MAX - player_xp,
            None => false,
        };
        if over {
            return false;
        }
        i = i + 1;
    }
    true
}

/// Whether the player's experience plus everything a single blast could
/// credit stays within bounds. The caller tests this before a turn that may
/// resolve an area effect.
pub fn total_xp_ok(objects: &Vec<Object>) -> (r: bool)
    requires
        objects@.len() >= 1,
        forall|i: int| 0 <= i < objects@.len() ==> (#[trigger] objects@[i]).wf(),
    ensures
        r == ((match objects@[PLAYER as int].fighter {
            Some(f) => f.xp as int,
            None => 0,
        }) + crate::item::spec_total_xp_upto(objects@, objects@.len() as int) <= XP_MAX),
{
    let player_xp: i64 = match &objects[PLAYER].fighter {
        Some(f) => f.xp as i64,
        None => 0,
    };
    let n = objects.len();
    let mut acc: i64 = player_xp;
    let mut i: usize = 0;
    while i < n
        invariant
            n == objects@.len(),
            i <= n,
            forall|k: int| 0 <= k < objects@.len() ==> (#[trigger] objects@[k]).wf(),
            player_xp == (match objects@[PLAYER as int].fighter {
                Some(f) => f.xp as int,
                None => 0,
            }),
            acc == player_xp + crate::item::spec_total_xp_upto(objects@, i as int),
            0 <= acc <= XP_MAX,
        decreases n - i,
    {
        let xp = match &objects[i].fighter {
            Some(f) => f.xp,
            None => 0,
        };
        if acc + xp as i64 > XP_MAX as i64 {
            proof {
                crate::item::lemma_total_xp_monotone(objects@, i + 1int, objects@.len() as int);
            }
            return false;
        }
        acc = acc + xp as i64;
        i = i + 1;
    }
    true
}

/// Resolve one decoded player intent against the session: movement fights or
/// steps, pickups, drops and item uses run their course, a descent on the
/// stairs rebuilds the level, and only a movement or wait intent of a living
/// player consumes a world tick.
pub fn handle_intent(intent: Intent, game: &mut Game, objects: &mut Vec<Object>, fov: &FovGrid)
    -> (action: PlayerAction)
    requires
        old(game).wf(),
        fov.wf(),
        old(objects)@.len() >= 1,
        forall|i: int| 0 <= i < old(objects)@.len() ==> (#[trigger] old(objects)@[i]).wf(),
        old(objects)@[PLAYER as int].alive ==> old(objects)@[PLAYER as int].fighter is Some,
        old(objects)@[PLAYER as int].item is None,
        (forall|i: int|
            0 <= i < old(objects)@.len() ==> (match (
                (#[trigger] old(objects)@[i]).fighter,
                old(objects)@[PLAYER as int].fighter,
            ) {
                (Some(a), Some(t)) => a.xp + t.xp <= XP_MAX,
                _ => true,
            })),
        (match old(objects)@[PLAYER as int].fighter {
            Some(f) => f.xp as int,
            None => 0,
        }) + crate::item::spec_total_xp_upto(old(objects)@, old(objects)@.len() as int) <= XP_MAX,
        (match intent {
            Intent::Move(dx, dy) => -1 <= dx <= 1 && -1 <= dy <= 1 && !(dx == 0 && dy == 0),
            Intent::DropItem(i) => i < old(game).inventory@.len(),
            Intent::UseItem(i, selection) => i < old(game).inventory@.len() && (match old(game).inventory@[i as int].item {
                Some(Item::Confusion) => match selection {
                    Selection::Monster(m) => 0 < m < old(objects)@.len() && old(objects)@[m as int].fighter is Some && old(objects)@[m as int].alive,
                    Selection::Cancelled => true,
                    _ => false,
                },
                Some(Item::Fireball) => match selection {
                    Selection::Tile(cx, cy) => 0 <= cx < MAP_WIDTH && 0 <= cy < MAP_HEIGHT,
                    Selection::Cancelled => true,
                    _ => false,
                },
                _ => selection == Selection::Unneeded,
            }),
            Intent::Descend => old(game).dungeon_level < DUNGEON_LEVEL_MAX,
            _ => true,
        }),
    ensures
        final(game).wf(),
        final(objects)@.len() >= 1,
        forall|i: int| 0 <= i < final(objects)@.len() ==> (#[trigger] final(objects)@[i]).wf(),
        action == (match intent {
            Intent::Move(_, _) | Intent::Wait => if old(objects)@[PLAYER as int].alive {
                PlayerAction::TookTurn
            } else {
                PlayerAction::DidntTakeTurn
            },
            Intent::Exit => PlayerAction::Exit,
            _ => PlayerAction::DidntTakeTurn,
        }),
        // only a descent on the stairs changes the map or the depth
        (!(intent matches Intent::Descend) ==> final(game).map == old(game).map && final(game).dungeon_level == old(game).dungeon_level),
        // a wait, an exit, or any intent of a dead player changes nothing
        ((intent == Intent::Wait || intent == Intent::Exit || !old(objects)@[PLAYER as int].alive) ==> final(game).map == old(game).map && final(game).messages
            == old(game).messages && final(game).inventory == old(game).inventory && final(game).dungeon_level == old(game).dungeon_level && final(objects)@ == old(objects)@),
        // only pickups, drops and item uses touch the inventory
        (match intent {
            Intent::PickUp | Intent::DropItem(_) | Intent::UseItem(_, _) => true,
            _ => final(game).inventory == old(game).inventory,
        }),
        // a living player's intent has exactly the respective operation's effect
        (old(objects)@[PLAYER as int].alive ==> ({
            let objs0 = old(objects)@;
            let objs1 = final(objects)@;
            let inv0 = old(game).inventory@;
            let inv1 = final(game).inventory@;
            let log0 = old(game).messages.entries@;
            let log1 = final(game).messages.entries@;
            match intent {
                Intent::Move(dx, dy) => spec_move_or_attack_effect(
                    dx as int,
                    dy as int,
                    objs0,
                    inv0,
                    log0,
                    old(game).map,
                    objs1,
                    log1,
                ),
                Intent::Wait | Intent::Exit => true,
                Intent::PickUp => match spec_first_item_at(
                    objs0,
                    objs0[PLAYER as int].x as int,
                    objs0[PLAYER as int].y as int,
                ) {
                    Some(id) => spec_pick_item_up_effect(
                        id,
                        objs0,
                        inv0,
                        log0,
                        objs1,
                        inv1,
                        log1,
                    ),
                    None => objs1 == objs0 && inv1 == inv0 && log1 == log0,
                },
                Intent::DropItem(id) => spec_drop_item_effect(
                    id as int,
                    objs0,
                    inv0,
                    log0,
                    objs1,
                    inv1,
                    log1,
                ),
                Intent::UseItem(id, selection) => exists|r: UseResult|
                    #![auto]
                    crate::item::spec_use_item_effect(
                        id as int,
                        selection,
                        *fov,
                        objs0,
                        inv0,
                        log0,
                        objs1,
                        inv1,
                        log1,
                        r,
                    ),
                Intent::Descend => if spec_stairs_at(
                    objs0,
                    objs0[PLAYER as int].x as int,
                    objs0[PLAYER as int].y as int,
                ) {
                    spec_next_level_effect(*old(game), objs0, *final(game), objs1)
                } else {
                    objs1 == objs0 && *final(game) == *old(game)
                },
            }
        })),
{
    let alive = objects[PLAYER].alive;
    match intent {
        Intent::Exit => PlayerAction::Exit,
        Intent::Move(dx, dy) => {
            if alive {
                player_move_or_attack(dx, dy, game, objects);
                PlayerAction::TookTurn
            } else {
                PlayerAction::DidntTakeTurn
            }
        },
        Intent::Wait => {
            if alive {
                PlayerAction::TookTurn
            } else {
                PlayerAction::DidntTakeTurn
            }
        },
        Intent::PickUp => {
            if alive {
                let px = objects[PLAYER].x;
                let py = objects[PLAYER].y;
                let found = first_item_at(px, py, objects);
                proof {
                    lemma_first_item_at_matches(objects@, px as int, py as int, found);
                }
                if let Some(id) = found {
                    pick_item_up(id, game, objects);
                }
            }
            PlayerAction::DidntTakeTurn
        },
        Intent::DropItem(id) => {
            if alive {
                drop_item(id, game, objects);
            }
            PlayerAction::DidntTakeTurn
        },
        Intent::UseItem(id, selection) => {
            if alive {
                let _ = Item::use_item(id, selection, game, objects, fov);
            }
            PlayerAction::DidntTakeTurn
        },
        Intent::Descend => {
            if alive {
                let px = objects[PLAYER].x;
                let py = objects[PLAYER].y;
                if stairs_at(px, py, objects) {
                    next_level(game, objects);
                }
            }
            PlayerAction::DidntTakeTurn
        },
    }
}

/// Evaluate the entity invariant at run time: what a freshly decoded entity
/// must pass before the kernel will work with it.
pub fn object_wf_check(o: &Object) -> (r: bool)
    ensures
        r == o.wf(),
{
    let fighter_ok = match &o.fighter {
        Some(f) => 0 <= f.base_max_hp && f.base_max_hp <= STAT_MAX && 0 <= f.hp && f.hp
            <= HP_LIMIT && 0 <= f.base_defense && f.base_defense <= STAT_MAX && 0 <= f.base_power
            && f.base_power <= STAT_MAX && 0 <= f.xp && f.xp <= XP_MAX,
        None => true,
    };
    let equipment_ok = match &o.equipment {
        Some(e) => 0 <= e.max_hp_bonus && e.max_hp_bonus <= crate::equipment::BONUS_MAX && 0
            <= e.defense_bonus && e.defense_bonus <= crate::equipment::BONUS_MAX && 0
            <= e.power_bonus && e.power_bonus <= crate::equipment::BONUS_MAX,
        None => true,
    };
    let components_ok = (match &o.equipment {
        Some(_) => o.item.is_some(),
        None => true,
    }) && (match &o.ai {
        Some(_) => o.alive && o.fighter.is_some(),
        None => true,
    });
    0 <= o.x && o.x < MAP_WIDTH && 0 <= o.y && o.y < MAP_HEIGHT && 1 <= o.level && o.level
        <= LEVEL_MAX && fighter_ok && equipment_ok && components_ok && (o.glyph as u32) < 0xD800
}

/// Evaluate the session invariant at run time: what a freshly decoded
/// session must pass before the kernel will run it. Checks the grid's
/// dimensions, the inventory bound, every entity's invariant, the depth
/// bound, and that the collection still has its player slot.
pub fn session_wf_check(game: &Game, objects: &Vec<Object>) -> (r: bool)
    ensures
        r == (game.wf() && objects@.len() >= 1 && (forall|i: int|
            0 <= i < objects@.len() ==> (#[trigger] objects@[i]).wf())),
{
    if game.map.tiles.len() != MAP_WIDTH as usize {
        return false;
    }
    let mut x: usize = 0;
    while x < MAP_WIDTH as usize
        invariant
            game.map.tiles@.len() == MAP_WIDTH,
            x <= MAP_WIDTH,
            forall|i: int| 0 <= i < x ==> (#[trigger] game.map.tiles@[i])@.len() == MAP_HEIGHT,
        decreases MAP_WIDTH - x,
    {
        if game.map.tiles[x].len() != MAP_HEIGHT as usize {
            return false;
        }
        x = x + 1;
    }

    if game.inventory.len() > INVENTORY_CAP {
        return false;
    }
    let mut i: usize = 0;
    while i < game.inventory.len()
        invariant
            i <= game.inventory@.len(),
            forall|k: int| 0 <= k < i ==> (#[trigger] game.inventory@[k]).wf(),
        decreases game.inventory@.len() - i,
    {
        if !object_wf_check(&game.inventory[i]) {
            return false;
        }
        i = i + 1;
    }

    if game.dungeon_level < 1 || game.dungeon_level > DUNGEON_LEVEL_MAX {
        return false;
    }
    if objects.len() < 1 {
        return false;
    }
    let mut j: usize = 0;
    while j < objects.len()
        invariant
            j <= objects@.len(),
            forall|k: int| 0 <= k < j ==> (#[trigger] objects@[k]).wf(),
        decreases objects@.len() - j,
    {
        if !object_wf_check(&objects[j]) {
            return false;
        }
        j = j + 1;
    }
    true
}

/// Fold the visibility collaborator's answer into the map: every visible
/// tile becomes explored, an explored tile never reverts, and no other tile
/// flag changes.
pub fn mark_explored(game: &mut Game, fov: &FovGrid)
    requires
        old(game).wf(),
        fov.wf(),
    ensures
        final(game).wf(),
        final(game).messages == old(game).messages,
        final(game).inventory == old(game).inventory,
        final(game).dungeon_level == old(game).dungeon_level,
        forall|x: int, y: int|
            0 <= x < MAP_WIDTH && 0 <= y < MAP_HEIGHT ==> #[trigger] final(game).map.spec_tile(
                x,
                y,
            ) == (Tile {
                explored: old(game).map.spec_tile(x, y).explored || fov.spec_visible(x, y),
                ..old(game).map.spec_tile(x, y)
            }),
{
    let mut x: i32 = 0;
    while x < MAP_WIDTH
        invariant
            game.wf(),
            fov.wf(),
            game.messages == old(game).messages,
            game.inventory == old(game).inventory,
            game.dungeon_level == old(game).dungeon_level,
            0 <= x <= MAP_WIDTH,
            forall|a: int, b: int|
                0 <= a < MAP_WIDTH && 0 <= b < MAP_HEIGHT ==> #[trigger] game.map.spec_tile(a, b)
                    == (if a < x {
                    Tile {
                        explored: old(game).map.spec_tile(a, b).explored || fov.spec_visible(a, b),
                        ..old(game).map.spec_tile(a, b)
                    }
                } else {
                    old(game).map.spec_tile(a, b)
                }),
        decreases MAP_WIDTH - x,
    {
        let mut y: i32 = 0;
        while y < MAP_HEIGHT
            invariant
                game.wf(),
                fov.wf(),
                game.messages == old(game).messages,
                game.inventory == old(game).inventory,
                game.dungeon_level == old(game).dungeon_level,
                0 <= x < MAP_WIDTH,
                0 <= y <= MAP_HEIGHT,
                forall|a: int, b: int|
                    0 <= a < MAP_WIDTH && 0 <= b < MAP_HEIGHT ==> #[trigger] game.map.spec_tile(
                        a,
                        b,
                    ) == (if a < x || (a == x && b < y) {
                        Tile {
                            explored: old(game).map.spec_tile(a, b).explored || fov.spec_visible(
                                a,
                                b,
                            ),
                            ..old(game).map.spec_tile(a, b)
                        }
                    } else {
                        old(game).map.spec_tile(a, b)
                    }),
            decreases MAP_HEIGHT - y,
        {
            let visible = fov.is_visible(x, y);
            let tile = game.map.tile_at(x, y);
            game.map.set_tile(
                x,
                y,
                Tile { explored: tile.explored || visible, ..tile },
            );
            y = y + 1;
        }
        x = x + 1;
    }
}

} // verus!





