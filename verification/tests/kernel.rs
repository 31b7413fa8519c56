//! Combat, leveling, confusion and scheduling behavior of the kernel.

use chasm::ai::{ai_take_turn, Ai, CONFUSE_NUM_TURNS};
use chasm::color::ColorTag;
use chasm::equipment::{Equipment, Slot};
use chasm::fighter::{DeathCallback, Fighter};
use chasm::game::{
    handle_intent, pending_level_up, apply_level_up, drop_item, move_by, pick_item_up,
    player_move_or_attack, session_wf_check, FovGrid, Game, Intent, LevelUpChoice, PlayerAction,
    Selection, PLAYER,
};
use chasm::item::{cast_confusion, cast_fireball, cast_heal, cast_lightning, Item, UseResult, FIREBALL_DAMAGE};
use chasm::message::{MessageKind, Messages};
use chasm::monster::Monster;
use chasm::name::{Name, NameKind};
use chasm::object::Object;
use chasm::tile::{DungeonMap, Tile, MAP_HEIGHT, MAP_WIDTH};

fn open_map() -> DungeonMap {
    let mut map = DungeonMap::all_walls();
    for x in 1..(MAP_WIDTH - 1) {
        for y in 1..(MAP_HEIGHT - 1) {
            map.set_tile(x, y, Tile::empty());
        }
    }
    map
}

fn empty_game() -> Game {
    Game {
        map: open_map(),
        messages: Messages::new(),
        inventory: Vec::new(),
        dungeon_level: 1,
    }
}

fn blind_fov() -> FovGrid {
    let mut cells = Vec::new();
    for _ in 0..MAP_WIDTH {
        let mut column = Vec::new();
        for _ in 0..MAP_HEIGHT {
            column.push(false);
        }
        cells.push(column);
    }
    FovGrid { cells }
}

fn seeing_fov() -> FovGrid {
    let mut cells = Vec::new();
    for _ in 0..MAP_WIDTH {
        let mut column = Vec::new();
        for _ in 0..MAP_HEIGHT {
            column.push(true);
        }
        cells.push(column);
    }
    FovGrid { cells }
}

fn test_player(x: i32, y: i32) -> Object {
    let mut player = Object::new(x, y, '@', ColorTag::White, Name::fresh(NameKind::Player), true);
    player.alive = true;
    player.fighter = Some(Fighter {
        base_max_hp: 100,
        hp: 100,
        base_defense: 1,
        base_power: 2,
        xp: 0,
        on_death: DeathCallback::Player,
    });
    player
}

#[test]
fn damage_clamps_at_zero() {
    // hp afterwards is max(0, hp - damage); hp is never negative
    let mut game = empty_game();
    let mut orc = Monster::create(Monster::Orc, 5, 5);
    let reward = orc.take_damage(3, &mut game.messages);
    assert_eq!(reward, None);
    assert_eq!(orc.fighter.as_ref().unwrap().hp, 17);

    let reward = orc.take_damage(0, &mut game.messages);
    assert_eq!(reward, None);
    assert_eq!(orc.fighter.as_ref().unwrap().hp, 17);

    let reward = orc.take_damage(1000, &mut game.messages);
    assert_eq!(reward, Some(35));
    assert!(orc.fighter.is_none());
    assert!(!orc.alive);
}

#[test]
fn death_fires_exactly_once() {
    let mut game = empty_game();
    let mut orc = Monster::create(Monster::Orc, 5, 5);
    let reward = orc.take_damage(20, &mut game.messages);
    assert_eq!(reward, Some(35));
    assert!(!orc.alive);
    assert!(!orc.blocks);
    assert_eq!(orc.name, Name { kind: NameKind::Orc, remains: true });
    assert_eq!(orc.glyph, '%');
    let log_after_death = game.messages.len();

    // a second blow on the remains: no reward, no further message
    let reward = orc.take_damage(20, &mut game.messages);
    assert_eq!(reward, None);
    assert_eq!(game.messages.len(), log_after_death);
}

#[test]
fn death_message_names_monster_and_reward() {
    let mut game = empty_game();
    let mut troll = Monster::create(Monster::Troll, 5, 5);
    let reward = troll.take_damage(30, &mut game.messages);
    assert_eq!(reward, Some(100));
    assert_eq!(game.messages.len(), 1);
    let entry = game.messages.entry_at(0);
    assert_eq!(entry.text.kind, MessageKind::MonsterDied);
    assert_eq!(entry.text.subject, Some(Name { kind: NameKind::Troll, remains: false }));
    assert_eq!(entry.text.amount, 100);
    assert_eq!(entry.color, ColorTag::Orange);
}

#[test]
fn confusion_reverts_on_expected_tick() {
    // a confusion with lasts_for = n keeps the entity confused for ticks
    // 0..n+1 with a decrementing counter and reverts on the tick after that
    let mut game = empty_game();
    let fov = blind_fov();
    let player = test_player(5, 5);
    let mut monster = Monster::create(Monster::Orc, 40, 20);
    let n = 2;
    monster.ai = Some(Ai::Confused { previous_ai: Box::new(Ai::Basic), lasts_for: n });
    let mut objects = vec![player, monster];

    for tick in 0..(n + 2) {
        match &objects[1].ai {
            Some(Ai::Confused { lasts_for, .. }) => assert_eq!(*lasts_for, n - tick),
            other => panic!("expected confusion at tick {}, found {:?}", tick, other),
        }
        ai_take_turn(1, false, &mut game, &mut objects);
    }
    assert_eq!(objects[1].ai, Some(Ai::Basic));
    // the recovery message was logged exactly once
    let recoveries = (0..game.messages.len())
        .filter(|&i| game.messages.entry_at(i).text.kind == MessageKind::NoLongerConfused)
        .count();
    assert_eq!(recoveries, 1);
}

#[test]
fn confused_step_stays_adjacent() {
    let mut game = empty_game();
    let player = test_player(5, 5);
    let mut monster = Monster::create(Monster::Orc, 40, 20);
    monster.ai = Some(Ai::Confused {
        previous_ai: Box::new(Ai::Basic),
        lasts_for: CONFUSE_NUM_TURNS,
    });
    let mut objects = vec![player, monster];
    ai_take_turn(1, false, &mut game, &mut objects);
    assert!((objects[1].x - 40).abs() <= 1);
    assert!((objects[1].y - 20).abs() <= 1);
}

#[test]
fn basic_ai_chases_when_visible() {
    let mut game = empty_game();
    let player = test_player(10, 10);
    let monster = Monster::create(Monster::Orc, 14, 10);
    let mut objects = vec![player, monster];
    ai_take_turn(1, true, &mut game, &mut objects);
    // one normalized, rounded step straight toward the player
    assert_eq!((objects[1].x, objects[1].y), (13, 10));
    assert_eq!(objects[1].ai, Some(Ai::Basic));
}

#[test]
fn basic_ai_waits_when_unseen() {
    let mut game = empty_game();
    let player = test_player(10, 10);
    let monster = Monster::create(Monster::Orc, 14, 10);
    let mut objects = vec![player, monster];
    ai_take_turn(1, false, &mut game, &mut objects);
    assert_eq!((objects[1].x, objects[1].y), (14, 10));
}

#[test]
fn basic_ai_attacks_adjacent_player() {
    let mut game = empty_game();
    let player = test_player(10, 10);
    let monster = Monster::create(Monster::Orc, 11, 10);
    let mut objects = vec![player, monster];
    ai_take_turn(1, true, &mut game, &mut objects);
    // orc power 4 minus player defense 1: three points of damage
    assert_eq!(objects[0].fighter.as_ref().unwrap().hp, 97);
    let entry = game.messages.entry_at(0);
    assert_eq!(entry.text.kind, MessageKind::Attack);
    assert_eq!(entry.text.amount, 3);
}

#[test]
fn threshold_formula_and_boundary() {
    // threshold(level) = 200 + 150 * level
    let player = test_player(5, 5);
    assert_eq!(player.level_up_xp(), 350);

    let mut at_threshold = test_player(5, 5);
    at_threshold.fighter.as_mut().unwrap().xp = 350;
    let objects = vec![at_threshold];
    assert!(pending_level_up(&objects));

    let mut below = test_player(5, 5);
    below.fighter.as_mut().unwrap().xp = 349;
    let objects = vec![below];
    assert!(!pending_level_up(&objects));
}

#[test]
fn level_up_applies_choice() {
    let mut game = empty_game();
    let mut player = test_player(5, 5);
    player.fighter.as_mut().unwrap().xp = 360;
    let mut objects = vec![player];
    apply_level_up(LevelUpChoice::Constitution, &mut game, &mut objects);
    let f = objects[0].fighter.as_ref().unwrap();
    assert_eq!(objects[0].level, 2);
    assert_eq!(f.xp, 10);
    assert_eq!(f.base_max_hp, 120);
    assert_eq!(f.hp, 120);
    let entry = game.messages.entry_at(0);
    assert_eq!(entry.text.kind, MessageKind::LevelUp);
    assert_eq!(entry.text.amount, 2);
}

#[test]
fn equipment_bonuses_aggregate_exactly() {
    // two power bonuses of 2 and 3 add exactly 5; dequipping one removes
    // only its own contribution
    let mut game = empty_game();
    let player = test_player(5, 5);

    let mut blade = Object::new(0, 0, '-', ColorTag::Sky, Name::fresh(NameKind::Dagger), false);
    blade.item = Some(Item::Sword);
    blade.equipment = Some(Equipment {
        slot: Slot::RightHand,
        equipped: false,
        max_hp_bonus: 0,
        defense_bonus: 0,
        power_bonus: 2,
    });
    let mut buckler = Object::new(0, 0, 'o', ColorTag::DarkerOrange, Name::fresh(NameKind::Shield), false);
    buckler.item = Some(Item::Shield);
    buckler.equipment = Some(Equipment {
        slot: Slot::LeftHand,
        equipped: false,
        max_hp_bonus: 0,
        defense_bonus: 0,
        power_bonus: 3,
    });
    game.inventory.push(blade);
    game.inventory.push(buckler);

    let base = player.power(&game);
    assert_eq!(base, 2);

    let mut m = Messages::new();
    let mut first = game.inventory.remove(0);
    first.equip(&mut m);
    game.inventory.insert(0, first);
    let mut second = game.inventory.remove(1);
    second.equip(&mut m);
    game.inventory.insert(1, second);
    assert_eq!(player.power(&game), 7);

    let mut second = game.inventory.remove(1);
    second.dequip(&mut m);
    game.inventory.insert(1, second);
    assert_eq!(player.power(&game), 4);
}

#[test]
fn five_attacks_fell_an_orc() {
    // effective power 4 against defense 0 and 20 hp: three attacks leave
    // 8 hp, the fifth kills, credits 35 experience, and leaves inert remains
    let mut game = empty_game();
    let mut dagger = Object::new(0, 0, '-', ColorTag::Sky, Name::fresh(NameKind::Dagger), false);
    dagger.item = Some(Item::Sword);
    dagger.equipment = Some(Equipment {
        slot: Slot::RightHand,
        equipped: true,
        max_hp_bonus: 0,
        defense_bonus: 0,
        power_bonus: 2,
    });
    game.inventory.push(dagger);

    let mut player = test_player(5, 5);
    let mut orc = Monster::create(Monster::Orc, 6, 5);
    assert_eq!(player.power(&game), 4);
    assert_eq!(orc.defense(&game), 0);

    for _ in 0..3 {
        player.attack(&mut orc, &mut game);
    }
    assert_eq!(orc.fighter.as_ref().unwrap().hp, 8);

    player.attack(&mut orc, &mut game);
    player.attack(&mut orc, &mut game);
    assert!(!orc.alive);
    assert!(!orc.blocks);
    assert!(orc.fighter.is_none());
    assert!(orc.ai.is_none());
    assert_eq!(orc.name, Name { kind: NameKind::Orc, remains: true });
    assert_eq!(player.fighter.as_ref().unwrap().xp, 35);
}

#[test]
fn attack_without_effect_logs_no_damage() {
    let mut game = empty_game();
    let mut weak = test_player(5, 5);
    weak.fighter.as_mut().unwrap().base_power = 0;
    let mut troll = Monster::create(Monster::Troll, 6, 5);
    weak.attack(&mut troll, &mut game);
    assert_eq!(troll.fighter.as_ref().unwrap().hp, 30);
    let entry = game.messages.entry_at(0);
    assert_eq!(entry.text.kind, MessageKind::NoEffect);
}

#[test]
fn move_by_respects_walls_and_blockers() {
    let game = empty_game();
    let player = test_player(1, 1);
    let mut objects = vec![player];
    // into the wall border: stalls
    move_by(PLAYER, -1, 0, &game, &mut objects);
    assert_eq!((objects[0].x, objects[0].y), (1, 1));
    // into the open: steps
    move_by(PLAYER, 1, 1, &game, &mut objects);
    assert_eq!((objects[0].x, objects[0].y), (2, 2));
    // into a blocking monster: stalls
    let orc = Monster::create(Monster::Orc, 3, 2);
    objects.push(orc);
    move_by(PLAYER, 1, 0, &game, &mut objects);
    assert_eq!((objects[0].x, objects[0].y), (2, 2));
}

#[test]
fn movement_intent_attacks_adjacent_monster() {
    let mut game = empty_game();
    let player = test_player(5, 5);
    let orc = Monster::create(Monster::Orc, 6, 5);
    let mut objects = vec![player, orc];
    player_move_or_attack(1, 0, &mut game, &mut objects);
    // player power 2 minus orc defense 0: two points of damage, no move
    assert_eq!((objects[0].x, objects[0].y), (5, 5));
    assert_eq!(objects[1].fighter.as_ref().unwrap().hp, 18);
}

#[test]
fn pick_up_and_inventory_full() {
    let mut game = empty_game();
    let player = test_player(5, 5);
    let potion = Item::create(Item::Heal, 5, 5);
    let mut objects = vec![player, potion];
    pick_item_up(1, &mut game, &mut objects);
    assert_eq!(objects.len(), 1);
    assert_eq!(game.inventory.len(), 1);
    assert_eq!(game.messages.entry_at(0).text.kind, MessageKind::PickedUp);

    // fill the inventory to its cap, then a pickup is rejected
    while game.inventory.len() < 26 {
        let extra = Item::create(Item::Heal, 5, 5);
        game.inventory.push(extra);
    }
    let unlucky = Item::create(Item::Heal, 5, 5);
    objects.push(unlucky);
    let before = objects.len();
    pick_item_up(1, &mut game, &mut objects);
    assert_eq!(objects.len(), before);
    assert_eq!(game.inventory.len(), 26);
    let last = game.messages.entry_at(game.messages.len() - 1);
    assert_eq!(last.text.kind, MessageKind::InventoryFull);
}

#[test]
fn picked_up_equipment_is_worn_when_slot_free() {
    let mut game = empty_game();
    let player = test_player(5, 5);
    let sword = Item::create(Item::Sword, 5, 5);
    let mut objects = vec![player, sword];
    pick_item_up(1, &mut game, &mut objects);
    assert!(game.inventory[0].equipment.as_ref().unwrap().equipped);
    let last = game.messages.entry_at(game.messages.len() - 1);
    assert_eq!(last.text.kind, MessageKind::Equipped);
    assert_eq!(last.text.slot, Some(Slot::RightHand));
}

#[test]
fn dropped_item_lands_at_player_feet() {
    let mut game = empty_game();
    let player = test_player(7, 9);
    let mut objects = vec![player];
    let potion = Item::create(Item::Heal, 1, 1);
    game.inventory.push(potion);
    drop_item(0, &mut game, &mut objects);
    assert_eq!(game.inventory.len(), 0);
    assert_eq!((objects[1].x, objects[1].y), (7, 9));
    let last = game.messages.entry_at(game.messages.len() - 1);
    assert_eq!(last.text.kind, MessageKind::Dropped);
}

#[test]
fn heal_is_clamped_and_full_health_cancels() {
    let mut game = empty_game();
    let mut player = test_player(5, 5);
    player.fighter.as_mut().unwrap().hp = 90;
    let mut objects = vec![player];
    let r = cast_heal(&mut game, &mut objects);
    assert_eq!(r, UseResult::UsedUp);
    // healing 40 from 90 clamps at the effective maximum of 100
    assert_eq!(objects[0].fighter.as_ref().unwrap().hp, 100);

    let r = cast_heal(&mut game, &mut objects);
    assert_eq!(r, UseResult::Cancelled);
    let last = game.messages.entry_at(game.messages.len() - 1);
    assert_eq!(last.text.kind, MessageKind::AlreadyFullHealth);
}

#[test]
fn lightning_strikes_closest_visible_monster() {
    let mut game = empty_game();
    let fov = seeing_fov();
    let player = test_player(10, 10);
    let near = Monster::create(Monster::Orc, 12, 10);
    let far = Monster::create(Monster::Orc, 14, 10);
    let mut objects = vec![player, near, far];
    let r = cast_lightning(&mut game, &mut objects, &fov);
    assert_eq!(r, UseResult::UsedUp);
    // 40 damage kills the nearer orc outright; the farther one is untouched
    assert!(objects[1].fighter.is_none());
    assert_eq!(objects[2].fighter.as_ref().unwrap().hp, 20);
    assert_eq!(objects[0].fighter.as_ref().unwrap().xp, 35);
}

#[test]
fn lightning_without_target_cancels() {
    let mut game = empty_game();
    let fov = blind_fov();
    let player = test_player(10, 10);
    let orc = Monster::create(Monster::Orc, 12, 10);
    let mut objects = vec![player, orc];
    let r = cast_lightning(&mut game, &mut objects, &fov);
    assert_eq!(r, UseResult::Cancelled);
    let last = game.messages.entry_at(game.messages.len() - 1);
    assert_eq!(last.text.kind, MessageKind::NoEnemyClose);
}

#[test]
fn confusion_wraps_prior_state() {
    let mut game = empty_game();
    let player = test_player(10, 10);
    let orc = Monster::create(Monster::Orc, 12, 10);
    let mut objects = vec![player, orc];
    let r = cast_confusion(Some(1), &mut game, &mut objects);
    assert_eq!(r, UseResult::UsedUp);
    match &objects[1].ai {
        Some(Ai::Confused { previous_ai, lasts_for }) => {
            assert_eq!(**previous_ai, Ai::Basic);
            assert_eq!(*lasts_for, CONFUSE_NUM_TURNS);
        },
        other => panic!("expected confusion, found {:?}", other),
    }
}

#[test]
fn intents_map_to_actions() {
    let mut game = empty_game();
    let fov = blind_fov();
    let player = test_player(10, 10);
    let mut objects = vec![player];

    let a = handle_intent(Intent::Wait, &mut game, &mut objects, &fov);
    assert_eq!(a, PlayerAction::TookTurn);
    let a = handle_intent(Intent::Exit, &mut game, &mut objects, &fov);
    assert_eq!(a, PlayerAction::Exit);
    let a = handle_intent(Intent::Move(1, 0), &mut game, &mut objects, &fov);
    assert_eq!(a, PlayerAction::TookTurn);
    assert_eq!((objects[0].x, objects[0].y), (11, 10));
    let a = handle_intent(Intent::PickUp, &mut game, &mut objects, &fov);
    assert_eq!(a, PlayerAction::DidntTakeTurn);
}

#[test]
fn dead_player_takes_no_action() {
    let mut game = empty_game();
    let fov = blind_fov();
    let mut player = test_player(10, 10);
    player.take_damage(1000, &mut game.messages);
    let mut objects = vec![player];
    let before = game.messages.len();
    let a = handle_intent(Intent::Move(1, 0), &mut game, &mut objects, &fov);
    assert_eq!(a, PlayerAction::DidntTakeTurn);
    assert_eq!((objects[0].x, objects[0].y), (10, 10));
    assert_eq!(game.messages.len(), before);
}

#[test]
fn use_item_on_non_item_complains() {
    let mut game = empty_game();
    let fov = blind_fov();
    let player = test_player(10, 10);
    let stone = Object::new(1, 1, '*', ColorTag::White, Name::fresh(NameKind::Dagger), false);
    game.inventory.push(stone);
    let mut objects = vec![player];
    let r = Item::use_item(0, Selection::Unneeded, &mut game, &mut objects, &fov);
    assert_eq!(r, UseResult::Cancelled);
    let last = game.messages.entry_at(game.messages.len() - 1);
    assert_eq!(last.text.kind, MessageKind::CantBeUsed);
    assert_eq!(game.inventory.len(), 1);
}

#[test]
fn fresh_session_is_well_formed() {
    let (game, objects) = chasm::game::new_game();
    assert!(session_wf_check(&game, &objects));
    assert_eq!(game.dungeon_level, 1);
    assert_eq!(game.inventory.len(), 1);
    assert!(game.inventory[0].equipment.as_ref().unwrap().equipped);
    assert_eq!(game.messages.len(), 1);
    assert_eq!(game.messages.entry_at(0).text.kind, MessageKind::Welcome);
    // the player holds slot 0; the stairs close the collection
    assert_eq!(objects[0].name, Name { kind: NameKind::Player, remains: false });
    let stairs = objects.last().unwrap();
    assert_eq!(stairs.name, Name { kind: NameKind::Stairs, remains: false });
    assert!(stairs.always_visible);
    assert!(!stairs.blocks);
    // the player starts on a carved, walkable tile (a room center)
    let tile = game.map.tile_at(objects[0].x, objects[0].y);
    assert!(!tile.blocked);
    // a fresh map has nothing explored yet
    for x in 0..MAP_WIDTH {
        for y in 0..MAP_HEIGHT {
            assert!(!game.map.tile_at(x, y).explored);
        }
    }
    // every spawned monster starts in the Basic state, and the first level
    // is too shallow for trolls
    for o in objects.iter().skip(1) {
        if o.ai.is_some() {
            assert_eq!(o.ai, Some(Ai::Basic));
            assert_eq!(o.name, Name { kind: NameKind::Orc, remains: false });
        }
    }
}

#[test]
fn visibility_marks_explored_monotonically() {
    let mut game = empty_game();
    let mut fov = blind_fov();
    fov.cells[3][4] = true;
    chasm::game::mark_explored(&mut game, &fov);
    assert!(game.map.tile_at(3, 4).explored);
    assert!(!game.map.tile_at(5, 5).explored);
    // an explored tile never reverts, even once out of sight
    let dark = blind_fov();
    chasm::game::mark_explored(&mut game, &dark);
    assert!(game.map.tile_at(3, 4).explored);
}

#[test]
fn descending_rebuilds_the_level() {
    let (mut game, mut objects) = chasm::game::new_game();
    chasm::game::next_level(&mut game, &mut objects);
    assert_eq!(game.dungeon_level, 2);
    assert!(session_wf_check(&game, &objects));
    let kinds: Vec<MessageKind> = (0..game.messages.len())
        .map(|i| game.messages.entry_at(i).text.kind)
        .collect();
    assert!(kinds.contains(&MessageKind::Rest));
    assert!(kinds.contains(&MessageKind::DescendDeeper));
}

#[test]
fn fireball_burns_everything_in_radius() {
    let mut game = empty_game();
    let player = test_player(10, 10);
    let near_orc = Monster::create(Monster::Orc, 12, 10);
    let far_troll = Monster::create(Monster::Troll, 30, 30);
    let mut objects = vec![player, near_orc, far_troll];
    let r = cast_fireball(Some((11, 10)), &mut game, &mut objects);
    assert_eq!(r, UseResult::UsedUp);
    // the orc (20 hp) dies to the 25-point blast and rewards the player;
    // the player stands in the blast too and burns, with no reward for it
    assert!(objects[1].fighter.is_none());
    assert_eq!(
        objects[0].fighter.as_ref().unwrap().hp,
        100 - FIREBALL_DAMAGE
    );
    assert_eq!(objects[0].fighter.as_ref().unwrap().xp, 35);
    // the troll is out of range
    assert_eq!(objects[2].fighter.as_ref().unwrap().hp, 30);
}

#[test]
fn cancelled_fireball_spends_nothing() {
    let mut game = empty_game();
    let player = test_player(10, 10);
    let mut objects = vec![player];
    let r = cast_fireball(None, &mut game, &mut objects);
    assert_eq!(r, UseResult::Cancelled);
    assert_eq!(objects[0].fighter.as_ref().unwrap().hp, 100);
}

#[test]
fn using_gear_toggles_it_and_keeps_it() {
    let mut game = empty_game();
    let fov = blind_fov();
    let player = test_player(5, 5);
    let mut objects = vec![player];
    let sword = Item::create(Item::Sword, 5, 5);
    game.inventory.push(sword);

    let r = Item::use_item(0, Selection::Unneeded, &mut game, &mut objects, &fov);
    assert_eq!(r, UseResult::UsedAndKept);
    assert!(game.inventory[0].equipment.as_ref().unwrap().equipped);

    let r = Item::use_item(0, Selection::Unneeded, &mut game, &mut objects, &fov);
    assert_eq!(r, UseResult::UsedAndKept);
    assert!(!game.inventory[0].equipment.as_ref().unwrap().equipped);
}

#[test]
fn wearing_gear_frees_its_slot_first() {
    let mut game = empty_game();
    let fov = blind_fov();
    let player = test_player(5, 5);
    let mut objects = vec![player];
    let mut first = Item::create(Item::Sword, 5, 5);
    first.equipment.as_mut().unwrap().equipped = true;
    let second = Item::create(Item::Sword, 5, 5);
    game.inventory.push(first);
    game.inventory.push(second);

    // wearing the second right-hand sword takes the first one off
    let r = Item::use_item(1, Selection::Unneeded, &mut game, &mut objects, &fov);
    assert_eq!(r, UseResult::UsedAndKept);
    assert!(!game.inventory[0].equipment.as_ref().unwrap().equipped);
    assert!(game.inventory[1].equipment.as_ref().unwrap().equipped);
    let n = game.messages.len();
    assert_eq!(game.messages.entry_at(n - 2).text.kind, MessageKind::Dequipped);
    assert_eq!(game.messages.entry_at(n - 1).text.kind, MessageKind::Equipped);
}

#[test]
fn used_potion_is_spent_and_cancelled_use_is_acknowledged() {
    let mut game = empty_game();
    let fov = blind_fov();
    let mut player = test_player(5, 5);
    player.fighter.as_mut().unwrap().hp = 50;
    let mut objects = vec![player];
    game.inventory.push(Item::create(Item::Heal, 5, 5));

    let r = Item::use_item(0, Selection::Unneeded, &mut game, &mut objects, &fov);
    assert_eq!(r, UseResult::UsedUp);
    assert_eq!(game.inventory.len(), 0);
    assert_eq!(objects[0].fighter.as_ref().unwrap().hp, 90);

    // at full strength the next potion is kept and the use acknowledged
    objects[0].fighter.as_mut().unwrap().hp = 100;
    game.inventory.push(Item::create(Item::Heal, 5, 5));
    let r = Item::use_item(0, Selection::Unneeded, &mut game, &mut objects, &fov);
    assert_eq!(r, UseResult::Cancelled);
    assert_eq!(game.inventory.len(), 1);
    let last = game.messages.entry_at(game.messages.len() - 1);
    assert_eq!(last.text.kind, MessageKind::Cancelled);
}
