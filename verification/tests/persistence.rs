//! Save and restore: the byte codec reproduces the session exactly.

use chasm::codec::{decode_session, encode_session};
use chasm::color::ColorTag;
use chasm::equipment::Slot;
use chasm::game::{new_game, session_wf_check, Game};
use chasm::item::Item;
use chasm::message::{LogText, MessageKind, Messages};
use chasm::monster::Monster;
use chasm::name::{Name, NameKind};
use chasm::object::Object;
use chasm::tile::{DungeonMap, Tile, MAP_HEIGHT, MAP_WIDTH};

fn assert_sessions_equal(a: &(Game, Vec<Object>), b: &(Game, Vec<Object>)) {
    assert_eq!(a.0.map.tiles, b.0.map.tiles);
    assert_eq!(a.0.messages.entries, b.0.messages.entries);
    assert_eq!(a.0.inventory, b.0.inventory);
    assert_eq!(a.0.dungeon_level, b.0.dungeon_level);
    assert_eq!(a.1, b.1);
}

#[test]
fn fresh_session_round_trips() {
    let (game, objects) = new_game();
    let bytes = encode_session(&game, &objects);
    let restored = decode_session(&bytes).expect("a fresh session must decode");
    assert_sessions_equal(&(game, objects), &restored);
    assert!(session_wf_check(&restored.0, &restored.1));
}

#[test]
fn played_session_round_trips() {
    // a session with combat scars, a confused monster, gear and log entries
    let (mut game, mut objects) = new_game();
    let mut orc = Monster::create(Monster::Orc, 2, 2);
    orc.take_damage(5, &mut game.messages);
    orc.ai = Some(chasm::ai::Ai::Confused {
        previous_ai: Box::new(chasm::ai::Ai::Basic),
        lasts_for: 7,
    });
    objects.push(orc);
    let shield = Item::create(Item::Shield, 3, 3);
    game.inventory.push(shield);
    game.messages.add(
        LogText::slotted(MessageKind::Equipped, Name::fresh(NameKind::Shield), Slot::LeftHand),
        ColorTag::LightGreen,
    );

    let bytes = encode_session(&game, &objects);
    let restored = decode_session(&bytes).expect("a played session must decode");
    assert_sessions_equal(&(game, objects), &restored);
}

#[test]
fn truncated_document_is_rejected() {
    let (game, objects) = new_game();
    let mut bytes = encode_session(&game, &objects);
    bytes.pop();
    assert!(decode_session(&bytes).is_none());
}

#[test]
fn trailing_garbage_is_rejected() {
    let (game, objects) = new_game();
    let mut bytes = encode_session(&game, &objects);
    bytes.push(0);
    assert!(decode_session(&bytes).is_none());
}

#[test]
fn arbitrary_bytes_are_rejected() {
    let junk: Vec<u8> = vec![9, 8, 7, 6, 5, 4, 3, 2, 1, 0];
    assert!(decode_session(&junk).is_none());
    let empty: Vec<u8> = Vec::new();
    assert!(decode_session(&empty).is_none());
}

#[test]
fn tile_flags_survive_the_trip() {
    let (mut game, objects) = new_game();
    // exploration marks set by the visibility collaborator are part of the state
    let mut tile = game.map.tile_at(1, 1);
    tile.explored = true;
    game.map.set_tile(1, 1, tile);
    let bytes = encode_session(&game, &objects);
    let restored = decode_session(&bytes).expect("must decode");
    assert!(restored.0.map.tile_at(1, 1).explored);
    assert_eq!(restored.0.map.tiles, game.map.tiles);
}

#[test]
fn empty_log_and_inventory_round_trip() {
    let mut map = DungeonMap::all_walls();
    map.set_tile(4, 4, Tile::empty());
    let game = Game {
        map,
        messages: Messages::new(),
        inventory: Vec::new(),
        dungeon_level: 3,
    };
    let mut player = Object::new(4, 4, '@', ColorTag::White, Name::fresh(NameKind::Player), true);
    player.alive = true;
    let objects = vec![player];
    let bytes = encode_session(&game, &objects);
    let restored = decode_session(&bytes).expect("must decode");
    assert_eq!(restored.0.messages.entries.len(), 0);
    assert_eq!(restored.0.inventory.len(), 0);
    assert_eq!(restored.0.dungeon_level, 3);
    assert_eq!(restored.1, objects);
    assert_eq!(restored.0.map.tiles.len(), MAP_WIDTH as usize);
    assert_eq!(restored.0.map.tiles[0].len(), MAP_HEIGHT as usize);
}
