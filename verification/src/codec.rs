//! Whole-state persistence: a byte codec for the full session.
//!
//! The encoding is a plain byte stream — little-endian integers, one tag
//! byte per enum variant, a count before each list — with a proved round
//! trip: decoding an encoded session yields exactly the session that was
//! encoded. The caller writes and reads the byte stream as one document.

use vstd::prelude::*;

use crate::ai::Ai;
use crate::color::ColorTag;
use crate::equipment::{Equipment, Slot};
use crate::fighter::{DeathCallback, Fighter};
use crate::item::Item;
use crate::game::Game;
use crate::message::{LogEntry, LogText, MessageKind, Messages};
use crate::name::{Name, NameKind};
use crate::object::Object;
use crate::tile::{DungeonMap, Tile};

verus! {

/// Whether an executable decoder's answer agrees with the specification
/// decoder's.
pub open spec fn dec_matches<T>(r: Option<(T, usize)>, s: Option<(T, int)>) -> bool {
    match (r, s) {
        (Some((v, p)), Some((w, q))) => v == w && p == q,
        (None, None) => true,
        _ => false,
    }
}

/// Encoding of a boolean: one byte, 0 or 1.
pub open spec fn spec_enc_bool(b: bool) -> Seq<u8> {
    seq![if b { 1u8 } else { 0u8 }]
}

/// Decoding of a boolean; any byte other than 0 or 1 is malformed.
pub open spec fn spec_dec_bool(bs: Seq<u8>, pos: int) -> Option<(bool, int)> {
    if 0 <= pos && pos + 1 <= bs.len() {
        if bs[pos] == 0 {
            Some((false, pos + 1))
        } else if bs[pos] == 1 {
            Some((true, pos + 1))
        } else {
            None
        }
    } else {
        None
    }
}

fn enc_bool(out: &mut Vec<u8>, b: bool)
    ensures
        final(out)@ == old(out)@ + spec_enc_bool(b),
{
    out.push(
        if b {
            1
        } else {
            0
        },
    );
    proof {
        assert(out@ =~= old(out)@ + spec_enc_bool(b));
    }
}

fn dec_bool(bs: &Vec<u8>, pos: usize) -> (r: Option<(bool, usize)>)
    ensures
        dec_matches(r, spec_dec_bool(bs@, pos as int)),
{
    if pos < bs.len() {
        let b = bs[pos];
        if b == 0 {
            Some((false, pos + 1))
        } else if b == 1 {
            Some((true, pos + 1))
        } else {
            None
        }
    } else {
        None
    }
}

/// Decoding inverts encoding for booleans.
pub proof fn lemma_rt_bool(bs: Seq<u8>, pos: int, b: bool)
    requires
        0 <= pos,
        pos + 1 <= bs.len(),
        bs.subrange(pos, pos + 1) == spec_enc_bool(b),
    ensures
        spec_dec_bool(bs, pos) == Some((b, pos + 1)),
{
    assert(bs[pos] == bs.subrange(pos, pos + 1)[0]);
}

/// Encoding of a 32-bit unsigned integer: four bytes, little-endian.
pub open spec fn spec_enc_u32(x: u32) -> Seq<u8> {
    seq![
        (x % 256) as u8,
        ((x / 256) % 256) as u8,
        ((x / 65536) % 256) as u8,
        ((x / 16777216) % 256) as u8,
    ]
}

/// Decoding of a 32-bit unsigned integer.
pub open spec fn spec_dec_u32(bs: Seq<u8>, pos: int) -> Option<(u32, int)> {
    if 0 <= pos && pos + 4 <= bs.len() {
        Some(
            (
                (bs[pos] + 256 * bs[pos + 1] + 65536 * bs[pos + 2] + 16777216 * bs[pos
                    + 3]) as u32,
                pos + 4,
            ),
        )
    } else {
        None
    }
}

fn enc_u32(out: &mut Vec<u8>, x: u32)
    ensures
        final(out)@ == old(out)@ + spec_enc_u32(x),
{
    out.push((x % 256) as u8);
    out.push(((x / 256) % 256) as u8);
    out.push(((x / 65536) % 256) as u8);
    out.push(((x / 16777216) % 256) as u8);
    proof {
        assert(out@ =~= old(out)@ + spec_enc_u32(x));
    }
}

fn dec_u32(bs: &Vec<u8>, pos: usize) -> (r: Option<(u32, usize)>)
    ensures
        dec_matches(r, spec_dec_u32(bs@, pos as int)),
{
    if pos < bs.len() && bs.len() - pos >= 4 {
        let b0 = bs[pos] as u32;
        let b1 = bs[pos + 1] as u32;
        let b2 = bs[pos + 2] as u32;
        let b3 = bs[pos + 3] as u32;
        Some((b0 + 256 * b1 + 65536 * b2 + 16777216 * b3, pos + 4))
    } else {
        None
    }
}

/// Decoding inverts encoding for 32-bit unsigned integers.
pub proof fn lemma_rt_u32(bs: Seq<u8>, pos: int, x: u32)
    requires
        0 <= pos,
        pos + 4 <= bs.len(),
        bs.subrange(pos, pos + 4) == spec_enc_u32(x),
    ensures
        spec_dec_u32(bs, pos) == Some((x, pos + 4)),
{
    let sub = bs.subrange(pos, pos + 4);
    assert(bs[pos] == sub[0]);
    assert(bs[pos + 1] == sub[1]);
    assert(bs[pos + 2] == sub[2]);
    assert(bs[pos + 3] == sub[3]);
    assert(x % 256 + 256 * ((x / 256) % 256) + 65536 * ((x / 65536) % 256) + 16777216 * ((x
        / 16777216) % 256) == x) by (nonlinear_arith);
}

/// Encoding of a 32-bit signed integer: shifted into unsigned range first.
pub open spec fn spec_enc_i32(x: i32) -> Seq<u8> {
    spec_enc_u32((x + 0x80000000i64) as u32)
}

/// Decoding of a 32-bit signed integer.
pub open spec fn spec_dec_i32(bs: Seq<u8>, pos: int) -> Option<(i32, int)> {
    match spec_dec_u32(bs, pos) {
        Some((u, p)) => Some(((u - 0x80000000i64) as i32, p)),
        None => None,
    }
}

fn enc_i32(out: &mut Vec<u8>, x: i32)
    ensures
        final(out)@ == old(out)@ + spec_enc_i32(x),
{
    let shifted = (x as i64 + 0x80000000i64) as u32;
    enc_u32(out, shifted);
}

fn dec_i32(bs: &Vec<u8>, pos: usize) -> (r: Option<(i32, usize)>)
    ensures
        dec_matches(r, spec_dec_i32(bs@, pos as int)),
{
    match dec_u32(bs, pos) {
        Some((u, p)) => Some(((u as i64 - 0x80000000i64) as i32, p)),
        None => None,
    }
}

/// Decoding inverts encoding for 32-bit signed integers.
pub proof fn lemma_rt_i32(bs: Seq<u8>, pos: int, x: i32)
    requires
        0 <= pos,
        pos + 4 <= bs.len(),
        bs.subrange(pos, pos + 4) == spec_enc_i32(x),
    ensures
        spec_dec_i32(bs, pos) == Some((x, pos + 4)),
{
    lemma_rt_u32(bs, pos, (x + 0x80000000i64) as u32);
}

/// Encoding of a character: its code point.
pub open spec fn spec_enc_char(c: char) -> Seq<u8> {
    spec_enc_u32(c as u32)
}

/// Decoding of a character; code points at or above the surrogate range are
/// treated as malformed, matching what the kernel's entities may carry.
pub open spec fn spec_dec_char(bs: Seq<u8>, pos: int) -> Option<(char, int)> {
    match spec_dec_u32(bs, pos) {
        Some((u, p)) => if u < 0xD800 {
            Some((u as char, p))
        } else {
            None
        },
        None => None,
    }
}

/// Relies on `char::from_u32` of core: every code point below the surrogate
/// range is a valid character, namely the one with that code point.
pub assume_specification[ char::from_u32 ](u: u32) -> (c: Option<char>)
    ensures
        u < 0xD800 ==> c == Some(u as char),
;

fn enc_char(out: &mut Vec<u8>, c: char)
    ensures
        final(out)@ == old(out)@ + spec_enc_char(c),
{
    enc_u32(out, c as u32);
}

fn dec_char(bs: &Vec<u8>, pos: usize) -> (r: Option<(char, usize)>)
    ensures
        dec_matches(r, spec_dec_char(bs@, pos as int)),
{
    match dec_u32(bs, pos) {
        Some((u, p)) => {
            if u < 0xD800 {
                match char::from_u32(u) {
                    Some(c) => Some((c, p)),
                    None => None,
                }
            } else {
                None
            }
        },
        None => None,
    }
}

/// Decoding inverts encoding for characters below the surrogate range.
pub proof fn lemma_rt_char(bs: Seq<u8>, pos: int, c: char)
    requires
        0 <= pos,
        pos + 4 <= bs.len(),
        bs.subrange(pos, pos + 4) == spec_enc_char(c),
        (c as u32) < 0xD800,
    ensures
        spec_dec_char(bs, pos) == Some((c, pos + 4)),
{
    lemma_rt_u32(bs, pos, c as u32);
}

/// Encoding of a `ColorTag`: one tag byte.
pub open spec fn spec_enc_color_tag(v: ColorTag) -> Seq<u8> {
    seq![
        match v {
            ColorTag::White => 0u8,
            ColorTag::Red => 1u8,
            ColorTag::Green => 2u8,
            ColorTag::Yellow => 3u8,
            ColorTag::Violet => 4u8,
            ColorTag::LightViolet => 5u8,
            ColorTag::LightGreen => 6u8,
            ColorTag::LightCyan => 7u8,
            ColorTag::LightBlue => 8u8,
            ColorTag::Orange => 9u8,
            ColorTag::Sky => 10u8,
            ColorTag::DarkerOrange => 11u8,
            ColorTag::LightYellow => 12u8,
            ColorTag::DesaturatedGreen => 13u8,
            ColorTag::DarkerGreen => 14u8,
            ColorTag::DarkRed => 15u8,
        },
    ]
}

/// Decoding of a `ColorTag`.
pub open spec fn spec_dec_color_tag(bs: Seq<u8>, pos: int) -> Option<(ColorTag, int)> {
    if 0 <= pos && pos + 1 <= bs.len() {
        if bs[pos] == 0 {
            Some((ColorTag::White, pos + 1))
        } else if bs[pos] == 1 {
            Some((ColorTag::Red, pos + 1))
        } else if bs[pos] == 2 {
            Some((ColorTag::Green, pos + 1))
        } else if bs[pos] == 3 {
            Some((ColorTag::Yellow, pos + 1))
        } else if bs[pos] == 4 {
            Some((ColorTag::Violet, pos + 1))
        } else if bs[pos] == 5 {
            Some((ColorTag::LightViolet, pos + 1))
        } else if bs[pos] == 6 {
            Some((ColorTag::LightGreen, pos + 1))
        } else if bs[pos] == 7 {
            Some((ColorTag::LightCyan, pos + 1))
        } else if bs[pos] == 8 {
            Some((ColorTag::LightBlue, pos + 1))
        } else if bs[pos] == 9 {
            Some((ColorTag::Orange, pos + 1))
        } else if bs[pos] == 10 {
            Some((ColorTag::Sky, pos + 1))
        } else if bs[pos] == 11 {
            Some((ColorTag::DarkerOrange, pos + 1))
        } else if bs[pos] == 12 {
            Some((ColorTag::LightYellow, pos + 1))
        } else if bs[pos] == 13 {
            Some((ColorTag::DesaturatedGreen, pos + 1))
        } else if bs[pos] == 14 {
            Some((ColorTag::DarkerGreen, pos + 1))
        } else if bs[pos] == 15 {
            Some((ColorTag::DarkRed, pos + 1))
        } else {
            None
        }
    } else {
        None
    }
}

fn enc_color_tag(out: &mut Vec<u8>, v: ColorTag)
    ensures
        final(out)@ == old(out)@ + spec_enc_color_tag(v),
{
    out.push(
        match v {
            ColorTag::White => 0u8,
            ColorTag::Red => 1u8,
            ColorTag::Green => 2u8,
            ColorTag::Yellow => 3u8,
            ColorTag::Violet => 4u8,
            ColorTag::LightViolet => 5u8,
            ColorTag::LightGreen => 6u8,
            ColorTag::LightCyan => 7u8,
            ColorTag::LightBlue => 8u8,
            ColorTag::Orange => 9u8,
            ColorTag::Sky => 10u8,
            ColorTag::DarkerOrange => 11u8,
            ColorTag::LightYellow => 12u8,
            ColorTag::DesaturatedGreen => 13u8,
            ColorTag::DarkerGreen => 14u8,
            ColorTag::DarkRed => 15u8,
        },
    );
    proof {
        assert(out@ =~= old(out)@ + spec_enc_color_tag(v));
    }
}

fn dec_color_tag(bs: &Vec<u8>, pos: usize) -> (r: Option<(ColorTag, usize)>)
    ensures
        dec_matches(r, spec_dec_color_tag(bs@, pos as int)),
{
    if pos < bs.len() {
        let b = bs[pos];
        if b == 0 {
            Some((ColorTag::White, pos + 1))
        } else if b == 1 {
            Some((ColorTag::Red, pos + 1))
        } else if b == 2 {
            Some((ColorTag::Green, pos + 1))
        } else if b == 3 {
            Some((ColorTag::Yellow, pos + 1))
        } else if b == 4 {
            Some((ColorTag::Violet, pos + 1))
        } else if b == 5 {
            Some((ColorTag::LightViolet, pos + 1))
        } else if b == 6 {
            Some((ColorTag::LightGreen, pos + 1))
        } else if b == 7 {
            Some((ColorTag::LightCyan, pos + 1))
        } else if b == 8 {
            Some((ColorTag::LightBlue, pos + 1))
        } else if b == 9 {
            Some((ColorTag::Orange, pos + 1))
        } else if b == 10 {
            Some((ColorTag::Sky, pos + 1))
        } else if b == 11 {
            Some((ColorTag::DarkerOrange, pos + 1))
        } else if b == 12 {
            Some((ColorTag::LightYellow, pos + 1))
        } else if b == 13 {
            Some((ColorTag::DesaturatedGreen, pos + 1))
        } else if b == 14 {
            Some((ColorTag::DarkerGreen, pos + 1))
        } else if b == 15 {
            Some((ColorTag::DarkRed, pos + 1))
        } else {
            None
        }
    } else {
        None
    }
}

/// Decoding inverts encoding for `ColorTag`.
pub proof fn lemma_rt_color_tag(bs: Seq<u8>, pos: int, v: ColorTag)
    requires
        0 <= pos,
        pos + 1 <= bs.len(),
        bs.subrange(pos, pos + 1) == spec_enc_color_tag(v),
    ensures
        spec_dec_color_tag(bs, pos) == Some((v, pos + 1)),
{
    assert(bs[pos] == bs.subrange(pos, pos + 1)[0]);
}

/// Encoding of a `NameKind`: one tag byte.
pub open spec fn spec_enc_name_kind(v: NameKind) -> Seq<u8> {
    seq![
        match v {
            NameKind::Player => 0u8,
            NameKind::Orc => 1u8,
            NameKind::Troll => 2u8,
            NameKind::Stairs => 3u8,
            NameKind::Dagger => 4u8,
            NameKind::Sword => 5u8,
            NameKind::Shield => 6u8,
            NameKind::HealingPotion => 7u8,
            NameKind::LightningScroll => 8u8,
            NameKind::FireballScroll => 9u8,
            NameKind::ConfusionScroll => 10u8,
        },
    ]
}

/// Decoding of a `NameKind`.
pub open spec fn spec_dec_name_kind(bs: Seq<u8>, pos: int) -> Option<(NameKind, int)> {
    if 0 <= pos && pos + 1 <= bs.len() {
        if bs[pos] == 0 {
            Some((NameKind::Player, pos + 1))
        } else if bs[pos] == 1 {
            Some((NameKind::Orc, pos + 1))
        } else if bs[pos] == 2 {
            Some((NameKind::Troll, pos + 1))
        } else if bs[pos] == 3 {
            Some((NameKind::Stairs, pos + 1))
        } else if bs[pos] == 4 {
            Some((NameKind::Dagger, pos + 1))
        } else if bs[pos] == 5 {
            Some((NameKind::Sword, pos + 1))
        } else if bs[pos] == 6 {
            Some((NameKind::Shield, pos + 1))
        } else if bs[pos] == 7 {
            Some((NameKind::HealingPotion, pos + 1))
        } else if bs[pos] == 8 {
            Some((NameKind::LightningScroll, pos + 1))
        } else if bs[pos] == 9 {
            Some((NameKind::FireballScroll, pos + 1))
        } else if bs[pos] == 10 {
            Some((NameKind::ConfusionScroll, pos + 1))
        } else {
            None
        }
    } else {
        None
    }
}

fn enc_name_kind(out: &mut Vec<u8>, v: NameKind)
    ensures
        final(out)@ == old(out)@ + spec_enc_name_kind(v),
{
    out.push(
        match v {
            NameKind::Player => 0u8,
            NameKind::Orc => 1u8,
            NameKind::Troll => 2u8,
            NameKind::Stairs => 3u8,
            NameKind::Dagger => 4u8,
            NameKind::Sword => 5u8,
            NameKind::Shield => 6u8,
            NameKind::HealingPotion => 7u8,
            NameKind::LightningScroll => 8u8,
            NameKind::FireballScroll => 9u8,
            NameKind::ConfusionScroll => 10u8,
        },
    );
    proof {
        assert(out@ =~= old(out)@ + spec_enc_name_kind(v));
    }
}

fn dec_name_kind(bs: &Vec<u8>, pos: usize) -> (r: Option<(NameKind, usize)>)
    ensures
        dec_matches(r, spec_dec_name_kind(bs@, pos as int)),
{
    if pos < bs.len() {
        let b = bs[pos];
        if b == 0 {
            Some((NameKind::Player, pos + 1))
        } else if b == 1 {
            Some((NameKind::Orc, pos + 1))
        } else if b == 2 {
            Some((NameKind::Troll, pos + 1))
        } else if b == 3 {
            Some((NameKind::Stairs, pos + 1))
        } else if b == 4 {
            Some((NameKind::Dagger, pos + 1))
        } else if b == 5 {
            Some((NameKind::Sword, pos + 1))
        } else if b == 6 {
            Some((NameKind::Shield, pos + 1))
        } else if b == 7 {
            Some((NameKind::HealingPotion, pos + 1))
        } else if b == 8 {
            Some((NameKind::LightningScroll, pos + 1))
        } else if b == 9 {
            Some((NameKind::FireballScroll, pos + 1))
        } else if b == 10 {
            Some((NameKind::ConfusionScroll, pos + 1))
        } else {
            None
        }
    } else {
        None
    }
}

/// Decoding inverts encoding for `NameKind`.
pub proof fn lemma_rt_name_kind(bs: Seq<u8>, pos: int, v: NameKind)
    requires
        0 <= pos,
        pos + 1 <= bs.len(),
        bs.subrange(pos, pos + 1) == spec_enc_name_kind(v),
    ensures
        spec_dec_name_kind(bs, pos) == Some((v, pos + 1)),
{
    assert(bs[pos] == bs.subrange(pos, pos + 1)[0]);
}

/// Encoding of a `Slot`: one tag byte.
pub open spec fn spec_enc_slot(v: Slot) -> Seq<u8> {
    seq![
        match v {
            Slot::LeftHand => 0u8,
            Slot::RightHand => 1u8,
            Slot::Head => 2u8,
        },
    ]
}

/// Decoding of a `Slot`.
pub open spec fn spec_dec_slot(bs: Seq<u8>, pos: int) -> Option<(Slot, int)> {
    if 0 <= pos && pos + 1 <= bs.len() {
        if bs[pos] == 0 {
            Some((Slot::LeftHand, pos + 1))
        } else if bs[pos] == 1 {
            Some((Slot::RightHand, pos + 1))
        } else if bs[pos] == 2 {
            Some((Slot::Head, pos + 1))
        } else {
            None
        }
    } else {
        None
    }
}

fn enc_slot(out: &mut Vec<u8>, v: Slot)
    ensures
        final(out)@ == old(out)@ + spec_enc_slot(v),
{
    out.push(
        match v {
            Slot::LeftHand => 0u8,
            Slot::RightHand => 1u8,
            Slot::Head => 2u8,
        },
    );
    proof {
        assert(out@ =~= old(out)@ + spec_enc_slot(v));
    }
}

fn dec_slot(bs: &Vec<u8>, pos: usize) -> (r: Option<(Slot, usize)>)
    ensures
        dec_matches(r, spec_dec_slot(bs@, pos as int)),
{
    if pos < bs.len() {
        let b = bs[pos];
        if b == 0 {
            Some((Slot::LeftHand, pos + 1))
        } else if b == 1 {
            Some((Slot::RightHand, pos + 1))
        } else if b == 2 {
            Some((Slot::Head, pos + 1))
        } else {
            None
        }
    } else {
        None
    }
}

/// Decoding inverts encoding for `Slot`.
pub proof fn lemma_rt_slot(bs: Seq<u8>, pos: int, v: Slot)
    requires
        0 <= pos,
        pos + 1 <= bs.len(),
        bs.subrange(pos, pos + 1) == spec_enc_slot(v),
    ensures
        spec_dec_slot(bs, pos) == Some((v, pos + 1)),
{
    assert(bs[pos] == bs.subrange(pos, pos + 1)[0]);
}

/// Encoding of a `Item`: one tag byte.
pub open spec fn spec_enc_item_kind(v: Item) -> Seq<u8> {
    seq![
        match v {
            Item::Heal => 0u8,
            Item::Lightning => 1u8,
            Item::Confusion => 2u8,
            Item::Fireball => 3u8,
            Item::Sword => 4u8,
            Item::Shield => 5u8,
        },
    ]
}

/// Decoding of a `Item`.
pub open spec fn spec_dec_item_kind(bs: Seq<u8>, pos: int) -> Option<(Item, int)> {
    if 0 <= pos && pos + 1 <= bs.len() {
        if bs[pos] == 0 {
            Some((Item::Heal, pos + 1))
        } else if bs[pos] == 1 {
            Some((Item::Lightning, pos + 1))
        } else if bs[pos] == 2 {
            Some((Item::Confusion, pos + 1))
        } else if bs[pos] == 3 {
            Some((Item::Fireball, pos + 1))
        } else if bs[pos] == 4 {
            Some((Item::Sword, pos + 1))
        } else if bs[pos] == 5 {
            Some((Item::Shield, pos + 1))
        } else {
            None
        }
    } else {
        None
    }
}

fn enc_item_kind(out: &mut Vec<u8>, v: Item)
    ensures
        final(out)@ == old(out)@ + spec_enc_item_kind(v),
{
    out.push(
        match v {
            Item::Heal => 0u8,
            Item::Lightning => 1u8,
            Item::Confusion => 2u8,
            Item::Fireball => 3u8,
            Item::Sword => 4u8,
            Item::Shield => 5u8,
        },
    );
    proof {
        assert(out@ =~= old(out)@ + spec_enc_item_kind(v));
    }
}

fn dec_item_kind(bs: &Vec<u8>, pos: usize) -> (r: Option<(Item, usize)>)
    ensures
        dec_matches(r, spec_dec_item_kind(bs@, pos as int)),
{
    if pos < bs.len() {
        let b = bs[pos];
        if b == 0 {
            Some((Item::Heal, pos + 1))
        } else if b == 1 {
            Some((Item::Lightning, pos + 1))
        } else if b == 2 {
            Some((Item::Confusion, pos + 1))
        } else if b == 3 {
            Some((Item::Fireball, pos + 1))
        } else if b == 4 {
            Some((Item::Sword, pos + 1))
        } else if b == 5 {
            Some((Item::Shield, pos + 1))
        } else {
            None
        }
    } else {
        None
    }
}

/// Decoding inverts encoding for `Item`.
pub proof fn lemma_rt_item_kind(bs: Seq<u8>, pos: int, v: Item)
    requires
        0 <= pos,
        pos + 1 <= bs.len(),
        bs.subrange(pos, pos + 1) == spec_enc_item_kind(v),
    ensures
        spec_dec_item_kind(bs, pos) == Some((v, pos + 1)),
{
    assert(bs[pos] == bs.subrange(pos, pos + 1)[0]);
}

/// Encoding of a `MessageKind`: one tag byte.
pub open spec fn spec_enc_message_kind(v: MessageKind) -> Seq<u8> {
    seq![
        match v {
            MessageKind::Attack => 0u8,
            MessageKind::NoEffect => 1u8,
            MessageKind::PlayerDied => 2u8,
            MessageKind::MonsterDied => 3u8,
            MessageKind::CantEquipNotItem => 4u8,
            MessageKind::CantEquipNotEquipment => 5u8,
            MessageKind::Equipped => 6u8,
            MessageKind::CantDequipNotItem => 7u8,
            MessageKind::CantDequipNotEquipment => 8u8,
            MessageKind::Dequipped => 9u8,
            MessageKind::LevelUp => 10u8,
            MessageKind::InventoryFull => 11u8,
            MessageKind::PickedUp => 12u8,
            MessageKind::Dropped => 13u8,
            MessageKind::AlreadyFullHealth => 14u8,
            MessageKind::WoundsFeelBetter => 15u8,
            MessageKind::LightningStrike => 16u8,
            MessageKind::NoEnemyClose => 17u8,
            MessageKind::ChooseConfuseTarget => 18u8,
            MessageKind::ConfuseStart => 19u8,
            MessageKind::NoLongerConfused => 20u8,
            MessageKind::ChooseFireballTile => 21u8,
            MessageKind::FireballExplodes => 22u8,
            MessageKind::Burned => 23u8,
            MessageKind::Cancelled => 24u8,
            MessageKind::CantBeUsed => 25u8,
            MessageKind::Rest => 26u8,
            MessageKind::DescendDeeper => 27u8,
            MessageKind::Welcome => 28u8,
        },
    ]
}

/// Decoding of a `MessageKind`.
pub open spec fn spec_dec_message_kind(bs: Seq<u8>, pos: int) -> Option<(MessageKind, int)> {
    if 0 <= pos && pos + 1 <= bs.len() {
        if bs[pos] == 0 {
            Some((MessageKind::Attack, pos + 1))
        } else if bs[pos] == 1 {
            Some((MessageKind::NoEffect, pos + 1))
        } else if bs[pos] == 2 {
            Some((MessageKind::PlayerDied, pos + 1))
        } else if bs[pos] == 3 {
            Some((MessageKind::MonsterDied, pos + 1))
        } else if bs[pos] == 4 {
            Some((MessageKind::CantEquipNotItem, pos + 1))
        } else if bs[pos] == 5 {
            Some((MessageKind::CantEquipNotEquipment, pos + 1))
        } else if bs[pos] == 6 {
            Some((MessageKind::Equipped, pos + 1))
        } else if bs[pos] == 7 {
            Some((MessageKind::CantDequipNotItem, pos + 1))
        } else if bs[pos] == 8 {
            Some((MessageKind::CantDequipNotEquipment, pos + 1))
        } else if bs[pos] == 9 {
            Some((MessageKind::Dequipped, pos + 1))
        } else if bs[pos] == 10 {
            Some((MessageKind::LevelUp, pos + 1))
        } else if bs[pos] == 11 {
            Some((MessageKind::InventoryFull, pos + 1))
        } else if bs[pos] == 12 {
            Some((MessageKind::PickedUp, pos + 1))
        } else if bs[pos] == 13 {
            Some((MessageKind::Dropped, pos + 1))
        } else if bs[pos] == 14 {
            Some((MessageKind::AlreadyFullHealth, pos + 1))
        } else if bs[pos] == 15 {
            Some((MessageKind::WoundsFeelBetter, pos + 1))
        } else if bs[pos] == 16 {
            Some((MessageKind::LightningStrike, pos + 1))
        } else if bs[pos] == 17 {
            Some((MessageKind::NoEnemyClose, pos + 1))
        } else if bs[pos] == 18 {
            Some((MessageKind::ChooseConfuseTarget, pos + 1))
        } else if bs[pos] == 19 {
            Some((MessageKind::ConfuseStart, pos + 1))
        } else if bs[pos] == 20 {
            Some((MessageKind::NoLongerConfused, pos + 1))
        } else if bs[pos] == 21 {
            Some((MessageKind::ChooseFireballTile, pos + 1))
        } else if bs[pos] == 22 {
            Some((MessageKind::FireballExplodes, pos + 1))
        } else if bs[pos] == 23 {
            Some((MessageKind::Burned, pos + 1))
        } else if bs[pos] == 24 {
            Some((MessageKind::Cancelled, pos + 1))
        } else if bs[pos] == 25 {
            Some((MessageKind::CantBeUsed, pos + 1))
        } else if bs[pos] == 26 {
            Some((MessageKind::Rest, pos + 1))
        } else if bs[pos] == 27 {
            Some((MessageKind::DescendDeeper, pos + 1))
        } else if bs[pos] == 28 {
            Some((MessageKind::Welcome, pos + 1))
        } else {
            None
        }
    } else {
        None
    }
}

fn enc_message_kind(out: &mut Vec<u8>, v: MessageKind)
    ensures
        final(out)@ == old(out)@ + spec_enc_message_kind(v),
{
    out.push(
        match v {
            MessageKind::Attack => 0u8,
            MessageKind::NoEffect => 1u8,
            MessageKind::PlayerDied => 2u8,
            MessageKind::MonsterDied => 3u8,
            MessageKind::CantEquipNotItem => 4u8,
            MessageKind::CantEquipNotEquipment => 5u8,
            MessageKind::Equipped => 6u8,
            MessageKind::CantDequipNotItem => 7u8,
            MessageKind::CantDequipNotEquipment => 8u8,
            MessageKind::Dequipped => 9u8,
            MessageKind::LevelUp => 10u8,
            MessageKind::InventoryFull => 11u8,
            MessageKind::PickedUp => 12u8,
            MessageKind::Dropped => 13u8,
            MessageKind::AlreadyFullHealth => 14u8,
            MessageKind::WoundsFeelBetter => 15u8,
            MessageKind::LightningStrike => 16u8,
            MessageKind::NoEnemyClose => 17u8,
            MessageKind::ChooseConfuseTarget => 18u8,
            MessageKind::ConfuseStart => 19u8,
            MessageKind::NoLongerConfused => 20u8,
            MessageKind::ChooseFireballTile => 21u8,
            MessageKind::FireballExplodes => 22u8,
            MessageKind::Burned => 23u8,
            MessageKind::Cancelled => 24u8,
            MessageKind::CantBeUsed => 25u8,
            MessageKind::Rest => 26u8,
            MessageKind::DescendDeeper => 27u8,
            MessageKind::Welcome => 28u8,
        },
    );
    proof {
        assert(out@ =~= old(out)@ + spec_enc_message_kind(v));
    }
}

fn dec_message_kind(bs: &Vec<u8>, pos: usize) -> (r: Option<(MessageKind, usize)>)
    ensures
        dec_matches(r, spec_dec_message_kind(bs@, pos as int)),
{
    if pos < bs.len() {
        let b = bs[pos];
        if b == 0 {
            Some((MessageKind::Attack, pos + 1))
        } else if b == 1 {
            Some((MessageKind::NoEffect, pos + 1))
        } else if b == 2 {
            Some((MessageKind::PlayerDied, pos + 1))
        } else if b == 3 {
            Some((MessageKind::MonsterDied, pos + 1))
        } else if b == 4 {
            Some((MessageKind::CantEquipNotItem, pos + 1))
        } else if b == 5 {
            Some((MessageKind::CantEquipNotEquipment, pos + 1))
        } else if b == 6 {
            Some((MessageKind::Equipped, pos + 1))
        } else if b == 7 {
            Some((MessageKind::CantDequipNotItem, pos + 1))
        } else if b == 8 {
            Some((MessageKind::CantDequipNotEquipment, pos + 1))
        } else if b == 9 {
            Some((MessageKind::Dequipped, pos + 1))
        } else if b == 10 {
            Some((MessageKind::LevelUp, pos + 1))
        } else if b == 11 {
            Some((MessageKind::InventoryFull, pos + 1))
        } else if b == 12 {
            Some((MessageKind::PickedUp, pos + 1))
        } else if b == 13 {
            Some((MessageKind::Dropped, pos + 1))
        } else if b == 14 {
            Some((MessageKind::AlreadyFullHealth, pos + 1))
        } else if b == 15 {
            Some((MessageKind::WoundsFeelBetter, pos + 1))
        } else if b == 16 {
            Some((MessageKind::LightningStrike, pos + 1))
        } else if b == 17 {
            Some((MessageKind::NoEnemyClose, pos + 1))
        } else if b == 18 {
            Some((MessageKind::ChooseConfuseTarget, pos + 1))
        } else if b == 19 {
            Some((MessageKind::ConfuseStart, pos + 1))
        } else if b == 20 {
            Some((MessageKind::NoLongerConfused, pos + 1))
        } else if b == 21 {
            Some((MessageKind::ChooseFireballTile, pos + 1))
        } else if b == 22 {
            Some((MessageKind::FireballExplodes, pos + 1))
        } else if b == 23 {
            Some((MessageKind::Burned, pos + 1))
        } else if b == 24 {
            Some((MessageKind::Cancelled, pos + 1))
        } else if b == 25 {
            Some((MessageKind::CantBeUsed, pos + 1))
        } else if b == 26 {
            Some((MessageKind::Rest, pos + 1))
        } else if b == 27 {
            Some((MessageKind::DescendDeeper, pos + 1))
        } else if b == 28 {
            Some((MessageKind::Welcome, pos + 1))
        } else {
            None
        }
    } else {
        None
    }
}

/// Decoding inverts encoding for `MessageKind`.
pub proof fn lemma_rt_message_kind(bs: Seq<u8>, pos: int, v: MessageKind)
    requires
        0 <= pos,
        pos + 1 <= bs.len(),
        bs.subrange(pos, pos + 1) == spec_enc_message_kind(v),
    ensures
        spec_dec_message_kind(bs, pos) == Some((v, pos + 1)),
{
    assert(bs[pos] == bs.subrange(pos, pos + 1)[0]);
}

/// Encoding of a `DeathCallback`: one tag byte.
pub open spec fn spec_enc_death_callback(v: DeathCallback) -> Seq<u8> {
    seq![
        match v {
            DeathCallback::Player => 0u8,
            DeathCallback::Monster => 1u8,
        },
    ]
}

/// Decoding of a `DeathCallback`.
pub open spec fn spec_dec_death_callback(bs: Seq<u8>, pos: int) -> Option<(DeathCallback, int)> {
    if 0 <= pos && pos + 1 <= bs.len() {
        if bs[pos] == 0 {
            Some((DeathCallback::Player, pos + 1))
        } else if bs[pos] == 1 {
            Some((DeathCallback::Monster, pos + 1))
        } else {
            None
        }
    } else {
        None
    }
}

fn enc_death_callback(out: &mut Vec<u8>, v: DeathCallback)
    ensures
        final(out)@ == old(out)@ + spec_enc_death_callback(v),
{
    out.push(
        match v {
            DeathCallback::Player => 0u8,
            DeathCallback::Monster => 1u8,
        },
    );
    proof {
        assert(out@ =~= old(out)@ + spec_enc_death_callback(v));
    }
}

fn dec_death_callback(bs: &Vec<u8>, pos: usize) -> (r: Option<(DeathCallback, usize)>)
    ensures
        dec_matches(r, spec_dec_death_callback(bs@, pos as int)),
{
    if pos < bs.len() {
        let b = bs[pos];
        if b == 0 {
            Some((DeathCallback::Player, pos + 1))
        } else if b == 1 {
            Some((DeathCallback::Monster, pos + 1))
        } else {
            None
        }
    } else {
        None
    }
}

/// Decoding inverts encoding for `DeathCallback`.
pub proof fn lemma_rt_death_callback(bs: Seq<u8>, pos: int, v: DeathCallback)
    requires
        0 <= pos,
        pos + 1 <= bs.len(),
        bs.subrange(pos, pos + 1) == spec_enc_death_callback(v),
    ensures
        spec_dec_death_callback(bs, pos) == Some((v, pos + 1)),
{
    assert(bs[pos] == bs.subrange(pos, pos + 1)[0]);
}

/// A located concatenation of two slices locates each half.
pub proof fn lemma_split_two(bs: Seq<u8>, q: int, a: Seq<u8>, b: Seq<u8>)
    requires
        0 <= q,
        q + a.len() + b.len() <= bs.len(),
        bs.subrange(q, q + a.len() + b.len()) == a + b,
    ensures
        bs.subrange(q, q + a.len() as int) == a,
        bs.subrange(q + a.len(), q + a.len() + b.len() as int) == b,
{
    assert(bs.subrange(q, q + a.len() as int) =~= a);
    assert forall|i: int| 0 <= i < b.len() implies bs[q + a.len() + i] == b[i] by {
        assert((a + b)[a.len() + i] == b[i]);
        assert(bs.subrange(q, q + a.len() + b.len())[a.len() + i] == bs[q + a.len() + i]);
    }
    assert(bs.subrange(q + a.len(), q + a.len() + b.len() as int) =~= b);
}

/// Concatenation of byte slices is associative.
pub proof fn lemma_add_assoc(a: Seq<u8>, b: Seq<u8>, c: Seq<u8>)
    ensures
        (a + b) + c == a + (b + c),
{
    assert((a + b) + c =~= a + (b + c));
}

/// The empty slice is a unit for concatenation.
pub proof fn lemma_add_unit(a: Seq<u8>)
    ensures
        Seq::<u8>::empty() + a == a,
        a + Seq::<u8>::empty() == a,
{
    assert(Seq::<u8>::empty() + a =~= a);
    assert(a + Seq::<u8>::empty() =~= a);
}

/// A slice located over a sequence's whole extent is that sequence.
pub proof fn lemma_subrange_all(a: Seq<u8>)
    ensures
        a.subrange(0, a.len() as int) == a,
{
    assert(a.subrange(0, a.len() as int) =~= a);
}

/// Inserting at the front is prepending a singleton.
pub proof fn lemma_cons<T>(x: T, rest: Seq<T>)
    ensures
        rest.insert(0, x) == seq![x] + rest,
{
    assert(rest.insert(0, x) =~= seq![x] + rest);
}

/// Encoding of a `Name`: its fields in order.
pub open spec fn spec_enc_name(v: Name) -> Seq<u8> {
    spec_enc_name_kind(v.kind) + spec_enc_bool(v.remains)
}

/// Decoding of a `Name`.
pub open spec fn spec_dec_name(bs: Seq<u8>, pos: int) -> Option<(Name, int)> {
    match spec_dec_name_kind(bs, pos) {
        Some((v1, p1)) => {
            match spec_dec_bool(bs, p1) {
                Some((v2, p2)) => Some((Name { kind: v1, remains: v2 }, p2)),
                None => None,
            }
        },
        None => None,
    }
}

fn enc_name(out: &mut Vec<u8>, v: &Name)
    ensures
        final(out)@ == old(out)@ + spec_enc_name(*v),
{
    enc_name_kind(out, v.kind);
    enc_bool(out, v.remains);
    proof {
        assert(out@ =~= old(out)@ + spec_enc_name(*v));
    }
}

fn dec_name(bs: &Vec<u8>, pos: usize) -> (r: Option<(Name, usize)>)
    ensures
        dec_matches(r, spec_dec_name(bs@, pos as int)),
{
    match dec_name_kind(bs, pos) {
        Some((v1, p1)) => {
            match dec_bool(bs, p1) {
                Some((v2, p2)) => Some((Name { kind: v1, remains: v2 }, p2)),
                None => None,
            }
        },
        None => None,
    }
}

/// Decoding inverts encoding for `Name`.
pub proof fn lemma_rt_name(bs: Seq<u8>, pos: int, v: Name)
    requires
        0 <= pos,
        pos + spec_enc_name(v).len() <= bs.len(),
        bs.subrange(pos, pos + spec_enc_name(v).len() as int) == spec_enc_name(v),
    ensures
        spec_dec_name(bs, pos) == Some((v, pos + spec_enc_name(v).len())),
{
    let e1 = spec_enc_name_kind(v.kind);
    let e2 = spec_enc_bool(v.remains);
    lemma_split_two(bs, pos, e1, e2);
    lemma_rt_name_kind(bs, pos, v.kind);
    lemma_rt_bool(bs, pos + e1.len(), v.remains);
}

/// Encoding of a `Equipment`: its fields in order.
pub open spec fn spec_enc_equipment(v: Equipment) -> Seq<u8> {
    spec_enc_slot(v.slot) + spec_enc_bool(v.equipped) + spec_enc_i32(v.max_hp_bonus) + spec_enc_i32(v.defense_bonus) + spec_enc_i32(v.power_bonus)
}

/// Decoding of a `Equipment`.
pub open spec fn spec_dec_equipment(bs: Seq<u8>, pos: int) -> Option<(Equipment, int)> {
    match spec_dec_slot(bs, pos) {
        Some((v1, p1)) => {
            match spec_dec_bool(bs, p1) {
                Some((v2, p2)) => {
                    match spec_dec_i32(bs, p2) {
                        Some((v3, p3)) => {
                            match spec_dec_i32(bs, p3) {
                                Some((v4, p4)) => {
                                    match spec_dec_i32(bs, p4) {
                                        Some((v5, p5)) => Some((Equipment { slot: v1, equipped: v2, max_hp_bonus: v3, defense_bonus: v4, power_bonus: v5 }, p5)),
                                        None => None,
                                    }
                                },
                                None => None,
                            }
                        },
                        None => None,
                    }
                },
                None => None,
            }
        },
        None => None,
    }
}

fn enc_equipment(out: &mut Vec<u8>, v: &Equipment)
    ensures
        final(out)@ == old(out)@ + spec_enc_equipment(*v),
{
    enc_slot(out, v.slot);
    enc_bool(out, v.equipped);
    enc_i32(out, v.max_hp_bonus);
    enc_i32(out, v.defense_bonus);
    enc_i32(out, v.power_bonus);
    proof {
        assert(out@ =~= old(out)@ + spec_enc_equipment(*v));
    }
}

fn dec_equipment(bs: &Vec<u8>, pos: usize) -> (r: Option<(Equipment, usize)>)
    ensures
        dec_matches(r, spec_dec_equipment(bs@, pos as int)),
{
    match dec_slot(bs, pos) {
        Some((v1, p1)) => {
            match dec_bool(bs, p1) {
                Some((v2, p2)) => {
                    match dec_i32(bs, p2) {
                        Some((v3, p3)) => {
                            match dec_i32(bs, p3) {
                                Some((v4, p4)) => {
                                    match dec_i32(bs, p4) {
                                        Some((v5, p5)) => Some((Equipment { slot: v1, equipped: v2, max_hp_bonus: v3, defense_bonus: v4, power_bonus: v5 }, p5)),
                                        None => None,
                                    }
                                },
                                None => None,
                            }
                        },
                        None => None,
                    }
                },
                None => None,
            }
        },
        None => None,
    }
}

/// Decoding inverts encoding for `Equipment`.
pub proof fn lemma_rt_equipment(bs: Seq<u8>, pos: int, v: Equipment)
    requires
        0 <= pos,
        pos + spec_enc_equipment(v).len() <= bs.len(),
        bs.subrange(pos, pos + spec_enc_equipment(v).len() as int) == spec_enc_equipment(v),
    ensures
        spec_dec_equipment(bs, pos) == Some((v, pos + spec_enc_equipment(v).len())),
{
    let e1 = spec_enc_slot(v.slot);
    let e2 = spec_enc_bool(v.equipped);
    let e3 = spec_enc_i32(v.max_hp_bonus);
    let e4 = spec_enc_i32(v.defense_bonus);
    let e5 = spec_enc_i32(v.power_bonus);
    lemma_split_two(bs, pos, e1 + e2 + e3 + e4, e5);
    lemma_split_two(bs, pos, e1 + e2 + e3, e4);
    lemma_split_two(bs, pos, e1 + e2, e3);
    lemma_split_two(bs, pos, e1, e2);
    lemma_rt_slot(bs, pos, v.slot);
    lemma_rt_bool(bs, pos + e1.len(), v.equipped);
    lemma_rt_i32(bs, pos + e1.len() + e2.len(), v.max_hp_bonus);
    lemma_rt_i32(bs, pos + e1.len() + e2.len() + e3.len(), v.defense_bonus);
    lemma_rt_i32(bs, pos + e1.len() + e2.len() + e3.len() + e4.len(), v.power_bonus);
}

/// Encoding of a `Fighter`: its fields in order.
pub open spec fn spec_enc_fighter(v: Fighter) -> Seq<u8> {
    spec_enc_i32(v.base_max_hp) + spec_enc_i32(v.hp) + spec_enc_i32(v.base_defense) + spec_enc_i32(v.base_power) + spec_enc_i32(v.xp) + spec_enc_death_callback(v.on_death)
}

/// Decoding of a `Fighter`.
pub open spec fn spec_dec_fighter(bs: Seq<u8>, pos: int) -> Option<(Fighter, int)> {
    match spec_dec_i32(bs, pos) {
        Some((v1, p1)) => {
            match spec_dec_i32(bs, p1) {
                Some((v2, p2)) => {
                    match spec_dec_i32(bs, p2) {
                        Some((v3, p3)) => {
                            match spec_dec_i32(bs, p3) {
                                Some((v4, p4)) => {
                                    match spec_dec_i32(bs, p4) {
                                        Some((v5, p5)) => {
                                            match spec_dec_death_callback(bs, p5) {
                                                Some((v6, p6)) => Some((Fighter { base_max_hp: v1, hp: v2, base_defense: v3, base_power: v4, xp: v5, on_death: v6 }, p6)),
                                                None => None,
                                            }
                                        },
                                        None => None,
                                    }
                                },
                                None => None,
                            }
                        },
                        None => None,
                    }
                },
                None => None,
            }
        },
        None => None,
    }
}

fn enc_fighter(out: &mut Vec<u8>, v: &Fighter)
    ensures
        final(out)@ == old(out)@ + spec_enc_fighter(*v),
{
    enc_i32(out, v.base_max_hp);
    enc_i32(out, v.hp);
    enc_i32(out, v.base_defense);
    enc_i32(out, v.base_power);
    enc_i32(out, v.xp);
    enc_death_callback(out, v.on_death);
    proof {
        assert(out@ =~= old(out)@ + spec_enc_fighter(*v));
    }
}

fn dec_fighter(bs: &Vec<u8>, pos: usize) -> (r: Option<(Fighter, usize)>)
    ensures
        dec_matches(r, spec_dec_fighter(bs@, pos as int)),
{
    match dec_i32(bs, pos) {
        Some((v1, p1)) => {
            match dec_i32(bs, p1) {
                Some((v2, p2)) => {
                    match dec_i32(bs, p2) {
                        Some((v3, p3)) => {
                            match dec_i32(bs, p3) {
                                Some((v4, p4)) => {
                                    match dec_i32(bs, p4) {
                                        Some((v5, p5)) => {
                                            match dec_death_callback(bs, p5) {
                                                Some((v6, p6)) => Some((Fighter { base_max_hp: v1, hp: v2, base_defense: v3, base_power: v4, xp: v5, on_death: v6 }, p6)),
                                                None => None,
                                            }
                                        },
                                        None => None,
                                    }
                                },
                                None => None,
                            }
                        },
                        None => None,
                    }
                },
                None => None,
            }
        },
        None => None,
    }
}

/// Decoding inverts encoding for `Fighter`.
#[verifier::rlimit(100)]
pub proof fn lemma_rt_fighter(bs: Seq<u8>, pos: int, v: Fighter)
    requires
        0 <= pos,
        pos + spec_enc_fighter(v).len() <= bs.len(),
        bs.subrange(pos, pos + spec_enc_fighter(v).len() as int) == spec_enc_fighter(v),
    ensures
        spec_dec_fighter(bs, pos) == Some((v, pos + spec_enc_fighter(v).len())),
{
    let e1 = spec_enc_i32(v.base_max_hp);
    let e2 = spec_enc_i32(v.hp);
    let e3 = spec_enc_i32(v.base_defense);
    let e4 = spec_enc_i32(v.base_power);
    let e5 = spec_enc_i32(v.xp);
    let e6 = spec_enc_death_callback(v.on_death);
    lemma_split_two(bs, pos, e1 + e2 + e3 + e4 + e5, e6);
    lemma_split_two(bs, pos, e1 + e2 + e3 + e4, e5);
    lemma_split_two(bs, pos, e1 + e2 + e3, e4);
    lemma_split_two(bs, pos, e1 + e2, e3);
    lemma_split_two(bs, pos, e1, e2);
    lemma_rt_i32(bs, pos, v.base_max_hp);
    lemma_rt_i32(bs, pos + e1.len(), v.hp);
    lemma_rt_i32(bs, pos + e1.len() + e2.len(), v.base_defense);
    lemma_rt_i32(bs, pos + e1.len() + e2.len() + e3.len(), v.base_power);
    lemma_rt_i32(bs, pos + e1.len() + e2.len() + e3.len() + e4.len(), v.xp);
    lemma_rt_death_callback(bs, pos + e1.len() + e2.len() + e3.len() + e4.len() + e5.len(), v.on_death);
}

/// Encoding of a `Tile`: its fields in order.
pub open spec fn spec_enc_tile(v: Tile) -> Seq<u8> {
    spec_enc_bool(v.blocked) + spec_enc_bool(v.explored) + spec_enc_bool(v.block_sight)
}

/// Decoding of a `Tile`.
pub open spec fn spec_dec_tile(bs: Seq<u8>, pos: int) -> Option<(Tile, int)> {
    match spec_dec_bool(bs, pos) {
        Some((v1, p1)) => {
            match spec_dec_bool(bs, p1) {
                Some((v2, p2)) => {
                    match spec_dec_bool(bs, p2) {
                        Some((v3, p3)) => Some((Tile { blocked: v1, explored: v2, block_sight: v3 }, p3)),
                        None => None,
                    }
                },
                None => None,
            }
        },
        None => None,
    }
}

fn enc_tile(out: &mut Vec<u8>, v: &Tile)
    ensures
        final(out)@ == old(out)@ + spec_enc_tile(*v),
{
    enc_bool(out, v.blocked);
    enc_bool(out, v.explored);
    enc_bool(out, v.block_sight);
    proof {
        assert(out@ =~= old(out)@ + spec_enc_tile(*v));
    }
}

fn dec_tile(bs: &Vec<u8>, pos: usize) -> (r: Option<(Tile, usize)>)
    ensures
        dec_matches(r, spec_dec_tile(bs@, pos as int)),
{
    match dec_bool(bs, pos) {
        Some((v1, p1)) => {
            match dec_bool(bs, p1) {
                Some((v2, p2)) => {
                    match dec_bool(bs, p2) {
                        Some((v3, p3)) => Some((Tile { blocked: v1, explored: v2, block_sight: v3 }, p3)),
                        None => None,
                    }
                },
                None => None,
            }
        },
        None => None,
    }
}

/// Decoding inverts encoding for `Tile`.
pub proof fn lemma_rt_tile(bs: Seq<u8>, pos: int, v: Tile)
    requires
        0 <= pos,
        pos + spec_enc_tile(v).len() <= bs.len(),
        bs.subrange(pos, pos + spec_enc_tile(v).len() as int) == spec_enc_tile(v),
    ensures
        spec_dec_tile(bs, pos) == Some((v, pos + spec_enc_tile(v).len())),
{
    let e1 = spec_enc_bool(v.blocked);
    let e2 = spec_enc_bool(v.explored);
    let e3 = spec_enc_bool(v.block_sight);
    lemma_split_two(bs, pos, e1 + e2, e3);
    lemma_split_two(bs, pos, e1, e2);
    lemma_rt_bool(bs, pos, v.blocked);
    lemma_rt_bool(bs, pos + e1.len(), v.explored);
    lemma_rt_bool(bs, pos + e1.len() + e2.len(), v.block_sight);
}

/// Encoding of an optional `Name`: a presence byte, then the value.
pub open spec fn spec_enc_opt_name(v: Option<Name>) -> Seq<u8> {
    match v {
        None => seq![0u8],
        Some(x) => seq![1u8] + spec_enc_name(x),
    }
}

/// Decoding of an optional `Name`.
pub open spec fn spec_dec_opt_name(bs: Seq<u8>, pos: int) -> Option<(Option<Name>, int)> {
    if 0 <= pos && pos + 1 <= bs.len() {
        if bs[pos] == 0 {
            Some((None, pos + 1))
        } else if bs[pos] == 1 {
            match spec_dec_name(bs, pos + 1) {
                Some((x, p)) => Some((Some(x), p)),
                None => None,
            }
        } else {
            None
        }
    } else {
        None
    }
}

fn enc_opt_name(out: &mut Vec<u8>, v: &Option<Name>)
    ensures
        final(out)@ == old(out)@ + spec_enc_opt_name(*v),
{
    match v {
        None => {
            out.push(0);
        },
        Some(x) => {
            out.push(1);
            enc_name(out, x);
        },
    }
    proof {
        assert(out@ =~= old(out)@ + spec_enc_opt_name(*v));
    }
}

fn dec_opt_name(bs: &Vec<u8>, pos: usize) -> (r: Option<(Option<Name>, usize)>)
    ensures
        dec_matches(r, spec_dec_opt_name(bs@, pos as int)),
{
    if pos < bs.len() {
        let b = bs[pos];
        if b == 0 {
            Some((None, pos + 1))
        } else if b == 1 {
            match dec_name(bs, pos + 1) {
                Some((x, p)) => Some((Some(x), p)),
                None => None,
            }
        } else {
            None
        }
    } else {
        None
    }
}

/// Decoding inverts encoding for optional `Name`.
pub proof fn lemma_rt_opt_name(bs: Seq<u8>, pos: int, v: Option<Name>)
    requires
        0 <= pos,
        pos + spec_enc_opt_name(v).len() <= bs.len(),
        bs.subrange(pos, pos + spec_enc_opt_name(v).len() as int) == spec_enc_opt_name(v),
    ensures
        spec_dec_opt_name(bs, pos) == Some((v, pos + spec_enc_opt_name(v).len())),
{
    match v {
        None => {
            assert(bs[pos] == spec_enc_opt_name(v)[0]);
        },
        Some(x) => {
            let e = spec_enc_opt_name(v);
            lemma_split_two(bs, pos, seq![1u8], spec_enc_name(x));
            assert(bs[pos] == bs.subrange(pos, pos + 1)[0]);
            lemma_rt_name(bs, pos + 1, x);
        },
    }
}

/// Encoding of an optional `Slot`: a presence byte, then the value.
pub open spec fn spec_enc_opt_slot(v: Option<Slot>) -> Seq<u8> {
    match v {
        None => seq![0u8],
        Some(x) => seq![1u8] + spec_enc_slot(x),
    }
}

/// Decoding of an optional `Slot`.
pub open spec fn spec_dec_opt_slot(bs: Seq<u8>, pos: int) -> Option<(Option<Slot>, int)> {
    if 0 <= pos && pos + 1 <= bs.len() {
        if bs[pos] == 0 {
            Some((None, pos + 1))
        } else if bs[pos] == 1 {
            match spec_dec_slot(bs, pos + 1) {
                Some((x, p)) => Some((Some(x), p)),
                None => None,
            }
        } else {
            None
        }
    } else {
        None
    }
}

fn enc_opt_slot(out: &mut Vec<u8>, v: &Option<Slot>)
    ensures
        final(out)@ == old(out)@ + spec_enc_opt_slot(*v),
{
    match v {
        None => {
            out.push(0);
        },
        Some(x) => {
            out.push(1);
            enc_slot(out, *x);
        },
    }
    proof {
        assert(out@ =~= old(out)@ + spec_enc_opt_slot(*v));
    }
}

fn dec_opt_slot(bs: &Vec<u8>, pos: usize) -> (r: Option<(Option<Slot>, usize)>)
    ensures
        dec_matches(r, spec_dec_opt_slot(bs@, pos as int)),
{
    if pos < bs.len() {
        let b = bs[pos];
        if b == 0 {
            Some((None, pos + 1))
        } else if b == 1 {
            match dec_slot(bs, pos + 1) {
                Some((x, p)) => Some((Some(x), p)),
                None => None,
            }
        } else {
            None
        }
    } else {
        None
    }
}

/// Decoding inverts encoding for optional `Slot`.
pub proof fn lemma_rt_opt_slot(bs: Seq<u8>, pos: int, v: Option<Slot>)
    requires
        0 <= pos,
        pos + spec_enc_opt_slot(v).len() <= bs.len(),
        bs.subrange(pos, pos + spec_enc_opt_slot(v).len() as int) == spec_enc_opt_slot(v),
    ensures
        spec_dec_opt_slot(bs, pos) == Some((v, pos + spec_enc_opt_slot(v).len())),
{
    match v {
        None => {
            assert(bs[pos] == spec_enc_opt_slot(v)[0]);
        },
        Some(x) => {
            let e = spec_enc_opt_slot(v);
            lemma_split_two(bs, pos, seq![1u8], spec_enc_slot(x));
            assert(bs[pos] == bs.subrange(pos, pos + 1)[0]);
            lemma_rt_slot(bs, pos + 1, x);
        },
    }
}

/// Encoding of an optional `Fighter`: a presence byte, then the value.
pub open spec fn spec_enc_opt_fighter(v: Option<Fighter>) -> Seq<u8> {
    match v {
        None => seq![0u8],
        Some(x) => seq![1u8] + spec_enc_fighter(x),
    }
}

/// Decoding of an optional `Fighter`.
pub open spec fn spec_dec_opt_fighter(bs: Seq<u8>, pos: int) -> Option<(Option<Fighter>, int)> {
    if 0 <= pos && pos + 1 <= bs.len() {
        if bs[pos] == 0 {
            Some((None, pos + 1))
        } else if bs[pos] == 1 {
            match spec_dec_fighter(bs, pos + 1) {
                Some((x, p)) => Some((Some(x), p)),
                None => None,
            }
        } else {
            None
        }
    } else {
        None
    }
}

fn enc_opt_fighter(out: &mut Vec<u8>, v: &Option<Fighter>)
    ensures
        final(out)@ == old(out)@ + spec_enc_opt_fighter(*v),
{
    match v {
        None => {
            out.push(0);
        },
        Some(x) => {
            out.push(1);
            enc_fighter(out, x);
        },
    }
    proof {
        assert(out@ =~= old(out)@ + spec_enc_opt_fighter(*v));
    }
}

fn dec_opt_fighter(bs: &Vec<u8>, pos: usize) -> (r: Option<(Option<Fighter>, usize)>)
    ensures
        dec_matches(r, spec_dec_opt_fighter(bs@, pos as int)),
{
    if pos < bs.len() {
        let b = bs[pos];
        if b == 0 {
            Some((None, pos + 1))
        } else if b == 1 {
            match dec_fighter(bs, pos + 1) {
                Some((x, p)) => Some((Some(x), p)),
                None => None,
            }
        } else {
            None
        }
    } else {
        None
    }
}

/// Decoding inverts encoding for optional `Fighter`.
pub proof fn lemma_rt_opt_fighter(bs: Seq<u8>, pos: int, v: Option<Fighter>)
    requires
        0 <= pos,
        pos + spec_enc_opt_fighter(v).len() <= bs.len(),
        bs.subrange(pos, pos + spec_enc_opt_fighter(v).len() as int) == spec_enc_opt_fighter(v),
    ensures
        spec_dec_opt_fighter(bs, pos) == Some((v, pos + spec_enc_opt_fighter(v).len())),
{
    match v {
        None => {
            assert(bs[pos] == spec_enc_opt_fighter(v)[0]);
        },
        Some(x) => {
            let e = spec_enc_opt_fighter(v);
            lemma_split_two(bs, pos, seq![1u8], spec_enc_fighter(x));
            assert(bs[pos] == bs.subrange(pos, pos + 1)[0]);
            lemma_rt_fighter(bs, pos + 1, x);
        },
    }
}

/// Encoding of an optional `Item`: a presence byte, then the value.
pub open spec fn spec_enc_opt_item(v: Option<Item>) -> Seq<u8> {
    match v {
        None => seq![0u8],
        Some(x) => seq![1u8] + spec_enc_item_kind(x),
    }
}

/// Decoding of an optional `Item`.
pub open spec fn spec_dec_opt_item(bs: Seq<u8>, pos: int) -> Option<(Option<Item>, int)> {
    if 0 <= pos && pos + 1 <= bs.len() {
        if bs[pos] == 0 {
            Some((None, pos + 1))
        } else if bs[pos] == 1 {
            match spec_dec_item_kind(bs, pos + 1) {
                Some((x, p)) => Some((Some(x), p)),
                None => None,
            }
        } else {
            None
        }
    } else {
        None
    }
}

fn enc_opt_item(out: &mut Vec<u8>, v: &Option<Item>)
    ensures
        final(out)@ == old(out)@ + spec_enc_opt_item(*v),
{
    match v {
        None => {
            out.push(0);
        },
        Some(x) => {
            out.push(1);
            enc_item_kind(out, *x);
        },
    }
    proof {
        assert(out@ =~= old(out)@ + spec_enc_opt_item(*v));
    }
}

fn dec_opt_item(bs: &Vec<u8>, pos: usize) -> (r: Option<(Option<Item>, usize)>)
    ensures
        dec_matches(r, spec_dec_opt_item(bs@, pos as int)),
{
    if pos < bs.len() {
        let b = bs[pos];
        if b == 0 {
            Some((None, pos + 1))
        } else if b == 1 {
            match dec_item_kind(bs, pos + 1) {
                Some((x, p)) => Some((Some(x), p)),
                None => None,
            }
        } else {
            None
        }
    } else {
        None
    }
}

/// Decoding inverts encoding for optional `Item`.
pub proof fn lemma_rt_opt_item(bs: Seq<u8>, pos: int, v: Option<Item>)
    requires
        0 <= pos,
        pos + spec_enc_opt_item(v).len() <= bs.len(),
        bs.subrange(pos, pos + spec_enc_opt_item(v).len() as int) == spec_enc_opt_item(v),
    ensures
        spec_dec_opt_item(bs, pos) == Some((v, pos + spec_enc_opt_item(v).len())),
{
    match v {
        None => {
            assert(bs[pos] == spec_enc_opt_item(v)[0]);
        },
        Some(x) => {
            let e = spec_enc_opt_item(v);
            lemma_split_two(bs, pos, seq![1u8], spec_enc_item_kind(x));
            assert(bs[pos] == bs.subrange(pos, pos + 1)[0]);
            lemma_rt_item_kind(bs, pos + 1, x);
        },
    }
}

/// Encoding of an optional `Equipment`: a presence byte, then the value.
pub open spec fn spec_enc_opt_equipment(v: Option<Equipment>) -> Seq<u8> {
    match v {
        None => seq![0u8],
        Some(x) => seq![1u8] + spec_enc_equipment(x),
    }
}

/// Decoding of an optional `Equipment`.
pub open spec fn spec_dec_opt_equipment(bs: Seq<u8>, pos: int) -> Option<(Option<Equipment>, int)> {
    if 0 <= pos && pos + 1 <= bs.len() {
        if bs[pos] == 0 {
            Some((None, pos + 1))
        } else if bs[pos] == 1 {
            match spec_dec_equipment(bs, pos + 1) {
                Some((x, p)) => Some((Some(x), p)),
                None => None,
            }
        } else {
            None
        }
    } else {
        None
    }
}

fn enc_opt_equipment(out: &mut Vec<u8>, v: &Option<Equipment>)
    ensures
        final(out)@ == old(out)@ + spec_enc_opt_equipment(*v),
{
    match v {
        None => {
            out.push(0);
        },
        Some(x) => {
            out.push(1);
            enc_equipment(out, x);
        },
    }
    proof {
        assert(out@ =~= old(out)@ + spec_enc_opt_equipment(*v));
    }
}

fn dec_opt_equipment(bs: &Vec<u8>, pos: usize) -> (r: Option<(Option<Equipment>, usize)>)
    ensures
        dec_matches(r, spec_dec_opt_equipment(bs@, pos as int)),
{
    if pos < bs.len() {
        let b = bs[pos];
        if b == 0 {
            Some((None, pos + 1))
        } else if b == 1 {
            match dec_equipment(bs, pos + 1) {
                Some((x, p)) => Some((Some(x), p)),
                None => None,
            }
        } else {
            None
        }
    } else {
        None
    }
}

/// Decoding inverts encoding for optional `Equipment`.
pub proof fn lemma_rt_opt_equipment(bs: Seq<u8>, pos: int, v: Option<Equipment>)
    requires
        0 <= pos,
        pos + spec_enc_opt_equipment(v).len() <= bs.len(),
        bs.subrange(pos, pos + spec_enc_opt_equipment(v).len() as int) == spec_enc_opt_equipment(v),
    ensures
        spec_dec_opt_equipment(bs, pos) == Some((v, pos + spec_enc_opt_equipment(v).len())),
{
    match v {
        None => {
            assert(bs[pos] == spec_enc_opt_equipment(v)[0]);
        },
        Some(x) => {
            let e = spec_enc_opt_equipment(v);
            lemma_split_two(bs, pos, seq![1u8], spec_enc_equipment(x));
            assert(bs[pos] == bs.subrange(pos, pos + 1)[0]);
            lemma_rt_equipment(bs, pos + 1, x);
        },
    }
}

/// Encoding of a behavior state: `Basic` is one byte; `Confused` is a tag,
/// the remaining ticks, then the prior state, recursively.
pub open spec fn spec_enc_ai(v: Ai) -> Seq<u8>
    decreases v,
{
    match v {
        Ai::Basic => seq![0u8],
        Ai::Confused { previous_ai, lasts_for } => seq![1u8] + spec_enc_i32(lasts_for)
            + spec_enc_ai(*previous_ai),
    }
}

/// Decoding of a behavior state.
pub open spec fn spec_dec_ai(bs: Seq<u8>, pos: int) -> Option<(Ai, int)>
    decreases bs.len() - pos,
{
    if 0 <= pos && pos + 1 <= bs.len() {
        if bs[pos] == 0 {
            Some((Ai::Basic, pos + 1))
        } else if bs[pos] == 1 {
            if pos + 5 <= bs.len() {
                match spec_dec_i32(bs, pos + 1) {
                    Some((n, p1)) => match spec_dec_ai(bs, pos + 5) {
                        Some((prev, p2)) => Some(
                            (Ai::Confused { previous_ai: Box::new(prev), lasts_for: n }, p2),
                        ),
                        None => None,
                    },
                    None => None,
                }
            } else {
                None
            }
        } else {
            None
        }
    } else {
        None
    }
}

fn enc_ai(out: &mut Vec<u8>, v: &Ai)
    ensures
        final(out)@ == old(out)@ + spec_enc_ai(*v),
    decreases *v,
{
    match v {
        Ai::Basic => {
            out.push(0);
        },
        Ai::Confused { previous_ai, lasts_for } => {
            out.push(1);
            enc_i32(out, *lasts_for);
            enc_ai(out, previous_ai);
        },
    }
    proof {
        assert(out@ =~= old(out)@ + spec_enc_ai(*v));
    }
}

fn dec_ai(bs: &Vec<u8>, pos: usize) -> (r: Option<(Ai, usize)>)
    ensures
        dec_matches(r, spec_dec_ai(bs@, pos as int)),
    decreases bs@.len() - pos,
{
    if pos < bs.len() {
        let b = bs[pos];
        if b == 0 {
            Some((Ai::Basic, pos + 1))
        } else if b == 1 {
            if bs.len() - pos >= 5 {
                match dec_i32(bs, pos + 1) {
                    Some((n, p1)) => match dec_ai(bs, pos + 5) {
                        Some((prev, p2)) => Some(
                            (Ai::Confused { previous_ai: Box::new(prev), lasts_for: n }, p2),
                        ),
                        None => None,
                    },
                    None => None,
                }
            } else {
                None
            }
        } else {
            None
        }
    } else {
        None
    }
}

/// Decoding inverts encoding for behavior states.
pub proof fn lemma_rt_ai(bs: Seq<u8>, pos: int, v: Ai)
    requires
        0 <= pos,
        pos + spec_enc_ai(v).len() <= bs.len(),
        bs.subrange(pos, pos + spec_enc_ai(v).len() as int) == spec_enc_ai(v),
    ensures
        spec_dec_ai(bs, pos) == Some((v, pos + spec_enc_ai(v).len())),
    decreases v,
{
    match v {
        Ai::Basic => {
            assert(bs[pos] == spec_enc_ai(v)[0]);
        },
        Ai::Confused { previous_ai, lasts_for } => {
            let e1 = spec_enc_i32(lasts_for);
            let e2 = spec_enc_ai(*previous_ai);
            lemma_split_two(bs, pos, seq![1u8] + e1, e2);
            lemma_split_two(bs, pos, seq![1u8], e1);
            assert(bs[pos] == bs.subrange(pos, pos + 1)[0]);
            lemma_rt_i32(bs, pos + 1, lasts_for);
            lemma_rt_ai(bs, pos + 5, *previous_ai);
        },
    }
}

/// Encoding of an optional behavior state.
pub open spec fn spec_enc_opt_ai(v: Option<Ai>) -> Seq<u8> {
    match v {
        None => seq![0u8],
        Some(x) => seq![1u8] + spec_enc_ai(x),
    }
}

/// Decoding of an optional behavior state.
pub open spec fn spec_dec_opt_ai(bs: Seq<u8>, pos: int) -> Option<(Option<Ai>, int)> {
    if 0 <= pos && pos + 1 <= bs.len() {
        if bs[pos] == 0 {
            Some((None, pos + 1))
        } else if bs[pos] == 1 {
            match spec_dec_ai(bs, pos + 1) {
                Some((x, p)) => Some((Some(x), p)),
                None => None,
            }
        } else {
            None
        }
    } else {
        None
    }
}

fn enc_opt_ai(out: &mut Vec<u8>, v: &Option<Ai>)
    ensures
        final(out)@ == old(out)@ + spec_enc_opt_ai(*v),
{
    match v {
        None => {
            out.push(0);
        },
        Some(x) => {
            out.push(1);
            enc_ai(out, x);
        },
    }
    proof {
        assert(out@ =~= old(out)@ + spec_enc_opt_ai(*v));
    }
}

fn dec_opt_ai(bs: &Vec<u8>, pos: usize) -> (r: Option<(Option<Ai>, usize)>)
    ensures
        dec_matches(r, spec_dec_opt_ai(bs@, pos as int)),
{
    if pos < bs.len() {
        let b = bs[pos];
        if b == 0 {
            Some((None, pos + 1))
        } else if b == 1 {
            match dec_ai(bs, pos + 1) {
                Some((x, p)) => Some((Some(x), p)),
                None => None,
            }
        } else {
            None
        }
    } else {
        None
    }
}

/// Decoding inverts encoding for optional behavior states.
pub proof fn lemma_rt_opt_ai(bs: Seq<u8>, pos: int, v: Option<Ai>)
    requires
        0 <= pos,
        pos + spec_enc_opt_ai(v).len() <= bs.len(),
        bs.subrange(pos, pos + spec_enc_opt_ai(v).len() as int) == spec_enc_opt_ai(v),
    ensures
        spec_dec_opt_ai(bs, pos) == Some((v, pos + spec_enc_opt_ai(v).len())),
{
    match v {
        None => {
            assert(bs[pos] == spec_enc_opt_ai(v)[0]);
        },
        Some(x) => {
            lemma_split_two(bs, pos, seq![1u8], spec_enc_ai(x));
            assert(bs[pos] == bs.subrange(pos, pos + 1)[0]);
            lemma_rt_ai(bs, pos + 1, x);
        },
    }
}

/// Encoding of a `LogText`: its fields in order.
pub open spec fn spec_enc_log_text(v: LogText) -> Seq<u8> {
    spec_enc_message_kind(v.kind) + spec_enc_opt_name(v.subject) + spec_enc_opt_name(v.target) + spec_enc_opt_slot(v.slot) + spec_enc_i32(v.amount)
}

/// Decoding of a `LogText`.
pub open spec fn spec_dec_log_text(bs: Seq<u8>, pos: int) -> Option<(LogText, int)> {
    match spec_dec_message_kind(bs, pos) {
        Some((v1, p1)) => {
            match spec_dec_opt_name(bs, p1) {
                Some((v2, p2)) => {
                    match spec_dec_opt_name(bs, p2) {
                        Some((v3, p3)) => {
                            match spec_dec_opt_slot(bs, p3) {
                                Some((v4, p4)) => {
                                    match spec_dec_i32(bs, p4) {
                                        Some((v5, p5)) => Some((LogText { kind: v1, subject: v2, target: v3, slot: v4, amount: v5 }, p5)),
                                        None => None,
                                    }
                                },
                                None => None,
                            }
                        },
                        None => None,
                    }
                },
                None => None,
            }
        },
        None => None,
    }
}

fn enc_log_text(out: &mut Vec<u8>, v: &LogText)
    ensures
        final(out)@ == old(out)@ + spec_enc_log_text(*v),
{
    enc_message_kind(out, v.kind);
    enc_opt_name(out, &v.subject);
    enc_opt_name(out, &v.target);
    enc_opt_slot(out, &v.slot);
    enc_i32(out, v.amount);
    proof {
        assert(out@ =~= old(out)@ + spec_enc_log_text(*v));
    }
}

fn dec_log_text(bs: &Vec<u8>, pos: usize) -> (r: Option<(LogText, usize)>)
    ensures
        dec_matches(r, spec_dec_log_text(bs@, pos as int)),
{
    match dec_message_kind(bs, pos) {
        Some((v1, p1)) => {
            match dec_opt_name(bs, p1) {
                Some((v2, p2)) => {
                    match dec_opt_name(bs, p2) {
                        Some((v3, p3)) => {
                            match dec_opt_slot(bs, p3) {
                                Some((v4, p4)) => {
                                    match dec_i32(bs, p4) {
                                        Some((v5, p5)) => Some((LogText { kind: v1, subject: v2, target: v3, slot: v4, amount: v5 }, p5)),
                                        None => None,
                                    }
                                },
                                None => None,
                            }
                        },
                        None => None,
                    }
                },
                None => None,
            }
        },
        None => None,
    }
}

/// Decoding inverts encoding for `LogText`.
#[verifier::rlimit(100)]
pub proof fn lemma_rt_log_text(bs: Seq<u8>, pos: int, v: LogText)
    requires
        0 <= pos,
        pos + spec_enc_log_text(v).len() <= bs.len(),
        bs.subrange(pos, pos + spec_enc_log_text(v).len() as int) == spec_enc_log_text(v),
    ensures
        spec_dec_log_text(bs, pos) == Some((v, pos + spec_enc_log_text(v).len())),
{
    let e1 = spec_enc_message_kind(v.kind);
    let e2 = spec_enc_opt_name(v.subject);
    let e3 = spec_enc_opt_name(v.target);
    let e4 = spec_enc_opt_slot(v.slot);
    let e5 = spec_enc_i32(v.amount);
    lemma_split_two(bs, pos, e1 + e2 + e3 + e4, e5);
    lemma_split_two(bs, pos, e1 + e2 + e3, e4);
    lemma_split_two(bs, pos, e1 + e2, e3);
    lemma_split_two(bs, pos, e1, e2);
    lemma_rt_message_kind(bs, pos, v.kind);
    lemma_rt_opt_name(bs, pos + e1.len(), v.subject);
    lemma_rt_opt_name(bs, pos + e1.len() + e2.len(), v.target);
    lemma_rt_opt_slot(bs, pos + e1.len() + e2.len() + e3.len(), v.slot);
    lemma_rt_i32(bs, pos + e1.len() + e2.len() + e3.len() + e4.len(), v.amount);
}

/// Encoding of a `LogEntry`: its fields in order.
pub open spec fn spec_enc_log_entry(v: LogEntry) -> Seq<u8> {
    spec_enc_log_text(v.text) + spec_enc_color_tag(v.color)
}

/// Decoding of a `LogEntry`.
pub open spec fn spec_dec_log_entry(bs: Seq<u8>, pos: int) -> Option<(LogEntry, int)> {
    match spec_dec_log_text(bs, pos) {
        Some((v1, p1)) => {
            match spec_dec_color_tag(bs, p1) {
                Some((v2, p2)) => Some((LogEntry { text: v1, color: v2 }, p2)),
                None => None,
            }
        },
        None => None,
    }
}

fn enc_log_entry(out: &mut Vec<u8>, v: &LogEntry)
    ensures
        final(out)@ == old(out)@ + spec_enc_log_entry(*v),
{
    enc_log_text(out, &v.text);
    enc_color_tag(out, v.color);
    proof {
        assert(out@ =~= old(out)@ + spec_enc_log_entry(*v));
    }
}

fn dec_log_entry(bs: &Vec<u8>, pos: usize) -> (r: Option<(LogEntry, usize)>)
    ensures
        dec_matches(r, spec_dec_log_entry(bs@, pos as int)),
{
    match dec_log_text(bs, pos) {
        Some((v1, p1)) => {
            match dec_color_tag(bs, p1) {
                Some((v2, p2)) => Some((LogEntry { text: v1, color: v2 }, p2)),
                None => None,
            }
        },
        None => None,
    }
}

/// Decoding inverts encoding for `LogEntry`.
pub proof fn lemma_rt_log_entry(bs: Seq<u8>, pos: int, v: LogEntry)
    requires
        0 <= pos,
        pos + spec_enc_log_entry(v).len() <= bs.len(),
        bs.subrange(pos, pos + spec_enc_log_entry(v).len() as int) == spec_enc_log_entry(v),
    ensures
        spec_dec_log_entry(bs, pos) == Some((v, pos + spec_enc_log_entry(v).len())),
{
    let e1 = spec_enc_log_text(v.text);
    let e2 = spec_enc_color_tag(v.color);
    lemma_split_two(bs, pos, e1, e2);
    lemma_rt_log_text(bs, pos, v.text);
    lemma_rt_color_tag(bs, pos + e1.len(), v.color);
}

/// Encoding of a `Object`: its fields in order.
pub open spec fn spec_enc_object(v: Object) -> Seq<u8> {
    spec_enc_i32(v.x) + spec_enc_i32(v.y) + spec_enc_char(v.glyph) + spec_enc_color_tag(v.color) + spec_enc_name(v.name) + spec_enc_bool(v.blocks) + spec_enc_bool(v.alive) + spec_enc_i32(v.level) + spec_enc_opt_fighter(v.fighter) + spec_enc_opt_ai(v.ai) + spec_enc_opt_item(v.item) + spec_enc_opt_equipment(v.equipment) + spec_enc_bool(v.always_visible)
}

/// Decoding of a `Object`.
pub open spec fn spec_dec_object(bs: Seq<u8>, pos: int) -> Option<(Object, int)> {
    match spec_dec_i32(bs, pos) {
        Some((v1, p1)) => {
            match spec_dec_i32(bs, p1) {
                Some((v2, p2)) => {
                    match spec_dec_char(bs, p2) {
                        Some((v3, p3)) => {
                            match spec_dec_color_tag(bs, p3) {
                                Some((v4, p4)) => {
                                    match spec_dec_name(bs, p4) {
                                        Some((v5, p5)) => {
                                            match spec_dec_bool(bs, p5) {
                                                Some((v6, p6)) => {
                                                    match spec_dec_bool(bs, p6) {
                                                        Some((v7, p7)) => {
                                                            match spec_dec_i32(bs, p7) {
                                                                Some((v8, p8)) => {
                                                                    match spec_dec_opt_fighter(bs, p8) {
                                                                        Some((v9, p9)) => {
                                                                            match spec_dec_opt_ai(bs, p9) {
                                                                                Some((v10, p10)) => {
                                                                                    match spec_dec_opt_item(bs, p10) {
                                                                                        Some((v11, p11)) => {
                                                                                            match spec_dec_opt_equipment(bs, p11) {
                                                                                                Some((v12, p12)) => {
                                                                                                    match spec_dec_bool(bs, p12) {
                                                                                                        Some((v13, p13)) => Some((Object { x: v1, y: v2, glyph: v3, color: v4, name: v5, blocks: v6, alive: v7, level: v8, fighter: v9, ai: v10, item: v11, equipment: v12, always_visible: v13 }, p13)),
                                                                                                        None => None,
                                                                                                    }
                                                                                                },
                                                                                                None => None,
                                                                                            }
                                                                                        },
                                                                                        None => None,
                                                                                    }
                                                                                },
                                                                                None => None,
                                                                            }
                                                                        },
                                                                        None => None,
                                                                    }
                                                                },
                                                                None => None,
                                                            }
                                                        },
                                                        None => None,
                                                    }
                                                },
                                                None => None,
                                            }
                                        },
                                        None => None,
                                    }
                                },
                                None => None,
                            }
                        },
                        None => None,
                    }
                },
                None => None,
            }
        },
        None => None,
    }
}

#[verifier::rlimit(100)]
fn enc_object(out: &mut Vec<u8>, v: &Object)
    ensures
        final(out)@ == old(out)@ + spec_enc_object(*v),
{
    enc_i32(out, v.x);
    enc_i32(out, v.y);
    proof {
        lemma_add_assoc(old(out)@, spec_enc_i32(v.x), spec_enc_i32(v.y));
    }
    enc_char(out, v.glyph);
    proof {
        lemma_add_assoc(old(out)@, spec_enc_i32(v.x) + spec_enc_i32(v.y), spec_enc_char(v.glyph));
    }
    enc_color_tag(out, v.color);
    proof {
        lemma_add_assoc(old(out)@, spec_enc_i32(v.x) + spec_enc_i32(v.y) + spec_enc_char(v.glyph), spec_enc_color_tag(v.color));
    }
    enc_name(out, &v.name);
    proof {
        lemma_add_assoc(old(out)@, spec_enc_i32(v.x) + spec_enc_i32(v.y) + spec_enc_char(v.glyph) + spec_enc_color_tag(v.color), spec_enc_name(v.name));
    }
    enc_bool(out, v.blocks);
    proof {
        lemma_add_assoc(old(out)@, spec_enc_i32(v.x) + spec_enc_i32(v.y) + spec_enc_char(v.glyph) + spec_enc_color_tag(v.color) + spec_enc_name(v.name), spec_enc_bool(v.blocks));
    }
    enc_bool(out, v.alive);
    proof {
        lemma_add_assoc(old(out)@, spec_enc_i32(v.x) + spec_enc_i32(v.y) + spec_enc_char(v.glyph) + spec_enc_color_tag(v.color) + spec_enc_name(v.name) + spec_enc_bool(v.blocks), spec_enc_bool(v.alive));
    }
    enc_i32(out, v.level);
    proof {
        lemma_add_assoc(old(out)@, spec_enc_i32(v.x) + spec_enc_i32(v.y) + spec_enc_char(v.glyph) + spec_enc_color_tag(v.color) + spec_enc_name(v.name) + spec_enc_bool(v.blocks) + spec_enc_bool(v.alive), spec_enc_i32(v.level));
    }
    enc_opt_fighter(out, &v.fighter);
    proof {
        lemma_add_assoc(old(out)@, spec_enc_i32(v.x) + spec_enc_i32(v.y) + spec_enc_char(v.glyph) + spec_enc_color_tag(v.color) + spec_enc_name(v.name) + spec_enc_bool(v.blocks) + spec_enc_bool(v.alive) + spec_enc_i32(v.level), spec_enc_opt_fighter(v.fighter));
    }
    enc_opt_ai(out, &v.ai);
    proof {
        lemma_add_assoc(old(out)@, spec_enc_i32(v.x) + spec_enc_i32(v.y) + spec_enc_char(v.glyph) + spec_enc_color_tag(v.color) + spec_enc_name(v.name) + spec_enc_bool(v.blocks) + spec_enc_bool(v.alive) + spec_enc_i32(v.level) + spec_enc_opt_fighter(v.fighter), spec_enc_opt_ai(v.ai));
    }
    enc_opt_item(out, &v.item);
    proof {
        lemma_add_assoc(old(out)@, spec_enc_i32(v.x) + spec_enc_i32(v.y) + spec_enc_char(v.glyph) + spec_enc_color_tag(v.color) + spec_enc_name(v.name) + spec_enc_bool(v.blocks) + spec_enc_bool(v.alive) + spec_enc_i32(v.level) + spec_enc_opt_fighter(v.fighter) + spec_enc_opt_ai(v.ai), spec_enc_opt_item(v.item));
    }
    enc_opt_equipment(out, &v.equipment);
    proof {
        lemma_add_assoc(old(out)@, spec_enc_i32(v.x) + spec_enc_i32(v.y) + spec_enc_char(v.glyph) + spec_enc_color_tag(v.color) + spec_enc_name(v.name) + spec_enc_bool(v.blocks) + spec_enc_bool(v.alive) + spec_enc_i32(v.level) + spec_enc_opt_fighter(v.fighter) + spec_enc_opt_ai(v.ai) + spec_enc_opt_item(v.item), spec_enc_opt_equipment(v.equipment));
    }
    enc_bool(out, v.always_visible);
    proof {
        lemma_add_assoc(old(out)@, spec_enc_i32(v.x) + spec_enc_i32(v.y) + spec_enc_char(v.glyph) + spec_enc_color_tag(v.color) + spec_enc_name(v.name) + spec_enc_bool(v.blocks) + spec_enc_bool(v.alive) + spec_enc_i32(v.level) + spec_enc_opt_fighter(v.fighter) + spec_enc_opt_ai(v.ai) + spec_enc_opt_item(v.item) + spec_enc_opt_equipment(v.equipment), spec_enc_bool(v.always_visible));
    }
}

fn dec_object(bs: &Vec<u8>, pos: usize) -> (r: Option<(Object, usize)>)
    ensures
        dec_matches(r, spec_dec_object(bs@, pos as int)),
{
    match dec_i32(bs, pos) {
        Some((v1, p1)) => {
            match dec_i32(bs, p1) {
                Some((v2, p2)) => {
                    match dec_char(bs, p2) {
                        Some((v3, p3)) => {
                            match dec_color_tag(bs, p3) {
                                Some((v4, p4)) => {
                                    match dec_name(bs, p4) {
                                        Some((v5, p5)) => {
                                            match dec_bool(bs, p5) {
                                                Some((v6, p6)) => {
                                                    match dec_bool(bs, p6) {
                                                        Some((v7, p7)) => {
                                                            match dec_i32(bs, p7) {
                                                                Some((v8, p8)) => {
                                                                    match dec_opt_fighter(bs, p8) {
                                                                        Some((v9, p9)) => {
                                                                            match dec_opt_ai(bs, p9) {
                                                                                Some((v10, p10)) => {
                                                                                    match dec_opt_item(bs, p10) {
                                                                                        Some((v11, p11)) => {
                                                                                            match dec_opt_equipment(bs, p11) {
                                                                                                Some((v12, p12)) => {
                                                                                                    match dec_bool(bs, p12) {
                                                                                                        Some((v13, p13)) => Some((Object { x: v1, y: v2, glyph: v3, color: v4, name: v5, blocks: v6, alive: v7, level: v8, fighter: v9, ai: v10, item: v11, equipment: v12, always_visible: v13 }, p13)),
                                                                                                        None => None,
                                                                                                    }
                                                                                                },
                                                                                                None => None,
                                                                                            }
                                                                                        },
                                                                                        None => None,
                                                                                    }
                                                                                },
                                                                                None => None,
                                                                            }
                                                                        },
                                                                        None => None,
                                                                    }
                                                                },
                                                                None => None,
                                                            }
                                                        },
                                                        None => None,
                                                    }
                                                },
                                                None => None,
                                            }
                                        },
                                        None => None,
                                    }
                                },
                                None => None,
                            }
                        },
                        None => None,
                    }
                },
                None => None,
            }
        },
        None => None,
    }
}

/// Decoding inverts encoding for `Object`.
#[verifier::rlimit(100)]
pub proof fn lemma_rt_object(bs: Seq<u8>, pos: int, v: Object)
    requires
        0 <= pos,
        pos + spec_enc_object(v).len() <= bs.len(),
        bs.subrange(pos, pos + spec_enc_object(v).len() as int) == spec_enc_object(v),
        (v.glyph as u32) < 0xD800,
    ensures
        spec_dec_object(bs, pos) == Some((v, pos + spec_enc_object(v).len())),
{
    let e1 = spec_enc_i32(v.x);
    let e2 = spec_enc_i32(v.y);
    let e3 = spec_enc_char(v.glyph);
    let e4 = spec_enc_color_tag(v.color);
    let e5 = spec_enc_name(v.name);
    let e6 = spec_enc_bool(v.blocks);
    let e7 = spec_enc_bool(v.alive);
    let e8 = spec_enc_i32(v.level);
    let e9 = spec_enc_opt_fighter(v.fighter);
    let e10 = spec_enc_opt_ai(v.ai);
    let e11 = spec_enc_opt_item(v.item);
    let e12 = spec_enc_opt_equipment(v.equipment);
    let e13 = spec_enc_bool(v.always_visible);
    lemma_split_two(bs, pos, e1 + e2 + e3 + e4 + e5 + e6 + e7 + e8 + e9 + e10 + e11 + e12, e13);
    lemma_split_two(bs, pos, e1 + e2 + e3 + e4 + e5 + e6 + e7 + e8 + e9 + e10 + e11, e12);
    lemma_split_two(bs, pos, e1 + e2 + e3 + e4 + e5 + e6 + e7 + e8 + e9 + e10, e11);
    lemma_split_two(bs, pos, e1 + e2 + e3 + e4 + e5 + e6 + e7 + e8 + e9, e10);
    lemma_split_two(bs, pos, e1 + e2 + e3 + e4 + e5 + e6 + e7 + e8, e9);
    lemma_split_two(bs, pos, e1 + e2 + e3 + e4 + e5 + e6 + e7, e8);
    lemma_split_two(bs, pos, e1 + e2 + e3 + e4 + e5 + e6, e7);
    lemma_split_two(bs, pos, e1 + e2 + e3 + e4 + e5, e6);
    lemma_split_two(bs, pos, e1 + e2 + e3 + e4, e5);
    lemma_split_two(bs, pos, e1 + e2 + e3, e4);
    lemma_split_two(bs, pos, e1 + e2, e3);
    lemma_split_two(bs, pos, e1, e2);
    lemma_rt_i32(bs, pos, v.x);
    lemma_rt_i32(bs, pos + e1.len(), v.y);
    lemma_rt_char(bs, pos + e1.len() + e2.len(), v.glyph);
    lemma_rt_color_tag(bs, pos + e1.len() + e2.len() + e3.len(), v.color);
    lemma_rt_name(bs, pos + e1.len() + e2.len() + e3.len() + e4.len(), v.name);
    lemma_rt_bool(bs, pos + e1.len() + e2.len() + e3.len() + e4.len() + e5.len(), v.blocks);
    lemma_rt_bool(bs, pos + e1.len() + e2.len() + e3.len() + e4.len() + e5.len() + e6.len(), v.alive);
    lemma_rt_i32(bs, pos + e1.len() + e2.len() + e3.len() + e4.len() + e5.len() + e6.len() + e7.len(), v.level);
    lemma_rt_opt_fighter(bs, pos + e1.len() + e2.len() + e3.len() + e4.len() + e5.len() + e6.len() + e7.len() + e8.len(), v.fighter);
    lemma_rt_opt_ai(bs, pos + e1.len() + e2.len() + e3.len() + e4.len() + e5.len() + e6.len() + e7.len() + e8.len() + e9.len(), v.ai);
    lemma_rt_opt_item(bs, pos + e1.len() + e2.len() + e3.len() + e4.len() + e5.len() + e6.len() + e7.len() + e8.len() + e9.len() + e10.len(), v.item);
    lemma_rt_opt_equipment(bs, pos + e1.len() + e2.len() + e3.len() + e4.len() + e5.len() + e6.len() + e7.len() + e8.len() + e9.len() + e10.len() + e11.len(), v.equipment);
    lemma_rt_bool(bs, pos + e1.len() + e2.len() + e3.len() + e4.len() + e5.len() + e6.len() + e7.len() + e8.len() + e9.len() + e10.len() + e11.len() + e12.len(), v.always_visible);
}

/// Encoding of a list of `Tile` values: each element in order.
pub open spec fn spec_enc_tile_items(s: Seq<Tile>) -> Seq<u8>
    decreases s.len(),
{
    if s.len() == 0 {
        Seq::empty()
    } else {
        spec_enc_tile_items(s.drop_last()) + spec_enc_tile(s.last())
    }
}

/// Decoding of exactly `count` `Tile` values.
pub open spec fn spec_dec_tile_items(bs: Seq<u8>, pos: int, count: int) -> Option<
    (Seq<Tile>, int),
>
    decreases count,
{
    if count <= 0 {
        Some((Seq::empty(), pos))
    } else {
        match spec_dec_tile(bs, pos) {
            Some((x, p1)) => match spec_dec_tile_items(bs, p1, count - 1) {
                Some((rest, p2)) => Some((seq![x] + rest, p2)),
                None => None,
            },
            None => None,
        }
    }
}

/// A non-empty list's encoding starts with its first element's encoding.
pub proof fn lemma_enc_tile_items_front(s: Seq<Tile>)
    requires
        s.len() > 0,
    ensures
        spec_enc_tile_items(s) == spec_enc_tile(s[0]) + spec_enc_tile_items(
            s.drop_first(),
        ),
    decreases s.len(),
{
    if s.len() == 1 {
        assert(s.drop_last() =~= Seq::<Tile>::empty());
        assert(s.drop_first() =~= Seq::<Tile>::empty());
        lemma_add_unit(spec_enc_tile(s[0]));
    } else {
        lemma_enc_tile_items_front(s.drop_last());
        assert(s.drop_last().drop_first() =~= s.drop_first().drop_last());
        assert(s.drop_last()[0] == s[0]);
        assert(s.drop_first().last() == s.last());
        lemma_add_assoc(
            spec_enc_tile(s[0]),
            spec_enc_tile_items(s.drop_first().drop_last()),
            spec_enc_tile(s.last()),
        );
    }
}

fn enc_tile_items(out: &mut Vec<u8>, s: &Vec<Tile>)
    ensures
        final(out)@ == old(out)@ + spec_enc_tile_items(s@),
{
    let n = s.len();
    let mut i: usize = 0;
    while i < n
        invariant
            n == s@.len(),
            i <= n,
            out@ == old(out)@ + spec_enc_tile_items(s@.take(i as int)),
        decreases n - i,
    {
        enc_tile(out, &s[i]);
        proof {
            let next = s@.take(i + 1int);
            assert(next.drop_last() =~= s@.take(i as int));
            assert(next.last() == s@[i as int]);
            lemma_add_assoc(
                old(out)@,
                spec_enc_tile_items(s@.take(i as int)),
                spec_enc_tile(s@[i as int]),
            );
        }
        i = i + 1;
    }
    proof {
        assert(s@.take(n as int) =~= s@);
    }
}

fn dec_tile_items(bs: &Vec<u8>, pos: usize, count: u32) -> (r: Option<(Vec<Tile>, usize)>)
    ensures
        match (r, spec_dec_tile_items(bs@, pos as int, count as int)) {
            (Some((v, p)), Some((w, q))) => v@ == w && p == q,
            (None, None) => true,
            _ => false,
        },
    decreases count,
{
    if count == 0 {
        let empty: Vec<Tile> = Vec::new();
        proof {
            assert(empty@ =~= Seq::<Tile>::empty());
        }
        Some((empty, pos))
    } else {
        match dec_tile(bs, pos) {
            Some((x, p1)) => match dec_tile_items(bs, p1, count - 1) {
                Some((rest, p2)) => {
                    let ghost rest_view = rest@;
                    let mut whole = rest;
                    whole.insert(0, x);
                    proof {
                        lemma_cons(x, rest_view);
                    }
                    Some((whole, p2))
                },
                None => None,
            },
            None => None,
        }
    }
}

/// Decoding inverts encoding for lists of `Tile` values.
pub proof fn lemma_rt_tile_items(bs: Seq<u8>, pos: int, s: Seq<Tile>)
    requires
        0 <= pos,
        pos + spec_enc_tile_items(s).len() <= bs.len(),
        bs.subrange(pos, pos + spec_enc_tile_items(s).len() as int) == spec_enc_tile_items(
            s,
        ),
    ensures
        spec_dec_tile_items(bs, pos, s.len() as int) == Some(
            (s, pos + spec_enc_tile_items(s).len()),
        ),
    decreases s.len(),
{
    if s.len() > 0 {
        lemma_enc_tile_items_front(s);
        let e0 = spec_enc_tile(s[0]);
        let erest = spec_enc_tile_items(s.drop_first());
        lemma_split_two(bs, pos, e0, erest);
        lemma_rt_tile(bs, pos, s[0]);
        lemma_rt_tile_items(bs, pos + e0.len(), s.drop_first());
        assert(seq![s[0]] + s.drop_first() =~= s);
    }
}

/// Encoding of a list of `LogEntry` values: each element in order.
pub open spec fn spec_enc_log_entry_items(s: Seq<LogEntry>) -> Seq<u8>
    decreases s.len(),
{
    if s.len() == 0 {
        Seq::empty()
    } else {
        spec_enc_log_entry_items(s.drop_last()) + spec_enc_log_entry(s.last())
    }
}

/// Decoding of exactly `count` `LogEntry` values.
pub open spec fn spec_dec_log_entry_items(bs: Seq<u8>, pos: int, count: int) -> Option<
    (Seq<LogEntry>, int),
>
    decreases count,
{
    if count <= 0 {
        Some((Seq::empty(), pos))
    } else {
        match spec_dec_log_entry(bs, pos) {
            Some((x, p1)) => match spec_dec_log_entry_items(bs, p1, count - 1) {
                Some((rest, p2)) => Some((seq![x] + rest, p2)),
                None => None,
            },
            None => None,
        }
    }
}

/// A non-empty list's encoding starts with its first element's encoding.
pub proof fn lemma_enc_log_entry_items_front(s: Seq<LogEntry>)
    requires
        s.len() > 0,
    ensures
        spec_enc_log_entry_items(s) == spec_enc_log_entry(s[0]) + spec_enc_log_entry_items(
            s.drop_first(),
        ),
    decreases s.len(),
{
    if s.len() == 1 {
        assert(s.drop_last() =~= Seq::<LogEntry>::empty());
        assert(s.drop_first() =~= Seq::<LogEntry>::empty());
        lemma_add_unit(spec_enc_log_entry(s[0]));
    } else {
        lemma_enc_log_entry_items_front(s.drop_last());
        assert(s.drop_last().drop_first() =~= s.drop_first().drop_last());
        assert(s.drop_last()[0] == s[0]);
        assert(s.drop_first().last() == s.last());
        lemma_add_assoc(
            spec_enc_log_entry(s[0]),
            spec_enc_log_entry_items(s.drop_first().drop_last()),
            spec_enc_log_entry(s.last()),
        );
    }
}

fn enc_log_entry_items(out: &mut Vec<u8>, s: &Vec<LogEntry>)
    ensures
        final(out)@ == old(out)@ + spec_enc_log_entry_items(s@),
{
    let n = s.len();
    let mut i: usize = 0;
    while i < n
        invariant
            n == s@.len(),
            i <= n,
            out@ == old(out)@ + spec_enc_log_entry_items(s@.take(i as int)),
        decreases n - i,
    {
        enc_log_entry(out, &s[i]);
        proof {
            let next = s@.take(i + 1int);
            assert(next.drop_last() =~= s@.take(i as int));
            assert(next.last() == s@[i as int]);
            lemma_add_assoc(
                old(out)@,
                spec_enc_log_entry_items(s@.take(i as int)),
                spec_enc_log_entry(s@[i as int]),
            );
        }
        i = i + 1;
    }
    proof {
        assert(s@.take(n as int) =~= s@);
    }
}

fn dec_log_entry_items(bs: &Vec<u8>, pos: usize, count: u32) -> (r: Option<(Vec<LogEntry>, usize)>)
    ensures
        match (r, spec_dec_log_entry_items(bs@, pos as int, count as int)) {
            (Some((v, p)), Some((w, q))) => v@ == w && p == q,
            (None, None) => true,
            _ => false,
        },
    decreases count,
{
    if count == 0 {
        let empty: Vec<LogEntry> = Vec::new();
        proof {
            assert(empty@ =~= Seq::<LogEntry>::empty());
        }
        Some((empty, pos))
    } else {
        match dec_log_entry(bs, pos) {
            Some((x, p1)) => match dec_log_entry_items(bs, p1, count - 1) {
                Some((rest, p2)) => {
                    let ghost rest_view = rest@;
                    let mut whole = rest;
                    whole.insert(0, x);
                    proof {
                        lemma_cons(x, rest_view);
                    }
                    Some((whole, p2))
                },
                None => None,
            },
            None => None,
        }
    }
}

/// Decoding inverts encoding for lists of `LogEntry` values.
pub proof fn lemma_rt_log_entry_items(bs: Seq<u8>, pos: int, s: Seq<LogEntry>)
    requires
        0 <= pos,
        pos + spec_enc_log_entry_items(s).len() <= bs.len(),
        bs.subrange(pos, pos + spec_enc_log_entry_items(s).len() as int) == spec_enc_log_entry_items(
            s,
        ),
    ensures
        spec_dec_log_entry_items(bs, pos, s.len() as int) == Some(
            (s, pos + spec_enc_log_entry_items(s).len()),
        ),
    decreases s.len(),
{
    if s.len() > 0 {
        lemma_enc_log_entry_items_front(s);
        let e0 = spec_enc_log_entry(s[0]);
        let erest = spec_enc_log_entry_items(s.drop_first());
        lemma_split_two(bs, pos, e0, erest);
        lemma_rt_log_entry(bs, pos, s[0]);
        lemma_rt_log_entry_items(bs, pos + e0.len(), s.drop_first());
        assert(seq![s[0]] + s.drop_first() =~= s);
    }
}

/// Encoding of a list of `Object` values: each element in order.
pub open spec fn spec_enc_object_items(s: Seq<Object>) -> Seq<u8>
    decreases s.len(),
{
    if s.len() == 0 {
        Seq::empty()
    } else {
        spec_enc_object_items(s.drop_last()) + spec_enc_object(s.last())
    }
}

/// Decoding of exactly `count` `Object` values.
pub open spec fn spec_dec_object_items(bs: Seq<u8>, pos: int, count: int) -> Option<
    (Seq<Object>, int),
>
    decreases count,
{
    if count <= 0 {
        Some((Seq::empty(), pos))
    } else {
        match spec_dec_object(bs, pos) {
            Some((x, p1)) => match spec_dec_object_items(bs, p1, count - 1) {
                Some((rest, p2)) => Some((seq![x] + rest, p2)),
                None => None,
            },
            None => None,
        }
    }
}

/// A non-empty list's encoding starts with its first element's encoding.
pub proof fn lemma_enc_object_items_front(s: Seq<Object>)
    requires
        s.len() > 0,
    ensures
        spec_enc_object_items(s) == spec_enc_object(s[0]) + spec_enc_object_items(
            s.drop_first(),
        ),
    decreases s.len(),
{
    if s.len() == 1 {
        assert(s.drop_last() =~= Seq::<Object>::empty());
        assert(s.drop_first() =~= Seq::<Object>::empty());
        lemma_add_unit(spec_enc_object(s[0]));
    } else {
        lemma_enc_object_items_front(s.drop_last());
        assert(s.drop_last().drop_first() =~= s.drop_first().drop_last());
        assert(s.drop_last()[0] == s[0]);
        assert(s.drop_first().last() == s.last());
        lemma_add_assoc(
            spec_enc_object(s[0]),
            spec_enc_object_items(s.drop_first().drop_last()),
            spec_enc_object(s.last()),
        );
    }
}

fn enc_object_items(out: &mut Vec<u8>, s: &Vec<Object>)
    ensures
        final(out)@ == old(out)@ + spec_enc_object_items(s@),
{
    let n = s.len();
    let mut i: usize = 0;
    while i < n
        invariant
            n == s@.len(),
            i <= n,
            out@ == old(out)@ + spec_enc_object_items(s@.take(i as int)),
        decreases n - i,
    {
        enc_object(out, &s[i]);
        proof {
            let next = s@.take(i + 1int);
            assert(next.drop_last() =~= s@.take(i as int));
            assert(next.last() == s@[i as int]);
            lemma_add_assoc(
                old(out)@,
                spec_enc_object_items(s@.take(i as int)),
                spec_enc_object(s@[i as int]),
            );
        }
        i = i + 1;
    }
    proof {
        assert(s@.take(n as int) =~= s@);
    }
}

#[verifier::rlimit(100)]
fn dec_object_items(bs: &Vec<u8>, pos: usize, count: u32) -> (r: Option<(Vec<Object>, usize)>)
    ensures
        match (r, spec_dec_object_items(bs@, pos as int, count as int)) {
            (Some((v, p)), Some((w, q))) => v@ == w && p == q,
            (None, None) => true,
            _ => false,
        },
    decreases count,
{
    if count == 0 {
        let empty: Vec<Object> = Vec::new();
        proof {
            assert(empty@ =~= Seq::<Object>::empty());
        }
        Some((empty, pos))
    } else {
        match dec_object(bs, pos) {
            Some((x, p1)) => match dec_object_items(bs, p1, count - 1) {
                Some((rest, p2)) => {
                    let ghost rest_view = rest@;
                    let mut whole = rest;
                    whole.insert(0, x);
                    proof {
                        lemma_cons(x, rest_view);
                    }
                    Some((whole, p2))
                },
                None => None,
            },
            None => None,
        }
    }
}

/// Decoding inverts encoding for lists of `Object` values.
#[verifier::rlimit(100)]
pub proof fn lemma_rt_object_items(bs: Seq<u8>, pos: int, s: Seq<Object>)
    requires
        0 <= pos,
        pos + spec_enc_object_items(s).len() <= bs.len(),
        bs.subrange(pos, pos + spec_enc_object_items(s).len() as int) == spec_enc_object_items(
            s,
        ),
        forall|k: int| 0 <= k < s.len() ==> ((#[trigger] s[k]).glyph as u32) < 0xD800,
    ensures
        spec_dec_object_items(bs, pos, s.len() as int) == Some(
            (s, pos + spec_enc_object_items(s).len()),
        ),
    decreases s.len(),
{
    if s.len() > 0 {
        lemma_enc_object_items_front(s);
        let e0 = spec_enc_object(s[0]);
        let erest = spec_enc_object_items(s.drop_first());
        lemma_split_two(bs, pos, e0, erest);
        lemma_rt_object(bs, pos, s[0]);
        lemma_rt_object_items(bs, pos + e0.len(), s.drop_first());
        assert(seq![s[0]] + s.drop_first() =~= s);
    }
}

/// Encoding of a counted list of `Tile` values: the count, then each
/// element in order.
pub open spec fn spec_enc_tile_list(s: Seq<Tile>) -> Seq<u8> {
    spec_enc_u32(s.len() as u32) + spec_enc_tile_items(s)
}

/// Decoding of a counted list of `Tile` values.
pub open spec fn spec_dec_tile_list(bs: Seq<u8>, pos: int) -> Option<(Seq<Tile>, int)> {
    match spec_dec_u32(bs, pos) {
        Some((n, p1)) => spec_dec_tile_items(bs, p1, n as int),
        None => None,
    }
}

fn enc_tile_list(out: &mut Vec<u8>, s: &Vec<Tile>)
    requires
        s@.len() < 0x100000000,
    ensures
        final(out)@ == old(out)@ + spec_enc_tile_list(s@),
{
    enc_u32(out, s.len() as u32);
    enc_tile_items(out, s);
    proof {
        lemma_add_assoc(old(out)@, spec_enc_u32(s@.len() as u32), spec_enc_tile_items(s@));
    }
}

fn dec_tile_list(bs: &Vec<u8>, pos: usize) -> (r: Option<(Vec<Tile>, usize)>)
    ensures
        match (r, spec_dec_tile_list(bs@, pos as int)) {
            (Some((v, p)), Some((w, q))) => v@ == w && p == q,
            (None, None) => true,
            _ => false,
        },
{
    match dec_u32(bs, pos) {
        Some((n, p1)) => dec_tile_items(bs, p1, n),
        None => None,
    }
}

/// Decoding inverts encoding for counted lists of `Tile` values.
pub proof fn lemma_rt_tile_list(bs: Seq<u8>, pos: int, s: Seq<Tile>)
    requires
        0 <= pos,
        s.len() < 0x100000000,
        pos + spec_enc_tile_list(s).len() <= bs.len(),
        bs.subrange(pos, pos + spec_enc_tile_list(s).len() as int) == spec_enc_tile_list(
            s,
        ),
    ensures
        spec_dec_tile_list(bs, pos) == Some((s, pos + spec_enc_tile_list(s).len())),
{
    lemma_split_two(bs, pos, spec_enc_u32(s.len() as u32), spec_enc_tile_items(s));
    lemma_rt_u32(bs, pos, s.len() as u32);
    lemma_rt_tile_items(bs, pos + 4, s);
}

/// Encoding of a counted list of `LogEntry` values: the count, then each
/// element in order.
pub open spec fn spec_enc_log_entry_list(s: Seq<LogEntry>) -> Seq<u8> {
    spec_enc_u32(s.len() as u32) + spec_enc_log_entry_items(s)
}

/// Decoding of a counted list of `LogEntry` values.
pub open spec fn spec_dec_log_entry_list(bs: Seq<u8>, pos: int) -> Option<(Seq<LogEntry>, int)> {
    match spec_dec_u32(bs, pos) {
        Some((n, p1)) => spec_dec_log_entry_items(bs, p1, n as int),
        None => None,
    }
}

fn enc_log_entry_list(out: &mut Vec<u8>, s: &Vec<LogEntry>)
    requires
        s@.len() < 0x100000000,
    ensures
        final(out)@ == old(out)@ + spec_enc_log_entry_list(s@),
{
    enc_u32(out, s.len() as u32);
    enc_log_entry_items(out, s);
    proof {
        lemma_add_assoc(old(out)@, spec_enc_u32(s@.len() as u32), spec_enc_log_entry_items(s@));
    }
}

fn dec_log_entry_list(bs: &Vec<u8>, pos: usize) -> (r: Option<(Vec<LogEntry>, usize)>)
    ensures
        match (r, spec_dec_log_entry_list(bs@, pos as int)) {
            (Some((v, p)), Some((w, q))) => v@ == w && p == q,
            (None, None) => true,
            _ => false,
        },
{
    match dec_u32(bs, pos) {
        Some((n, p1)) => dec_log_entry_items(bs, p1, n),
        None => None,
    }
}

/// Decoding inverts encoding for counted lists of `LogEntry` values.
pub proof fn lemma_rt_log_entry_list(bs: Seq<u8>, pos: int, s: Seq<LogEntry>)
    requires
        0 <= pos,
        s.len() < 0x100000000,
        pos + spec_enc_log_entry_list(s).len() <= bs.len(),
        bs.subrange(pos, pos + spec_enc_log_entry_list(s).len() as int) == spec_enc_log_entry_list(
            s,
        ),
    ensures
        spec_dec_log_entry_list(bs, pos) == Some((s, pos + spec_enc_log_entry_list(s).len())),
{
    lemma_split_two(bs, pos, spec_enc_u32(s.len() as u32), spec_enc_log_entry_items(s));
    lemma_rt_u32(bs, pos, s.len() as u32);
    lemma_rt_log_entry_items(bs, pos + 4, s);
}

/// Encoding of a counted list of `Object` values: the count, then each
/// element in order.
pub open spec fn spec_enc_object_list(s: Seq<Object>) -> Seq<u8> {
    spec_enc_u32(s.len() as u32) + spec_enc_object_items(s)
}

/// Decoding of a counted list of `Object` values.
pub open spec fn spec_dec_object_list(bs: Seq<u8>, pos: int) -> Option<(Seq<Object>, int)> {
    match spec_dec_u32(bs, pos) {
        Some((n, p1)) => spec_dec_object_items(bs, p1, n as int),
        None => None,
    }
}

fn enc_object_list(out: &mut Vec<u8>, s: &Vec<Object>)
    requires
        s@.len() < 0x100000000,
    ensures
        final(out)@ == old(out)@ + spec_enc_object_list(s@),
{
    enc_u32(out, s.len() as u32);
    enc_object_items(out, s);
    proof {
        lemma_add_assoc(old(out)@, spec_enc_u32(s@.len() as u32), spec_enc_object_items(s@));
    }
}

fn dec_object_list(bs: &Vec<u8>, pos: usize) -> (r: Option<(Vec<Object>, usize)>)
    ensures
        match (r, spec_dec_object_list(bs@, pos as int)) {
            (Some((v, p)), Some((w, q))) => v@ == w && p == q,
            (None, None) => true,
            _ => false,
        },
{
    match dec_u32(bs, pos) {
        Some((n, p1)) => dec_object_items(bs, p1, n),
        None => None,
    }
}

/// Decoding inverts encoding for counted lists of `Object` values.
pub proof fn lemma_rt_object_list(bs: Seq<u8>, pos: int, s: Seq<Object>)
    requires
        0 <= pos,
        s.len() < 0x100000000,
        pos + spec_enc_object_list(s).len() <= bs.len(),
        bs.subrange(pos, pos + spec_enc_object_list(s).len() as int) == spec_enc_object_list(
            s,
        ),
        forall|k: int| 0 <= k < s.len() ==> ((#[trigger] s[k]).glyph as u32) < 0xD800,
    ensures
        spec_dec_object_list(bs, pos) == Some((s, pos + spec_enc_object_list(s).len())),
{
    lemma_split_two(bs, pos, spec_enc_u32(s.len() as u32), spec_enc_object_items(s));
    lemma_rt_u32(bs, pos, s.len() as u32);
    lemma_rt_object_items(bs, pos + 4, s);
}

/// The grid's columns as mathematical sequences of tiles.
pub open spec fn cols_view(s: Seq<Vec<Tile>>) -> Seq<Seq<Tile>> {
    s.map_values(|c: Vec<Tile>| c@)
}

/// Encoding of the grid's columns: each column as a counted tile list.
pub open spec fn spec_enc_grid_items(g: Seq<Seq<Tile>>) -> Seq<u8>
    decreases g.len(),
{
    if g.len() == 0 {
        Seq::empty()
    } else {
        spec_enc_grid_items(g.drop_last()) + spec_enc_tile_list(g.last())
    }
}

/// Decoding of exactly `count` columns.
pub open spec fn spec_dec_grid_items(bs: Seq<u8>, pos: int, count: int) -> Option<
    (Seq<Seq<Tile>>, int),
>
    decreases count,
{
    if count <= 0 {
        Some((Seq::empty(), pos))
    } else {
        match spec_dec_tile_list(bs, pos) {
            Some((c, p1)) => match spec_dec_grid_items(bs, p1, count - 1) {
                Some((rest, p2)) => Some((seq![c] + rest, p2)),
                None => None,
            },
            None => None,
        }
    }
}

/// A non-empty column list's encoding starts with its first column's.
pub proof fn lemma_enc_grid_items_front(g: Seq<Seq<Tile>>)
    requires
        g.len() > 0,
    ensures
        spec_enc_grid_items(g) == spec_enc_tile_list(g[0]) + spec_enc_grid_items(g.drop_first()),
    decreases g.len(),
{
    if g.len() == 1 {
        assert(g.drop_last() =~= Seq::<Seq<Tile>>::empty());
        assert(g.drop_first() =~= Seq::<Seq<Tile>>::empty());
        lemma_add_unit(spec_enc_tile_list(g[0]));
    } else {
        lemma_enc_grid_items_front(g.drop_last());
        assert(g.drop_last().drop_first() =~= g.drop_first().drop_last());
        assert(g.drop_last()[0] == g[0]);
        assert(g.drop_first().last() == g.last());
        lemma_add_assoc(
            spec_enc_tile_list(g[0]),
            spec_enc_grid_items(g.drop_first().drop_last()),
            spec_enc_tile_list(g.last()),
        );
    }
}

fn enc_grid_items(out: &mut Vec<u8>, g: &Vec<Vec<Tile>>)
    requires
        forall|i: int| 0 <= i < g@.len() ==> (#[trigger] g@[i])@.len() < 0x100000000,
    ensures
        final(out)@ == old(out)@ + spec_enc_grid_items(cols_view(g@)),
{
    let n = g.len();
    let mut i: usize = 0;
    while i < n
        invariant
            n == g@.len(),
            i <= n,
            forall|k: int| 0 <= k < g@.len() ==> (#[trigger] g@[k])@.len() < 0x100000000,
            out@ == old(out)@ + spec_enc_grid_items(cols_view(g@.take(i as int))),
        decreases n - i,
    {
        enc_tile_list(out, &g[i]);
        proof {
            let next = cols_view(g@.take(i + 1int));
            assert(next.drop_last() =~= cols_view(g@.take(i as int)));
            assert(next.last() == g@[i as int]@);
            lemma_add_assoc(
                old(out)@,
                spec_enc_grid_items(cols_view(g@.take(i as int))),
                spec_enc_tile_list(g@[i as int]@),
            );
        }
        i = i + 1;
    }
    proof {
        assert(cols_view(g@.take(n as int)) =~= cols_view(g@));
    }
}

fn dec_grid_items(bs: &Vec<u8>, pos: usize, count: u32) -> (r: Option<(Vec<Vec<Tile>>, usize)>)
    ensures
        match (r, spec_dec_grid_items(bs@, pos as int, count as int)) {
            (Some((v, p)), Some((w, q))) => cols_view(v@) == w && p == q,
            (None, None) => true,
            _ => false,
        },
    decreases count,
{
    if count == 0 {
        let empty: Vec<Vec<Tile>> = Vec::new();
        proof {
            assert(cols_view(empty@) =~= Seq::<Seq<Tile>>::empty());
        }
        Some((empty, pos))
    } else {
        match dec_tile_list(bs, pos) {
            Some((c, p1)) => match dec_grid_items(bs, p1, count - 1) {
                Some((rest, p2)) => {
                    let ghost c_view = c@;
                    let ghost rest_view = rest@;
                    let mut whole = rest;
                    whole.insert(0, c);
                    proof {
                        assert(cols_view(whole@) =~= seq![c_view] + cols_view(rest_view));
                    }
                    Some((whole, p2))
                },
                None => None,
            },
            None => None,
        }
    }
}

/// Decoding inverts encoding for column lists.
pub proof fn lemma_rt_grid_items(bs: Seq<u8>, pos: int, g: Seq<Seq<Tile>>)
    requires
        0 <= pos,
        pos + spec_enc_grid_items(g).len() <= bs.len(),
        bs.subrange(pos, pos + spec_enc_grid_items(g).len() as int) == spec_enc_grid_items(g),
        forall|k: int| 0 <= k < g.len() ==> (#[trigger] g[k]).len() < 0x100000000,
    ensures
        spec_dec_grid_items(bs, pos, g.len() as int) == Some(
            (g, pos + spec_enc_grid_items(g).len()),
        ),
    decreases g.len(),
{
    if g.len() > 0 {
        lemma_enc_grid_items_front(g);
        let e0 = spec_enc_tile_list(g[0]);
        let erest = spec_enc_grid_items(g.drop_first());
        lemma_split_two(bs, pos, e0, erest);
        lemma_rt_tile_list(bs, pos, g[0]);
        lemma_rt_grid_items(bs, pos + e0.len(), g.drop_first());
        assert(seq![g[0]] + g.drop_first() =~= g);
    }
}

/// Encoding of the whole grid: a column count, then the columns.
pub open spec fn spec_enc_grid(g: Seq<Seq<Tile>>) -> Seq<u8> {
    spec_enc_u32(g.len() as u32) + spec_enc_grid_items(g)
}

/// Decoding of the whole grid.
pub open spec fn spec_dec_grid(bs: Seq<u8>, pos: int) -> Option<(Seq<Seq<Tile>>, int)> {
    match spec_dec_u32(bs, pos) {
        Some((n, p1)) => spec_dec_grid_items(bs, p1, n as int),
        None => None,
    }
}

fn enc_grid(out: &mut Vec<u8>, g: &Vec<Vec<Tile>>)
    requires
        g@.len() < 0x100000000,
        forall|i: int| 0 <= i < g@.len() ==> (#[trigger] g@[i])@.len() < 0x100000000,
    ensures
        final(out)@ == old(out)@ + spec_enc_grid(cols_view(g@)),
{
    enc_u32(out, g.len() as u32);
    enc_grid_items(out, g);
    proof {
        lemma_add_assoc(
            old(out)@,
            spec_enc_u32(g@.len() as u32),
            spec_enc_grid_items(cols_view(g@)),
        );
    }
}

fn dec_grid(bs: &Vec<u8>, pos: usize) -> (r: Option<(Vec<Vec<Tile>>, usize)>)
    ensures
        match (r, spec_dec_grid(bs@, pos as int)) {
            (Some((v, p)), Some((w, q))) => cols_view(v@) == w && p == q,
            (None, None) => true,
            _ => false,
        },
{
    match dec_u32(bs, pos) {
        Some((n, p1)) => dec_grid_items(bs, p1, n),
        None => None,
    }
}

/// Decoding inverts encoding for whole grids.
pub proof fn lemma_rt_grid(bs: Seq<u8>, pos: int, g: Seq<Seq<Tile>>)
    requires
        0 <= pos,
        g.len() < 0x100000000,
        pos + spec_enc_grid(g).len() <= bs.len(),
        bs.subrange(pos, pos + spec_enc_grid(g).len() as int) == spec_enc_grid(g),
        forall|k: int| 0 <= k < g.len() ==> (#[trigger] g[k]).len() < 0x100000000,
    ensures
        spec_dec_grid(bs, pos) == Some((g, pos + spec_enc_grid(g).len())),
{
    lemma_split_two(bs, pos, spec_enc_u32(g.len() as u32), spec_enc_grid_items(g));
    lemma_rt_u32(bs, pos, g.len() as u32);
    lemma_rt_grid_items(bs, pos + 4, g);
}

/// The decoded shape of a session document: the grid's tiles, the message
/// log's entries, the inventory, the depth counter, and the world entities.
pub open spec fn spec_enc_session(game: Game, objects: Seq<Object>) -> Seq<u8> {
    spec_enc_grid(cols_view(game.map.tiles@)) + spec_enc_log_entry_list(game.messages.entries@)
        + spec_enc_object_list(game.inventory@) + spec_enc_u32(game.dungeon_level)
        + spec_enc_object_list(objects)
}

/// Decoding of a session document.
pub open spec fn spec_dec_session(bs: Seq<u8>, pos: int) -> Option<
    ((Seq<Seq<Tile>>, Seq<LogEntry>, Seq<Object>, u32, Seq<Object>), int),
> {
    match spec_dec_grid(bs, pos) {
        Some((tiles, p1)) => match spec_dec_log_entry_list(bs, p1) {
            Some((entries, p2)) => match spec_dec_object_list(bs, p2) {
                Some((inventory, p3)) => match spec_dec_u32(bs, p3) {
                    Some((depth, p4)) => match spec_dec_object_list(bs, p4) {
                        Some((objects, p5)) => Some(
                            ((tiles, entries, inventory, depth, objects), p5),
                        ),
                        None => None,
                    },
                    None => None,
                },
                None => None,
            },
            None => None,
        },
        None => None,
    }
}

/// Whether a session fits the document format: bounded list lengths, and no
/// glyph at or above the surrogate range (the entity invariant guarantees
/// the latter).
pub open spec fn session_encodable(game: Game, objects: Seq<Object>) -> bool {
    &&& game.map.tiles@.len() < 0x100000000
    &&& (forall|i: int|
        0 <= i < game.map.tiles@.len() ==> (#[trigger] game.map.tiles@[i])@.len() < 0x100000000)
    &&& game.messages.entries@.len() < 0x100000000
    &&& game.inventory@.len() < 0x100000000
    &&& objects.len() < 0x100000000
    &&& (forall|k: int|
        0 <= k < game.inventory@.len() ==> ((#[trigger] game.inventory@[k]).glyph as u32) < 0xD800)
    &&& (forall|k: int| 0 <= k < objects.len() ==> ((#[trigger] objects[k]).glyph as u32) < 0xD800)
}

/// Whether a decoded session reproduces exactly the given one: identical map
/// tiles, message log entries, inventory contents, depth, and entities.
pub open spec fn session_matches(
    game: Game,
    objects: Seq<Object>,
    decoded: (Seq<Seq<Tile>>, Seq<LogEntry>, Seq<Object>, u32, Seq<Object>),
) -> bool {
    &&& cols_view(game.map.tiles@) == decoded.0
    &&& game.messages.entries@ == decoded.1
    &&& game.inventory@ == decoded.2
    &&& game.dungeon_level == decoded.3
    &&& objects == decoded.4
}

/// Locates the five sections of a five-part concatenation.
proof fn lemma_locate_five(bs: Seq<u8>, e1: Seq<u8>, e2: Seq<u8>, e3: Seq<u8>, e4: Seq<u8>, e5: Seq<u8>)
    requires
        bs == e1 + e2 + e3 + e4 + e5,
    ensures
        bs.len() == e1.len() + e2.len() + e3.len() + e4.len() + e5.len(),
        bs.subrange(0, e1.len() as int) == e1,
        bs.subrange(e1.len() as int, e1.len() + e2.len() as int) == e2,
        bs.subrange(e1.len() + e2.len() as int, e1.len() + e2.len() + e3.len() as int) == e3,
        bs.subrange(
            e1.len() + e2.len() + e3.len() as int,
            e1.len() + e2.len() + e3.len() + e4.len() as int,
        ) == e4,
        bs.subrange(
            e1.len() + e2.len() + e3.len() + e4.len() as int,
            e1.len() + e2.len() + e3.len() + e4.len() + e5.len() as int,
        ) == e5,
{
    lemma_subrange_all(bs);
    lemma_split_two(bs, 0, e1 + e2 + e3 + e4, e5);
    lemma_split_two(bs, 0, e1 + e2 + e3, e4);
    lemma_split_two(bs, 0, e1 + e2, e3);
    lemma_split_two(bs, 0, e1, e2);
}

/// One section of the session round trip.
#[verifier::rlimit(100)]
#[verifier::spinoff_prover]
proof fn lemma_session_section_one(game: Game, objects: Seq<Object>)
    requires
        session_encodable(game, objects),
    ensures
        ({
            let bs = spec_enc_session(game, objects);
            let e1 = spec_enc_grid(cols_view(game.map.tiles@));
            let e2 = spec_enc_log_entry_list(game.messages.entries@);
            let e3 = spec_enc_object_list(game.inventory@);
            let e4 = spec_enc_u32(game.dungeon_level);
            let e5 = spec_enc_object_list(objects);
            spec_dec_grid(bs, 0) == Some((cols_view(game.map.tiles@), e1.len() as int))
        }),
{
    let bs = spec_enc_session(game, objects);
    let e1 = spec_enc_grid(cols_view(game.map.tiles@));
    let e2 = spec_enc_log_entry_list(game.messages.entries@);
    let e3 = spec_enc_object_list(game.inventory@);
    let e4 = spec_enc_u32(game.dungeon_level);
    let e5 = spec_enc_object_list(objects);
    lemma_locate_five(bs, e1, e2, e3, e4, e5);
    lemma_rt_grid(bs, 0, cols_view(game.map.tiles@));
}

/// One section of the session round trip.
#[verifier::rlimit(100)]
#[verifier::spinoff_prover]
proof fn lemma_session_section_two(game: Game, objects: Seq<Object>)
    requires
        session_encodable(game, objects),
    ensures
        ({
            let bs = spec_enc_session(game, objects);
            let e1 = spec_enc_grid(cols_view(game.map.tiles@));
            let e2 = spec_enc_log_entry_list(game.messages.entries@);
            let e3 = spec_enc_object_list(game.inventory@);
            let e4 = spec_enc_u32(game.dungeon_level);
            let e5 = spec_enc_object_list(objects);
            spec_dec_log_entry_list(bs, e1.len() as int) == Some((game.messages.entries@, e1.len() + e2.len() as int))
        }),
{
    let bs = spec_enc_session(game, objects);
    let e1 = spec_enc_grid(cols_view(game.map.tiles@));
    let e2 = spec_enc_log_entry_list(game.messages.entries@);
    let e3 = spec_enc_object_list(game.inventory@);
    let e4 = spec_enc_u32(game.dungeon_level);
    let e5 = spec_enc_object_list(objects);
    lemma_locate_five(bs, e1, e2, e3, e4, e5);
    lemma_rt_log_entry_list(bs, e1.len() as int, game.messages.entries@);
}

/// One section of the session round trip.
#[verifier::rlimit(100)]
#[verifier::spinoff_prover]
proof fn lemma_session_section_three(game: Game, objects: Seq<Object>)
    requires
        session_encodable(game, objects),
    ensures
        ({
            let bs = spec_enc_session(game, objects);
            let e1 = spec_enc_grid(cols_view(game.map.tiles@));
            let e2 = spec_enc_log_entry_list(game.messages.entries@);
            let e3 = spec_enc_object_list(game.inventory@);
            let e4 = spec_enc_u32(game.dungeon_level);
            let e5 = spec_enc_object_list(objects);
            spec_dec_object_list(bs, e1.len() + e2.len() as int) == Some((game.inventory@, e1.len() + e2.len() + e3.len() as int))
        }),
{
    let bs = spec_enc_session(game, objects);
    let e1 = spec_enc_grid(cols_view(game.map.tiles@));
    let e2 = spec_enc_log_entry_list(game.messages.entries@);
    let e3 = spec_enc_object_list(game.inventory@);
    let e4 = spec_enc_u32(game.dungeon_level);
    let e5 = spec_enc_object_list(objects);
    lemma_locate_five(bs, e1, e2, e3, e4, e5);
    lemma_rt_object_list(bs, e1.len() + e2.len() as int, game.inventory@);
}

/// One section of the session round trip.
#[verifier::rlimit(100)]
#[verifier::spinoff_prover]
proof fn lemma_session_section_four(game: Game, objects: Seq<Object>)
    requires
        session_encodable(game, objects),
    ensures
        ({
            let bs = spec_enc_session(game, objects);
            let e1 = spec_enc_grid(cols_view(game.map.tiles@));
            let e2 = spec_enc_log_entry_list(game.messages.entries@);
            let e3 = spec_enc_object_list(game.inventory@);
            let e4 = spec_enc_u32(game.dungeon_level);
            let e5 = spec_enc_object_list(objects);
            spec_dec_u32(bs, e1.len() + e2.len() + e3.len() as int) == Some((game.dungeon_level, e1.len() + e2.len() + e3.len() + e4.len() as int))
        }),
{
    let bs = spec_enc_session(game, objects);
    let e1 = spec_enc_grid(cols_view(game.map.tiles@));
    let e2 = spec_enc_log_entry_list(game.messages.entries@);
    let e3 = spec_enc_object_list(game.inventory@);
    let e4 = spec_enc_u32(game.dungeon_level);
    let e5 = spec_enc_object_list(objects);
    lemma_locate_five(bs, e1, e2, e3, e4, e5);
    lemma_rt_u32(bs, e1.len() + e2.len() + e3.len() as int, game.dungeon_level);
}

/// One section of the session round trip.
#[verifier::rlimit(100)]
#[verifier::spinoff_prover]
proof fn lemma_session_section_five(game: Game, objects: Seq<Object>)
    requires
        session_encodable(game, objects),
    ensures
        ({
            let bs = spec_enc_session(game, objects);
            let e1 = spec_enc_grid(cols_view(game.map.tiles@));
            let e2 = spec_enc_log_entry_list(game.messages.entries@);
            let e3 = spec_enc_object_list(game.inventory@);
            let e4 = spec_enc_u32(game.dungeon_level);
            let e5 = spec_enc_object_list(objects);
            spec_dec_object_list(bs, e1.len() + e2.len() + e3.len() + e4.len() as int) == Some((objects, e1.len() + e2.len() + e3.len() + e4.len() + e5.len() as int)) && e1.len() + e2.len() + e3.len() + e4.len() + e5.len() == bs.len()
        }),
{
    let bs = spec_enc_session(game, objects);
    let e1 = spec_enc_grid(cols_view(game.map.tiles@));
    let e2 = spec_enc_log_entry_list(game.messages.entries@);
    let e3 = spec_enc_object_list(game.inventory@);
    let e4 = spec_enc_u32(game.dungeon_level);
    let e5 = spec_enc_object_list(objects);
    lemma_locate_five(bs, e1, e2, e3, e4, e5);
    lemma_rt_object_list(bs, e1.len() + e2.len() + e3.len() + e4.len() as int, objects);
}

/// Locates each section of an encoded session and decodes it back.
#[verifier::rlimit(100)]
#[verifier::spinoff_prover]
proof fn lemma_session_sections(game: Game, objects: Seq<Object>)
    requires
        session_encodable(game, objects),
    ensures
        ({
            let bs = spec_enc_session(game, objects);
            let e1 = spec_enc_grid(cols_view(game.map.tiles@));
            let e2 = spec_enc_log_entry_list(game.messages.entries@);
            let e3 = spec_enc_object_list(game.inventory@);
            let e4 = spec_enc_u32(game.dungeon_level);
            let e5 = spec_enc_object_list(objects);
            let p1 = e1.len() as int;
            let p2 = e1.len() + e2.len() as int;
            let p3 = e1.len() + e2.len() + e3.len() as int;
            let p4 = e1.len() + e2.len() + e3.len() + e4.len() as int;
            let p5 = e1.len() + e2.len() + e3.len() + e4.len() + e5.len() as int;
            &&& spec_dec_grid(bs, 0) == Some((cols_view(game.map.tiles@), p1))
            &&& spec_dec_log_entry_list(bs, p1) == Some((game.messages.entries@, p2))
            &&& spec_dec_object_list(bs, p2) == Some((game.inventory@, p3))
            &&& spec_dec_u32(bs, p3) == Some((game.dungeon_level, p4))
            &&& spec_dec_object_list(bs, p4) == Some((objects, p5))
            &&& p5 == bs.len()
        }),
{
    lemma_session_section_one(game, objects);
    lemma_session_section_two(game, objects);
    lemma_session_section_three(game, objects);
    lemma_session_section_four(game, objects);
    lemma_session_section_five(game, objects);
}

/// Law: restoring a saved session reproduces it exactly — decoding the
/// encoding of any encodable session consumes the whole document and yields
/// identical map tiles, message log entries, inventory contents, depth, and
/// entity list.
#[verifier::rlimit(100)]
#[verifier::spinoff_prover]
pub proof fn lemma_session_round_trip(game: Game, objects: Seq<Object>)
    requires
        session_encodable(game, objects),
    ensures
        ({
            let bs = spec_enc_session(game, objects);
            &&& spec_dec_session(bs, 0) is Some
            &&& spec_dec_session(bs, 0)->Some_0.1 == bs.len()
            &&& session_matches(game, objects, spec_dec_session(bs, 0)->Some_0.0)
        }),
{
    lemma_session_sections(game, objects);
}

/// Encode the whole session — map, message log, inventory, depth, and the
/// full entity collection — as one document.
pub fn encode_session(game: &Game, objects: &Vec<Object>) -> (out: Vec<u8>)
    requires
        session_encodable(*game, objects@),
    ensures
        out@ == spec_enc_session(*game, objects@),
{
    let mut out: Vec<u8> = Vec::new();
    enc_grid(&mut out, &game.map.tiles);
    enc_log_entry_list(&mut out, &game.messages.entries);
    enc_object_list(&mut out, &game.inventory);
    enc_u32(&mut out, game.dungeon_level);
    enc_object_list(&mut out, objects);
    proof {
        let e1 = spec_enc_grid(cols_view(game.map.tiles@));
        let e2 = spec_enc_log_entry_list(game.messages.entries@);
        let e3 = spec_enc_object_list(game.inventory@);
        let e4 = spec_enc_u32(game.dungeon_level);
        let e5 = spec_enc_object_list(objects@);
        assert(Seq::<u8>::empty() + e1 =~= e1);
        assert(out@ =~= e1 + e2 + e3 + e4 + e5);
    }
    out
}

/// Decode one document back into a session. Any malformed or trailing bytes
/// make the whole load fail, uniformly, with no partial recovery.
pub fn decode_session(bytes: &Vec<u8>) -> (r: Option<(Game, Vec<Object>)>)
    ensures
        match r {
            Some((game, objects)) => {
                &&& spec_dec_session(bytes@, 0) is Some
                &&& spec_dec_session(bytes@, 0)->Some_0.1 == bytes@.len()
                &&& session_matches(game, objects@, spec_dec_session(bytes@, 0)->Some_0.0)
            },
            None => !(spec_dec_session(bytes@, 0) matches Some((_, p)) && p == bytes@.len()),
        },
{
    let r1 = dec_grid(bytes, 0);
    let (tiles, p1) = match r1 {
        Some(v) => v,
        None => {
            return None;
        },
    };
    let r2 = dec_log_entry_list(bytes, p1);
    let (entries, p2) = match r2 {
        Some(v) => v,
        None => {
            return None;
        },
    };
    let r3 = dec_object_list(bytes, p2);
    let (inventory, p3) = match r3 {
        Some(v) => v,
        None => {
            return None;
        },
    };
    let r4 = dec_u32(bytes, p3);
    let (depth, p4) = match r4 {
        Some(v) => v,
        None => {
            return None;
        },
    };
    let r5 = dec_object_list(bytes, p4);
    let (objects, p5) = match r5 {
        Some(v) => v,
        None => {
            return None;
        },
    };
    if p5 != bytes.len() {
        return None;
    }
    let game = Game {
        map: DungeonMap { tiles },
        messages: Messages { entries },
        inventory,
        dungeon_level: depth,
    };
    Some((game, objects))
}

} // verus!

