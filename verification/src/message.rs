//! The ordered, append-only message log.
//!
//! Each entry is structured data — a message kind plus the names, slot and
//! number it mentions — with a color tag. The rendering collaborator turns
//! an entry into one line of text.

use vstd::prelude::*;

use crate::color::ColorTag;
use crate::equipment::Slot;
use crate::name::Name;

verus! {

/// Every line of narration the kernel can emit.
#[derive(Clone, Copy, PartialEq, Eq, Structural, Debug)]
pub enum MessageKind {
    Attack,
    NoEffect,
    PlayerDied,
    MonsterDied,
    CantEquipNotItem,
    CantEquipNotEquipment,
    Equipped,
    CantDequipNotItem,
    CantDequipNotEquipment,
    Dequipped,
    LevelUp,
    InventoryFull,
    PickedUp,
    Dropped,
    AlreadyFullHealth,
    WoundsFeelBetter,
    LightningStrike,
    NoEnemyClose,
    ChooseConfuseTarget,
    ConfuseStart,
    NoLongerConfused,
    ChooseFireballTile,
    FireballExplodes,
    Burned,
    Cancelled,
    CantBeUsed,
    Rest,
    DescendDeeper,
    Welcome,
}

/// One message: its kind and the values the rendered text mentions.
/// Fields a kind does not use stay at `None` / `0`.
#[derive(Clone, Copy, PartialEq, Eq, Structural, Debug)]
pub struct LogText {
    pub kind: MessageKind,
    pub subject: Option<Name>,
    pub target: Option<Name>,
    pub slot: Option<Slot>,
    pub amount: i32,
}

impl LogText {
    /// A message that mentions nothing.
    pub fn plain(kind: MessageKind) -> (t: LogText)
        ensures
            t == (LogText { kind, subject: None, target: None, slot: None, amount: 0 }),
    {
        LogText { kind, subject: None, target: None, slot: None, amount: 0 }
    }

    /// A message that mentions one name.
    pub fn named(kind: MessageKind, subject: Name) -> (t: LogText)
        ensures
            t == (LogText { kind, subject: Some(subject), target: None, slot: None, amount: 0 }),
    {
        LogText { kind, subject: Some(subject), target: None, slot: None, amount: 0 }
    }

    /// A message that mentions one name and one number.
    pub fn counted(kind: MessageKind, subject: Name, amount: i32) -> (t: LogText)
        ensures
            t == (LogText { kind, subject: Some(subject), target: None, slot: None, amount }),
    {
        LogText { kind, subject: Some(subject), target: None, slot: None, amount }
    }

    /// A message that mentions two names and a number.
    pub fn versus(kind: MessageKind, subject: Name, target: Name, amount: i32) -> (t: LogText)
        ensures
            t == (LogText { kind, subject: Some(subject), target: Some(target), slot: None, amount }),
    {
        LogText { kind, subject: Some(subject), target: Some(target), slot: None, amount }
    }

    /// A message that mentions a name and an equipment slot.
    pub fn slotted(kind: MessageKind, subject: Name, slot: Slot) -> (t: LogText)
        ensures
            t == (LogText { kind, subject: Some(subject), target: None, slot: Some(slot), amount: 0 }),
    {
        LogText { kind, subject: Some(subject), target: None, slot: Some(slot), amount: 0 }
    }

    /// A message that mentions only a number.
    pub fn numbered(kind: MessageKind, amount: i32) -> (t: LogText)
        ensures
            t == (LogText { kind, subject: None, target: None, slot: None, amount }),
    {
        LogText { kind, subject: None, target: None, slot: None, amount }
    }
}

/// One log entry: the message and its color tag.
#[derive(Clone, Copy, PartialEq, Eq, Structural, Debug)]
pub struct LogEntry {
    pub text: LogText,
    pub color: ColorTag,
}

/// The ordered, append-only message log.
#[derive(PartialEq, Eq, Debug)]
pub struct Messages {
    pub entries: Vec<LogEntry>,
}

impl Messages {
    /// An empty log.
    pub fn new() -> (m: Messages)
        ensures
            m.entries@ =~= Seq::<LogEntry>::empty(),
    {
        Messages { entries: Vec::new() }
    }

    /// Append one entry; everything already logged is kept.
    pub fn add(&mut self, text: LogText, color: ColorTag)
        ensures
            final(self).entries@ == old(self).entries@.push(LogEntry { text, color }),
    {
        self.entries.push(LogEntry { text, color });
    }

    /// How many entries the log holds.
    pub fn len(&self) -> (n: usize)
        ensures
            n == self.entries@.len(),
    {
        self.entries.len()
    }

    /// Read one entry; index 0 is the oldest.
    pub fn entry_at(&self, i: usize) -> (e: LogEntry)
        requires
            i < self.entries@.len(),
        ensures
            e == self.entries@[i as int],
    {
        self.entries[i]
    }
}

} // verus!
