//! Choosing items from the lists of the loadout screen.
//!
//! What is seen on a page reaches this module as plain numbers: rows, columns and
//! pixels as they are, and positions and scores as integers that order as the
//! measured values do.
pub mod alignment;
pub mod click_plan;
pub mod clicking;
pub mod list_map;
pub mod selection;

use crate::item::ItemKind;
use vstd::prelude::*;

verus! {

/// What a slot of a page holds.
#[derive(Debug, Clone, Copy, PartialEq, Eq, Structural)]
pub enum SlotKind {
    Item(ItemKind),
    /// The entry of the Booster list that removes the Booster.
    NoBoosterOption,
    Other,
}

impl SlotKind {
    /// Whether an item of the kind can be selected here.
    pub fn is_selectable_item_for(self, item_kind: ItemKind) -> (r: bool)
        ensures
            r == (self == SlotKind::Item(item_kind)),
    {
        self == SlotKind::Item(item_kind)
    }
}

/// Where a slot is on a page.
#[derive(Debug, Clone, Copy, PartialEq, Eq, Structural)]
pub struct SlotPlace {
    pub row: u32,
    pub col: u32,
    /// The left edge in pixels.
    pub x: u32,
    /// The upper edge in pixels.
    pub y: u32,
}

/// Which item a slot was recognized as.
#[derive(Debug)]
pub struct Classification {
    pub item_id: String,
    /// How clearly the item was told from the background; higher is better.
    pub gate_quality: i32,
    /// How clearly the item was told from others; higher is better.
    pub match_margin: i32,
    /// The item is not in use by another player.
    pub available: bool,
}

/// A slot as it is seen on a page.
#[derive(Debug)]
pub struct Slot {
    pub place: SlotPlace,
    pub kind: SlotKind,
    /// The order of the slot's center from left to right.
    pub center_x: i32,
    /// The order of the slot's center from top to bottom.
    pub center_y: i32,
    pub classification: Option<Classification>,
}

/// A direction in which a list is scrolled.
#[derive(Debug, Clone, Copy, PartialEq, Eq, Structural)]
pub enum ScrollDirection {
    Up,
    Down,
}

impl ScrollDirection {
    pub open spec fn boundary_text(self) -> Seq<char> {
        match self {
            ScrollDirection::Up => "top"@,
            ScrollDirection::Down => "bottom"@,
        }
    }

    pub open spec fn opposite_direction(self) -> ScrollDirection {
        match self {
            ScrollDirection::Up => ScrollDirection::Down,
            ScrollDirection::Down => ScrollDirection::Up,
        }
    }

    /// The end of the list that lies in this direction.
    pub fn boundary_label(self) -> (r: &'static str)
        ensures
            r@ == self.boundary_text(),
    {
        match self {
            ScrollDirection::Up => "top",
            ScrollDirection::Down => "bottom",
        }
    }

    pub fn opposite(self) -> (r: ScrollDirection)
        ensures
            r == self.opposite_direction(),
    {
        match self {
            ScrollDirection::Up => ScrollDirection::Down,
            ScrollDirection::Down => ScrollDirection::Up,
        }
    }
}

/// How a page is turned.
#[derive(Debug, Clone, Copy, PartialEq, Eq, Structural)]
pub enum PageTurnInput {
    /// By a whole page.
    Full(ScrollDirection),
    /// By a small step, to find out whether the list ends here.
    Nudge(ScrollDirection),
}

impl PageTurnInput {
    pub open spec fn toward(self) -> ScrollDirection {
        match self {
            PageTurnInput::Full(direction) => direction,
            PageTurnInput::Nudge(direction) => direction,
        }
    }

    pub fn direction(self) -> (r: ScrollDirection)
        ensures
            r == self.toward(),
    {
        match self {
            PageTurnInput::Full(direction) => direction,
            PageTurnInput::Nudge(direction) => direction,
        }
    }

    pub fn is_full(self) -> (r: bool)
        ensures
            r == (self is Full),
    {
        match self {
            PageTurnInput::Full(_) => true,
            PageTurnInput::Nudge(_) => false,
        }
    }

    pub fn is_nudge(self) -> (r: bool)
        ensures
            r == (self is Nudge),
    {
        match self {
            PageTurnInput::Full(_) => false,
            PageTurnInput::Nudge(_) => true,
        }
    }
}

} // verus!
