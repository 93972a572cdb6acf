//! The kinds of items that a loadout holds.
use vstd::prelude::*;

verus! {

/// What can be put in a loadout slot.
#[derive(Debug, Clone, Copy, PartialEq, Eq, Hash, Structural)]
pub enum ItemKind {
    Stratagem,
    Booster,
}

impl ItemKind {
    pub open spec fn label_text(self) -> Seq<char> {
        match self {
            ItemKind::Stratagem => "stratagem"@,
            ItemKind::Booster => "booster"@,
        }
    }

    pub fn label(self) -> (r: &'static str)
        ensures
            r@ == self.label_text(),
    {
        match self {
            ItemKind::Stratagem => "stratagem",
            ItemKind::Booster => "booster",
        }
    }
}

/// The permit under which a Stratagem is equipped.
#[derive(Debug, Clone, Copy, PartialEq, Eq, Hash, Structural)]
pub enum StratagemCategory {
    Offensive,
    Supply,
    Defensive,
}

} // verus!
