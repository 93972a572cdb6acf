//! Clicking a slot and confirming that the click was taken.
//!
//! A click is repeated as long as it visibly had no effect. The click on the last item
//! closes the list; any other click dims the slot or moves the page.
use super::click_plan::{found_again, find_scored_target, ClickTarget};
use super::{Slot, SlotPlace};
use crate::item::ItemKind;
use crate::text::joined;
use vstd::prelude::*;

verus! {

/// How often a slot is clicked.
pub const MAX_TARGET_CLICK_ATTEMPTS: u32 = 3;

/// How often the cursor is put on a slot.
pub const MAX_HOVER_ATTEMPTS: u32 = 4;

/// By how many pixels a slot that did not move may differ.
pub const TARGET_POSITION_TOLERANCE: u32 = 2;

/// How often the page is looked at before a click is judged to be without effect.
pub const POST_CLICK_MIN_OBSERVATIONS: u32 = 2;

/// How long a click is held, in milliseconds.
pub const CLICK_HOLD_MS: u64 = 45;

/// How long the effect of a click is waited for, in milliseconds.
pub const POST_CLICK_CONFIRM_MS: u64 = 400;

/// How long the loadout is waited for once the list has changed, in milliseconds.
pub const TERMINAL_SETTLE_MS: u64 = 600;

/// Why an item could not be clicked.
#[derive(Debug)]
pub enum ClickError {
    /// The final click had no effect.
    FinalUnchanged { item_id: String },
    /// The final click had an effect, but did not close the list.
    NotHome { item_kind: ItemKind },
    /// The click had no effect.
    Unchanged { item_id: String },
    /// The page after the click is not known.
    PageLost { item_id: String },
    /// The item is not on the page after the click.
    ItemLost { item_id: String },
    /// The item left the page before it was clicked.
    LeftView { item_id: String },
    /// The cursor did not come to rest on the item.
    NotHovered { item_id: String },
}

impl ClickError {
    /// The message; `detail` says what was measured.
    pub open spec fn message_text(self, detail: Seq<char>) -> Seq<char> {
        match self {
            ClickError::FinalUnchanged { item_id } => "final target item "@ + item_id@
                + " remained unchanged after 3 confirmed click attempts"@,
            ClickError::NotHome { item_kind } => "final "@ + item_kind.label_text()
                + " click changed the list state but did not return to a confirmed loadout home"@,
            ClickError::Unchanged { item_id } => "target item "@ + item_id@
                + " neither moved nor dimmed after 3 click attempts ("@ + detail + ")"@,
            ClickError::PageLost { item_id } => "target item "@ + item_id@
                + " could not be confirmed because the post-click page could not be located"@,
            ClickError::ItemLost { item_id } => "target item "@ + item_id@
                + " could not be located after clicking"@,
            ClickError::LeftView { item_id } => "target item "@ + item_id@
                + " left the visible viewport while relocating its hover position"@,
            ClickError::NotHovered { item_id } => "target item "@ + item_id@
                + " was not confirmed under the cursor after 4 attempts"@ + detail,
        }
    }

    /// The message shown to the user. `detail` says what was measured, where the
    /// message tells it.
    pub fn message(&self, detail: &str) -> (r: String)
        ensures
            r@ == self.message_text(detail@),
    {
        match self {
            ClickError::FinalUnchanged { item_id } => {
                let mut out = joined("final target item ", item_id.as_str());
                out.push_str(" remained unchanged after 3 confirmed click attempts");
                out
            },
            ClickError::NotHome { item_kind } => {
                let mut out = joined("final ", item_kind.label());
                out.push_str(
                    " click changed the list state but did not return to a confirmed loadout home",
                );
                out
            },
            ClickError::Unchanged { item_id } => {
                let mut out = joined("target item ", item_id.as_str());
                out.push_str(" neither moved nor dimmed after 3 click attempts (");
                out.push_str(detail);
                out.push_str(")");
                out
            },
            ClickError::PageLost { item_id } => {
                let mut out = joined("target item ", item_id.as_str());
                out.push_str(
                    " could not be confirmed because the post-click page could not be located",
                );
                out
            },
            ClickError::ItemLost { item_id } => {
                let mut out = joined("target item ", item_id.as_str());
                out.push_str(" could not be located after clicking");
                out
            },
            ClickError::LeftView { item_id } => {
                let mut out = joined("target item ", item_id.as_str());
                out.push_str(" left the visible viewport while relocating its hover position");
                out
            },
            ClickError::NotHovered { item_id } => {
                let mut out = joined("target item ", item_id.as_str());
                out.push_str(" was not confirmed under the cursor after 4 attempts");
                out.push_str(detail);
                out
            },
        }
    }
}

// ----- repeating a click ---------------------------------------------------------------

/// What is awaited after a click.
#[derive(Debug, Clone, Copy, PartialEq, Eq, Structural)]
pub enum ClickStage {
    /// Whether the loadout comes into view.
    Home,
    /// Whether the item is as it was.
    Target,
    /// Whether the loadout comes into view after all.
    Settling,
    /// Whether the slot was dimmed or the page moved.
    List,
}

/// Clicks on a slot that are under way.
#[derive(Debug, Clone, Copy, PartialEq, Eq, Structural)]
pub struct Clicks {
    pub item_kind: ItemKind,
    /// The click is expected to close the list.
    pub final_item: bool,
    /// How often the slot was clicked, counting the click whose effect is awaited.
    pub attempt: u32,
    pub stage: ClickStage,
}

/// What to do after a click.
#[derive(Debug, Clone, Copy, PartialEq, Eq, Structural)]
pub enum ClickStep {
    /// Click the slot again.
    Click,
    /// Look whether the item is as it was.
    CheckTarget,
    /// Wait on for the loadout.
    AwaitHome,
    /// The item was selected, and the list was closed.
    Home,
    /// The item was selected, and the list is still open.
    List,
}

impl Clicks {
    pub open spec fn valid(self) -> bool {
        &&& 1 <= self.attempt <= MAX_TARGET_CLICK_ATTEMPTS
        &&& self.final_item <==> self.stage != ClickStage::List
    }

    /// The stage that follows a click.
    pub open spec fn first_stage(final_item: bool) -> ClickStage {
        if final_item {
            ClickStage::Home
        } else {
            ClickStage::List
        }
    }

    /// The clicks once another one had no effect.
    pub open spec fn repeated(self) -> Clicks {
        Clicks {
            attempt: (self.attempt + 1) as u32,
            stage: Clicks::first_stage(self.final_item),
            ..self
        }
    }

    /// A slot was clicked for the first time.
    pub fn first(item_kind: ItemKind, final_item: bool) -> (r: Clicks)
        ensures
            r == (Clicks {
                item_kind,
                final_item,
                attempt: 1,
                stage: Clicks::first_stage(final_item),
            }),
            r.valid(),
    {
        Clicks {
            item_kind,
            final_item,
            attempt: 1,
            stage: if final_item {
                ClickStage::Home
            } else {
                ClickStage::List
            },
        }
    }

    /// Whether what was awaited came about is known: what to do next. In the stages
    /// that wait for the loadout, `yes` means that it came into view; where the item is
    /// looked at, that it is as it was; where the list stays open, that the item was
    /// selected.
    pub fn proceed(&mut self, yes: bool, item_id: &str) -> (r: Result<ClickStep, ClickError>)
        requires
            old(self).valid(),
        ensures
            final(self).valid(),
            match old(self).stage {
                ClickStage::Home => if yes {
                    r == Ok::<ClickStep, ClickError>(ClickStep::Home) && *final(self) == *old(self)
                } else {
                    r == Ok::<ClickStep, ClickError>(ClickStep::CheckTarget) && *final(self) == (
                    Clicks { stage: ClickStage::Target, ..*old(self) })
                },
                ClickStage::Target => if !yes {
                    r == Ok::<ClickStep, ClickError>(ClickStep::AwaitHome) && *final(self) == (
                    Clicks { stage: ClickStage::Settling, ..*old(self) })
                } else if old(self).attempt < MAX_TARGET_CLICK_ATTEMPTS {
                    r == Ok::<ClickStep, ClickError>(ClickStep::Click) && *final(self) == old(
                        self,
                    ).repeated()
                } else {
                    &&& r matches Err(ClickError::FinalUnchanged { item_id: id })
                    &&& id@ == item_id@
                    &&& *final(self) == *old(self)
                },
                ClickStage::Settling => if yes {
                    r == Ok::<ClickStep, ClickError>(ClickStep::Home) && *final(self) == *old(self)
                } else {
                    &&& r matches Err(ClickError::NotHome { item_kind })
                    &&& item_kind == old(self).item_kind
                    &&& *final(self) == *old(self)
                },
                ClickStage::List => if yes {
                    r == Ok::<ClickStep, ClickError>(ClickStep::List) && *final(self) == *old(self)
                } else if old(self).attempt < MAX_TARGET_CLICK_ATTEMPTS {
                    r == Ok::<ClickStep, ClickError>(ClickStep::Click) && *final(self) == old(
                        self,
                    ).repeated()
                } else {
                    &&& r matches Err(ClickError::Unchanged { item_id: id })
                    &&& id@ == item_id@
                    &&& *final(self) == *old(self)
                },
            },
    {
        match self.stage {
            ClickStage::Home => {
                if yes {
                    return Ok(ClickStep::Home);
                }
                self.stage = ClickStage::Target;
                Ok(ClickStep::CheckTarget)
            },
            ClickStage::Target => {
                if !yes {
                    self.stage = ClickStage::Settling;
                    return Ok(ClickStep::AwaitHome);
                }
                if self.attempt >= MAX_TARGET_CLICK_ATTEMPTS {
                    return Err(ClickError::FinalUnchanged { item_id: item_id.to_string() });
                }
                self.attempt = self.attempt + 1;
                self.stage = ClickStage::Home;
                Ok(ClickStep::Click)
            },
            ClickStage::Settling => {
                if yes {
                    return Ok(ClickStep::Home);
                }
                Err(ClickError::NotHome { item_kind: self.item_kind })
            },
            ClickStage::List => {
                if yes {
                    return Ok(ClickStep::List);
                }
                if self.attempt >= MAX_TARGET_CLICK_ATTEMPTS {
                    return Err(ClickError::Unchanged { item_id: item_id.to_string() });
                }
                self.attempt = self.attempt + 1;
                Ok(ClickStep::Click)
            },
        }
    }
}

// ----- judging the page after a click --------------------------------------------------

/// What is seen of a slot after it was clicked.
#[derive(Debug, Clone, Copy, PartialEq, Eq, Structural)]
pub enum PostClickSight {
    /// The page is not known.
    PageLost,
    /// The page moved.
    Shifted,
    /// The page is known, but the slot is not on it.
    SlotLost,
    /// The slot was dimmed.
    Dimmed,
    /// The slot is as bright as it was.
    Bright,
}

/// What to make of it.
#[derive(Debug, Clone, Copy, PartialEq, Eq, Structural)]
pub enum PostClickVerdict {
    LookAgain,
    Selected,
    Unchanged,
}

/// Judges a page that was seen after a click. A sight that does not show the item to
/// be selected counts once the time is up and the page was looked at often enough.
pub fn judge_sight(item_id: &str, sight: PostClickSight, timed_out: bool, observation: u32) -> (r:
    Result<PostClickVerdict, ClickError>)
    ensures
        match sight {
            PostClickSight::Shifted => r == Ok::<PostClickVerdict, ClickError>(
                PostClickVerdict::Selected,
            ),
            PostClickSight::Dimmed => r == Ok::<PostClickVerdict, ClickError>(
                PostClickVerdict::Selected,
            ),
            _ => if !timed_out || observation < POST_CLICK_MIN_OBSERVATIONS {
                r == Ok::<PostClickVerdict, ClickError>(PostClickVerdict::LookAgain)
            } else {
                match sight {
                    PostClickSight::PageLost => r matches Err(ClickError::PageLost { item_id: id })
                        && id@ == item_id@,
                    PostClickSight::SlotLost => r matches Err(ClickError::ItemLost { item_id: id })
                        && id@ == item_id@,
                    _ => r == Ok::<PostClickVerdict, ClickError>(PostClickVerdict::Unchanged),
                }
            },
        },
{
    let settled = timed_out && observation >= POST_CLICK_MIN_OBSERVATIONS;
    match sight {
        PostClickSight::Shifted => Ok(PostClickVerdict::Selected),
        PostClickSight::Dimmed => Ok(PostClickVerdict::Selected),
        PostClickSight::PageLost => {
            if settled {
                return Err(ClickError::PageLost { item_id: item_id.to_string() });
            }
            Ok(PostClickVerdict::LookAgain)
        },
        PostClickSight::SlotLost => {
            if settled {
                return Err(ClickError::ItemLost { item_id: item_id.to_string() });
            }
            Ok(PostClickVerdict::LookAgain)
        },
        PostClickSight::Bright => {
            if settled {
                return Ok(PostClickVerdict::Unchanged);
            }
            Ok(PostClickVerdict::LookAgain)
        },
    }
}

/// How far apart two numbers are.
pub open spec fn distance(a: u32, b: u32) -> int {
    if a < b {
        b - a
    } else {
        a - b
    }
}

/// A slot is at another position than before.
pub open spec fn has_moved(before: SlotPlace, after: SlotPlace) -> bool {
    distance(before.x, after.x) > TARGET_POSITION_TOLERANCE || distance(before.y, after.y)
        > TARGET_POSITION_TOLERANCE
}

fn far_apart(a: u32, b: u32) -> (r: bool)
    ensures
        r == (distance(a, b) > TARGET_POSITION_TOLERANCE),
{
    if a < b {
        b - a > TARGET_POSITION_TOLERANCE
    } else {
        a - b > TARGET_POSITION_TOLERANCE
    }
}

/// Whether a slot is at another position than before.
pub fn moved(before: &SlotPlace, after: &SlotPlace) -> (r: bool)
    ensures
        r == has_moved(*before, *after),
{
    far_apart(before.x, after.x) || far_apart(before.y, after.y)
}

/// Whether the item of a final click is as it was: neither moved nor dimmed.
pub fn unchanged_terminal_target(clicked: &SlotPlace, found: &SlotPlace, dimmer: bool) -> (r: bool)
    ensures
        r == (!has_moved(*clicked, *found) && !dimmer),
{
    !moved(clicked, found) && !dimmer
}

// ----- putting the cursor on a slot ----------------------------------------------------

/// Finds the slot of an item again after the cursor did not come to rest on it.
pub fn relocate(
    slots: &Vec<Slot>,
    item_id: &str,
    item_kind: ItemKind,
    previous: &ClickTarget,
) -> (r: Result<ClickTarget, ClickError>)
    ensures
        match found_again(slots@, item_id@, item_kind, previous@) {
            Some(target) => r is Ok && r->Ok_0@ == target,
            None => r matches Err(ClickError::LeftView { item_id: id }) && id@ == item_id@,
        },
{
    match find_scored_target(slots, item_id, item_kind, previous) {
        Some(target) => Ok(target),
        None => Err(ClickError::LeftView { item_id: item_id.to_string() }),
    }
}

/// The cursor did not come to rest on the item: the number of the next attempt.
pub fn retry_hover(attempt: u32, item_id: &str) -> (r: Result<u32, ClickError>)
    ensures
        if attempt < MAX_HOVER_ATTEMPTS {
            r == Ok::<u32, ClickError>((attempt + 1) as u32)
        } else {
            r matches Err(ClickError::NotHovered { item_id: id }) && id@ == item_id@
        },
{
    if attempt < MAX_HOVER_ATTEMPTS {
        return Ok(attempt + 1);
    }
    Err(ClickError::NotHovered { item_id: item_id.to_string() })
}

// ----- laws ------------------------------------------------------------------------

/// How much can still happen before the clicks on a slot come to an end.
pub open spec fn clicks_left(clicks: Clicks) -> int {
    (MAX_TARGET_CLICK_ATTEMPTS - clicks.attempt) * 3 + match clicks.stage {
        ClickStage::Home => 2,
        ClickStage::Target => 1,
        ClickStage::Settling => 0,
        ClickStage::List => 2int,
    }
}

/// The clicks on a slot come to an end: with every step that does not end them, there
/// is less left to happen.
pub proof fn lemma_clicks_end(clicks: Clicks)
    requires
        clicks.valid(),
    ensures
        clicks_left(clicks) >= 0,
        clicks.stage == ClickStage::Home ==> clicks_left(
            Clicks { stage: ClickStage::Target, ..clicks },
        ) < clicks_left(clicks),
        clicks.stage == ClickStage::Target ==> clicks_left(
            Clicks { stage: ClickStage::Settling, ..clicks },
        ) < clicks_left(clicks),
        clicks.attempt < MAX_TARGET_CLICK_ATTEMPTS && (clicks.stage == ClickStage::Target
            || clicks.stage == ClickStage::List) ==> clicks.repeated().valid() && clicks_left(
            clicks.repeated(),
        ) < clicks_left(clicks),
{
}

/// A slot has moved exactly when it is more than two pixels away in one of the directions.
/// Moving is symmetric.
pub proof fn lemma_moved(before: SlotPlace, after: SlotPlace)
    ensures
        has_moved(before, after) <==> before.x > after.x + 2 || after.x > before.x + 2 || before.y
            > after.y + 2 || after.y > before.y + 2,
        has_moved(before, after) == has_moved(after, before),
{
}

/// A click that is repeated counts as one more, of at most three, and is judged like the
/// first one.
pub proof fn lemma_repeated(clicks: Clicks)
    requires
        clicks.valid(),
        clicks.attempt < 3,
    ensures
        clicks.repeated().attempt == clicks.attempt + 1,
        clicks.repeated().item_kind == clicks.item_kind,
        clicks.repeated().final_item == clicks.final_item,
        clicks.final_item ==> clicks.repeated().stage == ClickStage::Home,
        !clicks.final_item ==> clicks.repeated().stage == ClickStage::List,
        clicks.repeated().valid(),
{
}

} // verus!
