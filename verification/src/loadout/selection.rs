//! Selecting the items of a preset from an open list.
//!
//! The list is worked through step by step. [`Selection::next_step`] decides what to
//! do on the visible page; the other functions take in what came of it.
use super::click_plan::{
    find_visible_target, first_reachable, lemma_first_reachable, next_target, next_visible_target,
    option_target, visible_target, ClickTarget, ClickTargetView,
};
use super::list_map::{
    best_evidence, lemma_scroll_goes_toward_item, mapped_target, place_of_id, places_known,
    selectable_at, ListMap, ListMapView, MatchCandidate, NavigationHint, PageSample, PlacedSlot,
};
use super::{PageTurnInput, ScrollDirection, Slot};
use crate::item::ItemKind;
use crate::preset::{lemma_valid_templates_differ, preset_fault, LocalTemplate, Preset};
use crate::text::{decimal, decimal_of, same_text, views};
use vstd::prelude::*;

verus! {

/// How often the wheel is turned in search of an item.
pub const MAX_WHEEL_INPUTS: u32 = 20;

/// How many Stratagems fill an empty loadout.
pub const LOADOUT_SIZE: usize = 4;

/// Which of the items are selected, and in which order.
#[derive(Debug, Clone, Copy, PartialEq, Eq, Structural)]
pub enum SelectionMode {
    /// All of them, in the order in which they were saved or as they come into view.
    All { in_saved_order: bool },
    /// The first that is not in use by another player.
    FirstAvailable,
}

impl SelectionMode {
    /// The items are taken up one after the other.
    pub open spec fn ordered(self) -> bool {
        self != (SelectionMode::All { in_saved_order: false })
    }
}

/// What became of a Booster.
#[derive(Debug, Clone, Copy, PartialEq, Eq, Structural)]
pub enum BoosterApplyOutcome {
    Applied,
    Unavailable,
}

/// Why a selection was given up.
#[derive(Debug)]
pub enum SelectionError {
    /// An empty loadout takes a fixed number of Stratagems.
    TemplateCount(usize),
    /// The item did not come into view.
    NotFound { item_kind: ItemKind, item_id: String },
    /// The item is not where it was seen before.
    NotRecognized { item_id: String },
    /// The list ends before the item.
    BeforeBoundary { item_id: String, direction: ScrollDirection, item_kind: ItemKind },
    /// A page was lost, and turning back had no effect.
    RecoveryStuck,
    /// A page was lost, and so was the page before it.
    RecoveryUnplaced,
    /// A page was lost at the end of the list.
    Ambiguous,
}

/// Why a selection was given up, as a mathematical value.
#[verifier::ext_equal]
pub enum SelectionFault {
    TemplateCount(nat),
    NotFound { item_kind: ItemKind, item_id: Seq<char> },
    NotRecognized { item_id: Seq<char> },
    BeforeBoundary { item_id: Seq<char>, direction: ScrollDirection, item_kind: ItemKind },
    RecoveryStuck,
    RecoveryUnplaced,
    Ambiguous,
}

impl View for SelectionError {
    type V = SelectionFault;

    open spec fn view(&self) -> SelectionFault {
        match self {
            SelectionError::TemplateCount(count) => SelectionFault::TemplateCount(*count as nat),
            SelectionError::NotFound { item_kind, item_id } => SelectionFault::NotFound {
                item_kind: *item_kind,
                item_id: item_id@,
            },
            SelectionError::NotRecognized { item_id } => SelectionFault::NotRecognized {
                item_id: item_id@,
            },
            SelectionError::BeforeBoundary {
                item_id,
                direction,
                item_kind,
            } => SelectionFault::BeforeBoundary {
                item_id: item_id@,
                direction: *direction,
                item_kind: *item_kind,
            },
            SelectionError::RecoveryStuck => SelectionFault::RecoveryStuck,
            SelectionError::RecoveryUnplaced => SelectionFault::RecoveryUnplaced,
            SelectionError::Ambiguous => SelectionFault::Ambiguous,
        }
    }
}

impl SelectionFault {
    pub open spec fn message_text(self) -> Seq<char> {
        match self {
            SelectionFault::TemplateCount(count) => {
                "empty loadout preset application requires exactly 4 stratagems, got "@ + decimal(
                    count,
                )
            },
            SelectionFault::NotFound { item_kind, item_id } => item_kind.label_text()
                + " preset item "@ + item_id + " not found after 20 wheel inputs"@,
            SelectionFault::NotRecognized { item_id } => "mapped target item "@ + item_id
                + " was not recognized in its expected visible row"@,
            SelectionFault::BeforeBoundary { item_id, direction, item_kind } => "target item "@
                + item_id + " was not found before the "@ + direction.boundary_text() + " of the "@
                + item_kind.label_text() + " list"@,
            SelectionFault::RecoveryStuck => {
                "page turn could not be placed in the temporary list map, and the recovery nudge produced no movement"@
            },
            SelectionFault::RecoveryUnplaced => {
                "neither the page turn nor the page after a recovery nudge could be placed in the temporary list map"@
            },
            SelectionFault::Ambiguous => {
                "page navigation remained ambiguous after a boundary probe"@
            },
        }
    }
}

impl SelectionError {
    /// The message shown to the user.
    pub fn message(&self) -> (r: String)
        ensures
            r@ == self@.message_text(),
    {
        match self {
            SelectionError::TemplateCount(count) => {
                let mut out =
                    "empty loadout preset application requires exactly 4 stratagems, got ".to_string();
                out.push_str(decimal_of(*count as u64).as_str());
                out
            },
            SelectionError::NotFound { item_kind, item_id } => {
                let mut out = item_kind.label().to_string();
                out.push_str(" preset item ");
                out.push_str(item_id.as_str());
                out.push_str(" not found after 20 wheel inputs");
                out
            },
            SelectionError::NotRecognized { item_id } => {
                let mut out = "mapped target item ".to_string();
                out.push_str(item_id.as_str());
                out.push_str(" was not recognized in its expected visible row");
                out
            },
            SelectionError::BeforeBoundary { item_id, direction, item_kind } => {
                let mut out = "target item ".to_string();
                out.push_str(item_id.as_str());
                out.push_str(" was not found before the ");
                out.push_str(direction.boundary_label());
                out.push_str(" of the ");
                out.push_str(item_kind.label());
                out.push_str(" list");
                out
            },
            SelectionError::RecoveryStuck => {
                "page turn could not be placed in the temporary list map, and the recovery nudge produced no movement".to_string()
            },
            SelectionError::RecoveryUnplaced => {
                "neither the page turn nor the page after a recovery nudge could be placed in the temporary list map".to_string()
            },
            SelectionError::Ambiguous => {
                "page navigation remained ambiguous after a boundary probe".to_string()
            },
        }
    }
}

/// A selection that is under way.
#[derive(Debug)]
pub struct Selection {
    pub mode: SelectionMode,
    pub item_kind: ItemKind,
    /// The items that are still to be selected.
    pub remaining: Vec<String>,
    /// How often the wheel was turned since the last item was selected.
    pub wheel_attempts: u32,
    /// The direction in which the list is thought to end at the visible page.
    pub boundary: Option<ScrollDirection>,
    /// The list was seen down to its end.
    pub full_scan_complete: bool,
}

/// A selection as a mathematical value.
#[verifier::ext_equal]
pub struct SelectionView {
    pub mode: SelectionMode,
    pub item_kind: ItemKind,
    pub remaining: Seq<Seq<char>>,
    pub wheel_attempts: int,
    pub boundary: Option<ScrollDirection>,
    pub full_scan_complete: bool,
}

impl View for Selection {
    type V = SelectionView;

    open spec fn view(&self) -> SelectionView {
        SelectionView {
            mode: self.mode,
            item_kind: self.item_kind,
            remaining: views(self.remaining@),
            wheel_attempts: self.wheel_attempts as int,
            boundary: self.boundary,
            full_scan_complete: self.full_scan_complete,
        }
    }
}

/// What to do next.
#[derive(Debug)]
pub enum SelectionStep {
    /// Decide again, with what was settled.
    Again,
    /// All items that could be selected are in use by other players.
    Unavailable,
    /// Click a slot. With the final item, the list is expected to close.
    Click { target: ClickTarget, final_item: bool },
    /// Turn the page.
    Turn { input: PageTurnInput, attempt: u32 },
    /// Give up.
    Failed(SelectionError),
}

/// What to do next, as a mathematical value.
#[verifier::ext_equal]
pub enum StepView {
    Again,
    Unavailable,
    Click { target: ClickTargetView, final_item: bool },
    Turn { input: PageTurnInput, attempt: int },
    Failed(SelectionFault),
}

impl View for SelectionStep {
    type V = StepView;

    open spec fn view(&self) -> StepView {
        match self {
            SelectionStep::Again => StepView::Again,
            SelectionStep::Unavailable => StepView::Unavailable,
            SelectionStep::Click { target, final_item } => StepView::Click {
                target: target@,
                final_item: *final_item,
            },
            SelectionStep::Turn { input, attempt } => StepView::Turn {
                input: *input,
                attempt: *attempt as int,
            },
            SelectionStep::Failed(error) => StepView::Failed(error@),
        }
    }
}

/// The target for the first remaining item that the map expects on the page.
pub open spec fn first_mapped(map: ListMapView, remaining: Seq<Seq<char>>, slots: Seq<Slot>) -> Option<
    ClickTargetView,
>
    decreases remaining.len(),
{
    if remaining.len() == 0 {
        None
    } else {
        match first_mapped(map, remaining.drop_last(), slots) {
            Some(target) => Some(target),
            None => mapped_target(map, remaining.last(), slots),
        }
    }
}

proof fn lemma_first_mapped_stays(
    map: ListMapView,
    remaining: Seq<Seq<char>>,
    slots: Seq<Slot>,
    n: int,
)
    requires
        0 <= n <= remaining.len(),
        first_mapped(map, remaining.take(n), slots) is Some,
    ensures
        first_mapped(map, remaining, slots) == first_mapped(map, remaining.take(n), slots),
    decreases remaining.len() - n,
{
    if n < remaining.len() {
        assert(remaining.take(n + 1).drop_last() == remaining.take(n));
        lemma_first_mapped_stays(map, remaining, slots, n + 1);
    } else {
        assert(remaining.take(n) == remaining);
    }
}

fn find_mapped(map: &ListMap, remaining: &Vec<String>, slots: &Vec<Slot>) -> (r: Option<ClickTarget>)
    requires
        map@.sound(),
    ensures
        option_target(r) == first_mapped(map@, views(remaining@), slots@),
{
    let ghost items = views(remaining@);
    let mut i: usize = 0;
    assert(items.take(0) =~= Seq::<Seq<char>>::empty());
    while i < remaining.len()
        invariant
            map@.sound(),
            i <= remaining@.len(),
            items == views(remaining@),
            first_mapped(map@, items.take(i as int), slots@) is None,
        decreases remaining@.len() - i,
    {
        assert(items.take(i + 1).drop_last() == items.take(i as int));
        assert(items.take(i + 1).last() == remaining@[i as int]@);
        if let Some(target) = map.visible_mapped_target(remaining[i].as_str(), slots) {
            proof {
                assert(mapped_target(map@, remaining@[i as int]@, slots@) == Some(target@));
                lemma_first_mapped_stays(map@, items, slots@, i + 1);
            }
            return Some(target);
        }
        i = i + 1;
    }
    assert(items.take(items.len() as int) =~= items);
    None
}

/// The list of items without one of them.
pub open spec fn without_item(items: Seq<Seq<char>>, item: Seq<char>) -> Seq<Seq<char>>
    decreases items.len(),
{
    if items.len() == 0 {
        Seq::empty()
    } else if items.last() == item {
        without_item(items.drop_last(), item)
    } else {
        without_item(items.drop_last(), item).push(items.last())
    }
}

fn leave_out(items: &Vec<String>, item: &str) -> (r: Vec<String>)
    ensures
        views(r@) == without_item(views(items@), item@),
{
    let ghost all = views(items@);
    let mut out: Vec<String> = Vec::new();
    let mut i: usize = 0;
    assert(all.take(0) =~= Seq::<Seq<char>>::empty());
    assert(views(out@) =~= Seq::<Seq<char>>::empty());
    while i < items.len()
        invariant
            i <= items@.len(),
            all == views(items@),
            views(out@) == without_item(all.take(i as int), item@),
        decreases items@.len() - i,
    {
        assert(all.take(i + 1).drop_last() == all.take(i as int));
        assert(all.take(i + 1).last() == items@[i as int]@);
        if !same_text(items[i].as_str(), item) {
            let ghost before = views(out@);
            out.push(items[i].clone());
            assert(views(out@) =~= before.push(items@[i as int]@));
        }
        i = i + 1;
    }
    assert(all.take(all.len() as int) =~= all);
    out
}

impl SelectionView {
    /// A selection for which a step can be decided.
    pub open spec fn ready(self) -> bool {
        self.remaining.len() > 0 && 0 <= self.wheel_attempts <= MAX_WHEEL_INPUTS
    }

    /// The slot to click on the visible page, if there is one.
    pub open spec fn target(self, map: ListMapView, slots: Seq<Slot>) -> Option<ClickTargetView> {
        if self.mode.ordered() {
            match visible_target(slots, self.remaining[0], self.item_kind) {
                Some(target) => if map.can_select(target.place) {
                    Some(target)
                } else {
                    mapped_target(map, self.remaining[0], slots)
                },
                None => mapped_target(map, self.remaining[0], slots),
            }
        } else {
            match next_target(slots, self.remaining, self.item_kind, map) {
                Some(target) => Some(target),
                None => first_mapped(map, self.remaining, slots),
            }
        }
    }

    /// The item that is searched for is to be taken from the most likely slot.
    pub open spec fn settles(self, map: ListMapView, means: Seq<i64>) -> bool {
        &&& self.full_scan_complete
        &&& !map.items.contains_key(self.remaining[0])
        &&& best_evidence(map.evidence, means, self.remaining[0], map.selected) is Some
    }

    /// What to do next, and the state afterwards.
    pub open spec fn stepped(self, map: ListMapView, slots: Seq<Slot>, means: Seq<i64>) -> (
        StepView,
        SelectionView,
        ListMapView,
    ) {
        let item = self.remaining[0];
        match self.target(map, slots) {
            Some(target) => if !target.available {
                if self.mode == SelectionMode::FirstAvailable && self.remaining.len() > 1 {
                    (
                        StepView::Again,
                        SelectionView {
                            remaining: self.remaining.skip(1),
                            wheel_attempts: 0,
                            boundary: None,
                            ..self
                        },
                        map,
                    )
                } else {
                    (StepView::Unavailable, self, map)
                }
            } else {
                (
                    StepView::Click {
                        target,
                        final_item: self.mode == SelectionMode::FirstAvailable
                            || self.remaining.len() == 1,
                    },
                    self,
                    map,
                )
            },
            None => if self.settles(map, means) {
                (
                    StepView::Again,
                    self,
                    map.with_fallback(
                        item,
                        best_evidence(map.evidence, means, item, map.selected)->0,
                    ),
                )
            } else if self.wheel_attempts >= MAX_WHEEL_INPUTS {
                (
                    StepView::Failed(
                        SelectionFault::NotFound { item_kind: self.item_kind, item_id: item },
                    ),
                    self,
                    map,
                )
            } else {
                match map.hint(item) {
                    NavigationHint::ExpectedVisible => (
                        StepView::Failed(SelectionFault::NotRecognized { item_id: item }),
                        self,
                        map,
                    ),
                    NavigationHint::Scroll(direction) => (
                        StepView::Turn {
                            input: if self.boundary == Some(direction) {
                                PageTurnInput::Nudge(direction)
                            } else {
                                PageTurnInput::Full(direction)
                            },
                            attempt: self.wheel_attempts + 1,
                        },
                        self,
                        map,
                    ),
                }
            },
        }
    }

    /// The state once an item was selected and its click left the list open.
    pub open spec fn item_taken(self, item: Seq<char>) -> SelectionView {
        SelectionView {
            remaining: without_item(self.remaining, item),
            wheel_attempts: 0,
            boundary: None,
            ..self
        }
    }

    /// The state once a page was turned to one that is known.
    pub open spec fn turned(self, input: PageTurnInput, attempt: int, short: bool) -> SelectionView {
        SelectionView {
            wheel_attempts: attempt,
            boundary: if input is Full && short {
                Some(input.toward())
            } else {
                None
            },
            ..self
        }
    }

    /// The state once turning the page had no effect.
    pub open spec fn stuck(self, input: PageTurnInput, attempt: int) -> SelectionView {
        SelectionView {
            wheel_attempts: attempt,
            boundary: if input is Full {
                Some(input.toward())
            } else {
                self.boundary
            },
            full_scan_complete: self.full_scan_complete || (input is Nudge && input.toward()
                == ScrollDirection::Down),
            ..self
        }
    }
}

/// What came of turning back from a page that was lost.
#[derive(Debug, Clone, Copy, PartialEq, Eq, Structural)]
pub enum Recovery {
    /// The page did not move.
    NoMovement,
    /// The page moved to one that is not known either.
    Unplaced,
    /// The page moved to one that is known.
    Placed,
}

impl Selection {
    /// Begins the selection of items from a list that was opened.
    pub fn start(item_kind: ItemKind, items: Vec<String>, mode: SelectionMode) -> (r: Selection)
        ensures
            r@ == (SelectionView {
                mode,
                item_kind,
                remaining: views(items@),
                wheel_attempts: 0,
                boundary: None,
                full_scan_complete: false,
            }),
    {
        Selection {
            mode,
            item_kind,
            remaining: items,
            wheel_attempts: 0,
            boundary: None,
            full_scan_complete: false,
        }
    }

    /// How many items are to be selected.
    pub fn requested_items(&self) -> (r: usize)
        ensures
            r == match self.mode {
                SelectionMode::All { .. } => self@.remaining.len(),
                SelectionMode::FirstAvailable => 1,
            },
    {
        match self.mode {
            SelectionMode::All { .. } => self.remaining.len(),
            SelectionMode::FirstAvailable => 1,
        }
    }

    fn find_target(&self, map: &ListMap, slots: &Vec<Slot>) -> (r: Option<ClickTarget>)
        requires
            map@.sound(),
            self@.ready(),
        ensures
            option_target(r) == self@.target(map@, slots@),
    {
        if let SelectionMode::All { in_saved_order: false } = self.mode {
            match next_visible_target(slots, &self.remaining, self.item_kind, map) {
                Some(target) => Some(target),
                None => find_mapped(map, &self.remaining, slots),
            }
        } else {
            assert(self@.remaining[0] == self.remaining@[0]@);
            let item = self.remaining[0].as_str();
            match find_visible_target(slots, item, self.item_kind) {
                Some(target) => if map.can_select_slot(&target.place) {
                    Some(target)
                } else {
                    map.visible_mapped_target(item, slots)
                },
                None => map.visible_mapped_target(item, slots),
            }
        }
    }

    /// Decides what to do on the visible page. `means` are the mean errors of the
    /// map's evidence, in its order.
    pub fn next_step(&mut self, map: &mut ListMap, slots: &Vec<Slot>, means: &Vec<i64>) -> (r:
        SelectionStep)
        requires
            old(self)@.ready(),
            old(map)@.sound(),
            means@.len() == old(map)@.evidence.len(),
        ensures
            (r@, final(self)@, final(map)@) == old(self)@.stepped(old(map)@, slots@, means@),
            final(map)@.sound(),
            final(self)@.ready(),
    {
        let ghost start = self@;
        assert(start.remaining[0] == self.remaining@[0]@);
        if let Some(target) = self.find_target(map, slots) {
            if !target.available {
                if self.mode == SelectionMode::FirstAvailable && self.remaining.len() > 1 {
                    self.remaining.remove(0);
                    self.wheel_attempts = 0;
                    self.boundary = None;
                    assert(self@.remaining =~= start.remaining.skip(1));
                    return SelectionStep::Again;
                }
                return SelectionStep::Unavailable;
            }
            let final_item = self.mode == SelectionMode::FirstAvailable || self.remaining.len()
                == 1;
            return SelectionStep::Click { target, final_item };
        }
        if self.full_scan_complete && !map.contains_item(self.remaining[0].as_str()) {
            if map.activate_best_candidate(self.remaining[0].as_str(), means).is_some() {
                return SelectionStep::Again;
            }
        }
        if self.wheel_attempts >= MAX_WHEEL_INPUTS {
            return SelectionStep::Failed(
                SelectionError::NotFound {
                    item_kind: self.item_kind,
                    item_id: self.remaining[0].clone(),
                },
            );
        }
        match map.navigation_hint(self.remaining[0].as_str()) {
            NavigationHint::ExpectedVisible => SelectionStep::Failed(
                SelectionError::NotRecognized { item_id: self.remaining[0].clone() },
            ),
            NavigationHint::Scroll(direction) => {
                let at_boundary = match self.boundary {
                    Some(boundary) => boundary == direction,
                    None => false,
                };
                let input = if at_boundary {
                    PageTurnInput::Nudge(direction)
                } else {
                    PageTurnInput::Full(direction)
                };
                let attempt: u32 = self.wheel_attempts + 1;
                SelectionStep::Turn { input, attempt }
            },
        }
    }

    /// An item was selected, and the list is still open and shows a page whose slots
    /// are placed as given.
    pub fn item_selected(
        &mut self,
        map: &mut ListMap,
        target: &ClickTarget,
        samples: &Vec<PageSample>,
        placed: Vec<PlacedSlot>,
        slots: &Vec<Slot>,
        candidates: &Vec<MatchCandidate>,
    )
        requires
            old(map)@.sound(),
            places_known(placed@, old(map)@.slots.len()),
            old(map)@.slots.len() + samples@.len() <= usize::MAX,
        ensures
            final(self)@ == old(self)@.item_taken(target.item_id@),
            final(map)@ == old(map)@.with_selected(target.place).with_committed(
                samples@,
                placed@,
                slots@,
                candidates@,
            ),
            final(map)@.sound(),
    {
        self.remaining = leave_out(&self.remaining, target.item_id.as_str());
        self.wheel_attempts = 0;
        self.boundary = None;
        map.mark_selected(&target.place);
        map.commit_page(samples, placed, slots, candidates);
    }

    /// The last item was selected, and the list was closed.
    pub fn finished(&mut self, target: &ClickTarget)
        ensures
            final(self)@ == (SelectionView {
                remaining: without_item(old(self)@.remaining, target.item_id@),
                ..old(self)@
            }),
    {
        self.remaining = leave_out(&self.remaining, target.item_id.as_str());
    }

    /// The page was turned to one whose slots are placed as given. `short`: it moved
    /// by less than a whole page.
    pub fn page_turned(
        &mut self,
        map: &mut ListMap,
        input: PageTurnInput,
        attempt: u32,
        short: bool,
        samples: &Vec<PageSample>,
        placed: Vec<PlacedSlot>,
        slots: &Vec<Slot>,
        candidates: &Vec<MatchCandidate>,
    )
        requires
            old(map)@.sound(),
            places_known(placed@, old(map)@.slots.len()),
            old(map)@.slots.len() + samples@.len() <= usize::MAX,
        ensures
            final(self)@ == old(self)@.turned(input, attempt as int, short),
            final(map)@ == old(map)@.with_committed(samples@, placed@, slots@, candidates@),
            final(map)@.sound(),
    {
        self.wheel_attempts = attempt;
        self.boundary = if input.is_full() && short {
            Some(input.direction())
        } else {
            None
        };
        map.commit_page(samples, placed, slots, candidates);
    }

    /// The page was turned to one that is not known. Returns how to turn back.
    pub fn page_lost(&mut self, input: PageTurnInput, attempt: u32) -> (r: PageTurnInput)
        ensures
            final(self)@ == (SelectionView { wheel_attempts: attempt as int, ..old(self)@ }),
            r == PageTurnInput::Nudge(input.toward().opposite_direction()),
    {
        self.wheel_attempts = attempt;
        PageTurnInput::Nudge(input.direction().opposite())
    }

    /// Turning back from a page that was lost had an effect. A page that is known is
    /// recorded with [`ListMap::commit_page`] first.
    pub fn page_recovered(&mut self, input: PageTurnInput, recovery: Recovery) -> (r: Result<
        (),
        SelectionError,
    >)
        ensures
            match r {
                Ok(()) => recovery == Recovery::Placed && input is Full && final(self)@ == (
                SelectionView { boundary: Some(input.toward()), ..old(self)@ }),
                Err(error) => final(self)@ == old(self)@ && match recovery {
                    Recovery::NoMovement => error@ == SelectionFault::RecoveryStuck,
                    Recovery::Unplaced => error@ == SelectionFault::RecoveryUnplaced,
                    Recovery::Placed => input is Nudge && error@ == SelectionFault::Ambiguous,
                },
            },
    {
        match recovery {
            Recovery::NoMovement => Err(SelectionError::RecoveryStuck),
            Recovery::Unplaced => Err(SelectionError::RecoveryUnplaced),
            Recovery::Placed => {
                if input.is_nudge() {
                    return Err(SelectionError::Ambiguous);
                }
                self.boundary = Some(input.direction());
                Ok(())
            },
        }
    }

    /// Turning the page had no effect; it shows what is given. Returns whether the end
    /// of the list is thereby confirmed, to be handled by [`Selection::at_boundary`].
    pub fn page_stuck(
        &mut self,
        map: &mut ListMap,
        input: PageTurnInput,
        attempt: u32,
        samples: &Vec<PageSample>,
        placed: Vec<PlacedSlot>,
        slots: &Vec<Slot>,
        candidates: &Vec<MatchCandidate>,
    ) -> (r: bool)
        requires
            old(map)@.sound(),
            places_known(placed@, old(map)@.slots.len()),
            old(map)@.slots.len() + samples@.len() <= usize::MAX,
        ensures
            final(self)@ == old(self)@.stuck(input, attempt as int),
            final(map)@ == old(map)@.with_committed(samples@, placed@, slots@, candidates@),
            final(map)@.sound(),
            r == (input is Nudge),
    {
        map.commit_page(samples, placed, slots, candidates);
        self.wheel_attempts = attempt;
        if input.is_nudge() {
            if input.direction() == ScrollDirection::Down {
                self.full_scan_complete = true;
            }
            return true;
        }
        self.boundary = Some(input.direction());
        false
    }

    /// The list ends at the visible page: the item is taken from the slot in which it
    /// most likely is. `means` are the mean errors of the map's evidence, in its order.
    pub fn at_boundary(&mut self, map: &mut ListMap, input: PageTurnInput, means: &Vec<i64>) -> (r:
        Result<(), SelectionError>)
        requires
            old(self)@.remaining.len() > 0,
            old(map)@.sound(),
            means@.len() == old(map)@.evidence.len(),
        ensures
            match best_evidence(
                old(map)@.evidence,
                means@,
                old(self)@.remaining[0],
                old(map)@.selected,
            ) {
                Some(index) => {
                    &&& r is Ok
                    &&& final(self)@ == (SelectionView { boundary: None, ..old(self)@ })
                    &&& final(map)@ == old(map)@.with_fallback(old(self)@.remaining[0], index)
                },
                None => {
                    &&& r is Err
                    &&& r->Err_0@ == (SelectionFault::BeforeBoundary {
                        item_id: old(self)@.remaining[0],
                        direction: input.toward(),
                        item_kind: old(self)@.item_kind,
                    })
                    &&& final(self)@ == old(self)@
                    &&& final(map)@ == old(map)@
                },
            },
            final(map)@.sound(),
    {
        assert(self@.remaining[0] == self.remaining@[0]@);
        if map.activate_best_candidate(self.remaining[0].as_str(), means).is_some() {
            self.boundary = None;
            return Ok(());
        }
        Err(
            SelectionError::BeforeBoundary {
                item_id: self.remaining[0].clone(),
                direction: input.direction(),
                item_kind: self.item_kind,
            },
        )
    }
}

/// The paths of templates, by which their items are known.
pub open spec fn template_paths(templates: Seq<LocalTemplate>) -> Seq<Seq<char>> {
    templates.map_values(|template: LocalTemplate| template.path@)
}

/// Begins to fill an empty loadout with the Stratagems of a preset.
pub fn apply_empty_loadout_preset(
    templates: &Vec<LocalTemplate>,
    apply_in_saved_order: bool,
) -> (r: Result<Selection, SelectionError>)
    ensures
        match r {
            Ok(selection) => templates@.len() == LOADOUT_SIZE && selection@ == (SelectionView {
                mode: SelectionMode::All { in_saved_order: apply_in_saved_order },
                item_kind: ItemKind::Stratagem,
                remaining: template_paths(templates@),
                wheel_attempts: 0,
                boundary: None,
                full_scan_complete: false,
            }),
            Err(error) => templates@.len() != LOADOUT_SIZE && error@
                == SelectionFault::TemplateCount(templates@.len()),
        },
{
    if templates.len() != LOADOUT_SIZE {
        return Err(SelectionError::TemplateCount(templates.len()));
    }
    let mut items: Vec<String> = Vec::new();
    let mut i: usize = 0;
    while i < templates.len()
        invariant
            i <= templates@.len(),
            views(items@) == template_paths(templates@).take(i as int),
        decreases templates@.len() - i,
    {
        let ghost before = views(items@);
        items.push(templates[i].path.clone());
        assert(views(items@) =~= before.push(templates@[i as int].path@));
        assert(views(items@) =~= template_paths(templates@).take(i + 1));
        i = i + 1;
    }
    assert(views(items@) =~= template_paths(templates@));
    Ok(
        Selection::start(
            ItemKind::Stratagem,
            items,
            SelectionMode::All { in_saved_order: apply_in_saved_order },
        ),
    )
}

/// Begins to select the Booster of a preset, or the one that stands in for it.
pub fn apply_booster_from_home(template: &LocalTemplate, fallback: Option<&LocalTemplate>) -> (r:
    Selection)
    ensures
        r@ == (SelectionView {
            mode: SelectionMode::FirstAvailable,
            item_kind: ItemKind::Booster,
            remaining: match fallback {
                Some(fallback) => seq![template.path@, fallback.path@],
                None => seq![template.path@],
            },
            wheel_attempts: 0,
            boundary: None,
            full_scan_complete: false,
        }),
        r@.ready(),
{
    let mut items: Vec<String> = Vec::new();
    items.push(template.path.clone());
    if let Some(other) = fallback {
        items.push(other.path.clone());
        assert(views(items@) =~= seq![template.path@, other.path@]);
    } else {
        assert(views(items@) =~= seq![template.path@]);
    }
    Selection::start(ItemKind::Booster, items, SelectionMode::FirstAvailable)
}

// ----- laws ------------------------------------------------------------------------

proof fn lemma_mapped_target(map: ListMapView, item: Seq<char>, slots: Seq<Slot>)
    requires
        map.sound(),
        mapped_target(map, item, slots) is Some,
    ensures
        mapped_target(map, item, slots)->0.item_id == item,
        expected_unselected(map, mapped_target(map, item, slots)->0),
{
    lemma_selectable_at(slots, map.item_kind, place_of_id(map.current, map.items[item])->0);
}

proof fn lemma_selectable_at(slots: Seq<Slot>, kind: ItemKind, place: (u32, u32))
    ensures
        match selectable_at(slots, kind, place) {
            Some(index) => 0 <= index < slots.len() && (
            slots[index].place.row,
            slots[index].place.col,
        ) == place,
            None => true,
        },
    decreases slots.len(),
{
    if slots.len() > 0 {
        lemma_selectable_at(slots.drop_last(), kind, place);
    }
}

proof fn lemma_first_mapped(map: ListMapView, remaining: Seq<Seq<char>>, slots: Seq<Slot>)
    requires
        map.sound(),
        first_mapped(map, remaining, slots) is Some,
    ensures
        remaining.contains(first_mapped(map, remaining, slots)->0.item_id),
        expected_unselected(map, first_mapped(map, remaining, slots)->0),
    decreases remaining.len(),
{
    let before = remaining.drop_last();
    if first_mapped(map, before, slots) is Some {
        lemma_first_mapped(map, before, slots);
        let item = first_mapped(map, before, slots)->0.item_id;
        let index = choose|index: int| 0 <= index < before.len() && before[index] == item;
        assert(remaining[index] == item);
    } else {
        lemma_mapped_target(map, remaining.last(), slots);
        assert(remaining[remaining.len() - 1] == remaining.last());
    }
}

/// The target is the slot in which the map expects its item, and that slot was not
/// selected.
pub open spec fn expected_unselected(map: ListMapView, target: ClickTargetView) -> bool {
    &&& map.items.contains_key(target.item_id)
    &&& !map.selected[map.items[target.item_id] as int]
    &&& place_of_id(map.current, map.items[target.item_id]) == Some(
        (target.place.row, target.place.col),
    )
}

/// Whatever is clicked is for an item that is still to be selected, and is a slot that
/// was not selected: one that may be selected if the item was recognized there, and
/// one in which the item is expected otherwise.
pub proof fn lemma_target(selection: SelectionView, map: ListMapView, slots: Seq<Slot>)
    requires
        selection.remaining.len() > 0,
        map.sound(),
        selection.target(map, slots) is Some,
    ensures
        ({
            let target = selection.target(map, slots)->0;
            &&& selection.remaining.contains(target.item_id)
            &&& if target.fallback {
                expected_unselected(map, target)
            } else {
                map.can_select(target.place)
            }
        }),
{
    let target = selection.target(map, slots)->0;
    let kind = selection.item_kind;
    if selection.mode.ordered() {
        if target.fallback {
            lemma_mapped_target(map, selection.remaining[0], slots);
        }
        assert(selection.remaining.contains(selection.remaining[0]));
    } else {
        match next_target(slots, selection.remaining, kind, map) {
            Some(_) => {
                lemma_first_reachable(slots, selection.remaining, kind, map);
                let index = first_reachable(slots, selection.remaining, kind, map)->0;
                assert(selection.remaining.contains(selection.remaining[index]));
            },
            None => {
                lemma_first_mapped(map, selection.remaining, slots);
                lemma_first_is_fallback(map, selection.remaining, slots);
            },
        }
    }
}

proof fn lemma_first_is_fallback(map: ListMapView, remaining: Seq<Seq<char>>, slots: Seq<Slot>)
    requires
        first_mapped(map, remaining, slots) is Some,
    ensures
        first_mapped(map, remaining, slots)->0.fallback,
    decreases remaining.len(),
{
    if first_mapped(map, remaining.drop_last(), slots) is Some {
        lemma_first_is_fallback(map, remaining.drop_last(), slots);
    }
}

/// Where the saved order is kept, and where only the first available item is wanted,
/// nothing but the first of the remaining items is clicked.
pub proof fn lemma_saved_order(selection: SelectionView, map: ListMapView, slots: Seq<Slot>)
    requires
        selection.mode.ordered(),
        selection.target(map, slots) is Some,
    ensures
        selection.target(map, slots)->0.item_id == selection.remaining[0],
{
}

/// No item that is in use by another player is clicked.
pub proof fn lemma_clicked_is_available(
    selection: SelectionView,
    map: ListMapView,
    slots: Seq<Slot>,
    means: Seq<i64>,
)
    ensures
        match selection.stepped(map, slots, means).0 {
            StepView::Click { target, .. } => target.available && selection.target(map, slots)
                == Some(target),
            _ => true,
        },
{
}

/// The wheel is turned at most a fixed number of times without an item being selected,
/// and a page is nudged only where the list is thought to end.
pub proof fn lemma_turns_bounded(
    selection: SelectionView,
    map: ListMapView,
    slots: Seq<Slot>,
    means: Seq<i64>,
)
    requires
        selection.ready(),
    ensures
        match selection.stepped(map, slots, means).0 {
            StepView::Turn { input, attempt } => {
                &&& attempt == selection.wheel_attempts + 1
                &&& attempt <= MAX_WHEEL_INPUTS
                &&& input is Nudge <==> selection.boundary == Some(input.toward())
            },
            _ => true,
        },
{
}

/// How much is left to decide on a page.
pub open spec fn undecided(selection: SelectionView, map: ListMapView) -> nat {
    selection.remaining.len() * 2 + if map.items.contains_key(selection.remaining[0]) {
        0nat
    } else {
        1nat
    }
}

/// Deciding again comes to an end: each time, there is less left to decide.
pub proof fn lemma_again_makes_progress(
    selection: SelectionView,
    map: ListMapView,
    slots: Seq<Slot>,
    means: Seq<i64>,
)
    requires
        selection.ready(),
        selection.stepped(map, slots, means).0 == StepView::Again,
    ensures
        undecided(
            selection.stepped(map, slots, means).1,
            selection.stepped(map, slots, means).2,
        ) < undecided(selection, map),
{
}

proof fn lemma_without_item(items: Seq<Seq<char>>, item: Seq<char>)
    ensures
        !without_item(items, item).contains(item),
        without_item(items, item).len() <= items.len(),
        items.contains(item) ==> without_item(items, item).len() < items.len(),
    decreases items.len(),
{
    if items.len() > 0 {
        let before = items.drop_last();
        lemma_without_item(before, item);
        let kept = without_item(before, item);
        if items.last() != item {
            assert forall|i: int| 0 <= i < kept.push(items.last()).len() implies kept.push(
                items.last(),
            )[i] != item by {
                if i < kept.len() {
                    assert(kept.contains(kept[i]));
                }
            }
            if items.contains(item) {
                let index = choose|index: int| 0 <= index < items.len() && items[index] == item;
                assert(before[index] == item);
            }
        }
    }
}

/// An item that was selected is not looked for again, and every click that leaves the
/// list open brings the selection nearer to its end.
pub proof fn lemma_selected_item_is_done(selection: SelectionView, item: Seq<char>)
    requires
        selection.remaining.contains(item),
    ensures
        !selection.item_taken(item).remaining.contains(item),
        selection.item_taken(item).remaining.len() < selection.remaining.len(),
{
    lemma_without_item(selection.remaining, item);
}

/// Where all items are to be selected, the click that is expected to close the list is
/// the one after which none remains.
pub proof fn lemma_final_click_is_last(
    selection: SelectionView,
    map: ListMapView,
    slots: Seq<Slot>,
    means: Seq<i64>,
)
    requires
        selection.ready(),
        map.sound(),
        selection.mode is All,
    ensures
        match selection.stepped(map, slots, means).0 {
            StepView::Click { target, final_item } => final_item ==> without_item(
                selection.remaining,
                target.item_id,
            ).len() == 0,
            _ => true,
        },
{
    if let StepView::Click { target, .. } = selection.stepped(map, slots, means).0 {
        lemma_target(selection, map, slots);
        lemma_without_item(selection.remaining, target.item_id);
    }
}

// ----- a whole selection -----------------------------------------------------------

/// Something that happens in the course of a selection.
pub enum SelectionEvent {
    /// An item is clicked on a page, and is selected. `closed`: the list is closed by it.
    Clicked {
        map: ListMapView,
        slots: Seq<Slot>,
        means: Seq<i64>,
        item: Seq<char>,
        closed: bool,
    },
    /// A page is decided again.
    Decided { map: ListMapView, slots: Seq<Slot>, means: Seq<i64> },
    /// The page is turned.
    Turned { input: PageTurnInput, attempt: int, short: bool },
    /// The page does not turn.
    Stuck { input: PageTurnInput, attempt: int },
    /// The page is turned to one that is not known.
    Lost { attempt: int },
    /// The end of the list is noted, or is no longer.
    Bounded { boundary: Option<ScrollDirection> },
}

impl SelectionEvent {
    /// The event can happen: a click is one that was decided on.
    pub open spec fn happens_to(self, selection: SelectionView) -> bool {
        match self {
            SelectionEvent::Clicked { map, slots, means, item, .. } => {
                &&& selection.ready()
                &&& map.sound()
                &&& match selection.stepped(map, slots, means).0 {
                    StepView::Click { target, .. } => target.item_id == item,
                    _ => false,
                }
            },
            SelectionEvent::Decided { map, slots, means } => {
                &&& selection.ready()
                &&& selection.stepped(map, slots, means).0 == StepView::Again
            },
            _ => true,
        }
    }

    /// The selection after the event.
    pub open spec fn applied_to(self, selection: SelectionView) -> SelectionView {
        match self {
            SelectionEvent::Clicked { item, closed, .. } => if closed {
                SelectionView {
                    remaining: without_item(selection.remaining, item),
                    ..selection
                }
            } else {
                selection.item_taken(item)
            },
            SelectionEvent::Decided { map, slots, means } => selection.stepped(
                map,
                slots,
                means,
            ).1,
            SelectionEvent::Turned { input, attempt, short } => selection.turned(
                input,
                attempt,
                short,
            ),
            SelectionEvent::Stuck { input, attempt } => selection.stuck(input, attempt),
            SelectionEvent::Lost { attempt } => SelectionView {
                wheel_attempts: attempt,
                ..selection
            },
            SelectionEvent::Bounded { boundary } => SelectionView { boundary, ..selection },
        }
    }
}

/// The selection after events, one after the other.
pub open spec fn after_run(selection: SelectionView, events: Seq<SelectionEvent>) -> SelectionView
    decreases events.len(),
{
    if events.len() == 0 {
        selection
    } else {
        events.last().applied_to(after_run(selection, events.drop_last()))
    }
}

/// Each of the events can happen when its turn comes.
pub open spec fn runs(selection: SelectionView, events: Seq<SelectionEvent>) -> bool
    decreases events.len(),
{
    events.len() > 0 ==> runs(selection, events.drop_last()) && events.last().happens_to(
        after_run(selection, events.drop_last()),
    )
}

/// The items that are clicked, in the order of the clicks.
pub open spec fn clicked_items(events: Seq<SelectionEvent>) -> Seq<Seq<char>>
    decreases events.len(),
{
    if events.len() == 0 {
        Seq::empty()
    } else {
        match events.last() {
            SelectionEvent::Clicked { item, .. } => clicked_items(events.drop_last()).push(item),
            _ => clicked_items(events.drop_last()),
        }
    }
}

proof fn lemma_without_keeps(items: Seq<Seq<char>>, item: Seq<char>, other: Seq<char>)
    ensures
        without_item(items, item).contains(other) <==> items.contains(other) && other != item,
    decreases items.len(),
{
    let kept = without_item(items, item);
    if items.len() > 0 {
        let before = items.drop_last();
        lemma_without_keeps(before, item, other);
        let earlier = without_item(before, item);
        if items.contains(other) {
            let k = choose|k: int| 0 <= k < items.len() && items[k] == other;
            if k < before.len() {
                assert(before[k] == other);
            }
        }
        if before.contains(other) {
            let k = choose|k: int| 0 <= k < before.len() && before[k] == other;
            assert(items[k] == other);
        }
        assert(items[items.len() - 1] == items.last());
        if items.last() != item {
            assert(kept == earlier.push(items.last()));
            assert(kept[kept.len() - 1] == items.last());
            if earlier.contains(other) {
                let k = choose|k: int| 0 <= k < earlier.len() && earlier[k] == other;
                assert(kept[k] == other);
            }
            if kept.contains(other) {
                let k = choose|k: int| 0 <= k < kept.len() && kept[k] == other;
                if k < earlier.len() {
                    assert(earlier[k] == other);
                }
            }
        }
    }
}

/// Taking one of different items away leaves exactly one item less, all of them still
/// different. Taking the first away leaves the others in their order.
pub proof fn lemma_one_item_less(items: Seq<Seq<char>>, item: Seq<char>)
    requires
        items.no_duplicates(),
        items.contains(item),
    ensures
        without_item(items, item).len() == items.len() - 1,
        without_item(items, item).no_duplicates(),
        item == items[0] ==> without_item(items, item) == items.skip(1),
    decreases items.len(),
{
    let before = items.drop_last();
    let k = choose|k: int| 0 <= k < items.len() && items[k] == item;
    if items.last() == item {
        assert(!before.contains(item)) by {
            if before.contains(item) {
                let j = choose|j: int| 0 <= j < before.len() && before[j] == item;
                assert(items[j] == items[items.len() - 1]);
            }
        }
        lemma_absent_item(before, item);
        if item == items[0] {
            assert(items.len() == 1);
            assert(items.skip(1) =~= before);
        }
    } else {
        assert(before[k] == item);
        lemma_one_item_less(before, item);
        let earlier = without_item(before, item);
        lemma_without_keeps(before, item, items.last());
        assert(!before.contains(items.last())) by {
            if before.contains(items.last()) {
                let j = choose|j: int| 0 <= j < before.len() && before[j] == items.last();
                assert(items[j] == items[items.len() - 1]);
            }
        }
        let kept = earlier.push(items.last());
        assert forall|i: int, j: int| 0 <= i < kept.len() && 0 <= j < kept.len() && i != j implies
            kept[i] != kept[j] by {
            if i < earlier.len() {
                assert(earlier.contains(earlier[i]));
            }
            if j < earlier.len() {
                assert(earlier.contains(earlier[j]));
            }
        }
        if item == items[0] {
            assert(before[0] == item);
            assert(items.skip(1) =~= before.skip(1).push(items.last()));
        }
    }
}

proof fn lemma_absent_item(items: Seq<Seq<char>>, item: Seq<char>)
    requires
        !items.contains(item),
    ensures
        without_item(items, item) == items,
    decreases items.len(),
{
    if items.len() > 0 {
        let before = items.drop_last();
        assert(items[items.len() - 1] == items.last());
        assert(!before.contains(item)) by {
            if before.contains(item) {
                let j = choose|j: int| 0 <= j < before.len() && before[j] == item;
                assert(items[j] == item);
            }
        }
        lemma_absent_item(before, item);
        assert(before.push(items.last()) =~= items);
    } else {
        assert(without_item(items, item) =~= items);
    }
}

/// The course of a selection of different items: every click is on an item that was
/// asked for and was not clicked before, and what was not clicked remains. So a
/// selection of `n` items is through after exactly `n` clicks, one for each item, and
/// not before. Where the saved order is kept, the clicks come in that order.
pub proof fn lemma_selection_run(selection: SelectionView, events: Seq<SelectionEvent>)
    requires
        selection.mode is All,
        selection.remaining.no_duplicates(),
        runs(selection, events),
    ensures
        ({
            let clicked = clicked_items(events);
            let left = after_run(selection, events).remaining;
            &&& clicked.len() + left.len() == selection.remaining.len()
            &&& left.len() == 0 <==> clicked.len() == selection.remaining.len()
            &&& clicked.no_duplicates()
            &&& left.no_duplicates()
            &&& forall|item: Seq<char>| #[trigger]
                selection.remaining.contains(item) <==> clicked.contains(item) || left.contains(
                    item,
                )
            &&& forall|item: Seq<char>| #[trigger]
                clicked.contains(item) ==> !left.contains(item)
            &&& selection.mode.ordered() ==> clicked == selection.remaining.take(
                clicked.len() as int,
            ) && left == selection.remaining.skip(clicked.len() as int)
        }),
        after_run(selection, events).mode == selection.mode,
    decreases events.len(),
{
    let items = selection.remaining;
    if events.len() == 0 {
        assert(items.take(0) =~= Seq::<Seq<char>>::empty());
        assert(items.skip(0) =~= items);
    } else {
        let earlier = events.drop_last();
        lemma_selection_run(selection, earlier);
        let state = after_run(selection, earlier);
        let clicked = clicked_items(earlier);
        match events.last() {
            SelectionEvent::Clicked { map, slots, means, item, .. } => {
                lemma_target(state, map, slots);
                lemma_one_item_less(state.remaining, item);
                let left = without_item(state.remaining, item);
                assert(after_run(selection, events).remaining == left);
                let now = clicked.push(item);
                assert(clicked_items(events) == now);
                assert forall|other: Seq<char>|
                    now.contains(other) <==> clicked.contains(other) || other == item by {
                    assert(now[clicked.len() as int] == item);
                    if clicked.contains(other) {
                        let k = choose|k: int| 0 <= k < clicked.len() && clicked[k] == other;
                        assert(now[k] == other);
                    }
                    if now.contains(other) {
                        let k = choose|k: int| 0 <= k < now.len() && now[k] == other;
                        if k < clicked.len() {
                            assert(clicked[k] == other);
                        }
                    }
                }
                assert forall|other: Seq<char>| #[trigger]
                    items.contains(other) <==> now.contains(other) || left.contains(other) by {
                    lemma_without_keeps(state.remaining, item, other);
                }
                assert forall|other: Seq<char>| #[trigger]
                    now.contains(other) implies !left.contains(other) by {
                    lemma_without_keeps(state.remaining, item, other);
                }
                assert(now.no_duplicates()) by {
                    assert forall|i: int, j: int|
                        0 <= i < now.len() && 0 <= j < now.len() && i != j implies now[i]
                        != now[j] by {
                        if i < clicked.len() {
                            assert(clicked.contains(clicked[i]));
                        }
                        if j < clicked.len() {
                            assert(clicked.contains(clicked[j]));
                        }
                    }
                }
                if selection.mode.ordered() {
                    lemma_saved_order(state, map, slots);
                    let n = clicked.len() as int;
                    assert(item == items[n]);
                    assert(now =~= items.take(n + 1));
                    assert(left =~= items.skip(n + 1));
                }
            },
            _ => {
                assert(after_run(selection, events).remaining == state.remaining);
                assert(clicked_items(events) == clicked);
            },
        }
    }
}

/// Filling an empty loadout with a valid preset is through after exactly four clicks,
/// one for each of its Stratagems, in the saved order where that is kept.
pub proof fn lemma_preset_takes_four_clicks(
    name: Seq<char>,
    preset: Preset,
    selection: SelectionView,
    events: Seq<SelectionEvent>,
)
    requires
        preset_fault(name, preset@) is None,
        selection.mode is All,
        selection.remaining == template_paths(preset.stratagems@),
        runs(selection, events),
    ensures
        after_run(selection, events).remaining.len() == 0 <==> clicked_items(events).len() == 4,
        after_run(selection, events).remaining.len() == 0 ==> {
            &&& clicked_items(events).no_duplicates()
            &&& forall|i: int|
                0 <= i < 4 ==> clicked_items(events).contains(
                    (#[trigger] preset.stratagems@[i]).path@,
                )
            &&& selection.mode.ordered() ==> clicked_items(events) == template_paths(
                preset.stratagems@,
            )
        },
{
    let items = selection.remaining;
    lemma_valid_templates_differ(preset@.stratagems);
    assert forall|i: int, j: int| 0 <= i < items.len() && 0 <= j < items.len() && i != j implies
        items[i] != items[j] by {
        assert(preset@.stratagems[i].path == items[i]);
        assert(preset@.stratagems[j].path == items[j]);
    }
    lemma_selection_run(selection, events);
    if after_run(selection, events).remaining.len() == 0 {
        assert forall|i: int| 0 <= i < 4 implies clicked_items(events).contains(
            (#[trigger] preset.stratagems@[i]).path@,
        ) by {
            assert(items[i] == preset.stratagems@[i].path@);
            assert(items.contains(items[i]));
        }
        assert(items.take(4) =~= items);
    }
}

proof fn lemma_items_filtered(items: Seq<Seq<char>>, item: Seq<char>)
    ensures
        without_item(items, item) == items.filter(|other: Seq<char>| other != item),
    decreases items.len(),
{
    reveal(Seq::filter);
    if items.len() > 0 {
        lemma_items_filtered(items.drop_last(), item);
    }
}

/// Once an item was selected the other items remain, in their order; the wheel is counted
/// anew and no end of the list is assumed.
pub proof fn lemma_item_taken(selection: SelectionView, item: Seq<char>)
    ensures
        selection.item_taken(item).remaining == selection.remaining.filter(
            |other: Seq<char>| other != item,
        ),
        selection.item_taken(item).wheel_attempts == 0,
        selection.item_taken(item).boundary is None,
        selection.item_taken(item).mode == selection.mode,
        selection.item_taken(item).item_kind == selection.item_kind,
        selection.item_taken(item).full_scan_complete == selection.full_scan_complete,
        without_item(selection.remaining, item) == selection.item_taken(item).remaining,
{
    lemma_items_filtered(selection.remaining, item);
}

/// When nothing is to be clicked, the page is turned toward the first remaining item: down
/// while it was never seen or when every visible slot lies above its slot, up when every
/// visible slot lies below it. It is turned by a nudge exactly when the list is thought to
/// end in that direction. Each turn counts, and after twenty there is no other.
#[verifier::spinoff_prover]
#[verifier::rlimit(30)]
pub proof fn lemma_turn_goes_toward_item(
    selection: SelectionView,
    map: ListMapView,
    slots: Seq<Slot>,
    means: Seq<i64>,
)
    requires
        selection.remaining.len() > 0,
    ensures
        ({
            let (step, after, known) = selection.stepped(map, slots, means);
            let item = selection.remaining[0];
            let y = map.slots[map.items[item] as int].content_y;
            step matches StepView::Turn { input, attempt } ==> {
                &&& after == selection
                &&& known == map
                &&& selection.target(map, slots) is None
                &&& selection.wheel_attempts < 20
                &&& attempt == selection.wheel_attempts + 1
                &&& input matches PageTurnInput::Full(direction) ==> selection.boundary != Some(
                    direction,
                )
                &&& input matches PageTurnInput::Nudge(direction) ==> selection.boundary == Some(
                    direction,
                )
                &&& !map.items.contains_key(item) ==> input == PageTurnInput::Full(
                    ScrollDirection::Down,
                ) || input == PageTurnInput::Nudge(ScrollDirection::Down)
                &&& map.items.contains_key(item) ==> map.current.len() > 0
                &&& map.items.contains_key(item) && (input == PageTurnInput::Full(
                    ScrollDirection::Down,
                ) || input == PageTurnInput::Nudge(ScrollDirection::Down)) ==> forall|i: int|
                    0 <= i < map.current.len() ==> map.slots[(
                    #[trigger] map.current[i]).id as int].content_y < y
                &&& map.items.contains_key(item) && (input == PageTurnInput::Full(
                    ScrollDirection::Up,
                ) || input == PageTurnInput::Nudge(ScrollDirection::Up)) ==> forall|i: int|
                    0 <= i < map.current.len() ==> map.slots[(
                    #[trigger] map.current[i]).id as int].content_y > y
            }
        }),
{
    lemma_scroll_goes_toward_item(map, selection.remaining[0]);
}

/// What the step is when something is to be clicked: an available slot is clicked, as the
/// final one when it is the only one left or one is enough. A slot in use by another player
/// is passed over for the next item when one is enough and another is left; else the
/// selection ends.
pub proof fn lemma_step_with_target(
    selection: SelectionView,
    map: ListMapView,
    slots: Seq<Slot>,
    means: Seq<i64>,
    target: ClickTargetView,
)
    requires
        selection.remaining.len() > 0,
        selection.target(map, slots) == Some(target),
    ensures
        ({
            let (step, after, known) = selection.stepped(map, slots, means);
            &&& known == map
            &&& target.available ==> after == selection && step == (StepView::Click {
                target,
                final_item: selection.mode == SelectionMode::FirstAvailable
                    || selection.remaining.len() == 1,
            })
            &&& !target.available && selection.mode == SelectionMode::FirstAvailable
                && selection.remaining.len() >= 2 ==> {
                &&& step is Again
                &&& after.remaining.len() == selection.remaining.len() - 1
                &&& forall|i: int|
                    0 <= i < after.remaining.len() ==> #[trigger] after.remaining[i]
                        == selection.remaining[i + 1]
                &&& after.wheel_attempts == 0
                &&& after.boundary is None
                &&& after.mode == selection.mode
                &&& after.item_kind == selection.item_kind
                &&& after.full_scan_complete == selection.full_scan_complete
            }
            &&& !target.available && !(selection.mode == SelectionMode::FirstAvailable
                && selection.remaining.len() >= 2) ==> step is Unavailable && after == selection
        }),
{
}

/// What the step is when nothing is to be clicked. Once the whole list was seen, an item
/// that was not recognized anywhere is taken from its most likely slot. Otherwise the page is
/// turned, unless it was turned twenty times already or the item should have been visible.
pub proof fn lemma_step_without_target(
    selection: SelectionView,
    map: ListMapView,
    slots: Seq<Slot>,
    means: Seq<i64>,
)
    requires
        selection.remaining.len() > 0,
        selection.target(map, slots) is None,
    ensures
        ({
            let (step, after, known) = selection.stepped(map, slots, means);
            let item = selection.remaining[0];
            let chosen = best_evidence(map.evidence, means, item, map.selected);
            &&& after == selection
            &&& selection.full_scan_complete && !map.items.contains_key(item) && chosen is Some
                <==> step is Again
            &&& step is Again ==> known == map.with_fallback(item, chosen->0)
            &&& step !is Again ==> known == map
            &&& step !is Again && selection.wheel_attempts >= 20 ==> step == StepView::Failed(
                SelectionFault::NotFound { item_kind: selection.item_kind, item_id: item },
            )
            &&& step !is Again && selection.wheel_attempts < 20 ==> (step is Turn <==> map.hint(
                item,
            ) is Scroll)
            &&& step !is Again && selection.wheel_attempts < 20 && map.hint(item)
                == NavigationHint::ExpectedVisible ==> step == StepView::Failed(
                SelectionFault::NotRecognized { item_id: item },
            )
        }),
{
}

/// In saved order the target is that of the first remaining item, where it is visible in a
/// slot that may be selected, or else where the map expects it. In any order the first on
/// the page is taken, or else the first remaining item that the map expects on the page.
#[verifier::spinoff_prover]
#[verifier::rlimit(30)]
pub proof fn lemma_target_order(selection: SelectionView, map: ListMapView, slots: Seq<Slot>)
    requires
        selection.remaining.len() > 0,
    ensures
        ({
            let target = selection.target(map, slots);
            let first = selection.remaining[0];
            let visible = visible_target(slots, first, selection.item_kind);
            let next = next_target(slots, selection.remaining, selection.item_kind, map);
            let ordered = selection.mode is FirstAvailable || selection.mode == (
            SelectionMode::All { in_saved_order: true });
            &&& ordered && visible is Some && map.can_select(visible->0.place) ==> target == visible
            &&& ordered && (visible is None || !map.can_select(visible->0.place)) ==> target
                == mapped_target(map, first, slots)
            &&& !ordered && next is Some ==> target == next
            &&& !ordered && next is None ==> match target {
                Some(found) => exists|r: int|
                    #![trigger selection.remaining[r]]
                    {
                        &&& 0 <= r < selection.remaining.len()
                        &&& mapped_target(map, selection.remaining[r], slots) == Some(found)
                        &&& forall|i: int|
                            0 <= i < r ==> mapped_target(
                                map,
                                #[trigger] selection.remaining[i],
                                slots,
                            ) is None
                    },
                None => forall|i: int|
                    0 <= i < selection.remaining.len() ==> mapped_target(
                        map,
                        #[trigger] selection.remaining[i],
                        slots,
                    ) is None,
            }
        }),
{
    lemma_first_mapped_is_first(map, selection.remaining, slots);
}

#[verifier::spinoff_prover]
#[verifier::rlimit(30)]
proof fn lemma_first_mapped_is_first(
    map: ListMapView,
    remaining: Seq<Seq<char>>,
    slots: Seq<Slot>,
)
    ensures
        match first_mapped(map, remaining, slots) {
            Some(found) => exists|r: int|
                #![trigger remaining[r]]
                {
                    &&& 0 <= r < remaining.len()
                    &&& mapped_target(map, remaining[r], slots) == Some(found)
                    &&& forall|i: int|
                        0 <= i < r ==> mapped_target(map, #[trigger] remaining[i], slots) is None
                },
            None => forall|i: int|
                0 <= i < remaining.len() ==> mapped_target(
                    map,
                    #[trigger] remaining[i],
                    slots,
                ) is None,
        },
    decreases remaining.len(),
{
    if remaining.len() > 0 {
        let before = remaining.drop_last();
        lemma_first_mapped_is_first(map, before, slots);
        assert forall|i: int| 0 <= i < before.len() implies #[trigger] remaining[i]
            == before[i] by {}
        let last: int = remaining.len() - 1;
        match first_mapped(map, before, slots) {
            Some(found) => {
                let r = choose|r: int|
                    #![trigger before[r]]
                    {
                        &&& 0 <= r < before.len()
                        &&& mapped_target(map, before[r], slots) == Some(found)
                        &&& forall|i: int|
                            0 <= i < r ==> mapped_target(map, #[trigger] before[i], slots) is None
                    };
                assert(remaining[r] == before[r]);
                assert forall|i: int| 0 <= i < r implies mapped_target(
                    map,
                    #[trigger] remaining[i],
                    slots,
                ) is None by {
                    assert(before[i] == remaining[i]);
                }
            },
            None => {
                assert(remaining[last] == remaining.last());
                assert forall|i: int| 0 <= i < last implies mapped_target(
                    map,
                    #[trigger] remaining[i],
                    slots,
                ) is None by {
                    assert(before[i] == remaining[i]);
                }
            },
        }
    }
}

/// The list is thought to end in a direction when a whole turn that way moved less than a
/// page or not at all. A nudge down that had no effect shows that the whole list was seen.
pub proof fn lemma_ends_of_list(
    selection: SelectionView,
    direction: ScrollDirection,
    attempt: int,
)
    ensures
        selection.turned(PageTurnInput::Full(direction), attempt, true) == (SelectionView {
            wheel_attempts: attempt,
            boundary: Some(direction),
            ..selection
        }),
        selection.turned(PageTurnInput::Full(direction), attempt, false) == (SelectionView {
            wheel_attempts: attempt,
            boundary: None,
            ..selection
        }),
        forall|short: bool| #[trigger]
            selection.turned(PageTurnInput::Nudge(direction), attempt, short) == (SelectionView {
                wheel_attempts: attempt,
                boundary: None,
                ..selection
            }),
        selection.stuck(PageTurnInput::Full(direction), attempt) == (SelectionView {
            wheel_attempts: attempt,
            boundary: Some(direction),
            ..selection
        }),
        selection.stuck(PageTurnInput::Nudge(ScrollDirection::Down), attempt) == (SelectionView {
            wheel_attempts: attempt,
            full_scan_complete: true,
            ..selection
        }),
        selection.stuck(PageTurnInput::Nudge(ScrollDirection::Up), attempt) == (SelectionView {
            wheel_attempts: attempt,
            ..selection
        }),
        PageTurnInput::Full(direction).toward() == direction,
        PageTurnInput::Nudge(direction).toward() == direction,
        ScrollDirection::Up.opposite_direction() == ScrollDirection::Down,
        ScrollDirection::Down.opposite_direction() == ScrollDirection::Up,
{
}

} // verus!
