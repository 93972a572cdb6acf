//! A map of the list behind the visible page, built up while the list is
//! scrolled: which slots there are, where the items were seen, and which slots were
//! selected.
use super::click_plan::{option_target, ClickTarget, ClickTargetView};
use super::{ScrollDirection, Slot, SlotKind, SlotPlace};
use crate::item::ItemKind;
use crate::text::same_text;
use crate::text_map::{as_map, ascending, has_key, lemma_place_unique, place_of, TextMap};
use vstd::prelude::*;

verus! {

/// A slot of the list.
#[derive(Debug, Clone, Copy, PartialEq, Eq, Structural)]
pub struct MapSlot {
    pub col: u32,
    /// The order of the slot's position from the top of the list to its bottom.
    pub content_y: i32,
}

/// A slot of the visible page and the slot of the list that it is.
#[derive(Debug, Clone, Copy, PartialEq, Eq, Structural)]
pub struct PlacedSlot {
    pub row: u32,
    pub col: u32,
    pub id: usize,
}

/// A slot that was sampled on a page.
#[derive(Debug, Clone, Copy, PartialEq, Eq, Structural)]
pub struct PageSample {
    pub row: u32,
    pub col: u32,
    /// The order of its position in the list.
    pub content_y: i32,
}

/// How well a template matches a slot of the page.
#[derive(Debug)]
pub struct MatchCandidate {
    pub item_id: String,
    pub row: u32,
    pub col: u32,
    /// The order of the match error; lower is better.
    pub score: i64,
    pub available: bool,
}

/// All matches of one item with one slot of the list.
#[derive(Debug)]
pub struct Evidence {
    pub item_id: String,
    pub slot: usize,
    /// The observed match errors.
    pub scores: Vec<i64>,
    /// The lowest of them.
    pub best: i64,
    /// Whether the item was available in the observation with the lowest error.
    pub available: bool,
}

/// Evidence as a mathematical value.
#[verifier::ext_equal]
pub struct EvidenceView {
    pub item_id: Seq<char>,
    pub slot: usize,
    pub scores: Seq<i64>,
    pub best: i64,
    pub available: bool,
}

impl View for Evidence {
    type V = EvidenceView;

    open spec fn view(&self) -> EvidenceView {
        EvidenceView {
            item_id: self.item_id@,
            slot: self.slot,
            scores: self.scores@,
            best: self.best,
            available: self.available,
        }
    }
}

/// The evidence as mathematical values.
pub open spec fn evidence_views(list: Seq<Evidence>) -> Seq<EvidenceView> {
    list.map_values(|evidence: Evidence| evidence@)
}

/// The slot that stands in for an item that was never recognized.
#[derive(Debug, Clone, Copy, PartialEq, Eq, Structural)]
pub struct Fallback {
    pub slot: usize,
    pub available: bool,
}

/// What has to do with one slot of the list.
pub trait AtSlot {
    spec fn at(&self) -> usize;

    fn slot_id(&self) -> (r: usize)
        ensures
            r == self.at(),
    ;
}

impl AtSlot for usize {
    open spec fn at(&self) -> usize {
        *self
    }

    fn slot_id(&self) -> (r: usize) {
        *self
    }
}

impl AtSlot for Fallback {
    open spec fn at(&self) -> usize {
        self.slot
    }

    fn slot_id(&self) -> (r: usize) {
        self.slot
    }
}

/// The entries that have to do with other slots.
pub open spec fn elsewhere<V: AtSlot>(map: Map<Seq<char>, V>, slot: usize) -> Map<Seq<char>, V> {
    Map::new(|key: Seq<char>| map.contains_key(key) && map[key].at() != slot, |key: Seq<char>| map[key])
}

/// Takes out the entries that have to do with a slot.
fn leave_slot<V: AtSlot>(map: &mut TextMap<V>, slot: usize)
    ensures
        final(map).map() == elsewhere(old(map).map(), slot),
{
    let ghost start = map@;
    let mut i: usize = map.len();
    let ghost whole = map.map();
    assert(start.take(i as int) =~= start);
    while i > 0
        invariant
            i <= map@.len(),
            start == old(map)@,
            whole == as_map(start),
            ascending(start),
            ascending(map@),
            map@.take(i as int) == start.take(i as int),
            i <= start.len(),
            forall|k: int| i <= k < map@.len() ==> (#[trigger] map@[k]).1.at() != slot,
            forall|key: Seq<char>| #[trigger]
                map.map().contains_key(key) ==> whole.contains_key(key) && map.map()[key]
                    == whole[key],
            forall|key: Seq<char>| #[trigger]
                whole.contains_key(key) && whole[key].at() != slot ==> map.map().contains_key(key),
        decreases i,
    {
        let last: usize = i - 1;
        let ghost before = map@;
        let ghost held = map.map();
        proof {
            lemma_place_unique(before, last as int);
        }
        if map.value_at(last).slot_id() == slot {
            let key = map.key_at(last).to_string();
            let _ = map.remove(key.as_str());
            proof {
                assert(key@ == before[last as int].0);
                assert(place_of(before, key@) == last);
                assert(map@ == before.remove(last as int));
                assert(map@.take(last as int) =~= before.take(i as int).take(last as int));
                assert forall|k: int| last <= k < map@.len() implies (#[trigger] map@[k]).1.at()
                    != slot by {
                    assert(map@[k] == before[k + 1]);
                }
                assert(held[key@].at() == slot);
                assert(whole[key@].at() == slot);
            }
        } else {
            assert(map@.take(last as int) =~= before.take(i as int).take(last as int));
        }
        assert(start.take(i as int).take(last as int) =~= start.take(last as int));
        i = last;
    }
    proof {
        assert forall|key: Seq<char>| map.map().contains_key(key) implies map.map()[key].at()
            != slot by {
            assert(has_key(map@, key));
            let k = place_of(map@, key);
            assert(map@[k].1.at() != slot);
        }
        assert(map.map() =~= elsewhere(whole, slot));
    }
}

/// The list behind the visible page.
pub struct ListMap {
    item_kind: ItemKind,
    slots: Vec<MapSlot>,
    /// The slots of the visible page.
    current: Vec<PlacedSlot>,
    /// Where each item was seen last.
    items: TextMap<usize>,
    evidence: Vec<Evidence>,
    fallbacks: TextMap<Fallback>,
    /// For each slot, whether it was selected.
    selected: Vec<bool>,
    no_booster_option: Option<usize>,
}

/// The list behind the visible page as a mathematical value.
pub struct ListMapView {
    pub item_kind: ItemKind,
    pub slots: Seq<MapSlot>,
    pub current: Seq<PlacedSlot>,
    pub items: Map<Seq<char>, usize>,
    pub evidence: Seq<EvidenceView>,
    pub fallbacks: Map<Seq<char>, Fallback>,
    pub selected: Seq<bool>,
    pub no_booster_option: Option<usize>,
}

impl View for ListMap {
    type V = ListMapView;

    closed spec fn view(&self) -> ListMapView {
        ListMapView {
            item_kind: self.item_kind,
            slots: self.slots@,
            current: self.current@,
            items: self.items.map(),
            evidence: evidence_views(self.evidence@),
            fallbacks: self.fallbacks.map(),
            selected: self.selected@,
            no_booster_option: self.no_booster_option,
        }
    }
}

/// The list slot that stands at a place of the page.
pub open spec fn placed_id(placed: Seq<PlacedSlot>, row: u32, col: u32) -> Option<usize>
    decreases placed.len(),
{
    if placed.len() == 0 {
        None
    } else {
        match placed_id(placed.drop_last(), row, col) {
            Some(id) => Some(id),
            None => if placed.last().row == row && placed.last().col == col {
                Some(placed.last().id)
            } else {
                None
            },
        }
    }
}

/// The place of the page that a list slot stands at.
pub open spec fn place_of_id(placed: Seq<PlacedSlot>, id: usize) -> Option<(u32, u32)>
    decreases placed.len(),
{
    if placed.len() == 0 {
        None
    } else {
        match place_of_id(placed.drop_last(), id) {
            Some(place) => Some(place),
            None => if placed.last().id == id {
                Some((placed.last().row, placed.last().col))
            } else {
                None
            },
        }
    }
}

/// The slots of the list and of the page once the samples of a page are in the
/// list: a sample at a place that is not known yet is a new slot.
pub open spec fn with_samples(
    slots: Seq<MapSlot>,
    placed: Seq<PlacedSlot>,
    samples: Seq<PageSample>,
) -> (Seq<MapSlot>, Seq<PlacedSlot>)
    decreases samples.len(),
{
    if samples.len() == 0 {
        (slots, placed)
    } else {
        let before = with_samples(slots, placed, samples.drop_last());
        let sample = samples.last();
        if placed_id(before.1, sample.row, sample.col) is Some {
            before
        } else {
            (
                before.0.push(MapSlot { col: sample.col, content_y: sample.content_y }),
                before.1.push(
                    PlacedSlot {
                        row: sample.row,
                        col: sample.col,
                        id: before.0.len() as usize,
                    },
                ),
            )
        }
    }
}

impl ListMapView {
    /// Whatever is remembered concerns slots of the list, and no item is looked for in
    /// a slot that was selected.
    pub open spec fn sound(self) -> bool {
        &&& self.selected.len() == self.slots.len()
        &&& forall|i: int|
            0 <= i < self.current.len() ==> (#[trigger] self.current[i]).id < self.slots.len()
        &&& forall|item: Seq<char>| #[trigger]
            self.items.contains_key(item) ==> self.items[item] < self.slots.len()
                && !self.selected[self.items[item] as int]
        &&& forall|i: int|
            0 <= i < self.evidence.len() ==> (#[trigger] self.evidence[i]).slot < self.slots.len()
                && !self.selected[self.evidence[i].slot as int]
        &&& self.no_booster_option is Some ==> self.no_booster_option->0 < self.slots.len()
    }

    /// The list slot at a place of the visible page.
    pub open spec fn id_at(self, row: u32, col: u32) -> Option<usize> {
        placed_id(self.current, row, col)
    }

    /// A list slot that may be selected.
    pub open spec fn open_slot(self, id: usize) -> bool {
        self.no_booster_option != Some(id) && !self.selected[id as int]
    }

    /// A slot of the visible page that may be selected.
    pub open spec fn can_select(self, place: SlotPlace) -> bool {
        match self.id_at(place.row, place.col) {
            Some(id) => self.open_slot(id),
            None => false,
        }
    }

    /// What is known once a slot of the page was looked at: an item that was
    /// recognized there is remembered, unless the slot may not be selected.
    pub open spec fn with_seen(self, slot: Slot) -> ListMapView {
        match slot.classification {
            Some(classification) => if slot.kind == SlotKind::Item(self.item_kind) {
                match self.id_at(slot.place.row, slot.place.col) {
                    Some(id) => if self.open_slot(id) {
                        ListMapView {
                            items: self.items.insert(classification.item_id@, id),
                            ..self
                        }
                    } else {
                        self
                    },
                    None => self,
                }
            } else {
                self
            },
            None => self,
        }
    }

    /// What is known once all slots of the page were looked at.
    pub open spec fn with_all_seen(self, slots: Seq<Slot>) -> ListMapView
        decreases slots.len(),
    {
        if slots.len() == 0 {
            self
        } else {
            self.with_all_seen(slots.drop_last()).with_seen(slots.last())
        }
    }

    /// What is known once a match was recorded.
    pub open spec fn with_candidate(self, candidate: MatchCandidate) -> ListMapView {
        match self.id_at(candidate.row, candidate.col) {
            Some(id) => if self.open_slot(id) {
                ListMapView {
                    evidence: with_evidence(
                        self.evidence,
                        candidate.item_id@,
                        id,
                        candidate.score,
                        candidate.available,
                    ),
                    ..self
                }
            } else {
                self
            },
            None => self,
        }
    }

    /// What is known once all matches of the page were recorded.
    pub open spec fn with_candidates(self, candidates: Seq<MatchCandidate>) -> ListMapView
        decreases candidates.len(),
    {
        if candidates.len() == 0 {
            self
        } else {
            self.with_candidates(candidates.drop_last()).with_candidate(candidates.last())
        }
    }

    /// The list with the samples of a page at their places.
    pub open spec fn with_page(self, samples: Seq<PageSample>, placed: Seq<PlacedSlot>) -> ListMapView {
        let grown = with_samples(self.slots, placed, samples);
        ListMapView {
            slots: grown.0,
            current: grown.1,
            selected: Seq::new(
                grown.0.len(),
                |i: int|
                    if i < self.selected.len() {
                        self.selected[i]
                    } else {
                        false
                    },
            ),
            ..self
        }
    }

    /// The list once a page is the visible one and everything on it was recorded.
    pub open spec fn with_committed(
        self,
        samples: Seq<PageSample>,
        placed: Seq<PlacedSlot>,
        slots: Seq<Slot>,
        candidates: Seq<MatchCandidate>,
    ) -> ListMapView {
        self.with_page(samples, placed).with_all_seen(slots).with_candidates(candidates)
    }

    /// The list once a slot was selected: nothing is looked for there any more.
    pub open spec fn with_selected(self, place: SlotPlace) -> ListMapView {
        match self.id_at(place.row, place.col) {
            Some(id) => ListMapView {
                selected: self.selected.update(id as int, true),
                items: elsewhere(self.items, id),
                evidence: evidence_elsewhere(self.evidence, id),
                fallbacks: elsewhere(self.fallbacks, id),
                ..self
            },
            None => self,
        }
    }

    /// The list with the most likely slot standing in for an item.
    pub open spec fn with_fallback(self, item: Seq<char>, index: int) -> ListMapView {
        let chosen = self.evidence[index];
        ListMapView {
            items: self.items.insert(item, chosen.slot),
            fallbacks: self.fallbacks.insert(
                item,
                Fallback { slot: chosen.slot, available: chosen.available },
            ),
            ..self
        }
    }
}

/// The place of the evidence for an item in a slot.
pub open spec fn evidence_index(list: Seq<EvidenceView>, item: Seq<char>, slot: usize) -> Option<int>
    decreases list.len(),
{
    if list.len() == 0 {
        None
    } else {
        match evidence_index(list.drop_last(), item, slot) {
            Some(index) => Some(index),
            None => if list.last().item_id == item && list.last().slot == slot {
                Some(list.len() - 1)
            } else {
                None
            },
        }
    }
}

/// Evidence with one more observation.
pub open spec fn with_observation(evidence: EvidenceView, score: i64, available: bool) -> EvidenceView {
    EvidenceView {
        scores: evidence.scores.push(score),
        best: if score < evidence.best {
            score
        } else {
            evidence.best
        },
        available: if score < evidence.best {
            available
        } else {
            evidence.available
        },
        ..evidence
    }
}

/// The evidence once a match of an item with a slot was recorded.
pub open spec fn with_evidence(
    list: Seq<EvidenceView>,
    item: Seq<char>,
    slot: usize,
    score: i64,
    available: bool,
) -> Seq<EvidenceView> {
    match evidence_index(list, item, slot) {
        Some(index) => list.update(index, with_observation(list[index], score, available)),
        None => list.push(
            EvidenceView { item_id: item, slot, scores: seq![score], best: score, available },
        ),
    }
}

/// The evidence that concerns other slots.
pub open spec fn evidence_elsewhere(list: Seq<EvidenceView>, slot: usize) -> Seq<EvidenceView>
    decreases list.len(),
{
    if list.len() == 0 {
        Seq::empty()
    } else if list.last().slot == slot {
        evidence_elsewhere(list.drop_last(), slot)
    } else {
        evidence_elsewhere(list.drop_last(), slot).push(list.last())
    }
}

/// The evidence for an item with the lowest mean error among slots that were not
/// selected; the first of them where several have it.
pub open spec fn best_evidence(
    list: Seq<EvidenceView>,
    means: Seq<i64>,
    item: Seq<char>,
    selected: Seq<bool>,
) -> Option<int>
    decreases list.len(),
{
    if list.len() == 0 {
        None
    } else {
        let before = best_evidence(list.drop_last(), means, item, selected);
        let last: int = list.len() - 1;
        if list[last].item_id != item || selected[list[last].slot as int] {
            before
        } else {
            match before {
                Some(index) => if means[last] < means[index] {
                    Some(last)
                } else {
                    Some(index)
                },
                None => Some(last),
            }
        }
    }
}

/// The range of positions of the visible slots.
pub open spec fn visible_range(slots: Seq<MapSlot>, current: Seq<PlacedSlot>) -> Option<(i32, i32)>
    decreases current.len(),
{
    if current.len() == 0 {
        None
    } else {
        let y = slots[current.last().id as int].content_y;
        match visible_range(slots, current.drop_last()) {
            None => Some((y, y)),
            Some((low, high)) => Some(
                (
                    if y < low {
                        y
                    } else {
                        low
                    },
                    if y > high {
                        y
                    } else {
                        high
                    },
                ),
            ),
        }
    }
}

/// Where to look for an item.
#[derive(Debug, Clone, Copy, PartialEq, Eq, Structural)]
pub enum NavigationHint {
    Scroll(ScrollDirection),
    ExpectedVisible,
}

impl ListMapView {
    /// Where to look for an item: one that was never seen is looked for further
    /// down.
    pub open spec fn hint(self, item: Seq<char>) -> NavigationHint {
        if !self.items.contains_key(item) {
            NavigationHint::Scroll(ScrollDirection::Down)
        } else if place_of_id(self.current, self.items[item]) is Some {
            NavigationHint::ExpectedVisible
        } else {
            let target = self.slots[self.items[item] as int].content_y;
            match visible_range(self.slots, self.current) {
                None => NavigationHint::ExpectedVisible,
                Some((low, high)) => if target < low {
                    NavigationHint::Scroll(ScrollDirection::Up)
                } else if target > high {
                    NavigationHint::Scroll(ScrollDirection::Down)
                } else {
                    NavigationHint::ExpectedVisible
                },
            }
        }
    }

    /// Whether an item that is found by the map counts as available.
    pub open spec fn availability(self, item: Seq<char>, id: usize) -> bool {
        if self.fallbacks.contains_key(item) {
            self.fallbacks[item].available
        } else {
            match evidence_index(self.evidence, item, id) {
                Some(index) => self.evidence[index].available,
                None => true,
            }
        }
    }

    /// The slot of the page in which the map expects an item: its place in the list
    /// of slots, or `None` when the item is not expected on this page.
    pub open spec fn expected_slot(self, item: Seq<char>, slots: Seq<Slot>) -> Option<int> {
        if !self.items.contains_key(item) || self.selected[self.items[item] as int] {
            None
        } else {
            match place_of_id(self.current, self.items[item]) {
                Some(place) => selectable_at(slots, self.item_kind, place),
                None => None,
            }
        }
    }
}

/// The first slot at a place of the page that holds an item of the kind.
pub open spec fn selectable_at(slots: Seq<Slot>, kind: ItemKind, place: (u32, u32)) -> Option<int>
    decreases slots.len(),
{
    if slots.len() == 0 {
        None
    } else {
        match selectable_at(slots.drop_last(), kind, place) {
            Some(index) => Some(index),
            None => if slots.last().kind == SlotKind::Item(kind) && slots.last().place.row == place.0
                && slots.last().place.col == place.1 {
                Some(slots.len() - 1)
            } else {
                None
            },
        }
    }
}

/// The first slot at a place of the page.
pub open spec fn slot_at(slots: Seq<Slot>, place: (u32, u32)) -> Option<int>
    decreases slots.len(),
{
    if slots.len() == 0 {
        None
    } else {
        match slot_at(slots.drop_last(), place) {
            Some(index) => Some(index),
            None => if slots.last().place.row == place.0 && slots.last().place.col == place.1 {
                Some(slots.len() - 1)
            } else {
                None
            },
        }
    }
}

// ----- searching ---------------------------------------------------------------------

proof fn lemma_placed_id_stays(placed: Seq<PlacedSlot>, row: u32, col: u32, n: int)
    requires
        0 <= n <= placed.len(),
        placed_id(placed.take(n), row, col) is Some,
    ensures
        placed_id(placed, row, col) == placed_id(placed.take(n), row, col),
    decreases placed.len() - n,
{
    if n < placed.len() {
        assert(placed.take(n + 1).drop_last() == placed.take(n));
        lemma_placed_id_stays(placed, row, col, n + 1);
    } else {
        assert(placed.take(n) == placed);
    }
}

fn find_placed(placed: &Vec<PlacedSlot>, row: u32, col: u32) -> (r: Option<usize>)
    ensures
        r == placed_id(placed@, row, col),
{
    let mut i: usize = 0;
    assert(placed@.take(0) =~= Seq::<PlacedSlot>::empty());
    while i < placed.len()
        invariant
            i <= placed@.len(),
            placed_id(placed@.take(i as int), row, col) is None,
        decreases placed@.len() - i,
    {
        assert(placed@.take(i + 1).drop_last() == placed@.take(i as int));
        if placed[i].row == row && placed[i].col == col {
            proof {
                lemma_placed_id_stays(placed@, row, col, i + 1);
            }
            return Some(placed[i].id);
        }
        i = i + 1;
    }
    assert(placed@.take(placed@.len() as int) =~= placed@);
    None
}

proof fn lemma_place_stays(placed: Seq<PlacedSlot>, id: usize, n: int)
    requires
        0 <= n <= placed.len(),
        place_of_id(placed.take(n), id) is Some,
    ensures
        place_of_id(placed, id) == place_of_id(placed.take(n), id),
    decreases placed.len() - n,
{
    if n < placed.len() {
        assert(placed.take(n + 1).drop_last() == placed.take(n));
        lemma_place_stays(placed, id, n + 1);
    } else {
        assert(placed.take(n) == placed);
    }
}

fn find_place(placed: &Vec<PlacedSlot>, id: usize) -> (r: Option<(u32, u32)>)
    ensures
        r == place_of_id(placed@, id),
{
    let mut i: usize = 0;
    assert(placed@.take(0) =~= Seq::<PlacedSlot>::empty());
    while i < placed.len()
        invariant
            i <= placed@.len(),
            place_of_id(placed@.take(i as int), id) is None,
        decreases placed@.len() - i,
    {
        assert(placed@.take(i + 1).drop_last() == placed@.take(i as int));
        if placed[i].id == id {
            proof {
                lemma_place_stays(placed@, id, i + 1);
            }
            return Some((placed[i].row, placed[i].col));
        }
        i = i + 1;
    }
    assert(placed@.take(placed@.len() as int) =~= placed@);
    None
}

proof fn lemma_evidence_index_stays(list: Seq<EvidenceView>, item: Seq<char>, slot: usize, n: int)
    requires
        0 <= n <= list.len(),
        evidence_index(list.take(n), item, slot) is Some,
    ensures
        evidence_index(list, item, slot) == evidence_index(list.take(n), item, slot),
    decreases list.len() - n,
{
    if n < list.len() {
        assert(list.take(n + 1).drop_last() == list.take(n));
        lemma_evidence_index_stays(list, item, slot, n + 1);
    } else {
        assert(list.take(n) == list);
    }
}

fn find_evidence(list: &Vec<Evidence>, item: &str, slot: usize) -> (r: Option<usize>)
    ensures
        match r {
            Some(index) => evidence_index(evidence_views(list@), item@, slot) == Some(index as int)
                && index < list@.len(),
            None => evidence_index(evidence_views(list@), item@, slot) is None,
        },
{
    let ghost all = evidence_views(list@);
    let mut i: usize = 0;
    assert(all.take(0) =~= Seq::<EvidenceView>::empty());
    while i < list.len()
        invariant
            i <= list@.len(),
            all == evidence_views(list@),
            evidence_index(all.take(i as int), item@, slot) is None,
        decreases list@.len() - i,
    {
        assert(all.take(i + 1).drop_last() == all.take(i as int));
        assert(all.take(i + 1).last() == list@[i as int]@);
        if list[i].slot == slot && same_text(list[i].item_id.as_str(), item) {
            proof {
                lemma_evidence_index_stays(all, item@, slot, i + 1);
            }
            return Some(i);
        }
        i = i + 1;
    }
    assert(all.take(all.len() as int) =~= all);
    None
}

proof fn lemma_selectable_stays(slots: Seq<Slot>, kind: ItemKind, place: (u32, u32), n: int)
    requires
        0 <= n <= slots.len(),
        selectable_at(slots.take(n), kind, place) is Some,
    ensures
        selectable_at(slots, kind, place) == selectable_at(slots.take(n), kind, place),
    decreases slots.len() - n,
{
    if n < slots.len() {
        assert(slots.take(n + 1).drop_last() == slots.take(n));
        lemma_selectable_stays(slots, kind, place, n + 1);
    } else {
        assert(slots.take(n) == slots);
    }
}

/// The first slot at a place of the page that holds an item of the kind.
pub(super) fn find_selectable(slots: &Vec<Slot>, kind: ItemKind, row: u32, col: u32) -> (r: Option<
    usize,
>)
    ensures
        match r {
            Some(index) => selectable_at(slots@, kind, (row, col)) == Some(index as int) && index
                < slots@.len(),
            None => selectable_at(slots@, kind, (row, col)) is None,
        },
{
    let mut i: usize = 0;
    assert(slots@.take(0) =~= Seq::<Slot>::empty());
    while i < slots.len()
        invariant
            i <= slots@.len(),
            selectable_at(slots@.take(i as int), kind, (row, col)) is None,
        decreases slots@.len() - i,
    {
        assert(slots@.take(i + 1).drop_last() == slots@.take(i as int));
        let slot = &slots[i];
        if slot.kind.is_selectable_item_for(kind) && slot.place.row == row && slot.place.col == col {
            proof {
                lemma_selectable_stays(slots@, kind, (row, col), i + 1);
            }
            return Some(i);
        }
        i = i + 1;
    }
    assert(slots@.take(slots@.len() as int) =~= slots@);
    None
}

proof fn lemma_slot_at_stays(slots: Seq<Slot>, place: (u32, u32), n: int)
    requires
        0 <= n <= slots.len(),
        slot_at(slots.take(n), place) is Some,
    ensures
        slot_at(slots, place) == slot_at(slots.take(n), place),
    decreases slots.len() - n,
{
    if n < slots.len() {
        assert(slots.take(n + 1).drop_last() == slots.take(n));
        lemma_slot_at_stays(slots, place, n + 1);
    } else {
        assert(slots.take(n) == slots);
    }
}

fn find_slot(slots: &Vec<Slot>, row: u32, col: u32) -> (r: Option<usize>)
    ensures
        match r {
            Some(index) => slot_at(slots@, (row, col)) == Some(index as int) && index
                < slots@.len(),
            None => slot_at(slots@, (row, col)) is None,
        },
{
    let mut i: usize = 0;
    assert(slots@.take(0) =~= Seq::<Slot>::empty());
    while i < slots.len()
        invariant
            i <= slots@.len(),
            slot_at(slots@.take(i as int), (row, col)) is None,
        decreases slots@.len() - i,
    {
        assert(slots@.take(i + 1).drop_last() == slots@.take(i as int));
        if slots[i].place.row == row && slots[i].place.col == col {
            proof {
                lemma_slot_at_stays(slots@, (row, col), i + 1);
            }
            return Some(i);
        }
        i = i + 1;
    }
    assert(slots@.take(slots@.len() as int) =~= slots@);
    None
}

// ----- keeping the map -----------------------------------------------------------------

/// The first slot of the page that removes the Booster.
pub open spec fn no_booster_slot(slots: Seq<Slot>) -> Option<int>
    decreases slots.len(),
{
    if slots.len() == 0 {
        None
    } else {
        match no_booster_slot(slots.drop_last()) {
            Some(index) => Some(index),
            None => if slots.last().kind == SlotKind::NoBoosterOption {
                Some(slots.len() - 1)
            } else {
                None
            },
        }
    }
}

proof fn lemma_no_booster_stays(slots: Seq<Slot>, n: int)
    requires
        0 <= n <= slots.len(),
        no_booster_slot(slots.take(n)) is Some,
    ensures
        no_booster_slot(slots) == no_booster_slot(slots.take(n)),
    decreases slots.len() - n,
{
    if n < slots.len() {
        assert(slots.take(n + 1).drop_last() == slots.take(n));
        lemma_no_booster_stays(slots, n + 1);
    } else {
        assert(slots.take(n) == slots);
    }
}

fn find_no_booster(slots: &Vec<Slot>) -> (r: Option<usize>)
    ensures
        match r {
            Some(index) => no_booster_slot(slots@) == Some(index as int) && index < slots@.len(),
            None => no_booster_slot(slots@) is None,
        },
{
    let mut i: usize = 0;
    assert(slots@.take(0) =~= Seq::<Slot>::empty());
    while i < slots.len()
        invariant
            i <= slots@.len(),
            no_booster_slot(slots@.take(i as int)) is None,
        decreases slots@.len() - i,
    {
        assert(slots@.take(i + 1).drop_last() == slots@.take(i as int));
        if slots[i].kind == SlotKind::NoBoosterOption {
            proof {
                lemma_no_booster_stays(slots@, i + 1);
            }
            return Some(i);
        }
        i = i + 1;
    }
    assert(slots@.take(slots@.len() as int) =~= slots@);
    None
}

impl ListMapView {
    /// A list of which nothing is known.
    pub open spec fn blank(item_kind: ItemKind) -> ListMapView {
        ListMapView {
            item_kind,
            slots: Seq::empty(),
            current: Seq::empty(),
            items: Map::empty(),
            evidence: Seq::empty(),
            fallbacks: Map::empty(),
            selected: Seq::empty(),
            no_booster_option: None,
        }
    }

    /// The list with the entry that removes the Booster noted.
    pub open spec fn with_no_booster(self, slots: Seq<Slot>) -> ListMapView {
        ListMapView {
            no_booster_option: match no_booster_slot(slots) {
                Some(index) => self.id_at(slots[index].place.row, slots[index].place.col),
                None => None,
            },
            ..self
        }
    }
}

/// The places of the page refer to slots of the list.
pub open spec fn places_known(placed: Seq<PlacedSlot>, count: nat) -> bool {
    forall|i: int| 0 <= i < placed.len() ==> (#[trigger] placed[i]).id < count
}

proof fn lemma_placed_id_known(placed: Seq<PlacedSlot>, row: u32, col: u32, count: nat)
    requires
        places_known(placed, count),
    ensures
        placed_id(placed, row, col) is Some ==> placed_id(placed, row, col)->0 < count,
    decreases placed.len(),
{
    if placed.len() > 0 {
        assert(placed[placed.len() - 1].id < count);
        assert forall|i: int| 0 <= i < placed.drop_last().len() implies (
        #[trigger] placed.drop_last()[i]).id < count by {
            assert(placed.drop_last()[i] == placed[i]);
        }
        lemma_placed_id_known(placed.drop_last(), row, col, count);
    }
}

proof fn lemma_samples_known(
    slots: Seq<MapSlot>,
    placed: Seq<PlacedSlot>,
    samples: Seq<PageSample>,
)
    requires
        places_known(placed, slots.len()),
        slots.len() + samples.len() <= usize::MAX,
    ensures
        ({
            let grown = with_samples(slots, placed, samples);
            &&& slots.len() <= grown.0.len() <= slots.len() + samples.len()
            &&& places_known(grown.1, grown.0.len())
        }),
    decreases samples.len(),
{
    if samples.len() > 0 {
        lemma_samples_known(slots, placed, samples.drop_last());
        let before = with_samples(slots, placed, samples.drop_last());
        let grown = with_samples(slots, placed, samples);
        assert forall|i: int| 0 <= i < grown.1.len() implies (#[trigger] grown.1[i]).id
            < grown.0.len() by {
            if i < before.1.len() {
                assert(grown.1[i] == before.1[i]);
            }
        }
    }
}

proof fn lemma_page_sound(map: ListMapView, samples: Seq<PageSample>, placed: Seq<PlacedSlot>)
    requires
        map.sound(),
        places_known(placed, map.slots.len()),
        map.slots.len() + samples.len() <= usize::MAX,
    ensures
        map.with_page(samples, placed).sound(),
{
    lemma_samples_known(map.slots, placed, samples);
}

proof fn lemma_seen_sound(map: ListMapView, slot: Slot)
    requires
        map.sound(),
    ensures
        map.with_seen(slot).sound(),
        map.with_seen(slot).slots == map.slots,
        map.with_seen(slot).current == map.current,
        map.with_seen(slot).selected == map.selected,
        map.with_seen(slot).item_kind == map.item_kind,
        map.with_seen(slot).no_booster_option == map.no_booster_option,
{
    lemma_placed_id_known(map.current, slot.place.row, slot.place.col, map.slots.len());
}

proof fn lemma_candidate_sound(map: ListMapView, candidate: MatchCandidate)
    requires
        map.sound(),
    ensures
        map.with_candidate(candidate).sound(),
        map.with_candidate(candidate).slots == map.slots,
        map.with_candidate(candidate).current == map.current,
        map.with_candidate(candidate).selected == map.selected,
        map.with_candidate(candidate).item_kind == map.item_kind,
        map.with_candidate(candidate).no_booster_option == map.no_booster_option,
{
    lemma_placed_id_known(map.current, candidate.row, candidate.col, map.slots.len());
    let after = map.with_candidate(candidate);
    if let Some(id) = map.id_at(candidate.row, candidate.col) {
        if map.open_slot(id) {
            lemma_evidence_index(map.evidence, candidate.item_id@, id);
            assert forall|i: int| 0 <= i < after.evidence.len() implies (
            #[trigger] after.evidence[i]).slot < after.slots.len()
                && !after.selected[after.evidence[i].slot as int] by {
                match evidence_index(map.evidence, candidate.item_id@, id) {
                    Some(index) => {
                        if i != index {
                            assert(after.evidence[i] == map.evidence[i]);
                        } else {
                            assert(map.evidence[i].slot == id);
                        }
                    },
                    None => {
                        if i < map.evidence.len() {
                            assert(after.evidence[i] == map.evidence[i]);
                        }
                    },
                }
            }
        }
    }
}

proof fn lemma_evidence_index(list: Seq<EvidenceView>, item: Seq<char>, slot: usize)
    ensures
        match evidence_index(list, item, slot) {
            Some(index) => 0 <= index < list.len() && list[index].item_id == item
                && list[index].slot == slot,
            None => true,
        },
    decreases list.len(),
{
    if list.len() > 0 {
        lemma_evidence_index(list.drop_last(), item, slot);
    }
}

impl ListMap {
    /// Puts the samples of a page into the list and makes the page the visible one.
    fn place_page(&mut self, samples: &Vec<PageSample>, placed: Vec<PlacedSlot>)
        requires
            old(self)@.sound(),
            places_known(placed@, old(self)@.slots.len()),
            old(self)@.slots.len() + samples@.len() <= usize::MAX,
        ensures
            final(self)@ == old(self)@.with_page(samples@, placed@),
            final(self)@.sound(),
    {
        let ghost start = self@;
        let mut page = placed;
        let mut i: usize = 0;
        assert(samples@.take(0) =~= Seq::<PageSample>::empty());
        while i < samples.len()
            invariant
                i <= samples@.len(),
                start.sound(),
                places_known(placed@, start.slots.len()),
                start.slots.len() + samples@.len() <= usize::MAX,
                (self.slots@, page@) == with_samples(
                    start.slots,
                    placed@,
                    samples@.take(i as int),
                ),
                start.slots.len() <= self.slots@.len() <= start.slots.len() + i,
                self.selected@ == Seq::new(
                    self.slots@.len(),
                    |k: int|
                        if k < start.selected.len() {
                            start.selected[k]
                        } else {
                            false
                        },
                ),
                self.item_kind == start.item_kind,
                self.items.map() == start.items,
                evidence_views(self.evidence@) == start.evidence,
                self.fallbacks.map() == start.fallbacks,
                self.no_booster_option == start.no_booster_option,
            decreases samples@.len() - i,
        {
            assert(samples@.take(i + 1).drop_last() == samples@.take(i as int));
            let sample = samples[i];
            if find_placed(&page, sample.row, sample.col).is_none() {
                let id: usize = self.slots.len();
                let ghost flags = self.selected@;
                self.slots.push(MapSlot { col: sample.col, content_y: sample.content_y });
                self.selected.push(false);
                page.push(PlacedSlot { row: sample.row, col: sample.col, id });
                assert(self.selected@ =~= Seq::new(
                    self.slots@.len(),
                    |k: int|
                        if k < start.selected.len() {
                            start.selected[k]
                        } else {
                            false
                        },
                ));
            }
            i = i + 1;
        }
        assert(samples@.take(samples@.len() as int) =~= samples@);
        self.current = page;
        proof {
            lemma_page_sound(start, samples@, placed@);
        }
    }

    /// Remembers where items were recognized on the visible page.
    fn record_current(&mut self, slots: &Vec<Slot>)
        requires
            old(self)@.sound(),
        ensures
            final(self)@ == old(self)@.with_all_seen(slots@),
            final(self)@.sound(),
            final(self)@.slots == old(self)@.slots,
            final(self)@.current == old(self)@.current,
            final(self)@.item_kind == old(self)@.item_kind,
            final(self)@.no_booster_option == old(self)@.no_booster_option,
    {
        let ghost start = self@;
        let mut i: usize = 0;
        assert(slots@.take(0) =~= Seq::<Slot>::empty());
        while i < slots.len()
            invariant
                i <= slots@.len(),
                self@.sound(),
                self@ == start.with_all_seen(slots@.take(i as int)),
                self@.slots == start.slots,
                self@.current == start.current,
                self@.item_kind == start.item_kind,
                self@.no_booster_option == start.no_booster_option,
            decreases slots@.len() - i,
        {
            assert(slots@.take(i + 1).drop_last() == slots@.take(i as int));
            assert(slots@.take(i + 1).last() == slots@[i as int]);
            let ghost before = self@;
            proof {
                lemma_seen_sound(before, slots@[i as int]);
            }
            let slot = &slots[i];
            if slot.kind.is_selectable_item_for(self.item_kind) {
                if let Some(found) = &slot.classification {
                    if let Some(id) = find_placed(&self.current, slot.place.row, slot.place.col) {
                        proof {
                            lemma_placed_id_known(
                                before.current,
                                slot.place.row,
                                slot.place.col,
                                before.slots.len(),
                            );
                        }
                        if self.is_open(id) {
                            self.items.insert(found.item_id.clone(), id);
                        }
                    }
                }
            }
            assert(self@ == before.with_seen(slots@[i as int]));
            i = i + 1;
        }
        assert(slots@.take(slots@.len() as int) =~= slots@);
    }

    /// Whether a slot of the list may be selected.
    pub fn is_open(&self, id: usize) -> (r: bool)
        requires
            self@.sound(),
            id < self@.slots.len(),
        ensures
            r == self@.open_slot(id),
    {
        let removes_booster = match self.no_booster_option {
            Some(option) => option == id,
            None => false,
        };
        !removes_booster && !self.selected[id]
    }

    /// Whether a slot of the list was selected.
    pub fn is_selected(&self, id: usize) -> (r: bool)
        requires
            self@.sound(),
            id < self@.slots.len(),
        ensures
            r == self@.selected[id as int],
    {
        self.selected[id]
    }

    /// Records how well templates match the slots of the visible page.
    fn record_candidates(&mut self, candidates: &Vec<MatchCandidate>)
        requires
            old(self)@.sound(),
        ensures
            final(self)@ == old(self)@.with_candidates(candidates@),
            final(self)@.sound(),
            final(self)@.slots == old(self)@.slots,
            final(self)@.current == old(self)@.current,
            final(self)@.item_kind == old(self)@.item_kind,
            final(self)@.no_booster_option == old(self)@.no_booster_option,
    {
        let ghost start = self@;
        let mut i: usize = 0;
        assert(candidates@.take(0) =~= Seq::<MatchCandidate>::empty());
        while i < candidates.len()
            invariant
                i <= candidates@.len(),
                self@.sound(),
                self@ == start.with_candidates(candidates@.take(i as int)),
                self@.slots == start.slots,
                self@.current == start.current,
                self@.item_kind == start.item_kind,
                self@.no_booster_option == start.no_booster_option,
            decreases candidates@.len() - i,
        {
            assert(candidates@.take(i + 1).drop_last() == candidates@.take(i as int));
            assert(candidates@.take(i + 1).last() == candidates@[i as int]);
            let ghost before = self@;
            proof {
                lemma_candidate_sound(before, candidates@[i as int]);
            }
            let candidate = &candidates[i];
            if let Some(id) = find_placed(&self.current, candidate.row, candidate.col) {
                proof {
                    lemma_placed_id_known(
                        before.current,
                        candidate.row,
                        candidate.col,
                        before.slots.len(),
                    );
                }
                if self.is_open(id) {
                    self.record_match(candidate, id);
                }
            }
            assert(self@ == before.with_candidate(candidates@[i as int]));
            i = i + 1;
        }
        assert(candidates@.take(candidates@.len() as int) =~= candidates@);
    }

    fn record_match(&mut self, candidate: &MatchCandidate, id: usize)
        ensures
            final(self)@ == (ListMapView {
                evidence: with_evidence(
                    old(self)@.evidence,
                    candidate.item_id@,
                    id,
                    candidate.score,
                    candidate.available,
                ),
                ..old(self)@
            }),
    {
        let ghost before = self@;
        match find_evidence(&self.evidence, candidate.item_id.as_str(), id) {
            Some(index) => {
                let mut evidence = self.evidence.remove(index);
                assert(before.evidence[index as int] == evidence@);
                let ghost held = evidence@;
                evidence.scores.push(candidate.score);
                if candidate.score < evidence.best {
                    evidence.best = candidate.score;
                    evidence.available = candidate.available;
                }
                assert(evidence@ =~= with_observation(held, candidate.score, candidate.available));
                self.evidence.insert(index, evidence);
                assert(evidence_views(self.evidence@) =~= before.evidence.update(
                    index as int,
                    with_observation(held, candidate.score, candidate.available),
                ));
            },
            None => {
                let mut scores: Vec<i64> = Vec::new();
                scores.push(candidate.score);
                let evidence = Evidence {
                    item_id: candidate.item_id.clone(),
                    slot: id,
                    scores,
                    best: candidate.score,
                    available: candidate.available,
                };
                assert(evidence@.scores =~= seq![candidate.score]);
                self.evidence.push(evidence);
                assert(evidence_views(self.evidence@) =~= before.evidence.push(evidence@));
            },
        }
    }

    /// Makes a page the visible one and records everything on it. `placed` are the
    /// slots of the page that are known to be slots of the list.
    pub fn commit_page(
        &mut self,
        samples: &Vec<PageSample>,
        placed: Vec<PlacedSlot>,
        slots: &Vec<Slot>,
        candidates: &Vec<MatchCandidate>,
    )
        requires
            old(self)@.sound(),
            places_known(placed@, old(self)@.slots.len()),
            old(self)@.slots.len() + samples@.len() <= usize::MAX,
        ensures
            final(self)@ == old(self)@.with_committed(samples@, placed@, slots@, candidates@),
            final(self)@.sound(),
            final(self)@.item_kind == old(self)@.item_kind,
            final(self)@.no_booster_option == old(self)@.no_booster_option,
            final(self)@.current == with_samples(old(self)@.slots, placed@, samples@).1,
            final(self)@.slots == with_samples(old(self)@.slots, placed@, samples@).0,
    {
        self.place_page(samples, placed);
        self.record_current(slots);
        self.record_candidates(candidates);
    }

    /// The map of a list whose first page is visible.
    pub fn new(
        samples: &Vec<PageSample>,
        slots: &Vec<Slot>,
        candidates: &Vec<MatchCandidate>,
        item_kind: ItemKind,
    ) -> (r: ListMap)
        ensures
            r@ == ListMapView::blank(item_kind).with_committed(
                samples@,
                Seq::empty(),
                slots@,
                candidates@,
            ).with_no_booster(slots@),
            r@.sound(),
            r@.item_kind == item_kind,
    {
        let mut map = ListMap {
            item_kind,
            slots: Vec::with_capacity(samples.len()),
            current: Vec::new(),
            items: TextMap::new(),
            evidence: Vec::new(),
            fallbacks: TextMap::new(),
            selected: Vec::new(),
            no_booster_option: None,
        };
        assert(map@.evidence =~= Seq::<EvidenceView>::empty());
        assert(map@ == ListMapView::blank(item_kind));
        let none: Vec<PlacedSlot> = Vec::new();
        map.commit_page(samples, none, slots, candidates);
        assert(none@ =~= Seq::<PlacedSlot>::empty());
        let ghost committed = map@;
        if let Some(index) = find_no_booster(slots) {
            map.no_booster_option = find_placed(
                &map.current,
                slots[index].place.row,
                slots[index].place.col,
            );
            proof {
                lemma_placed_id_known(
                    committed.current,
                    slots@[index as int].place.row,
                    slots@[index as int].place.col,
                    committed.slots.len(),
                );
            }
        }
        map
    }

    /// How many slots of the list are known.
    pub fn slot_count(&self) -> (r: usize)
        ensures
            r == self@.slots.len(),
    {
        self.slots.len()
    }

    /// The slot of the list that is at a place of the visible page.
    pub fn current_slot_id(&self, place: &SlotPlace) -> (r: Option<usize>)
        ensures
            r == self@.id_at(place.row, place.col),
    {
        find_placed(&self.current, place.row, place.col)
    }

    /// The ids that samples of the visible page have in the list.
    pub fn sample_ids(&self, samples: &Vec<PageSample>) -> (r: Vec<Option<usize>>)
        ensures
            r@.len() == samples@.len(),
            forall|i: int|
                0 <= i < samples@.len() ==> #[trigger] r@[i] == self@.id_at(
                    samples@[i].row,
                    samples@[i].col,
                ),
    {
        let mut out: Vec<Option<usize>> = Vec::new();
        let mut i: usize = 0;
        while i < samples.len()
            invariant
                i <= samples@.len(),
                out@.len() == i,
                forall|k: int|
                    0 <= k < i ==> #[trigger] out@[k] == self@.id_at(samples@[k].row, samples@[k].col),
            decreases samples@.len() - i,
        {
            out.push(find_placed(&self.current, samples[i].row, samples[i].col));
            i = i + 1;
        }
        out
    }

    /// Takes note that a slot of the visible page was selected.
    pub fn mark_selected(&mut self, place: &SlotPlace)
        requires
            old(self)@.sound(),
        ensures
            final(self)@ == old(self)@.with_selected(*place),
            final(self)@.sound(),
    {
        let ghost before = self@;
        let id = match find_placed(&self.current, place.row, place.col) {
            Some(id) => id,
            None => {
                return;
            },
        };
        proof {
            lemma_placed_id_known(before.current, place.row, place.col, before.slots.len());
        }
        self.selected.set(id, true);
        leave_slot(&mut self.items, id);
        leave_slot(&mut self.fallbacks, id);
        let ghost mut i: int = 0;
        let mut kept: Vec<Evidence> = Vec::new();
        let mut rest: Vec<Evidence> = Vec::new();
        core::mem::swap(&mut rest, &mut self.evidence);
        let ghost all = before.evidence;
        assert(all.take(0) =~= Seq::<EvidenceView>::empty());
        assert(evidence_views(kept@) =~= Seq::<EvidenceView>::empty());
        assert(all.skip(0) =~= all);
        while rest.len() > 0
            invariant
                0 <= i,
                i + rest@.len() == all.len(),
                evidence_views(rest@) == all.skip(i),
                evidence_views(kept@) == evidence_elsewhere(all.take(i), id),
            decreases rest@.len(),
        {
            let ghost left = evidence_views(rest@);
            assert(all.take(i + 1).drop_last() == all.take(i));
            assert(all.take(i + 1).last() == all[i]);
            assert(left[0] == all[i]);
            let evidence = rest.remove(0);
            assert(evidence@ == all[i]);
            assert forall|k: int| 0 <= k < rest@.len() implies evidence_views(rest@)[k] == all.skip(
                i + 1,
            )[k] by {
                assert(left[k + 1] == all.skip(i)[k + 1]);
            }
            assert(evidence_views(rest@) =~= all.skip(i + 1));
            if evidence.slot != id {
                let ghost held = evidence_views(kept@);
                let ghost added = evidence@;
                kept.push(evidence);
                assert(evidence_views(kept@) =~= held.push(added));
            }
            proof {
                i = i + 1;
            }
        }
        assert(all.take(all.len() as int) =~= all);
        self.evidence = kept;
        proof {
            lemma_elsewhere_sound(before.evidence, id);
            assert(self@.selected =~= before.selected.update(id as int, true));
            assert(self@ == before.with_selected(*place));
            assert forall|k: int| 0 <= k < self@.evidence.len() implies (
            #[trigger] self@.evidence[k]).slot < self@.slots.len()
                && !self@.selected[self@.evidence[k].slot as int] by {
                let j = choose|j: int|
                    0 <= j < before.evidence.len() && #[trigger] before.evidence[j]
                        == self@.evidence[k];
                assert(before.evidence[j].slot < before.slots.len());
            }
        }
    }

    /// Whether a slot of the visible page may be selected.
    pub fn can_select_slot(&self, place: &SlotPlace) -> (r: bool)
        requires
            self@.sound(),
        ensures
            r == self@.can_select(*place),
    {
        match find_placed(&self.current, place.row, place.col) {
            Some(id) => {
                proof {
                    lemma_placed_id_known(
                        self@.current,
                        place.row,
                        place.col,
                        self@.slots.len(),
                    );
                }
                self.is_open(id)
            },
            None => false,
        }
    }

    /// Whether it is known where an item is.
    pub fn contains_item(&self, item_id: &str) -> (r: bool)
        ensures
            r == self@.items.contains_key(item_id@),
    {
        self.items.contains_key(item_id)
    }

    /// The evidence that was gathered.
    pub fn evidence(&self) -> (r: &Vec<Evidence>)
        ensures
            evidence_views(r@) == self@.evidence,
    {
        &self.evidence
    }

    /// Lets the most likely slot stand in for an item. `means` are the mean errors of
    /// the evidence, in its order. Returns which evidence was chosen.
    pub fn activate_best_candidate(&mut self, item_id: &str, means: &Vec<i64>) -> (r: Option<usize>)
        requires
            old(self)@.sound(),
            means@.len() == old(self)@.evidence.len(),
        ensures
            match best_evidence(
                old(self)@.evidence,
                means@,
                item_id@,
                old(self)@.selected,
            ) {
                Some(index) => r == Some(index as usize) && final(self)@ == old(
                    self,
                )@.with_fallback(item_id@, index) && 0 <= index < old(self)@.evidence.len(),
                None => r is None && final(self)@ == old(self)@,
            },
            final(self)@.sound(),
    {
        let ghost before = self@;
        let ghost all = self@.evidence;
        let mut best: Option<usize> = None;
        let mut i: usize = 0;
        assert(all.take(0) =~= Seq::<EvidenceView>::empty());
        while i < self.evidence.len()
            invariant
                i <= self.evidence@.len(),
                self@ == before,
                before.sound(),
                all == before.evidence,
                all == evidence_views(self.evidence@),
                means@.len() == all.len(),
                match best {
                    Some(index) => best_evidence(
                        all.take(i as int),
                        means@,
                        item_id@,
                        before.selected,
                    ) == Some(index as int) && index < i && all[index as int].item_id == item_id@,
                    None => best_evidence(
                        all.take(i as int),
                        means@,
                        item_id@,
                        before.selected,
                    ) is None,
                },
            decreases self.evidence@.len() - i,
        {
            let ghost here = all.take(i + 1);
            assert(here.drop_last() == all.take(i as int));
            assert(here[i as int] == all[i as int]);
            assert(all[i as int] == self.evidence@[i as int]@);
            let evidence = &self.evidence[i];
            assert(before.evidence[i as int].slot < before.slots.len());
            if same_text(evidence.item_id.as_str(), item_id) && !self.selected[evidence.slot] {
                let better = match best {
                    Some(index) => means[i] < means[index],
                    None => true,
                };
                if better {
                    best = Some(i);
                }
            }
            i = i + 1;
        }
        assert(all.take(all.len() as int) =~= all);
        match best {
            Some(index) => {
                assert(all[index as int] == self.evidence@[index as int]@);
                let slot: usize = self.evidence[index].slot;
                let available = self.evidence[index].available;
                assert(before.evidence[index as int].slot < before.slots.len());
                self.items.insert(item_id.to_string(), slot);
                self.fallbacks.insert(item_id.to_string(), Fallback { slot, available });
                assert(self@ == before.with_fallback(item_id@, index as int));
                Some(index)
            },
            None => None,
        }
    }

    /// The target for an item in the slot in which the map expects it.
    pub fn visible_mapped_target(&self, item_id: &str, slots: &Vec<Slot>) -> (r: Option<
        ClickTarget,
    >)
        requires
            self@.sound(),
        ensures
            option_target(r) == mapped_target(self@, item_id@, slots@),
    {
        let id: usize = match self.items.get(item_id) {
            Some(id) => *id,
            None => {
                return None;
            },
        };
        assert(self@.items.contains_key(item_id@));
        if self.selected[id] {
            return None;
        }
        let (row, col) = match find_place(&self.current, id) {
            Some(place) => place,
            None => {
                return None;
            },
        };
        let index = match find_selectable(slots, self.item_kind, row, col) {
            Some(index) => index,
            None => {
                return None;
            },
        };
        let available = match self.fallbacks.get(item_id) {
            Some(fallback) => fallback.available,
            None => match find_evidence(&self.evidence, item_id, id) {
                Some(place) => {
                    assert(self@.evidence[place as int] == self.evidence@[place as int]@);
                    self.evidence[place].available
                },
                None => true,
            },
        };
        Some(
            ClickTarget {
                item_id: item_id.to_string(),
                place: slots[index].place,
                available,
                fallback: true,
            },
        )
    }

    /// Where to look for an item.
    pub fn navigation_hint(&self, item_id: &str) -> (r: NavigationHint)
        requires
            self@.sound(),
        ensures
            r == self@.hint(item_id@),
    {
        let id: usize = match self.items.get(item_id) {
            Some(id) => *id,
            None => {
                return NavigationHint::Scroll(ScrollDirection::Down);
            },
        };
        assert(self@.items.contains_key(item_id@));
        if find_place(&self.current, id).is_some() {
            return NavigationHint::ExpectedVisible;
        }
        let target: i32 = self.slots[id].content_y;
        match self.visible_content_y_range() {
            None => NavigationHint::ExpectedVisible,
            Some((low, high)) => if target < low {
                NavigationHint::Scroll(ScrollDirection::Up)
            } else if target > high {
                NavigationHint::Scroll(ScrollDirection::Down)
            } else {
                NavigationHint::ExpectedVisible
            },
        }
    }

    /// The range of positions of the visible slots.
    pub fn visible_content_y_range(&self) -> (r: Option<(i32, i32)>)
        requires
            self@.sound(),
        ensures
            r == visible_range(self@.slots, self@.current),
    {
        let mut range: Option<(i32, i32)> = None;
        let mut i: usize = 0;
        assert(self.current@.take(0) =~= Seq::<PlacedSlot>::empty());
        while i < self.current.len()
            invariant
                i <= self.current@.len(),
                self@.sound(),
                range == visible_range(self.slots@, self.current@.take(i as int)),
            decreases self.current@.len() - i,
        {
            assert(self.current@.take(i + 1).drop_last() == self.current@.take(i as int));
            assert(self.current@.take(i + 1).last() == self.current@[i as int]);
            assert(self@.current[i as int].id < self@.slots.len());
            let y: i32 = self.slots[self.current[i].id].content_y;
            range = match range {
                None => Some((y, y)),
                Some((low, high)) => Some(
                    (
                        if y < low {
                            y
                        } else {
                            low
                        },
                        if y > high {
                            y
                        } else {
                            high
                        },
                    ),
                ),
            };
            i = i + 1;
        }
        assert(self.current@.take(self.current@.len() as int) =~= self.current@);
        range
    }

    /// The slot of another view of the page, whose slots are placed as given, that is
    /// the same slot of the list as one of the visible page.
    pub fn slot_after_placement(
        &self,
        placed: &Vec<PlacedSlot>,
        slots: &Vec<Slot>,
        previous: &SlotPlace,
    ) -> (r: Option<usize>)
        ensures
            match same_slot(self@, placed@, slots@, *previous) {
                Some(index) => r == Some(index as usize) && 0 <= index < slots@.len(),
                None => r is None,
            },
    {
        match find_placed(&self.current, previous.row, previous.col) {
            Some(id) => match find_place(placed, id) {
                Some((row, col)) => find_slot(slots, row, col),
                None => None,
            },
            None => None,
        }
    }
}

/// The slot of another view of the page that is the same slot of the list.
pub open spec fn same_slot(
    map: ListMapView,
    placed: Seq<PlacedSlot>,
    slots: Seq<Slot>,
    previous: SlotPlace,
) -> Option<int> {
    match map.id_at(previous.row, previous.col) {
        Some(id) => match place_of_id(placed, id) {
            Some(place) => slot_at(slots, place),
            None => None,
        },
        None => None,
    }
}

/// The target for an item in the slot in which the map expects it.
pub open spec fn mapped_target(map: ListMapView, item: Seq<char>, slots: Seq<Slot>) -> Option<
    ClickTargetView,
> {
    match map.expected_slot(item, slots) {
        Some(index) => Some(
            ClickTargetView {
                item_id: item,
                place: slots[index].place,
                available: map.availability(item, map.items[item]),
                fallback: true,
            },
        ),
        None => None,
    }
}

proof fn lemma_elsewhere_sound(list: Seq<EvidenceView>, slot: usize)
    ensures
        forall|k: int|
            0 <= k < evidence_elsewhere(list, slot).len() ==> (#[trigger] evidence_elsewhere(
                list,
                slot,
            )[k]).slot != slot && exists|j: int|
                0 <= j < list.len() && #[trigger] list[j] == evidence_elsewhere(list, slot)[k],
    decreases list.len(),
{
    if list.len() > 0 {
        let before = list.drop_last();
        lemma_elsewhere_sound(before, slot);
        let kept = evidence_elsewhere(list, slot);
        let held = evidence_elsewhere(before, slot);
        assert forall|k: int| 0 <= k < kept.len() implies (#[trigger] kept[k]).slot != slot
            && exists|j: int| 0 <= j < list.len() && #[trigger] list[j] == kept[k] by {
            if k < held.len() {
                assert(kept[k] == held[k]);
                let j = choose|j: int| 0 <= j < before.len() && #[trigger] before[j] == held[k];
                assert(list[j] == kept[k]);
            } else {
                assert(list[list.len() - 1] == kept[k]);
            }
        }
    }
}

// ----- laws ------------------------------------------------------------------------

/// Every slot of the list that was selected in the one map is selected in the other.
pub open spec fn keeps_selected(before: ListMapView, after: ListMapView) -> bool {
    &&& before.slots.len() <= after.slots.len()
    &&& forall|id: int|
        0 <= id < before.slots.len() && before.selected[id] ==> #[trigger] after.selected[id]
}

/// A slot that was selected is never offered again on the same page: not as the slot
/// of an item that is visible there, and not as the slot in which the map expects any
/// item.
pub proof fn lemma_selected_slot_is_closed(map: ListMapView, place: SlotPlace)
    requires
        map.sound(),
        map.id_at(place.row, place.col) is Some,
    ensures
        ({
            let id = map.id_at(place.row, place.col)->0;
            let after = map.with_selected(place);
            &&& !after.can_select(place)
            &&& after.selected[id as int]
            &&& keeps_selected(map, after)
            &&& forall|item: Seq<char>| #[trigger]
                after.items.contains_key(item) ==> after.items[item] != id
        }),
{
    lemma_placed_id_known(map.current, place.row, place.col, map.slots.len());
}

/// A slot that was selected stays selected when other pages are recorded.
pub proof fn lemma_selected_stays(
    map: ListMapView,
    samples: Seq<PageSample>,
    placed: Seq<PlacedSlot>,
    slots: Seq<Slot>,
    candidates: Seq<MatchCandidate>,
)
    requires
        map.sound(),
        places_known(placed, map.slots.len()),
        map.slots.len() + samples.len() <= usize::MAX,
    ensures
        keeps_selected(map, map.with_committed(samples, placed, slots, candidates)),
{
    lemma_samples_known(map.slots, placed, samples);
    lemma_page_sound(map, samples, placed);
    let page = map.with_page(samples, placed);
    lemma_all_seen_keeps(page, slots);
    lemma_candidates_keep(page.with_all_seen(slots), candidates);
}

proof fn lemma_all_seen_keeps(map: ListMapView, slots: Seq<Slot>)
    ensures
        map.with_all_seen(slots).slots == map.slots,
        map.with_all_seen(slots).selected == map.selected,
    decreases slots.len(),
{
    if slots.len() > 0 {
        lemma_all_seen_keeps(map, slots.drop_last());
    }
}

proof fn lemma_candidates_keep(map: ListMapView, candidates: Seq<MatchCandidate>)
    ensures
        map.with_candidates(candidates).slots == map.slots,
        map.with_candidates(candidates).selected == map.selected,
    decreases candidates.len(),
{
    if candidates.len() > 0 {
        lemma_candidates_keep(map, candidates.drop_last());
    }
}

#[verifier::spinoff_prover]
#[verifier::rlimit(30)]
proof fn lemma_range_bounds(slots: Seq<MapSlot>, current: Seq<PlacedSlot>)
    ensures
        visible_range(slots, current) is None <==> current.len() == 0,
        visible_range(slots, current) matches Some((low, high)) ==> {
            &&& forall|i: int|
                0 <= i < current.len() ==> low <= slots[(
                #[trigger] current[i]).id as int].content_y <= high
            &&& exists|i: int|
                0 <= i < current.len() && slots[(#[trigger] current[i]).id as int].content_y == low
            &&& exists|i: int|
                0 <= i < current.len() && slots[(#[trigger] current[i]).id as int].content_y == high
        },
    decreases current.len(),
{
    if current.len() > 0 {
        let before = current.drop_last();
        lemma_range_bounds(slots, before);
        let last: int = current.len() - 1;
        let y = slots[current[last].id as int].content_y;
        let (low, high) = visible_range(slots, current)->0;
        match visible_range(slots, before) {
            None => {
                assert(slots[current[last].id as int].content_y == low);
                assert(slots[current[last].id as int].content_y == high);
            },
            Some((l, h)) => {
                let a = choose|i: int|
                    0 <= i < before.len() && slots[(#[trigger] before[i]).id as int].content_y == l;
                let b = choose|i: int|
                    0 <= i < before.len() && slots[(#[trigger] before[i]).id as int].content_y == h;
                assert(current[a] == before[a] && current[b] == before[b]);
                if y < l {
                    assert(slots[current[last].id as int].content_y == low);
                } else {
                    assert(slots[current[a].id as int].content_y == low);
                }
                if y > h {
                    assert(slots[current[last].id as int].content_y == high);
                } else {
                    assert(slots[current[b].id as int].content_y == high);
                }
                assert forall|i: int| 0 <= i < current.len() implies low <= slots[(
                #[trigger] current[i]).id as int].content_y <= high by {
                    if i < last {
                        assert(current[i] == before[i]);
                        assert(l <= slots[before[i].id as int].content_y <= h);
                    }
                }
            },
        }
    }
}

/// The range of the visible page reaches from the uppermost to the lowest of its slots.
pub proof fn lemma_visible_range(slots: Seq<MapSlot>, current: Seq<PlacedSlot>)
    ensures
        visible_range(slots, current) is None <==> current.len() == 0,
        visible_range(slots, current) matches Some((low, high)) ==> {
            &&& forall|i: int|
                0 <= i < current.len() ==> low <= slots[(
                #[trigger] current[i]).id as int].content_y <= high
            &&& exists|i: int|
                0 <= i < current.len() && slots[(#[trigger] current[i]).id as int].content_y == low
            &&& exists|i: int|
                0 <= i < current.len() && slots[(#[trigger] current[i]).id as int].content_y == high
        },
{
    lemma_range_bounds(slots, current);
}

proof fn lemma_place_found(placed: Seq<PlacedSlot>, id: usize)
    ensures
        place_of_id(placed, id) is None <==> forall|i: int|
            0 <= i < placed.len() ==> (#[trigger] placed[i]).id != id,
        place_of_id(placed, id) matches Some(place) ==> exists|i: int|
            0 <= i < placed.len() && (#[trigger] placed[i]).id == id && placed[i].row == place.0
                && placed[i].col == place.1,
    decreases placed.len(),
{
    if placed.len() > 0 {
        let before = placed.drop_last();
        let last: int = placed.len() - 1;
        lemma_place_found(before, id);
        match place_of_id(before, id) {
            Some(place) => {
                let k = choose|i: int|
                    0 <= i < before.len() && (#[trigger] before[i]).id == id && before[i].row
                        == place.0 && before[i].col == place.1;
                assert(placed[k] == before[k]);
            },
            None => {
                assert(placed[last].id == placed.last().id);
                if placed.last().id != id {
                    assert forall|i: int| 0 <= i < placed.len() implies (#[trigger] placed[i]).id
                        != id by {
                        if i < last {
                            assert(before[i] == placed[i]);
                        }
                    }
                }
            },
        }
    }
}

/// The list is scrolled toward the slot in which an item was seen: down when every
/// visible slot lies above it, up when every visible slot lies below it. An item that
/// was never seen is looked for further down. One whose slot is on the visible page, or
/// lies between the visible slots, is expected there.
#[verifier::spinoff_prover]
#[verifier::rlimit(30)]
pub proof fn lemma_scroll_goes_toward_item(map: ListMapView, item: Seq<char>)
    ensures
        !map.items.contains_key(item) ==> map.hint(item) == NavigationHint::Scroll(
            ScrollDirection::Down,
        ),
        map.items.contains_key(item) ==> {
            let id = map.items[item];
            let y = map.slots[id as int].content_y;
            let visible = exists|i: int|
                0 <= i < map.current.len() && (#[trigger] map.current[i]).id == id;
            let all_above = forall|i: int|
                0 <= i < map.current.len() ==> map.slots[(
                #[trigger] map.current[i]).id as int].content_y < y;
            let all_below = forall|i: int|
                0 <= i < map.current.len() ==> map.slots[(
                #[trigger] map.current[i]).id as int].content_y > y;
            &&& map.hint(item) == NavigationHint::Scroll(ScrollDirection::Down) <==> !visible
                && map.current.len() > 0 && all_above
            &&& map.hint(item) == NavigationHint::Scroll(ScrollDirection::Up) <==> !visible
                && map.current.len() > 0 && all_below
            &&& visible ==> map.hint(item) == NavigationHint::ExpectedVisible
        },
{
    if map.items.contains_key(item) {
        let id = map.items[item];
        lemma_place_found(map.current, id);
        lemma_range_bounds(map.slots, map.current);
    }
}

/// The slot of the list at a place of the page is that of the first entry with the row and
/// the column of the place.
pub proof fn lemma_id_at_place(placed: Seq<PlacedSlot>, row: u32, col: u32)
    ensures
        placed_id(placed, row, col) is None <==> forall|i: int|
            0 <= i < placed.len() ==> !((#[trigger] placed[i]).row == row && placed[i].col == col),
        placed_id(placed, row, col) matches Some(id) ==> exists|i: int|
            #![trigger placed[i]]
            {
                &&& 0 <= i < placed.len()
                &&& placed[i].row == row
                &&& placed[i].col == col
                &&& placed[i].id == id
                &&& forall|j: int|
                    0 <= j < i ==> !((#[trigger] placed[j]).row == row && placed[j].col == col)
            },
    decreases placed.len(),
{
    if placed.len() > 0 {
        let before = placed.drop_last();
        let last: int = placed.len() - 1;
        lemma_id_at_place(before, row, col);
        match placed_id(before, row, col) {
            Some(id) => {
                let i = choose|i: int|
                    #![trigger before[i]]
                    {
                        &&& 0 <= i < before.len()
                        &&& before[i].row == row
                        &&& before[i].col == col
                        &&& before[i].id == id
                        &&& forall|j: int|
                            0 <= j < i ==> !((#[trigger] before[j]).row == row && before[j].col
                                == col)
                    };
                assert(placed[i] == before[i]);
                assert forall|j: int| 0 <= j < i implies !((#[trigger] placed[j]).row == row
                    && placed[j].col == col) by {
                    assert(placed[j] == before[j]);
                }
            },
            None => {
                assert forall|j: int| 0 <= j < last implies !((#[trigger] placed[j]).row == row
                    && placed[j].col == col) by {
                    assert(placed[j] == before[j]);
                }
                assert(placed[last] == placed.last());
            },
        }
    }
}

#[verifier::spinoff_prover]
#[verifier::rlimit(60)]
proof fn lemma_samples_placed(
    slots: Seq<MapSlot>,
    placed: Seq<PlacedSlot>,
    samples: Seq<PageSample>,
)
    requires
        slots.len() + samples.len() <= usize::MAX,
    ensures
        ({
            let (after, there) = with_samples(slots, placed, samples);
            &&& after.len() - slots.len() == there.len() - placed.len()
            &&& slots.len() <= after.len() <= slots.len() + samples.len()
            &&& forall|i: int| 0 <= i < slots.len() ==> #[trigger] after[i] == slots[i]
            &&& forall|k: int| 0 <= k < placed.len() ==> #[trigger] there[k] == placed[k]
            &&& forall|s: int|
                0 <= s < samples.len() ==> exists|k: int|
                    #![trigger there[k]]
                    0 <= k < there.len() && there[k].row == (#[trigger] samples[s]).row
                        && there[k].col == samples[s].col
            &&& forall|k: int|
                #![trigger there[k]]
                placed.len() <= k < there.len() ==> {
                    &&& there[k].id == slots.len() + (k - placed.len())
                    &&& after[there[k].id as int].col == there[k].col
                    &&& exists|s: int|
                        #![trigger samples[s]]
                        0 <= s < samples.len() && samples[s].row == there[k].row && samples[s].col
                            == there[k].col && samples[s].content_y
                            == after[there[k].id as int].content_y
                    &&& forall|j: int|
                        0 <= j < k ==> !((#[trigger] there[j]).row == there[k].row && there[j].col
                            == there[k].col)
                }
        }),
    decreases samples.len(),
{
    if samples.len() > 0 {
        let rest = samples.drop_last();
        let sample = samples.last();
        let last: int = samples.len() - 1;
        lemma_samples_placed(slots, placed, rest);
        let (before, held) = with_samples(slots, placed, rest);
        let (after, there) = with_samples(slots, placed, samples);
        lemma_id_at_place(held, sample.row, sample.col);
        assert forall|k: int| 0 <= k < held.len() implies #[trigger] there[k] == held[k] by {}
        assert forall|s: int| 0 <= s < samples.len() implies exists|k: int|
            #![trigger there[k]]
            0 <= k < there.len() && there[k].row == (#[trigger] samples[s]).row && there[k].col
                == samples[s].col by {
            if s < last {
                assert(rest[s] == samples[s]);
                let k = choose|k: int|
                    #![trigger held[k]]
                    0 <= k < held.len() && held[k].row == rest[s].row && held[k].col == rest[s].col;
                assert(there[k] == held[k]);
            } else if placed_id(held, sample.row, sample.col) is Some {
                let k = choose|k: int|
                    #![trigger held[k]]
                    0 <= k < held.len() && held[k].row == sample.row && held[k].col == sample.col;
                assert(there[k] == held[k]);
            } else {
                assert(there[held.len() as int].row == sample.row);
            }
        }
        assert forall|k: int| #![trigger there[k]] placed.len() <= k < there.len() implies {
            &&& there[k].id == slots.len() + (k - placed.len())
            &&& after[there[k].id as int].col == there[k].col
            &&& exists|s: int|
                #![trigger samples[s]]
                0 <= s < samples.len() && samples[s].row == there[k].row && samples[s].col
                    == there[k].col && samples[s].content_y == after[there[k].id as int].content_y
            &&& forall|j: int|
                0 <= j < k ==> !((#[trigger] there[j]).row == there[k].row && there[j].col
                    == there[k].col)
        } by {
            if k < held.len() {
                assert(there[k] == held[k]);
                let s = choose|s: int|
                    #![trigger rest[s]]
                    0 <= s < rest.len() && rest[s].row == held[k].row && rest[s].col == held[k].col
                        && rest[s].content_y == before[held[k].id as int].content_y;
                assert(rest[s] == samples[s]);
                assert forall|j: int| 0 <= j < k implies !((#[trigger] there[j]).row
                    == there[k].row && there[j].col == there[k].col) by {
                    assert(there[j] == held[j]);
                }
            } else {
                assert(samples[last] == sample);
                assert forall|j: int| 0 <= j < k implies !((#[trigger] there[j]).row
                    == there[k].row && there[j].col == there[k].col) by {
                    assert(there[j] == held[j]);
                }
            }
        }
    }
}

/// A page that becomes the visible one keeps what is known: the slots of the list stay and
/// so does what was selected of them, and the places that are known stay. Every sample of
/// the page has a place there. A sample at a place that was not known is a new slot at the
/// end of the list, with the position of a sample at that place, not yet selected, and no
/// place gets a second one.
#[verifier::spinoff_prover]
#[verifier::rlimit(30)]
pub proof fn lemma_page_is_placed(
    map: ListMapView,
    samples: Seq<PageSample>,
    placed: Seq<PlacedSlot>,
    slots: Seq<Slot>,
    candidates: Seq<MatchCandidate>,
)
    requires
        map.sound(),
        places_known(placed, map.slots.len()),
        map.slots.len() + samples.len() <= usize::MAX,
    ensures
        ({
            let after = map.with_committed(samples, placed, slots, candidates);
            let there = after.current;
            &&& after.item_kind == map.item_kind
            &&& after.no_booster_option == map.no_booster_option
            &&& after.fallbacks == map.fallbacks
            &&& after.slots.len() - map.slots.len() == there.len() - placed.len()
            &&& forall|i: int|
                0 <= i < map.slots.len() ==> #[trigger] after.slots[i] == map.slots[i]
            &&& forall|i: int|
                0 <= i < map.slots.len() ==> #[trigger] after.selected[i] == map.selected[i]
            &&& forall|i: int|
                map.slots.len() <= i < after.slots.len() ==> !(#[trigger] after.selected[i])
            &&& forall|k: int| 0 <= k < placed.len() ==> #[trigger] there[k] == placed[k]
            &&& forall|s: int|
                0 <= s < samples.len() ==> exists|k: int|
                    #![trigger there[k]]
                    0 <= k < there.len() && there[k].row == (#[trigger] samples[s]).row
                        && there[k].col == samples[s].col
            &&& forall|k: int|
                #![trigger there[k]]
                placed.len() <= k < there.len() ==> {
                    &&& there[k].id == map.slots.len() + (k - placed.len())
                    &&& after.slots[there[k].id as int].col == there[k].col
                    &&& exists|s: int|
                        #![trigger samples[s]]
                        0 <= s < samples.len() && samples[s].row == there[k].row && samples[s].col
                            == there[k].col && samples[s].content_y
                            == after.slots[there[k].id as int].content_y
                    &&& forall|j: int|
                        0 <= j < k ==> !((#[trigger] there[j]).row == there[k].row && there[j].col
                            == there[k].col)
                }
        }),
{
    lemma_samples_placed(map.slots, placed, samples);
    let page = map.with_page(samples, placed);
    lemma_only_items(page, slots);
    lemma_only_evidence(page.with_all_seen(slots), candidates);
    let after = map.with_committed(samples, placed, slots, candidates);
    let grown = with_samples(map.slots, placed, samples);
    assert(after.slots == grown.0);
    assert(after.current == grown.1);
    assert(after.selected == page.selected);
    assert(after.fallbacks == map.fallbacks);
    assert forall|s: int| 0 <= s < samples.len() implies exists|k: int|
        #![trigger after.current[k]]
        0 <= k < after.current.len() && after.current[k].row == (#[trigger] samples[s]).row
            && after.current[k].col == samples[s].col by {
        let k = choose|k: int|
            #![trigger grown.1[k]]
            0 <= k < grown.1.len() && grown.1[k].row == samples[s].row && grown.1[k].col
                == samples[s].col;
        assert(after.current[k].row == samples[s].row);
    }
    assert forall|k: int|
        #![trigger after.current[k]]
        placed.len() <= k < after.current.len() implies {
        &&& after.current[k].id == map.slots.len() + (k - placed.len())
        &&& after.slots[after.current[k].id as int].col == after.current[k].col
        &&& exists|s: int|
            #![trigger samples[s]]
            0 <= s < samples.len() && samples[s].row == after.current[k].row && samples[s].col
                == after.current[k].col && samples[s].content_y
                == after.slots[after.current[k].id as int].content_y
        &&& forall|j: int|
            0 <= j < k ==> !((#[trigger] after.current[j]).row == after.current[k].row
                && after.current[j].col == after.current[k].col)
    } by {
        assert(after.current[k] == grown.1[k]);
    }
}

proof fn lemma_only_items(map: ListMapView, slots: Seq<Slot>)
    ensures
        map.with_all_seen(slots) == (ListMapView { items: map.with_all_seen(slots).items, ..map }),
    decreases slots.len(),
{
    if slots.len() > 0 {
        lemma_only_items(map, slots.drop_last());
    }
}

proof fn lemma_only_evidence(map: ListMapView, candidates: Seq<MatchCandidate>)
    ensures
        map.with_candidates(candidates) == (ListMapView {
            evidence: map.with_candidates(candidates).evidence,
            ..map
        }),
    decreases candidates.len(),
{
    if candidates.len() > 0 {
        lemma_only_evidence(map, candidates.drop_last());
    }
}

/// The slot shows an item of the kind that the map is for, at a place of the visible page
/// that stands for an open slot of the list.
pub open spec fn recognized_at(map: ListMapView, slot: Slot, item: Seq<char>, id: usize) -> bool {
    &&& slot.kind == SlotKind::Item(map.item_kind)
    &&& slot.classification is Some
    &&& slot.classification->0.item_id@ == item
    &&& placed_id(map.current, slot.place.row, slot.place.col) == Some(id)
    &&& map.no_booster_option != Some(id)
    &&& !map.selected[id as int]
}

#[verifier::spinoff_prover]
#[verifier::rlimit(30)]
proof fn lemma_last_seen(map: ListMapView, slots: Seq<Slot>, item: Seq<char>)
    ensures
        ({
            let after = map.with_all_seen(slots).items;
            &&& forall|s: int, id: usize|
                #![trigger recognized_at(map, slots[s], item, id)]
                0 <= s < slots.len() && recognized_at(map, slots[s], item, id) && (forall|t: int|
                    s < t < slots.len() ==> forall|other: usize|
                        !recognized_at(map, #[trigger] slots[t], item, other))
                    ==> after.contains_key(item) && after[item] == id
            &&& (forall|s: int|
                0 <= s < slots.len() ==> forall|id: usize|
                    !recognized_at(map, #[trigger] slots[s], item, id)) ==> (after.contains_key(
                item,
            ) <==> map.items.contains_key(item)) && (map.items.contains_key(item) ==> after[item]
                == map.items[item])
        }),
    decreases slots.len(),
{
    if slots.len() > 0 {
        let before = slots.drop_last();
        let last: int = slots.len() - 1;
        lemma_last_seen(map, before, item);
        lemma_only_items(map, before);
        let held = map.with_all_seen(before);
        let after = map.with_all_seen(slots).items;
        assert forall|s: int, id: usize|
            #![trigger recognized_at(map, slots[s], item, id)]
            0 <= s < slots.len() && recognized_at(map, slots[s], item, id) && (forall|t: int|
                s < t < slots.len() ==> forall|other: usize|
                    !recognized_at(
                        map,
                        #[trigger] slots[t],
                        item,
                        other,
                    )) implies after.contains_key(item) && after[item] == id by {
            if s < last {
                assert(before[s] == slots[s]);
                assert(recognized_at(map, before[s], item, id));
                assert forall|t: int| s < t < before.len() implies forall|other: usize|
                    !recognized_at(map, #[trigger] before[t], item, other) by {
                    assert(before[t] == slots[t]);
                }
                assert(forall|other: usize| !recognized_at(map, slots[last], item, other));
                lemma_unseen(map, held, slots[last], item);
            }
        }
        if forall|s: int|
            0 <= s < slots.len() ==> forall|id: usize|
                !recognized_at(map, #[trigger] slots[s], item, id) {
            assert forall|s: int| 0 <= s < before.len() implies forall|id: usize|
                !recognized_at(map, #[trigger] before[s], item, id) by {
                assert(before[s] == slots[s]);
            }
            assert(forall|other: usize| !recognized_at(map, slots[last], item, other));
            lemma_unseen(map, held, slots[last], item);
        }
    }
}

proof fn lemma_unseen(map: ListMapView, held: ListMapView, slot: Slot, item: Seq<char>)
    requires
        held == (ListMapView { items: held.items, ..map }),
        forall|id: usize| !recognized_at(map, slot, item, id),
    ensures
        held.with_seen(slot).items.contains_key(item) <==> held.items.contains_key(item),
        held.items.contains_key(item) ==> held.with_seen(slot).items[item] == held.items[item],
{
    match placed_id(map.current, slot.place.row, slot.place.col) {
        Some(id) => {
            assert(!recognized_at(map, slot, item, id));
        },
        None => {},
    }
}

/// An item is remembered in the open slot in which it was recognized last on the page that
/// becomes the visible one. An item that was not recognized in an open slot there stays
/// where it was known to be, or unknown.
#[verifier::spinoff_prover]
#[verifier::rlimit(30)]
pub proof fn lemma_items_are_remembered(
    map: ListMapView,
    samples: Seq<PageSample>,
    placed: Seq<PlacedSlot>,
    slots: Seq<Slot>,
    candidates: Seq<MatchCandidate>,
    item: Seq<char>,
)
    ensures
        ({
            let after = map.with_committed(samples, placed, slots, candidates);
            &&& forall|s: int, id: usize|
                #![trigger recognized_at(after, slots[s], item, id)]
                0 <= s < slots.len() && recognized_at(after, slots[s], item, id) && (forall|t: int|
                    s < t < slots.len() ==> forall|other: usize|
                        !recognized_at(after, #[trigger] slots[t], item, other))
                    ==> after.items.contains_key(item) && after.items[item] == id
            &&& (forall|s: int|
                0 <= s < slots.len() ==> forall|id: usize|
                    !recognized_at(after, #[trigger] slots[s], item, id)) ==> (
            after.items.contains_key(item) <==> map.items.contains_key(item)) && (
            map.items.contains_key(item) ==> after.items[item] == map.items[item])
        }),
{
    let page = map.with_page(samples, placed);
    let seen = page.with_all_seen(slots);
    let after = map.with_committed(samples, placed, slots, candidates);
    lemma_only_items(page, slots);
    lemma_only_evidence(seen, candidates);
    lemma_last_seen(page, slots, item);
    assert forall|slot: Slot, id: usize| #[trigger]
        recognized_at(after, slot, item, id) == recognized_at(page, slot, item, id) by {}
    assert forall|s: int, id: usize|
        #![trigger recognized_at(after, slots[s], item, id)]
        0 <= s < slots.len() && recognized_at(after, slots[s], item, id) && (forall|t: int|
            s < t < slots.len() ==> forall|other: usize|
                !recognized_at(
                    after,
                    #[trigger] slots[t],
                    item,
                    other,
                )) implies after.items.contains_key(item) && after.items[item] == id by {
        assert(recognized_at(page, slots[s], item, id));
        assert forall|t: int| s < t < slots.len() implies forall|other: usize|
            !recognized_at(page, #[trigger] slots[t], item, other) by {
            assert forall|other: usize| !recognized_at(page, slots[t], item, other) by {
                assert(!recognized_at(after, slots[t], item, other));
            }
        }
    }
    if forall|s: int|
        0 <= s < slots.len() ==> forall|id: usize|
            !recognized_at(after, #[trigger] slots[s], item, id) {
        assert forall|s: int| 0 <= s < slots.len() implies forall|id: usize|
            !recognized_at(page, #[trigger] slots[s], item, id) by {
            assert forall|id: usize| !recognized_at(page, slots[s], item, id) by {
                assert(!recognized_at(after, slots[s], item, id));
            }
        }
    }
}

/// What is gathered on an item in a slot: all errors that were seen, of which `best` is the
/// lowest, and no second entry for the same.
pub open spec fn gathered(list: Seq<EvidenceView>) -> bool {
    &&& forall|i: int|
        #![trigger list[i]]
        0 <= i < list.len() ==> list[i].scores.contains(list[i].best) && forall|k: int|
            0 <= k < list[i].scores.len() ==> list[i].best <= #[trigger] list[i].scores[k]
    &&& forall|i: int, j: int|
        0 <= i < j < list.len() ==> !((#[trigger] list[i]).item_id == (#[trigger] list[j]).item_id
            && list[i].slot == list[j].slot)
}

proof fn lemma_evidence_found(list: Seq<EvidenceView>, item: Seq<char>, slot: usize)
    ensures
        match evidence_index(list, item, slot) {
            Some(index) => 0 <= index < list.len() && list[index].item_id == item
                && list[index].slot == slot,
            None => forall|i: int|
                0 <= i < list.len() ==> !((#[trigger] list[i]).item_id == item && list[i].slot
                    == slot),
        },
    decreases list.len(),
{
    if list.len() > 0 {
        let before = list.drop_last();
        lemma_evidence_found(before, item, slot);
        if evidence_index(list, item, slot) is None {
            assert forall|i: int| 0 <= i < list.len() implies !((#[trigger] list[i]).item_id == item
                && list[i].slot == slot) by {
                if i < before.len() {
                    assert(before[i] == list[i]);
                }
            }
        }
    }
}

/// A match that is recorded adds its error to what was gathered on the item in the slot, or
/// begins that. The lowest error stays the lowest of all, the item counts as available as
/// it did where the error was lowest, and what was gathered on other items and other slots
/// stays.
#[verifier::spinoff_prover]
#[verifier::rlimit(30)]
pub proof fn lemma_match_is_recorded(
    list: Seq<EvidenceView>,
    item: Seq<char>,
    slot: usize,
    score: i64,
    available: bool,
)
    requires
        gathered(list),
    ensures
        ({
            let after = with_evidence(list, item, slot, score, available);
            &&& gathered(after)
            &&& list.len() <= after.len() <= list.len() + 1
            &&& forall|i: int|
                0 <= i < list.len() && !(list[i].item_id == item && list[i].slot == slot)
                    ==> #[trigger] after[i] == list[i]
            &&& forall|i: int|
                #![trigger after[i]]
                0 <= i < list.len() && list[i].item_id == item && list[i].slot == slot ==> {
                    &&& after[i].item_id == item
                    &&& after[i].slot == slot
                    &&& after[i].scores == list[i].scores.push(score)
                    &&& score < list[i].best ==> after[i].available == available
                    &&& score >= list[i].best ==> after[i].available == list[i].available
                }
            &&& (forall|i: int|
                0 <= i < list.len() ==> !((#[trigger] list[i]).item_id == item && list[i].slot
                    == slot)) ==> after.len() == list.len() + 1 && after.last() == (EvidenceView {
                item_id: item,
                slot,
                scores: seq![score],
                best: score,
                available,
            })
            &&& (exists|i: int|
                0 <= i < list.len() && (#[trigger] list[i]).item_id == item && list[i].slot
                    == slot) ==> after.len() == list.len()
        }),
{
    lemma_evidence_found(list, item, slot);
    let after = with_evidence(list, item, slot, score, available);
    match evidence_index(list, item, slot) {
        Some(index) => {
            let old_entry = list[index];
            let entry = after[index];
            assert forall|i: int| #![trigger after[i]] 0 <= i < after.len() implies after[i].scores.contains(
                after[i].best,
            ) && forall|k: int|
                0 <= k < after[i].scores.len() ==> after[i].best <= #[trigger] after[i].scores[k] by {
                if i == index {
                    let m = choose|m: int|
                        0 <= m < old_entry.scores.len() && old_entry.scores[m] == old_entry.best;
                    assert(entry.scores[m] == old_entry.best);
                    assert(entry.scores[old_entry.scores.len() as int] == score);
                    assert forall|k: int| 0 <= k < entry.scores.len() implies entry.best
                        <= #[trigger] entry.scores[k] by {
                        if k < old_entry.scores.len() {
                            assert(old_entry.best <= old_entry.scores[k]);
                        }
                    }
                } else {
                    assert(after[i] == list[i]);
                }
            }
            assert forall|i: int, j: int| 0 <= i < j < after.len() implies !((
            #[trigger] after[i]).item_id == (#[trigger] after[j]).item_id && after[i].slot
                == after[j].slot) by {
                assert(!(list[i].item_id == list[j].item_id && list[i].slot == list[j].slot));
            }
            assert forall|i: int|
                0 <= i < list.len() && list[i].item_id == item && list[i].slot == slot implies i
                == index by {
                if i < index {
                    assert(!(list[i].item_id == list[index].item_id && list[i].slot
                        == list[index].slot));
                } else if i > index {
                    assert(!(list[index].item_id == list[i].item_id && list[index].slot
                        == list[i].slot));
                }
            }
        },
        None => {
            let n = list.len() as int;
            assert(after[n].scores[0] == score);
            assert forall|i: int| #![trigger after[i]] 0 <= i < after.len() implies after[i].scores.contains(
                after[i].best,
            ) && forall|k: int|
                0 <= k < after[i].scores.len() ==> after[i].best <= #[trigger] after[i].scores[k] by {
                if i < n {
                    assert(after[i] == list[i]);
                }
            }
            assert forall|i: int, j: int| 0 <= i < j < after.len() implies !((
            #[trigger] after[i]).item_id == (#[trigger] after[j]).item_id && after[i].slot
                == after[j].slot) by {
                assert(after[i] == list[i]);
                if j < n {
                    assert(after[j] == list[j]);
                }
            }
        },
    }
}

/// Recording the matches of a page keeps what is gathered in order, and concerns only slots
/// that are open and at the place of a match of the item.
#[verifier::spinoff_prover]
#[verifier::rlimit(30)]
pub proof fn lemma_matches_are_gathered(
    map: ListMapView,
    samples: Seq<PageSample>,
    placed: Seq<PlacedSlot>,
    slots: Seq<Slot>,
    candidates: Seq<MatchCandidate>,
)
    requires
        gathered(map.evidence),
    ensures
        ({
            let after = map.with_committed(samples, placed, slots, candidates);
            &&& gathered(after.evidence)
            &&& forall|c: int|
                0 <= c < candidates.len() && after.id_at(
                    (#[trigger] candidates[c]).row,
                    candidates[c].col,
                ) is Some && after.open_slot(
                    after.id_at(candidates[c].row, candidates[c].col)->0,
                ) ==> exists|i: int|
                    #![trigger after.evidence[i]]
                    {
                        &&& 0 <= i < after.evidence.len()
                        &&& after.evidence[i].item_id == candidates[c].item_id@
                        &&& after.evidence[i].slot == after.id_at(
                            candidates[c].row,
                            candidates[c].col,
                        )->0
                        &&& after.evidence[i].scores.contains(candidates[c].score)
                    }
            &&& forall|i: int, k: int|
                #![trigger after.evidence[i].scores[k]]
                0 <= i < after.evidence.len() && 0 <= k < after.evidence[i].scores.len() ==> (
                exists|j: int|
                    #![trigger map.evidence[j]]
                    0 <= j < map.evidence.len() && map.evidence[j].item_id
                        == after.evidence[i].item_id && map.evidence[j].slot
                        == after.evidence[i].slot && map.evidence[j].scores.contains(
                        after.evidence[i].scores[k],
                    )) || (exists|c: int|
                    #![trigger candidates[c]]
                    0 <= c < candidates.len() && candidates[c].item_id@
                        == after.evidence[i].item_id && after.id_at(
                        candidates[c].row,
                        candidates[c].col,
                    ) == Some(after.evidence[i].slot) && after.open_slot(after.evidence[i].slot)
                        && candidates[c].score == after.evidence[i].scores[k])
        }),
{
    let page = map.with_page(samples, placed);
    let seen = page.with_all_seen(slots);
    lemma_only_items(page, slots);
    lemma_only_evidence(seen, candidates);
    lemma_candidates_gathered(seen, candidates);
}

/// A match that was recorded is among what was gathered.
spec fn match_held(map: ListMapView, after: ListMapView, candidate: MatchCandidate) -> bool {
    map.id_at(candidate.row, candidate.col) is Some && map.open_slot(
        map.id_at(candidate.row, candidate.col)->0,
    ) ==> exists|i: int|
        #![trigger after.evidence[i]]
        {
            &&& 0 <= i < after.evidence.len()
            &&& after.evidence[i].item_id == candidate.item_id@
            &&& after.evidence[i].slot == map.id_at(candidate.row, candidate.col)->0
            &&& after.evidence[i].scores.contains(candidate.score)
        }
}

/// Where an error of what was gathered comes from.
spec fn score_explained(
    map: ListMapView,
    candidates: Seq<MatchCandidate>,
    item: Seq<char>,
    slot: usize,
    score: i64,
) -> bool {
    ||| exists|j: int|
        #![trigger map.evidence[j]]
        0 <= j < map.evidence.len() && map.evidence[j].item_id == item && map.evidence[j].slot
            == slot && map.evidence[j].scores.contains(score)
    ||| exists|c: int|
        #![trigger candidates[c]]
        0 <= c < candidates.len() && candidates[c].item_id@ == item && map.id_at(
            candidates[c].row,
            candidates[c].col,
        ) == Some(slot) && map.open_slot(slot) && candidates[c].score == score
}

#[verifier::spinoff_prover]
#[verifier::rlimit(30)]
proof fn lemma_candidates_gathered(map: ListMapView, candidates: Seq<MatchCandidate>)
    requires
        gathered(map.evidence),
    ensures
        gathered(map.with_candidates(candidates).evidence),
        forall|c: int|
            0 <= c < candidates.len() ==> match_held(
                map,
                map.with_candidates(candidates),
                #[trigger] candidates[c],
            ),
        forall|i: int, k: int|
            0 <= i < map.with_candidates(candidates).evidence.len() && 0 <= k
                < map.with_candidates(candidates).evidence[i].scores.len() ==> score_explained(
                map,
                candidates,
                map.with_candidates(candidates).evidence[i].item_id,
                map.with_candidates(candidates).evidence[i].slot,
                #[trigger] map.with_candidates(candidates).evidence[i].scores[k],
            ),
    decreases candidates.len(),
{
    let after = map.with_candidates(candidates);
    if candidates.len() == 0 {
        assert forall|i: int, k: int|
            0 <= i < after.evidence.len() && 0 <= k
                < after.evidence[i].scores.len() implies score_explained(
            map,
            candidates,
            after.evidence[i].item_id,
            after.evidence[i].slot,
            #[trigger] after.evidence[i].scores[k],
        ) by {
            assert(map.evidence[i].scores.contains(map.evidence[i].scores[k]));
        }
    } else {
        let before = candidates.drop_last();
        let last: int = candidates.len() - 1;
        let candidate = candidates[last];
        lemma_candidates_gathered(map, before);
        lemma_only_evidence(map, before);
        let held = map.with_candidates(before);
        let recorded = map.id_at(candidate.row, candidate.col) is Some && map.open_slot(
            map.id_at(candidate.row, candidate.col)->0,
        );
        let id = map.id_at(candidate.row, candidate.col)->0;
        if recorded {
            lemma_match_is_recorded(
                held.evidence,
                candidate.item_id@,
                id,
                candidate.score,
                candidate.available,
            );
            lemma_evidence_found(held.evidence, candidate.item_id@, id);
        }
        assert forall|i: int| 0 <= i < held.evidence.len() implies {
            &&& (#[trigger] after.evidence[i]).item_id == held.evidence[i].item_id
            &&& after.evidence[i].slot == held.evidence[i].slot
            &&& forall|score: i64|
                held.evidence[i].scores.contains(score) ==> #[trigger] after.evidence[i].scores.contains(
                    score,
                )
        } by {
            assert forall|score: i64|
                held.evidence[i].scores.contains(
                    score,
                ) implies #[trigger] after.evidence[i].scores.contains(score) by {
                let k = choose|k: int|
                    0 <= k < held.evidence[i].scores.len() && held.evidence[i].scores[k] == score;
                assert(after.evidence[i].scores[k] == score);
            }
        }
        assert forall|c: int| 0 <= c < candidates.len() implies match_held(
            map,
            after,
            #[trigger] candidates[c],
        ) by {
            if c < last {
                assert(before[c] == candidates[c]);
                assert(match_held(map, held, before[c]));
                if map.id_at(candidates[c].row, candidates[c].col) is Some && map.open_slot(
                    map.id_at(candidates[c].row, candidates[c].col)->0,
                ) {
                    let i = choose|i: int|
                        #![trigger held.evidence[i]]
                        {
                            &&& 0 <= i < held.evidence.len()
                            &&& held.evidence[i].item_id == candidates[c].item_id@
                            &&& held.evidence[i].slot == map.id_at(
                                candidates[c].row,
                                candidates[c].col,
                            )->0
                            &&& held.evidence[i].scores.contains(candidates[c].score)
                        };
                    assert(after.evidence[i].scores.contains(candidates[c].score));
                }
            } else if recorded {
                match evidence_index(held.evidence, candidate.item_id@, id) {
                    Some(index) => {
                        let n = held.evidence[index].scores.len() as int;
                        assert(after.evidence[index].scores[n] == candidate.score);
                        assert(after.evidence[index].scores.contains(candidate.score));
                    },
                    None => {
                        let n = held.evidence.len() as int;
                        assert(after.evidence[n].scores[0] == candidate.score);
                        assert(after.evidence[n].scores.contains(candidate.score));
                    },
                }
            }
        }
        assert forall|i: int, k: int|
            0 <= i < after.evidence.len() && 0 <= k
                < after.evidence[i].scores.len() implies score_explained(
            map,
            candidates,
            after.evidence[i].item_id,
            after.evidence[i].slot,
            #[trigger] after.evidence[i].scores[k],
        ) by {
            let item = after.evidence[i].item_id;
            let slot = after.evidence[i].slot;
            let score = after.evidence[i].scores[k];
            if i < held.evidence.len() && k < held.evidence[i].scores.len() {
                assert(held.evidence[i].scores[k] == score);
                assert(score_explained(map, before, item, slot, score));
                if !(exists|j: int|
                    #![trigger map.evidence[j]]
                    0 <= j < map.evidence.len() && map.evidence[j].item_id == item
                        && map.evidence[j].slot == slot && map.evidence[j].scores.contains(score)) {
                    let c = choose|c: int|
                        #![trigger before[c]]
                        0 <= c < before.len() && before[c].item_id@ == item && map.id_at(
                            before[c].row,
                            before[c].col,
                        ) == Some(slot) && map.open_slot(slot) && before[c].score == score;
                    assert(candidates[c] == before[c]);
                }
            } else {
                assert(recorded);
                assert(candidates[last].score == score);
            }
        }
    }
}

proof fn lemma_evidence_filtered(list: Seq<EvidenceView>, slot: usize)
    ensures
        evidence_elsewhere(list, slot) == list.filter(|entry: EvidenceView| entry.slot != slot),
    decreases list.len(),
{
    reveal(Seq::filter);
    if list.len() > 0 {
        lemma_evidence_filtered(list.drop_last(), slot);
    }
}

/// Selecting a slot of the visible page marks the slot of the list at its row and column,
/// and no other. Whatever was known to be there is forgotten; all that concerns other slots
/// stays.
pub proof fn lemma_selecting(map: ListMapView, place: SlotPlace, id: usize)
    requires
        map.sound(),
        placed_id(map.current, place.row, place.col) == Some(id),
    ensures
        ({
            let after = map.with_selected(place);
            &&& after.slots == map.slots
            &&& after.current == map.current
            &&& after.item_kind == map.item_kind
            &&& after.no_booster_option == map.no_booster_option
            &&& after.selected.len() == map.selected.len()
            &&& after.selected[id as int]
            &&& forall|i: int|
                0 <= i < map.selected.len() && i != id ==> #[trigger] after.selected[i]
                    == map.selected[i]
            &&& forall|item: Seq<char>| #[trigger]
                after.items.contains_key(item) <==> map.items.contains_key(item) && map.items[item]
                    != id
            &&& forall|item: Seq<char>| #[trigger]
                after.items.contains_key(item) ==> after.items[item] == map.items[item]
            &&& forall|item: Seq<char>| #[trigger]
                after.fallbacks.contains_key(item) <==> map.fallbacks.contains_key(item)
                    && map.fallbacks[item].slot != id
            &&& forall|item: Seq<char>| #[trigger]
                after.fallbacks.contains_key(item) ==> after.fallbacks[item] == map.fallbacks[item]
            &&& after.evidence == map.evidence.filter(|entry: EvidenceView| entry.slot != id)
        }),
{
    lemma_placed_id_known(map.current, place.row, place.col, map.slots.len());
    lemma_evidence_filtered(map.evidence, id);
}

/// The evidence that is chosen for an item concerns that item and a slot that was not
/// selected, and no other such evidence has a lower mean error, nor an equal one earlier on.
/// None is chosen only when there is none.
pub proof fn lemma_best_evidence(
    list: Seq<EvidenceView>,
    means: Seq<i64>,
    item: Seq<char>,
    selected: Seq<bool>,
)
    ensures
        match best_evidence(list, means, item, selected) {
            Some(index) => {
                &&& 0 <= index < list.len()
                &&& list[index].item_id == item
                &&& !selected[list[index].slot as int]
                &&& forall|i: int|
                    0 <= i < list.len() && (#[trigger] list[i]).item_id == item
                        && !selected[list[i].slot as int] ==> means[index] < means[i] || (
                    means[index] == means[i] && index <= i)
            },
            None => forall|i: int|
                0 <= i < list.len() && (#[trigger] list[i]).item_id == item
                    ==> selected[list[i].slot as int],
        },
    decreases list.len(),
{
    if list.len() > 0 {
        let before = list.drop_last();
        lemma_best_evidence(before, means, item, selected);
        assert forall|i: int| 0 <= i < before.len() implies #[trigger] list[i] == before[i] by {}
    }
}

/// The slot that is found for an item at a place of the page may hold one of its kind, is at
/// that place, and is the first such.
pub proof fn lemma_first_selectable(slots: Seq<Slot>, kind: ItemKind, place: (u32, u32))
    ensures
        match selectable_at(slots, kind, place) {
            Some(index) => {
                &&& 0 <= index < slots.len()
                &&& slots[index].kind == SlotKind::Item(kind)
                &&& slots[index].place.row == place.0
                &&& slots[index].place.col == place.1
                &&& forall|i: int|
                    0 <= i < index ==> !((#[trigger] slots[i]).kind == SlotKind::Item(kind)
                        && slots[i].place.row == place.0 && slots[i].place.col == place.1)
            },
            None => forall|i: int|
                0 <= i < slots.len() ==> !((#[trigger] slots[i]).kind == SlotKind::Item(kind)
                    && slots[i].place.row == place.0 && slots[i].place.col == place.1),
        },
    decreases slots.len(),
{
    if slots.len() > 0 {
        let before = slots.drop_last();
        lemma_first_selectable(before, kind, place);
        assert forall|i: int| 0 <= i < before.len() implies #[trigger] slots[i] == before[i] by {}
    }
}

/// The target that the map gives for an item is a slot of the page that may hold such an
/// item, at the row and column of the slot of the list in which the item is known to be. It
/// stands in for a recognized one. It is given exactly when the item is known to be in a
/// slot that was not selected and that is on the page.
#[verifier::spinoff_prover]
#[verifier::rlimit(30)]
pub proof fn lemma_mapped_target_place(map: ListMapView, item: Seq<char>, slots: Seq<Slot>)
    ensures
        mapped_target(map, item, slots) matches Some(target) ==> {
            &&& target.item_id == item
            &&& target.fallback
            &&& map.items.contains_key(item)
            &&& !map.selected[map.items[item] as int]
            &&& exists|k: int|
                #![trigger slots[k]]
                0 <= k < slots.len() && slots[k].place == target.place && slots[k].kind
                    == SlotKind::Item(map.item_kind)
            &&& exists|i: int|
                #![trigger map.current[i]]
                0 <= i < map.current.len() && map.current[i].id == map.items[item]
                    && map.current[i].row == target.place.row && map.current[i].col
                    == target.place.col
        },
        mapped_target(map, item, slots) is None ==> {
            ||| !map.items.contains_key(item)
            ||| map.selected[map.items[item] as int]
            ||| exists|i: int|
                #![trigger map.current[i]]
                0 <= i < map.current.len() && map.current[i].id == map.items[item] && forall|
                    k: int,
                |
                    0 <= k < slots.len() ==> !((#[trigger] slots[k]).kind == SlotKind::Item(
                        map.item_kind,
                    ) && slots[k].place.row == map.current[i].row && slots[k].place.col
                        == map.current[i].col)
            ||| forall|i: int|
                0 <= i < map.current.len() ==> (#[trigger] map.current[i]).id != map.items[item]
        },
{
    if map.items.contains_key(item) {
        lemma_place_found(map.current, map.items[item]);
        match place_of_id(map.current, map.items[item]) {
            Some(place) => {
                lemma_first_selectable(slots, map.item_kind, place);
                let i = choose|i: int|
                    0 <= i < map.current.len() && (#[trigger] map.current[i]).id == map.items[item]
                        && map.current[i].row == place.0 && map.current[i].col == place.1;
                assert(map.current[i].row == place.0);
            },
            None => {},
        }
    }
}

/// An item that the map gives counts as available as it did where it stands in; else as it
/// did where its error in the slot was lowest; else it counts as available.
pub proof fn lemma_availability(map: ListMapView, item: Seq<char>, id: usize)
    ensures
        map.fallbacks.contains_key(item) ==> map.availability(item, id)
            == map.fallbacks[item].available,
        !map.fallbacks.contains_key(item) && gathered(map.evidence) ==> forall|i: int|
            0 <= i < map.evidence.len() && (#[trigger] map.evidence[i]).item_id == item
                && map.evidence[i].slot == id ==> map.availability(item, id)
                == map.evidence[i].available,
        !map.fallbacks.contains_key(item) && (forall|i: int|
            0 <= i < map.evidence.len() ==> !((#[trigger] map.evidence[i]).item_id == item
                && map.evidence[i].slot == id)) ==> map.availability(item, id),
{
    lemma_evidence_found(map.evidence, item, id);
    if !map.fallbacks.contains_key(item) && gathered(map.evidence) {
        let list = map.evidence;
        assert forall|i: int|
            0 <= i < list.len() && (#[trigger] list[i]).item_id == item && list[i].slot
                == id implies map.availability(item, id) == list[i].available by {
            let index = evidence_index(list, item, id)->0;
            if i < index {
                assert(!(list[i].item_id == list[index].item_id && list[i].slot
                    == list[index].slot));
            } else if index < i {
                assert(!(list[index].item_id == list[i].item_id && list[index].slot
                    == list[i].slot));
            }
        }
    }
}

/// The entry that removes the Booster is the first such entry of the first page, and the
/// slot of the list at its row and column.
pub proof fn lemma_no_booster_entry(map: ListMapView, slots: Seq<Slot>)
    ensures
        (forall|i: int|
            0 <= i < slots.len() ==> (#[trigger] slots[i]).kind != SlotKind::NoBoosterOption)
            ==> map.with_no_booster(slots).no_booster_option is None,
        forall|i: int|
            0 <= i < slots.len() && (#[trigger] slots[i]).kind == SlotKind::NoBoosterOption && (
            forall|j: int|
                0 <= j < i ==> (#[trigger] slots[j]).kind != SlotKind::NoBoosterOption)
                ==> map.with_no_booster(slots).no_booster_option == placed_id(
                map.current,
                slots[i].place.row,
                slots[i].place.col,
            ),
        map.with_no_booster(slots) == (ListMapView {
            no_booster_option: map.with_no_booster(slots).no_booster_option,
            ..map
        }),
{
    lemma_first_no_booster(slots);
}

proof fn lemma_first_no_booster(slots: Seq<Slot>)
    ensures
        match no_booster_slot(slots) {
            Some(index) => 0 <= index < slots.len() && slots[index].kind
                == SlotKind::NoBoosterOption && forall|i: int|
                0 <= i < index ==> (#[trigger] slots[i]).kind != SlotKind::NoBoosterOption,
            None => forall|i: int|
                0 <= i < slots.len() ==> (#[trigger] slots[i]).kind != SlotKind::NoBoosterOption,
        },
    decreases slots.len(),
{
    if slots.len() > 0 {
        let before = slots.drop_last();
        lemma_first_no_booster(before);
        assert forall|i: int| 0 <= i < before.len() implies #[trigger] slots[i] == before[i] by {}
    }
}

proof fn lemma_first_at(slots: Seq<Slot>, place: (u32, u32))
    ensures
        match slot_at(slots, place) {
            Some(index) => {
                &&& 0 <= index < slots.len()
                &&& slots[index].place.row == place.0
                &&& slots[index].place.col == place.1
            },
            None => forall|i: int|
                0 <= i < slots.len() ==> !((#[trigger] slots[i]).place.row == place.0
                    && slots[i].place.col == place.1),
        },
    decreases slots.len(),
{
    if slots.len() > 0 {
        let before = slots.drop_last();
        lemma_first_at(before, place);
        assert forall|i: int| 0 <= i < before.len() implies #[trigger] slots[i] == before[i] by {}
    }
}

/// The slot of another view of the page is the same slot of the list: where the view places
/// that slot of the list, there is the slot. None is found only where the old place, the
/// placement or the slot is missing.
#[verifier::spinoff_prover]
#[verifier::rlimit(30)]
pub proof fn lemma_same_slot(
    map: ListMapView,
    placed: Seq<PlacedSlot>,
    slots: Seq<Slot>,
    previous: SlotPlace,
)
    ensures
        same_slot(map, placed, slots, previous) matches Some(index) ==> {
            &&& 0 <= index < slots.len()
            &&& placed_id(map.current, previous.row, previous.col) is Some
            &&& exists|i: int|
                #![trigger placed[i]]
                0 <= i < placed.len() && placed[i].id == placed_id(
                    map.current,
                    previous.row,
                    previous.col,
                )->0 && placed[i].row == slots[index].place.row && placed[i].col
                    == slots[index].place.col
        },
        same_slot(map, placed, slots, previous) is None ==> {
            ||| placed_id(map.current, previous.row, previous.col) is None
            ||| forall|i: int|
                0 <= i < placed.len() ==> (#[trigger] placed[i]).id != placed_id(
                    map.current,
                    previous.row,
                    previous.col,
                )->0
            ||| exists|i: int|
                #![trigger placed[i]]
                0 <= i < placed.len() && placed[i].id == placed_id(
                    map.current,
                    previous.row,
                    previous.col,
                )->0 && forall|k: int|
                    0 <= k < slots.len() ==> !((#[trigger] slots[k]).place.row == placed[i].row
                        && slots[k].place.col == placed[i].col)
        },
{
    match placed_id(map.current, previous.row, previous.col) {
        Some(id) => {
            lemma_place_found(placed, id);
            match place_of_id(placed, id) {
                Some(place) => {
                    lemma_first_at(slots, place);
                    let i = choose|i: int|
                        0 <= i < placed.len() && (#[trigger] placed[i]).id == id && placed[i].row
                            == place.0 && placed[i].col == place.1;
                    assert(placed[i].row == place.0);
                },
                None => {},
            }
        },
        None => {},
    }
}

/// Letting evidence stand in for an item makes its slot the slot of the item, available as
/// the evidence is, and changes nothing else.
pub proof fn lemma_stand_in(map: ListMapView, item: Seq<char>, index: int)
    requires
        0 <= index < map.evidence.len(),
    ensures
        ({
            let after = map.with_fallback(item, index);
            &&& after == (ListMapView { items: after.items, fallbacks: after.fallbacks, ..map })
            &&& after.items.contains_key(item)
            &&& after.items[item] == map.evidence[index].slot
            &&& after.fallbacks.contains_key(item)
            &&& after.fallbacks[item].slot == map.evidence[index].slot
            &&& after.fallbacks[item].available == map.evidence[index].available
            &&& forall|other: Seq<char>|
                other != item ==> (#[trigger] after.items.contains_key(other)
                    <==> map.items.contains_key(other)) && (map.items.contains_key(other)
                    ==> after.items[other] == map.items[other])
            &&& forall|other: Seq<char>|
                other != item ==> (#[trigger] after.fallbacks.contains_key(other)
                    <==> map.fallbacks.contains_key(other)) && (map.fallbacks.contains_key(other)
                    ==> after.fallbacks[other] == map.fallbacks[other])
        }),
{
}

/// A slot of the visible page may be selected exactly when it stands for a slot of the list
/// that was not selected and does not remove the Booster.
pub proof fn lemma_selectable_places(map: ListMapView, place: SlotPlace)
    ensures
        map.can_select(place) <==> {
            &&& placed_id(map.current, place.row, place.col) is Some
            &&& !map.selected[placed_id(map.current, place.row, place.col)->0 as int]
            &&& map.no_booster_option != placed_id(map.current, place.row, place.col)
        },
        map.can_select(place) <==> {
            &&& map.id_at(place.row, place.col) is Some
            &&& map.open_slot(map.id_at(place.row, place.col)->0)
        },
{
}

} // verus!
