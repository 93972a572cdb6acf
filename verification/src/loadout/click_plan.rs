//! Which visible slot to click.
use super::list_map::{
    find_selectable, lemma_first_selectable, selectable_at, ListMap, ListMapView,
};
use super::{Slot, SlotKind, SlotPlace};
use crate::item::ItemKind;
use crate::text::{same_text, views};
use vstd::prelude::*;

verus! {

/// A slot to click for an item.
#[derive(Debug)]
pub struct ClickTarget {
    pub item_id: String,
    pub place: SlotPlace,
    /// The item is not in use by another player.
    pub available: bool,
    /// The item was not recognized in the slot; the slot is the most likely one.
    pub fallback: bool,
}

/// A slot to click as a mathematical value.
#[verifier::ext_equal]
pub struct ClickTargetView {
    pub item_id: Seq<char>,
    pub place: SlotPlace,
    pub available: bool,
    pub fallback: bool,
}

impl View for ClickTarget {
    type V = ClickTargetView;

    open spec fn view(&self) -> ClickTargetView {
        ClickTargetView {
            item_id: self.item_id@,
            place: self.place,
            available: self.available,
            fallback: self.fallback,
        }
    }
}

/// An optional target as a mathematical value.
pub open spec fn option_target(target: Option<ClickTarget>) -> Option<ClickTargetView> {
    match target {
        Some(target) => Some(target@),
        None => None,
    }
}

/// An item of the kind was recognized in the slot.
pub open spec fn shows(slot: Slot, item: Seq<char>, kind: ItemKind) -> bool {
    &&& slot.kind == SlotKind::Item(kind)
    &&& slot.classification is Some
    &&& slot.classification->0.item_id@ == item
}

/// The item was recognized more clearly in the one slot than in the other.
pub open spec fn clearer(a: Slot, b: Slot) -> bool {
    let x = a.classification->0;
    let y = b.classification->0;
    x.gate_quality > y.gate_quality || (x.gate_quality == y.gate_quality && x.match_margin
        > y.match_margin)
}

/// The slot in which an item was recognized most clearly; the last of them where
/// several are equally clear.
pub open spec fn clearest_slot(slots: Seq<Slot>, item: Seq<char>, kind: ItemKind) -> Option<int>
    decreases slots.len(),
{
    if slots.len() == 0 {
        None
    } else {
        let before = clearest_slot(slots.drop_last(), item, kind);
        let last: int = slots.len() - 1;
        if !shows(slots[last], item, kind) {
            before
        } else {
            match before {
                Some(index) => if clearer(slots[index], slots[last]) {
                    Some(index)
                } else {
                    Some(last)
                },
                None => Some(last),
            }
        }
    }
}

/// The target for an item that was recognized in a slot.
pub open spec fn target_in(slot: Slot, item: Seq<char>) -> ClickTargetView {
    ClickTargetView {
        item_id: item,
        place: slot.place,
        available: slot.classification->0.available,
        fallback: false,
    }
}

/// The target for an item that is visible.
pub open spec fn visible_target(slots: Seq<Slot>, item: Seq<char>, kind: ItemKind) -> Option<
    ClickTargetView,
> {
    match clearest_slot(slots, item, kind) {
        Some(index) => Some(target_in(slots[index], item)),
        None => None,
    }
}

fn find_clearest(slots: &Vec<Slot>, item: &str, kind: ItemKind) -> (r: Option<usize>)
    ensures
        match r {
            Some(index) => clearest_slot(slots@, item@, kind) == Some(index as int) && index
                < slots@.len() && shows(slots@[index as int], item@, kind),
            None => clearest_slot(slots@, item@, kind) is None,
        },
{
    let mut best: Option<usize> = None;
    let mut i: usize = 0;
    assert(slots@.take(0) =~= Seq::<Slot>::empty());
    while i < slots.len()
        invariant
            i <= slots@.len(),
            match best {
                Some(index) => clearest_slot(slots@.take(i as int), item@, kind) == Some(
                    index as int,
                ) && index < i && shows(slots@[index as int], item@, kind),
                None => clearest_slot(slots@.take(i as int), item@, kind) is None,
            },
        decreases slots@.len() - i,
    {
        let ghost here = slots@.take(i + 1);
        assert(here.drop_last() == slots@.take(i as int));
        assert(here[i as int] == slots@[i as int]);
        let slot = &slots[i];
        if slot.kind.is_selectable_item_for(kind) {
            if let Some(found) = &slot.classification {
                if same_text(found.item_id.as_str(), item) {
                    let keep = match best {
                        Some(index) => {
                            assert(here[index as int] == slots@[index as int]);
                            match &slots[index].classification {
                                Some(held) => held.gate_quality > found.gate_quality || (
                                held.gate_quality == found.gate_quality && held.match_margin
                                    > found.match_margin),
                                None => false,
                            }
                        },
                        None => false,
                    };
                    if !keep {
                        best = Some(i);
                    }
                }
            }
        }
        i = i + 1;
    }
    assert(slots@.take(slots@.len() as int) =~= slots@);
    best
}

fn target_of(slot: &Slot, item: &str) -> (r: ClickTarget)
    requires
        slot.classification is Some,
    ensures
        r@ == target_in(*slot, item@),
{
    let available = match &slot.classification {
        Some(found) => found.available,
        None => true,
    };
    ClickTarget { item_id: item.to_string(), place: slot.place, available, fallback: false }
}

/// The target for an item that is visible: the slot in which it was recognized most
/// clearly.
pub fn find_visible_target(slots: &Vec<Slot>, item_id: &str, item_kind: ItemKind) -> (r: Option<
    ClickTarget,
>)
    ensures
        option_target(r) == visible_target(slots@, item_id@, item_kind),
{
    match find_clearest(slots, item_id, item_kind) {
        Some(index) => Some(target_of(&slots[index], item_id)),
        None => None,
    }
}

/// The slot comes first on the page, row by row.
pub open spec fn comes_first(a: Slot, b: Slot) -> bool {
    a.center_y < b.center_y || (a.center_y == b.center_y && a.center_x < b.center_x)
}

/// The item is visible in a slot that may be selected.
pub open spec fn reachable(
    slots: Seq<Slot>,
    item: Seq<char>,
    kind: ItemKind,
    map: ListMapView,
) -> bool {
    match clearest_slot(slots, item, kind) {
        Some(index) => map.can_select(slots[index].place),
        None => false,
    }
}

/// The remaining item that comes first on the page, given by its place in the list
/// of remaining items; the first of them where several share a position.
pub open spec fn first_reachable(
    slots: Seq<Slot>,
    remaining: Seq<Seq<char>>,
    kind: ItemKind,
    map: ListMapView,
) -> Option<int>
    decreases remaining.len(),
{
    if remaining.len() == 0 {
        None
    } else {
        let before = first_reachable(slots, remaining.drop_last(), kind, map);
        let last: int = remaining.len() - 1;
        if !reachable(slots, remaining[last], kind, map) {
            before
        } else {
            match before {
                Some(index) => if comes_first(
                    slots[clearest_slot(slots, remaining[last], kind)->0],
                    slots[clearest_slot(slots, remaining[index], kind)->0],
                ) {
                    Some(last)
                } else {
                    Some(index)
                },
                None => Some(last),
            }
        }
    }
}

/// The target for whichever remaining item comes first on the page.
pub open spec fn next_target(
    slots: Seq<Slot>,
    remaining: Seq<Seq<char>>,
    kind: ItemKind,
    map: ListMapView,
) -> Option<ClickTargetView> {
    match first_reachable(slots, remaining, kind, map) {
        Some(index) => visible_target(slots, remaining[index], kind),
        None => None,
    }
}

/// The target for whichever remaining item comes first on the page, among slots that
/// may be selected.
pub fn next_visible_target(
    slots: &Vec<Slot>,
    remaining: &Vec<String>,
    item_kind: ItemKind,
    map: &ListMap,
) -> (r: Option<ClickTarget>)
    requires
        map@.sound(),
    ensures
        option_target(r) == next_target(slots@, views(remaining@), item_kind, map@),
{
    let ghost items = views(remaining@);
    let mut best: Option<(usize, usize)> = None;
    let mut i: usize = 0;
    assert(items.take(0) =~= Seq::<Seq<char>>::empty());
    while i < remaining.len()
        invariant
            map@.sound(),
            i <= remaining@.len(),
            items == views(remaining@),
            match best {
                Some((item, slot)) => {
                    &&& first_reachable(slots@, items.take(i as int), item_kind, map@) == Some(
                        item as int,
                    )
                    &&& item < i
                    &&& slot < slots@.len()
                    &&& clearest_slot(slots@, items[item as int], item_kind) == Some(slot as int)
                    &&& shows(slots@[slot as int], items[item as int], item_kind)
                },
                None => first_reachable(slots@, items.take(i as int), item_kind, map@) is None,
            },
        decreases remaining@.len() - i,
    {
        let ghost here = items.take(i + 1);
        assert(here.drop_last() == items.take(i as int));
        assert(here[i as int] == items[i as int]);
        assert(items[i as int] == remaining@[i as int]@);
        if let Some(slot) = find_clearest(slots, remaining[i].as_str(), item_kind) {
            if map.can_select_slot(&slots[slot].place) {
                let better = match best {
                    Some((item, held)) => {
                        assert(here[item as int] == items[item as int]);
                        slots[slot].center_y < slots[held].center_y || (slots[slot].center_y
                            == slots[held].center_y && slots[slot].center_x < slots[held].center_x)
                    },
                    None => true,
                };
                if better {
                    best = Some((i, slot));
                }
            }
        }
        i = i + 1;
    }
    assert(items.take(items.len() as int) =~= items);
    match best {
        Some((item, slot)) => {
            assert(items[item as int] == remaining@[item as int]@);
            Some(target_of(&slots[slot], remaining[item].as_str()))
        },
        None => None,
    }
}

/// A target found again on another view of the page.
pub open spec fn found_again(
    slots: Seq<Slot>,
    item: Seq<char>,
    kind: ItemKind,
    previous: ClickTargetView,
) -> Option<ClickTargetView> {
    if !previous.fallback {
        visible_target(slots, item, kind)
    } else {
        match selectable_at(slots, kind, (previous.place.row, previous.place.col)) {
            Some(index) => Some(ClickTargetView { place: slots[index].place, ..previous }),
            None => None,
        }
    }
}

/// Finds a target again on another view of the page: by its item where the item was
/// recognized, by its row and column where it was not.
pub fn find_scored_target(
    slots: &Vec<Slot>,
    item_id: &str,
    item_kind: ItemKind,
    previous: &ClickTarget,
) -> (r: Option<ClickTarget>)
    ensures
        option_target(r) == found_again(slots@, item_id@, item_kind, previous@),
{
    if !previous.fallback {
        return find_visible_target(slots, item_id, item_kind);
    }
    match find_selectable(slots, item_kind, previous.place.row, previous.place.col) {
        Some(index) => Some(
            ClickTarget {
                item_id: previous.item_id.clone(),
                place: slots[index].place,
                available: previous.available,
                fallback: previous.fallback,
            },
        ),
        None => None,
    }
}

// ----- laws ------------------------------------------------------------------------

/// The slot that is clicked for an item shows that item, and no slot shows it more
/// clearly.
pub proof fn lemma_clearest_slot(slots: Seq<Slot>, item: Seq<char>, kind: ItemKind)
    ensures
        match clearest_slot(slots, item, kind) {
            Some(index) => {
                &&& 0 <= index < slots.len()
                &&& shows(slots[index], item, kind)
                &&& forall|i: int|
                    0 <= i < slots.len() && shows(#[trigger] slots[i], item, kind) ==> !clearer(
                        slots[i],
                        slots[index],
                    )
            },
            None => forall|i: int|
                0 <= i < slots.len() ==> !shows(#[trigger] slots[i], item, kind),
        },
    decreases slots.len(),
{
    if slots.len() > 0 {
        let before = slots.drop_last();
        lemma_clearest_slot(before, item, kind);
        assert forall|i: int| 0 <= i < before.len() implies before[i] == slots[i] by {}
        match clearest_slot(slots, item, kind) {
            Some(index) => {
                assert forall|i: int|
                    0 <= i < slots.len() && shows(#[trigger] slots[i], item, kind) implies !clearer(
                    slots[i],
                    slots[index],
                ) by {
                    if i < before.len() {
                        assert(before[i] == slots[i]);
                        assert(shows(before[i], item, kind));
                    }
                }
            },
            None => {
                assert forall|i: int| 0 <= i < slots.len() implies !shows(
                    #[trigger] slots[i],
                    item,
                    kind,
                ) by {
                    if i < before.len() {
                        assert(before[i] == slots[i]);
                    }
                }
            },
        }
    }
}

/// The next target is a remaining item in a slot that may be selected, and no other
/// such item comes before it on the page.
pub proof fn lemma_first_reachable(
    slots: Seq<Slot>,
    remaining: Seq<Seq<char>>,
    kind: ItemKind,
    map: ListMapView,
)
    ensures
        match first_reachable(slots, remaining, kind, map) {
            Some(index) => {
                &&& 0 <= index < remaining.len()
                &&& reachable(slots, remaining[index], kind, map)
                &&& forall|i: int|
                    0 <= i < remaining.len() && reachable(
                        slots,
                        #[trigger] remaining[i],
                        kind,
                        map,
                    ) ==> !comes_first(
                        slots[clearest_slot(slots, remaining[i], kind)->0],
                        slots[clearest_slot(slots, remaining[index], kind)->0],
                    )
            },
            None => forall|i: int|
                0 <= i < remaining.len() ==> !reachable(slots, #[trigger] remaining[i], kind, map),
        },
    decreases remaining.len(),
{
    if remaining.len() > 0 {
        let before = remaining.drop_last();
        lemma_first_reachable(slots, before, kind, map);
        assert forall|i: int| 0 <= i < before.len() implies before[i] == remaining[i] by {}
        match first_reachable(slots, remaining, kind, map) {
            Some(index) => {
                assert forall|i: int|
                    0 <= i < remaining.len() && reachable(
                        slots,
                        #[trigger] remaining[i],
                        kind,
                        map,
                    ) implies !comes_first(
                    slots[clearest_slot(slots, remaining[i], kind)->0],
                    slots[clearest_slot(slots, remaining[index], kind)->0],
                ) by {
                    if i < before.len() {
                        assert(before[i] == remaining[i]);
                        assert(reachable(slots, before[i], kind, map));
                    }
                }
            },
            None => {
                assert forall|i: int| 0 <= i < remaining.len() implies !reachable(
                    slots,
                    #[trigger] remaining[i],
                    kind,
                    map,
                ) by {
                    if i < before.len() {
                        assert(before[i] == remaining[i]);
                    }
                }
            },
        }
    }
}

#[verifier::spinoff_prover]
#[verifier::rlimit(30)]
proof fn lemma_last_clearest(slots: Seq<Slot>, item: Seq<char>, kind: ItemKind)
    ensures
        match clearest_slot(slots, item, kind) {
            Some(k) => {
                &&& 0 <= k < slots.len()
                &&& slots[k].kind == SlotKind::Item(kind)
                &&& slots[k].classification is Some
                &&& slots[k].classification->0.item_id@ == item
                &&& forall|i: int|
                    #![trigger slots[i]]
                    0 <= i < slots.len() && slots[i].kind == SlotKind::Item(kind)
                        && slots[i].classification is Some && slots[i].classification->0.item_id@
                        == item ==> {
                        let best = slots[k].classification->0;
                        let other = slots[i].classification->0;
                        ||| other.gate_quality < best.gate_quality
                        ||| other.gate_quality == best.gate_quality && other.match_margin
                            < best.match_margin
                        ||| other.gate_quality == best.gate_quality && other.match_margin
                            == best.match_margin && i <= k
                    }
            },
            None => forall|i: int|
                0 <= i < slots.len() ==> !((#[trigger] slots[i]).kind == SlotKind::Item(kind)
                    && slots[i].classification is Some && slots[i].classification->0.item_id@
                    == item),
        },
    decreases slots.len(),
{
    if slots.len() > 0 {
        let before = slots.drop_last();
        lemma_last_clearest(before, item, kind);
        assert forall|i: int| 0 <= i < before.len() implies #[trigger] slots[i] == before[i] by {}
    }
}

/// The target for an item that is visible is a slot in which an item of the kind was
/// recognized as that item, as available as it was there. No such slot has a better quality,
/// none of the same quality a greater margin, and none with both the same stands later. There
/// is no target exactly when there is no such slot.
pub proof fn lemma_visible_target(slots: Seq<Slot>, item: Seq<char>, kind: ItemKind)
    ensures
        match visible_target(slots, item, kind) {
            Some(target) => exists|k: int|
                #![trigger slots[k]]
                {
                    &&& 0 <= k < slots.len()
                    &&& slots[k].kind == SlotKind::Item(kind)
                    &&& slots[k].classification is Some
                    &&& slots[k].classification->0.item_id@ == item
                    &&& target == (ClickTargetView {
                        item_id: item,
                        place: slots[k].place,
                        available: slots[k].classification->0.available,
                        fallback: false,
                    })
                    &&& forall|i: int|
                        #![trigger slots[i]]
                        0 <= i < slots.len() && slots[i].kind == SlotKind::Item(kind)
                            && slots[i].classification is Some
                            && slots[i].classification->0.item_id@ == item ==> {
                            let best = slots[k].classification->0;
                            let other = slots[i].classification->0;
                            ||| other.gate_quality < best.gate_quality
                            ||| other.gate_quality == best.gate_quality && other.match_margin
                                < best.match_margin
                            ||| other.gate_quality == best.gate_quality && other.match_margin
                                == best.match_margin && i <= k
                        }
                },
            None => forall|i: int|
                0 <= i < slots.len() ==> !((#[trigger] slots[i]).kind == SlotKind::Item(kind)
                    && slots[i].classification is Some && slots[i].classification->0.item_id@
                    == item),
        },
{
    lemma_last_clearest(slots, item, kind);
    match clearest_slot(slots, item, kind) {
        Some(k) => {
            assert(slots[k].kind == SlotKind::Item(kind));
        },
        None => {},
    }
}

#[verifier::spinoff_prover]
#[verifier::rlimit(30)]
proof fn lemma_topmost(
    slots: Seq<Slot>,
    remaining: Seq<Seq<char>>,
    kind: ItemKind,
    map: ListMapView,
)
    ensures
        match first_reachable(slots, remaining, kind, map) {
            Some(r) => {
                &&& 0 <= r < remaining.len()
                &&& clearest_slot(slots, remaining[r], kind) is Some
                &&& map.can_select(slots[clearest_slot(slots, remaining[r], kind)->0].place)
                &&& forall|i: int|
                    #![trigger remaining[i]]
                    0 <= i < remaining.len() && clearest_slot(slots, remaining[i], kind) is Some
                        && map.can_select(slots[clearest_slot(slots, remaining[i], kind)->0].place)
                        ==> {
                        let here = slots[clearest_slot(slots, remaining[r], kind)->0];
                        let there = slots[clearest_slot(slots, remaining[i], kind)->0];
                        ||| here.center_y < there.center_y
                        ||| here.center_y == there.center_y && here.center_x < there.center_x
                        ||| here.center_y == there.center_y && here.center_x == there.center_x && r
                            <= i
                    }
            },
            None => forall|i: int|
                0 <= i < remaining.len() && clearest_slot(slots, #[trigger] remaining[i], kind) is Some
                    ==> !map.can_select(slots[clearest_slot(slots, remaining[i], kind)->0].place),
        },
    decreases remaining.len(),
{
    if remaining.len() > 0 {
        let before = remaining.drop_last();
        lemma_topmost(slots, before, kind, map);
        assert forall|i: int| 0 <= i < before.len() implies #[trigger] remaining[i]
            == before[i] by {}
    }
}

/// The next target is that of a remaining item whose slot may be selected. Of all these it
/// is the uppermost on the page, the leftmost of those at one height, and the first
/// remaining of those at one point. There is none only when no remaining item is visible in
/// a slot that may be selected.
#[verifier::spinoff_prover]
#[verifier::rlimit(30)]
pub proof fn lemma_next_target(
    slots: Seq<Slot>,
    remaining: Seq<Seq<char>>,
    kind: ItemKind,
    map: ListMapView,
)
    ensures
        match next_target(slots, remaining, kind, map) {
            Some(target) => exists|r: int|
                #![trigger remaining[r]]
                {
                    &&& 0 <= r < remaining.len()
                    &&& visible_target(slots, remaining[r], kind) == Some(target)
                    &&& map.can_select(target.place)
                    &&& clearest_slot(slots, remaining[r], kind) is Some
                    &&& slots[clearest_slot(slots, remaining[r], kind)->0].place == target.place
                    &&& forall|i: int|
                        #![trigger remaining[i]]
                        0 <= i < remaining.len() && clearest_slot(slots, remaining[i], kind) is Some
                            && map.can_select(
                            slots[clearest_slot(slots, remaining[i], kind)->0].place,
                        ) ==> {
                            let here = slots[clearest_slot(slots, remaining[r], kind)->0];
                            let there = slots[clearest_slot(slots, remaining[i], kind)->0];
                            ||| here.center_y < there.center_y
                            ||| here.center_y == there.center_y && here.center_x < there.center_x
                            ||| here.center_y == there.center_y && here.center_x == there.center_x
                                && r <= i
                        }
                },
            None => forall|i: int|
                0 <= i < remaining.len() ==> match visible_target(
                    slots,
                    #[trigger] remaining[i],
                    kind,
                ) {
                    Some(target) => !map.can_select(target.place),
                    None => true,
                },
        },
{
    lemma_topmost(slots, remaining, kind, map);
    match first_reachable(slots, remaining, kind, map) {
        Some(r) => {
            assert(visible_target(slots, remaining[r], kind) is Some);
        },
        None => {},
    }
}

/// A target that was recognized is found again as the target for its item. One that stood in
/// is found again in the first slot for such an item at its row and column, and stays what
/// it was but for the point to click.
pub proof fn lemma_found_again(
    slots: Seq<Slot>,
    item: Seq<char>,
    kind: ItemKind,
    previous: ClickTargetView,
)
    ensures
        !previous.fallback ==> found_again(slots, item, kind, previous) == visible_target(
            slots,
            item,
            kind,
        ),
        previous.fallback ==> match found_again(slots, item, kind, previous) {
            Some(target) => {
                &&& target == (ClickTargetView { place: target.place, ..previous })
                &&& target.place.row == previous.place.row
                &&& target.place.col == previous.place.col
                &&& exists|k: int|
                    #![trigger slots[k]]
                    0 <= k < slots.len() && slots[k].place == target.place && slots[k].kind
                        == SlotKind::Item(kind) && forall|i: int|
                        0 <= i < k ==> !((#[trigger] slots[i]).kind == SlotKind::Item(kind)
                            && slots[i].place.row == previous.place.row && slots[i].place.col
                            == previous.place.col)
            },
            None => forall|i: int|
                0 <= i < slots.len() ==> !((#[trigger] slots[i]).kind == SlotKind::Item(kind)
                    && slots[i].place.row == previous.place.row && slots[i].place.col
                    == previous.place.col),
        },
{
    lemma_first_selectable(slots, kind, (previous.place.row, previous.place.col));
}

} // verus!
