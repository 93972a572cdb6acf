use xilous_stratagems_manager::item::ItemKind;
use xilous_stratagems_manager::loadout::alignment::{accept_alignment, two_best, AlignmentCandidate};
use xilous_stratagems_manager::loadout::click_plan::{
    find_scored_target, find_visible_target, next_visible_target, ClickTarget,
};
use xilous_stratagems_manager::loadout::clicking::{
    judge_sight, moved, relocate, retry_hover, unchanged_terminal_target, ClickError, ClickStep,
    Clicks, PostClickSight, PostClickVerdict,
};
use xilous_stratagems_manager::loadout::list_map::{
    ListMap, MatchCandidate, NavigationHint, PageSample, PlacedSlot,
};
use xilous_stratagems_manager::loadout::selection::{
    apply_booster_from_home, apply_empty_loadout_preset, Recovery, Selection, SelectionError,
    SelectionMode, SelectionStep,
};
use xilous_stratagems_manager::loadout::{
    Classification, PageTurnInput, ScrollDirection, Slot, SlotKind, SlotPlace,
};
use xilous_stratagems_manager::preset::LocalTemplate;
use xilous_stratagems_manager::sample::SampleGeometry;

const KIND: ItemKind = ItemKind::Stratagem;

fn place(row: u32, col: u32) -> SlotPlace {
    SlotPlace { row, col, x: 100 * col, y: 100 * row }
}

fn slot(row: u32, col: u32, item: Option<&str>) -> Slot {
    seen(row, col, item, 1, true)
}

fn seen(row: u32, col: u32, item: Option<&str>, quality: i32, available: bool) -> Slot {
    Slot {
        place: place(row, col),
        kind: SlotKind::Item(KIND),
        center_x: 100 * col as i32,
        center_y: 100 * row as i32,
        classification: item.map(|id| Classification {
            item_id: id.to_string(),
            gate_quality: quality,
            match_margin: 0,
            available,
        }),
    }
}

fn samples(slots: &Vec<Slot>, offset: i32) -> Vec<PageSample> {
    slots
        .iter()
        .map(|slot| PageSample {
            row: slot.place.row,
            col: slot.place.col,
            content_y: slot.center_y + offset,
        })
        .collect()
}

fn map(slots: &Vec<Slot>) -> ListMap {
    ListMap::new(&samples(slots, 0), slots, &vec![], KIND)
}

fn texts(items: &[&str]) -> Vec<String> {
    items.iter().map(|item| item.to_string()).collect()
}

fn target(item: &str, row: u32, col: u32) -> ClickTarget {
    ClickTarget { item_id: item.to_string(), place: place(row, col), available: true, fallback: false }
}

fn template(path: &str) -> LocalTemplate {
    LocalTemplate {
        path: path.to_string(),
        geometry: SampleGeometry { center_x: 0, center_y: 0, physical_size: 1 },
        stratagem: None,
    }
}

// ----- targets --------------------------------------------------------------------------

#[test]
fn the_clearest_slot_is_clicked() {
    let slots = vec![
        seen(0, 0, Some("a"), 1, true),
        seen(0, 1, Some("a"), 3, false),
        seen(0, 2, Some("a"), 3, true),
        seen(0, 3, Some("b"), 9, true),
    ];
    let found = find_visible_target(&slots, "a", KIND).expect("target");
    assert_eq!(found.place, place(0, 2));
    assert!(found.available && !found.fallback);
    assert!(find_visible_target(&slots, "c", KIND).is_none());
    assert!(find_visible_target(&slots, "a", ItemKind::Booster).is_none());
}

#[test]
fn the_first_slot_on_the_page_is_next() {
    let slots = vec![slot(1, 0, Some("a")), slot(0, 2, Some("b")), slot(0, 1, Some("c"))];
    let mut map = map(&slots);
    let next = next_visible_target(&slots, &texts(&["a", "b", "c"]), KIND, &map).expect("target");
    assert_eq!(next.item_id, "c");
    map.mark_selected(&place(0, 1));
    let next = next_visible_target(&slots, &texts(&["a", "b", "c"]), KIND, &map).expect("target");
    assert_eq!(next.item_id, "b");
}

#[test]
fn fallback_targets_keep_their_place() {
    let slots = vec![slot(0, 0, None), slot(1, 1, Some("b"))];
    let mut previous = target("a", 1, 1);
    assert!(find_scored_target(&slots, "a", KIND, &previous).is_none());
    previous.fallback = true;
    let found = find_scored_target(&slots, "a", KIND, &previous).expect("target");
    assert_eq!((found.item_id.as_str(), found.place), ("a", place(1, 1)));
    assert!(matches!(
        relocate(&slots, "z", KIND, &target("z", 5, 5)),
        Err(ClickError::LeftView { .. })
    ));
}

// ----- the map --------------------------------------------------------------------------

#[test]
fn items_are_found_again() {
    let slots = vec![slot(0, 0, Some("a")), slot(1, 0, Some("b"))];
    let mut map = map(&slots);
    assert!(map.contains_item("a"));
    assert_eq!(map.visible_content_y_range(), Some((0, 100)));
    let hidden = vec![slot(0, 0, None), slot(1, 0, None)];
    let found = map.visible_mapped_target("b", &hidden).expect("target");
    assert!(found.fallback && found.available);
    assert_eq!(found.place, place(1, 0));

    let below = vec![slot(0, 0, Some("c"))];
    map.commit_page(&samples(&below, 500), vec![], &below, &vec![]);
    assert_eq!(map.navigation_hint("a"), NavigationHint::Scroll(ScrollDirection::Up));
    assert_eq!(map.navigation_hint("c"), NavigationHint::ExpectedVisible);
    assert_eq!(map.navigation_hint("z"), NavigationHint::Scroll(ScrollDirection::Down));
    assert_eq!(map.sample_ids(&samples(&below, 500)), vec![Some(2)]);
}

#[test]
fn selected_slots_are_not_offered_again() {
    let slots = vec![slot(0, 0, Some("a"))];
    let mut map = map(&slots);
    assert!(map.can_select_slot(&place(0, 0)));
    map.mark_selected(&place(0, 0));
    assert!(!map.can_select_slot(&place(0, 0)));
    assert!(!map.contains_item("a"));
    map.commit_page(
        &samples(&slots, 0),
        vec![PlacedSlot { row: 0, col: 0, id: 0 }],
        &slots,
        &vec![],
    );
    assert!(!map.can_select_slot(&place(0, 0)));
    assert!(!map.contains_item("a"));
}

#[test]
fn the_best_evidence_stands_in() {
    let slots = vec![slot(0, 0, None), slot(0, 1, None)];
    let candidate = |col: u32, score: i64, available: bool| MatchCandidate {
        item_id: "a".to_string(),
        row: 0,
        col,
        score,
        available,
    };
    let seen_twice = vec![candidate(0, 50, true), candidate(1, 30, false), candidate(0, 20, true)];
    let mut map = ListMap::new(&samples(&slots, 0), &slots, &seen_twice, KIND);
    let scores: Vec<Vec<i64>> =
        map.evidence().iter().map(|evidence| evidence.scores.clone()).collect();
    assert_eq!(scores, vec![vec![50, 20], vec![30]]);
    assert_eq!(map.activate_best_candidate("b", &vec![35, 30]), None);
    assert_eq!(map.activate_best_candidate("a", &vec![35, 30]), Some(1));
    let found = map.visible_mapped_target("a", &slots).expect("target");
    assert_eq!(found.place, place(0, 1));
    assert!(!found.available);
}

#[test]
fn the_entry_without_a_booster_is_no_choice() {
    let mut slots = vec![slot(0, 0, Some("a")), slot(0, 1, Some("b"))];
    slots[0].kind = SlotKind::NoBoosterOption;
    let map = map(&slots);
    assert!(!map.can_select_slot(&place(0, 0)));
    assert!(map.can_select_slot(&place(0, 1)));
}

#[test]
fn slots_are_followed_across_pages() {
    let slots = vec![slot(0, 0, None), slot(1, 0, None)];
    let map = map(&slots);
    let moved_up = vec![slot(0, 0, None)];
    let placed = vec![PlacedSlot { row: 0, col: 0, id: 1 }];
    assert_eq!(map.slot_after_placement(&placed, &moved_up, &place(1, 0)), Some(0));
    assert_eq!(map.slot_after_placement(&placed, &moved_up, &place(0, 0)), None);
}

#[test]
fn alignments_are_chosen() {
    let candidate = |score: i32, support: u32| AlignmentCandidate { score, support };
    assert_eq!(two_best(&vec![]), None);
    assert_eq!(two_best(&vec![candidate(5, 1)]), Some((0, None)));
    let list = vec![candidate(9, 1), candidate(5, 2), candidate(7, 3), candidate(5, 4)];
    assert_eq!(two_best(&list), Some((2, Some(3))));
    assert!(accept_alignment(&list[2], None, false));
    assert!(!accept_alignment(&list[2], Some(&list[3]), false));
    assert!(accept_alignment(&list[2], Some(&list[3]), true));
    assert!(accept_alignment(&list[3], Some(&list[2]), false));
}

// ----- selecting ------------------------------------------------------------------------

#[test]
fn items_are_selected_as_they_come() {
    let slots = vec![slot(0, 0, Some("c")), slot(0, 1, Some("a"))];
    let mut map = map(&slots);
    let mut selection =
        Selection::start(KIND, texts(&["a", "c"]), SelectionMode::All { in_saved_order: false });
    assert_eq!(selection.requested_items(), 2);
    let clicked = match selection.next_step(&mut map, &slots, &vec![]) {
        SelectionStep::Click { target, final_item } => {
            assert_eq!(target.item_id, "c");
            assert!(!final_item);
            target
        }
        _ => panic!("no click"),
    };
    let placed =
        vec![PlacedSlot { row: 0, col: 0, id: 0 }, PlacedSlot { row: 0, col: 1, id: 1 }];
    selection.item_selected(&mut map, &clicked, &samples(&slots, 0), placed, &slots, &vec![]);
    assert_eq!(selection.remaining, texts(&["a"]));
    match selection.next_step(&mut map, &slots, &vec![]) {
        SelectionStep::Click { target, final_item } => {
            assert_eq!(target.item_id, "a");
            assert!(final_item);
            selection.finished(&target);
        }
        _ => panic!("no click"),
    }
    assert!(selection.remaining.is_empty());
}

#[test]
fn the_saved_order_is_kept() {
    let slots = vec![slot(0, 0, Some("c")), slot(0, 1, Some("a"))];
    let mut map = map(&slots);
    let mut selection =
        Selection::start(KIND, texts(&["a", "c"]), SelectionMode::All { in_saved_order: true });
    match selection.next_step(&mut map, &slots, &vec![]) {
        SelectionStep::Click { target, .. } => assert_eq!(target.item_id, "a"),
        _ => panic!("no click"),
    }
}

#[test]
fn boosters_in_use_are_passed_over() {
    let slots = vec![seen(0, 0, Some("a"), 1, false), seen(0, 1, Some("b"), 1, false)];
    let mut map = map(&slots);
    let mut selection = Selection::start(KIND, texts(&["a", "b"]), SelectionMode::FirstAvailable);
    assert_eq!(selection.requested_items(), 1);
    assert!(matches!(selection.next_step(&mut map, &slots, &vec![]), SelectionStep::Again));
    assert_eq!(selection.remaining, texts(&["b"]));
    assert!(matches!(selection.next_step(&mut map, &slots, &vec![]), SelectionStep::Unavailable));
}

#[test]
fn pages_are_turned_until_the_list_ends() {
    let slots = vec![slot(0, 0, Some("x"))];
    let mut map = map(&slots);
    let mut selection =
        Selection::start(KIND, texts(&["a"]), SelectionMode::All { in_saved_order: true });
    let page = samples(&slots, 0);
    let placed = || vec![PlacedSlot { row: 0, col: 0, id: 0 }];
    let down = ScrollDirection::Down;
    match selection.next_step(&mut map, &slots, &vec![]) {
        SelectionStep::Turn { input, attempt } => {
            assert_eq!((input, attempt), (PageTurnInput::Full(down), 1));
            assert!(!selection.page_stuck(&mut map, input, attempt, &page, placed(), &slots, &vec![]));
        }
        _ => panic!("no turn"),
    }
    match selection.next_step(&mut map, &slots, &vec![]) {
        SelectionStep::Turn { input, attempt } => {
            assert_eq!((input, attempt), (PageTurnInput::Nudge(down), 2));
            assert!(selection.page_stuck(&mut map, input, attempt, &page, placed(), &slots, &vec![]));
            let error = selection.at_boundary(&mut map, input, &vec![]).err().expect("not found");
            assert_eq!(
                error.message(),
                "target item a was not found before the bottom of the stratagem list"
            );
        }
        _ => panic!("no turn"),
    }
    assert!(selection.full_scan_complete);
}

#[test]
fn short_turns_are_probed() {
    let slots = vec![slot(0, 0, Some("x"))];
    let mut map = map(&slots);
    let mut selection =
        Selection::start(KIND, texts(&["a"]), SelectionMode::All { in_saved_order: true });
    let input = PageTurnInput::Full(ScrollDirection::Down);
    selection.page_turned(&mut map, input, 1, true, &samples(&slots, 50), vec![], &slots, &vec![]);
    assert_eq!(selection.boundary, Some(ScrollDirection::Down));
    selection.page_turned(&mut map, input, 2, false, &samples(&slots, 90), vec![], &slots, &vec![]);
    assert_eq!((selection.boundary, selection.wheel_attempts), (None, 2));
}

#[test]
fn lost_pages_are_recovered_once() {
    let mut selection =
        Selection::start(KIND, texts(&["a"]), SelectionMode::All { in_saved_order: true });
    let full = PageTurnInput::Full(ScrollDirection::Down);
    let nudge = PageTurnInput::Nudge(ScrollDirection::Down);
    assert_eq!(selection.page_lost(full, 3), PageTurnInput::Nudge(ScrollDirection::Up));
    assert!(selection.page_recovered(full, Recovery::Placed).is_ok());
    assert_eq!(selection.boundary, Some(ScrollDirection::Down));
    let message = |result: Result<(), SelectionError>| result.err().expect("lost").message();
    assert_eq!(
        message(selection.page_recovered(full, Recovery::NoMovement)),
        "page turn could not be placed in the temporary list map, and the recovery nudge produced no movement"
    );
    assert_eq!(
        message(selection.page_recovered(full, Recovery::Unplaced)),
        "neither the page turn nor the page after a recovery nudge could be placed in the temporary list map"
    );
    assert_eq!(
        message(selection.page_recovered(nudge, Recovery::Placed)),
        "page navigation remained ambiguous after a boundary probe"
    );
}

#[test]
fn the_search_is_given_up() {
    let slots = vec![slot(0, 0, Some("x")), slot(1, 0, Some("a"))];
    let mut map = map(&slots);
    let mut selection =
        Selection::start(KIND, texts(&["z"]), SelectionMode::All { in_saved_order: true });
    selection.wheel_attempts = 20;
    match selection.next_step(&mut map, &slots, &vec![]) {
        SelectionStep::Failed(error) => assert_eq!(
            error.message(),
            "stratagem preset item z not found after 20 wheel inputs"
        ),
        _ => panic!("not given up"),
    }
    let mut selection =
        Selection::start(KIND, texts(&["a"]), SelectionMode::All { in_saved_order: true });
    match selection.next_step(&mut map, &vec![], &vec![]) {
        SelectionStep::Failed(error) => assert_eq!(
            error.message(),
            "mapped target item a was not recognized in its expected visible row"
        ),
        _ => panic!("not given up"),
    }
}

#[test]
fn a_full_scan_settles_on_the_likeliest_slot() {
    let slots = vec![slot(0, 0, None)];
    let evidence = vec![MatchCandidate {
        item_id: "a".to_string(),
        row: 0,
        col: 0,
        score: 5,
        available: true,
    }];
    let mut map = ListMap::new(&samples(&slots, 0), &slots, &evidence, KIND);
    let mut selection =
        Selection::start(KIND, texts(&["a"]), SelectionMode::All { in_saved_order: true });
    selection.full_scan_complete = true;
    assert!(matches!(selection.next_step(&mut map, &slots, &vec![5]), SelectionStep::Again));
    match selection.next_step(&mut map, &slots, &vec![5]) {
        SelectionStep::Click { target, .. } => assert!(target.fallback),
        _ => panic!("no click"),
    }
}

#[test]
fn presets_name_their_items() {
    let four = vec![template("1"), template("2"), template("3"), template("4")];
    let selection = apply_empty_loadout_preset(&four, true).ok().expect("selection");
    assert_eq!(selection.remaining, texts(&["1", "2", "3", "4"]));
    assert_eq!(selection.mode, SelectionMode::All { in_saved_order: true });
    let error = apply_empty_loadout_preset(&vec![template("1")], true).err().expect("refused");
    assert_eq!(
        error.message(),
        "empty loadout preset application requires exactly 4 stratagems, got 1"
    );
    let selection = apply_booster_from_home(&template("b"), Some(&template("f")));
    assert_eq!(selection.remaining, texts(&["b", "f"]));
    assert_eq!(selection.item_kind, ItemKind::Booster);
    assert_eq!(apply_booster_from_home(&template("b"), None).remaining, texts(&["b"]));
}

// ----- clicking -------------------------------------------------------------------------

#[test]
fn a_final_click_closes_the_list() {
    let mut clicks = Clicks::first(KIND, true);
    assert_eq!(clicks.proceed(false, "a").ok(), Some(ClickStep::CheckTarget));
    assert_eq!(clicks.proceed(true, "a").ok(), Some(ClickStep::Click));
    assert_eq!(clicks.proceed(false, "a").ok(), Some(ClickStep::CheckTarget));
    assert_eq!(clicks.proceed(false, "a").ok(), Some(ClickStep::AwaitHome));
    assert_eq!(clicks.proceed(true, "a").ok(), Some(ClickStep::Home));
    let error = clicks.proceed(false, "a").err().expect("failed");
    assert_eq!(
        error.message(""),
        "final stratagem click changed the list state but did not return to a confirmed loadout home"
    );
}

#[test]
fn clicks_are_repeated_three_times() {
    let mut clicks = Clicks::first(KIND, false);
    assert_eq!(clicks.proceed(false, "a").ok(), Some(ClickStep::Click));
    assert_eq!(clicks.proceed(false, "a").ok(), Some(ClickStep::Click));
    let error = clicks.proceed(false, "a").err().expect("failed");
    assert_eq!(
        error.message("before=1.0"),
        "target item a neither moved nor dimmed after 3 click attempts (before=1.0)"
    );
    assert_eq!(clicks.proceed(true, "a").ok(), Some(ClickStep::List));
    let mut clicks = Clicks::first(KIND, true);
    for _ in 0..2 {
        assert!(clicks.proceed(false, "a").is_ok());
        assert_eq!(clicks.proceed(true, "a").ok(), Some(ClickStep::Click));
    }
    assert!(clicks.proceed(false, "a").is_ok());
    let error = clicks.proceed(true, "a").err().expect("failed");
    assert_eq!(
        error.message(""),
        "final target item a remained unchanged after 3 confirmed click attempts"
    );
}

#[test]
fn sights_are_judged() {
    let judge = |sight: PostClickSight, timed_out: bool, observation: u32| {
        judge_sight("a", sight, timed_out, observation)
    };
    assert_eq!(judge(PostClickSight::Shifted, false, 1).ok(), Some(PostClickVerdict::Selected));
    assert_eq!(judge(PostClickSight::Dimmed, false, 1).ok(), Some(PostClickVerdict::Selected));
    assert_eq!(judge(PostClickSight::Bright, true, 1).ok(), Some(PostClickVerdict::LookAgain));
    assert_eq!(judge(PostClickSight::Bright, true, 2).ok(), Some(PostClickVerdict::Unchanged));
    assert_eq!(judge(PostClickSight::PageLost, false, 9).ok(), Some(PostClickVerdict::LookAgain));
    assert!(matches!(judge(PostClickSight::PageLost, true, 2), Err(ClickError::PageLost { .. })));
    assert!(matches!(judge(PostClickSight::SlotLost, true, 2), Err(ClickError::ItemLost { .. })));
}

#[test]
fn small_movements_do_not_count() {
    let a = SlotPlace { row: 0, col: 0, x: 10, y: 10 };
    assert!(!moved(&a, &SlotPlace { x: 12, y: 8, ..a }));
    assert!(moved(&a, &SlotPlace { x: 13, ..a }));
    assert!(moved(&a, &SlotPlace { y: 7, ..a }));
    assert!(unchanged_terminal_target(&a, &a, false));
    assert!(!unchanged_terminal_target(&a, &a, true));
}

#[test]
fn hovering_is_tried_four_times() {
    assert_eq!(retry_hover(1, "a").ok(), Some(2));
    assert_eq!(retry_hover(3, "a").ok(), Some(4));
    let error = retry_hover(4, "a").err().expect("given up");
    assert_eq!(
        error.message(": dark"),
        "target item a was not confirmed under the cursor after 4 attempts: dark"
    );
}

#[test]
fn every_click_leaves_one_item_less() {
    let templates: Vec<LocalTemplate> = ["a", "b", "c", "d"].map(template).into();
    let mut selection = apply_empty_loadout_preset(&templates, true).ok().expect("four");
    for (clicks, item) in ["a", "b", "c", "d"].into_iter().enumerate() {
        assert_eq!(selection.remaining.len(), 4 - clicks);
        assert_eq!(selection.remaining[0], item);
        selection.finished(&target(item, 0, 0));
    }
    assert!(selection.remaining.is_empty());
}
