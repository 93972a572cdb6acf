use xilous_stratagems_manager::active_loadout::{ActiveLoadout, ActiveSource};
use xilous_stratagems_manager::app_state::{LiveSettings, PresetSummary, StatusLine, Tone};
use xilous_stratagems_manager::catalog::{Catalog, Direction, StratagemEntry};
use xilous_stratagems_manager::input::{HotkeyBinding, HotkeyModifier};
use xilous_stratagems_manager::item::StratagemCategory;
use xilous_stratagems_manager::key::Key;
use xilous_stratagems_manager::stratagem_input::StratagemInputSettings;
use xilous_stratagems_manager::ui::cards::{
    active_card, booster_text, label_changed, mission_rows, picker_entries, preset_card,
    slot_key_conflict, ActiveNotice, CardBody,
};
use xilous_stratagems_manager::ui::keybinds::{
    binding_text, chosen_binding, edited_slot_keys, judge_draft, kept_draft, toggled_binding,
    DraftNote,
};
use xilous_stratagems_manager::ui::{
    active_label, binding_conflicts, catalog_text, category_title, entry_details, fatal_text,
    focus_text, line_tone, numbered, plan_frame, status_text, time_ago, WindowOptions,
    WindowRequest,
};

fn entry(id: &str, permit: &str) -> StratagemEntry {
    StratagemEntry {
        id: id.to_string(),
        name: id.to_uppercase(),
        permit: permit.to_string(),
        kind: "Eagle".to_string(),
        code: vec![Direction::Left, Direction::Up],
        cooldown: String::new(),
        icon: None,
    }
}

fn catalog() -> Catalog {
    let entries = vec![entry("a", "Offensive"), entry("b", "Supply"), entry("reinforce", "")];
    Catalog::load(entries, "wiki".to_string(), "today".to_string()).ok().expect("catalog")
}

fn settings() -> LiveSettings {
    let mut settings = LiveSettings::default();
    settings.slot_keys = vec![HotkeyBinding::bare(Key::F1), HotkeyBinding::bare(Key::F2)];
    settings.bindings.insert("reinforce".to_string(), HotkeyBinding::bare(Key::F2));
    settings.labels.insert("preset_1".to_string(), "Bugs".to_string());
    settings.labels.insert("preset_2".to_string(), "  ".to_string());
    settings
}

fn active() -> ActiveLoadout {
    ActiveLoadout::new_at(
        "preset_1",
        [Some("a".to_string()), Some("gone".to_string()), None, None],
        ActiveSource::Saved,
        1_000,
    )
}

#[test]
fn conflicts_are_second_uses() {
    assert_eq!(binding_conflicts(&settings()), vec![HotkeyBinding::bare(Key::F2)]);
    assert!(slot_key_conflict(&settings(), 1));
    assert!(!slot_key_conflict(&settings(), 0));
    assert!(!slot_key_conflict(&settings(), 3));
    assert!(binding_conflicts(&LiveSettings::default()).is_empty());
}

#[test]
fn times_are_told_in_words() {
    assert_eq!(time_ago(100, 159), "just now");
    assert_eq!(time_ago(100, 160), "1 min ago");
    assert_eq!(time_ago(100, 50), "just now");
    assert_eq!(time_ago(0, 3_599), "59 min ago");
    assert_eq!(time_ago(0, 7_200), "2 h ago");
    assert_eq!(time_ago(0, 86_400 * 3 + 5), "3 d ago");
}

#[test]
fn details_name_kind_and_cooldown() {
    assert_eq!(entry_details(&entry("a", "")), "←↑\nEagle");
    let mut other = entry("a", "");
    other.cooldown = "80 s".to_string();
    other.kind = String::new();
    assert_eq!(entry_details(&other), "←↑\nCooldown: 80 s");
    assert_eq!(category_title(StratagemCategory::Supply), "Supply");
    assert_eq!(
        catalog_text(&catalog()),
        "3 stratagems, synced today from wiki. Re-run tools/sync-stratagems.ps1 and rebuild after a warbond adds stratagems."
    );
}

#[test]
fn status_lines_tell_the_progress() {
    let status = StatusLine::new(Tone::Working, "Applying");
    assert_eq!(status_text(&status, Some((1, 4))), "Applying  1/4");
    assert_eq!(status_text(&status, None), "Applying");
    assert_eq!(
        fatal_text("x"),
        "Automation stopped: x. Fix the problem and restart the application."
    );
    assert_eq!(focus_text(false), "not focused");
    assert_eq!(numbered("Slot", 3), "Slot 4");
}

#[test]
fn log_lines_stand_out() {
    assert_eq!(line_tone("1s  WARN engine: x"), Some(Tone::Warning));
    assert_eq!(line_tone("1s ERROR engine: x"), Some(Tone::Error));
    assert_eq!(line_tone("1s  INFO engine: WARNING"), None);
}

#[test]
fn labels_name_the_active_loadout() {
    let labels = settings().labels;
    assert_eq!(active_label("preset_1", &labels), "preset_1 (Bugs)");
    assert_eq!(active_label("preset_2", &labels), "preset_2");
    assert_eq!(active_label("preset_3", &labels), "preset_3");
    assert!(label_changed("Bugs", "Bots"));
    assert!(!label_changed(" Bugs ", "Bugs"));
}

#[test]
fn closing_the_window_minimizes_it() {
    let options = WindowOptions { start_hidden: true };
    let plan = plan_frame(true, options, false, false, true);
    assert_eq!(
        plan.requests,
        vec![WindowRequest::Minimize, WindowRequest::CancelClose, WindowRequest::Minimize]
    );
    assert!(plan.repaint && !plan.shown);
    let plan = plan_frame(false, options, false, true, false);
    assert_eq!(
        plan.requests,
        vec![WindowRequest::Restore, WindowRequest::Show, WindowRequest::Focus]
    );
    assert!(plan.shown);
    let plan = plan_frame(false, options, true, true, true);
    assert_eq!(plan.requests, vec![WindowRequest::Close]);
    assert!(!plan.repaint);
}

#[test]
fn saved_presets_have_a_card() {
    let preset = PresetSummary {
        name: "preset_1".to_string(),
        index: 0,
        hotkey_label: "Shift + F1".to_string(),
        saved: true,
        stratagems: [Some("a".to_string()), None, Some("gone".to_string()), None],
        booster: true,
        ..PresetSummary::default()
    };
    let card = preset_card(&preset, Some(&active()), &catalog(), Some("preset_1"));
    assert_eq!(card.title, "Preset 1");
    assert!(card.is_active);
    match card.body {
        CardBody::Saved { slots, booster, confirm_delete, can_activate } => {
            assert_eq!(slots[0].known, Some(("A".to_string(), "←↑".to_string())));
            assert_eq!(slots[0].picker_text, "A");
            assert_eq!(slots[1].picker_text, "Unknown");
            assert_eq!(slots[2].known, None);
            assert_eq!(slots[2].picker_text, "gone");
            assert_eq!(booster, "Booster");
            assert!(confirm_delete && !can_activate);
        }
        CardBody::NotSaved { .. } => panic!("saved"),
    }
    assert_eq!(booster_text(true, true), "Booster + fallback");
    assert_eq!(booster_text(false, true), "No booster");
}

#[test]
fn unsaved_presets_say_how_to_save() {
    let preset = PresetSummary {
        name: "preset_2".to_string(),
        index: 1,
        hotkey_label: "Shift + F2".to_string(),
        problem: Some("broken".to_string()),
        ..PresetSummary::default()
    };
    let card = preset_card(&preset, None, &catalog(), None);
    assert_eq!(card.problem.as_deref(), Some("broken"));
    match card.body {
        CardBody::NotSaved { hint } => assert_eq!(
            hint,
            "Not saved yet. Fill the loadout in game and press Shift + F2."
        ),
        CardBody::Saved { .. } => panic!("not saved"),
    }
}

#[test]
fn the_active_loadout_has_a_card() {
    let card = active_card(&active(), &settings(), &catalog(), false, 1_120);
    assert_eq!(card.heading, "preset_1 (Bugs) · saved from game · 2 min ago");
    assert_eq!(card.slots.len(), 4);
    assert_eq!(card.slots[1].0, "F2");
    assert_eq!(card.slots[3].0, "?");
    assert!(card.slots[0].1.known.is_some() && card.slots[1].1.known.is_none());
    assert_eq!(card.notice, ActiveNotice::ArmsWhenFocused);
    let mut off = settings();
    off.mission_enabled = false;
    assert_eq!(active_card(&active(), &off, &catalog(), true, 0).notice, ActiveNotice::Disabled);
}

#[test]
fn mission_stratagems_have_rows() {
    let rows = mission_rows(&catalog(), &settings());
    assert_eq!(rows.len(), 1);
    assert_eq!(rows[0].name, "REINFORCE");
    assert_eq!(rows[0].binding, Some(HotkeyBinding::bare(Key::F2)));
    assert!(rows[0].conflict);
    let catalog = catalog();
    let picked = picker_entries(&catalog, StratagemCategory::Supply);
    assert_eq!(picked.len(), 1);
    assert_eq!(picked[0].id, "b");
}

#[test]
fn bindings_are_edited() {
    let binding = chosen_binding(None, Key::F7);
    assert_eq!(binding.label(), "F7");
    let with_ctrl = toggled_binding(binding, HotkeyModifier::Ctrl);
    assert_eq!(with_ctrl.label(), "Ctrl + F7");
    assert_eq!(toggled_binding(with_ctrl, HotkeyModifier::Ctrl), binding);
    assert_eq!(chosen_binding(Some(with_ctrl), Key::F8).label(), "Ctrl + F8");
    assert_eq!(binding_text(None), "Unassigned");
    assert_eq!(binding_text(Some(with_ctrl)), "F7");
    let keys = edited_slot_keys(&settings().slot_keys, 3, with_ctrl);
    let labels: Vec<String> = keys.iter().map(|key| key.label()).collect();
    assert_eq!(labels, vec!["F1", "F2", "F1", "Ctrl + F7"]);
}

#[test]
fn drafts_are_judged() {
    let saved = StratagemInputSettings::default();
    let verdict = judge_draft(&saved, &saved);
    assert!(!verdict.can_apply && !verdict.can_revert);
    assert!(matches!(verdict.note, DraftNote::Takes(text) if text == "A 5-arrow code takes about 500 ms."));
    let draft = StratagemInputSettings { key_gap_ms: 50, ..saved };
    let verdict = judge_draft(&draft, &saved);
    assert!(verdict.can_apply && verdict.can_revert);
    assert!(matches!(verdict.note, DraftNote::Unsaved));
    let broken = StratagemInputSettings { key_hold_ms: 0, ..saved };
    let verdict = judge_draft(&broken, &saved);
    assert!(!verdict.can_apply && verdict.can_revert);
    assert!(matches!(verdict.note, DraftNote::Problem(_)));
    assert_eq!(kept_draft(draft, &saved, false), Some(draft));
    assert_eq!(kept_draft(draft, &saved, true), None);
    assert_eq!(kept_draft(saved, &saved, false), None);
}
