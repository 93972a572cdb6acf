use xilous_stratagems_manager::active_loadout::{
    load, now_unix, unix_seconds, ActiveLoadout, ActiveSource,
};
use xilous_stratagems_manager::app_events::{apply_event, AppEvent, PresetCompletion};
use xilous_stratagems_manager::app_state::{SharedState, Tone, UiCommand};
use xilous_stratagems_manager::catalog::{Catalog, Direction, StratagemEntry};
use xilous_stratagems_manager::config::AppConfig;
use xilous_stratagems_manager::config_document::{edit_config, ConfigEdit};
use xilous_stratagems_manager::engine::calls::{call_stratagem, report_call};
use xilous_stratagems_manager::engine::commands::{
    CommandError, CommandStep, FileReply, FileRequest, PendingCommand,
};
use xilous_stratagems_manager::engine::hotkeys::{IdleAction, SyncStep};
use xilous_stratagems_manager::engine::presets::{
    allowed_ids, decide_preset_action, four_ids, preset_name, settle_ids,
    BoosterFollowUp, PresetAction, PresetDecision, PresetHotkeyStep, ScreenCheck,
};
use xilous_stratagems_manager::engine::{
    process_tray_event, report_stopped, Engine, HotkeyAction, TrayEvent,
};
use xilous_stratagems_manager::input::{HotkeyBinding, HotkeyModifier};
use xilous_stratagems_manager::item::ItemKind;
use xilous_stratagems_manager::key::Key;
use xilous_stratagems_manager::loadout::selection::BoosterApplyOutcome;
use xilous_stratagems_manager::stratagem_input::StratagemInputSettings;
use xilous_stratagems_manager::text_map::TextMap;

fn entry(id: &str, permit: &str, code: Vec<Direction>) -> StratagemEntry {
    StratagemEntry {
        id: id.to_string(),
        name: id.to_uppercase(),
        permit: permit.to_string(),
        kind: String::new(),
        code,
        cooldown: String::new(),
        icon: None,
    }
}

fn catalog() -> Catalog {
    let entries = vec![
        entry("a", "Offensive", vec![Direction::Up, Direction::Left]),
        entry("b", "Supply", vec![Direction::Down]),
        entry("c", "Defensive", vec![]),
        entry("d", "Supply", vec![Direction::Right]),
        entry("reinforce", "", vec![Direction::Up, Direction::Down]),
    ];
    Catalog::load(entries, String::new(), String::new()).ok().expect("catalog")
}

fn ids(list: [Option<&str>; 4]) -> [Option<String>; 4] {
    list.map(|id| id.map(str::to_string))
}

fn loadout() -> ActiveLoadout {
    ActiveLoadout::new_at(
        "preset_1",
        ids([Some("a"), None, Some("c"), Some("gone")]),
        ActiveSource::Manual,
        5,
    )
}

fn engine(active: Option<ActiveLoadout>) -> Engine {
    Engine::new(&AppConfig::default(), active).ok().expect("engine")
}

fn text(value: &str) -> String {
    value.to_string()
}

// ----- the active loadout ---------------------------------------------------------------

#[test]
fn stored_loadouts_have_four_slots() {
    assert!(matches!(load(None), Ok(None)));
    assert!(load(Some(loadout())).is_ok());
    let mut short = loadout();
    short.slots.pop();
    let error = load(Some(short)).err().expect("refused");
    assert!(error.message("x.json").contains("x.json"));
}

#[test]
fn slots_are_looked_up() {
    let active = loadout();
    assert_eq!(active.slot(0), Some("a"));
    assert_eq!(active.slot(1), None);
    assert_eq!(active.slot(4), None);
    assert_eq!(ActiveSource::Applied.label(), "applied to game");
}

#[test]
fn the_clock_is_read() {
    assert!(now_unix() > 1_700_000_000);
    assert_eq!(unix_seconds(None), 0);
    assert_eq!(unix_seconds(Some(7)), 7);
    let fresh = ActiveLoadout::new("preset_1", ids([None, None, None, None]), ActiveSource::Saved);
    assert!(fresh.set_at_unix > 1_700_000_000);
}

// ----- hotkeys --------------------------------------------------------------------------

#[test]
fn hotkeys_wait_for_the_game() {
    let mut engine = engine(Some(loadout()));
    let mut state = SharedState::default();
    engine.registered = vec![(1, text("x"))];
    assert!(matches!(engine.sync_hotkeys(&catalog(), true, &mut state), SyncStep::Drop));
    assert_eq!(state.hotkeys.detail, "waiting for Helldivers 2 to be focused");
    assert!(matches!(engine.sync_hotkeys(&catalog(), true, &mut state), SyncStep::Nothing));
}

#[test]
fn hotkeys_are_registered_in_the_game() {
    let mut engine = engine(Some(loadout()));
    let mut state = SharedState::default();
    engine.settings.bindings.insert(text("reinforce"), HotkeyBinding::bare(Key::F5));
    engine.settings.bindings.insert(text("zz"), HotkeyBinding::bare(Key::F1));
    engine.refresh_foreground(true, &mut state);
    assert!(state.game_foreground);
    let desired = match engine.sync_hotkeys(&catalog(), true, &mut state) {
        SyncStep::Register(desired) => desired,
        _ => panic!("nothing to register"),
    };
    let chosen: Vec<i32> = desired.specs.iter().map(|spec| spec.id).collect();
    assert_eq!(chosen, vec![1001, 1002, 1003, 1004, 2001, 2002, 2003, 2004, 3001]);
    assert_eq!(desired.specs[0].label(), "Shift + F1");
    assert!(!engine.hotkeys_registered(desired, None, &mut state));
    assert!(state.hotkeys.armed);
    assert!(state.hotkeys.detail.starts_with("4 preset, 4 slot, 1 mission"));
    assert!(matches!(engine.on_hotkey(1002), Some(HotkeyAction::Preset(1))));
    assert!(matches!(engine.on_hotkey(2004), Some(HotkeyAction::Slot(3))));
    assert!(matches!(engine.on_hotkey(3001), Some(HotkeyAction::Stratagem(_))));
    assert!(engine.on_hotkey(1).is_none());
    assert!(matches!(engine.sync_hotkeys(&catalog(), true, &mut state), SyncStep::Nothing));
}

#[test]
fn repeated_keys_are_left_out() {
    let mut engine = engine(Some(loadout()));
    let mut state = SharedState::default();
    engine.settings.bindings.insert(text("reinforce"), HotkeyBinding::bare(Key::F2));
    engine.refresh_foreground(true, &mut state);
    let desired = engine.desired_hotkeys(&catalog());
    assert_eq!(desired.specs.len(), 8);
    assert_eq!(desired.conflicts.len(), 1);
    engine.hotkeys_registered(desired, None, &mut state);
    assert!(state.hotkeys.detail.contains("; skipped duplicates: "));
}

#[test]
fn slot_keys_need_an_active_loadout() {
    let mut engine = engine(None);
    let mut state = SharedState::default();
    engine.refresh_foreground(true, &mut state);
    let desired = engine.desired_hotkeys(&catalog());
    assert!(desired.specs.iter().all(|spec| spec.id < 2001));
}

#[test]
fn a_failed_registration_is_told() {
    let mut engine = engine(None);
    let mut state = SharedState::default();
    engine.refresh_foreground(true, &mut state);
    let desired = engine.desired_hotkeys(&catalog());
    assert!(engine.hotkeys_registered(desired, Some(text("taken")), &mut state));
    assert!(!state.hotkeys.armed);
    assert_eq!(state.hotkeys.detail, "taken");
}

#[test]
fn idle_ticks_prewarm_once() {
    let mut engine = engine(None);
    assert_eq!(engine.on_idle_tick(true), IdleAction::Prewarm);
    assert_eq!(engine.on_idle_tick(true), IdleAction::Nothing);
    assert_eq!(engine.on_idle_tick(false), IdleAction::Discard);
    let mut state = SharedState::default();
    engine.preset_action_ended(true, &mut state);
    assert_eq!(engine.on_idle_tick(true), IdleAction::Nothing);
}

#[test]
fn a_repeated_preset_modifier_is_refused() {
    let mut config = AppConfig::default();
    config.hotkey.modifiers = vec![HotkeyModifier::Alt, HotkeyModifier::Alt];
    assert!(matches!(Engine::new(&config, None), Err(HotkeyModifier::Alt)));
}

// ----- calls ----------------------------------------------------------------------------

#[test]
fn slots_are_called() {
    let engine = engine(Some(loadout()));
    let mut state = SharedState::default();
    let call = engine.call_slot(&catalog(), 0, &mut state).expect("call");
    assert_eq!(call.name, "A");
    assert_eq!(call.code, vec![Direction::Up, Direction::Left]);
    report_call(&call, None, &mut state);
    assert_eq!(state.status.text, "A  ↑←");
    report_call(&call, Some("no keyboard\ndetails"), &mut state);
    assert_eq!(state.status.text, "A: no keyboard");
    assert_eq!(state.status.tone, Tone::Error);
}

#[test]
fn calls_that_cannot_be_made() {
    let mut state = SharedState::default();
    let with = engine(Some(loadout()));
    assert!(with.call_slot(&catalog(), 1, &mut state).is_none());
    assert_eq!(state.status.tone, Tone::Warning);
    assert!(with.call_slot(&catalog(), 2, &mut state).is_none());
    assert_eq!(state.status.text, "C has no input code");
    assert!(with.call_slot(&catalog(), 3, &mut state).is_none());
    assert_eq!(state.status.text, "Unknown stratagem gone");
    assert!(engine(None).call_slot(&catalog(), 0, &mut state).is_none());
    assert_eq!(
        state.status.text,
        "No active loadout; save or apply a preset on the loadout screen first"
    );
    assert!(call_stratagem(&catalog(), "reinforce", &mut state).is_some());
}

// ----- preset hotkeys -------------------------------------------------------------------

#[test]
fn a_preset_hotkey_looks_at_the_screen_first() {
    let mut state = SharedState::default();
    let with = engine(Some(loadout()));
    assert_eq!(with.on_preset_hotkey(1, &mut state), PresetHotkeyStep::CheckScreen);
    assert_eq!(
        with.screen_checked(1, ScreenCheck::LoadoutHidden, &mut state),
        PresetHotkeyStep::CallSlot
    );
    assert!(matches!(
        with.screen_checked(1, ScreenCheck::Failed, &mut state),
        PresetHotkeyStep::AwaitRelease(_)
    ));
    assert_eq!(state.status.text, "preset_2: release the keys to continue");
    assert!(matches!(
        engine(None).on_preset_hotkey(0, &mut state),
        PresetHotkeyStep::AwaitRelease(_)
    ));
}

#[test]
fn a_released_hotkey_starts_the_action() {
    let mut state = SharedState::default();
    let mut engine = engine(None);
    engine.settings.auto_ready_up = true;
    let action = engine.release_awaited(2, true, false, &mut state).expect("action");
    assert_eq!(action.preset, "preset_3");
    assert!(action.auto_ready_up && state.busy);
    assert!(engine.release_awaited(2, false, true, &mut state).is_none());
    assert_eq!(state.status.text, "preset_3 cancelled: hotkey was not released in time");
    assert_eq!(preset_name(0), "preset_1");
}

#[test]
fn the_loadout_decides_what_a_preset_hotkey_does() {
    assert_eq!(decide_preset_action([true; 4]), PresetDecision::Save);
    assert_eq!(decide_preset_action([false; 4]), PresetDecision::Apply);
    assert_eq!(decide_preset_action([true, true, false, true]), PresetDecision::Reject);
}

#[test]
fn ids_follow_from_what_was_saved_and_seen() {
    let saved = ids([Some("a"), Some("b"), Some("c"), Some("d")]);
    let seen = ids([Some("d"), None, Some("a"), Some("b")]);
    assert_eq!(settle_ids(&saved, &seen, false), ids([Some("d"), Some("c"), Some("a"), Some("b")]));
    let unseen = ids([None, None, None, None]);
    assert_eq!(settle_ids(&saved, &unseen, true), saved);
    assert_eq!(allowed_ids(&saved).expect("ids").len(), 4);
    assert!(allowed_ids(&unseen).is_none());
    assert_eq!(
        four_ids(&vec![Some(text("a"))]),
        ids([Some("a"), None, None, None])
    );
}

#[test]
fn saved_and_applied_presets_become_active() {
    let mut state = SharedState::default();
    let mut engine = engine(None);
    engine.settings.labels.insert(text("preset_1"), text(" Bugs "));
    engine.finish_saved("preset_1", ids([Some("a"), Some("b"), None, None]), 9, &mut state);
    assert_eq!(
        state.status.text,
        "Saved preset_1 (Bugs); 2/4 stratagems identified. Set the rest in the window."
    );
    let all = ids([Some("a"), Some("b"), Some("c"), Some("d")]);
    engine.finish_applied("preset_1", &all, &all, 10, &mut state);
    assert_eq!(state.status.text, "Applied preset_1 (Bugs); slot hotkeys armed");
    let active = state.active_loadout.expect("active");
    assert_eq!(active.source, ActiveSource::Applied);
    assert_eq!(active.set_at_unix, 10);
}

#[test]
fn unsaved_presets_are_summarized() {
    let engine = engine(None);
    let summaries = engine.preset_summaries(&Ok(TextMap::new()), &TextMap::new());
    assert_eq!(summaries.len(), 4);
    assert_eq!(summaries[1].name, "preset_2");
    assert_eq!(summaries[1].hotkey_label, "Shift + F2");
    assert!(!summaries[1].saved);
    let summaries = engine.preset_summaries(&Err(text("broken")), &TextMap::new());
    assert_eq!(summaries[0].problem.as_deref(), Some("broken"));
}

// ----- commands -------------------------------------------------------------------------

#[test]
fn settings_go_to_the_configuration() {
    let mut state = SharedState::default();
    let mut engine = engine(None);
    let command = UiCommand::SetPresetFlag { key: text("auto_ready_up"), value: true };
    match engine.handle_command(&catalog(), command, &mut state) {
        CommandStep::Ask(FileRequest::EditConfig(edits), pending) => {
            assert!(matches!(&edits[0], ConfigEdit::SetBool { value: true, .. }));
            assert!(matches!(
                engine.resume_command(&catalog(), pending, FileReply::Done, 0, &mut state),
                CommandStep::Done(_)
            ));
        }
        _ => panic!("no request"),
    }
    assert!(engine.settings.auto_ready_up);
    engine.end_command(None, &mut state);
    assert!(state.settings.auto_ready_up);
}

#[test]
fn commands_that_fail_change_nothing() {
    let mut state = SharedState::default();
    let mut engine = engine(None);
    let mut failure = |command: UiCommand| match engine.handle_command(&catalog(), command, &mut state) {
        CommandStep::Failed(error) => error.message(),
        _ => panic!("accepted"),
    };
    assert_eq!(
        failure(UiCommand::SetPresetFlag { key: text("x"), value: true }),
        "unknown preset setting x"
    );
    assert_eq!(
        failure(UiCommand::SetLabel { preset: text("preset_1"), label: text("a\tb") }),
        "labels cannot contain control characters"
    );
    assert_eq!(
        failure(UiCommand::SetActiveSlot { slot: 0, id: None }),
        "there is no active loadout"
    );
    assert_eq!(failure(UiCommand::SetSlotKeys(vec![])), "exactly 4 slot keys are required");
    let input = StratagemInputSettings { key_hold_ms: 0, ..Default::default() };
    assert_eq!(
        failure(UiCommand::SetStratagemInput(input)),
        "mission.key_hold_ms must be greater than zero"
    );
    assert_eq!(
        failure(UiCommand::SetBinding { id: text("gone"), binding: None }),
        "unknown stratagem gone"
    );
}

#[test]
fn a_slot_of_the_active_loadout_is_corrected() {
    let mut state = SharedState::default();
    let mut engine = engine(Some(loadout()));
    let command = UiCommand::SetActiveSlot { slot: 1, id: Some(text("b")) };
    match engine.handle_command(&catalog(), command, &mut state) {
        CommandStep::Done(effects) => assert!(effects.save_active),
        _ => panic!("not done"),
    }
    assert_eq!(state.status.text, "Active slot 2 set to B");
    assert_eq!(state.active_loadout.expect("active").slot(1), Some("b"));
    let mut state = SharedState::default();
    match engine.handle_command(&catalog(), UiCommand::SetActiveSlot { slot: 9, id: None }, &mut state) {
        CommandStep::Failed(CommandError::NoSlot(9)) => {}
        _ => panic!("accepted"),
    }
}

#[test]
fn the_active_loadout_is_cleared() {
    let mut state = SharedState::default();
    let mut engine = engine(Some(loadout()));
    match engine.handle_command(&catalog(), UiCommand::ClearActive, &mut state) {
        CommandStep::Ask(FileRequest::ClearActive, pending) => {
            assert!(matches!(pending, PendingCommand::Clearing));
            engine.resume_command(&catalog(), pending, FileReply::Done, 0, &mut state);
        }
        _ => panic!("no request"),
    }
    assert!(engine.active.is_none());
    assert_eq!(state.status.text, "Active loadout cleared");
}

#[test]
fn failed_requests_fail_the_command() {
    let mut state = SharedState::default();
    let mut engine = engine(None);
    let command = UiCommand::DeletePreset { preset: text("preset_1") };
    match engine.handle_command(&catalog(), command, &mut state) {
        CommandStep::Ask(FileRequest::DeletePreset { preset }, pending) => {
            assert_eq!(preset, "preset_1");
            let reply = FileReply::Failed(text("denied"));
            match engine.resume_command(&catalog(), pending, reply, 0, &mut state) {
                CommandStep::Failed(error) => {
                    engine.end_command(Some(&error), &mut state);
                    assert_eq!(state.status.text, "denied");
                }
                _ => panic!("accepted"),
            }
        }
        _ => panic!("no request"),
    }
}

#[test]
fn exiting_is_a_command() {
    let mut state = SharedState::default();
    assert!(matches!(
        engine(None).handle_command(&catalog(), UiCommand::Exit, &mut state),
        CommandStep::Exit
    ));
    assert!(process_tray_event(TrayEvent::ExitRequested, &mut state));
    assert!(!process_tray_event(TrayEvent::ShowWindow, &mut state));
    assert!(state.show_window_requested);
    report_stopped("no display", &mut state);
    assert!(state.fatal_error.is_some());
}

// ----- events ---------------------------------------------------------------------------

#[test]
fn events_move_the_progress_on() {
    let mut state = SharedState::default();
    apply_event(
        &mut state,
        AppEvent::ListSelectionStarted { item_kind: ItemKind::Stratagem, requested_items: 4 },
    );
    assert_eq!(state.progress, Some((0, 4)));
    apply_event(&mut state, AppEvent::ItemSelected);
    assert_eq!(state.progress, Some((1, 4)));
    apply_event(
        &mut state,
        AppEvent::PresetDone { preset: text("preset_1"), completion: PresetCompletion::BoosterUnavailable },
    );
    assert_eq!(state.status.text, "preset_1: Booster already in use");
    assert_eq!(state.progress, None);
}

#[test]
fn each_event_says_what_it_means() {
    let mut state = SharedState::default();
    let mut told = |event: AppEvent| {
        apply_event(&mut state, event);
        (state.status.tone, state.status.text.clone(), state.progress)
    };
    let preset = || text("preset_2");
    assert_eq!(
        told(AppEvent::PresetStarted { preset: preset() }),
        (Tone::Working, text("Starting preset_2"), None)
    );
    assert_eq!(
        told(AppEvent::ListSelectionStarted { item_kind: ItemKind::Stratagem, requested_items: 2 }).2,
        Some((0, 2))
    );
    assert_eq!(
        told(AppEvent::UiStateDetected { state: text("list") }),
        (Tone::Working, text("Detected UI: list"), Some((0, 2)))
    );
    assert_eq!(
        told(AppEvent::PresetSaved {
            preset: preset(),
            stratagems: vec![text("a"), text("b")],
            booster: Some(text("c")),
        }),
        (Tone::Working, text("Saved preset_2: 2 stratagems + booster"), Some((0, 2)))
    );
    assert_eq!(
        told(AppEvent::PresetFailed { preset: preset(), error: text("lost\nmore") }),
        (Tone::Error, text("preset_2 failed: lost"), None)
    );
    assert_eq!(told(AppEvent::ItemSelected), (Tone::Working, text("Selected item"), None));
    assert_eq!(
        told(AppEvent::PresetCancelled { preset: preset(), reason: text("no") }),
        (Tone::Warning, text("preset_2 cancelled: no"), None)
    );
    assert_eq!(
        told(AppEvent::PresetDone {
            preset: preset(),
            completion: PresetCompletion::FallbackBoosterSaved { path: text("x.png") },
        }),
        (Tone::Success, text("preset_2: fallback Booster saved (x.png)"), None)
    );
}

#[test]
fn changes_in_the_window_reach_the_file() {
    const FILE: &str = "[presets]\n[hotkey]\n[mission]\n[window]\n";
    let mut state = SharedState::default();
    let mut engine = engine(None);
    let mut after = |file: &str, command: UiCommand| -> String {
        match engine.handle_command(&catalog(), command, &mut state) {
            CommandStep::Ask(FileRequest::EditConfig(edits), _) => {
                edit_config(file, FILE, &edits).ok().expect("edited")
            }
            _ => panic!("no request"),
        }
    };
    let item = |file: &str, path: &[&str]| -> Option<String> {
        let document: toml_edit::DocumentMut = file.parse().expect("TOML");
        let mut found = Some(document.as_item());
        for key in path {
            found = found.and_then(|item| item.get(key));
        }
        found.map(|item| item.to_string().trim().to_string())
    };

    let binding = HotkeyBinding::parse("ctrl+f5").ok().expect("binding");
    let file = after(FILE, UiCommand::SetBinding { id: text("reinforce"), binding: Some(binding) });
    let path = ["mission", "bindings", "reinforce"];
    assert_eq!(item(&file, &path).as_deref(), Some("\"ctrl+f5\""));
    let file = after(&file, UiCommand::SetBinding { id: text("reinforce"), binding: None });
    assert_eq!(item(&file, &path), None);

    let label = |label: &str| UiCommand::SetLabel { preset: text("preset_1"), label: text(label) };
    let file = after(&file, label(" Bugs "));
    assert_eq!(item(&file, &["presets", "labels", "preset_1"]).as_deref(), Some("\"Bugs\""));
    let file = after(&file, label("  "));
    assert_eq!(item(&file, &["presets", "labels", "preset_1"]), None);

    let file = after(&file, UiCommand::SetMissionEnabled(false));
    assert_eq!(item(&file, &["mission", "enabled"]).as_deref(), Some("false"));
    let mut input = StratagemInputSettings::default();
    input.direction_left = Key::Numpad4;
    input.key_gap_ms = 70;
    let file = after(&file, UiCommand::SetStratagemInput(input));
    assert_eq!(item(&file, &["mission", "direction_left"]).as_deref(), Some("\"numpad4\""));
    assert_eq!(item(&file, &["mission", "direction_up"]).as_deref(), Some("\"up\""));
    assert_eq!(item(&file, &["mission", "key_gap_ms"]).as_deref(), Some("70"));
    let flag = UiCommand::SetPresetFlag { key: text("auto_ready_up"), value: true };
    let file = after(&file, flag);
    assert_eq!(item(&file, &["presets", "auto_ready_up"]).as_deref(), Some("true"));
}

#[test]
fn a_taken_booster_may_be_replaced() {
    let action = |save_fallback_when_taken: bool| PresetAction {
        preset: text("preset_1"),
        apply_in_saved_order: true,
        auto_ready_up: true,
        save_fallback_when_taken,
    };
    let taken = BoosterApplyOutcome::Unavailable;
    assert_eq!(action(true).booster_follow_up(taken, false), BoosterFollowUp::AskForFallback);
    assert_eq!(action(true).booster_follow_up(taken, true), BoosterFollowUp::Unavailable);
    assert_eq!(action(false).booster_follow_up(taken, false), BoosterFollowUp::Unavailable);
    assert_eq!(
        action(false).booster_follow_up(BoosterApplyOutcome::Applied, false),
        BoosterFollowUp::Complete
    );
    assert!(action(false).readies_up(true, true));
    assert!(!action(false).readies_up(false, true));
    assert!(!action(false).readies_up(true, false));
}
