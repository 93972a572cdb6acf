//! The automation engine: what it knows, what it tells the window, and how it
//! answers commands, hotkeys and the outcome of its actions. Files, the screen
//! and the keyboard are the caller's.
use crate::active_loadout::{ActiveLoadout, ActiveLoadoutView};
use crate::app_state::{
    copy_bindings, copy_loadout, loadout_view, HotkeyStatus, HotkeyStatusView, LiveSettings,
    LiveSettingsView, SharedState, SharedStateView, StatusLine, StatusView, Tone,
};
use crate::config::{config_fault, AppConfig, AppConfigView};
use crate::input::{HotkeyModifier, HotkeyModifiers, Key};
use crate::text::{trim, trimmed, views};
use vstd::prelude::*;

pub mod calls;
pub mod commands;
pub mod hotkeys;
pub mod presets;

verus! {

/// What a hotkey does.
#[derive(Debug)]
pub enum HotkeyAction {
    Preset(usize),
    Slot(usize),
    Stratagem(String),
}

/// What a hotkey does, as a mathematical value.
pub enum HotkeyActionView {
    Preset(usize),
    Slot(usize),
    Stratagem(Seq<char>),
}

impl View for HotkeyAction {
    type V = HotkeyActionView;

    open spec fn view(&self) -> HotkeyActionView {
        match self {
            HotkeyAction::Preset(index) => HotkeyActionView::Preset(*index),
            HotkeyAction::Slot(index) => HotkeyActionView::Slot(*index),
            HotkeyAction::Stratagem(id) => HotkeyActionView::Stratagem(id@),
        }
    }
}

impl Clone for HotkeyAction {
    fn clone(&self) -> (r: HotkeyAction)
        ensures
            r@ == self@,
    {
        match self {
            HotkeyAction::Preset(index) => HotkeyAction::Preset(*index),
            HotkeyAction::Slot(index) => HotkeyAction::Slot(*index),
            HotkeyAction::Stratagem(id) => HotkeyAction::Stratagem(id.clone()),
        }
    }
}

/// Actions by hotkey id, as mathematical values.
pub open spec fn action_views(actions: Seq<(i32, HotkeyAction)>) -> Seq<(i32, HotkeyActionView)> {
    actions.map_values(|entry: (i32, HotkeyAction)| (entry.0, entry.1@))
}

/// Hotkey ids and labels, as mathematical values.
pub open spec fn signature_views(signature: Seq<(i32, String)>) -> Seq<(i32, Seq<char>)> {
    signature.map_values(|entry: (i32, String)| (entry.0, entry.1@))
}

/// The state of the automation engine.
pub struct Engine {
    pub preset_modifiers: HotkeyModifiers,
    pub preset_keys: Vec<Key>,
    pub settings: LiveSettings,
    pub active: Option<ActiveLoadout>,
    pub game_foreground: bool,
    /// Ids and labels of the registered hotkeys.
    pub registered: Vec<(i32, String)>,
    /// What the registered hotkeys do.
    pub actions: Vec<(i32, HotkeyAction)>,
    pub modifiers_were_down: bool,
    pub prewarm_suppressed: bool,
}

/// The state of the automation engine as a mathematical value.
#[verifier::ext_equal]
pub struct EngineView {
    pub preset_modifiers: HotkeyModifiers,
    pub preset_keys: Seq<Key>,
    pub settings: LiveSettingsView,
    pub active: Option<ActiveLoadoutView>,
    pub game_foreground: bool,
    pub registered: Seq<(i32, Seq<char>)>,
    pub actions: Seq<(i32, HotkeyActionView)>,
    pub modifiers_were_down: bool,
    pub prewarm_suppressed: bool,
}

impl View for Engine {
    type V = EngineView;

    open spec fn view(&self) -> EngineView {
        EngineView {
            preset_modifiers: self.preset_modifiers,
            preset_keys: self.preset_keys@,
            settings: self.settings@,
            active: loadout_view(self.active),
            game_foreground: self.game_foreground,
            registered: signature_views(self.registered@),
            actions: action_views(self.actions@),
            modifiers_were_down: self.modifiers_were_down,
            prewarm_suppressed: self.prewarm_suppressed,
        }
    }
}

impl EngineView {
    /// How a preset is shown: by its name, with its label where it has one.
    pub open spec fn display_name(self, name: Seq<char>) -> Seq<char> {
        if self.settings.labels.contains_key(name) && trim(self.settings.labels[name]).len() > 0 {
            name + " ("@ + trim(self.settings.labels[name]) + ")"@
        } else {
            name
        }
    }

    /// The engine has up to four preset keys and four slot keys, its input settings
    /// are valid, and an active loadout has four slots.
    pub open spec fn sound(self) -> bool {
        &&& self.preset_keys.len() <= 4
        &&& self.settings.slot_keys.len() == 4
        &&& self.settings.stratagem_input.problem() is None
        &&& self.active is Some ==> self.active->0.slots.len() == 4
    }
}

/// The labels of the preset hotkeys.
pub open spec fn hotkey_labels(modifiers: HotkeyModifiers, keys: Seq<Key>) -> Seq<Seq<char>> {
    keys.map_values(|key: Key| modifiers.label_text(key))
}

/// The live settings that a configuration starts with.
pub open spec fn initial_settings(config: AppConfigView, modifiers: HotkeyModifiers) -> LiveSettingsView {
    LiveSettingsView {
        apply_in_saved_order: config.presets.apply_in_saved_order,
        auto_ready_up: config.presets.auto_ready_up,
        save_fallback_when_taken: config.presets.save_fallback_when_taken,
        labels: config.presets.labels,
        preset_hotkey_labels: hotkey_labels(modifiers, config.hotkey.keys),
        mission_enabled: config.mission.enabled,
        slot_keys: config.mission.slot_keys,
        stratagem_input: config.mission.input_settings(),
        bindings: config.mission.bindings,
    }
}

fn copy_keys(keys: &Vec<Key>) -> (r: Vec<Key>)
    ensures
        r@ == keys@,
{
    let mut out: Vec<Key> = Vec::new();
    let mut i: usize = 0;
    while i < keys.len()
        invariant
            i <= keys@.len(),
            out@ == keys@.take(i as int),
        decreases keys@.len() - i,
    {
        out.push(keys[i]);
        i = i + 1;
    }
    out
}

fn copy_modifiers(list: &Vec<HotkeyModifier>) -> (r: Vec<HotkeyModifier>)
    ensures
        r@ == list@,
{
    let mut out: Vec<HotkeyModifier> = Vec::new();
    let mut i: usize = 0;
    while i < list.len()
        invariant
            i <= list@.len(),
            out@ == list@.take(i as int),
        decreases list@.len() - i,
    {
        out.push(list[i]);
        i = i + 1;
    }
    out
}

impl Engine {
    /// The engine for a configuration and the loadout that was active last. A
    /// modifier that is configured twice is refused.
    pub fn new(config: &AppConfig, active: Option<ActiveLoadout>) -> (r: Result<
        Engine,
        HotkeyModifier,
    >)
        ensures
            match HotkeyModifiers::collected(config.hotkey.modifiers@) {
                Ok(modifiers) => {
                    &&& r matches Ok(engine)
                    &&& engine@ == (EngineView {
                        preset_modifiers: modifiers,
                        preset_keys: config.hotkey.keys@,
                        settings: initial_settings(config@, modifiers),
                        active: loadout_view(active),
                        game_foreground: false,
                        registered: Seq::empty(),
                        actions: Seq::empty(),
                        modifiers_were_down: false,
                        prewarm_suppressed: false,
                    })
                    &&& engine.settings.bindings@ == config.mission.bindings@
                },
                Err(repeated) => r == Err::<Engine, HotkeyModifier>(repeated),
            },
    {
        let preset_modifiers = match HotkeyModifiers::new(copy_modifiers(&config.hotkey.modifiers)) {
            Ok(modifiers) => modifiers,
            Err(repeated) => {
                return Err(repeated);
            },
        };
        let keys = &config.hotkey.keys;
        let mut labels: Vec<String> = Vec::new();
        let ghost wanted = hotkey_labels(preset_modifiers, keys@);
        let mut i: usize = 0;
        while i < keys.len()
            invariant
                i <= keys@.len(),
                wanted == hotkey_labels(preset_modifiers, keys@),
                views(labels@) == wanted.take(i as int),
            decreases keys@.len() - i,
        {
            let ghost before = views(labels@);
            labels.push(preset_modifiers.label_with_key(keys[i]));
            assert(views(labels@) == before.push(preset_modifiers.label_text(keys@[i as int])));
            assert(wanted.take(i + 1) == wanted.take(i as int).push(wanted[i as int]));
            i = i + 1;
        }
        assert(wanted.take(wanted.len() as int) == wanted);
        let preset_labels = config.presets.labels.clone();
        let bindings = config.mission.bindings.clone();
        assert(preset_labels@ =~= config.presets.labels@);
        assert(bindings@ =~= config.mission.bindings@);
        let settings = LiveSettings {
            apply_in_saved_order: config.presets.apply_in_saved_order,
            auto_ready_up: config.presets.auto_ready_up,
            save_fallback_when_taken: config.presets.save_fallback_when_taken,
            labels: preset_labels,
            preset_hotkey_labels: labels,
            mission_enabled: config.mission.enabled,
            slot_keys: copy_bindings(&config.mission.slot_keys),
            stratagem_input: config.mission.stratagem_input(),
            bindings,
        };
        let engine = Engine {
            preset_modifiers,
            preset_keys: copy_keys(keys),
            settings,
            active,
            game_foreground: false,
            registered: Vec::new(),
            actions: Vec::new(),
            modifiers_were_down: false,
            prewarm_suppressed: false,
        };
        assert(engine@.registered =~= Seq::empty());
        assert(engine@.actions =~= Seq::empty());
        Ok(engine)
    }

    /// How a preset is shown: by its name, with its label where it has one.
    pub fn preset_display_name(&self, name: &str) -> (r: String)
        ensures
            r@ == self@.display_name(name@),
    {
        match self.settings.labels.get(name) {
            Some(label) => {
                let label = trimmed(label.as_str());
                if label.as_str().is_empty() {
                    name.to_string()
                } else {
                    let mut out = name.to_string();
                    out.push_str(" (");
                    out.push_str(label.as_str());
                    out.push_str(")");
                    out
                }
            },
            None => name.to_string(),
        }
    }

    /// Tells the window the settings.
    pub fn publish_settings(&self, state: &mut SharedState)
        ensures
            final(state)@ == (SharedStateView { settings: self@.settings, ..old(state)@ }),
    {
        state.settings = self.settings.clone();
    }

    /// Tells the window the active loadout.
    pub fn publish_active(&self, state: &mut SharedState)
        ensures
            final(state)@ == (SharedStateView { active_loadout: self@.active, ..old(state)@ }),
    {
        state.active_loadout = copy_loadout(&self.active);
    }

    /// Takes note of whether the game is the foreground window.
    pub fn refresh_foreground(&mut self, foreground: bool, state: &mut SharedState)
        ensures
            final(self)@ == (EngineView { game_foreground: foreground, ..old(self)@ }),
            final(self).settings.bindings@ == old(self).settings.bindings@,
            final(state)@ == (if foreground == old(self)@.game_foreground {
                old(state)@
            } else {
                SharedStateView { game_foreground: foreground, ..old(state)@ }
            }),
    {
        if foreground != self.game_foreground {
            self.game_foreground = foreground;
            state.game_foreground = foreground;
        }
    }
}

/// What the tray icon asks for.
#[derive(Debug, Clone, Copy, PartialEq, Eq, Structural)]
pub enum TrayEvent {
    ShowWindow,
    ExitRequested,
}

/// Answers the tray icon. Returns whether the tool should exit.
pub fn process_tray_event(event: TrayEvent, state: &mut SharedState) -> (r: bool)
    ensures
        r == (event == TrayEvent::ExitRequested),
        final(state)@ == (match event {
            TrayEvent::ShowWindow => SharedStateView { show_window_requested: true, ..old(state)@ },
            TrayEvent::ExitRequested => old(state)@,
        }),
{
    match event {
        TrayEvent::ShowWindow => {
            state.show_window_requested = true;
            false
        },
        TrayEvent::ExitRequested => true,
    }
}

/// Tells the window that the automation has stopped for good.
pub fn report_stopped(message: &str, state: &mut SharedState)
    ensures
        final(state)@ == (SharedStateView {
            fatal_error: Some(message@),
            status: StatusView { tone: Tone::Error, text: "Automation stopped"@ },
            hotkeys: HotkeyStatusView { armed: false, detail: "stopped"@ },
            ..old(state)@
        }),
{
    state.fatal_error = Some(message.to_string());
    state.status = StatusLine::new(Tone::Error, "Automation stopped");
    state.hotkeys = HotkeyStatus { armed: false, detail: "stopped".to_string() };
}

/// The engine of an accepted configuration is sound.
pub proof fn lemma_new_engine_sound(
    config: AppConfig,
    modifiers: HotkeyModifiers,
    engine: EngineView,
)
    requires
        config_fault(config) is None,
        engine.preset_keys == config.hotkey.keys@,
        engine.settings == initial_settings(config@, modifiers),
        engine.active is Some ==> engine.active->0.slots.len() == 4,
    ensures
        engine.sound(),
        engine.preset_keys.len() >= 1,
{
}

/// The engine starts with the settings of the configuration, each under its own name, and
/// with the labels of the preset hotkeys in the order of the keys.
pub proof fn lemma_initial_settings(config: AppConfigView, modifiers: HotkeyModifiers)
    ensures
        ({
            let settings = initial_settings(config, modifiers);
            &&& settings.apply_in_saved_order == config.presets.apply_in_saved_order
            &&& settings.auto_ready_up == config.presets.auto_ready_up
            &&& settings.save_fallback_when_taken == config.presets.save_fallback_when_taken
            &&& settings.labels == config.presets.labels
            &&& settings.mission_enabled == config.mission.enabled
            &&& settings.slot_keys == config.mission.slot_keys
            &&& settings.bindings == config.mission.bindings
            &&& settings.stratagem_input.menu_key == config.mission.menu_key
            &&& settings.stratagem_input.menu_mode == config.mission.menu_mode
            &&& settings.stratagem_input.menu_open_delay_ms == config.mission.menu_open_delay_ms
            &&& settings.stratagem_input.key_hold_ms == config.mission.key_hold_ms
            &&& settings.stratagem_input.key_gap_ms == config.mission.key_gap_ms
            &&& settings.stratagem_input.menu_release_delay_ms
                == config.mission.menu_release_delay_ms
            &&& settings.preset_hotkey_labels.len() == config.hotkey.keys.len()
            &&& forall|i: int|
                0 <= i < config.hotkey.keys.len() ==> #[trigger] settings.preset_hotkey_labels[i]
                    == modifiers.label_text(config.hotkey.keys[i])
        }),
{
}

/// A preset is shown by its name, followed by its label in brackets where it has one.
pub proof fn lemma_display_name(engine: EngineView, name: Seq<char>)
    ensures
        engine.settings.labels.contains_key(name) && trim(engine.settings.labels[name]).len() > 0
            ==> engine.display_name(name) == name + " ("@ + trim(engine.settings.labels[name])
            + ")"@,
        !engine.settings.labels.contains_key(name) || trim(engine.settings.labels[name]).len() == 0
            ==> engine.display_name(name) == name,
{
}

} // verus!
