//! State shared between the automation thread and the window, plus the
//! commands the window sends back.
use crate::active_loadout::{ActiveLoadout, ActiveLoadoutView};
use crate::ids::{copy_of, id_texts, option_text};
use crate::input::HotkeyBinding;
use crate::stratagem_input::StratagemInputSettings;
use crate::text::{copy_texts, views};
use crate::text_map::TextMap;
use vstd::prelude::*;

verus! {

/// How a status line is meant.
#[derive(Clone, Copy, Debug, PartialEq, Eq, Structural)]
pub enum Tone {
    Info,
    Working,
    Success,
    Warning,
    Error,
}

/// What the tool is doing, in one line.
#[derive(Debug)]
pub struct StatusLine {
    pub tone: Tone,
    pub text: String,
}

/// A status line as a mathematical value.
#[verifier::ext_equal]
pub struct StatusView {
    pub tone: Tone,
    pub text: Seq<char>,
}

impl View for StatusLine {
    type V = StatusView;

    open spec fn view(&self) -> StatusView {
        StatusView { tone: self.tone, text: self.text@ }
    }
}

impl Clone for StatusLine {
    fn clone(&self) -> (r: StatusLine)
        ensures
            r@ == self@,
    {
        StatusLine { tone: self.tone, text: self.text.clone() }
    }
}

impl StatusLine {
    pub fn new(tone: Tone, text: &str) -> (r: StatusLine)
        ensures
            r@ == (StatusView { tone, text: text@ }),
    {
        StatusLine { tone, text: text.to_string() }
    }
}

impl Default for StatusLine {
    fn default() -> (r: StatusLine)
        ensures
            r@ == (StatusView { tone: Tone::Info, text: "Starting"@ }),
    {
        StatusLine::new(Tone::Info, "Starting")
    }
}

/// A preset slot as the window shows it.
#[derive(Debug)]
pub struct PresetSummary {
    /// Internal name, e.g. `preset_1`.
    pub name: String,
    pub index: usize,
    pub hotkey_label: String,
    pub label: String,
    pub saved: bool,
    /// Catalog ids in saved order.
    pub stratagems: [Option<String>; 4],
    pub booster: bool,
    pub fallback_booster: bool,
    pub problem: Option<String>,
}

/// A preset summary as a mathematical value.
#[verifier::ext_equal]
pub struct PresetSummaryView {
    pub name: Seq<char>,
    pub index: usize,
    pub hotkey_label: Seq<char>,
    pub label: Seq<char>,
    pub saved: bool,
    pub stratagems: Seq<Option<Seq<char>>>,
    pub booster: bool,
    pub fallback_booster: bool,
    pub problem: Option<Seq<char>>,
}

impl View for PresetSummary {
    type V = PresetSummaryView;

    open spec fn view(&self) -> PresetSummaryView {
        PresetSummaryView {
            name: self.name@,
            index: self.index,
            hotkey_label: self.hotkey_label@,
            label: self.label@,
            saved: self.saved,
            stratagems: id_texts(self.stratagems@),
            booster: self.booster,
            fallback_booster: self.fallback_booster,
            problem: option_text(self.problem),
        }
    }
}

impl Clone for PresetSummary {
    fn clone(&self) -> (r: PresetSummary)
        ensures
            r@ == self@,
    {
        let r = PresetSummary {
            name: self.name.clone(),
            index: self.index,
            hotkey_label: self.hotkey_label.clone(),
            label: self.label.clone(),
            saved: self.saved,
            stratagems: [
                copy_of(&self.stratagems[0]),
                copy_of(&self.stratagems[1]),
                copy_of(&self.stratagems[2]),
                copy_of(&self.stratagems[3]),
            ],
            booster: self.booster,
            fallback_booster: self.fallback_booster,
            problem: copy_of(&self.problem),
        };
        assert(r@.stratagems =~= self@.stratagems);
        r
    }
}

impl Default for PresetSummary {
    fn default() -> (r: PresetSummary)
        ensures
            r@ == PresetSummaryView::blank(),
    {
        let r = PresetSummary {
            name: String::new(),
            index: 0,
            hotkey_label: String::new(),
            label: String::new(),
            saved: false,
            stratagems: [None, None, None, None],
            booster: false,
            fallback_booster: false,
            problem: None,
        };
        assert(r@.stratagems =~= PresetSummaryView::blank().stratagems);
        r
    }
}

impl PresetSummaryView {
    /// A summary that says nothing.
    pub open spec fn blank() -> PresetSummaryView {
        PresetSummaryView {
            name: Seq::empty(),
            index: 0,
            hotkey_label: Seq::empty(),
            label: Seq::empty(),
            saved: false,
            stratagems: seq![None, None, None, None],
            booster: false,
            fallback_booster: false,
            problem: None,
        }
    }
}

/// The summaries as mathematical values.
pub open spec fn summary_views(list: Seq<PresetSummary>) -> Seq<PresetSummaryView> {
    list.map_values(|summary: PresetSummary| summary@)
}

/// Whether the hotkeys are registered, and what to say about it.
#[derive(Debug)]
pub struct HotkeyStatus {
    pub armed: bool,
    pub detail: String,
}

/// A hotkey status as a mathematical value.
#[verifier::ext_equal]
pub struct HotkeyStatusView {
    pub armed: bool,
    pub detail: Seq<char>,
}

impl View for HotkeyStatus {
    type V = HotkeyStatusView;

    open spec fn view(&self) -> HotkeyStatusView {
        HotkeyStatusView { armed: self.armed, detail: self.detail@ }
    }
}

impl Clone for HotkeyStatus {
    fn clone(&self) -> (r: HotkeyStatus)
        ensures
            r@ == self@,
    {
        HotkeyStatus { armed: self.armed, detail: self.detail.clone() }
    }
}

impl Default for HotkeyStatus {
    fn default() -> (r: HotkeyStatus)
        ensures
            r@ == (HotkeyStatusView { armed: false, detail: Seq::empty() }),
    {
        HotkeyStatus { armed: false, detail: String::new() }
    }
}

/// The texts of a map.
pub open spec fn text_values(map: Map<Seq<char>, String>) -> Map<Seq<char>, Seq<char>> {
    map.map_values(|text: String| text@)
}

/// The settings that can change while the tool runs.
pub struct LiveSettings {
    pub apply_in_saved_order: bool,
    pub auto_ready_up: bool,
    pub save_fallback_when_taken: bool,
    pub labels: TextMap<String>,
    pub preset_hotkey_labels: Vec<String>,
    pub mission_enabled: bool,
    pub slot_keys: Vec<HotkeyBinding>,
    pub stratagem_input: StratagemInputSettings,
    pub bindings: TextMap<HotkeyBinding>,
}

/// Live settings as a mathematical value.
#[verifier::ext_equal]
pub struct LiveSettingsView {
    pub apply_in_saved_order: bool,
    pub auto_ready_up: bool,
    pub save_fallback_when_taken: bool,
    pub labels: Map<Seq<char>, Seq<char>>,
    pub preset_hotkey_labels: Seq<Seq<char>>,
    pub mission_enabled: bool,
    pub slot_keys: Seq<HotkeyBinding>,
    pub stratagem_input: StratagemInputSettings,
    pub bindings: Map<Seq<char>, HotkeyBinding>,
}

impl View for LiveSettings {
    type V = LiveSettingsView;

    open spec fn view(&self) -> LiveSettingsView {
        LiveSettingsView {
            apply_in_saved_order: self.apply_in_saved_order,
            auto_ready_up: self.auto_ready_up,
            save_fallback_when_taken: self.save_fallback_when_taken,
            labels: text_values(self.labels.map()),
            preset_hotkey_labels: views(self.preset_hotkey_labels@),
            mission_enabled: self.mission_enabled,
            slot_keys: self.slot_keys@,
            stratagem_input: self.stratagem_input,
            bindings: self.bindings.map(),
        }
    }
}

/// A copy of a list of bindings.
pub fn copy_bindings(list: &Vec<HotkeyBinding>) -> (r: Vec<HotkeyBinding>)
    ensures
        r@ == list@,
{
    let mut out: Vec<HotkeyBinding> = Vec::new();
    let mut i: usize = 0;
    while i < list.len()
        invariant
            i <= list@.len(),
            out@ == list@.take(i as int),
        decreases list@.len() - i,
    {
        out.push(list[i]);
        i = i + 1;
    }
    out
}

impl Clone for LiveSettings {
    fn clone(&self) -> (r: LiveSettings)
        ensures
            r@ == self@,
            r.bindings@ == self.bindings@,
    {
        let labels = self.labels.clone();
        let bindings = self.bindings.clone();
        assert(labels@ =~= self.labels@);
        assert(bindings@ =~= self.bindings@);
        LiveSettings {
            apply_in_saved_order: self.apply_in_saved_order,
            auto_ready_up: self.auto_ready_up,
            save_fallback_when_taken: self.save_fallback_when_taken,
            labels,
            preset_hotkey_labels: copy_texts(&self.preset_hotkey_labels),
            mission_enabled: self.mission_enabled,
            slot_keys: copy_bindings(&self.slot_keys),
            stratagem_input: self.stratagem_input,
            bindings,
        }
    }
}

impl LiveSettingsView {
    /// The settings before a configuration is loaded.
    pub open spec fn initial() -> LiveSettingsView {
        LiveSettingsView {
            apply_in_saved_order: false,
            auto_ready_up: false,
            save_fallback_when_taken: false,
            labels: Map::empty(),
            preset_hotkey_labels: Seq::empty(),
            mission_enabled: true,
            slot_keys: Seq::empty(),
            stratagem_input: StratagemInputSettings::defaults(),
            bindings: Map::empty(),
        }
    }
}

impl Default for LiveSettings {
    fn default() -> (r: LiveSettings)
        ensures
            r@ == LiveSettingsView::initial(),
    {
        let r = LiveSettings {
            apply_in_saved_order: false,
            auto_ready_up: false,
            save_fallback_when_taken: false,
            labels: TextMap::new(),
            preset_hotkey_labels: Vec::new(),
            mission_enabled: true,
            slot_keys: Vec::new(),
            stratagem_input: StratagemInputSettings::default(),
            bindings: TextMap::new(),
        };
        assert(r@.labels =~= LiveSettingsView::initial().labels);
        assert(r@.preset_hotkey_labels =~= LiveSettingsView::initial().preset_hotkey_labels);
        r
    }
}

/// What the automation thread tells the window.
pub struct SharedState {
    pub game_foreground: bool,
    pub busy: bool,
    pub status: StatusLine,
    /// Items selected so far during an apply, when known.
    pub progress: Option<(usize, usize)>,
    pub hotkeys: HotkeyStatus,
    pub active_loadout: Option<ActiveLoadout>,
    pub presets: Vec<PresetSummary>,
    pub settings: LiveSettings,
    pub fatal_error: Option<String>,
    pub show_window_requested: bool,
    pub exit_requested: bool,
}

/// The shared state as a mathematical value.
#[verifier::ext_equal]
pub struct SharedStateView {
    pub game_foreground: bool,
    pub busy: bool,
    pub status: StatusView,
    pub progress: Option<(usize, usize)>,
    pub hotkeys: HotkeyStatusView,
    pub active_loadout: Option<ActiveLoadoutView>,
    pub presets: Seq<PresetSummaryView>,
    pub settings: LiveSettingsView,
    pub fatal_error: Option<Seq<char>>,
    pub show_window_requested: bool,
    pub exit_requested: bool,
}

/// An optional loadout as a mathematical value.
pub open spec fn loadout_view(loadout: Option<ActiveLoadout>) -> Option<ActiveLoadoutView> {
    match loadout {
        Some(loadout) => Some(loadout@),
        None => None,
    }
}

/// A copy of an optional loadout.
pub fn copy_loadout(loadout: &Option<ActiveLoadout>) -> (r: Option<ActiveLoadout>)
    ensures
        loadout_view(r) == loadout_view(*loadout),
{
    match loadout {
        Some(loadout) => Some(loadout.clone()),
        None => None,
    }
}

impl View for SharedState {
    type V = SharedStateView;

    open spec fn view(&self) -> SharedStateView {
        SharedStateView {
            game_foreground: self.game_foreground,
            busy: self.busy,
            status: self.status@,
            progress: self.progress,
            hotkeys: self.hotkeys@,
            active_loadout: loadout_view(self.active_loadout),
            presets: summary_views(self.presets@),
            settings: self.settings@,
            fatal_error: option_text(self.fatal_error),
            show_window_requested: self.show_window_requested,
            exit_requested: self.exit_requested,
        }
    }
}

impl SharedStateView {
    /// The state with another status line and no progress.
    pub open spec fn with_status(self, tone: Tone, text: Seq<char>) -> SharedStateView {
        SharedStateView { status: StatusView { tone, text }, progress: None, ..self }
    }
}

impl Default for SharedState {
    fn default() -> (r: SharedState)
        ensures
            r@ == (SharedStateView {
                game_foreground: false,
                busy: false,
                status: StatusView { tone: Tone::Info, text: "Starting"@ },
                progress: None,
                hotkeys: HotkeyStatusView { armed: false, detail: Seq::empty() },
                active_loadout: None,
                presets: Seq::empty(),
                settings: LiveSettingsView::initial(),
                fatal_error: None,
                show_window_requested: false,
                exit_requested: false,
            }),
    {
        let r = SharedState {
            game_foreground: false,
            busy: false,
            status: StatusLine::default(),
            progress: None,
            hotkeys: HotkeyStatus::default(),
            active_loadout: None,
            presets: Vec::new(),
            settings: LiveSettings::default(),
            fatal_error: None,
            show_window_requested: false,
            exit_requested: false,
        };
        assert(r@.presets =~= Seq::empty());
        r
    }
}

impl SharedState {
    /// Replaces the status line and forgets the progress.
    pub fn set_status(&mut self, tone: Tone, text: &str)
        ensures
            final(self)@ == old(self)@.with_status(tone, text@),
    {
        self.status = StatusLine::new(tone, text);
        self.progress = None;
    }
}

/// What the window asks of the automation thread.
#[allow(inconsistent_fields)]
pub enum UiCommand {
    SetPresetFlag { key: String, value: bool },
    SetLabel { preset: String, label: String },
    SetPresetStratagem { preset: String, slot: usize, id: Option<String> },
    DeletePreset { preset: String },
    /// Re-run Stratagem identification on the captured icons of a preset.
    IdentifyPreset { preset: String },
    SetActiveFromPreset { preset: String },
    SetActiveSlot { slot: usize, id: Option<String> },
    ClearActive,
    SetMissionEnabled(bool),
    SetSlotKeys(Vec<HotkeyBinding>),
    SetStratagemInput(StratagemInputSettings),
    SetBinding { id: String, binding: Option<HotkeyBinding> },
    Exit,
}

} // verus!
