//! Commands from the window.
//!
//! A command is answered in steps. A step that needs a file asks for it and says
//! what is pending; the reply to the request brings the next step.
use super::{Engine, EngineView};
use crate::active_loadout::{ActiveLoadout, ActiveLoadoutView, ActiveSource};
use crate::app_state::{
    text_values, LiveSettings, LiveSettingsView, SharedState, SharedStateView, Tone, UiCommand,
};
use crate::catalog::{entry_with_id, Catalog};
use crate::config::MissionConfigView;
use crate::config_document::{
    after_edit, after_edits, edit_views, edits_bare, emptied_by, filled_items, lemma_keys_set,
    lemma_reads_exactly, lemma_set_key, lemma_set_nested, open_section, saved_as, sets_in, table_at, text_items, ConfigEdit,
    ConfigEditView, EditFault, TomlItem,
};
use crate::ids::{copy_of, id_texts, option_text};
use crate::input::{
    lemma_binding_round_trip, parsed_binding, BindingFaultView, HotkeyBinding, Key,
};
use crate::key::{key_named, lemma_key_round_trip};
use crate::preset::{preset_views, Preset, PresetView};
use crate::stratagem_input::{InputError, StratagemInputSettings};
use crate::text::{
    contains_control, decimal, has_control, ordinal_of, same_text, trim, trimmed, views,
};
use crate::text_map::TextMap;
use vstd::prelude::*;

verus! {

/// What a command asks of the files.
pub enum FileRequest {
    /// Edit the configuration file.
    EditConfig(Vec<ConfigEdit>),
    /// Override the id of one slot of a saved preset.
    SetPresetStratagem { preset: String, slot: usize, id: Option<String> },
    /// Record the ids of all slots of a saved preset.
    SetPresetStratagems { preset: String, ids: [Option<String>; 4] },
    /// Identify the captured icons of a saved preset.
    IdentifyPreset { preset: String },
    DeletePreset { preset: String },
    LoadPresets,
    /// Remove the file of the active loadout.
    ClearActive,
}

/// What a command asks of the files, as a mathematical value.
pub enum FileRequestView {
    EditConfig(Seq<ConfigEditView>),
    SetPresetStratagem { preset: Seq<char>, slot: usize, id: Option<Seq<char>> },
    SetPresetStratagems { preset: Seq<char>, ids: Seq<Option<Seq<char>>> },
    IdentifyPreset { preset: Seq<char> },
    DeletePreset { preset: Seq<char> },
    LoadPresets,
    ClearActive,
}

impl View for FileRequest {
    type V = FileRequestView;

    open spec fn view(&self) -> FileRequestView {
        match self {
            FileRequest::EditConfig(edits) => FileRequestView::EditConfig(edit_views(edits@)),
            FileRequest::SetPresetStratagem {
                preset,
                slot,
                id,
            } => FileRequestView::SetPresetStratagem {
                preset: preset@,
                slot: *slot,
                id: option_text(*id),
            },
            FileRequest::SetPresetStratagems {
                preset,
                ids,
            } => FileRequestView::SetPresetStratagems { preset: preset@, ids: id_texts(ids@) },
            FileRequest::IdentifyPreset { preset } => FileRequestView::IdentifyPreset {
                preset: preset@,
            },
            FileRequest::DeletePreset { preset } => FileRequestView::DeletePreset {
                preset: preset@,
            },
            FileRequest::LoadPresets => FileRequestView::LoadPresets,
            FileRequest::ClearActive => FileRequestView::ClearActive,
        }
    }
}

/// What became of a request.
pub enum FileReply {
    Done,
    Failed(String),
    /// The saved presets.
    Presets(TextMap<Preset>),
    /// The identified ids.
    Ids([Option<String>; 4]),
}

/// What a command goes on with once its request is answered.
pub enum PendingCommand {
    /// A setting is on its way to the configuration file.
    Setting { refresh_presets: bool, confirm_input: bool },
    /// The id of a slot of a saved preset is being written.
    SlotWrite { preset: String, slot: usize, id: Option<String> },
    /// A preset is being deleted.
    Deletion { preset: String },
    /// The loadout of a deleted preset is being cleared.
    DeletionClear { preset: String },
    /// The presets are being loaded, to make one of them active.
    Activation { preset: String },
    /// The active loadout is being cleared.
    Clearing,
    /// The icons of a preset are being identified.
    Identification { preset: String },
    /// Identified ids are being written.
    IdRecord,
}

/// What a command goes on with, as a mathematical value.
pub enum PendingView {
    Setting { refresh_presets: bool, confirm_input: bool },
    SlotWrite { preset: Seq<char>, slot: usize, id: Option<Seq<char>> },
    Deletion { preset: Seq<char> },
    DeletionClear { preset: Seq<char> },
    Activation { preset: Seq<char> },
    Clearing,
    Identification { preset: Seq<char> },
    IdRecord,
}

impl View for PendingCommand {
    type V = PendingView;

    open spec fn view(&self) -> PendingView {
        match self {
            PendingCommand::Setting { refresh_presets, confirm_input } => PendingView::Setting {
                refresh_presets: *refresh_presets,
                confirm_input: *confirm_input,
            },
            PendingCommand::SlotWrite { preset, slot, id } => PendingView::SlotWrite {
                preset: preset@,
                slot: *slot,
                id: option_text(*id),
            },
            PendingCommand::Deletion { preset } => PendingView::Deletion { preset: preset@ },
            PendingCommand::DeletionClear { preset } => PendingView::DeletionClear {
                preset: preset@,
            },
            PendingCommand::Activation { preset } => PendingView::Activation { preset: preset@ },
            PendingCommand::Clearing => PendingView::Clearing,
            PendingCommand::Identification { preset } => PendingView::Identification {
                preset: preset@,
            },
            PendingCommand::IdRecord => PendingView::IdRecord,
        }
    }
}

/// What is left to do when a command is through.
#[derive(Debug, Clone, Copy, PartialEq, Eq, Structural)]
pub struct Effects {
    /// Write the file of the active loadout.
    pub save_active: bool,
    /// Read the saved presets again for the window.
    pub refresh_presets: bool,
}

/// Why a command failed.
#[derive(Debug)]
pub enum CommandError {
    UnknownSetting(String),
    LabelControl,
    NotSaved(String),
    NoActive,
    NoSlot(usize),
    SlotKeyCount,
    Input(InputError),
    UnknownStratagem(String),
    /// What was asked of the files failed.
    Outside(String),
}

impl CommandError {
    /// The message shown to the user.
    pub open spec fn message_text(self) -> Seq<char> {
        match self {
            CommandError::UnknownSetting(key) => unknown_setting_text(key@),
            CommandError::LabelControl => "labels cannot contain control characters"@,
            CommandError::NotSaved(preset) => preset@ + " is not saved"@,
            CommandError::NoActive => "there is no active loadout"@,
            CommandError::NoSlot(slot) => no_slot_text(slot as nat),
            CommandError::SlotKeyCount => "exactly 4 slot keys are required"@,
            CommandError::Input(error) => error.message_text(),
            CommandError::UnknownStratagem(id) => unknown_stratagem_text(id@),
            CommandError::Outside(message) => message@,
        }
    }

    /// The message shown to the user.
    pub fn message(&self) -> (r: String)
        ensures
            r@ == self.message_text(),
    {
        match self {
            CommandError::UnknownSetting(key) => {
                let mut out = "unknown preset setting ".to_string();
                out.push_str(key.as_str());
                out
            },
            CommandError::LabelControl => "labels cannot contain control characters".to_string(),
            CommandError::NotSaved(preset) => {
                let mut out = preset.clone();
                out.push_str(" is not saved");
                out
            },
            CommandError::NoActive => "there is no active loadout".to_string(),
            CommandError::NoSlot(slot) => {
                let mut out = "slot ".to_string();
                out.push_str(ordinal_of(*slot).as_str());
                out.push_str(" does not exist");
                out
            },
            CommandError::SlotKeyCount => "exactly 4 slot keys are required".to_string(),
            CommandError::Input(error) => error.message(),
            CommandError::UnknownStratagem(id) => {
                let mut out = "unknown stratagem ".to_string();
                out.push_str(id.as_str());
                out
            },
            CommandError::Outside(message) => message.clone(),
        }
    }
}

pub open spec fn unknown_setting_text(key: Seq<char>) -> Seq<char> {
    "unknown preset setting "@ + key
}

pub open spec fn no_slot_text(slot: nat) -> Seq<char> {
    "slot "@ + decimal(slot + 1) + " does not exist"@
}

pub open spec fn unknown_stratagem_text(id: Seq<char>) -> Seq<char> {
    "unknown stratagem "@ + id
}

/// How far a command is.
pub enum CommandStep {
    /// The tool should exit.
    Exit,
    Done(Effects),
    Failed(CommandError),
    Ask(FileRequest, PendingCommand),
}

/// How far a command is, as a mathematical value. A failure is told by its
/// message.
pub enum CommandStepView {
    Exit,
    Done(Effects),
    Failed(Seq<char>),
    Ask(FileRequestView, PendingView),
}

impl View for CommandStep {
    type V = CommandStepView;

    open spec fn view(&self) -> CommandStepView {
        match self {
            CommandStep::Exit => CommandStepView::Exit,
            CommandStep::Done(effects) => CommandStepView::Done(*effects),
            CommandStep::Failed(error) => CommandStepView::Failed(error.message_text()),
            CommandStep::Ask(request, pending) => CommandStepView::Ask(request@, pending@),
        }
    }
}

/// The engine, the shared state and the step that a command or a reply leads to.
pub struct Outcome {
    pub engine: EngineView,
    pub state: SharedStateView,
    pub step: CommandStepView,
}

// ----- what a command means ------------------------------------------------------

pub open spec fn set_text(section: Seq<char>, key: Seq<char>, value: Seq<char>) -> ConfigEditView {
    ConfigEditView::SetKey { section, key, item: TomlItem::Text(value) }
}

pub open spec fn set_number(section: Seq<char>, key: Seq<char>, value: u64) -> ConfigEditView {
    ConfigEditView::SetKey { section, key, item: TomlItem::Integer((value as i64) as int) }
}

pub open spec fn set_flag(section: Seq<char>, key: Seq<char>, value: bool) -> ConfigEditView {
    ConfigEditView::SetKey { section, key, item: TomlItem::Bool(value) }
}

/// The edits that write input settings to the configuration.
pub open spec fn input_edits(input: StratagemInputSettings) -> Seq<ConfigEditView> {
    seq![
        set_text("mission"@, "menu_key"@, input.menu_key.config_text()),
        set_text("mission"@, "menu_mode"@, input.menu_mode.config_text()),
        set_text("mission"@, "direction_up"@, input.direction_up.config_text()),
        set_text("mission"@, "direction_down"@, input.direction_down.config_text()),
        set_text("mission"@, "direction_left"@, input.direction_left.config_text()),
        set_text("mission"@, "direction_right"@, input.direction_right.config_text()),
        set_number("mission"@, "menu_open_delay_ms"@, input.menu_open_delay_ms),
        set_number("mission"@, "key_hold_ms"@, input.key_hold_ms),
        set_number("mission"@, "key_gap_ms"@, input.key_gap_ms),
        set_number("mission"@, "menu_release_delay_ms"@, input.menu_release_delay_ms),
    ]
}

/// The texts that slot keys are written as.
pub open spec fn binding_texts(keys: Seq<HotkeyBinding>) -> Seq<Seq<char>> {
    keys.map_values(|binding: HotkeyBinding| binding.config_text())
}

/// The settings with one of the preset options changed, or `None` when there is no
/// such option.
pub open spec fn with_preset_flag(settings: LiveSettingsView, key: Seq<char>, value: bool) -> Option<
    LiveSettingsView,
> {
    if key == "apply_in_saved_order"@ {
        Some(LiveSettingsView { apply_in_saved_order: value, ..settings })
    } else if key == "auto_ready_up"@ {
        Some(LiveSettingsView { auto_ready_up: value, ..settings })
    } else if key == "save_fallback_when_taken"@ {
        Some(LiveSettingsView { save_fallback_when_taken: value, ..settings })
    } else {
        None
    }
}

/// The settings with the label of a preset changed. An empty label is none.
pub open spec fn with_label(settings: LiveSettingsView, preset: Seq<char>, label: Seq<char>) -> LiveSettingsView {
    LiveSettingsView {
        labels: if label.len() == 0 {
            settings.labels.remove(preset)
        } else {
            settings.labels.insert(preset, label)
        },
        ..settings
    }
}

/// The settings with the hotkey of a mission Stratagem changed.
pub open spec fn with_binding(
    settings: LiveSettingsView,
    id: Seq<char>,
    binding: Option<HotkeyBinding>,
) -> LiveSettingsView {
    LiveSettingsView {
        bindings: match binding {
            Some(binding) => settings.bindings.insert(id, binding),
            None => settings.bindings.remove(id),
        },
        ..settings
    }
}

/// A loadout with the id of one slot replaced.
pub open spec fn with_slot(loadout: ActiveLoadoutView, slot: int, id: Option<Seq<char>>) -> ActiveLoadoutView {
    ActiveLoadoutView { slots: loadout.slots.update(slot, id), ..loadout }
}

/// The name of what a slot is set to.
pub open spec fn slot_choice_text(catalog: Catalog, id: Option<Seq<char>>) -> Seq<char> {
    match id {
        Some(id) => catalog.name_text(id),
        None => "unknown"@,
    }
}

/// A setting on its way to the configuration file.
pub open spec fn ask_edit(
    edits: Seq<ConfigEditView>,
    refresh_presets: bool,
    confirm_input: bool,
) -> CommandStepView {
    CommandStepView::Ask(
        FileRequestView::EditConfig(edits),
        PendingView::Setting { refresh_presets, confirm_input },
    )
}

/// What changing one of the preset options does: the settings afterwards, and the
/// step.
#[verifier::opaque]
pub open spec fn flag_step(settings: LiveSettingsView, key: Seq<char>, value: bool) -> (
    LiveSettingsView,
    CommandStepView,
) {
    match with_preset_flag(settings, key, value) {
        Some(changed) => (changed, ask_edit(seq![set_flag("presets"@, key, value)], false, false)),
        None => (settings, CommandStepView::Failed(unknown_setting_text(key))),
    }
}

/// What changing the label of a preset does: the settings afterwards, and the
/// step.
#[verifier::opaque]
pub open spec fn label_step(settings: LiveSettingsView, preset: Seq<char>, label: Seq<char>) -> (
    LiveSettingsView,
    CommandStepView,
) {
    if has_control(trim(label)) {
        (settings, CommandStepView::Failed("labels cannot contain control characters"@))
    } else {
        (
            with_label(settings, preset, trim(label)),
            ask_edit(
                seq![
                    ConfigEditView::SetNested {
                        section: "presets"@,
                        table: "labels"@,
                        key: preset,
                        value: if trim(label).len() == 0 {
                            None
                        } else {
                            Some(trim(label))
                        },
                    },
                ],
                true,
                false,
            ),
        )
    }
}

/// What switching the mission hotkeys on or off does.
#[verifier::opaque]
pub open spec fn mission_step(settings: LiveSettingsView, enabled: bool) -> (
    LiveSettingsView,
    CommandStepView,
) {
    (
        LiveSettingsView { mission_enabled: enabled, ..settings },
        ask_edit(seq![set_flag("mission"@, "enabled"@, enabled)], false, false),
    )
}

/// What changing the slot keys does.
#[verifier::opaque]
pub open spec fn slot_keys_step(settings: LiveSettingsView, keys: Seq<HotkeyBinding>) -> (
    LiveSettingsView,
    CommandStepView,
) {
    if keys.len() != 4 {
        (settings, CommandStepView::Failed("exactly 4 slot keys are required"@))
    } else {
        (
            LiveSettingsView { slot_keys: keys, ..settings },
            ask_edit(
                seq![
                    ConfigEditView::SetKey {
                        section: "mission"@,
                        key: "slot_keys"@,
                        item: TomlItem::Texts(binding_texts(keys)),
                    },
                ],
                false,
                false,
            ),
        )
    }
}

/// What changing the input settings does.
#[verifier::opaque]
pub open spec fn input_step(settings: LiveSettingsView, input: StratagemInputSettings) -> (
    LiveSettingsView,
    CommandStepView,
) {
    match input.problem() {
        Some(error) => (settings, CommandStepView::Failed(error.message_text())),
        None => (
            LiveSettingsView { stratagem_input: input, ..settings },
            ask_edit(input_edits(input), false, true),
        ),
    }
}

/// What changing the hotkey of a mission Stratagem does.
#[verifier::opaque]
pub open spec fn binding_step(
    settings: LiveSettingsView,
    catalog: Catalog,
    id: Seq<char>,
    binding: Option<HotkeyBinding>,
) -> (LiveSettingsView, CommandStepView) {
    if entry_with_id(catalog.list(), id) is None {
        (settings, CommandStepView::Failed(unknown_stratagem_text(id)))
    } else {
        (
            with_binding(settings, id, binding),
            ask_edit(
                seq![
                    ConfigEditView::SetNested {
                        section: "mission"@,
                        table: "bindings"@,
                        key: id,
                        value: match binding {
                            Some(binding) => Some(binding.config_text()),
                            None => None,
                        },
                    },
                ],
                false,
                false,
            ),
        )
    }
}

/// A command that concerns the settings alone.
pub open spec fn settings_outcome(
    engine: EngineView,
    state: SharedStateView,
    step: (LiveSettingsView, CommandStepView),
) -> Outcome {
    Outcome { engine: EngineView { settings: step.0, ..engine }, state, step: step.1 }
}

/// What setting a slot of the active loadout by hand does.
#[verifier::opaque]
pub open spec fn active_slot_set(
    engine: EngineView,
    state: SharedStateView,
    catalog: Catalog,
    slot: usize,
    id: Option<Seq<char>>,
) -> Outcome {
    match engine.active {
        None => command_failed(engine, state, "there is no active loadout"@),
        Some(active) => if slot >= active.slots.len() {
            command_failed(engine, state, no_slot_text(slot as nat))
        } else {
            let changed = ActiveLoadoutView {
                source: ActiveSource::Manual,
                ..with_slot(active, slot as int, id)
            };
            command_done(
                EngineView { active: Some(changed), ..engine },
                (SharedStateView { active_loadout: Some(changed), ..state }).with_status(
                    Tone::Info,
                    "Active slot "@ + decimal((slot + 1) as nat) + " set to "@ + slot_choice_text(
                        catalog,
                        id,
                    ),
                ),
                true,
                false,
            )
        },
    }
}

/// Nothing changed, and the command failed.
pub open spec fn command_failed(
    engine: EngineView,
    state: SharedStateView,
    message: Seq<char>,
) -> Outcome {
    Outcome { engine, state, step: CommandStepView::Failed(message) }
}

/// A command that asks for a file before anything else.
pub open spec fn asked(
    engine: EngineView,
    state: SharedStateView,
    request: FileRequestView,
    pending: PendingView,
) -> Outcome {
    Outcome { engine, state, step: CommandStepView::Ask(request, pending) }
}

/// What a command does first.
pub open spec fn command_begun(
    engine: EngineView,
    state: SharedStateView,
    catalog: Catalog,
    command: UiCommand,
) -> Outcome {
    match command {
        UiCommand::SetPresetFlag { key, value } => settings_outcome(
            engine,
            state,
            flag_step(engine.settings, key@, value),
        ),
        UiCommand::SetLabel { preset, label } => settings_outcome(
            engine,
            state,
            label_step(engine.settings, preset@, label@),
        ),
        UiCommand::SetPresetStratagem { preset, slot, id } => asked(
            engine,
            state,
            FileRequestView::SetPresetStratagem { preset: preset@, slot, id: option_text(id) },
            PendingView::SlotWrite { preset: preset@, slot, id: option_text(id) },
        ),
        UiCommand::DeletePreset { preset } => asked(
            engine,
            state,
            FileRequestView::DeletePreset { preset: preset@ },
            PendingView::Deletion { preset: preset@ },
        ),
        UiCommand::IdentifyPreset { preset } => asked(
            engine,
            state,
            FileRequestView::IdentifyPreset { preset: preset@ },
            PendingView::Identification { preset: preset@ },
        ),
        UiCommand::SetActiveFromPreset { preset } => asked(
            engine,
            state,
            FileRequestView::LoadPresets,
            PendingView::Activation { preset: preset@ },
        ),
        UiCommand::SetActiveSlot { slot, id } => active_slot_set(
            engine,
            state,
            catalog,
            slot,
            option_text(id),
        ),
        UiCommand::ClearActive => asked(
            EngineView { active: None, ..engine },
            state,
            FileRequestView::ClearActive,
            PendingView::Clearing,
        ),
        UiCommand::SetMissionEnabled(enabled) => settings_outcome(
            engine,
            state,
            mission_step(engine.settings, enabled),
        ),
        UiCommand::SetSlotKeys(keys) => settings_outcome(
            engine,
            state,
            slot_keys_step(engine.settings, keys@),
        ),
        UiCommand::SetStratagemInput(input) => settings_outcome(
            engine,
            state,
            input_step(engine.settings, input),
        ),
        UiCommand::SetBinding { id, binding } => settings_outcome(
            engine,
            state,
            binding_step(engine.settings, catalog, id@, binding),
        ),
        UiCommand::Exit => Outcome { engine, state, step: CommandStepView::Exit },
    }
}

/// A command that is through.
pub open spec fn command_done(
    engine: EngineView,
    state: SharedStateView,
    save_active: bool,
    refresh_presets: bool,
) -> Outcome {
    Outcome {
        engine,
        state,
        step: CommandStepView::Done(Effects { save_active, refresh_presets }),
    }
}

/// A slot of a saved preset was set: the active loadout follows when it came from
/// that preset.
pub open spec fn slot_written(
    engine: EngineView,
    state: SharedStateView,
    catalog: Catalog,
    preset: Seq<char>,
    slot: usize,
    id: Option<Seq<char>>,
) -> Outcome {
    let text = engine.display_name(preset) + ": slot "@ + decimal((slot + 1) as nat) + " set to "@
        + slot_choice_text(catalog, id);
    match engine.active {
        Some(active) if active.preset == preset && slot < active.slots.len() => {
            let changed = with_slot(active, slot as int, id);
            command_done(
                EngineView { active: Some(changed), ..engine },
                (SharedStateView { active_loadout: Some(changed), ..state }).with_status(
                    Tone::Info,
                    text,
                ),
                true,
                true,
            )
        },
        _ => command_done(engine, state.with_status(Tone::Info, text), false, true),
    }
}

/// A preset was deleted, and what was active because of it is cleared.
pub open spec fn deletion_through(
    engine: EngineView,
    state: SharedStateView,
    preset: Seq<char>,
) -> Outcome {
    command_done(
        engine,
        state.with_status(Tone::Info, "Deleted "@ + engine.display_name(preset)),
        false,
        true,
    )
}

/// The outcome of a step.
pub open spec fn outcome(engine: Engine, state: SharedStateView, step: CommandStep) -> Outcome {
    Outcome { engine: engine@, state, step: step@ }
}

/// What comes after a preset was deleted.
pub open spec fn preset_deleted(
    engine: EngineView,
    state: SharedStateView,
    preset: Seq<char>,
) -> Outcome {
    match engine.active {
        Some(active) if active.preset == preset => Outcome {
            engine: EngineView { active: None, ..engine },
            state,
            step: CommandStepView::Ask(
                FileRequestView::ClearActive,
                PendingView::DeletionClear { preset },
            ),
        },
        _ => deletion_through(engine, state, preset),
    }
}

/// One of the saved presets is made active.
pub open spec fn activated(
    engine: EngineView,
    state: SharedStateView,
    preset: Seq<char>,
    presets: Map<Seq<char>, PresetView>,
    now: u64,
) -> Outcome {
    if !presets.contains_key(preset) {
        command_failed(engine, state, preset + " is not saved"@)
    } else {
        let loadout = ActiveLoadoutView {
            preset,
            slots: presets[preset].ids(),
            source: ActiveSource::Manual,
            set_at_unix: now,
        };
        command_done(
            EngineView { active: Some(loadout), ..engine },
            (SharedStateView { active_loadout: Some(loadout), ..state }).with_status(
                Tone::Info,
                "Active loadout set to "@ + engine.display_name(preset),
            ),
            true,
            false,
        )
    }
}

/// A reply that the pending command can have.
pub open spec fn reply_fits(pending: PendingCommand, reply: FileReply) -> bool {
    match reply {
        FileReply::Failed(_) => true,
        FileReply::Presets(_) => pending is Activation,
        FileReply::Ids(_) => pending is Identification,
        FileReply::Done => !(pending is Activation || pending is Identification),
    }
}

/// What a reply does for a pending command, at `now` seconds after the Unix epoch.
pub open spec fn command_resumed(
    engine: EngineView,
    state: SharedStateView,
    catalog: Catalog,
    pending: PendingCommand,
    reply: FileReply,
    now: u64,
) -> Outcome {
    match reply {
        FileReply::Failed(message) => command_failed(engine, state, message@),
        FileReply::Presets(presets) => match pending {
            PendingCommand::Activation { preset } => activated(
                engine,
                state,
                preset@,
                preset_views(presets.map()),
                now,
            ),
            _ => command_done(engine, state, false, false),
        },
        FileReply::Ids(ids) => match pending {
            PendingCommand::Identification { preset } => Outcome {
                engine,
                state,
                step: CommandStepView::Ask(
                    FileRequestView::SetPresetStratagems { preset: preset@, ids: id_texts(ids@) },
                    PendingView::IdRecord,
                ),
            },
            _ => command_done(engine, state, false, false),
        },
        FileReply::Done => match pending {
            PendingCommand::Setting { refresh_presets, confirm_input } => command_done(
                engine,
                if confirm_input {
                    state.with_status(Tone::Info, "Stratagem input settings saved"@)
                } else {
                    state
                },
                false,
                refresh_presets,
            ),
            PendingCommand::SlotWrite { preset, slot, id } => slot_written(
                engine,
                state,
                catalog,
                preset@,
                slot,
                option_text(id),
            ),
            PendingCommand::Deletion { preset } => preset_deleted(engine, state, preset@),
            PendingCommand::DeletionClear { preset } => deletion_through(
                engine,
                SharedStateView { active_loadout: engine.active, ..state },
                preset@,
            ),
            PendingCommand::Clearing => command_done(
                engine,
                (SharedStateView { active_loadout: engine.active, ..state }).with_status(
                    Tone::Info,
                    "Active loadout cleared"@,
                ),
                false,
                false,
            ),
            PendingCommand::IdRecord => command_done(engine, state, false, true),
            PendingCommand::Activation { .. } => command_done(engine, state, false, false),
            PendingCommand::Identification { .. } => command_done(engine, state, false, false),
        },
    }
}

// ----- carrying commands out -------------------------------------------------------

fn one_edit(edit: ConfigEdit) -> (r: Vec<ConfigEdit>)
    ensures
        edit_views(r@) == seq![edit@],
{
    let mut edits: Vec<ConfigEdit> = Vec::new();
    edits.push(edit);
    assert(edit_views(edits@) =~= seq![edit@]);
    edits
}

fn mission_text(key: &str, value: &str) -> (r: ConfigEdit)
    ensures
        r@ == set_text("mission"@, key@, value@),
{
    ConfigEdit::SetString {
        section: "mission".to_string(),
        key: key.to_string(),
        value: value.to_string(),
    }
}

fn mission_number(key: &str, value: u64) -> (r: ConfigEdit)
    ensures
        r@ == set_number("mission"@, key@, value),
{
    ConfigEdit::SetInteger { section: "mission".to_string(), key: key.to_string(), value }
}

/// The edits that write input settings to the configuration.
fn edits_for_input(input: &StratagemInputSettings) -> (r: Vec<ConfigEdit>)
    ensures
        edit_views(r@) == input_edits(*input),
{
    let mut edits: Vec<ConfigEdit> = Vec::new();
    edits.push(mission_text("menu_key", input.menu_key.config_name()));
    edits.push(mission_text("menu_mode", input.menu_mode.config_name()));
    edits.push(mission_text("direction_up", input.direction_up.config_name()));
    edits.push(mission_text("direction_down", input.direction_down.config_name()));
    edits.push(mission_text("direction_left", input.direction_left.config_name()));
    edits.push(mission_text("direction_right", input.direction_right.config_name()));
    edits.push(mission_number("menu_open_delay_ms", input.menu_open_delay_ms));
    edits.push(mission_number("key_hold_ms", input.key_hold_ms));
    edits.push(mission_number("key_gap_ms", input.key_gap_ms));
    edits.push(mission_number("menu_release_delay_ms", input.menu_release_delay_ms));
    assert(edit_views(edits@) =~= input_edits(*input));
    edits
}

fn texts_of_bindings(keys: &Vec<HotkeyBinding>) -> (r: Vec<String>)
    ensures
        views(r@) == binding_texts(keys@),
{
    let mut texts: Vec<String> = Vec::new();
    let ghost wanted = binding_texts(keys@);
    let mut i: usize = 0;
    while i < keys.len()
        invariant
            i <= keys@.len(),
            wanted == binding_texts(keys@),
            views(texts@) == wanted.take(i as int),
        decreases keys@.len() - i,
    {
        let ghost before = views(texts@);
        texts.push(keys[i].config_string());
        assert(views(texts@) == before.push(keys@[i as int].config_text()));
        assert(wanted.take(i + 1) == wanted.take(i as int).push(wanted[i as int]));
        i = i + 1;
    }
    assert(wanted.take(wanted.len() as int) == wanted);
    texts
}

fn choice_name(catalog: &Catalog, id: &Option<String>) -> (r: String)
    ensures
        r@ == slot_choice_text(*catalog, option_text(*id)),
{
    match id {
        Some(id) => catalog.name_of(id.as_str()),
        None => "unknown".to_string(),
    }
}

fn setting(edits: Vec<ConfigEdit>, refresh_presets: bool, confirm_input: bool) -> (r: CommandStep)
    ensures
        r@ == ask_edit(edit_views(edits@), refresh_presets, confirm_input),
{
    CommandStep::Ask(
        FileRequest::EditConfig(edits),
        PendingCommand::Setting { refresh_presets, confirm_input },
    )
}

fn change_flag(settings: &mut LiveSettings, key: String, value: bool) -> (r: CommandStep)
    ensures
        (final(settings)@, r@) == flag_step(old(settings)@, key@, value),
{
    proof {
        reveal(flag_step);
    }
    if same_text(key.as_str(), "apply_in_saved_order") {
        settings.apply_in_saved_order = value;
    } else if same_text(key.as_str(), "auto_ready_up") {
        settings.auto_ready_up = value;
    } else if same_text(key.as_str(), "save_fallback_when_taken") {
        settings.save_fallback_when_taken = value;
    } else {
        return CommandStep::Failed(CommandError::UnknownSetting(key));
    }
    setting(
        one_edit(ConfigEdit::SetBool { section: "presets".to_string(), key, value }),
        false,
        false,
    )
}

fn change_label(settings: &mut LiveSettings, preset: String, label: String) -> (r: CommandStep)
    ensures
        (final(settings)@, r@) == label_step(old(settings)@, preset@, label@),
{
    proof {
        reveal(label_step);
    }
    let text = trimmed(label.as_str());
    if contains_control(text.as_str()) {
        return CommandStep::Failed(CommandError::LabelControl);
    }
    let ghost before = settings.labels.map();
    let mut value: Option<String> = None;
    if text.as_str().is_empty() {
        let _ = settings.labels.remove(preset.as_str());
        assert(text_values(before.remove(preset@)) =~= text_values(before).remove(preset@));
    } else {
        value = Some(text.clone());
        let ghost added = text;
        settings.labels.insert(preset.clone(), text);
        assert(text_values(before.insert(preset@, added)) =~= text_values(before).insert(
            preset@,
            added@,
        ));
    }
    setting(
        one_edit(
            ConfigEdit::SetNestedString {
                section: "presets".to_string(),
                table: "labels".to_string(),
                key: preset,
                value,
            },
        ),
        true,
        false,
    )
}

fn change_mission(settings: &mut LiveSettings, enabled: bool) -> (r: CommandStep)
    ensures
        (final(settings)@, r@) == mission_step(old(settings)@, enabled),
{
    proof {
        reveal(mission_step);
    }
    settings.mission_enabled = enabled;
    setting(
        one_edit(
            ConfigEdit::SetBool {
                section: "mission".to_string(),
                key: "enabled".to_string(),
                value: enabled,
            },
        ),
        false,
        false,
    )
}

fn change_slot_keys(settings: &mut LiveSettings, keys: Vec<HotkeyBinding>) -> (r: CommandStep)
    ensures
        (final(settings)@, r@) == slot_keys_step(old(settings)@, keys@),
{
    proof {
        reveal(slot_keys_step);
    }
    if keys.len() != 4 {
        return CommandStep::Failed(CommandError::SlotKeyCount);
    }
    let values = texts_of_bindings(&keys);
    settings.slot_keys = keys;
    setting(
        one_edit(
            ConfigEdit::SetStringArray {
                section: "mission".to_string(),
                key: "slot_keys".to_string(),
                values,
            },
        ),
        false,
        false,
    )
}

fn change_input(settings: &mut LiveSettings, input: StratagemInputSettings) -> (r: CommandStep)
    ensures
        (final(settings)@, r@) == input_step(old(settings)@, input),
{
    proof {
        reveal(input_step);
    }
    match input.validate() {
        Ok(_) => {},
        Err(error) => {
            return CommandStep::Failed(CommandError::Input(error));
        },
    }
    settings.stratagem_input = input;
    setting(edits_for_input(&input), false, true)
}

fn change_binding(
    settings: &mut LiveSettings,
    catalog: &Catalog,
    id: String,
    binding: Option<HotkeyBinding>,
) -> (r: CommandStep)
    ensures
        (final(settings)@, r@) == binding_step(old(settings)@, *catalog, id@, binding),
{
    proof {
        reveal(binding_step);
    }
    if catalog.get(id.as_str()).is_none() {
        return CommandStep::Failed(CommandError::UnknownStratagem(id));
    }
    let mut value: Option<String> = None;
    match binding {
        Some(binding) => {
            settings.bindings.insert(id.clone(), binding);
            value = Some(binding.config_string());
        },
        None => {
            let _ = settings.bindings.remove(id.as_str());
        },
    }
    setting(
        one_edit(
            ConfigEdit::SetNestedString {
                section: "mission".to_string(),
                table: "bindings".to_string(),
                key: id,
                value,
            },
        ),
        false,
        false,
    )
}

impl Engine {
    fn begin_active_slot(
        &mut self,
        catalog: &Catalog,
        slot: usize,
        id: Option<String>,
        state: &mut SharedState,
    ) -> (r: CommandStep)
        ensures
            outcome(*final(self), final(state)@, r) == active_slot_set(
                old(self)@,
                old(state)@,
                *catalog,
                slot,
                option_text(id),
            ),
    {
        proof {
            reveal(active_slot_set);
        }
        let mut active = match self.active.take() {
            Some(active) => active,
            None => {
                return CommandStep::Failed(CommandError::NoActive);
            },
        };
        if slot >= active.slots.len() {
            self.active = Some(active);
            return CommandStep::Failed(CommandError::NoSlot(slot));
        }
        let name = choice_name(catalog, &id);
        let ghost before = active@;
        active.slots.set(slot, id);
        active.source = ActiveSource::Manual;
        assert(active@.slots =~= before.slots.update(slot as int, option_text(id)));
        self.active = Some(active);
        self.publish_active(state);
        let mut text = "Active slot ".to_string();
        text.push_str(ordinal_of(slot).as_str());
        text.push_str(" set to ");
        text.push_str(name.as_str());
        state.set_status(Tone::Info, text.as_str());
        CommandStep::Done(Effects { save_active: true, refresh_presets: false })
    }

    /// Begins to carry out a command from the window.
    #[verifier::spinoff_prover]
    #[verifier::rlimit(40)]
    pub fn handle_command(
        &mut self,
        catalog: &Catalog,
        command: UiCommand,
        state: &mut SharedState,
    ) -> (r: CommandStep)
        ensures
            outcome(*final(self), final(state)@, r) == command_begun(
                old(self)@,
                old(state)@,
                *catalog,
                command,
            ),
    {
        match command {
            UiCommand::SetPresetFlag { key, value } => change_flag(&mut self.settings, key, value),
            UiCommand::SetLabel { preset, label } => change_label(
                &mut self.settings,
                preset,
                label,
            ),
            UiCommand::SetPresetStratagem { preset, slot, id } => {
                let again = copy_of(&id);
                CommandStep::Ask(
                    FileRequest::SetPresetStratagem { preset: preset.clone(), slot, id: again },
                    PendingCommand::SlotWrite { preset, slot, id },
                )
            },
            UiCommand::DeletePreset { preset } => CommandStep::Ask(
                FileRequest::DeletePreset { preset: preset.clone() },
                PendingCommand::Deletion { preset },
            ),
            UiCommand::IdentifyPreset { preset } => CommandStep::Ask(
                FileRequest::IdentifyPreset { preset: preset.clone() },
                PendingCommand::Identification { preset },
            ),
            UiCommand::SetActiveFromPreset { preset } => CommandStep::Ask(
                FileRequest::LoadPresets,
                PendingCommand::Activation { preset },
            ),
            UiCommand::SetActiveSlot { slot, id } => self.begin_active_slot(
                catalog,
                slot,
                id,
                state,
            ),
            UiCommand::ClearActive => {
                self.active = None;
                CommandStep::Ask(FileRequest::ClearActive, PendingCommand::Clearing)
            },
            UiCommand::SetMissionEnabled(enabled) => change_mission(&mut self.settings, enabled),
            UiCommand::SetSlotKeys(keys) => change_slot_keys(&mut self.settings, keys),
            UiCommand::SetStratagemInput(input) => change_input(&mut self.settings, input),
            UiCommand::SetBinding { id, binding } => change_binding(
                &mut self.settings,
                catalog,
                id,
                binding,
            ),
            UiCommand::Exit => CommandStep::Exit,
        }
    }

    fn resume_slot_write(
        &mut self,
        catalog: &Catalog,
        preset: String,
        slot: usize,
        id: Option<String>,
        state: &mut SharedState,
    ) -> (r: CommandStep)
        ensures
            outcome(*final(self), final(state)@, r) == slot_written(
                old(self)@,
                old(state)@,
                *catalog,
                preset@,
                slot,
                option_text(id),
            ),
    {
        let name = choice_name(catalog, &id);
        let mut text = self.preset_display_name(preset.as_str());
        text.push_str(": slot ");
        text.push_str(ordinal_of(slot).as_str());
        text.push_str(" set to ");
        text.push_str(name.as_str());
        let mut save_active = false;
        if let Some(mut active) = self.active.take() {
            if same_text(active.preset.as_str(), preset.as_str()) && slot < active.slots.len() {
                let ghost before = active@;
                active.slots.set(slot, id);
                assert(active@.slots =~= before.slots.update(slot as int, option_text(id)));
                self.active = Some(active);
                self.publish_active(state);
                save_active = true;
            } else {
                self.active = Some(active);
            }
        }
        state.set_status(Tone::Info, text.as_str());
        CommandStep::Done(Effects { save_active, refresh_presets: true })
    }

    fn finish_deletion(&self, preset: String, state: &mut SharedState) -> (r: CommandStep)
        ensures
            outcome(*self, final(state)@, r) == deletion_through(self@, old(state)@, preset@),
    {
        let mut text = "Deleted ".to_string();
        text.push_str(self.preset_display_name(preset.as_str()).as_str());
        state.set_status(Tone::Info, text.as_str());
        CommandStep::Done(Effects { save_active: false, refresh_presets: true })
    }

    fn resume_deletion(&mut self, preset: String, state: &mut SharedState) -> (r: CommandStep)
        ensures
            outcome(*final(self), final(state)@, r) == preset_deleted(
                old(self)@,
                old(state)@,
                preset@,
            ),
    {
        let was_active = match &self.active {
            Some(active) => same_text(active.preset.as_str(), preset.as_str()),
            None => false,
        };
        if was_active {
            self.active = None;
            return CommandStep::Ask(
                FileRequest::ClearActive,
                PendingCommand::DeletionClear { preset },
            );
        }
        self.finish_deletion(preset, state)
    }

    fn resume_activation(
        &mut self,
        preset: String,
        presets: TextMap<Preset>,
        now: u64,
        state: &mut SharedState,
    ) -> (r: CommandStep)
        ensures
            outcome(*final(self), final(state)@, r) == activated(
                old(self)@,
                old(state)@,
                preset@,
                preset_views(presets.map()),
                now,
            ),
    {
        let ids = match presets.get(preset.as_str()) {
            Some(found) => found.stratagem_ids(),
            None => {
                return CommandStep::Failed(CommandError::NotSaved(preset));
            },
        };
        let mut text = "Active loadout set to ".to_string();
        text.push_str(self.preset_display_name(preset.as_str()).as_str());
        self.active = Some(
            ActiveLoadout::new_at(preset.as_str(), ids, ActiveSource::Manual, now),
        );
        self.publish_active(state);
        state.set_status(Tone::Info, text.as_str());
        CommandStep::Done(Effects { save_active: true, refresh_presets: false })
    }

    /// Goes on with a command once its request is answered, at `now` seconds after
    /// the Unix epoch.
    #[verifier::spinoff_prover]
    #[verifier::rlimit(40)]
    pub fn resume_command(
        &mut self,
        catalog: &Catalog,
        pending: PendingCommand,
        reply: FileReply,
        now: u64,
        state: &mut SharedState,
    ) -> (r: CommandStep)
        requires
            reply_fits(pending, reply),
        ensures
            outcome(*final(self), final(state)@, r) == command_resumed(
                old(self)@,
                old(state)@,
                *catalog,
                pending,
                reply,
                now,
            ),
    {
        match reply {
            FileReply::Failed(message) => CommandStep::Failed(CommandError::Outside(message)),
            FileReply::Presets(presets) => match pending {
                PendingCommand::Activation { preset } => self.resume_activation(
                    preset,
                    presets,
                    now,
                    state,
                ),
                _ => CommandStep::Done(Effects { save_active: false, refresh_presets: false }),
            },
            FileReply::Ids(ids) => match pending {
                PendingCommand::Identification { preset } => CommandStep::Ask(
                    FileRequest::SetPresetStratagems { preset, ids },
                    PendingCommand::IdRecord,
                ),
                _ => CommandStep::Done(Effects { save_active: false, refresh_presets: false }),
            },
            FileReply::Done => match pending {
                PendingCommand::Setting { refresh_presets, confirm_input } => {
                    if confirm_input {
                        state.set_status(Tone::Info, "Stratagem input settings saved");
                    }
                    CommandStep::Done(Effects { save_active: false, refresh_presets })
                },
                PendingCommand::SlotWrite { preset, slot, id } => self.resume_slot_write(
                    catalog,
                    preset,
                    slot,
                    id,
                    state,
                ),
                PendingCommand::Deletion { preset } => self.resume_deletion(preset, state),
                PendingCommand::DeletionClear { preset } => {
                    self.publish_active(state);
                    self.finish_deletion(preset, state)
                },
                PendingCommand::Clearing => {
                    self.publish_active(state);
                    state.set_status(Tone::Info, "Active loadout cleared");
                    CommandStep::Done(Effects { save_active: false, refresh_presets: false })
                },
                PendingCommand::IdRecord => CommandStep::Done(
                    Effects { save_active: false, refresh_presets: true },
                ),
                PendingCommand::Activation { .. } => CommandStep::Done(
                    Effects { save_active: false, refresh_presets: false },
                ),
                PendingCommand::Identification { .. } => CommandStep::Done(
                    Effects { save_active: false, refresh_presets: false },
                ),
            },
        }
    }

    /// Ends a command: a failure is shown, and the window is told the settings.
    pub fn end_command(&self, failure: Option<&CommandError>, state: &mut SharedState)
        ensures
            final(state)@ == (SharedStateView {
                settings: self@.settings,
                ..match failure {
                    Some(error) => old(state)@.with_status(Tone::Error, error.message_text()),
                    None => old(state)@,
                }
            }),
    {
        if let Some(error) = failure {
            state.set_status(Tone::Error, error.message().as_str());
        }
        self.publish_settings(state);
    }
}

// ----- laws ------------------------------------------------------------------------

/// A command that fails at once changes nothing.
pub proof fn lemma_failed_command_changes_nothing(
    engine: EngineView,
    state: SharedStateView,
    catalog: Catalog,
    command: UiCommand,
)
    ensures
        command_begun(engine, state, catalog, command).step is Failed ==> command_begun(
            engine,
            state,
            catalog,
            command,
        ).engine == engine && command_begun(engine, state, catalog, command).state == state,
{
    reveal(flag_step);
    reveal(label_step);
    reveal(mission_step);
    reveal(slot_keys_step);
    reveal(input_step);
    reveal(binding_step);
    reveal(active_slot_set);
}

/// Commands change the settings and the active loadout, and nothing else of the
/// engine.
pub proof fn lemma_commands_touch_settings_and_active(
    engine: EngineView,
    state: SharedStateView,
    catalog: Catalog,
    command: UiCommand,
    pending: PendingCommand,
    reply: FileReply,
    now: u64,
)
    ensures
        ({
            let begun = command_begun(engine, state, catalog, command).engine;
            begun == EngineView { settings: begun.settings, active: begun.active, ..engine }
        }),
        ({
            let resumed = command_resumed(engine, state, catalog, pending, reply, now).engine;
            resumed == EngineView { active: resumed.active, ..engine }
        }),
{
    lemma_begun_touches(engine, state, catalog, command);
    lemma_resumed_touches(engine, state, catalog, pending, reply, now);
}

#[verifier::spinoff_prover]
#[verifier::rlimit(40)]
proof fn lemma_resumed_touches(
    engine: EngineView,
    state: SharedStateView,
    catalog: Catalog,
    pending: PendingCommand,
    reply: FileReply,
    now: u64,
)
    ensures
        ({
            let resumed = command_resumed(engine, state, catalog, pending, reply, now).engine;
            resumed == EngineView { active: resumed.active, ..engine }
        }),
{
}

#[verifier::spinoff_prover]
#[verifier::rlimit(40)]
proof fn lemma_begun_touches(
    engine: EngineView,
    state: SharedStateView,
    catalog: Catalog,
    command: UiCommand,
)
    ensures
        ({
            let begun = command_begun(engine, state, catalog, command).engine;
            begun == EngineView { settings: begun.settings, active: begun.active, ..engine }
        }),
{
    reveal(flag_step);
    reveal(label_step);
    reveal(mission_step);
    reveal(slot_keys_step);
    reveal(input_step);
    reveal(binding_step);
    reveal(active_slot_set);
}

#[verifier::spinoff_prover]
#[verifier::rlimit(40)]
proof fn lemma_begun_sound(
    engine: EngineView,
    state: SharedStateView,
    catalog: Catalog,
    command: UiCommand,
)
    requires
        engine.sound(),
    ensures
        command_begun(engine, state, catalog, command).engine.sound(),
{
    reveal(flag_step);
    reveal(label_step);
    reveal(mission_step);
    reveal(slot_keys_step);
    reveal(input_step);
    reveal(binding_step);
    reveal(active_slot_set);
}

#[verifier::spinoff_prover]
#[verifier::rlimit(40)]
proof fn lemma_resumed_sound(
    engine: EngineView,
    state: SharedStateView,
    catalog: Catalog,
    pending: PendingCommand,
    reply: FileReply,
    now: u64,
)
    requires
        engine.sound(),
    ensures
        command_resumed(engine, state, catalog, pending, reply, now).engine.sound(),
{
}

/// No command makes a sound engine unsound: there stay four slot keys, valid input
/// settings and four slots.
pub proof fn lemma_commands_keep_engine_sound(
    engine: EngineView,
    state: SharedStateView,
    catalog: Catalog,
    command: UiCommand,
    pending: PendingCommand,
    reply: FileReply,
    now: u64,
)
    requires
        engine.sound(),
    ensures
        command_begun(engine, state, catalog, command).engine.sound(),
        command_resumed(engine, state, catalog, pending, reply, now).engine.sound(),
{
    lemma_begun_sound(engine, state, catalog, command);
    lemma_resumed_sound(engine, state, catalog, pending, reply, now);
}

/// The text that a configuration has under a key of its mission section.
pub open spec fn stored_text(items: Map<Seq<Seq<char>>, TomlItem>, key: Seq<char>) -> Option<
    Seq<char>,
> {
    if items.contains_key(seq!["mission"@, key]) {
        match items[seq!["mission"@, key]] {
            TomlItem::Text(text) => Some(text),
            _ => None,
        }
    } else {
        None
    }
}

/// The key of the keyboard that a configuration names.
pub open spec fn stored_key(items: Map<Seq<Seq<char>>, TomlItem>, key: Seq<char>) -> Option<Key> {
    match stored_text(items, key) {
        Some(text) => key_named(text),
        None => None,
    }
}

/// The number that a configuration has under a key of its mission section.
pub open spec fn stored_number(items: Map<Seq<Seq<char>>, TomlItem>, key: Seq<char>) -> Option<
    int,
> {
    if items.contains_key(seq!["mission"@, key]) {
        match items[seq!["mission"@, key]] {
            TomlItem::Integer(number) => Some(number),
            _ => None,
        }
    } else {
        None
    }
}

/// A configuration holds the input settings.
pub open spec fn holds_input(
    items: Map<Seq<Seq<char>>, TomlItem>,
    input: StratagemInputSettings,
) -> bool {
    &&& stored_key(items, "menu_key"@) == Some(input.menu_key)
    &&& stored_text(items, "menu_mode"@) == Some(input.menu_mode.config_text())
    &&& stored_key(items, "direction_up"@) == Some(input.direction_up)
    &&& stored_key(items, "direction_down"@) == Some(input.direction_down)
    &&& stored_key(items, "direction_left"@) == Some(input.direction_left)
    &&& stored_key(items, "direction_right"@) == Some(input.direction_right)
    &&& stored_number(items, "menu_open_delay_ms"@) == Some(input.menu_open_delay_ms as int)
    &&& stored_number(items, "key_hold_ms"@) == Some(input.key_hold_ms as int)
    &&& stored_number(items, "key_gap_ms"@) == Some(input.key_gap_ms as int)
    &&& stored_number(items, "menu_release_delay_ms"@) == Some(input.menu_release_delay_ms as int)
}

/// Input settings that are changed in the window are in the configuration
/// afterwards, each key under a name that is read as that key again.
pub proof fn lemma_input_is_stored(
    items: Map<Seq<Seq<char>>, TomlItem>,
    input: StratagemInputSettings,
)
    requires
        open_section(items, "mission"@),
        input.problem() is None,
    ensures
        after_edits(items, input_edits(input)) is Ok,
        holds_input(after_edits(items, input_edits(input))->Ok_0, input),
{
    reveal_strlit("menu_key");
    reveal_strlit("menu_mode");
    reveal_strlit("direction_up");
    reveal_strlit("direction_down");
    reveal_strlit("direction_left");
    reveal_strlit("direction_right");
    reveal_strlit("menu_open_delay_ms");
    reveal_strlit("key_hold_ms");
    reveal_strlit("key_gap_ms");
    reveal_strlit("menu_release_delay_ms");
    assert("direction_down"@[10] == 'd');
    assert("direction_left"@[10] == 'l');
    let edits = input_edits(input);
    assert forall|i: int| 0 <= i < edits.len() implies sets_in(#[trigger] edits[i], "mission"@) by {
    }
    assert forall|i: int, j: int| 0 <= i < j < edits.len() implies (
    #[trigger] edits[i])->SetKey_key != (#[trigger] edits[j])->SetKey_key by {
        let a = edits[i]->SetKey_key;
        let b = edits[j]->SetKey_key;
        assert(a.len() != b.len() || (i == 3 && j == 4));
    }
    lemma_keys_set(items, "mission"@, edits);
    lemma_key_round_trip(input.menu_key);
    lemma_key_round_trip(input.direction_up);
    lemma_key_round_trip(input.direction_down);
    lemma_key_round_trip(input.direction_left);
    lemma_key_round_trip(input.direction_right);
    assert(edits[0] == set_text("mission"@, "menu_key"@, input.menu_key.config_text()));
    assert(edits[1] == set_text("mission"@, "menu_mode"@, input.menu_mode.config_text()));
    assert(edits[2] == set_text("mission"@, "direction_up"@, input.direction_up.config_text()));
    assert(edits[3] == set_text("mission"@, "direction_down"@, input.direction_down.config_text()));
    assert(edits[4] == set_text("mission"@, "direction_left"@, input.direction_left.config_text()));
    assert(edits[5] == set_text("mission"@, "direction_right"@, input.direction_right.config_text()));
    assert(edits[6] == set_number("mission"@, "menu_open_delay_ms"@, input.menu_open_delay_ms));
    assert(edits[7] == set_number("mission"@, "key_hold_ms"@, input.key_hold_ms));
    assert(edits[8] == set_number("mission"@, "key_gap_ms"@, input.key_gap_ms));
    assert(edits[9] == set_number("mission"@, "menu_release_delay_ms"@, input.menu_release_delay_ms));
}

proof fn lemma_input_edits_keep_tables(
    items: Map<Seq<Seq<char>>, TomlItem>,
    edits: Seq<ConfigEditView>,
)
    requires
        forall|i: int| 0 <= i < edits.len() ==> (#[trigger] edits[i]) is SetKey,
    ensures
        !edits_bare(items, edits),
        emptied_by(items, edits) == Set::<Seq<Seq<char>>>::empty(),
    decreases edits.len(),
{
    if edits.len() > 0 {
        assert forall|i: int| 0 <= i < edits.drop_last().len() implies (
        #[trigger] edits.drop_last()[i]) is SetKey by {
            assert(edits[i] is SetKey);
        }
        lemma_input_edits_keep_tables(items, edits.drop_last());
        assert(edits[edits.len() - 1] is SetKey);
        assert(emptied_by(items, edits) =~= Set::<Seq<Seq<char>>>::empty());
    }
}

proof fn lemma_mission_stays_open(
    items: Map<Seq<Seq<char>>, TomlItem>,
    edits: Seq<ConfigEditView>,
)
    requires
        edits.len() > 0,
        sets_in(edits[0], "mission"@),
        after_edits(items, edits) is Ok,
    ensures
        open_section(items, "mission"@),
    decreases edits.len(),
{
    if edits.len() > 1 {
        assert(edits.drop_last()[0] == edits[0]);
        lemma_mission_stays_open(items, edits.drop_last());
    } else {
        assert(edits.last() == edits[0]);
        assert(after_edits(items, edits.drop_last()) == Ok::<
            Map<Seq<Seq<char>>, TomlItem>,
            EditFault,
        >(items));
    }
}

/// A mission section says what a configuration has under the names of the input
/// settings.
pub open spec fn mission_read_from(
    items: Map<Seq<Seq<char>>, TomlItem>,
    mission: MissionConfigView,
) -> bool {
    &&& stored_text(items, "menu_key"@) == Some(mission.menu_key.config_text())
    &&& stored_text(items, "menu_mode"@) == Some(mission.menu_mode.config_text())
    &&& stored_text(items, "direction_up"@) == key_text(mission.direction_up)
    &&& stored_text(items, "direction_down"@) == key_text(mission.direction_down)
    &&& stored_text(items, "direction_left"@) == key_text(mission.direction_left)
    &&& stored_text(items, "direction_right"@) == key_text(mission.direction_right)
    &&& stored_number(items, "menu_open_delay_ms"@) == Some(mission.menu_open_delay_ms as int)
    &&& stored_number(items, "key_hold_ms"@) == Some(mission.key_hold_ms as int)
    &&& stored_number(items, "key_gap_ms"@) == Some(mission.key_gap_ms as int)
    &&& stored_number(items, "menu_release_delay_ms"@) == Some(
        mission.menu_release_delay_ms as int,
    )
}

/// The name of a key that may be left out.
pub open spec fn key_text(key: Option<Key>) -> Option<Seq<char>> {
    match key {
        Some(key) => Some(key.config_text()),
        None => None,
    }
}

/// Valid input settings that are changed in the window are taken over and saved: the
/// text that the configuration is saved as reads as one that has them, and the
/// mission section read from it stands for exactly these settings.
pub proof fn lemma_saved_input_is_read(
    settings: LiveSettingsView,
    text: Seq<char>,
    defaults: Seq<char>,
    input: StratagemInputSettings,
    out: Seq<char>,
    mission: MissionConfigView,
)
    requires
        input.problem() is None,
        saved_as(text, defaults, input_edits(input), out),
    ensures
        input_step(settings, input).0.stratagem_input == input,
        input_step(settings, input).1 == ask_edit(input_edits(input), false, true),
        text_items(out) is Some,
        holds_input(text_items(out)->0, input),
        mission_read_from(text_items(out)->0, mission) ==> mission.input_settings() == input,
{
    reveal(input_step);
    let edits = input_edits(input);
    let filled = filled_items(text, defaults)->Ok_0;
    assert forall|i: int| 0 <= i < edits.len() implies (#[trigger] edits[i]) is SetKey by {
    }
    lemma_input_edits_keep_tables(filled, edits);
    lemma_mission_stays_open(filled, edits);
    lemma_input_is_stored(filled, input);
    lemma_reads_exactly(out, after_edits(filled, edits)->Ok_0);
    let items = text_items(out)->0;
    if mission_read_from(items, mission) {
        reveal_strlit("hold");
        reveal_strlit("press");
        lemma_key_round_trip(mission.menu_key);
        assert(mission.menu_key == input.menu_key);
        lemma_read_key(items, "direction_up"@, mission.direction_up, input.direction_up);
        lemma_read_key(items, "direction_down"@, mission.direction_down, input.direction_down);
        lemma_read_key(items, "direction_left"@, mission.direction_left, input.direction_left);
        lemma_read_key(items, "direction_right"@, mission.direction_right, input.direction_right);
        assert("hold"@.len() != "press"@.len());
        assert(mission.menu_mode == input.menu_mode);
    }
}

proof fn lemma_read_key(
    items: Map<Seq<Seq<char>>, TomlItem>,
    name: Seq<char>,
    read: Option<Key>,
    stored: Key,
)
    requires
        stored_text(items, name) == key_text(read),
        stored_key(items, name) == Some(stored),
    ensures
        read == Some(stored),
{
    lemma_key_round_trip(read->0);
}

/// Slot keys that are changed in the window are in the configuration afterwards,
/// each under a text that is read as that hotkey again.
pub proof fn lemma_slot_keys_are_stored(
    items: Map<Seq<Seq<char>>, TomlItem>,
    settings: LiveSettingsView,
    keys: Seq<HotkeyBinding>,
    i: int,
)
    requires
        open_section(items, "mission"@),
        keys.len() == 4,
        0 <= i < 4,
        keys[i].key.bindable_key(),
    ensures
        ({
            let edit = ConfigEditView::SetKey {
                section: "mission"@,
                key: "slot_keys"@,
                item: TomlItem::Texts(binding_texts(keys)),
            };
            &&& slot_keys_step(settings, keys).1 == ask_edit(seq![edit], false, false)
            &&& after_edit(items, edit) matches Ok(edited) && edited[seq![
                "mission"@,
                "slot_keys"@,
            ]] == TomlItem::Texts(binding_texts(keys))
        }),
        parsed_binding(binding_texts(keys)[i]) == Ok::<HotkeyBinding, BindingFaultView>(keys[i]),
{
    reveal(slot_keys_step);
    lemma_set_key(
        items,
        "mission"@,
        "slot_keys"@,
        TomlItem::Texts(binding_texts(keys)),
        seq!["mission"@],
    );
    lemma_binding_round_trip(keys[i]);
}

/// The section is a table, and so is the nested table where there is one.
pub open spec fn open_table(
    items: Map<Seq<Seq<char>>, TomlItem>,
    section: Seq<char>,
    table: Seq<char>,
) -> bool {
    &&& table_at(items, seq![section])
    &&& items.contains_key(seq![section, table]) ==> table_at(items, seq![section, table])
}

/// The configuration has the text, or none, under a key of a nested table.
pub open spec fn holds_nested(
    items: Map<Seq<Seq<char>>, TomlItem>,
    path: Seq<Seq<char>>,
    value: Option<Seq<char>>,
) -> bool {
    match value {
        Some(text) => items.contains_key(path) && items[path] == TomlItem::Text(text),
        None => !items.contains_key(path),
    }
}

/// The hotkey of a mission Stratagem that is assigned in the window is in the
/// configuration afterwards, under a text that is read as that hotkey again; one
/// that is taken away is gone.
pub proof fn lemma_binding_is_stored(
    items: Map<Seq<Seq<char>>, TomlItem>,
    settings: LiveSettingsView,
    catalog: Catalog,
    id: Seq<char>,
    binding: Option<HotkeyBinding>,
)
    requires
        open_table(items, "mission"@, "bindings"@),
        entry_with_id(catalog.list(), id) is Some,
        binding matches Some(binding) ==> binding.key.bindable_key(),
    ensures
        ({
            let text = match binding {
                Some(binding) => Some(binding.config_text()),
                None => None,
            };
            let edit = ConfigEditView::SetNested {
                section: "mission"@,
                table: "bindings"@,
                key: id,
                value: text,
            };
            let (changed, step) = binding_step(settings, catalog, id, binding);
            &&& step == ask_edit(seq![edit], false, false)
            &&& changed.bindings.contains_key(id) == (binding is Some)
            &&& binding is Some ==> changed.bindings[id] == binding->0
            &&& after_edit(items, edit) is Ok
            &&& holds_nested(
                after_edit(items, edit)->Ok_0,
                seq!["mission"@, "bindings"@, id],
                text,
            )
            &&& binding is Some ==> parsed_binding(text->0) == Ok::<HotkeyBinding, BindingFaultView>(
                binding->0,
            )
        }),
{
    reveal(binding_step);
    let text = match binding {
        Some(binding) => Some(binding.config_text()),
        None => None,
    };
    lemma_nested_is_stored(items, "mission"@, "bindings"@, id, text);
    if binding is Some {
        lemma_binding_round_trip(binding->0);
    }
}

proof fn lemma_nested_is_stored(
    items: Map<Seq<Seq<char>>, TomlItem>,
    section: Seq<char>,
    table: Seq<char>,
    key: Seq<char>,
    value: Option<Seq<char>>,
)
    requires
        open_table(items, section, table),
    ensures
        ({
            let edit = ConfigEditView::SetNested { section, table, key, value };
            &&& after_edit(items, edit) is Ok
            &&& holds_nested(after_edit(items, edit)->Ok_0, seq![section, table, key], value)
        }),
{
    lemma_set_nested(items, section, table, key, value, seq![section]);
}

/// The label that is given to a preset in the window is in the configuration
/// afterwards, without the white space around it; an empty one is taken away.
pub proof fn lemma_label_is_stored(
    items: Map<Seq<Seq<char>>, TomlItem>,
    settings: LiveSettingsView,
    preset: Seq<char>,
    label: Seq<char>,
)
    requires
        open_table(items, "presets"@, "labels"@),
        !has_control(trim(label)),
    ensures
        ({
            let text = if trim(label).len() == 0 {
                None
            } else {
                Some(trim(label))
            };
            let edit = ConfigEditView::SetNested {
                section: "presets"@,
                table: "labels"@,
                key: preset,
                value: text,
            };
            let (changed, step) = label_step(settings, preset, label);
            &&& step == ask_edit(seq![edit], true, false)
            &&& changed.labels.contains_key(preset) == (text is Some)
            &&& text is Some ==> changed.labels[preset] == text->0
            &&& after_edit(items, edit) is Ok
            &&& holds_nested(
                after_edit(items, edit)->Ok_0,
                seq!["presets"@, "labels"@, preset],
                text,
            )
        }),
{
    reveal(label_step);
    let text = if trim(label).len() == 0 {
        None
    } else {
        Some(trim(label))
    };
    lemma_nested_is_stored(items, "presets"@, "labels"@, preset, text);
}

/// A preset option that is switched in the window, and the switch of the mission
/// hotkeys, are in the configuration afterwards.
pub proof fn lemma_switches_are_stored(
    items: Map<Seq<Seq<char>>, TomlItem>,
    settings: LiveSettingsView,
    key: Seq<char>,
    value: bool,
)
    requires
        open_section(items, "presets"@),
        open_section(items, "mission"@),
    ensures
        ({
            let edit = set_flag("presets"@, key, value);
            with_preset_flag(settings, key, value) is Some ==> {
                &&& flag_step(settings, key, value).1 == ask_edit(seq![edit], false, false)
                &&& after_edit(items, edit) is Ok
                &&& after_edit(items, edit)->Ok_0[seq!["presets"@, key]] == TomlItem::Bool(value)
            }
        }),
        ({
            let edit = set_flag("mission"@, "enabled"@, value);
            &&& mission_step(settings, value).0.mission_enabled == value
            &&& mission_step(settings, value).1 == ask_edit(seq![edit], false, false)
            &&& after_edit(items, edit) is Ok
            &&& after_edit(items, edit)->Ok_0[seq!["mission"@, "enabled"@]] == TomlItem::Bool(value)
        }),
{
    reveal(flag_step);
    reveal(mission_step);
    lemma_set_key(items, "presets"@, key, TomlItem::Bool(value), seq!["presets"@]);
    lemma_set_key(items, "mission"@, "enabled"@, TomlItem::Bool(value), seq!["mission"@]);
}

/// A slot of a saved preset was written. When the active loadout came from that preset
/// its slot has the new id, its other slots stay, the window is told and it is to be
/// saved. When it came from another preset, when it has no such slot or when there is
/// none, the engine stays exactly as it was and nothing is to be saved.
#[verifier::spinoff_prover]
#[verifier::rlimit(30)]
pub proof fn lemma_active_follows_its_preset(
    engine: EngineView,
    state: SharedStateView,
    catalog: Catalog,
    preset: String,
    slot: usize,
    id: Option<String>,
    now: u64,
)
    ensures
        ({
            let after = command_resumed(
                engine,
                state,
                catalog,
                PendingCommand::SlotWrite { preset, slot, id },
                FileReply::Done,
                now,
            );
            &&& after.engine == EngineView { active: after.engine.active, ..engine }
            &&& after.state == SharedStateView {
                active_loadout: after.state.active_loadout,
                status: after.state.status,
                progress: None,
                ..state
            }
            &&& after.state.status.tone == Tone::Info
            &&& engine.active matches Some(active) ==> active.preset == preset@ && slot
                < active.slots.len() ==> {
                &&& after.engine.active is Some
                &&& after.engine.active->0.preset == active.preset
                &&& after.engine.active->0.source == active.source
                &&& after.engine.active->0.set_at_unix == active.set_at_unix
                &&& after.engine.active->0.slots.len() == active.slots.len()
                &&& after.engine.active->0.slots[slot as int] == match id {
                    Some(text) => Some(text@),
                    None => None,
                }
                &&& forall|j: int|
                    0 <= j < active.slots.len() && j != slot
                        ==> #[trigger] after.engine.active->0.slots[j] == active.slots[j]
                &&& after.state.active_loadout == after.engine.active
                &&& after.step == CommandStepView::Done(
                    Effects { save_active: true, refresh_presets: true },
                )
            }
            &&& engine.active matches Some(active) ==> active.preset != preset@ || slot
                >= active.slots.len() ==> {
                &&& after.engine == engine
                &&& after.state.active_loadout == state.active_loadout
                &&& after.step == CommandStepView::Done(
                    Effects { save_active: false, refresh_presets: true },
                )
            }
            &&& engine.active is None ==> {
                &&& after.engine == engine
                &&& after.state.active_loadout == state.active_loadout
                &&& after.step == CommandStepView::Done(
                    Effects { save_active: false, refresh_presets: true },
                )
            }
        }),
{
}

/// Setting a slot of the active loadout by hand gives that slot the id, leaves the other
/// slots and the preset, and marks the loadout as set by hand. Without an active loadout,
/// or without such a slot, the command fails.
#[verifier::spinoff_prover]
#[verifier::rlimit(30)]
pub proof fn lemma_active_slot_by_hand(
    engine: EngineView,
    state: SharedStateView,
    catalog: Catalog,
    slot: usize,
    id: Option<String>,
)
    ensures
        ({
            let after = command_begun(
                engine,
                state,
                catalog,
                UiCommand::SetActiveSlot { slot, id },
            );
            &&& after.engine == EngineView { active: after.engine.active, ..engine }
            &&& after.step is Failed <==> engine.active is None || slot
                >= engine.active->0.slots.len()
            &&& after.step is Failed ==> after.engine == engine && after.state == state
            &&& engine.active matches Some(active) ==> slot < active.slots.len() ==> {
                &&& after.engine.active is Some
                &&& after.engine.active->0.preset == active.preset
                &&& after.engine.active->0.source == ActiveSource::Manual
                &&& after.engine.active->0.set_at_unix == active.set_at_unix
                &&& after.engine.active->0.slots.len() == active.slots.len()
                &&& after.engine.active->0.slots[slot as int] == match id {
                    Some(text) => Some(text@),
                    None => None,
                }
                &&& forall|j: int|
                    0 <= j < active.slots.len() && j != slot
                        ==> #[trigger] after.engine.active->0.slots[j] == active.slots[j]
                &&& after.state == SharedStateView {
                    active_loadout: after.engine.active,
                    status: after.state.status,
                    progress: None,
                    ..state
                }
                &&& after.state.status.tone == Tone::Info
                &&& after.step == CommandStepView::Done(
                    Effects { save_active: true, refresh_presets: false },
                )
            }
        }),
{
    reveal(active_slot_set);
}

/// Once a preset is deleted, a loadout that came from it is cleared, first in the engine
/// and then in its file. Any other loadout stays, and the command is through.
#[verifier::spinoff_prover]
#[verifier::rlimit(30)]
pub proof fn lemma_deletion_clears_its_loadout(
    engine: EngineView,
    state: SharedStateView,
    catalog: Catalog,
    preset: String,
    now: u64,
)
    ensures
        ({
            let after = command_resumed(
                engine,
                state,
                catalog,
                PendingCommand::Deletion { preset },
                FileReply::Done,
                now,
            );
            &&& after.engine == EngineView { active: after.engine.active, ..engine }
            &&& engine.active is Some && engine.active->0.preset == preset@ ==> {
                &&& after.engine.active is None
                &&& after.state == state
                &&& after.step == CommandStepView::Ask(
                    FileRequestView::ClearActive,
                    PendingView::DeletionClear { preset: preset@ },
                )
            }
            &&& engine.active is None || engine.active->0.preset != preset@ ==> {
                &&& after.engine == engine
                &&& after.state.active_loadout == state.active_loadout
                &&& after.step == CommandStepView::Done(
                    Effects { save_active: false, refresh_presets: true },
                )
            }
        }),
        ({
            let after = command_resumed(
                engine,
                state,
                catalog,
                PendingCommand::DeletionClear { preset },
                FileReply::Done,
                now,
            );
            &&& after.engine == engine
            &&& after.state.active_loadout == engine.active
            &&& after.step == CommandStepView::Done(
                Effects { save_active: false, refresh_presets: true },
            )
        }),
{
}

/// A saved preset that is made active becomes the active loadout with the ids of its
/// four slots, in their order, from now on and by hand. One that is not saved fails.
#[verifier::spinoff_prover]
#[verifier::rlimit(30)]
pub proof fn lemma_activation(
    engine: EngineView,
    state: SharedStateView,
    catalog: Catalog,
    preset: String,
    presets: TextMap<Preset>,
    now: u64,
)
    ensures
        ({
            let after = command_resumed(
                engine,
                state,
                catalog,
                PendingCommand::Activation { preset },
                FileReply::Presets(presets),
                now,
            );
            &&& after.engine == EngineView { active: after.engine.active, ..engine }
            &&& after.step is Failed <==> !presets.map().contains_key(preset@)
            &&& after.step is Failed ==> after.engine == engine && after.state == state
            &&& presets.map().contains_key(preset@) ==> {
                let saved = presets.map()[preset@]@.stratagems;
                &&& after.engine.active is Some
                &&& after.engine.active->0.preset == preset@
                &&& after.engine.active->0.source == ActiveSource::Manual
                &&& after.engine.active->0.set_at_unix == now
                &&& after.engine.active->0.slots.len() == 4
                &&& forall|j: int|
                    0 <= j < 4 ==> (#[trigger] after.engine.active->0.slots[j]) == (if j
                        < saved.len() {
                        saved[j].stratagem
                    } else {
                        None
                    })
                &&& after.state == SharedStateView {
                    active_loadout: after.engine.active,
                    status: after.state.status,
                    progress: None,
                    ..state
                }
                &&& after.state.status.tone == Tone::Info
                &&& after.step == CommandStepView::Done(
                    Effects { save_active: true, refresh_presets: false },
                )
            }
        }),
{
}

/// Clearing the active loadout empties it at once and asks for its file to be removed;
/// after that the window is told that there is none.
pub proof fn lemma_clearing(
    engine: EngineView,
    state: SharedStateView,
    catalog: Catalog,
    now: u64,
)
    ensures
        ({
            let begun = command_begun(engine, state, catalog, UiCommand::ClearActive);
            let after = command_resumed(
                begun.engine,
                begun.state,
                catalog,
                PendingCommand::Clearing,
                FileReply::Done,
                now,
            );
            &&& begun.engine == EngineView { active: None, ..engine }
            &&& begun.state == state
            &&& begun.step == CommandStepView::Ask(
                FileRequestView::ClearActive,
                PendingView::Clearing,
            )
            &&& after.engine == begun.engine
            &&& after.state.active_loadout is None
            &&& after.step == CommandStepView::Done(
                Effects { save_active: false, refresh_presets: false },
            )
        }),
{
}

/// A command on a saved preset changes nothing before the files have answered, asks for
/// what it is about, and remembers it.
pub proof fn lemma_preset_commands_ask_first(
    engine: EngineView,
    state: SharedStateView,
    catalog: Catalog,
    command: UiCommand,
)
    requires
        command is SetPresetStratagem || command is DeletePreset || command is IdentifyPreset
            || command is SetActiveFromPreset,
    ensures
        command_begun(engine, state, catalog, command).engine == engine,
        command_begun(engine, state, catalog, command).state == state,
        command matches UiCommand::SetPresetStratagem { preset, slot, id } ==> command_begun(
            engine,
            state,
            catalog,
            command,
        ).step == CommandStepView::Ask(
            FileRequestView::SetPresetStratagem {
                preset: preset@,
                slot,
                id: match id {
                    Some(text) => Some(text@),
                    None => None,
                },
            },
            PendingView::SlotWrite {
                preset: preset@,
                slot,
                id: match id {
                    Some(text) => Some(text@),
                    None => None,
                },
            },
        ),
        command matches UiCommand::DeletePreset { preset } ==> command_begun(
            engine,
            state,
            catalog,
            command,
        ).step == CommandStepView::Ask(
            FileRequestView::DeletePreset { preset: preset@ },
            PendingView::Deletion { preset: preset@ },
        ),
        command matches UiCommand::IdentifyPreset { preset } ==> command_begun(
            engine,
            state,
            catalog,
            command,
        ).step == CommandStepView::Ask(
            FileRequestView::IdentifyPreset { preset: preset@ },
            PendingView::Identification { preset: preset@ },
        ),
        command matches UiCommand::SetActiveFromPreset { preset } ==> command_begun(
            engine,
            state,
            catalog,
            command,
        ).step == CommandStepView::Ask(
            FileRequestView::LoadPresets,
            PendingView::Activation { preset: preset@ },
        ),
{
}

/// Identified ids are written to the preset they were identified for, each at its slot,
/// and then the presets are read again. The engine stays as it is.
#[verifier::spinoff_prover]
#[verifier::rlimit(30)]
pub proof fn lemma_identification_is_recorded(
    engine: EngineView,
    state: SharedStateView,
    catalog: Catalog,
    preset: String,
    ids: [Option<String>; 4],
    now: u64,
)
    ensures
        ({
            let after = command_resumed(
                engine,
                state,
                catalog,
                PendingCommand::Identification { preset },
                FileReply::Ids(ids),
                now,
            );
            &&& after.engine == engine
            &&& after.state == state
            &&& after.step matches CommandStepView::Ask(request, pending) && {
                &&& pending == PendingView::IdRecord
                &&& request matches FileRequestView::SetPresetStratagems { preset: name, ids: texts }
                    && {
                    &&& name == preset@
                    &&& texts.len() == 4
                    &&& forall|j: int|
                        0 <= j < 4 ==> (#[trigger] texts[j]) == match ids@[j] {
                            Some(text) => Some(text@),
                            None => None,
                        }
                }
            }
        }),
        command_resumed(engine, state, catalog, PendingCommand::IdRecord, FileReply::Done, now)
            == (Outcome {
            engine,
            state,
            step: CommandStepView::Done(Effects { save_active: false, refresh_presets: true }),
        }),
{
    assert(ids@.len() == 4);
}

/// A request that failed ends its command with the message, and nothing is changed.
pub proof fn lemma_failed_request(
    engine: EngineView,
    state: SharedStateView,
    catalog: Catalog,
    pending: PendingCommand,
    message: String,
    now: u64,
)
    ensures
        command_resumed(engine, state, catalog, pending, FileReply::Failed(message), now) == (
        Outcome { engine, state, step: CommandStepView::Failed(message@) }),
{
}

/// A stored setting ends its command: the presets are read again when that was asked
/// for, and only input settings are confirmed to the user.
pub proof fn lemma_setting_is_confirmed(
    engine: EngineView,
    state: SharedStateView,
    catalog: Catalog,
    refresh_presets: bool,
    confirm_input: bool,
    now: u64,
)
    ensures
        ({
            let after = command_resumed(
                engine,
                state,
                catalog,
                PendingCommand::Setting { refresh_presets, confirm_input },
                FileReply::Done,
                now,
            );
            &&& after.engine == engine
            &&& after.step == CommandStepView::Done(
                Effects { save_active: false, refresh_presets },
            )
            &&& !confirm_input ==> after.state == state
            &&& confirm_input ==> after.state.status.text == "Stratagem input settings saved"@
                && after.state.status.tone == Tone::Info
        }),
{
}

/// Each of the preset options is changed by the command with its name, and by no other
/// name. The command has the configuration changed under the same name.
#[verifier::spinoff_prover]
pub proof fn lemma_preset_options(
    engine: EngineView,
    state: SharedStateView,
    catalog: Catalog,
    key: String,
    value: bool,
)
    ensures
        ({
            let after = command_begun(
                engine,
                state,
                catalog,
                UiCommand::SetPresetFlag { key, value },
            );
            let known = key@ == "apply_in_saved_order"@ || key@ == "auto_ready_up"@ || key@
                == "save_fallback_when_taken"@;
            &&& after.state == state
            &&& after.step is Failed <==> !known
            &&& !known ==> after.engine == engine
            &&& key@ == "apply_in_saved_order"@ ==> after.engine.settings == (LiveSettingsView {
                apply_in_saved_order: value,
                ..engine.settings
            })
            &&& key@ == "auto_ready_up"@ ==> after.engine.settings == (LiveSettingsView {
                auto_ready_up: value,
                ..engine.settings
            })
            &&& key@ == "save_fallback_when_taken"@ ==> after.engine.settings == (
            LiveSettingsView { save_fallback_when_taken: value, ..engine.settings })
            &&& known ==> after.engine == EngineView { settings: after.engine.settings, ..engine }
            &&& known ==> after.step == CommandStepView::Ask(
                FileRequestView::EditConfig(
                    seq![
                        ConfigEditView::SetKey {
                            section: "presets"@,
                            key: key@,
                            item: TomlItem::Bool(value),
                        },
                    ],
                ),
                PendingView::Setting { refresh_presets: false, confirm_input: false },
            )
        }),
{
    reveal(flag_step);
    reveal_strlit("apply_in_saved_order");
    reveal_strlit("auto_ready_up");
    reveal_strlit("save_fallback_when_taken");
}

/// Switching the mission hotkeys sets the switch, and nothing else, and has the
/// configuration say the same.
pub proof fn lemma_mission_switch(
    engine: EngineView,
    state: SharedStateView,
    catalog: Catalog,
    enabled: bool,
)
    ensures
        command_begun(engine, state, catalog, UiCommand::SetMissionEnabled(enabled)) == (Outcome {
            engine: EngineView {
                settings: LiveSettingsView { mission_enabled: enabled, ..engine.settings },
                ..engine
            },
            state,
            step: CommandStepView::Ask(
                FileRequestView::EditConfig(
                    seq![
                        ConfigEditView::SetKey {
                            section: "mission"@,
                            key: "enabled"@,
                            item: TomlItem::Bool(enabled),
                        },
                    ],
                ),
                PendingView::Setting { refresh_presets: false, confirm_input: false },
            ),
        }),
{
    reveal(mission_step);
}

/// Four slot keys are taken over as they are and in their order; any other number is
/// refused.
pub proof fn lemma_slot_keys_taken_over(
    engine: EngineView,
    state: SharedStateView,
    catalog: Catalog,
    keys: Vec<HotkeyBinding>,
)
    ensures
        ({
            let after = command_begun(engine, state, catalog, UiCommand::SetSlotKeys(keys));
            &&& after.state == state
            &&& after.step is Failed <==> keys@.len() != 4
            &&& keys@.len() != 4 ==> after.engine == engine
            &&& keys@.len() == 4 ==> {
                &&& after.engine == (EngineView {
                    settings: LiveSettingsView { slot_keys: keys@, ..engine.settings },
                    ..engine
                })
                &&& after.step matches CommandStepView::Ask(request, pending) && {
                    &&& pending == (PendingView::Setting {
                        refresh_presets: false,
                        confirm_input: false,
                    })
                    &&& request matches FileRequestView::EditConfig(edits) && {
                        &&& edits.len() == 1
                        &&& edits[0] matches ConfigEditView::SetKey { section, key, item } && {
                            &&& section == "mission"@
                            &&& key == "slot_keys"@
                            &&& item matches TomlItem::Texts(texts) && {
                                &&& texts.len() == 4
                                &&& forall|i: int|
                                    0 <= i < 4 ==> #[trigger] texts[i] == keys@[i].config_text()
                            }
                        }
                    }
                }
            }
        }),
{
    reveal(slot_keys_step);
}

/// Input settings are taken over as they are when they are valid, and refused when they
/// are not.
pub proof fn lemma_input_taken_over(
    engine: EngineView,
    state: SharedStateView,
    catalog: Catalog,
    input: StratagemInputSettings,
)
    ensures
        ({
            let after = command_begun(engine, state, catalog, UiCommand::SetStratagemInput(input));
            &&& after.state == state
            &&& after.step is Failed <==> input.problem() is Some
            &&& input.problem() is Some ==> after.engine == engine
            &&& input.problem() is None ==> after.engine == (EngineView {
                settings: LiveSettingsView { stratagem_input: input, ..engine.settings },
                ..engine
            })
            &&& input.problem() is None ==> after.step == CommandStepView::Ask(
                FileRequestView::EditConfig(input_edits(input)),
                PendingView::Setting { refresh_presets: false, confirm_input: true },
            )
        }),
{
    reveal(input_step);
}

/// The hotkey of a Stratagem of the catalog is set to what was asked for, or removed; the
/// hotkeys of all others stay. A Stratagem that is not in the catalog is refused.
#[verifier::spinoff_prover]
pub proof fn lemma_hotkey_taken_over(
    engine: EngineView,
    state: SharedStateView,
    catalog: Catalog,
    id: String,
    binding: Option<HotkeyBinding>,
)
    ensures
        ({
            let after = command_begun(engine, state, catalog, UiCommand::SetBinding { id, binding });
            let known = exists|e: int|
                0 <= e < catalog.list().len() && (#[trigger] catalog.list()[e]).id@ == id@;
            let bindings = after.engine.settings.bindings;
            &&& after.state == state
            &&& after.step is Failed <==> !known
            &&& !known ==> after.engine == engine
            &&& known ==> {
                &&& after.engine == EngineView { settings: after.engine.settings, ..engine }
                &&& after.engine.settings == LiveSettingsView { bindings, ..engine.settings }
                &&& bindings.contains_key(id@) <==> binding is Some
                &&& binding is Some ==> bindings[id@] == binding->0
                &&& forall|other: Seq<char>|
                    other != id@ ==> (#[trigger] bindings.contains_key(other)
                        <==> engine.settings.bindings.contains_key(other)) && (
                    bindings.contains_key(other) ==> bindings[other]
                        == engine.settings.bindings[other])
                &&& after.step == CommandStepView::Ask(
                    FileRequestView::EditConfig(
                        seq![
                            ConfigEditView::SetNested {
                                section: "mission"@,
                                table: "bindings"@,
                                key: id@,
                                value: match binding {
                                    Some(chord) => Some(chord.config_text()),
                                    None => None,
                                },
                            },
                        ],
                    ),
                    PendingView::Setting { refresh_presets: false, confirm_input: false },
                )
            }
        }),
{
    reveal(binding_step);
}

/// A label without control characters is set for its preset without surrounding white
/// space; an empty one is removed. The labels of all other presets stay.
#[verifier::spinoff_prover]
pub proof fn lemma_label_taken_over(
    engine: EngineView,
    state: SharedStateView,
    catalog: Catalog,
    preset: String,
    label: String,
)
    ensures
        ({
            let after = command_begun(engine, state, catalog, UiCommand::SetLabel { preset, label });
            let labels = after.engine.settings.labels;
            &&& after.state == state
            &&& after.step is Failed <==> has_control(trim(label@))
            &&& after.step is Failed ==> after.engine == engine
            &&& !has_control(trim(label@)) ==> {
                &&& after.engine == EngineView { settings: after.engine.settings, ..engine }
                &&& after.engine.settings == LiveSettingsView { labels, ..engine.settings }
                &&& labels.contains_key(preset@) <==> trim(label@).len() > 0
                &&& trim(label@).len() > 0 ==> labels[preset@] == trim(label@)
                &&& forall|other: Seq<char>|
                    other != preset@ ==> (#[trigger] labels.contains_key(other)
                        <==> engine.settings.labels.contains_key(other)) && (
                    labels.contains_key(other) ==> labels[other] == engine.settings.labels[other])
                &&& after.step == CommandStepView::Ask(
                    FileRequestView::EditConfig(
                        seq![
                            ConfigEditView::SetNested {
                                section: "presets"@,
                                table: "labels"@,
                                key: preset@,
                                value: if trim(label@).len() == 0 {
                                    None
                                } else {
                                    Some(trim(label@))
                                },
                            },
                        ],
                    ),
                    PendingView::Setting { refresh_presets: true, confirm_input: false },
                )
            }
        }),
{
    reveal(label_step);
}

/// What the window is told once a command on a loadout is through: which preset and which
/// slot, counted from one, got which Stratagem, by its name.
#[verifier::spinoff_prover]
#[verifier::rlimit(30)]
pub proof fn lemma_told_of_loadout(
    engine: EngineView,
    state: SharedStateView,
    catalog: Catalog,
    preset: String,
    slot: usize,
    id: Option<String>,
    now: u64,
)
    ensures
        ({
            let name = match id {
                Some(text) => catalog.name_text(text@),
                None => "unknown"@,
            };
            let written = command_resumed(
                engine,
                state,
                catalog,
                PendingCommand::SlotWrite { preset, slot, id },
                FileReply::Done,
                now,
            );
            let by_hand = command_begun(
                engine,
                state,
                catalog,
                UiCommand::SetActiveSlot { slot, id },
            );
            let deleted = command_resumed(
                engine,
                state,
                catalog,
                PendingCommand::DeletionClear { preset },
                FileReply::Done,
                now,
            );
            &&& written.state.status.text == engine.display_name(preset@) + ": slot "@ + decimal(
                (slot + 1) as nat,
            ) + " set to "@ + name
            &&& by_hand.step is Done ==> by_hand.state.status.text == "Active slot "@ + decimal(
                (slot + 1) as nat,
            ) + " set to "@ + name
            &&& by_hand.step matches CommandStepView::Failed(message) ==> message == (
            if engine.active is None {
                "there is no active loadout"@
            } else {
                "slot "@ + decimal((slot + 1) as nat) + " does not exist"@
            })
            &&& deleted.state.status.text == "Deleted "@ + engine.display_name(preset@)
            &&& deleted.state.status.tone == Tone::Info
        }),
{
    reveal(active_slot_set);
}

} // verus!
