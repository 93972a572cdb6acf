//! `data/config.toml`: what it holds, what is accepted, and when it is reset.
use crate::app_state::text_values;
use crate::catalog::Direction;
use crate::ids::option_text;
use crate::input::{HotkeyBinding, HotkeyModifier, HotkeyModifiers, Key};
use crate::stratagem_input::{DirectionKeys, InputError, MenuMode, StratagemInputSettings};
use crate::template_path::{
    lemma_plain_path, named_parts, plain_path, portable_path, PathPartView,
};
use crate::text::{
    contains_control, control, decimal, decimal_of, has_control, lemma_split_concat, lemma_split_single,
    same_text, split,
};
use crate::text_map::TextMap;
use std::path::Path;
use vstd::prelude::*;

verus! {

/// How many preset hotkeys there can be.
pub const MAX_PRESET_HOTKEYS: usize = 4;

/// Where the presets are stored, beside the executable.
pub const PRESETS_RELATIVE_PATH: &'static str = "data/presets.json";

/// The configuration of the tool.
pub struct AppConfig {
    pub presets: PresetsConfig,
    pub hotkey: HotkeyConfig,
    pub mission: MissionConfig,
    pub window: WindowConfig,
}

/// The `[presets]` section.
pub struct PresetsConfig {
    /// Where an older version kept its presets.
    pub legacy_path: Option<String>,
    pub apply_in_saved_order: bool,
    pub auto_ready_up: bool,
    pub save_fallback_when_taken: bool,
    pub labels: TextMap<String>,
}

/// The `[hotkey]` section.
pub struct HotkeyConfig {
    pub modifiers: Vec<HotkeyModifier>,
    pub keys: Vec<Key>,
}

/// The `[mission]` section.
pub struct MissionConfig {
    pub enabled: bool,
    pub slot_keys: Vec<HotkeyBinding>,
    pub menu_key: Key,
    pub menu_mode: MenuMode,
    /// Older layout selector; the explicit direction keys below win when set.
    pub direction_keys: Option<DirectionKeys>,
    pub direction_up: Option<Key>,
    pub direction_down: Option<Key>,
    pub direction_left: Option<Key>,
    pub direction_right: Option<Key>,
    pub menu_open_delay_ms: u64,
    pub key_hold_ms: u64,
    pub key_gap_ms: u64,
    pub menu_release_delay_ms: u64,
    /// Catalog id -> hotkey for mission Stratagems available in every loadout.
    pub bindings: TextMap<HotkeyBinding>,
}

/// The `[window]` section.
#[derive(Debug, Clone, Copy, PartialEq, Eq, Structural)]
pub struct WindowConfig {
    pub start_hidden: bool,
}

/// The `[presets]` section as a mathematical value.
#[verifier::ext_equal]
pub struct PresetsConfigView {
    pub legacy_path: Option<Seq<char>>,
    pub apply_in_saved_order: bool,
    pub auto_ready_up: bool,
    pub save_fallback_when_taken: bool,
    pub labels: Map<Seq<char>, Seq<char>>,
}

impl View for PresetsConfig {
    type V = PresetsConfigView;

    open spec fn view(&self) -> PresetsConfigView {
        PresetsConfigView {
            legacy_path: option_text(self.legacy_path),
            apply_in_saved_order: self.apply_in_saved_order,
            auto_ready_up: self.auto_ready_up,
            save_fallback_when_taken: self.save_fallback_when_taken,
            labels: text_values(self.labels.map()),
        }
    }
}

/// The `[hotkey]` section as a mathematical value.
#[verifier::ext_equal]
pub struct HotkeyConfigView {
    pub modifiers: Seq<HotkeyModifier>,
    pub keys: Seq<Key>,
}

impl View for HotkeyConfig {
    type V = HotkeyConfigView;

    open spec fn view(&self) -> HotkeyConfigView {
        HotkeyConfigView { modifiers: self.modifiers@, keys: self.keys@ }
    }
}

/// The `[mission]` section as a mathematical value.
#[verifier::ext_equal]
pub struct MissionConfigView {
    pub enabled: bool,
    pub slot_keys: Seq<HotkeyBinding>,
    pub menu_key: Key,
    pub menu_mode: MenuMode,
    pub direction_keys: Option<DirectionKeys>,
    pub direction_up: Option<Key>,
    pub direction_down: Option<Key>,
    pub direction_left: Option<Key>,
    pub direction_right: Option<Key>,
    pub menu_open_delay_ms: u64,
    pub key_hold_ms: u64,
    pub key_gap_ms: u64,
    pub menu_release_delay_ms: u64,
    pub bindings: Map<Seq<char>, HotkeyBinding>,
}

impl View for MissionConfig {
    type V = MissionConfigView;

    open spec fn view(&self) -> MissionConfigView {
        MissionConfigView {
            enabled: self.enabled,
            slot_keys: self.slot_keys@,
            menu_key: self.menu_key,
            menu_mode: self.menu_mode,
            direction_keys: self.direction_keys,
            direction_up: self.direction_up,
            direction_down: self.direction_down,
            direction_left: self.direction_left,
            direction_right: self.direction_right,
            menu_open_delay_ms: self.menu_open_delay_ms,
            key_hold_ms: self.key_hold_ms,
            key_gap_ms: self.key_gap_ms,
            menu_release_delay_ms: self.menu_release_delay_ms,
            bindings: self.bindings.map(),
        }
    }
}

/// A configuration as a mathematical value.
#[verifier::ext_equal]
pub struct AppConfigView {
    pub presets: PresetsConfigView,
    pub hotkey: HotkeyConfigView,
    pub mission: MissionConfigView,
    pub window: WindowConfig,
}

impl View for AppConfig {
    type V = AppConfigView;

    open spec fn view(&self) -> AppConfigView {
        AppConfigView {
            presets: self.presets@,
            hotkey: self.hotkey@,
            mission: self.mission@,
            window: self.window,
        }
    }
}

impl PresetsConfigView {
    /// The section where nothing is configured. Slot order matches the saved
    /// preset so that slot hotkeys stay predictable.
    pub open spec fn defaults() -> PresetsConfigView {
        PresetsConfigView {
            legacy_path: None,
            apply_in_saved_order: true,
            auto_ready_up: false,
            save_fallback_when_taken: false,
            labels: Map::empty(),
        }
    }
}

impl HotkeyConfigView {
    /// The section where nothing is configured.
    pub open spec fn defaults() -> HotkeyConfigView {
        HotkeyConfigView {
            modifiers: seq![HotkeyModifier::Shift],
            keys: seq![Key::F1, Key::F2, Key::F3, Key::F4],
        }
    }
}

/// A key without modifiers.
pub open spec fn bare_key(key: Key) -> HotkeyBinding {
    HotkeyBinding { modifiers: HotkeyModifiers::empty_set(), key }
}

impl MissionConfigView {
    /// The section where nothing is configured.
    pub open spec fn defaults() -> MissionConfigView {
        let input = StratagemInputSettings::defaults();
        MissionConfigView {
            enabled: true,
            slot_keys: seq![
                bare_key(Key::F1),
                bare_key(Key::F2),
                bare_key(Key::F3),
                bare_key(Key::F4),
            ],
            menu_key: input.menu_key,
            menu_mode: input.menu_mode,
            direction_keys: None,
            direction_up: Some(input.direction_up),
            direction_down: Some(input.direction_down),
            direction_left: Some(input.direction_left),
            direction_right: Some(input.direction_right),
            menu_open_delay_ms: input.menu_open_delay_ms,
            key_hold_ms: input.key_hold_ms,
            key_gap_ms: input.key_gap_ms,
            menu_release_delay_ms: input.menu_release_delay_ms,
            bindings: Map::empty(),
        }
    }

    /// The key for a direction: the explicit one, else that of the layout
    /// selector, else the arrow key.
    pub open spec fn direction_choice(self, direction: Direction) -> Key {
        let explicit = match direction {
            Direction::Up => self.direction_up,
            Direction::Down => self.direction_down,
            Direction::Left => self.direction_left,
            Direction::Right => self.direction_right,
        };
        match explicit {
            Some(key) => key,
            None => match self.direction_keys {
                Some(layout) => layout.key_for(direction),
                None => StratagemInputSettings::defaults().key_for(direction),
            },
        }
    }

    /// The input settings that the section stands for.
    pub open spec fn input_settings(self) -> StratagemInputSettings {
        StratagemInputSettings {
            menu_key: self.menu_key,
            menu_mode: self.menu_mode,
            direction_up: self.direction_choice(Direction::Up),
            direction_down: self.direction_choice(Direction::Down),
            direction_left: self.direction_choice(Direction::Left),
            direction_right: self.direction_choice(Direction::Right),
            menu_open_delay_ms: self.menu_open_delay_ms,
            key_hold_ms: self.key_hold_ms,
            key_gap_ms: self.key_gap_ms,
            menu_release_delay_ms: self.menu_release_delay_ms,
        }
    }
}

impl AppConfigView {
    /// The configuration where nothing is configured.
    pub open spec fn defaults() -> AppConfigView {
        AppConfigView {
            presets: PresetsConfigView::defaults(),
            hotkey: HotkeyConfigView::defaults(),
            mission: MissionConfigView::defaults(),
            window: WindowConfig { start_hidden: false },
        }
    }

    /// The configuration without the path of an older version.
    pub open spec fn without_legacy_path(self) -> AppConfigView {
        AppConfigView {
            presets: PresetsConfigView { legacy_path: None, ..self.presets },
            ..self
        }
    }
}

impl Default for PresetsConfig {
    fn default() -> (r: PresetsConfig)
        ensures
            r@ == PresetsConfigView::defaults(),
    {
        let r = PresetsConfig {
            legacy_path: None,
            apply_in_saved_order: true,
            auto_ready_up: false,
            save_fallback_when_taken: false,
            labels: TextMap::new(),
        };
        assert(r@.labels =~= Map::empty());
        r
    }
}

impl Default for HotkeyConfig {
    fn default() -> (r: HotkeyConfig)
        ensures
            r@ == HotkeyConfigView::defaults(),
    {
        let mut modifiers: Vec<HotkeyModifier> = Vec::new();
        modifiers.push(HotkeyModifier::Shift);
        let mut keys: Vec<Key> = Vec::new();
        keys.push(Key::F1);
        keys.push(Key::F2);
        keys.push(Key::F3);
        keys.push(Key::F4);
        let r = HotkeyConfig { modifiers, keys };
        assert(r@ =~= HotkeyConfigView::defaults());
        r
    }
}

impl Default for MissionConfig {
    fn default() -> (r: MissionConfig)
        ensures
            r@ == MissionConfigView::defaults(),
    {
        let input = StratagemInputSettings::default();
        let mut slot_keys: Vec<HotkeyBinding> = Vec::new();
        slot_keys.push(HotkeyBinding::bare(Key::F1));
        slot_keys.push(HotkeyBinding::bare(Key::F2));
        slot_keys.push(HotkeyBinding::bare(Key::F3));
        slot_keys.push(HotkeyBinding::bare(Key::F4));
        let r = MissionConfig {
            enabled: true,
            slot_keys,
            menu_key: input.menu_key,
            menu_mode: input.menu_mode,
            direction_keys: None,
            direction_up: Some(input.direction_up),
            direction_down: Some(input.direction_down),
            direction_left: Some(input.direction_left),
            direction_right: Some(input.direction_right),
            menu_open_delay_ms: input.menu_open_delay_ms,
            key_hold_ms: input.key_hold_ms,
            key_gap_ms: input.key_gap_ms,
            menu_release_delay_ms: input.menu_release_delay_ms,
            bindings: TextMap::new(),
        };
        assert(r@ =~= MissionConfigView::defaults());
        r
    }
}

impl Default for WindowConfig {
    fn default() -> (r: WindowConfig)
        ensures
            r == (WindowConfig { start_hidden: false }),
    {
        WindowConfig { start_hidden: false }
    }
}

impl Default for AppConfig {
    fn default() -> (r: AppConfig)
        ensures
            r@ == AppConfigView::defaults(),
    {
        AppConfig {
            presets: PresetsConfig::default(),
            hotkey: HotkeyConfig::default(),
            mission: MissionConfig::default(),
            window: WindowConfig::default(),
        }
    }
}

/// The direction key of a mission section in which `explicit` is set: one that is
/// missing is left to the layout selector, or else has its default.
pub open spec fn direction_set(
    explicit: Option<Key>,
    layout: Option<DirectionKeys>,
    direction: Direction,
) -> Option<Key> {
    if explicit is None && layout is None {
        Some(StratagemInputSettings::defaults().key_for(direction))
    } else {
        explicit
    }
}

/// The direction key of a mission section in which `explicit` is set.
pub fn set_direction(
    explicit: Option<Key>,
    layout: Option<DirectionKeys>,
    direction: Direction,
) -> (r: Option<Key>)
    ensures
        r == direction_set(explicit, layout, direction),
{
    if explicit.is_none() && layout.is_none() {
        Some(StratagemInputSettings::default().direction_key(direction))
    } else {
        explicit
    }
}

impl MissionConfig {
    /// The input settings that the section stands for.
    pub fn stratagem_input(&self) -> (r: StratagemInputSettings)
        ensures
            r == self@.input_settings(),
    {
        let mut settings = StratagemInputSettings::default();
        settings.menu_key = self.menu_key;
        settings.menu_mode = self.menu_mode;
        settings.menu_open_delay_ms = self.menu_open_delay_ms;
        settings.key_hold_ms = self.key_hold_ms;
        settings.key_gap_ms = self.key_gap_ms;
        settings.menu_release_delay_ms = self.menu_release_delay_ms;
        if let Some(layout) = self.direction_keys {
            settings.apply_layout(layout);
        }
        if let Some(key) = self.direction_up {
            settings.set_direction_key(Direction::Up, key);
        }
        if let Some(key) = self.direction_down {
            settings.set_direction_key(Direction::Down, key);
        }
        if let Some(key) = self.direction_left {
            settings.set_direction_key(Direction::Left, key);
        }
        if let Some(key) = self.direction_right {
            settings.set_direction_key(Direction::Right, key);
        }
        settings
    }
}

// ----- validation ------------------------------------------------------------

/// Why a configuration is refused.
#[derive(Debug)]
pub enum ConfigError {
    HotkeyCount(usize),
    NotFunctionKey(Key),
    LabelName(String),
    LabelControl(String),
    SlotKeyCount(usize),
    Input(InputError),
}

/// Why a configuration is refused, as a mathematical value.
pub enum ConfigFault {
    HotkeyCount(nat),
    NotFunctionKey(Key),
    LabelName(Seq<char>),
    LabelControl(Seq<char>),
    SlotKeyCount(nat),
    Input(InputError),
}

impl View for ConfigError {
    type V = ConfigFault;

    open spec fn view(&self) -> ConfigFault {
        match self {
            ConfigError::HotkeyCount(count) => ConfigFault::HotkeyCount(*count as nat),
            ConfigError::NotFunctionKey(key) => ConfigFault::NotFunctionKey(*key),
            ConfigError::LabelName(name) => ConfigFault::LabelName(name@),
            ConfigError::LabelControl(name) => ConfigFault::LabelControl(name@),
            ConfigError::SlotKeyCount(count) => ConfigFault::SlotKeyCount(*count as nat),
            ConfigError::Input(error) => ConfigFault::Input(*error),
        }
    }
}

impl ConfigFault {
    /// The message shown to the user.
    pub open spec fn message_text(self) -> Seq<char> {
        match self {
            ConfigFault::HotkeyCount(count) => "hotkey.keys must contain 1 to 4 keys, got "@ + decimal(
                count,
            ),
            ConfigFault::NotFunctionKey(key) => "hotkey.keys only supports f1 through f12, got "@
                + key.identifier_text(),
            ConfigFault::LabelName(name) => {
                "presets.labels key must be preset_1 through preset_4, got "@ + name
            },
            ConfigFault::LabelControl(name) => "presets.labels."@ + name
                + " must not contain control characters"@,
            ConfigFault::SlotKeyCount(count) => {
                "mission.slot_keys must contain exactly 4 keys, got "@ + decimal(count)
            },
            ConfigFault::Input(error) => error.message_text(),
        }
    }
}

impl ConfigError {
    /// The message shown to the user.
    pub fn message(&self) -> (r: String)
        ensures
            r@ == self@.message_text(),
    {
        match self {
            ConfigError::HotkeyCount(count) => {
                let mut out = "hotkey.keys must contain 1 to 4 keys, got ".to_string();
                out.push_str(decimal_of(*count as u64).as_str());
                out
            },
            ConfigError::NotFunctionKey(key) => {
                let mut out = "hotkey.keys only supports f1 through f12, got ".to_string();
                out.push_str(key.identifier());
                out
            },
            ConfigError::LabelName(name) => {
                let mut out = "presets.labels key must be preset_1 through preset_4, got ".to_string();
                out.push_str(name.as_str());
                out
            },
            ConfigError::LabelControl(name) => {
                let mut out = "presets.labels.".to_string();
                out.push_str(name.as_str());
                out.push_str(" must not contain control characters");
                out
            },
            ConfigError::SlotKeyCount(count) => {
                let mut out = "mission.slot_keys must contain exactly 4 keys, got ".to_string();
                out.push_str(decimal_of(*count as u64).as_str());
                out
            },
            ConfigError::Input(error) => error.message(),
        }
    }
}

/// What is wrong with the preset hotkeys: their number, or the first that is not
/// a function key.
pub open spec fn hotkey_fault(keys: Seq<Key>) -> Option<ConfigFault> {
    if keys.len() == 0 || keys.len() > MAX_PRESET_HOTKEYS {
        Some(ConfigFault::HotkeyCount(keys.len()))
    } else {
        first_other_key(keys)
    }
}

/// The first key that is not a function key.
pub open spec fn first_other_key(keys: Seq<Key>) -> Option<ConfigFault>
    decreases keys.len(),
{
    if keys.len() == 0 {
        None
    } else if first_other_key(keys.drop_last()) is Some {
        first_other_key(keys.drop_last())
    } else if !keys.last().function_key() {
        Some(ConfigFault::NotFunctionKey(keys.last()))
    } else {
        None
    }
}

/// The name of a preset slot.
pub open spec fn preset_slot_name(name: Seq<char>) -> bool {
    name == "preset_1"@ || name == "preset_2"@ || name == "preset_3"@ || name == "preset_4"@
}

/// What is wrong with one label.
pub open spec fn label_fault(name: Seq<char>, label: Seq<char>) -> Option<ConfigFault> {
    if !preset_slot_name(name) {
        Some(ConfigFault::LabelName(name))
    } else if has_control(label) {
        Some(ConfigFault::LabelControl(name))
    } else {
        None
    }
}

/// What is wrong with the labels, in the order of their names.
pub open spec fn labels_fault(labels: Seq<(Seq<char>, String)>) -> Option<ConfigFault>
    decreases labels.len(),
{
    if labels.len() == 0 {
        None
    } else if labels_fault(labels.drop_last()) is Some {
        labels_fault(labels.drop_last())
    } else {
        label_fault(labels.last().0, labels.last().1@)
    }
}

/// What is wrong with the mission section.
pub open spec fn mission_fault(mission: MissionConfigView) -> Option<ConfigFault> {
    if mission.slot_keys.len() != 4 {
        Some(ConfigFault::SlotKeyCount(mission.slot_keys.len()))
    } else {
        match mission.input_settings().problem() {
            Some(error) => Some(ConfigFault::Input(error)),
            None => None,
        }
    }
}

/// The first thing that is wrong with a configuration.
pub open spec fn config_fault(config: AppConfig) -> Option<ConfigFault> {
    if hotkey_fault(config.hotkey.keys@) is Some {
        hotkey_fault(config.hotkey.keys@)
    } else if labels_fault(config.presets.labels@) is Some {
        labels_fault(config.presets.labels@)
    } else {
        mission_fault(config.mission@)
    }
}

/// Checks a configuration. The first thing that is wrong is reported.
pub fn validate(config: &AppConfig) -> (r: Result<(), ConfigError>)
    ensures
        match r {
            Ok(_) => config_fault(*config) is None,
            Err(error) => config_fault(*config) == Some(error@),
        },
{
    match validate_hotkey_keys(&config.hotkey.keys) {
        Ok(_) => {},
        Err(error) => {
            return Err(error);
        },
    }
    match validate_preset_labels(&config.presets.labels) {
        Ok(_) => {},
        Err(error) => {
            return Err(error);
        },
    }
    validate_mission(&config.mission)
}

proof fn lemma_other_key_stays(keys: Seq<Key>, n: int)
    requires
        0 <= n <= keys.len(),
        first_other_key(keys.take(n)) is Some,
    ensures
        first_other_key(keys) == first_other_key(keys.take(n)),
    decreases keys.len() - n,
{
    if n < keys.len() {
        assert(keys.take(n + 1).drop_last() == keys.take(n));
        lemma_other_key_stays(keys, n + 1);
    } else {
        assert(keys.take(n) == keys);
    }
}

fn validate_hotkey_keys(keys: &Vec<Key>) -> (r: Result<(), ConfigError>)
    ensures
        match r {
            Ok(_) => hotkey_fault(keys@) is None,
            Err(error) => hotkey_fault(keys@) == Some(error@),
        },
{
    if keys.len() == 0 || keys.len() > MAX_PRESET_HOTKEYS {
        return Err(ConfigError::HotkeyCount(keys.len()));
    }
    let mut i: usize = 0;
    assert(keys@.take(0) == Seq::<Key>::empty());
    while i < keys.len()
        invariant
            i <= keys@.len(),
            0 < keys@.len() <= MAX_PRESET_HOTKEYS,
            first_other_key(keys@.take(i as int)) is None,
        decreases keys@.len() - i,
    {
        assert(keys@.take(i + 1).drop_last() == keys@.take(i as int));
        if !keys[i].is_function_key() {
            proof {
                lemma_other_key_stays(keys@, i + 1);
            }
            return Err(ConfigError::NotFunctionKey(keys[i]));
        }
        i = i + 1;
    }
    assert(keys@.take(keys@.len() as int) == keys@);
    Ok(())
}

proof fn lemma_label_fault_stays(labels: Seq<(Seq<char>, String)>, n: int)
    requires
        0 <= n <= labels.len(),
        labels_fault(labels.take(n)) is Some,
    ensures
        labels_fault(labels) == labels_fault(labels.take(n)),
    decreases labels.len() - n,
{
    if n < labels.len() {
        assert(labels.take(n + 1).drop_last() == labels.take(n));
        lemma_label_fault_stays(labels, n + 1);
    } else {
        assert(labels.take(n) == labels);
    }
}

fn validate_preset_labels(labels: &TextMap<String>) -> (r: Result<(), ConfigError>)
    ensures
        match r {
            Ok(_) => labels_fault(labels@) is None,
            Err(error) => labels_fault(labels@) == Some(error@),
        },
{
    let mut i: usize = 0;
    assert(labels@.take(0) == Seq::<(Seq<char>, String)>::empty());
    while i < labels.len()
        invariant
            i <= labels@.len(),
            labels_fault(labels@.take(i as int)) is None,
        decreases labels@.len() - i,
    {
        assert(labels@.take(i + 1).drop_last() == labels@.take(i as int));
        assert(labels@.take(i + 1).last() == labels@[i as int]);
        let name = labels.key_at(i);
        let label = labels.value_at(i);
        if !(same_text(name, "preset_1") || same_text(name, "preset_2") || same_text(
            name,
            "preset_3",
        ) || same_text(name, "preset_4")) {
            proof {
                lemma_label_fault_stays(labels@, i + 1);
            }
            return Err(ConfigError::LabelName(name.to_string()));
        }
        if contains_control(label.as_str()) {
            proof {
                lemma_label_fault_stays(labels@, i + 1);
            }
            return Err(ConfigError::LabelControl(name.to_string()));
        }
        i = i + 1;
    }
    assert(labels@.take(labels@.len() as int) == labels@);
    Ok(())
}

fn validate_mission(mission: &MissionConfig) -> (r: Result<(), ConfigError>)
    ensures
        match r {
            Ok(_) => mission_fault(mission@) is None,
            Err(error) => mission_fault(mission@) == Some(error@),
        },
{
    if mission.slot_keys.len() != 4 {
        return Err(ConfigError::SlotKeyCount(mission.slot_keys.len()));
    }
    match mission.stratagem_input().validate() {
        Ok(_) => Ok(()),
        Err(error) => Err(ConfigError::Input(error)),
    }
}

// ----- reset -----------------------------------------------------------------

/// `Path`'s `==`, which compares component by component: equal texts are the same
/// path, and a text that is cut in the same way on every platform is the same path
/// as names joined by slashes when it has these names as components. Which other
/// texts are the same path depends on the platform and is left open.
#[verifier::external_body]
fn same_path(a: &str, b: &str) -> (r: bool)
    ensures
        a@ == b@ ==> r,
        portable_path(a@) && plain_path(b@) ==> r == (named_parts(split(a@, '/')) == named_parts(
            split(b@, '/'),
        )),
{
    Path::new(a) == Path::new(b)
}

/// What becomes of a configuration of an older version.
#[derive(Clone, Copy, Debug, PartialEq, Eq, Structural)]
pub enum ConfigResetAction {
    Keep,
    Silent,
    Notify,
}

/// What becomes of a configuration, where `at_presets_path` says whether its
/// older path is the one in use today.
pub open spec fn reset_action(config: AppConfigView, at_presets_path: bool) -> ConfigResetAction {
    if config.presets.legacy_path is None {
        ConfigResetAction::Keep
    } else if at_presets_path && config.without_legacy_path() == AppConfigView::defaults() {
        ConfigResetAction::Silent
    } else {
        ConfigResetAction::Notify
    }
}

impl AppConfig {
    /// Whether everything but the path of an older version is as by default.
    pub fn is_default_but_legacy_path(&self) -> (r: bool)
        ensures
            r == (self@.without_legacy_path() == AppConfigView::defaults()),
    {
        let presets = &self.presets;
        if !presets.apply_in_saved_order || presets.auto_ready_up
            || presets.save_fallback_when_taken || self.window.start_hidden {
            return false;
        }
        if presets.labels.len() != 0 {
            proof {
                lemma_some_entry(presets.labels@);
                assert(self@.presets.labels.contains_key(presets.labels@[0].0));
                assert(!AppConfigView::defaults().presets.labels.contains_key(
                    presets.labels@[0].0,
                ));
            }
            return false;
        }
        let hotkey = &self.hotkey;
        if hotkey.modifiers.len() != 1 || hotkey.keys.len() != 4 {
            return false;
        }
        if hotkey.modifiers[0] != HotkeyModifier::Shift || hotkey.keys[0] != Key::F1
            || hotkey.keys[1] != Key::F2 || hotkey.keys[2] != Key::F3 || hotkey.keys[3] != Key::F4 {
            assert(HotkeyConfigView::defaults().keys[0] == Key::F1);
            assert(HotkeyConfigView::defaults().keys[1] == Key::F2);
            assert(HotkeyConfigView::defaults().keys[2] == Key::F3);
            assert(HotkeyConfigView::defaults().keys[3] == Key::F4);
            assert(HotkeyConfigView::defaults().modifiers[0] == HotkeyModifier::Shift);
            return false;
        }
        let mission = &self.mission;
        if mission.slot_keys.len() != 4 {
            return false;
        }
        if mission.slot_keys[0] != HotkeyBinding::bare(Key::F1) || mission.slot_keys[1]
            != HotkeyBinding::bare(Key::F2) || mission.slot_keys[2] != HotkeyBinding::bare(Key::F3)
            || mission.slot_keys[3] != HotkeyBinding::bare(Key::F4) {
            assert(MissionConfigView::defaults().slot_keys[0] == bare_key(Key::F1));
            assert(MissionConfigView::defaults().slot_keys[1] == bare_key(Key::F2));
            assert(MissionConfigView::defaults().slot_keys[2] == bare_key(Key::F3));
            assert(MissionConfigView::defaults().slot_keys[3] == bare_key(Key::F4));
            return false;
        }
        if mission.bindings.len() != 0 {
            proof {
                lemma_some_entry(mission.bindings@);
                assert(self@.mission.bindings.contains_key(mission.bindings@[0].0));
                assert(!AppConfigView::defaults().mission.bindings.contains_key(
                    mission.bindings@[0].0,
                ));
            }
            return false;
        }
        let input = StratagemInputSettings::default();
        let same = mission.enabled && mission.menu_key == input.menu_key && mission.menu_mode
            == input.menu_mode && mission.direction_keys.is_none() && is_key(
            mission.direction_up,
            input.direction_up,
        ) && is_key(mission.direction_down, input.direction_down) && is_key(
            mission.direction_left,
            input.direction_left,
        ) && is_key(mission.direction_right, input.direction_right) && mission.menu_open_delay_ms
            == input.menu_open_delay_ms && mission.key_hold_ms == input.key_hold_ms
            && mission.key_gap_ms == input.key_gap_ms && mission.menu_release_delay_ms
            == input.menu_release_delay_ms;
        proof {
            if same {
                assert(self@.presets.labels =~= Map::empty());
                assert(self@.mission.bindings =~= Map::empty());
                assert(self@.mission =~= MissionConfigView::defaults());
                assert(self@.hotkey =~= HotkeyConfigView::defaults());
                assert(self@.without_legacy_path() =~= AppConfigView::defaults());
            }
        }
        same
    }
}

fn is_key(choice: Option<Key>, key: Key) -> (r: bool)
    ensures
        r == (choice == Some(key)),
{
    match choice {
        Some(chosen) => chosen == key,
        None => false,
    }
}

proof fn lemma_some_entry<V>(entries: Seq<(Seq<char>, V)>)
    requires
        entries.len() > 0,
    ensures
        crate::text_map::as_map(entries).contains_key(entries[0].0),
{
    assert(crate::text_map::has_key(entries, entries[0].0));
}

/// What becomes of a configuration, where `at_presets_path` says whether its
/// older path is the one in use today.
pub fn decide_reset(config: &AppConfig, at_presets_path: bool) -> (r: ConfigResetAction)
    ensures
        r == reset_action(config@, at_presets_path),
{
    if config.presets.legacy_path.is_none() {
        ConfigResetAction::Keep
    } else if at_presets_path && config.is_default_but_legacy_path() {
        ConfigResetAction::Silent
    } else {
        ConfigResetAction::Notify
    }
}

/// The path leads to the preset file.
pub open spec fn names_preset_file(path: Seq<char>) -> bool {
    named_parts(split(path, '/')) == seq![
        PathPartView::Normal("data"@),
        PathPartView::Normal("presets.json"@),
    ]
}

proof fn lemma_preset_file_path()
    ensures
        plain_path(PRESETS_RELATIVE_PATH@),
        names_preset_file(PRESETS_RELATIVE_PATH@),
{
    reveal_strlit("data/presets.json");
    reveal_strlit("data");
    reveal_strlit("presets.json");
    reveal_strlit(".");
    reveal_strlit("..");
    let text = PRESETS_RELATIVE_PATH@;
    assert(text =~= "data"@ + seq!['/'] + "presets.json"@);
    lemma_split_concat("data"@, "presets.json"@, '/');
    lemma_split_single("data"@, '/');
    lemma_split_single("presets.json"@, '/');
    let names = split(text, '/');
    assert(names =~= seq!["data"@, "presets.json"@]);
    lemma_plain_path(text);
    reveal_with_fuel(named_parts, 3);
    assert(names.drop_last() =~= seq!["data"@]);
    assert(names.drop_last().drop_last() =~= Seq::<Seq<char>>::empty());
    assert(named_parts(names) =~= seq![
        PathPartView::Normal("data"@),
        PathPartView::Normal("presets.json"@),
    ]);
}

/// What becomes of a configuration of an older version: it is reset, silently
/// when nothing but the path would be lost.
pub fn config_reset_action(config: &AppConfig) -> (r: ConfigResetAction)
    ensures
        (r == ConfigResetAction::Keep) == (config@.presets.legacy_path is None),
        r == ConfigResetAction::Silent ==> config@.without_legacy_path()
            == AppConfigView::defaults(),
        config@.presets.legacy_path == Some(PRESETS_RELATIVE_PATH@) ==> r == reset_action(
            config@,
            true,
        ),
        config@.presets.legacy_path is Some && portable_path(config@.presets.legacy_path->0) ==> r
            == reset_action(config@, names_preset_file(config@.presets.legacy_path->0)),
        r == reset_action(config@, true) || r == reset_action(config@, false),
{
    proof {
        lemma_preset_file_path();
    }
    let at_presets_path = match &config.presets.legacy_path {
        Some(path) => same_path(path.as_str(), PRESETS_RELATIVE_PATH),
        None => false,
    };
    decide_reset(config, at_presets_path)
}

/// How a configuration is taken into use.
pub struct ConfigPlan {
    /// Keep a copy of the unreadable file.
    pub backup: bool,
    /// Write the default configuration over the file.
    pub rewrite: bool,
    /// Tell the user about the reset.
    pub notify: bool,
    /// The configuration to run with.
    pub config: Result<AppConfig, ConfigError>,
}

/// Settles which configuration is used: the one that was read, or the defaults
/// where the file could not be read or comes from an older version. `reset` is
/// what `config_reset_action` says of the one that was read.
pub fn settle_config(
    read: Option<AppConfig>,
    reset: ConfigResetAction,
    defaults: AppConfig,
) -> (r: ConfigPlan)
    ensures
        r.backup == (read is None),
        r.rewrite == (read is None || reset != ConfigResetAction::Keep),
        r.notify == (read is None || reset == ConfigResetAction::Notify),
        ({
            let chosen = if r.rewrite {
                defaults
            } else {
                read->0
            };
            match r.config {
                Ok(config) => config == chosen && config_fault(chosen) is None,
                Err(error) => config_fault(chosen) == Some(error@),
            }
        }),
{
    let backup = read.is_none();
    let notify = backup || reset == ConfigResetAction::Notify;
    let (chosen, rewrite) = match read {
        Some(config) => if reset != ConfigResetAction::Keep {
            (defaults, true)
        } else {
            (config, false)
        },
        None => (defaults, true),
    };
    let config = match validate(&chosen) {
        Ok(_) => Ok(chosen),
        Err(error) => Err(error),
    };
    ConfigPlan { backup, rewrite, notify, config }
}

// ----- laws ------------------------------------------------------------------

/// The configuration where nothing is configured is accepted, and its input
/// settings are those of a fresh installation.
pub proof fn lemma_default_config_valid(config: AppConfig)
    requires
        config@ == AppConfigView::defaults(),
    ensures
        config_fault(config) is None,
        config@.mission.input_settings() == StratagemInputSettings::defaults(),
{
    if config.presets.labels@.len() > 0 {
        lemma_some_entry(config.presets.labels@);
        assert(config@.presets.labels.contains_key(config.presets.labels@[0].0));
    }
    let keys = config.hotkey.keys@;
    assert(keys == HotkeyConfigView::defaults().keys);
    assert(keys.len() == 4);
    reveal_with_fuel(first_other_key, 5);
    assert(keys.drop_last().last() == Key::F3);
    assert(keys.drop_last().drop_last().last() == Key::F2);
    assert(keys.drop_last().drop_last().drop_last().last() == Key::F1);
    assert(config@.mission.input_settings() == StratagemInputSettings::defaults());
}

/// An accepted configuration gives the tool at most four preset hotkeys, four
/// slot keys and valid input settings.
pub proof fn lemma_accepted_config(config: AppConfig)
    requires
        config_fault(config) is None,
    ensures
        1 <= config.hotkey.keys@.len() <= MAX_PRESET_HOTKEYS,
        config.mission.slot_keys@.len() == 4,
        config@.mission.input_settings().problem() is None,
{
}

/// Explicit direction keys win over the layout selector.
pub proof fn lemma_explicit_directions_win(mission: MissionConfigView, layout: Option<DirectionKeys>)
    requires
        mission.direction_up is Some,
        mission.direction_down is Some,
        mission.direction_left is Some,
        mission.direction_right is Some,
    ensures
        mission.input_settings() == (MissionConfigView {
            direction_keys: layout,
            ..mission
        }).input_settings(),
{
}

/// A mission section that sets no direction key but selects a layout stands for the
/// keys of that layout.
pub proof fn lemma_layout_alone_decides(
    mission: MissionConfigView,
    layout: DirectionKeys,
    direction: Direction,
)
    requires
        mission.direction_keys == Some(layout),
        mission.direction_up == direction_set(None, Some(layout), Direction::Up),
        mission.direction_down == direction_set(None, Some(layout), Direction::Down),
        mission.direction_left == direction_set(None, Some(layout), Direction::Left),
        mission.direction_right == direction_set(None, Some(layout), Direction::Right),
    ensures
        mission.input_settings().key_for(direction) == layout.key_for(direction),
{
}

/// The keys for the directions: the one that is set for a direction, else that of the layout
/// that is selected, else the arrow key. All other input settings are as the section says.
pub proof fn lemma_direction_keys(mission: MissionConfigView)
    ensures
        ({
            let input = mission.input_settings();
            &&& input.menu_key == mission.menu_key
            &&& input.menu_mode == mission.menu_mode
            &&& input.menu_open_delay_ms == mission.menu_open_delay_ms
            &&& input.key_hold_ms == mission.key_hold_ms
            &&& input.key_gap_ms == mission.key_gap_ms
            &&& input.menu_release_delay_ms == mission.menu_release_delay_ms
            &&& mission.direction_up is Some ==> input.direction_up == mission.direction_up->0
            &&& mission.direction_down is Some ==> input.direction_down
                == mission.direction_down->0
            &&& mission.direction_left is Some ==> input.direction_left
                == mission.direction_left->0
            &&& mission.direction_right is Some ==> input.direction_right
                == mission.direction_right->0
            &&& mission.direction_keys == Some(DirectionKeys::Wasd) ==> {
                &&& mission.direction_up is None ==> input.direction_up == Key::W
                &&& mission.direction_down is None ==> input.direction_down == Key::S
                &&& mission.direction_left is None ==> input.direction_left == Key::A
                &&& mission.direction_right is None ==> input.direction_right == Key::D
            }
            &&& mission.direction_keys != Some(DirectionKeys::Wasd) ==> {
                &&& mission.direction_up is None ==> input.direction_up == Key::Up
                &&& mission.direction_down is None ==> input.direction_down == Key::Down
                &&& mission.direction_left is None ==> input.direction_left == Key::Left
                &&& mission.direction_right is None ==> input.direction_right == Key::Right
            }
        }),
{
}

/// A direction key that is set stays. One that is not set is left to the layout where one is
/// selected, and is the arrow key where none is.
pub proof fn lemma_direction_set(
    explicit: Option<Key>,
    layout: Option<DirectionKeys>,
    direction: Direction,
)
    ensures
        explicit is Some || layout is Some ==> direction_set(explicit, layout, direction)
            == explicit,
        explicit is None && layout is None ==> direction_set(explicit, layout, direction) == Some(
            match direction {
                Direction::Up => Key::Up,
                Direction::Down => Key::Down,
                Direction::Left => Key::Left,
                Direction::Right => Key::Right,
            },
        ),
{
}

/// The function keys are F1 through F12.
pub proof fn lemma_function_keys(key: Key)
    ensures
        key.function_key() <==> key == Key::F1 || key == Key::F2 || key == Key::F3 || key
            == Key::F4 || key == Key::F5 || key == Key::F6 || key == Key::F7 || key == Key::F8
            || key == Key::F9 || key == Key::F10 || key == Key::F11 || key == Key::F12,
{
}

proof fn lemma_other_key(keys: Seq<Key>)
    ensures
        match first_other_key(keys) {
            Some(fault) => exists|i: int|
                #![trigger keys[i]]
                0 <= i < keys.len() && fault == ConfigFault::NotFunctionKey(keys[i])
                    && !keys[i].function_key() && forall|j: int|
                    0 <= j < i ==> (#[trigger] keys[j]).function_key(),
            None => forall|i: int| 0 <= i < keys.len() ==> (#[trigger] keys[i]).function_key(),
        },
    decreases keys.len(),
{
    if keys.len() > 0 {
        let before = keys.drop_last();
        let last: int = keys.len() - 1;
        lemma_other_key(before);
        assert forall|i: int| 0 <= i < before.len() implies #[trigger] keys[i] == before[i] by {}
        match first_other_key(before) {
            Some(fault) => {
                let i = choose|i: int|
                    #![trigger before[i]]
                    0 <= i < before.len() && fault == ConfigFault::NotFunctionKey(before[i])
                        && !before[i].function_key() && forall|j: int|
                        0 <= j < i ==> (#[trigger] before[j]).function_key();
                assert(keys[i] == before[i]);
                assert forall|j: int| 0 <= j < i implies (
                #[trigger] keys[j]).function_key() by {
                    assert(before[j].function_key());
                }
            },
            None => {
                assert(keys[last] == keys.last());
                assert forall|j: int| 0 <= j < last implies (
                #[trigger] keys[j]).function_key() by {
                    assert(before[j].function_key());
                }
            },
        }
    }
}

proof fn lemma_label_checked(labels: Seq<(Seq<char>, String)>)
    ensures
        labels_fault(labels) is None <==> forall|i: int|
            0 <= i < labels.len() ==> preset_slot_name((#[trigger] labels[i]).0) && !has_control(
                labels[i].1@,
            ),
    decreases labels.len(),
{
    if labels.len() > 0 {
        let before = labels.drop_last();
        lemma_label_checked(before);
        assert forall|i: int| 0 <= i < before.len() implies #[trigger] labels[i]
            == before[i] by {}
        assert(labels[labels.len() - 1] == labels.last());
        if forall|i: int|
            0 <= i < labels.len() ==> preset_slot_name((#[trigger] labels[i]).0) && !has_control(
                labels[i].1@,
            ) {
            assert forall|i: int| 0 <= i < before.len() implies preset_slot_name(
                (#[trigger] before[i]).0,
            ) && !has_control(before[i].1@) by {
                assert(labels[i] == before[i]);
            }
        }
    }
}

/// A configuration is accepted exactly when it has one to four preset keys, all of them
/// function keys, when each label is that of one of the four presets and holds no control
/// character, when there are four slot keys, and when its input settings are valid.
#[verifier::spinoff_prover]
#[verifier::rlimit(30)]
pub proof fn lemma_accepted_exactly(config: AppConfig)
    ensures
        config_fault(config) is None <==> {
            &&& 1 <= config.hotkey.keys@.len() <= 4
            &&& forall|i: int|
                0 <= i < config.hotkey.keys@.len() ==> (
                #[trigger] config.hotkey.keys@[i]).function_key()
            &&& forall|i: int|
                #![trigger config.presets.labels@[i]]
                0 <= i < config.presets.labels@.len() ==> {
                    let name = config.presets.labels@[i].0;
                    &&& name == "preset_1"@ || name == "preset_2"@ || name == "preset_3"@ || name
                        == "preset_4"@
                    &&& forall|k: int|
                        0 <= k < config.presets.labels@[i].1@.len() ==> !control(
                            #[trigger] config.presets.labels@[i].1@[k],
                        )
                }
            &&& config.mission.slot_keys@.len() == 4
            &&& config@.mission.input_settings().problem() is None
        },
        !(1 <= config.hotkey.keys@.len() <= 4) ==> config_fault(config) == Some(
            ConfigFault::HotkeyCount(config.hotkey.keys@.len()),
        ),
        forall|i: int|
            1 <= config.hotkey.keys@.len() <= 4 && 0 <= i < config.hotkey.keys@.len() && !(
            #[trigger] config.hotkey.keys@[i]).function_key() && (forall|j: int|
                0 <= j < i ==> (#[trigger] config.hotkey.keys@[j]).function_key())
                ==> config_fault(config) == Some(
                ConfigFault::NotFunctionKey(config.hotkey.keys@[i]),
            ),
{
    let keys = config.hotkey.keys@;
    let labels = config.presets.labels@;
    lemma_other_key(keys);
    lemma_label_checked(labels);
    assert forall|i: int|
        0 <= i < labels.len() implies (has_control((#[trigger] labels[i]).1@) <==> !(forall|k: int|
        0 <= k < labels[i].1@.len() ==> !control(#[trigger] labels[i].1@[k]))) by {}
    assert forall|i: int|
        1 <= keys.len() <= 4 && 0 <= i < keys.len() && !(#[trigger] keys[i]).function_key() && (
        forall|j: int| 0 <= j < i ==> (#[trigger] keys[j]).function_key()) implies config_fault(
        config,
    ) == Some(ConfigFault::NotFunctionKey(keys[i])) by {
        let fault = first_other_key(keys)->0;
        let m = choose|m: int|
            #![trigger keys[m]]
            0 <= m < keys.len() && fault == ConfigFault::NotFunctionKey(keys[m])
                && !keys[m].function_key() && forall|j: int|
                0 <= j < m ==> (#[trigger] keys[j]).function_key();
        assert(m == i);
    }
}

/// What becomes of a configuration: without an older path it is kept. With one it is reset,
/// silently only when the path is the one in use today and all else is as by default.
pub proof fn lemma_reset(config: AppConfigView, at_presets_path: bool)
    ensures
        ({
            let rest_default = {
                &&& config.presets.apply_in_saved_order
                    == AppConfigView::defaults().presets.apply_in_saved_order
                &&& config.presets.auto_ready_up == AppConfigView::defaults().presets.auto_ready_up
                &&& config.presets.save_fallback_when_taken
                    == AppConfigView::defaults().presets.save_fallback_when_taken
                &&& config.presets.labels == AppConfigView::defaults().presets.labels
                &&& config.hotkey == AppConfigView::defaults().hotkey
                &&& config.mission == AppConfigView::defaults().mission
                &&& config.window == AppConfigView::defaults().window
            };
            &&& config.presets.legacy_path is None <==> reset_action(config, at_presets_path)
                == ConfigResetAction::Keep
            &&& config.presets.legacy_path is Some && at_presets_path && rest_default
                <==> reset_action(config, at_presets_path) == ConfigResetAction::Silent
        }),
{
    assert(config.without_legacy_path() == AppConfigView::defaults() ==> config.presets.labels
        == AppConfigView::defaults().presets.labels);
}

/// What is configured where nothing is configured.
pub proof fn lemma_default_values()
    ensures
        ({
            let config = AppConfigView::defaults();
            &&& config.presets.legacy_path is None
            &&& config.presets.apply_in_saved_order
            &&& !config.presets.auto_ready_up
            &&& !config.presets.save_fallback_when_taken
            &&& config.presets.labels == Map::<Seq<char>, Seq<char>>::empty()
            &&& config.hotkey.modifiers == seq![HotkeyModifier::Shift]
            &&& config.hotkey.keys == seq![Key::F1, Key::F2, Key::F3, Key::F4]
            &&& config.mission.enabled
            &&& config.mission.slot_keys.len() == 4
            &&& forall|i: int|
                0 <= i < 4 ==> (#[trigger] config.mission.slot_keys[i]).key
                    == config.hotkey.keys[i] && config.mission.slot_keys[i].modifiers
                    == HotkeyModifiers::empty_set()
            &&& config.mission.bindings == Map::<Seq<char>, HotkeyBinding>::empty()
            &&& config.mission.input_settings() == StratagemInputSettings::defaults()
            &&& !config.window.start_hidden
        }),
{
}

} // verus!
