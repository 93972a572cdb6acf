use xilous_stratagems_manager::catalog::Direction;
use xilous_stratagems_manager::config::{
    config_reset_action, decide_reset, set_direction, settle_config, validate, AppConfig, ConfigError,
    ConfigResetAction, PRESETS_RELATIVE_PATH,
};
use xilous_stratagems_manager::config_document::{edit_config, ConfigEdit, ConfigEditError};
use xilous_stratagems_manager::input::HotkeyBinding;
use xilous_stratagems_manager::key::Key;
use xilous_stratagems_manager::stratagem_input::{DirectionKeys, StratagemInputSettings};

const DEFAULTS: &str = "\
[presets]
apply_in_saved_order = false

[presets.labels]

[hotkey]
modifiers = [\"shift\"]

# Keys used in missions.
[mission]
enabled = true
key_hold_ms = 40

[mission.bindings]

[window]
start_hidden = false
";

fn text(value: &str) -> String {
    value.to_string()
}

fn edited(config: &str, edits: Vec<ConfigEdit>) -> String {
    edit_config(config, DEFAULTS, &edits).ok().expect("edited")
}

fn value(config: &str, section: &str, key: &str) -> toml_edit::Item {
    let document: toml_edit::DocumentMut = config.parse().expect("TOML");
    document[section][key].clone()
}

#[test]
fn switches_and_numbers_are_written() {
    let out = edited(
        DEFAULTS,
        vec![
            ConfigEdit::SetBool {
                section: text("presets"),
                key: text("apply_in_saved_order"),
                value: true,
            },
            ConfigEdit::SetInteger { section: text("mission"), key: text("key_hold_ms"), value: 75 },
            ConfigEdit::SetString { section: text("mission"), key: text("menu_key"), value: text("tab") },
        ],
    );
    assert_eq!(value(&out, "presets", "apply_in_saved_order").as_bool(), Some(true));
    assert_eq!(value(&out, "mission", "key_hold_ms").as_integer(), Some(75));
    assert_eq!(value(&out, "mission", "menu_key").as_str(), Some("tab"));
    assert_eq!(value(&out, "mission", "enabled").as_bool(), Some(true));
    assert!(out.contains("# Keys used in missions."));
}

#[test]
fn lists_are_written() {
    let out = edited(
        DEFAULTS,
        vec![ConfigEdit::SetStringArray {
            section: text("mission"),
            key: text("slot_keys"),
            values: vec![text("f1"), text("ctrl+f2")],
        }],
    );
    let item = value(&out, "mission", "slot_keys");
    let keys: Vec<&str> =
        item.as_array().expect("array").iter().map(|key| key.as_str().expect("text")).collect();
    assert_eq!(keys, vec!["f1", "ctrl+f2"]);
}

#[test]
fn nested_keys_are_written_and_removed() {
    let set = |value: Option<&str>| ConfigEdit::SetNestedString {
        section: text("mission"),
        table: text("bindings"),
        key: text("reinforce"),
        value: value.map(text),
    };
    let out = edited(DEFAULTS, vec![set(Some("f5"))]);
    assert_eq!(value(&out, "mission", "bindings")["reinforce"].as_str(), Some("f5"));
    let out = edited(&out, vec![set(None)]);
    assert!(value(&out, "mission", "bindings").get("reinforce").is_none());
}

#[test]
fn missing_sections_come_from_the_defaults() {
    let out = edited("[hotkey]\nmodifiers = [\"alt\"]\n", vec![]);
    assert_eq!(value(&out, "mission", "key_hold_ms").as_integer(), Some(40));
    assert_eq!(value(&out, "hotkey", "modifiers").as_array().map(|list| list.len()), Some(1));
    assert!(out.contains("alt"));
}

#[test]
fn unreadable_configurations_are_not_edited() {
    let none = vec![];
    assert!(matches!(
        edit_config("[mission", DEFAULTS, &none),
        Err(ConfigEditError::Unreadable(_))
    ));
    assert!(matches!(
        edit_config("", "= 1", &none),
        Err(ConfigEditError::UnreadableDefaults(_))
    ));
    assert!(matches!(
        edit_config("", "", &none),
        Err(ConfigEditError::MissingSection(_))
    ));
    assert!(matches!(
        edit_config(
            "mission = 3\n",
            DEFAULTS,
            &vec![ConfigEdit::SetBool { section: text("mission"), key: text("enabled"), value: false }]
        ),
        Err(ConfigEditError::NotATable(_))
    ));
}

#[test]
fn default_configuration_is_valid() {
    let config = AppConfig::default();
    assert!(validate(&config).is_ok());
    assert_eq!(config.mission.stratagem_input(), StratagemInputSettings::default());
}

#[test]
fn explicit_directions_win_over_the_layout() {
    let mut config = AppConfig::default();
    config.mission.direction_keys = Some(DirectionKeys::Wasd);
    config.mission.direction_up = Some(Key::Numpad8);
    config.mission.direction_down = None;
    config.mission.direction_left = None;
    config.mission.direction_right = None;
    let input = config.mission.stratagem_input();
    assert_eq!(input.direction_up, Key::Numpad8);
    assert_eq!(input.direction_down, Key::S);
    assert_eq!(input.direction_left, Key::A);
    assert_eq!(input.direction_right, Key::D);
}

#[test]
fn invalid_configurations_are_refused() {
    let message = |config: &AppConfig| validate(config).err().expect("refused").message();

    let mut config = AppConfig::default();
    config.hotkey.keys = vec![];
    assert_eq!(message(&config), "hotkey.keys must contain 1 to 4 keys, got 0");
    assert!(matches!(validate(&config), Err(ConfigError::HotkeyCount(0))));

    let mut config = AppConfig::default();
    config.hotkey.keys = vec![Key::F1, Key::Numpad7];
    assert!(matches!(validate(&config), Err(ConfigError::NotFunctionKey(Key::Numpad7))));
    assert!(message(&config).starts_with("hotkey.keys only supports f1 through f12, got "));

    let mut config = AppConfig::default();
    config.presets.labels.insert(text("preset_5"), text("five"));
    assert_eq!(
        message(&config),
        "presets.labels key must be preset_1 through preset_4, got preset_5"
    );

    let mut config = AppConfig::default();
    config.presets.labels.insert(text("preset_2"), text("a\nb"));
    assert_eq!(message(&config), "presets.labels.preset_2 must not contain control characters");

    let mut config = AppConfig::default();
    config.mission.slot_keys = vec![HotkeyBinding::bare(Key::F1)];
    assert_eq!(message(&config), "mission.slot_keys must contain exactly 4 keys, got 1");

    let mut config = AppConfig::default();
    config.mission.key_hold_ms = 0;
    assert_eq!(message(&config), "mission.key_hold_ms must be greater than zero");
}

#[test]
fn older_configurations_are_reset() {
    let mut config = AppConfig::default();
    assert_eq!(config_reset_action(&config), ConfigResetAction::Keep);
    config.presets.legacy_path = Some(text(PRESETS_RELATIVE_PATH));
    assert_eq!(config_reset_action(&config), ConfigResetAction::Silent);
    config.presets.legacy_path = Some(text("data//presets.json"));
    assert_eq!(config_reset_action(&config), ConfigResetAction::Silent);
    config.presets.legacy_path = Some(text("elsewhere/presets.json"));
    assert_eq!(config_reset_action(&config), ConfigResetAction::Notify);
    config.presets.legacy_path = Some(text(PRESETS_RELATIVE_PATH));
    config.presets.auto_ready_up = !config.presets.auto_ready_up;
    assert_eq!(config_reset_action(&config), ConfigResetAction::Notify);
    assert_eq!(decide_reset(&config, true), ConfigResetAction::Notify);
}

#[test]
fn the_configuration_in_use_is_settled() {
    let plan = settle_config(None, ConfigResetAction::Keep, AppConfig::default());
    assert!(plan.backup && plan.rewrite && plan.notify && plan.config.is_ok());

    let plan =
        settle_config(Some(AppConfig::default()), ConfigResetAction::Keep, AppConfig::default());
    assert!(!plan.backup && !plan.rewrite && !plan.notify);

    let plan =
        settle_config(Some(AppConfig::default()), ConfigResetAction::Silent, AppConfig::default());
    assert!(!plan.backup && plan.rewrite && !plan.notify);

    let mut broken = AppConfig::default();
    broken.hotkey.keys = vec![];
    let plan = settle_config(Some(broken), ConfigResetAction::Keep, AppConfig::default());
    assert!(plan.config.is_err());
}

#[test]
fn a_layout_alone_decides() {
    let layout = Some(DirectionKeys::Wasd);
    let mut config = AppConfig::default();
    config.mission.direction_keys = layout;
    config.mission.direction_up = set_direction(None, layout, Direction::Up);
    config.mission.direction_down = set_direction(None, layout, Direction::Down);
    config.mission.direction_left = set_direction(Some(Key::Numpad4), layout, Direction::Left);
    config.mission.direction_right = set_direction(None, layout, Direction::Right);
    let input = config.mission.stratagem_input();
    assert_eq!((input.direction_up, input.direction_down), (Key::W, Key::S));
    assert_eq!((input.direction_left, input.direction_right), (Key::Numpad4, Key::D));
    assert_eq!(set_direction(None, None, Direction::Up), Some(Key::Up));
}

/// What a document holds, written in one style.
fn contents(file: &str) -> Vec<String> {
    fn walk(path: &str, table: &dyn toml_edit::TableLike, out: &mut Vec<String>) {
        for (key, item) in table.iter() {
            let path = format!("{path}/{key}");
            match item.as_table_like() {
                Some(inner) => {
                    out.push(path.clone());
                    walk(&path, inner, out);
                }
                None => out.push(format!("{path}={}", item.to_string().trim())),
            }
        }
    }
    let document: toml_edit::DocumentMut = file.parse().expect("TOML");
    let mut out = Vec::new();
    walk("", document.as_table(), &mut out);
    out.sort();
    out
}

#[test]
fn edits_are_read_back_whatever_the_style() {
    let files = [
        "[presets]\n[hotkey]\n[window]\n[mission]\nenabled = false\n[mission.bindings]\na = \"f5\"\n",
        "mission.enabled = false\r\nmission.bindings.a = \"f5\"\r\n",
        "mission = { enabled = false, bindings = { a = \"f5\" } }",
        "mission = { enabled = false, bindings.a = \"f5\", } # last",
        "mission = {\n  enabled = false, # off\n  bindings.a = \"f5\" # on\n}\n",
        "[mission.bindings]\na = \"f5\"\n[[other]]\nx = 1\n[other.sub]\n[mission]\nenabled = false",
        "[[other]]\n[other.sub]\n[[other]]\n[other.sub]\n[mission.bindings]\na = \"f5\"\n",
        "# nothing but a comment",
        "",
    ];
    for file in files {
        let out = edited(
            file,
            vec![
                ConfigEdit::SetBool { section: text("mission"), key: text("enabled"), value: true },
                ConfigEdit::SetNestedString {
                    section: text("mission"),
                    table: text("bindings"),
                    key: text("b c"),
                    value: Some(text("quote \" and\nline\r")),
                },
                ConfigEdit::SetNestedString {
                    section: text("mission"),
                    table: text("bindings"),
                    key: text("a"),
                    value: None,
                },
                ConfigEdit::SetInteger {
                    section: text("elsewhere"),
                    key: text("n"),
                    value: u64::from(u32::MAX),
                },
            ],
        );
        let held = contents(&out);
        assert!(held.contains(&text("/mission/enabled=true")), "{out}");
        assert!(held.contains(&text("/elsewhere/n=4294967295")), "{out}");
        assert!(!held.iter().any(|line| line.starts_with("/mission/bindings/a")), "{out}");
        let document: toml_edit::DocumentMut = out.parse().expect("TOML");
        assert_eq!(
            document["mission"]["bindings"]["b c"].as_str(),
            Some("quote \" and\nline\r"),
            "{out}"
        );
        for kept in contents(file) {
            let edited = kept.starts_with("/mission/enabled") || kept.starts_with("/mission/bindings/a");
            assert!(edited || held.contains(&kept), "{kept} was lost:\n{out}");
        }
    }
}

#[test]
fn the_last_key_of_a_table_can_be_removed() {
    let files = [
        "[mission]\nenabled = false\n[mission.bindings]\na = \"f5\"\n",
        "[mission]\nenabled = false\nbindings.a = \"f5\"\n",
        "mission.enabled = false\nmission.bindings.a = \"f5\"\n",
        "mission = { enabled = false, bindings.a = \"f5\", } # last",
        "mission = { bindings.a = \"f5\", enabled = false, }",
        "mission = { enabled = false, bindings = { a = \"f5\", } }",
        "mission = {\n  enabled = false, # off\n  bindings.a = \"f5\" # on\n}\n",
        "[mission.bindings]\na = \"f5\"\n[mission]\nenabled = false",
    ];
    for file in files {
        let out = edited(
            file,
            vec![ConfigEdit::SetNestedString {
                section: text("mission"),
                table: text("bindings"),
                key: text("a"),
                value: None,
            }],
        );
        let held = contents(&out);
        assert!(held.contains(&text("/mission/enabled=false")), "{out}");
        assert!(!held.iter().any(|line| line.starts_with("/mission/bindings/")), "{out}");
    }
}
