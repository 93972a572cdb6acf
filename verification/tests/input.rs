use xilous_stratagems_manager::catalog::Direction;
use xilous_stratagems_manager::input::{HotkeyBinding, HotkeyModifier, HotkeyModifiers};
use xilous_stratagems_manager::key::Key;
use xilous_stratagems_manager::stratagem_input::{
    execute, DelayField, DirectionKeys, InputError, InputStep, MenuMode, StratagemInputSettings,
};

#[test]
fn binding_round_trips() {
    let binding: HotkeyBinding = "ctrl+shift+f5".parse().expect("parse");
    assert_eq!(binding.key, Key::F5);
    assert_eq!(binding.config_string(), "ctrl+shift+f5");
    assert_eq!(binding.label(), "Ctrl + Shift + F5");

    let bare: HotkeyBinding = "numpad7".parse().expect("parse");
    assert!(bare.modifiers.is_empty());
    assert_eq!(bare.label(), "Num 7");
}

#[test]
fn gameplay_keys_are_not_bindable() {
    assert!("w".parse::<HotkeyBinding>().is_err());
    assert!("ctrl".parse::<HotkeyBinding>().is_err());
    assert!("f1".parse::<HotkeyBinding>().is_ok());
}

#[test]
fn every_bindable_key_is_read_back() {
    for key in Key::bindable() {
        let binding = HotkeyBinding::bare(key);
        let read = HotkeyBinding::parse(&binding.config_string()).expect("parse");
        assert_eq!(read, binding);
    }
    for key in Key::ALL {
        assert_eq!(Key::from_config_name(key.config_name()), Some(key));
    }
}

#[test]
fn refused_bindings_say_why() {
    let message = |value: &str| HotkeyBinding::parse(value).err().expect("refused").message();
    assert_eq!(message("w"), "hotkey \"w\": W cannot be used as a hotkey");
    assert_eq!(message("f1+hyper"), "hotkey \"f1+hyper\" contains unknown key \"hyper\"");
    assert_eq!(message("ctrl"), "hotkey \"ctrl\" does not name a key");
    assert_eq!(message("f1+f2"), "hotkey \"f1+f2\" names more than one key");
    assert_eq!(message("ctrl+ctrl+f1"), "hotkey \"ctrl+ctrl+f1\": Ctrl is listed twice");
    assert_eq!(message("a\tb"), "hotkey \"a\\tb\" contains unknown key \"a\\tb\"");
}

#[test]
fn modifiers_are_listed_in_order() {
    let modifiers = HotkeyModifiers::new(vec![HotkeyModifier::Shift, HotkeyModifier::Ctrl])
        .expect("distinct");
    let listed = modifiers.iter();
    assert_eq!(listed.len(), 2);
    assert!(modifiers.contains(HotkeyModifier::Ctrl));
    assert!(!modifiers.toggled(HotkeyModifier::Ctrl, false).contains(HotkeyModifier::Ctrl));
    assert_eq!(
        HotkeyModifiers::new(vec![HotkeyModifier::Alt, HotkeyModifier::Alt]),
        Err(HotkeyModifier::Alt)
    );
}

#[test]
fn defaults_validate() {
    StratagemInputSettings::default().validate().expect("valid");
}

#[test]
fn menu_key_cannot_be_direction() {
    let mut settings = StratagemInputSettings {
        menu_key: Key::W,
        ..Default::default()
    };
    settings.apply_layout(DirectionKeys::Wasd);
    assert!(settings.validate().is_err());
}

#[test]
fn directions_must_be_distinct() {
    let settings = StratagemInputSettings {
        direction_left: Key::Up,
        ..Default::default()
    };
    assert!(settings.validate().is_err());
}

#[test]
fn layouts_and_custom_keys() {
    let mut settings = StratagemInputSettings::default();
    assert!(settings.matches_layout(DirectionKeys::Arrows));
    settings.apply_layout(DirectionKeys::Wasd);
    assert_eq!(settings.direction_key(Direction::Left), Key::A);
    settings.set_direction_key(Direction::Up, Key::Numpad8);
    assert!(!settings.matches_layout(DirectionKeys::Wasd));
    settings.menu_key = Key::Home;
    settings.validate().expect("custom layout is valid");
}

#[test]
fn delays_are_limited() {
    let settings = StratagemInputSettings { key_gap_ms: 1_001, ..Default::default() };
    let error = settings.validate().err().expect("too long");
    assert_eq!(error, InputError::DelayTooLong { field: DelayField::KeyGap, value: 1_001 });
    assert_eq!(error.message(), "mission.key_gap_ms must be at most 1000 ms, got 1001");
    let settings = StratagemInputSettings { key_gap_ms: 1_000, ..Default::default() };
    assert!(settings.validate().is_ok());
    let settings = StratagemInputSettings { key_hold_ms: 0, ..Default::default() };
    assert_eq!(settings.validate(), Err(InputError::ZeroHold));
}

#[test]
fn input_errors_are_told_apart() {
    let settings = StratagemInputSettings { menu_key: Key::Up, ..Default::default() };
    assert_eq!(settings.validate(), Err(InputError::MenuKeyIsDirection));
    let settings = StratagemInputSettings { direction_right: Key::Left, ..Default::default() };
    let error = settings.validate().err().expect("repeated");
    assert_eq!(error, InputError::RepeatedDirectionKey(Key::Left));
    assert_eq!(error.message(), "Left is used for more than one direction");
}

#[test]
fn a_held_menu_encloses_the_taps() {
    let settings = StratagemInputSettings::default();
    let steps = execute(&settings, &vec![Direction::Up, Direction::Left]).expect("plan");
    assert_eq!(
        steps,
        vec![
            InputStep::Press(Key::LCtrl),
            InputStep::Wait(60),
            InputStep::Tap { key: Key::Up, hold_ms: 40 },
            InputStep::Wait(40),
            InputStep::Tap { key: Key::Left, hold_ms: 40 },
            InputStep::Wait(40),
            InputStep::Release(Key::LCtrl),
        ]
    );
}

#[test]
fn a_pressed_menu_is_tapped_first() {
    let settings = StratagemInputSettings { menu_mode: MenuMode::Press, ..Default::default() };
    let steps = execute(&settings, &vec![Direction::Down]).expect("plan");
    assert_eq!(
        steps,
        vec![
            InputStep::Tap { key: Key::LCtrl, hold_ms: 40 },
            InputStep::Wait(60),
            InputStep::Tap { key: Key::Down, hold_ms: 40 },
        ]
    );
}

#[test]
fn an_empty_code_is_refused() {
    let result = execute(&StratagemInputSettings::default(), &vec![]);
    assert_eq!(result, Err(InputError::EmptyCode));
    assert_eq!(InputError::EmptyCode.message(), "stratagem code is empty");
}

#[test]
fn durations_are_estimated() {
    let settings = StratagemInputSettings::default();
    assert_eq!(settings.estimated_duration(5), 60 + 5 * 40 + 40 + 4 * 40 + 40);
    let pressed = StratagemInputSettings { menu_mode: MenuMode::Press, ..Default::default() };
    assert_eq!(pressed.estimated_duration(1), 60 + 40 + 40);
}
