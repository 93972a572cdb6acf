//! The keys that the tool can send or listen to.
use crate::text::{ascii_lower, ascii_lowered, lemma_trim_fixed, same_text, trim, trimmed};
use vstd::prelude::*;

verus! {

/// A key of the keyboard.
#[derive(Debug, Clone, Copy, PartialEq, Eq, Hash, Structural)]
pub enum Key {
    B,
    W,
    A,
    S,
    D,
    Up,
    Down,
    Left,
    Right,
    Digit0,
    Digit1,
    Digit2,
    Digit3,
    Digit4,
    Digit5,
    Digit6,
    Digit7,
    Digit8,
    Digit9,
    Numpad0,
    Numpad1,
    Numpad2,
    Numpad3,
    Numpad4,
    Numpad5,
    Numpad6,
    Numpad7,
    Numpad8,
    Numpad9,
    Home,
    End,
    Insert,
    Delete,
    PageUp,
    PageDown,
    F1,
    F2,
    F3,
    F4,
    F5,
    F6,
    F7,
    F8,
    F9,
    F10,
    F11,
    F12,
    LCtrl,
    RCtrl,
    LShift,
    RShift,
    LAlt,
    RAlt,
    LWin,
    RWin,
}

impl Key {
    /// Every key, in the order of the declaration.
    pub const ALL: [Key; 55] = [
        Key::B,
        Key::W,
        Key::A,
        Key::S,
        Key::D,
        Key::Up,
        Key::Down,
        Key::Left,
        Key::Right,
        Key::Digit0,
        Key::Digit1,
        Key::Digit2,
        Key::Digit3,
        Key::Digit4,
        Key::Digit5,
        Key::Digit6,
        Key::Digit7,
        Key::Digit8,
        Key::Digit9,
        Key::Numpad0,
        Key::Numpad1,
        Key::Numpad2,
        Key::Numpad3,
        Key::Numpad4,
        Key::Numpad5,
        Key::Numpad6,
        Key::Numpad7,
        Key::Numpad8,
        Key::Numpad9,
        Key::Home,
        Key::End,
        Key::Insert,
        Key::Delete,
        Key::PageUp,
        Key::PageDown,
        Key::F1,
        Key::F2,
        Key::F3,
        Key::F4,
        Key::F5,
        Key::F6,
        Key::F7,
        Key::F8,
        Key::F9,
        Key::F10,
        Key::F11,
        Key::F12,
        Key::LCtrl,
        Key::RCtrl,
        Key::LShift,
        Key::RShift,
        Key::LAlt,
        Key::RAlt,
        Key::LWin,
        Key::RWin,
    ];

    /// The place of the key in `ALL`.
    pub open spec fn ordinal(self) -> int {
        match self {
            Key::B => 0,
            Key::W => 1,
            Key::A => 2,
            Key::S => 3,
            Key::D => 4,
            Key::Up => 5,
            Key::Down => 6,
            Key::Left => 7,
            Key::Right => 8,
            Key::Digit0 => 9,
            Key::Digit1 => 10,
            Key::Digit2 => 11,
            Key::Digit3 => 12,
            Key::Digit4 => 13,
            Key::Digit5 => 14,
            Key::Digit6 => 15,
            Key::Digit7 => 16,
            Key::Digit8 => 17,
            Key::Digit9 => 18,
            Key::Numpad0 => 19,
            Key::Numpad1 => 20,
            Key::Numpad2 => 21,
            Key::Numpad3 => 22,
            Key::Numpad4 => 23,
            Key::Numpad5 => 24,
            Key::Numpad6 => 25,
            Key::Numpad7 => 26,
            Key::Numpad8 => 27,
            Key::Numpad9 => 28,
            Key::Home => 29,
            Key::End => 30,
            Key::Insert => 31,
            Key::Delete => 32,
            Key::PageUp => 33,
            Key::PageDown => 34,
            Key::F1 => 35,
            Key::F2 => 36,
            Key::F3 => 37,
            Key::F4 => 38,
            Key::F5 => 39,
            Key::F6 => 40,
            Key::F7 => 41,
            Key::F8 => 42,
            Key::F9 => 43,
            Key::F10 => 44,
            Key::F11 => 45,
            Key::F12 => 46,
            Key::LCtrl => 47,
            Key::RCtrl => 48,
            Key::LShift => 49,
            Key::RShift => 50,
            Key::LAlt => 51,
            Key::RAlt => 52,
            Key::LWin => 53,
            Key::RWin => 54,
        }
    }

    /// The name shown to the user.
    pub open spec fn name_text(self) -> Seq<char> {
        match self {
            Key::B => "B"@,
            Key::W => "W"@,
            Key::A => "A"@,
            Key::S => "S"@,
            Key::D => "D"@,
            Key::Up => "Up"@,
            Key::Down => "Down"@,
            Key::Left => "Left"@,
            Key::Right => "Right"@,
            Key::Digit0 => "0"@,
            Key::Digit1 => "1"@,
            Key::Digit2 => "2"@,
            Key::Digit3 => "3"@,
            Key::Digit4 => "4"@,
            Key::Digit5 => "5"@,
            Key::Digit6 => "6"@,
            Key::Digit7 => "7"@,
            Key::Digit8 => "8"@,
            Key::Digit9 => "9"@,
            Key::Numpad0 => "Num 0"@,
            Key::Numpad1 => "Num 1"@,
            Key::Numpad2 => "Num 2"@,
            Key::Numpad3 => "Num 3"@,
            Key::Numpad4 => "Num 4"@,
            Key::Numpad5 => "Num 5"@,
            Key::Numpad6 => "Num 6"@,
            Key::Numpad7 => "Num 7"@,
            Key::Numpad8 => "Num 8"@,
            Key::Numpad9 => "Num 9"@,
            Key::Home => "Home"@,
            Key::End => "End"@,
            Key::Insert => "Insert"@,
            Key::Delete => "Delete"@,
            Key::PageUp => "Page Up"@,
            Key::PageDown => "Page Down"@,
            Key::F1 => "F1"@,
            Key::F2 => "F2"@,
            Key::F3 => "F3"@,
            Key::F4 => "F4"@,
            Key::F5 => "F5"@,
            Key::F6 => "F6"@,
            Key::F7 => "F7"@,
            Key::F8 => "F8"@,
            Key::F9 => "F9"@,
            Key::F10 => "F10"@,
            Key::F11 => "F11"@,
            Key::F12 => "F12"@,
            Key::LCtrl => "LCtrl"@,
            Key::RCtrl => "RCtrl"@,
            Key::LShift => "LShift"@,
            Key::RShift => "RShift"@,
            Key::LAlt => "LAlt"@,
            Key::RAlt => "RAlt"@,
            Key::LWin => "LWin"@,
            Key::RWin => "RWin"@,
        }
    }

    /// The spelling in the configuration file.
    pub open spec fn config_text(self) -> Seq<char> {
        match self {
            Key::B => "b"@,
            Key::W => "w"@,
            Key::A => "a"@,
            Key::S => "s"@,
            Key::D => "d"@,
            Key::Up => "up"@,
            Key::Down => "down"@,
            Key::Left => "left"@,
            Key::Right => "right"@,
            Key::Digit0 => "0"@,
            Key::Digit1 => "1"@,
            Key::Digit2 => "2"@,
            Key::Digit3 => "3"@,
            Key::Digit4 => "4"@,
            Key::Digit5 => "5"@,
            Key::Digit6 => "6"@,
            Key::Digit7 => "7"@,
            Key::Digit8 => "8"@,
            Key::Digit9 => "9"@,
            Key::Numpad0 => "numpad0"@,
            Key::Numpad1 => "numpad1"@,
            Key::Numpad2 => "numpad2"@,
            Key::Numpad3 => "numpad3"@,
            Key::Numpad4 => "numpad4"@,
            Key::Numpad5 => "numpad5"@,
            Key::Numpad6 => "numpad6"@,
            Key::Numpad7 => "numpad7"@,
            Key::Numpad8 => "numpad8"@,
            Key::Numpad9 => "numpad9"@,
            Key::Home => "home"@,
            Key::End => "end"@,
            Key::Insert => "insert"@,
            Key::Delete => "delete"@,
            Key::PageUp => "pageup"@,
            Key::PageDown => "pagedown"@,
            Key::F1 => "f1"@,
            Key::F2 => "f2"@,
            Key::F3 => "f3"@,
            Key::F4 => "f4"@,
            Key::F5 => "f5"@,
            Key::F6 => "f6"@,
            Key::F7 => "f7"@,
            Key::F8 => "f8"@,
            Key::F9 => "f9"@,
            Key::F10 => "f10"@,
            Key::F11 => "f11"@,
            Key::F12 => "f12"@,
            Key::LCtrl => "lctrl"@,
            Key::RCtrl => "rctrl"@,
            Key::LShift => "lshift"@,
            Key::RShift => "rshift"@,
            Key::LAlt => "lalt"@,
            Key::RAlt => "ralt"@,
            Key::LWin => "lwin"@,
            Key::RWin => "rwin"@,
        }
    }

    /// The keys `F1` to `F12`.
    pub open spec fn function_key(self) -> bool {
        35 <= self.ordinal() < 47
    }

    /// The control, shift, alt and windows keys.
    pub open spec fn modifier_key(self) -> bool {
        47 <= self.ordinal()
    }

    /// The keys that may become a global hotkey: all but the letters and arrows
    /// that move the player, and the modifiers.
    pub open spec fn bindable_key(self) -> bool {
        9 <= self.ordinal() < 47
    }

    /// Whether the key is one of `F1` to `F12`.
    pub fn is_function_key(self) -> (r: bool)
        ensures
            r == self.function_key(),
    {
        matches!(
            self,
            Self::F1
                | Self::F2
                | Self::F3
                | Self::F4
                | Self::F5
                | Self::F6
                | Self::F7
                | Self::F8
                | Self::F9
                | Self::F10
                | Self::F11
                | Self::F12
        )
    }

    /// Whether the key is a modifier.
    pub fn is_modifier(self) -> (r: bool)
        ensures
            r == self.modifier_key(),
    {
        matches!(
            self,
            Self::LCtrl
                | Self::RCtrl
                | Self::LShift
                | Self::RShift
                | Self::LAlt
                | Self::RAlt
                | Self::LWin
                | Self::RWin
        )
    }

    /// Keys that may be registered as global hotkeys. Movement, action, and
    /// modifier keys are excluded because a global hotkey swallows the key.
    pub fn is_bindable(self) -> (r: bool)
        ensures
            r == self.bindable_key(),
    {
        !matches!(self, Self::B | Self::W | Self::A | Self::S | Self::D) && !matches!(
            self,
            Self::Up | Self::Down | Self::Left | Self::Right
        ) && !self.is_modifier()
    }

    /// The name shown to the user.
    pub fn name(self) -> (r: &'static str)
        ensures
            r@ == self.name_text(),
    {
        match self {
            Key::B => "B",
            Key::W => "W",
            Key::A => "A",
            Key::S => "S",
            Key::D => "D",
            Key::Up => "Up",
            Key::Down => "Down",
            Key::Left => "Left",
            Key::Right => "Right",
            Key::Digit0 => "0",
            Key::Digit1 => "1",
            Key::Digit2 => "2",
            Key::Digit3 => "3",
            Key::Digit4 => "4",
            Key::Digit5 => "5",
            Key::Digit6 => "6",
            Key::Digit7 => "7",
            Key::Digit8 => "8",
            Key::Digit9 => "9",
            Key::Numpad0 => "Num 0",
            Key::Numpad1 => "Num 1",
            Key::Numpad2 => "Num 2",
            Key::Numpad3 => "Num 3",
            Key::Numpad4 => "Num 4",
            Key::Numpad5 => "Num 5",
            Key::Numpad6 => "Num 6",
            Key::Numpad7 => "Num 7",
            Key::Numpad8 => "Num 8",
            Key::Numpad9 => "Num 9",
            Key::Home => "Home",
            Key::End => "End",
            Key::Insert => "Insert",
            Key::Delete => "Delete",
            Key::PageUp => "Page Up",
            Key::PageDown => "Page Down",
            Key::F1 => "F1",
            Key::F2 => "F2",
            Key::F3 => "F3",
            Key::F4 => "F4",
            Key::F5 => "F5",
            Key::F6 => "F6",
            Key::F7 => "F7",
            Key::F8 => "F8",
            Key::F9 => "F9",
            Key::F10 => "F10",
            Key::F11 => "F11",
            Key::F12 => "F12",
            Key::LCtrl => "LCtrl",
            Key::RCtrl => "RCtrl",
            Key::LShift => "LShift",
            Key::RShift => "RShift",
            Key::LAlt => "LAlt",
            Key::RAlt => "RAlt",
            Key::LWin => "LWin",
            Key::RWin => "RWin",
        }
    }

    /// Lowercase identifier matching the configuration file spelling.
    pub fn config_name(self) -> (r: &'static str)
        ensures
            r@ == self.config_text(),
    {
        match self {
            Key::B => "b",
            Key::W => "w",
            Key::A => "a",
            Key::S => "s",
            Key::D => "d",
            Key::Up => "up",
            Key::Down => "down",
            Key::Left => "left",
            Key::Right => "right",
            Key::Digit0 => "0",
            Key::Digit1 => "1",
            Key::Digit2 => "2",
            Key::Digit3 => "3",
            Key::Digit4 => "4",
            Key::Digit5 => "5",
            Key::Digit6 => "6",
            Key::Digit7 => "7",
            Key::Digit8 => "8",
            Key::Digit9 => "9",
            Key::Numpad0 => "numpad0",
            Key::Numpad1 => "numpad1",
            Key::Numpad2 => "numpad2",
            Key::Numpad3 => "numpad3",
            Key::Numpad4 => "numpad4",
            Key::Numpad5 => "numpad5",
            Key::Numpad6 => "numpad6",
            Key::Numpad7 => "numpad7",
            Key::Numpad8 => "numpad8",
            Key::Numpad9 => "numpad9",
            Key::Home => "home",
            Key::End => "end",
            Key::Insert => "insert",
            Key::Delete => "delete",
            Key::PageUp => "pageup",
            Key::PageDown => "pagedown",
            Key::F1 => "f1",
            Key::F2 => "f2",
            Key::F3 => "f3",
            Key::F4 => "f4",
            Key::F5 => "f5",
            Key::F6 => "f6",
            Key::F7 => "f7",
            Key::F8 => "f8",
            Key::F9 => "f9",
            Key::F10 => "f10",
            Key::F11 => "f11",
            Key::F12 => "f12",
            Key::LCtrl => "lctrl",
            Key::RCtrl => "rctrl",
            Key::LShift => "lshift",
            Key::RShift => "rshift",
            Key::LAlt => "lalt",
            Key::RAlt => "ralt",
            Key::LWin => "lwin",
            Key::RWin => "rwin",
        }
    }

    /// The identifier of the key in diagnostics.
    pub open spec fn identifier_text(self) -> Seq<char> {
        match self {
            Key::Digit0 => "Digit0"@,
            Key::Digit1 => "Digit1"@,
            Key::Digit2 => "Digit2"@,
            Key::Digit3 => "Digit3"@,
            Key::Digit4 => "Digit4"@,
            Key::Digit5 => "Digit5"@,
            Key::Digit6 => "Digit6"@,
            Key::Digit7 => "Digit7"@,
            Key::Digit8 => "Digit8"@,
            Key::Digit9 => "Digit9"@,
            Key::Numpad0 => "Numpad0"@,
            Key::Numpad1 => "Numpad1"@,
            Key::Numpad2 => "Numpad2"@,
            Key::Numpad3 => "Numpad3"@,
            Key::Numpad4 => "Numpad4"@,
            Key::Numpad5 => "Numpad5"@,
            Key::Numpad6 => "Numpad6"@,
            Key::Numpad7 => "Numpad7"@,
            Key::Numpad8 => "Numpad8"@,
            Key::Numpad9 => "Numpad9"@,
            Key::PageUp => "PageUp"@,
            Key::PageDown => "PageDown"@,
            _ => self.name_text(),
        }
    }

    /// The identifier of the key in diagnostics.
    pub fn identifier(self) -> (r: &'static str)
        ensures
            r@ == self.identifier_text(),
    {
        match self {
            Key::Digit0 => "Digit0",
            Key::Digit1 => "Digit1",
            Key::Digit2 => "Digit2",
            Key::Digit3 => "Digit3",
            Key::Digit4 => "Digit4",
            Key::Digit5 => "Digit5",
            Key::Digit6 => "Digit6",
            Key::Digit7 => "Digit7",
            Key::Digit8 => "Digit8",
            Key::Digit9 => "Digit9",
            Key::Numpad0 => "Numpad0",
            Key::Numpad1 => "Numpad1",
            Key::Numpad2 => "Numpad2",
            Key::Numpad3 => "Numpad3",
            Key::Numpad4 => "Numpad4",
            Key::Numpad5 => "Numpad5",
            Key::Numpad6 => "Numpad6",
            Key::Numpad7 => "Numpad7",
            Key::Numpad8 => "Numpad8",
            Key::Numpad9 => "Numpad9",
            Key::PageUp => "PageUp",
            Key::PageDown => "PageDown",
            _ => self.name(),
        }
    }

    /// The keys that may become a global hotkey, in the order of `ALL`.
    pub fn bindable() -> (r: Vec<Key>)
        ensures
            r@ == Key::ALL@.filter(|key: Key| key.bindable_key()),
    {
        let all = Key::ALL;
        let ghost keep = |key: Key| key.bindable_key();
        let mut out: Vec<Key> = Vec::new();
        let mut i: usize = 0;
        assert(all@.take(0).filter(keep) == Seq::<Key>::empty());
        while i < 55
            invariant
                i <= 55,
                all@ == Key::ALL@,
                all@.len() == 55,
                keep == (|key: Key| key.bindable_key()),
                out@ == all@.take(i as int).filter(keep),
            decreases 55 - i,
        {
            let ghost next = all@.take(i + 1);
            assert(next.drop_last() == all@.take(i as int));
            assert(next.last() == all@[i as int]);
            reveal(Seq::filter);
            if all[i].is_bindable() {
                out.push(all[i]);
            }
            i = i + 1;
        }
        assert(all@.take(55) == all@);
        out
    }

    /// The key with the spelling `name`, in any letter case and with any white
    /// space around it.
    pub fn from_config_name(name: &str) -> (r: Option<Key>)
        ensures
            r == key_named(name@),
    {
        let trimmed = trimmed(name);
        let wanted = ascii_lowered(trimmed.as_str());
        let all = Key::ALL;
        let mut i: usize = 0;
        while i < 55
            invariant
                i <= 55,
                all@ == Key::ALL@,
                all@.len() == 55,
                wanted@ == ascii_lower(trim(name@)),
                forall|k: int| 0 <= k < i ==> (#[trigger] all@[k]).config_text() != wanted@,
            decreases 55 - i,
        {
            let key = all[i];
            if same_text(key.config_name(), wanted.as_str()) {
                proof {
                    let chosen = choose|k: Key| #[trigger] k.config_text() == wanted@;
                    assert(key.config_text() == wanted@);
                    lemma_config_names_distinct(key, chosen);
                }
                return Some(key);
            }
            i = i + 1;
        }
        assert forall|key: Key| #[trigger] key.config_text() != wanted@ by {
            lemma_all_keys(key);
            assert(all@[key.ordinal()] == key);
        }
        None
    }
}

/// The key with the spelling `name`, in any letter case and with any white space
/// around it.
pub open spec fn key_named(name: Seq<char>) -> Option<Key> {
    if exists|key: Key| #[trigger] key.config_text() == ascii_lower(trim(name)) {
        Some(choose|key: Key| #[trigger] key.config_text() == ascii_lower(trim(name)))
    } else {
        None
    }
}


/// Every key stands in `Key::ALL`, at its ordinal.
pub proof fn lemma_all_keys(key: Key)
    ensures
        0 <= key.ordinal() < 55,
        Key::ALL@[key.ordinal()] == key,
{
}

/// The spelling of a key in the configuration file, character by character.
spec fn config_chars(key: Key) -> Seq<char> {
    match key {
        Key::B => seq!['b'],
        Key::W => seq!['w'],
        Key::A => seq!['a'],
        Key::S => seq!['s'],
        Key::D => seq!['d'],
        Key::Up => seq!['u', 'p'],
        Key::Down => seq!['d', 'o', 'w', 'n'],
        Key::Left => seq!['l', 'e', 'f', 't'],
        Key::Right => seq!['r', 'i', 'g', 'h', 't'],
        Key::Digit0 => seq!['0'],
        Key::Digit1 => seq!['1'],
        Key::Digit2 => seq!['2'],
        Key::Digit3 => seq!['3'],
        Key::Digit4 => seq!['4'],
        Key::Digit5 => seq!['5'],
        Key::Digit6 => seq!['6'],
        Key::Digit7 => seq!['7'],
        Key::Digit8 => seq!['8'],
        Key::Digit9 => seq!['9'],
        Key::Numpad0 => seq!['n', 'u', 'm', 'p', 'a', 'd', '0'],
        Key::Numpad1 => seq!['n', 'u', 'm', 'p', 'a', 'd', '1'],
        Key::Numpad2 => seq!['n', 'u', 'm', 'p', 'a', 'd', '2'],
        Key::Numpad3 => seq!['n', 'u', 'm', 'p', 'a', 'd', '3'],
        Key::Numpad4 => seq!['n', 'u', 'm', 'p', 'a', 'd', '4'],
        Key::Numpad5 => seq!['n', 'u', 'm', 'p', 'a', 'd', '5'],
        Key::Numpad6 => seq!['n', 'u', 'm', 'p', 'a', 'd', '6'],
        Key::Numpad7 => seq!['n', 'u', 'm', 'p', 'a', 'd', '7'],
        Key::Numpad8 => seq!['n', 'u', 'm', 'p', 'a', 'd', '8'],
        Key::Numpad9 => seq!['n', 'u', 'm', 'p', 'a', 'd', '9'],
        Key::Home => seq!['h', 'o', 'm', 'e'],
        Key::End => seq!['e', 'n', 'd'],
        Key::Insert => seq!['i', 'n', 's', 'e', 'r', 't'],
        Key::Delete => seq!['d', 'e', 'l', 'e', 't', 'e'],
        Key::PageUp => seq!['p', 'a', 'g', 'e', 'u', 'p'],
        Key::PageDown => seq!['p', 'a', 'g', 'e', 'd', 'o', 'w', 'n'],
        Key::F1 => seq!['f', '1'],
        Key::F2 => seq!['f', '2'],
        Key::F3 => seq!['f', '3'],
        Key::F4 => seq!['f', '4'],
        Key::F5 => seq!['f', '5'],
        Key::F6 => seq!['f', '6'],
        Key::F7 => seq!['f', '7'],
        Key::F8 => seq!['f', '8'],
        Key::F9 => seq!['f', '9'],
        Key::F10 => seq!['f', '1', '0'],
        Key::F11 => seq!['f', '1', '1'],
        Key::F12 => seq!['f', '1', '2'],
        Key::LCtrl => seq!['l', 'c', 't', 'r', 'l'],
        Key::RCtrl => seq!['r', 'c', 't', 'r', 'l'],
        Key::LShift => seq!['l', 's', 'h', 'i', 'f', 't'],
        Key::RShift => seq!['r', 's', 'h', 'i', 'f', 't'],
        Key::LAlt => seq!['l', 'a', 'l', 't'],
        Key::RAlt => seq!['r', 'a', 'l', 't'],
        Key::LWin => seq!['l', 'w', 'i', 'n'],
        Key::RWin => seq!['r', 'w', 'i', 'n'],
    }
}

proof fn lemma_config_chars(key: Key)
    ensures
        key.config_text() == config_chars(key),
{
    match key {
        Key::B => {
            reveal_strlit("b");
        },
        Key::W => {
            reveal_strlit("w");
        },
        Key::A => {
            reveal_strlit("a");
        },
        Key::S => {
            reveal_strlit("s");
        },
        Key::D => {
            reveal_strlit("d");
        },
        Key::Up => {
            reveal_strlit("up");
        },
        Key::Down => {
            reveal_strlit("down");
        },
        Key::Left => {
            reveal_strlit("left");
        },
        Key::Right => {
            reveal_strlit("right");
        },
        Key::Digit0 => {
            reveal_strlit("0");
        },
        Key::Digit1 => {
            reveal_strlit("1");
        },
        Key::Digit2 => {
            reveal_strlit("2");
        },
        Key::Digit3 => {
            reveal_strlit("3");
        },
        Key::Digit4 => {
            reveal_strlit("4");
        },
        Key::Digit5 => {
            reveal_strlit("5");
        },
        Key::Digit6 => {
            reveal_strlit("6");
        },
        Key::Digit7 => {
            reveal_strlit("7");
        },
        Key::Digit8 => {
            reveal_strlit("8");
        },
        Key::Digit9 => {
            reveal_strlit("9");
        },
        Key::Numpad0 => {
            reveal_strlit("numpad0");
        },
        Key::Numpad1 => {
            reveal_strlit("numpad1");
        },
        Key::Numpad2 => {
            reveal_strlit("numpad2");
        },
        Key::Numpad3 => {
            reveal_strlit("numpad3");
        },
        Key::Numpad4 => {
            reveal_strlit("numpad4");
        },
        Key::Numpad5 => {
            reveal_strlit("numpad5");
        },
        Key::Numpad6 => {
            reveal_strlit("numpad6");
        },
        Key::Numpad7 => {
            reveal_strlit("numpad7");
        },
        Key::Numpad8 => {
            reveal_strlit("numpad8");
        },
        Key::Numpad9 => {
            reveal_strlit("numpad9");
        },
        Key::Home => {
            reveal_strlit("home");
        },
        Key::End => {
            reveal_strlit("end");
        },
        Key::Insert => {
            reveal_strlit("insert");
        },
        Key::Delete => {
            reveal_strlit("delete");
        },
        Key::PageUp => {
            reveal_strlit("pageup");
        },
        Key::PageDown => {
            reveal_strlit("pagedown");
        },
        Key::F1 => {
            reveal_strlit("f1");
        },
        Key::F2 => {
            reveal_strlit("f2");
        },
        Key::F3 => {
            reveal_strlit("f3");
        },
        Key::F4 => {
            reveal_strlit("f4");
        },
        Key::F5 => {
            reveal_strlit("f5");
        },
        Key::F6 => {
            reveal_strlit("f6");
        },
        Key::F7 => {
            reveal_strlit("f7");
        },
        Key::F8 => {
            reveal_strlit("f8");
        },
        Key::F9 => {
            reveal_strlit("f9");
        },
        Key::F10 => {
            reveal_strlit("f10");
        },
        Key::F11 => {
            reveal_strlit("f11");
        },
        Key::F12 => {
            reveal_strlit("f12");
        },
        Key::LCtrl => {
            reveal_strlit("lctrl");
        },
        Key::RCtrl => {
            reveal_strlit("rctrl");
        },
        Key::LShift => {
            reveal_strlit("lshift");
        },
        Key::RShift => {
            reveal_strlit("rshift");
        },
        Key::LAlt => {
            reveal_strlit("lalt");
        },
        Key::RAlt => {
            reveal_strlit("ralt");
        },
        Key::LWin => {
            reveal_strlit("lwin");
        },
        Key::RWin => {
            reveal_strlit("rwin");
        },
    }
    assert(key.config_text() =~= config_chars(key));
}


/// No two keys are spelled alike in the configuration file.
pub proof fn lemma_config_names_distinct(a: Key, b: Key)
    requires
        a.config_text() == b.config_text(),
    ensures
        a == b,
{
    lemma_config_chars(a);
    lemma_config_chars(b);
    let x = config_chars(a);
    let y = config_chars(b);
    assert(x.len() == y.len());
    assert(x[0] == y[0]);
    assert(x[1] == y[1]);
    assert(x[2] == y[2]);
    assert(x[4] == y[4]);
    assert(x[6] == y[6]);
}

/// The spelling of a key has no white space, no capital letter and no plus sign.
pub proof fn lemma_config_spelling(key: Key)
    ensures
        key.config_text().len() > 0,
        trim(key.config_text()) == key.config_text(),
        ascii_lower(key.config_text()) == key.config_text(),
        !key.config_text().contains('+'),
{
    lemma_config_chars(key);
    let s = config_chars(key);
    assert(forall|i: int| 0 <= i < s.len() ==> {
        let c = #[trigger] s[i];
        ('a' <= c && c <= 'z') || ('0' <= c && c <= '9')
    });
    assert(s.len() > 0);
    lemma_trim_fixed(s);
    assert(ascii_lower(s) =~= s);
}

/// No key is spelled like a modifier.
pub(crate) proof fn lemma_no_modifier_spelling(key: Key)
    ensures
        key.config_text() != "ctrl"@,
        key.config_text() != "shift"@,
        key.config_text() != "alt"@,
        key.config_text() != "win"@,
{
    lemma_config_chars(key);
    reveal_strlit("ctrl");
    reveal_strlit("shift");
    reveal_strlit("alt");
    reveal_strlit("win");
    let s = config_chars(key);
    assert("ctrl"@.len() == 4 && "ctrl"@[0] == 'c');
    assert("shift"@.len() == 5 && "shift"@[0] == 's');
    assert("alt"@.len() == 3 && "alt"@[0] == 'a');
    assert("win"@.len() == 3 && "win"@[0] == 'w');
    assert(s.len() > 0);
}

/// Reading the spelling of a key gives the key back.
pub proof fn lemma_key_round_trip(key: Key)
    ensures
        key_named(key.config_text()) == Some(key),
{
    lemma_config_spelling(key);
    let name = key.config_text();
    assert(key.config_text() == ascii_lower(trim(name)));
    let chosen = choose|k: Key| #[trigger] k.config_text() == ascii_lower(trim(name));
    lemma_config_names_distinct(key, chosen);
}

/// The keys that may become a hotkey are all but B, the letters and arrows for moving, and
/// the modifiers.
pub proof fn lemma_bindable_keys(key: Key)
    ensures
        key.modifier_key() <==> key == Key::LCtrl || key == Key::RCtrl || key == Key::LShift || key
            == Key::RShift || key == Key::LAlt || key == Key::RAlt || key == Key::LWin || key
            == Key::RWin,
        key.bindable_key() <==> !key.modifier_key() && key != Key::B && key != Key::W && key
            != Key::A && key != Key::S && key != Key::D && key != Key::Up && key != Key::Down && key
            != Key::Left && key != Key::Right,
{
}

} // verus!
