//! Hotkeys: a key with optional modifiers, and how it is written.
pub use crate::key::Key;

use crate::key::{key_named, lemma_config_spelling, lemma_key_round_trip};
use crate::text::{
    ascii_lower, ascii_lowered, each_followed, join, join_all, lemma_each_followed_concat,
    lemma_join_push, lemma_split_join, lemma_trim_fixed, quoted, quoted_text, same_text, split,
    split_at_each, trim, trimmed, views,
};
use std::str::FromStr;
use vstd::prelude::*;

verus! {

/// A modifier that has to be held for a hotkey.
#[derive(Debug, Clone, Copy, PartialEq, Eq, Hash, Structural)]
pub enum HotkeyModifier {
    Ctrl,
    Shift,
    Alt,
    Win,
}

impl HotkeyModifier {
    /// Every modifier, in the order in which they are written.
    pub const ALL: [HotkeyModifier; 4] = [
        HotkeyModifier::Ctrl,
        HotkeyModifier::Shift,
        HotkeyModifier::Alt,
        HotkeyModifier::Win,
    ];

    /// The spelling in the configuration file.
    pub open spec fn config_text(self) -> Seq<char> {
        match self {
            HotkeyModifier::Ctrl => "ctrl"@,
            HotkeyModifier::Shift => "shift"@,
            HotkeyModifier::Alt => "alt"@,
            HotkeyModifier::Win => "win"@,
        }
    }

    /// The name shown to the user.
    pub open spec fn display_text(self) -> Seq<char> {
        match self {
            HotkeyModifier::Ctrl => "Ctrl"@,
            HotkeyModifier::Shift => "Shift"@,
            HotkeyModifier::Alt => "Alt"@,
            HotkeyModifier::Win => "Win"@,
        }
    }

    /// The spelling in the configuration file.
    pub fn config_name(self) -> (r: &'static str)
        ensures
            r@ == self.config_text(),
    {
        match self {
            HotkeyModifier::Ctrl => "ctrl",
            HotkeyModifier::Shift => "shift",
            HotkeyModifier::Alt => "alt",
            HotkeyModifier::Win => "win",
        }
    }

    /// The name shown to the user.
    pub fn display_name(self) -> (r: &'static str)
        ensures
            r@ == self.display_text(),
    {
        match self {
            HotkeyModifier::Ctrl => "Ctrl",
            HotkeyModifier::Shift => "Shift",
            HotkeyModifier::Alt => "Alt",
            HotkeyModifier::Win => "Win",
        }
    }

    /// The modifier with the spelling `name`, in any letter case and with any
    /// white space around it.
    pub fn from_config_name(name: &str) -> (r: Option<HotkeyModifier>)
        ensures
            r == modifier_named(name@),
    {
        let trimmed = trimmed(name);
        let wanted = ascii_lowered(trimmed.as_str());
        if same_text(wanted.as_str(), "ctrl") {
            Some(HotkeyModifier::Ctrl)
        } else if same_text(wanted.as_str(), "shift") {
            Some(HotkeyModifier::Shift)
        } else if same_text(wanted.as_str(), "alt") {
            Some(HotkeyModifier::Alt)
        } else if same_text(wanted.as_str(), "win") {
            Some(HotkeyModifier::Win)
        } else {
            None
        }
    }
}

/// The modifier with the spelling `name`, in any letter case and with any white
/// space around it.
pub open spec fn modifier_named(name: Seq<char>) -> Option<HotkeyModifier> {
    let wanted = ascii_lower(trim(name));
    if wanted == HotkeyModifier::Ctrl.config_text() {
        Some(HotkeyModifier::Ctrl)
    } else if wanted == HotkeyModifier::Shift.config_text() {
        Some(HotkeyModifier::Shift)
    } else if wanted == HotkeyModifier::Alt.config_text() {
        Some(HotkeyModifier::Alt)
    } else if wanted == HotkeyModifier::Win.config_text() {
        Some(HotkeyModifier::Win)
    } else {
        None
    }
}

/// A set of modifiers.
#[derive(Debug, Clone, Copy, PartialEq, Eq, Hash, Structural)]
pub struct HotkeyModifiers {
    pub ctrl: bool,
    pub shift: bool,
    pub alt: bool,
    pub win: bool,
}

impl HotkeyModifiers {
    /// The set has the modifier `modifier`.
    pub open spec fn holds(self, modifier: HotkeyModifier) -> bool {
        match modifier {
            HotkeyModifier::Ctrl => self.ctrl,
            HotkeyModifier::Shift => self.shift,
            HotkeyModifier::Alt => self.alt,
            HotkeyModifier::Win => self.win,
        }
    }

    /// The set with `modifier` put in or taken out.
    pub open spec fn with(self, modifier: HotkeyModifier, on: bool) -> HotkeyModifiers {
        match modifier {
            HotkeyModifier::Ctrl => HotkeyModifiers { ctrl: on, ..self },
            HotkeyModifier::Shift => HotkeyModifiers { shift: on, ..self },
            HotkeyModifier::Alt => HotkeyModifiers { alt: on, ..self },
            HotkeyModifier::Win => HotkeyModifiers { win: on, ..self },
        }
    }

    /// The set without any modifier.
    pub open spec fn empty_set() -> HotkeyModifiers {
        HotkeyModifiers { ctrl: false, shift: false, alt: false, win: false }
    }

    /// The modifiers of the set, in the order of `HotkeyModifier::ALL`.
    pub open spec fn listed(self) -> Seq<HotkeyModifier> {
        (if self.ctrl {
            seq![HotkeyModifier::Ctrl]
        } else {
            Seq::empty()
        }) + (if self.shift {
            seq![HotkeyModifier::Shift]
        } else {
            Seq::empty()
        }) + (if self.alt {
            seq![HotkeyModifier::Alt]
        } else {
            Seq::empty()
        }) + (if self.win {
            seq![HotkeyModifier::Win]
        } else {
            Seq::empty()
        })
    }

    /// The set of the listed modifiers, or the first modifier that is listed
    /// a second time.
    pub open spec fn collected(list: Seq<HotkeyModifier>) -> Result<HotkeyModifiers, HotkeyModifier>
        decreases list.len(),
    {
        if list.len() == 0 {
            Ok(HotkeyModifiers::empty_set())
        } else {
            match HotkeyModifiers::collected(list.drop_last()) {
                Ok(set) => if set.holds(list.last()) {
                    Err(list.last())
                } else {
                    Ok(set.with(list.last(), true))
                },
                Err(repeated) => Err(repeated),
            }
        }
    }

    /// The set without any modifier.
    pub fn none() -> (r: HotkeyModifiers)
        ensures
            r == HotkeyModifiers::empty_set(),
    {
        HotkeyModifiers { ctrl: false, shift: false, alt: false, win: false }
    }

    /// The set of the listed modifiers. A modifier that is listed twice is an
    /// error, which names it.
    pub fn new(modifiers: Vec<HotkeyModifier>) -> (r: Result<HotkeyModifiers, HotkeyModifier>)
        ensures
            r == HotkeyModifiers::collected(modifiers@),
    {
        let mut set = HotkeyModifiers::none();
        let mut i: usize = 0;
        assert(modifiers@.take(0) == Seq::<HotkeyModifier>::empty());
        while i < modifiers.len()
            invariant
                i <= modifiers.len(),
                HotkeyModifiers::collected(modifiers@.take(i as int)) == Ok::<
                    HotkeyModifiers,
                    HotkeyModifier,
                >(set),
            decreases modifiers.len() - i,
        {
            let modifier = modifiers[i];
            assert(modifiers@.take(i + 1).drop_last() == modifiers@.take(i as int));
            if set.contains(modifier) {
                proof {
                    lemma_collected_error(modifiers@, i + 1);
                }
                return Err(modifier);
            }
            set = set.toggled(modifier, true);
            i = i + 1;
        }
        assert(modifiers@.take(modifiers@.len() as int) == modifiers@);
        Ok(set)
    }

    /// Whether the set has no modifier.
    pub fn is_empty(&self) -> (r: bool)
        ensures
            r == (*self == HotkeyModifiers::empty_set()),
    {
        !self.ctrl && !self.shift && !self.alt && !self.win
    }

    /// Whether the set has the modifier `modifier`.
    pub fn contains(&self, modifier: HotkeyModifier) -> (r: bool)
        ensures
            r == self.holds(modifier),
    {
        match modifier {
            HotkeyModifier::Ctrl => self.ctrl,
            HotkeyModifier::Shift => self.shift,
            HotkeyModifier::Alt => self.alt,
            HotkeyModifier::Win => self.win,
        }
    }

    /// The set with `modifier` put in or taken out.
    pub fn toggled(self, modifier: HotkeyModifier, on: bool) -> (r: HotkeyModifiers)
        ensures
            r == self.with(modifier, on),
    {
        match modifier {
            HotkeyModifier::Ctrl => HotkeyModifiers { ctrl: on, ..self },
            HotkeyModifier::Shift => HotkeyModifiers { shift: on, ..self },
            HotkeyModifier::Alt => HotkeyModifiers { alt: on, ..self },
            HotkeyModifier::Win => HotkeyModifiers { win: on, ..self },
        }
    }

    /// The modifiers of the set, in the order of `HotkeyModifier::ALL`.
    pub fn iter(&self) -> (r: Vec<HotkeyModifier>)
        ensures
            r@ == self.listed(),
    {
        let mut out: Vec<HotkeyModifier> = Vec::new();
        if self.ctrl {
            out.push(HotkeyModifier::Ctrl);
        }
        if self.shift {
            out.push(HotkeyModifier::Shift);
        }
        if self.alt {
            out.push(HotkeyModifier::Alt);
        }
        if self.win {
            out.push(HotkeyModifier::Win);
        }
        assert(out@ =~= self.listed());
        out
    }

    /// The names of the modifiers and the key, with plus signs between them.
    pub open spec fn label_text(self, key: Key) -> Seq<char> {
        join(
            self.listed().map_values(|m: HotkeyModifier| m.display_text()).push(key.name_text()),
            " + "@,
        )
    }

    /// The names of the modifiers and the key, with plus signs between them.
    pub fn label_with_key(&self, key: Key) -> (r: String)
        ensures
            r@ == self.label_text(key),
    {
        let list = self.iter();
        let mut parts: Vec<String> = Vec::new();
        let mut i: usize = 0;
        while i < list.len()
            invariant
                i <= list.len(),
                list@ == self.listed(),
                views(parts@) == list@.take(i as int).map_values(
                    |m: HotkeyModifier| m.display_text(),
                ),
            decreases list.len() - i,
        {
            let ghost before = views(parts@);
            parts.push(list[i].display_name().to_string());
            assert(views(parts@) == before.push(list@[i as int].display_text()));
            assert(views(parts@) == list@.take(i + 1).map_values(
                |m: HotkeyModifier| m.display_text(),
            ));
            i = i + 1;
        }
        assert(list@.take(list@.len() as int) == list@);
        parts.push(key.name().to_string());
        assert(views(parts@) == list@.map_values(|m: HotkeyModifier| m.display_text()).push(
            key.name_text(),
        ));
        join_all(&parts, " + ")
    }
}

proof fn lemma_collected_error(list: Seq<HotkeyModifier>, n: int)
    requires
        0 <= n <= list.len(),
        HotkeyModifiers::collected(list.take(n)) is Err,
    ensures
        HotkeyModifiers::collected(list) == HotkeyModifiers::collected(list.take(n)),
    decreases list.len() - n,
{
    if n < list.len() {
        assert(list.take(n + 1).drop_last() == list.take(n));
        lemma_collected_error(list, n + 1);
    } else {
        assert(list.take(n) == list);
    }
}

/// A key with optional modifiers, written as `ctrl+shift+f5` in configuration.
#[derive(Debug, Clone, Copy, PartialEq, Eq, Hash, Structural)]
pub struct HotkeyBinding {
    pub modifiers: HotkeyModifiers,
    pub key: Key,
}

/// What is wrong with the text of a hotkey.
#[derive(Debug)]
pub enum BindingFault {
    MoreThanOneKey,
    UnknownKey(String),
    NoKey,
    NotBindable(Key),
    RepeatedModifier(HotkeyModifier),
}

/// The mathematical form of a `BindingFault`.
pub enum BindingFaultView {
    MoreThanOneKey,
    UnknownKey(Seq<char>),
    NoKey,
    NotBindable(Key),
    RepeatedModifier(HotkeyModifier),
}

impl View for BindingFault {
    type V = BindingFaultView;

    open spec fn view(&self) -> BindingFaultView {
        match self {
            BindingFault::MoreThanOneKey => BindingFaultView::MoreThanOneKey,
            BindingFault::UnknownKey(part) => BindingFaultView::UnknownKey(part@),
            BindingFault::NoKey => BindingFaultView::NoKey,
            BindingFault::NotBindable(key) => BindingFaultView::NotBindable(*key),
            BindingFault::RepeatedModifier(m) => BindingFaultView::RepeatedModifier(*m),
        }
    }
}

/// A text that is no hotkey, and why.
#[derive(Debug)]
pub struct BindingError {
    pub value: String,
    pub fault: BindingFault,
}

impl BindingError {
    /// The message shown to the user.
    pub open spec fn message_text(self) -> Seq<char> {
        "hotkey "@ + quoted_text(self.value@) + (match self.fault {
            BindingFault::MoreThanOneKey => " names more than one key"@,
            BindingFault::UnknownKey(part) => " contains unknown key "@ + quoted_text(part@),
            BindingFault::NoKey => " does not name a key"@,
            BindingFault::NotBindable(key) => ": "@ + key.name_text()
                + " cannot be used as a hotkey"@,
            BindingFault::RepeatedModifier(modifier) => ": "@ + modifier.display_text()
                + " is listed twice"@,
        })
    }

    /// The message shown to the user.
    pub fn message(&self) -> (r: String)
        ensures
            r@ == self.message_text(),
    {
        let mut reason = String::new();
        match &self.fault {
            BindingFault::MoreThanOneKey => reason.push_str(" names more than one key"),
            BindingFault::UnknownKey(part) => {
                reason.push_str(" contains unknown key ");
                reason.push_str(quoted(part.as_str()).as_str());
            },
            BindingFault::NoKey => reason.push_str(" does not name a key"),
            BindingFault::NotBindable(key) => {
                reason.push_str(": ");
                reason.push_str(key.name());
                reason.push_str(" cannot be used as a hotkey");
            },
            BindingFault::RepeatedModifier(modifier) => {
                reason.push_str(": ");
                reason.push_str(modifier.display_name());
                reason.push_str(" is listed twice");
            },
        }
        let mut out = "hotkey ".to_string();
        out.push_str(quoted(self.value.as_str()).as_str());
        out.push_str(reason.as_str());
        assert(out@ == self.message_text());
        out
    }
}

/// The parts of a hotkey text: what stands between the plus signs, without
/// white space around it and without empty parts.
pub open spec fn hotkey_parts(value: Seq<char>) -> Seq<Seq<char>> {
    split(value, '+').map_values(|part: Seq<char>| trim(part)).filter(
        |part: Seq<char>| part.len() > 0,
    )
}

/// The modifiers and the key that the parts name, or the first thing that is
/// wrong with them.
pub open spec fn read_parts(parts: Seq<Seq<char>>) -> Result<
    (Seq<HotkeyModifier>, Option<Key>),
    BindingFaultView,
>
    decreases parts.len(),
{
    if parts.len() == 0 {
        Ok((Seq::empty(), None))
    } else {
        match read_parts(parts.drop_last()) {
            Ok((modifiers, key)) => match modifier_named(parts.last()) {
                Some(modifier) => Ok((modifiers.push(modifier), key)),
                None => match key_named(parts.last()) {
                    Some(parsed) => if key is Some {
                        Err(BindingFaultView::MoreThanOneKey)
                    } else {
                        Ok((modifiers, Some(parsed)))
                    },
                    None => Err(BindingFaultView::UnknownKey(parts.last())),
                },
            },
            Err(fault) => Err(fault),
        }
    }
}

/// The hotkey that a text names, or what is wrong with the text.
pub open spec fn parsed_binding(value: Seq<char>) -> Result<HotkeyBinding, BindingFaultView> {
    match read_parts(hotkey_parts(value)) {
        Ok((modifiers, Some(key))) => if !key.bindable_key() {
            Err(BindingFaultView::NotBindable(key))
        } else {
            match HotkeyModifiers::collected(modifiers) {
                Ok(modifiers) => Ok(HotkeyBinding { modifiers, key }),
                Err(repeated) => Err(BindingFaultView::RepeatedModifier(repeated)),
            }
        },
        Ok((_, None)) => Err(BindingFaultView::NoKey),
        Err(fault) => Err(fault),
    }
}

proof fn lemma_read_error(parts: Seq<Seq<char>>, n: int)
    requires
        0 <= n <= parts.len(),
        read_parts(parts.take(n)) is Err,
    ensures
        read_parts(parts) == read_parts(parts.take(n)),
    decreases parts.len() - n,
{
    if n < parts.len() {
        assert(parts.take(n + 1).drop_last() == parts.take(n));
        lemma_read_error(parts, n + 1);
    } else {
        assert(parts.take(n) == parts);
    }
}

/// The parts of a hotkey text.
fn parts_of(value: &str) -> (r: Vec<String>)
    ensures
        views(r@) == hotkey_parts(value@),
{
    let pieces = split_at_each(value, '+');
    let ghost cut = |part: Seq<char>| trim(part);
    let ghost keep = |part: Seq<char>| part.len() > 0;
    let ghost all = split(value@, '+').map_values(cut);
    let mut parts: Vec<String> = Vec::new();
    let mut i: usize = 0;
    assert(all.take(0).filter(keep) == Seq::<Seq<char>>::empty());
    assert(views(parts@) == Seq::<Seq<char>>::empty());
    while i < pieces.len()
        invariant
            i <= pieces.len(),
            cut == (|part: Seq<char>| trim(part)),
            keep == (|part: Seq<char>| part.len() > 0),
            views(pieces@) == split(value@, '+'),
            all == views(pieces@).map_values(cut),
            views(parts@) == all.take(i as int).filter(keep),
        decreases pieces.len() - i,
    {
        let part = trimmed(pieces[i].as_str());
        assert(views(pieces@)[i as int] == pieces@[i as int]@);
        let ghost next = all.take(i + 1);
        assert(next.drop_last() == all.take(i as int));
        assert(next.last() == part@);
        reveal(Seq::filter);
        let ghost before = views(parts@);
        if !part.as_str().is_empty() {
            parts.push(part);
            assert(views(parts@) == before.push(part@));
        }
        i = i + 1;
    }
    assert(all.take(all.len() as int) == all);
    parts
}

impl HotkeyBinding {
    /// The spelling in the configuration file: the modifiers and the key with
    /// plus signs between them.
    pub open spec fn config_text(self) -> Seq<char> {
        join(
            self.modifiers.listed().map_values(|m: HotkeyModifier| m.config_text()).push(
                self.key.config_text(),
            ),
            "+"@,
        )
    }

    pub fn new(modifiers: HotkeyModifiers, key: Key) -> (r: HotkeyBinding)
        ensures
            r == (HotkeyBinding { modifiers, key }),
    {
        HotkeyBinding { modifiers, key }
    }

    /// The key without modifiers.
    pub fn bare(key: Key) -> (r: HotkeyBinding)
        ensures
            r == (HotkeyBinding { modifiers: HotkeyModifiers::empty_set(), key }),
    {
        HotkeyBinding { modifiers: HotkeyModifiers::none(), key }
    }

    /// The hotkey as it is shown to the user.
    pub fn label(self) -> (r: String)
        ensures
            r@ == self.modifiers.label_text(self.key),
    {
        self.modifiers.label_with_key(self.key)
    }

    /// The hotkey as it is written in the configuration file.
    pub fn config_string(self) -> (r: String)
        ensures
            r@ == self.config_text(),
    {
        let list = self.modifiers.iter();
        let mut parts: Vec<String> = Vec::new();
        let mut i: usize = 0;
        while i < list.len()
            invariant
                i <= list.len(),
                list@ == self.modifiers.listed(),
                views(parts@) == list@.take(i as int).map_values(
                    |m: HotkeyModifier| m.config_text(),
                ),
            decreases list.len() - i,
        {
            let ghost before = views(parts@);
            parts.push(list[i].config_name().to_string());
            assert(views(parts@) == before.push(list@[i as int].config_text()));
            assert(views(parts@) == list@.take(i + 1).map_values(
                |m: HotkeyModifier| m.config_text(),
            ));
            i = i + 1;
        }
        assert(list@.take(list@.len() as int) == list@);
        parts.push(self.key.config_name().to_string());
        assert(views(parts@) == list@.map_values(|m: HotkeyModifier| m.config_text()).push(
            self.key.config_text(),
        ));
        join_all(&parts, "+")
    }

    /// Reads a hotkey such as `ctrl+shift+f5`.
    pub fn parse(value: &str) -> (r: Result<HotkeyBinding, BindingError>)
        ensures
            match r {
                Ok(binding) => parsed_binding(value@) == Ok::<HotkeyBinding, BindingFaultView>(
                    binding,
                ),
                Err(error) => error.value@ == value@ && parsed_binding(value@) == Err::<
                    HotkeyBinding,
                    BindingFaultView,
                >(error.fault@),
            },
    {
        let parts = parts_of(value);
        let ghost all = views(parts@);
        let mut modifiers: Vec<HotkeyModifier> = Vec::new();
        let mut key: Option<Key> = None;
        let mut i: usize = 0;
        assert(all.take(0) == Seq::<Seq<char>>::empty());
        while i < parts.len()
            invariant
                i <= parts.len(),
                all == views(parts@),
                all == hotkey_parts(value@),
                read_parts(all.take(i as int)) == Ok::<
                    (Seq<HotkeyModifier>, Option<Key>),
                    BindingFaultView,
                >((modifiers@, key)),
            decreases parts.len() - i,
        {
            let part = parts[i].as_str();
            assert(all.take(i + 1).drop_last() == all.take(i as int));
            assert(all.take(i + 1).last() == part@);
            match HotkeyModifier::from_config_name(part) {
                Some(modifier) => {
                    modifiers.push(modifier);
                },
                None => match Key::from_config_name(part) {
                    Some(parsed) => {
                        if key.is_some() {
                            proof {
                                lemma_read_error(all, i + 1);
                            }
                            return Err(
                                BindingError {
                                    value: value.to_string(),
                                    fault: BindingFault::MoreThanOneKey,
                                },
                            );
                        }
                        key = Some(parsed);
                    },
                    None => {
                        proof {
                            lemma_read_error(all, i + 1);
                        }
                        return Err(
                            BindingError {
                                value: value.to_string(),
                                fault: BindingFault::UnknownKey(part.to_string()),
                            },
                        );
                    },
                },
            }
            i = i + 1;
        }
        assert(all.take(all.len() as int) == all);
        match key {
            None => Err(BindingError { value: value.to_string(), fault: BindingFault::NoKey }),
            Some(key) => {
                if !key.is_bindable() {
                    return Err(
                        BindingError {
                            value: value.to_string(),
                            fault: BindingFault::NotBindable(key),
                        },
                    );
                }
                match HotkeyModifiers::new(modifiers) {
                    Ok(modifiers) => Ok(HotkeyBinding { modifiers, key }),
                    Err(repeated) => Err(
                        BindingError {
                            value: value.to_string(),
                            fault: BindingFault::RepeatedModifier(repeated),
                        },
                    ),
                }
            },
        }
    }
}

impl FromStr for HotkeyBinding {
    type Err = BindingError;

    fn from_str(value: &str) -> (r: Result<HotkeyBinding, BindingError>)
        ensures
            match r {
                Ok(binding) => parsed_binding(value@) == Ok::<HotkeyBinding, BindingFaultView>(
                    binding,
                ),
                Err(error) => error.value@ == value@ && parsed_binding(value@) == Err::<
                    HotkeyBinding,
                    BindingFaultView,
                >(error.fault@),
            },
    {
        HotkeyBinding::parse(value)
    }
}

proof fn lemma_modifier_spelling(m: HotkeyModifier)
    ensures
        m.config_text().len() > 0,
        trim(m.config_text()) == m.config_text(),
        ascii_lower(m.config_text()) == m.config_text(),
        !m.config_text().contains('+'),
        modifier_named(m.config_text()) == Some(m),
{
    reveal_strlit("ctrl");
    reveal_strlit("shift");
    reveal_strlit("alt");
    reveal_strlit("win");
    let s = m.config_text();
    lemma_trim_fixed(s);
    assert(ascii_lower(s) =~= s);
    assert("ctrl"@.len() == 4);
    assert("shift"@.len() == 5);
    assert("alt"@[0] == 'a');
    assert("win"@[0] == 'w');
}

proof fn lemma_key_is_no_modifier(key: Key)
    ensures
        modifier_named(key.config_text()) is None,
{
    lemma_config_spelling(key);
    crate::key::lemma_no_modifier_spelling(key);
}

proof fn lemma_read_modifiers(list: Seq<HotkeyModifier>)
    ensures
        read_parts(list.map_values(|m: HotkeyModifier| m.config_text())) == Ok::<
            (Seq<HotkeyModifier>, Option<Key>),
            BindingFaultView,
        >((list, None)),
    decreases list.len(),
{
    let parts = list.map_values(|m: HotkeyModifier| m.config_text());
    if list.len() > 0 {
        lemma_read_modifiers(list.drop_last());
        assert(parts.drop_last() == list.drop_last().map_values(
            |m: HotkeyModifier| m.config_text(),
        ));
        lemma_modifier_spelling(list.last());
        assert(list.drop_last().push(list.last()) == list);
    } else {
        assert(parts == Seq::<Seq<char>>::empty());
        assert(list == Seq::<HotkeyModifier>::empty());
    }
}

proof fn lemma_collect_listed(set: HotkeyModifiers)
    ensures
        HotkeyModifiers::collected(set.listed()) == Ok::<HotkeyModifiers, HotkeyModifier>(set),
{
    let a = HotkeyModifiers { ctrl: set.ctrl, ..HotkeyModifiers::empty_set() };
    let b = HotkeyModifiers { shift: set.shift, ..a };
    let c = HotkeyModifiers { alt: set.alt, ..b };
    assert(HotkeyModifiers::empty_set().listed() =~= Seq::<HotkeyModifier>::empty());
    assert(HotkeyModifiers::collected(HotkeyModifiers::empty_set().listed()) is Ok);
    if set.ctrl {
        assert(a.listed().drop_last() =~= HotkeyModifiers::empty_set().listed());
    }
    assert(HotkeyModifiers::collected(a.listed()) == Ok::<HotkeyModifiers, HotkeyModifier>(a));
    if set.shift {
        assert(b.listed().drop_last() =~= a.listed());
    }
    assert(HotkeyModifiers::collected(b.listed()) == Ok::<HotkeyModifiers, HotkeyModifier>(b));
    if set.alt {
        assert(c.listed().drop_last() =~= b.listed());
    }
    assert(HotkeyModifiers::collected(c.listed()) == Ok::<HotkeyModifiers, HotkeyModifier>(c));
    if set.win {
        assert(set.listed().drop_last() =~= c.listed());
    }
}

/// What is written to the configuration reads back: the spelling of a hotkey
/// with a bindable key names exactly that hotkey.
pub proof fn lemma_binding_round_trip(binding: HotkeyBinding)
    requires
        binding.key.bindable_key(),
    ensures
        parsed_binding(binding.config_text()) == Ok::<HotkeyBinding, BindingFaultView>(binding),
{
    let list = binding.modifiers.listed();
    let names = list.map_values(|m: HotkeyModifier| m.config_text());
    let parts = names.push(binding.key.config_text());
    reveal_strlit("+");
    assert("+"@ =~= seq!['+']);
    lemma_config_spelling(binding.key);
    assert forall|i: int| 0 <= i < parts.len() implies !(#[trigger] parts[i]).contains('+') && trim(
        parts[i],
    ) == parts[i] && parts[i].len() > 0 by {
        if i < names.len() {
            lemma_modifier_spelling(list[i]);
        }
    }
    lemma_split_join(parts, '+');
    let cut = |part: Seq<char>| trim(part);
    let keep = |part: Seq<char>| part.len() > 0;
    assert(parts.map_values(cut) =~= parts);
    lemma_filter_all(parts, keep);
    assert(hotkey_parts(binding.config_text()) == parts);
    lemma_read_modifiers(list);
    assert(parts.drop_last() =~= names);
    lemma_key_is_no_modifier(binding.key);
    lemma_key_round_trip(binding.key);
    lemma_collect_listed(binding.modifiers);
}

proof fn lemma_filter_all(s: Seq<Seq<char>>, keep: spec_fn(Seq<char>) -> bool)
    requires
        forall|i: int| 0 <= i < s.len() ==> keep(#[trigger] s[i]),
    ensures
        s.filter(keep) == s,
    decreases s.len(),
{
    reveal(Seq::filter);
    if s.len() > 0 {
        assert forall|i: int| 0 <= i < s.drop_last().len() implies keep(
            #[trigger] s.drop_last()[i],
        ) by {
            assert(s.drop_last()[i] == s[i]);
        }
        lemma_filter_all(s.drop_last(), keep);
        assert(s.drop_last().push(s.last()) =~= s);
    } else {
        assert(s.filter(keep) =~= s);
    }
}

/// Movement, action and modifier keys are never read as a hotkey.
pub proof fn lemma_parsed_is_bindable(value: Seq<char>)
    requires
        parsed_binding(value) is Ok,
    ensures
        parsed_binding(value)->Ok_0.key.bindable_key(),
{
}

/// Putting a modifier in or taking it out concerns that modifier alone.
pub proof fn lemma_modifier_set(
    set: HotkeyModifiers,
    modifier: HotkeyModifier,
    on: bool,
    other: HotkeyModifier,
)
    ensures
        set.with(modifier, on).holds(modifier) == on,
        other != modifier ==> set.with(modifier, on).holds(other) == set.holds(other),
        set.holds(HotkeyModifier::Ctrl) == set.ctrl,
        set.holds(HotkeyModifier::Shift) == set.shift,
        set.holds(HotkeyModifier::Alt) == set.alt,
        set.holds(HotkeyModifier::Win) == set.win,
        !HotkeyModifiers::empty_set().holds(other),
{
}

/// A list of modifiers makes a set exactly when none is listed twice; the set holds what is
/// listed. Otherwise the first that is listed a second time is named.
#[verifier::spinoff_prover]
#[verifier::rlimit(30)]
pub proof fn lemma_collected(list: Seq<HotkeyModifier>)
    ensures
        match HotkeyModifiers::collected(list) {
            Ok(set) => {
                &&& forall|m: HotkeyModifier| #[trigger] set.holds(m) <==> list.contains(m)
                &&& forall|i: int, j: int|
                    0 <= i < j < list.len() ==> (#[trigger] list[i]) != (#[trigger] list[j])
            },
            Err(repeated) => exists|j: int|
                #![trigger list[j]]
                {
                    &&& 0 <= j < list.len()
                    &&& list[j] == repeated
                    &&& list.take(j).contains(repeated)
                    &&& forall|a: int, b: int|
                        0 <= a < b < j ==> (#[trigger] list[a]) != (#[trigger] list[b])
                },
        },
    decreases list.len(),
{
    if list.len() > 0 {
        let before = list.drop_last();
        let last: int = list.len() - 1;
        lemma_collected(before);
        assert forall|i: int| 0 <= i < before.len() implies #[trigger] list[i] == before[i] by {}
        match HotkeyModifiers::collected(before) {
            Ok(set) => {
                assert(list.take(last) =~= before);
                if set.holds(list.last()) {
                    assert(list[last] == list.last());
                } else {
                    let grown = set.with(list.last(), true);
                    assert forall|m: HotkeyModifier| #[trigger]
                        grown.holds(m) <==> list.contains(m) by {
                        lemma_modifier_set(set, list.last(), true, m);
                        if before.contains(m) {
                            let i = choose|i: int| 0 <= i < before.len() && before[i] == m;
                            assert(list[i] == m);
                        }
                        if list.contains(m) && m != list.last() {
                            let i = choose|i: int| 0 <= i < list.len() && list[i] == m;
                            assert(before[i] == m);
                        }
                        assert(list[last] == list.last());
                    }
                    assert forall|i: int, j: int| 0 <= i < j < list.len() implies (
                    #[trigger] list[i]) != (#[trigger] list[j]) by {
                        assert(before[i] == list[i]);
                        if j == last {
                            assert(before.contains(before[i]));
                        } else {
                            assert(before[j] == list[j]);
                        }
                    }
                }
            },
            Err(repeated) => {
                let j = choose|j: int|
                    #![trigger before[j]]
                    {
                        &&& 0 <= j < before.len()
                        &&& before[j] == repeated
                        &&& before.take(j).contains(repeated)
                        &&& forall|a: int, b: int|
                            0 <= a < b < j ==> (#[trigger] before[a]) != (#[trigger] before[b])
                    };
                assert(list[j] == before[j]);
                assert(list.take(j) =~= before.take(j));
                assert forall|a: int, b: int| 0 <= a < b < j implies (#[trigger] list[a]) != (
                #[trigger] list[b]) by {
                    assert(before[a] == list[a] && before[b] == list[b]);
                }
            },
        }
    }
}

/// The modifiers of a set are listed once each, in the order control, shift, alt, windows.
pub proof fn lemma_listed(set: HotkeyModifiers)
    ensures
        set.listed().contains(HotkeyModifier::Ctrl) <==> set.ctrl,
        set.listed().contains(HotkeyModifier::Shift) <==> set.shift,
        set.listed().contains(HotkeyModifier::Alt) <==> set.alt,
        set.listed().contains(HotkeyModifier::Win) <==> set.win,
        forall|i: int, j: int|
            0 <= i < j < set.listed().len() ==> (#[trigger] set.listed()[i]) != (
            #[trigger] set.listed()[j]) && set.listed()[j] != HotkeyModifier::Ctrl
                && set.listed()[i] != HotkeyModifier::Win && (set.listed()[i]
                == HotkeyModifier::Alt ==> set.listed()[j] == HotkeyModifier::Win),
{
    let list = set.listed();
    lemma_collect_listed(set);
    lemma_collected(list);
    let made = HotkeyModifiers::collected(list)->Ok_0;
    assert(made == set);
    assert(made.holds(HotkeyModifier::Ctrl) <==> list.contains(HotkeyModifier::Ctrl));
    assert(made.holds(HotkeyModifier::Shift) <==> list.contains(HotkeyModifier::Shift));
    assert(set.holds(HotkeyModifier::Ctrl) <==> list.contains(HotkeyModifier::Ctrl));
    assert(set.holds(HotkeyModifier::Shift) <==> list.contains(HotkeyModifier::Shift));
    assert(set.holds(HotkeyModifier::Alt) <==> list.contains(HotkeyModifier::Alt));
    assert(set.holds(HotkeyModifier::Win) <==> list.contains(HotkeyModifier::Win));
}

/// A modifier is named by its spelling, whatever the case and the white space around it, and
/// by nothing else.
pub proof fn lemma_modifier_names(name: Seq<char>)
    ensures
        modifier_named(name) == Some(HotkeyModifier::Ctrl) <==> ascii_lower(trim(name)) == "ctrl"@,
        modifier_named(name) == Some(HotkeyModifier::Shift) <==> ascii_lower(trim(name))
            == "shift"@,
        modifier_named(name) == Some(HotkeyModifier::Alt) <==> ascii_lower(trim(name)) == "alt"@,
        modifier_named(name) == Some(HotkeyModifier::Win) <==> ascii_lower(trim(name)) == "win"@,
{
    reveal_strlit("ctrl");
    reveal_strlit("shift");
    reveal_strlit("alt");
    reveal_strlit("win");
    assert("alt"@[0] == 'a');
    assert("win"@[0] == 'w');
    assert("ctrl"@.len() == 4 && "shift"@.len() == 5 && "alt"@.len() == 3 && "win"@.len() == 3);
    let wanted = ascii_lower(trim(name));
    assert(HotkeyModifier::Shift.config_text() == "shift"@);
    assert(HotkeyModifier::Ctrl.config_text() == "ctrl"@);
    if wanted == "shift"@ {
        assert(wanted.len() == 5);
        assert(wanted != "ctrl"@);
    }
}

/// The parts of a text that were read as modifiers and a key are just that: each names a
/// modifier or the key, one part at most names a key, and the modifiers are listed as often
/// as parts name them. Otherwise the first part that is neither, or the second that names a
/// key, is to blame.
#[verifier::spinoff_prover]
#[verifier::rlimit(30)]
proof fn lemma_parts_read(parts: Seq<Seq<char>>)
    ensures
        match read_parts(parts) {
            Ok((modifiers, key)) => {
                &&& forall|i: int|
                    0 <= i < parts.len() ==> modifier_named(#[trigger] parts[i]) is Some || (
                    key is Some && key_named(parts[i]) == key)
                &&& forall|i: int, j: int|
                    0 <= i < j < parts.len() ==> modifier_named(#[trigger] parts[i]) is Some
                        || modifier_named(#[trigger] parts[j]) is Some
                &&& key is Some ==> exists|i: int|
                    0 <= i < parts.len() && modifier_named(#[trigger] parts[i]) is None && key_named(
                        parts[i],
                    ) == key
                &&& forall|m: HotkeyModifier| #[trigger]
                    modifiers.contains(m) <==> exists|i: int|
                        0 <= i < parts.len() && modifier_named(#[trigger] parts[i]) == Some(m)
                &&& forall|a: int, b: int|
                    0 <= a < b < modifiers.len() && (#[trigger] modifiers[a]) == (
                    #[trigger] modifiers[b]) ==> exists|i: int, j: int|
                        0 <= i < j < parts.len() && modifier_named(#[trigger] parts[i]) == Some(
                            modifiers[b],
                        ) && modifier_named(#[trigger] parts[j]) == Some(modifiers[b])
            },
            Err(BindingFaultView::UnknownKey(part)) => parts.contains(part) && modifier_named(
                part,
            ) is None && key_named(part) is None,
            Err(BindingFaultView::MoreThanOneKey) => exists|i: int, j: int|
                0 <= i < j < parts.len() && modifier_named(#[trigger] parts[i]) is None
                    && key_named(parts[i]) is Some && modifier_named(#[trigger] parts[j]) is None
                    && key_named(parts[j]) is Some,
            Err(_) => false,
        },
    decreases parts.len(),
{
    if parts.len() > 0 {
        let before = parts.drop_last();
        let last: int = parts.len() - 1;
        lemma_parts_read(before);
        assert forall|i: int| 0 <= i < before.len() implies #[trigger] parts[i] == before[i] by {}
        assert(parts[last] == parts.last());
        match read_parts(before) {
            Ok((held, key)) => match read_parts(parts) {
                Ok((modifiers, chosen)) => {
                    assert forall|i: int| 0 <= i < parts.len() implies modifier_named(
                        #[trigger] parts[i],
                    ) is Some || (chosen is Some && key_named(parts[i]) == chosen) by {
                        if i < last {
                            assert(before[i] == parts[i]);
                        }
                    }
                    assert forall|i: int, j: int| 0 <= i < j < parts.len() implies modifier_named(
                        #[trigger] parts[i],
                    ) is Some || modifier_named(#[trigger] parts[j]) is Some by {
                        assert(before[i] == parts[i]);
                        if j < last {
                            assert(before[j] == parts[j]);
                        }
                    }
                    if chosen is Some && key is Some {
                        let i = choose|i: int|
                            0 <= i < before.len() && modifier_named(#[trigger] before[i]) is None
                                && key_named(before[i]) == key;
                        assert(parts[i] == before[i]);
                    }
                    assert forall|m: HotkeyModifier| #[trigger]
                        modifiers.contains(m) <==> exists|i: int|
                            0 <= i < parts.len() && modifier_named(#[trigger] parts[i]) == Some(
                                m,
                            ) by {
                        if modifiers.contains(m) {
                            let a = choose|a: int| 0 <= a < modifiers.len() && modifiers[a] == m;
                            if a < held.len() {
                                assert(held[a] == m);
                                assert(held.contains(m));
                                let i = choose|i: int|
                                    0 <= i < before.len() && modifier_named(#[trigger] before[i])
                                        == Some(m);
                                assert(parts[i] == before[i]);
                            }
                        }
                        if exists|i: int|
                            0 <= i < parts.len() && modifier_named(#[trigger] parts[i]) == Some(
                                m,
                            ) {
                            let i = choose|i: int|
                                0 <= i < parts.len() && modifier_named(#[trigger] parts[i])
                                    == Some(m);
                            if i < last {
                                assert(before[i] == parts[i]);
                                assert(held.contains(m));
                                let a = choose|a: int| 0 <= a < held.len() && held[a] == m;
                                assert(modifiers[a] == m);
                            } else {
                                assert(modifiers[held.len() as int] == m);
                            }
                        }
                    }
                    assert forall|a: int, b: int|
                        0 <= a < b < modifiers.len() && (#[trigger] modifiers[a]) == (
                        #[trigger] modifiers[b]) implies exists|i: int, j: int|
                        0 <= i < j < parts.len() && modifier_named(#[trigger] parts[i]) == Some(
                            modifiers[b],
                        ) && modifier_named(#[trigger] parts[j]) == Some(modifiers[b]) by {
                        let m = modifiers[b];
                        assert(held[a] == modifiers[a]);
                        if b < held.len() {
                            assert(held[b] == modifiers[b]);
                            let (i, j) = choose|i: int, j: int|
                                0 <= i < j < before.len() && modifier_named(#[trigger] before[i])
                                    == Some(m) && modifier_named(#[trigger] before[j]) == Some(m);
                            assert(parts[i] == before[i] && parts[j] == before[j]);
                        } else {
                            assert(held.contains(m));
                            let i = choose|i: int|
                                0 <= i < before.len() && modifier_named(#[trigger] before[i])
                                    == Some(m);
                            assert(parts[i] == before[i]);
                            assert(modifier_named(parts[last]) == Some(m));
                        }
                    }
                },
                Err(_) => {
                    if key is Some {
                        let i = choose|i: int|
                            0 <= i < before.len() && modifier_named(#[trigger] before[i]) is None
                                && key_named(before[i]) == key;
                        assert(parts[i] == before[i]);
                    }
                },
            },
            Err(BindingFaultView::UnknownKey(part)) => {
                let i = choose|i: int| 0 <= i < before.len() && before[i] == part;
                assert(parts[i] == part);
            },
            Err(BindingFaultView::MoreThanOneKey) => {
                let (i, j) = choose|i: int, j: int|
                    0 <= i < j < before.len() && modifier_named(#[trigger] before[i]) is None
                        && key_named(before[i]) is Some && modifier_named(#[trigger] before[j]) is None
                        && key_named(before[j]) is Some;
                assert(parts[i] == before[i] && parts[j] == before[j]);
            },
            Err(_) => {},
        }
    }
}

/// A text is read as a hotkey when one of its parts names a key that may become one and each
/// other part names another modifier; the hotkey has that key and these modifiers. Where it
/// is not, the fault says what stands in the way: a part that is neither, two keys, no key, a
/// key that may not become a hotkey, or a modifier that is named twice.
#[verifier::spinoff_prover]
#[verifier::rlimit(30)]
pub proof fn lemma_parsed_parts(value: Seq<char>)
    ensures
        ({
            let parts = hotkey_parts(value);
            match parsed_binding(value) {
                Ok(binding) => {
                    &&& binding.key.bindable_key()
                    &&& forall|m: HotkeyModifier| #[trigger]
                        binding.modifiers.holds(m) <==> exists|i: int|
                            0 <= i < parts.len() && modifier_named(#[trigger] parts[i]) == Some(m)
                    &&& forall|i: int|
                        0 <= i < parts.len() ==> modifier_named(#[trigger] parts[i]) is Some
                            || key_named(parts[i]) == Some(binding.key)
                    &&& exists|i: int|
                        0 <= i < parts.len() && modifier_named(#[trigger] parts[i]) is None
                            && key_named(parts[i]) == Some(binding.key)
                    &&& forall|i: int, j: int|
                        0 <= i < j < parts.len() ==> modifier_named(#[trigger] parts[i]) is Some
                            || modifier_named(#[trigger] parts[j]) is Some
                },
                Err(BindingFaultView::UnknownKey(part)) => parts.contains(part) && modifier_named(
                    part,
                ) is None && key_named(part) is None,
                Err(BindingFaultView::MoreThanOneKey) => exists|i: int, j: int|
                    0 <= i < j < parts.len() && modifier_named(#[trigger] parts[i]) is None
                        && key_named(parts[i]) is Some && modifier_named(#[trigger] parts[j]) is None
                        && key_named(parts[j]) is Some,
                Err(BindingFaultView::NoKey) => forall|i: int|
                    0 <= i < parts.len() ==> modifier_named(#[trigger] parts[i]) is Some,
                Err(BindingFaultView::NotBindable(key)) => !key.bindable_key() && exists|i: int|
                    0 <= i < parts.len() && modifier_named(#[trigger] parts[i]) is None
                        && key_named(parts[i]) == Some(key),
                Err(BindingFaultView::RepeatedModifier(m)) => exists|i: int, j: int|
                    0 <= i < j < parts.len() && modifier_named(#[trigger] parts[i]) == Some(m)
                        && modifier_named(#[trigger] parts[j]) == Some(m),
            }
        }),
{
    let parts = hotkey_parts(value);
    lemma_parts_read(parts);
    match read_parts(parts) {
        Ok((modifiers, key)) => {
            lemma_collected(modifiers);
            match parsed_binding(value) {
                Ok(binding) => {
                    assert forall|m: HotkeyModifier| #[trigger]
                        binding.modifiers.holds(m) <==> exists|i: int|
                            0 <= i < parts.len() && modifier_named(#[trigger] parts[i]) == Some(
                                m,
                            ) by {
                        assert(binding.modifiers.holds(m) <==> modifiers.contains(m));
                    }
                },
                Err(BindingFaultView::RepeatedModifier(m)) => {
                    let b = choose|b: int|
                        #![trigger modifiers[b]]
                        {
                            &&& 0 <= b < modifiers.len()
                            &&& modifiers[b] == m
                            &&& modifiers.take(b).contains(m)
                            &&& forall|x: int, y: int|
                                0 <= x < y < b ==> (#[trigger] modifiers[x]) != (
                                #[trigger] modifiers[y])
                        };
                    let a = choose|a: int|
                        0 <= a < modifiers.take(b).len() && modifiers.take(b)[a] == m;
                    assert(modifiers[a] == modifiers[b]);
                },
                Err(_) => {},
            }
        },
        Err(_) => {},
    }
}

proof fn lemma_one_modifier(
    on: bool,
    modifier: HotkeyModifier,
    texts: spec_fn(HotkeyModifier) -> Seq<char>,
    separator: Seq<char>,
)
    ensures
        each_followed(
            (if on {
                seq![modifier]
            } else {
                Seq::empty()
            }).map_values(texts),
            separator,
        ) == (if on {
            texts(modifier) + separator
        } else {
            Seq::empty()
        }),
{
    lemma_each_followed_concat(Seq::empty(), Seq::empty(), separator);
    if on {
        assert(seq![modifier].map_values(texts) =~= seq![texts(modifier)]);
        assert(each_followed(seq![texts(modifier)], separator) == texts(modifier) + separator);
    } else {
        assert(Seq::<HotkeyModifier>::empty().map_values(texts) =~= Seq::<Seq<char>>::empty());
    }
}

#[verifier::spinoff_prover]
#[verifier::rlimit(30)]
proof fn lemma_modifiers_followed(
    set: HotkeyModifiers,
    texts: spec_fn(HotkeyModifier) -> Seq<char>,
    separator: Seq<char>,
)
    ensures
        each_followed(set.listed().map_values(texts), separator) == (if set.ctrl {
            texts(HotkeyModifier::Ctrl) + separator
        } else {
            Seq::empty()
        }) + (if set.shift {
            texts(HotkeyModifier::Shift) + separator
        } else {
            Seq::empty()
        }) + (if set.alt {
            texts(HotkeyModifier::Alt) + separator
        } else {
            Seq::empty()
        }) + (if set.win {
            texts(HotkeyModifier::Win) + separator
        } else {
            Seq::empty()
        }),
{
    let c = if set.ctrl {
        seq![HotkeyModifier::Ctrl]
    } else {
        Seq::empty()
    };
    let s = if set.shift {
        seq![HotkeyModifier::Shift]
    } else {
        Seq::empty()
    };
    let a = if set.alt {
        seq![HotkeyModifier::Alt]
    } else {
        Seq::empty()
    };
    let w = if set.win {
        seq![HotkeyModifier::Win]
    } else {
        Seq::empty()
    };
    assert(set.listed().map_values(texts) =~= c.map_values(texts) + s.map_values(texts)
        + a.map_values(texts) + w.map_values(texts));
    lemma_each_followed_concat(
        c.map_values(texts) + s.map_values(texts) + a.map_values(texts),
        w.map_values(texts),
        separator,
    );
    lemma_each_followed_concat(
        c.map_values(texts) + s.map_values(texts),
        a.map_values(texts),
        separator,
    );
    lemma_each_followed_concat(c.map_values(texts), s.map_values(texts), separator);
    lemma_one_modifier(set.ctrl, HotkeyModifier::Ctrl, texts, separator);
    lemma_one_modifier(set.shift, HotkeyModifier::Shift, texts, separator);
    lemma_one_modifier(set.alt, HotkeyModifier::Alt, texts, separator);
    lemma_one_modifier(set.win, HotkeyModifier::Win, texts, separator);
}

/// A hotkey is shown by its modifiers in the order control, shift, alt, windows, each with a
/// plus sign behind it, and the name of its key.
pub proof fn lemma_label(set: HotkeyModifiers, key: Key)
    ensures
        set.label_text(key) == (if set.ctrl {
            "Ctrl"@ + " + "@
        } else {
            Seq::empty()
        }) + (if set.shift {
            "Shift"@ + " + "@
        } else {
            Seq::empty()
        }) + (if set.alt {
            "Alt"@ + " + "@
        } else {
            Seq::empty()
        }) + (if set.win {
            "Win"@ + " + "@
        } else {
            Seq::empty()
        }) + key.name_text(),
{
    let texts = |m: HotkeyModifier| m.display_text();
    lemma_join_push(set.listed().map_values(texts), key.name_text(), " + "@);
    lemma_modifiers_followed(set, texts, " + "@);
}

/// A hotkey is written in the configuration as its modifiers in that order, each with a plus
/// sign behind it, and its key.
pub proof fn lemma_written(binding: HotkeyBinding)
    ensures
        binding.config_text() == (if binding.modifiers.ctrl {
            "ctrl"@ + "+"@
        } else {
            Seq::empty()
        }) + (if binding.modifiers.shift {
            "shift"@ + "+"@
        } else {
            Seq::empty()
        }) + (if binding.modifiers.alt {
            "alt"@ + "+"@
        } else {
            Seq::empty()
        }) + (if binding.modifiers.win {
            "win"@ + "+"@
        } else {
            Seq::empty()
        }) + binding.key.config_text(),
{
    let texts = |m: HotkeyModifier| m.config_text();
    lemma_join_push(binding.modifiers.listed().map_values(texts), binding.key.config_text(), "+"@);
    lemma_modifiers_followed(binding.modifiers, texts, "+"@);
}

} // verus!
