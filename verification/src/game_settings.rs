//! The game's own settings, as its settings file holds them.
use crate::text::{chars_of, joined, same_text, split, split_at_each, string_of, trim, trimmed, views};
use vstd::prelude::*;

verus! {

/// Why the game's settings could not be read.
#[derive(Debug)]
pub enum SettingError {
    Missing { name: String },
    Invalid { name: String, value: String },
}

impl SettingError {
    pub open spec fn message_text(self) -> Seq<char> {
        match self {
            SettingError::Missing { name } => "game setting "@ + name@ + " is missing"@,
            SettingError::Invalid { name, value } => "invalid game setting "@ + name@ + ": "@
                + value@,
        }
    }

    /// The message shown to the user.
    pub fn message(&self) -> (r: String)
        ensures
            r@ == self.message_text(),
    {
        match self {
            SettingError::Missing { name } => {
                let mut out = joined("game setting ", name.as_str());
                out.push_str(" is missing");
                out
            },
            SettingError::Invalid { name, value } => {
                let mut out = joined("invalid game setting ", name.as_str());
                out.push_str(": ");
                out.push_str(value.as_str());
                out
            },
        }
    }
}

/// The place of the first equals sign.
pub open spec fn equals_at(line: Seq<char>) -> Option<int>
    decreases line.len(),
{
    if line.len() == 0 {
        None
    } else {
        match equals_at(line.drop_last()) {
            Some(place) => Some(place),
            None => if line.last() == '=' {
                Some(line.len() - 1)
            } else {
                None
            },
        }
    }
}

proof fn lemma_equals_stays(line: Seq<char>, n: int)
    requires
        0 <= n <= line.len(),
        equals_at(line.take(n)) is Some,
    ensures
        equals_at(line) == equals_at(line.take(n)),
    decreases line.len() - n,
{
    if n < line.len() {
        assert(line.take(n + 1).drop_last() == line.take(n));
        lemma_equals_stays(line, n + 1);
    } else {
        assert(line.take(n) == line);
    }
}

/// The value that a line gives to a setting.
pub open spec fn line_value(line: Seq<char>, name: Seq<char>) -> Option<Seq<char>> {
    match equals_at(line) {
        Some(place) => if trim(line.take(place)) == name {
            Some(trim(line.skip(place + 1)))
        } else {
            None
        },
        None => None,
    }
}

/// The value of a setting: that of the first line that names it.
pub open spec fn first_value(lines: Seq<Seq<char>>, name: Seq<char>) -> Option<Seq<char>>
    decreases lines.len(),
{
    if lines.len() == 0 {
        None
    } else {
        match first_value(lines.drop_last(), name) {
            Some(value) => Some(value),
            None => line_value(lines.last(), name),
        }
    }
}

proof fn lemma_first_value_stays(lines: Seq<Seq<char>>, name: Seq<char>, n: int)
    requires
        0 <= n <= lines.len(),
        first_value(lines.take(n), name) is Some,
    ensures
        first_value(lines, name) == first_value(lines.take(n), name),
    decreases lines.len() - n,
{
    if n < lines.len() {
        assert(lines.take(n + 1).drop_last() == lines.take(n));
        lemma_first_value_stays(lines, name, n + 1);
    } else {
        assert(lines.take(n) == lines);
    }
}

/// The value of a setting in a settings file.
pub open spec fn setting_value(contents: Seq<char>, name: Seq<char>) -> Option<Seq<char>> {
    first_value(split(contents, '\n'), name)
}

fn value_in(line: &str, name: &str) -> (r: Option<String>)
    ensures
        match r {
            Some(value) => line_value(line@, name@) == Some(value@),
            None => line_value(line@, name@) is None,
        },
{
    let chars = chars_of(line);
    let mut i: usize = 0;
    assert(chars@.take(0) =~= Seq::<char>::empty());
    while i < chars.len()
        invariant
            i <= chars@.len(),
            chars@ == line@,
            equals_at(chars@.take(i as int)) is None,
        decreases chars@.len() - i,
    {
        assert(chars@.take(i + 1).drop_last() == chars@.take(i as int));
        if chars[i] == '=' {
            proof {
                lemma_equals_stays(chars@, i + 1);
            }
            let key = trimmed(string_of(&chars, 0, i).as_str());
            assert(chars@.subrange(0, i as int) =~= line@.take(i as int));
            assert(chars@.subrange(i + 1, chars@.len() as int) =~= line@.skip(i + 1));
            if !same_text(key.as_str(), name) {
                return None;
            }
            return Some(trimmed(string_of(&chars, i + 1, chars.len()).as_str()));
        }
        i = i + 1;
    }
    assert(chars@.take(chars@.len() as int) =~= chars@);
    None
}

/// The value of a setting, as it is written.
pub fn setting_text(contents: &str, name: &str) -> (r: Result<String, SettingError>)
    ensures
        match r {
            Ok(value) => setting_value(contents@, name@) == Some(value@),
            Err(error) => {
                &&& setting_value(contents@, name@) is None
                &&& error matches SettingError::Missing { name: missing }
                &&& missing@ == name@
            },
        },
{
    let lines = split_at_each(contents, '\n');
    let ghost all = views(lines@);
    let mut i: usize = 0;
    assert(all.take(0) =~= Seq::<Seq<char>>::empty());
    while i < lines.len()
        invariant
            i <= lines@.len(),
            all == views(lines@),
            all == split(contents@, '\n'),
            first_value(all.take(i as int), name@) is None,
        decreases lines@.len() - i,
    {
        assert(all.take(i + 1).drop_last() == all.take(i as int));
        assert(all.take(i + 1).last() == lines@[i as int]@);
        if let Some(value) = value_in(lines[i].as_str(), name) {
            proof {
                lemma_first_value_stays(all, name@, i + 1);
            }
            return Ok(value);
        }
        i = i + 1;
    }
    assert(all.take(all.len() as int) =~= all);
    Err(SettingError::Missing { name: name.to_string() })
}

/// A setting that is switched on or off.
pub fn parse_switch(contents: &str, name: &str) -> (r: Result<bool, SettingError>)
    ensures
        match setting_value(contents@, name@) {
            None => r matches Err(SettingError::Missing { name: missing }) && missing@ == name@,
            Some(value) => if value == "true"@ {
                r matches Ok(on) && on
            } else if value == "false"@ {
                r matches Ok(on) && !on
            } else {
                r matches Err(SettingError::Invalid { name: invalid, value: text }) && invalid@
                    == name@ && text@ == value
            },
        },
{
    let value = match setting_text(contents, name) {
        Ok(value) => value,
        Err(error) => {
            return Err(error);
        },
    };
    proof {
        reveal_strlit("true");
        reveal_strlit("false");
        assert("true"@[0] != "false"@[0]);
    }
    if same_text(value.as_str(), "true") {
        Ok(true)
    } else if same_text(value.as_str(), "false") {
        Ok(false)
    } else {
        Err(SettingError::Invalid { name: name.to_string(), value })
    }
}

/// How the game shows its colors. The brightness values are the bits of the numbers
/// that the settings hold.
#[derive(Debug, Clone, Copy, PartialEq, Eq, Structural)]
pub struct GameColorSettings {
    pub hdr_enabled: bool,
    pub screen_brightness: u32,
    pub ui_brightness: u32,
}

/// A setting that is a number; `number` is what its text reads as.
pub fn parse_number(contents: &str, name: &str, number: Option<u32>) -> (r: Result<u32, SettingError>)
    ensures
        match setting_value(contents@, name@) {
            None => r matches Err(SettingError::Missing { name: missing }) && missing@ == name@,
            Some(value) => match number {
                Some(number) => r == Ok::<u32, SettingError>(number),
                None => r matches Err(SettingError::Invalid { name: invalid, value: text })
                    && invalid@ == name@ && text@ == value,
            },
        },
{
    let value = match setting_text(contents, name) {
        Ok(value) => value,
        Err(error) => {
            return Err(error);
        },
    };
    match number {
        Some(number) => Ok(number),
        None => Err(SettingError::Invalid { name: name.to_string(), value }),
    }
}

/// What is wrong with a switch, if anything.
pub open spec fn switch_fault(contents: Seq<char>, name: Seq<char>) -> bool {
    match setting_value(contents, name) {
        Some(value) => value != "true"@ && value != "false"@,
        None => true,
    }
}

/// Reads how the game shows its colors. `screen_brightness` and `ui_brightness` are
/// what the texts of these settings read as, where they are numbers.
pub fn read_color_settings(
    contents: &str,
    screen_brightness: Option<u32>,
    ui_brightness: Option<u32>,
) -> (r: Result<GameColorSettings, SettingError>)
    ensures
        match r {
            Ok(settings) => {
                &&& !switch_fault(contents@, "hdr_enabled"@)
                &&& settings.hdr_enabled == (setting_value(contents@, "hdr_enabled"@) == Some(
                    "true"@,
                ))
                &&& setting_value(contents@, "screen_brightness"@) is Some
                &&& screen_brightness == Some(settings.screen_brightness)
                &&& setting_value(contents@, "ui_brightness"@) is Some
                &&& ui_brightness == Some(settings.ui_brightness)
            },
            Err(error) => {
                let name = if switch_fault(contents@, "hdr_enabled"@) {
                    "hdr_enabled"@
                } else if setting_value(contents@, "screen_brightness"@) is None
                    || screen_brightness is None {
                    "screen_brightness"@
                } else {
                    "ui_brightness"@
                };
                &&& name == "ui_brightness"@ ==> setting_value(contents@, name) is None
                    || ui_brightness is None
                &&& match setting_value(contents@, name) {
                    None => error matches SettingError::Missing { name: missing } && missing@
                        == name,
                    Some(value) => error matches SettingError::Invalid {
                        name: invalid,
                        value: text,
                    } && invalid@ == name && text@ == value,
                }
            },
        },
{
    proof {
        reveal_strlit("true");
        reveal_strlit("false");
        assert("true"@[0] != "false"@[0]);
        reveal_strlit("ui_brightness");
        reveal_strlit("hdr_enabled");
        reveal_strlit("screen_brightness");
        assert("ui_brightness"@.len() == 13 && "hdr_enabled"@.len() == 11
            && "screen_brightness"@.len() == 17);
    }
    let hdr_enabled = match parse_switch(contents, "hdr_enabled") {
        Ok(on) => on,
        Err(error) => {
            return Err(error);
        },
    };
    let screen: u32 = match parse_number(contents, "screen_brightness", screen_brightness) {
        Ok(number) => number,
        Err(error) => {
            return Err(error);
        },
    };
    let ui: u32 = match parse_number(contents, "ui_brightness", ui_brightness) {
        Ok(number) => number,
        Err(error) => {
            return Err(error);
        },
    };
    Ok(GameColorSettings { hdr_enabled, screen_brightness: screen, ui_brightness: ui })
}

// ----- laws ------------------------------------------------------------------------

proof fn lemma_first_equals(line: Seq<char>)
    ensures
        match equals_at(line) {
            Some(place) => 0 <= place < line.len() && line[place] == '=' && forall|i: int|
                0 <= i < place ==> #[trigger] line[i] != '=',
            None => forall|i: int| 0 <= i < line.len() ==> #[trigger] line[i] != '=',
        },
    decreases line.len(),
{
    if line.len() > 0 {
        let before = line.drop_last();
        lemma_first_equals(before);
        assert forall|i: int| 0 <= i < before.len() implies #[trigger] line[i] == before[i] by {}
    }
}

/// A line gives a value to a setting when it holds an equals sign and the text before the
/// first one is the name of the setting, blanks at the ends apart. The value is all that is
/// behind that sign, without blanks at its ends.
pub proof fn lemma_line_value(line: Seq<char>, name: Seq<char>)
    ensures
        forall|k: int|
            #![trigger line.take(k)]
            0 <= k < line.len() && line[k] == '=' && (forall|i: int|
                0 <= i < k ==> #[trigger] line[i] != '=') ==> line_value(line, name) == (if trim(
                line.take(k),
            ) == name {
                Some(trim(line.skip(k + 1)))
            } else {
                None
            }),
        (forall|i: int| 0 <= i < line.len() ==> #[trigger] line[i] != '=') ==> line_value(
            line,
            name,
        ) is None,
{
    lemma_first_equals(line);
    assert forall|k: int|
        #![trigger line.take(k)]
        0 <= k < line.len() && line[k] == '=' && (forall|i: int|
            0 <= i < k ==> #[trigger] line[i] != '=') implies line_value(line, name) == (if trim(
        line.take(k),
    ) == name {
        Some(trim(line.skip(k + 1)))
    } else {
        None
    }) by {
        let place = equals_at(line)->0;
        assert(line[k] == '=');
        assert(place == k);
    }
}

proof fn lemma_first_of_lines(lines: Seq<Seq<char>>, name: Seq<char>)
    ensures
        match first_value(lines, name) {
            Some(value) => exists|i: int|
                #![trigger lines[i]]
                {
                    &&& 0 <= i < lines.len()
                    &&& line_value(lines[i], name) == Some(value)
                    &&& forall|j: int|
                        0 <= j < i ==> line_value(#[trigger] lines[j], name) is None
                },
            None => forall|i: int|
                0 <= i < lines.len() ==> line_value(#[trigger] lines[i], name) is None,
        },
    decreases lines.len(),
{
    if lines.len() > 0 {
        let before = lines.drop_last();
        let last: int = lines.len() - 1;
        lemma_first_of_lines(before, name);
        assert forall|i: int| 0 <= i < before.len() implies #[trigger] lines[i] == before[i] by {}
        match first_value(before, name) {
            Some(value) => {
                let i = choose|i: int|
                    #![trigger before[i]]
                    {
                        &&& 0 <= i < before.len()
                        &&& line_value(before[i], name) == Some(value)
                        &&& forall|j: int|
                            0 <= j < i ==> line_value(#[trigger] before[j], name) is None
                    };
                assert(lines[i] == before[i]);
                assert forall|j: int| 0 <= j < i implies line_value(
                    #[trigger] lines[j],
                    name,
                ) is None by {
                    assert(before[j] == lines[j]);
                }
            },
            None => {
                assert(lines[last] == lines.last());
                assert forall|j: int| 0 <= j < last implies line_value(
                    #[trigger] lines[j],
                    name,
                ) is None by {
                    assert(before[j] == lines[j]);
                }
            },
        }
    }
}

/// The value of a setting is that of the first line that gives it one; there is none only
/// when no line does.
pub proof fn lemma_setting_value(contents: Seq<char>, name: Seq<char>)
    ensures
        ({
            let lines = split(contents, '\n');
            match setting_value(contents, name) {
                Some(value) => exists|i: int|
                    #![trigger lines[i]]
                    {
                        &&& 0 <= i < lines.len()
                        &&& line_value(lines[i], name) == Some(value)
                        &&& forall|j: int|
                            0 <= j < i ==> line_value(#[trigger] lines[j], name) is None
                    },
                None => forall|i: int|
                    0 <= i < lines.len() ==> line_value(#[trigger] lines[i], name) is None,
            }
        }),
{
    lemma_first_of_lines(split(contents, '\n'), name);
}

} // verus!
