//! The loadout the tool believes is currently equipped in game. Mission slot
//! hotkeys map to its four slots.
use crate::ids::{copy_ids, id_texts, list_of, option_text};
use crate::text::{decimal, decimal_of};
use std::time::SystemTime;
use vstd::prelude::*;

verus! {

/// The standard library's point in time, carried from the clock to
/// `seconds_since_epoch` and never looked into.
#[verifier::external_type_specification]
#[verifier::external_body]
pub struct ExSystemTime(std::time::SystemTime);

/// `SystemTime::now` reads the clock. Nothing is claimed of the reading.
pub assume_specification[ std::time::SystemTime::now ]() -> (r: std::time::SystemTime)
;

/// `SystemTime::duration_since` with the Unix epoch, in whole seconds; `None` for
/// a time before the epoch. Nothing is claimed of the number.
#[verifier::external_body]
fn seconds_since_epoch(time: SystemTime) -> (r: Option<u64>) {
    match time.duration_since(SystemTime::UNIX_EPOCH) {
        Ok(elapsed) => Some(elapsed.as_secs()),
        Err(_) => None,
    }
}

/// Where the active loadout comes from.
#[derive(Debug, Clone, Copy, PartialEq, Eq, Structural)]
pub enum ActiveSource {
    /// Set when a preset was saved from the loadout screen.
    Saved,
    /// Set when a preset was applied to the loadout screen.
    Applied,
    /// Chosen by hand in the window.
    Manual,
}

impl Default for ActiveSource {
    fn default() -> (r: ActiveSource)
        ensures
            r == ActiveSource::Manual,
    {
        ActiveSource::Manual
    }
}

impl ActiveSource {
    pub open spec fn label_text(self) -> Seq<char> {
        match self {
            ActiveSource::Saved => "saved from game"@,
            ActiveSource::Applied => "applied to game"@,
            ActiveSource::Manual => "set manually"@,
        }
    }

    pub fn label(self) -> (r: &'static str)
        ensures
            r@ == self.label_text(),
    {
        match self {
            ActiveSource::Saved => "saved from game",
            ActiveSource::Applied => "applied to game",
            ActiveSource::Manual => "set manually",
        }
    }
}

/// The loadout that the slot hotkeys act on.
#[derive(Debug)]
pub struct ActiveLoadout {
    /// Preset name the loadout came from, e.g. `preset_2`.
    pub preset: String,
    /// Catalog ids in on-screen slot order; `None` when a slot could not be identified.
    pub slots: Vec<Option<String>>,
    pub source: ActiveSource,
    /// Seconds since the Unix epoch.
    pub set_at_unix: u64,
}

/// An active loadout as a mathematical value.
#[verifier::ext_equal]
pub struct ActiveLoadoutView {
    pub preset: Seq<char>,
    pub slots: Seq<Option<Seq<char>>>,
    pub source: ActiveSource,
    pub set_at_unix: u64,
}

impl View for ActiveLoadout {
    type V = ActiveLoadoutView;

    open spec fn view(&self) -> ActiveLoadoutView {
        ActiveLoadoutView {
            preset: self.preset@,
            slots: id_texts(self.slots@),
            source: self.source,
            set_at_unix: self.set_at_unix,
        }
    }
}

impl Clone for ActiveLoadout {
    fn clone(&self) -> (r: ActiveLoadout)
        ensures
            r@ == self@,
    {
        ActiveLoadout {
            preset: self.preset.clone(),
            slots: copy_ids(&self.slots),
            source: self.source,
            set_at_unix: self.set_at_unix,
        }
    }
}

impl ActiveLoadout {
    /// A loadout that became active at the present time.
    pub fn new(preset: &str, slots: [Option<String>; 4], source: ActiveSource) -> (r: ActiveLoadout)
        ensures
            r.preset@ == preset@,
            id_texts(r.slots@) == id_texts(slots@),
            r.source == source,
    {
        ActiveLoadout::new_at(preset, slots, source, now_unix())
    }

    /// A loadout that became active `now` seconds after the Unix epoch.
    pub fn new_at(
        preset: &str,
        slots: [Option<String>; 4],
        source: ActiveSource,
        now: u64,
    ) -> (r: ActiveLoadout)
        ensures
            r@ == (ActiveLoadoutView {
                preset: preset@,
                slots: id_texts(slots@),
                source,
                set_at_unix: now,
            }),
    {
        ActiveLoadout {
            preset: preset.to_string(),
            slots: list_of(&slots),
            source,
            set_at_unix: now,
        }
    }

    /// The id in a slot, when there is such a slot and its Stratagem is known.
    pub fn slot(&self, index: usize) -> (r: Option<&str>)
        ensures
            match r {
                Some(id) => index < self@.slots.len() && self@.slots[index as int] == Some(id@),
                None => index < self@.slots.len() ==> self@.slots[index as int] is None,
            },
    {
        if index < self.slots.len() {
            assert(self@.slots[index as int] == option_text(self.slots@[index as int]));
            match &self.slots[index] {
                Some(id) => Some(id.as_str()),
                None => None,
            }
        } else {
            None
        }
    }
}

/// Seconds since the Unix epoch, 0 for a clock that is set to before it.
pub fn now_unix() -> u64 {
    unix_seconds(seconds_since_epoch(SystemTime::now()))
}

/// The time that a reading of the clock stands for: 0 when the clock is set to
/// before the Unix epoch.
pub fn unix_seconds(reading: Option<u64>) -> (r: u64)
    ensures
        r == (match reading {
            Some(seconds) => seconds,
            None => 0,
        }),
{
    match reading {
        Some(seconds) => seconds,
        None => 0,
    }
}

/// A stored loadout does not have four slots.
#[derive(Debug, Clone, Copy, PartialEq, Eq, Structural)]
pub struct SlotCountError {
    pub count: usize,
}

impl SlotCountError {
    /// The message shown to the user, for a loadout stored at `path`.
    pub open spec fn message_text(self, path: Seq<char>) -> Seq<char> {
        "active loadout in "@ + path + " must have 4 slots, got "@ + decimal(self.count as nat)
    }

    /// The message shown to the user, for a loadout stored at `path`.
    pub fn message(self, path: &str) -> (r: String)
        ensures
            r@ == self.message_text(path@),
    {
        let mut out = "active loadout in ".to_string();
        out.push_str(path);
        out.push_str(" must have 4 slots, got ");
        out.push_str(decimal_of(self.count as u64).as_str());
        out
    }
}

/// Accepts what the loadout file holds: nothing, when there is no file, or a
/// loadout with four slots.
pub fn load(stored: Option<ActiveLoadout>) -> (r: Result<Option<ActiveLoadout>, SlotCountError>)
    ensures
        match r {
            Ok(loadout) => loadout == stored && (stored is Some ==> stored->0.slots@.len() == 4),
            Err(error) => stored is Some && stored->0.slots@.len() != 4 && error.count
                == stored->0.slots@.len(),
        },
{
    match stored {
        None => Ok(None),
        Some(loadout) => {
            let count: usize = loadout.slots.len();
            if count == 4 {
                Ok(Some(loadout))
            } else {
                Err(SlotCountError { count })
            }
        },
    }
}

/// What is made active passes as a stored loadout: it has four slots.
pub proof fn lemma_new_loadout_has_four_slots(slots: [Option<String>; 4])
    ensures
        id_texts(slots@).len() == 4,
{
}

} // verus!
