//! Preset hotkeys: saving, applying, and what becomes active afterwards.
use super::hotkeys::{
    candidates, desired_from, lemma_preset_hotkey_place, HotkeySpec, PRESET_HOTKEY_ID_BASE,
};
use super::{Engine, EngineView};
use crate::active_loadout::{ActiveLoadout, ActiveLoadoutView, ActiveSource};
use crate::app_events::{apply_event, AppEvent};
use crate::app_state::{
    summary_views, PresetSummary, PresetSummaryView, SharedState, SharedStateView, Tone,
};
use crate::catalog::Catalog;
use crate::ids::{
    contains_id, copy_of, count_known, holds_id, id_texts, known_count, list_of, option_text,
};
use crate::input::HotkeyBinding;
use crate::loadout::selection::BoosterApplyOutcome;
use crate::preset::{
    first_problem, invalid_preset_reason, preset_fault, preset_views, validate_preset, Preset,
    PresetView, TemplateFile,
};
use crate::text::{decimal, decimal_of, ordinal_of, views};
use crate::text_map::TextMap;
use vstd::prelude::*;

verus! {

/// The internal name of a preset slot, counted from 0.
pub open spec fn preset_name_text(index: nat) -> Seq<char> {
    "preset_"@ + decimal(index + 1)
}

/// The internal name of a preset slot, counted from 0.
pub fn preset_name(index: usize) -> (r: String)
    ensures
        r@ == preset_name_text(index as nat),
{
    let mut out = "preset_".to_string();
    out.push_str(ordinal_of(index).as_str());
    out
}

/// What a look at the screen showed before a preset action.
#[derive(Debug, Clone, Copy, PartialEq, Eq, Structural)]
pub enum ScreenCheck {
    /// The loadout home screen is visible.
    LoadoutVisible,
    /// Another screen, or none that is known, is visible.
    LoadoutHidden,
    /// The screen could not be read.
    Failed,
}

/// What a preset hotkey calls for next.
#[derive(Debug, Clone, Copy, PartialEq, Eq, Structural)]
pub enum PresetHotkeyStep {
    /// Look whether the loadout screen is visible.
    CheckScreen,
    /// Call the slot with the same number instead.
    CallSlot,
    /// Wait until the hotkey is released.
    AwaitRelease(HotkeySpec),
}

/// What a preset hotkey does, given the loadout that is on the screen.
#[derive(Debug, Clone, Copy, PartialEq, Eq, Structural)]
pub enum PresetDecision {
    /// Save the loadout, or overwrite the preset with it.
    Save,
    /// Apply the preset.
    Apply,
    /// Leave the loadout as it is.
    Reject,
}

/// Decides what a preset hotkey does: a full loadout is saved, an empty one is filled,
/// and one that is partly filled is left alone. `filled` says of each slot whether it
/// holds a Stratagem.
pub fn decide_preset_action(filled: [bool; 4]) -> (r: PresetDecision)
    ensures
        r == PresetDecision::Save <==> forall|i: int| 0 <= i < 4 ==> filled@[i],
        r == PresetDecision::Apply <==> forall|i: int| 0 <= i < 4 ==> !filled@[i],
{
    if filled[0] && filled[1] && filled[2] && filled[3] {
        PresetDecision::Save
    } else if !filled[0] && !filled[1] && !filled[2] && !filled[3] {
        PresetDecision::Apply
    } else {
        PresetDecision::Reject
    }
}

/// A preset action to run.
#[derive(Debug)]
pub struct PresetAction {
    pub preset: String,
    pub apply_in_saved_order: bool,
    pub auto_ready_up: bool,
    pub save_fallback_when_taken: bool,
}

/// What follows on the attempt to select the Booster of a preset.
#[derive(Debug, Clone, Copy, PartialEq, Eq, Structural)]
pub enum BoosterFollowUp {
    /// The preset is applied.
    Complete,
    /// The preset is applied without its Booster.
    Unavailable,
    /// Another Booster is to be selected by hand, and saved as the fallback.
    AskForFallback,
}

impl PresetAction {
    /// What follows on the attempt to select the Booster: one that is in use by other
    /// players is replaced by hand where that is wanted and the preset has no fallback.
    pub fn booster_follow_up(&self, outcome: BoosterApplyOutcome, has_fallback: bool) -> (r:
        BoosterFollowUp)
        ensures
            r == match outcome {
                BoosterApplyOutcome::Applied => BoosterFollowUp::Complete,
                BoosterApplyOutcome::Unavailable => if self.save_fallback_when_taken
                    && !has_fallback {
                    BoosterFollowUp::AskForFallback
                } else {
                    BoosterFollowUp::Unavailable
                },
            },
    {
        match outcome {
            BoosterApplyOutcome::Applied => BoosterFollowUp::Complete,
            BoosterApplyOutcome::Unavailable => {
                if self.save_fallback_when_taken && !has_fallback {
                    BoosterFollowUp::AskForFallback
                } else {
                    BoosterFollowUp::Unavailable
                }
            },
        }
    }

    /// Whether the player is made ready afterwards: where that is wanted, and the
    /// preset was applied with its Booster.
    pub fn readies_up(&self, has_booster: bool, complete: bool) -> (r: bool)
        ensures
            r == (self.auto_ready_up && has_booster && complete),
    {
        self.auto_ready_up && has_booster && complete
    }
}

impl EngineView {
    /// The hotkey of a preset.
    pub open spec fn preset_spec(self, index: usize) -> HotkeySpec {
        HotkeySpec {
            id: (PRESET_HOTKEY_ID_BASE + index) as i32,
            modifiers: self.preset_modifiers,
            key: self.preset_keys[index as int],
        }
    }

    /// The engine with the state of the preset modifiers noted after an action, so
    /// that modifiers still held make nothing ready.
    pub open spec fn after_action(self, modifiers_down: bool) -> EngineView {
        EngineView {
            modifiers_were_down: modifiers_down,
            prewarm_suppressed: modifiers_down,
            ..self
        }
    }

    /// The engine with a loadout made active.
    pub open spec fn with_active(self, loadout: ActiveLoadoutView) -> EngineView {
        EngineView { active: Some(loadout), ..self }
    }
}

impl Engine {
    fn await_release(&self, index: usize, state: &mut SharedState) -> (r: PresetHotkeyStep)
        requires
            index < self@.preset_keys.len(),
            self@.preset_keys.len() <= 4,
        ensures
            r == PresetHotkeyStep::AwaitRelease(self@.preset_spec(index)),
            final(state)@ == old(state)@.with_status(
                Tone::Working,
                preset_name_text(index as nat) + ": release the keys to continue"@,
            ),
    {
        apply_event(state, AppEvent::HotkeyReleaseRequested { preset: preset_name(index) });
        PresetHotkeyStep::AwaitRelease(
            HotkeySpec {
                id: PRESET_HOTKEY_ID_BASE + index as i32,
                modifiers: self.preset_modifiers,
                key: self.preset_keys[index],
            },
        )
    }

    /// Answers a preset hotkey. Sprinting holds Shift, which turns a slot key into a
    /// preset hotkey, so with an active loadout the screen is looked at first.
    pub fn on_preset_hotkey(&self, index: usize, state: &mut SharedState) -> (r: PresetHotkeyStep)
        requires
            index < self@.preset_keys.len(),
            self@.preset_keys.len() <= 4,
        ensures
            if self@.settings.mission_enabled && self@.active is Some {
                &&& r == PresetHotkeyStep::CheckScreen
                &&& final(state)@ == old(state)@
            } else {
                &&& r == PresetHotkeyStep::AwaitRelease(self@.preset_spec(index))
                &&& final(state)@ == old(state)@.with_status(
                    Tone::Working,
                    preset_name_text(index as nat) + ": release the keys to continue"@,
                )
            },
    {
        if self.settings.mission_enabled && self.active.is_some() {
            PresetHotkeyStep::CheckScreen
        } else {
            self.await_release(index, state)
        }
    }

    /// Goes on with a preset hotkey once the screen was looked at: where the loadout
    /// screen is not showing, the slot is called instead.
    pub fn screen_checked(&self, index: usize, seen: ScreenCheck, state: &mut SharedState) -> (r:
        PresetHotkeyStep)
        requires
            index < self@.preset_keys.len(),
            self@.preset_keys.len() <= 4,
        ensures
            if seen == ScreenCheck::LoadoutHidden {
                &&& r == PresetHotkeyStep::CallSlot
                &&& final(state)@ == old(state)@
            } else {
                &&& r == PresetHotkeyStep::AwaitRelease(self@.preset_spec(index))
                &&& final(state)@ == old(state)@.with_status(
                    Tone::Working,
                    preset_name_text(index as nat) + ": release the keys to continue"@,
                )
            },
    {
        if seen == ScreenCheck::LoadoutHidden {
            PresetHotkeyStep::CallSlot
        } else {
            self.await_release(index, state)
        }
    }

    /// Goes on with a preset hotkey once it was released, or was not in time.
    pub fn release_awaited(
        &mut self,
        index: usize,
        released: bool,
        modifiers_down: bool,
        state: &mut SharedState,
    ) -> (r: Option<PresetAction>)
        ensures
            final(self).settings == old(self).settings,
            if released {
                &&& r matches Some(action)
                &&& action.preset@ == preset_name_text(index as nat)
                &&& action.apply_in_saved_order == old(self)@.settings.apply_in_saved_order
                &&& action.auto_ready_up == old(self)@.settings.auto_ready_up
                &&& action.save_fallback_when_taken == old(self)@.settings.save_fallback_when_taken
                &&& final(self)@ == old(self)@
                &&& final(state)@ == (SharedStateView { busy: true, ..old(state)@ })
            } else {
                &&& r is None
                &&& final(self)@ == old(self)@.after_action(modifiers_down)
                &&& final(state)@ == old(state)@.with_status(
                    Tone::Warning,
                    preset_name_text(index as nat) + " cancelled: "@
                        + "hotkey was not released in time"@,
                )
            },
    {
        if !released {
            self.modifiers_were_down = modifiers_down;
            self.prewarm_suppressed = modifiers_down;
            apply_event(
                state,
                AppEvent::PresetCancelled {
                    preset: preset_name(index),
                    reason: "hotkey was not released in time".to_string(),
                },
            );
            return None;
        }
        state.busy = true;
        Some(
            PresetAction {
                preset: preset_name(index),
                apply_in_saved_order: self.settings.apply_in_saved_order,
                auto_ready_up: self.settings.auto_ready_up,
                save_fallback_when_taken: self.settings.save_fallback_when_taken,
            },
        )
    }

    /// Ends a preset action, whatever came of it.
    pub fn preset_action_ended(&mut self, modifiers_down: bool, state: &mut SharedState)
        ensures
            final(self).settings == old(self).settings,
            final(self)@ == old(self)@.after_action(modifiers_down),
            final(state)@ == (SharedStateView { busy: false, ..old(state)@ }),
    {
        self.modifiers_were_down = modifiers_down;
        self.prewarm_suppressed = modifiers_down;
        state.busy = false;
    }
}

// ----- which ids became active -----------------------------------------------------

/// The first four of the identified ids; slots beyond the list are unknown.
pub open spec fn first_four(ids: Seq<Option<Seq<char>>>) -> Seq<Option<Seq<char>>> {
    Seq::new(
        4,
        |i: int|
            if i < ids.len() {
                ids[i]
            } else {
                None
            },
    )
}

fn id_or_unknown(ids: &Vec<Option<String>>, index: usize) -> (r: Option<String>)
    ensures
        option_text(r) == (if index < ids@.len() {
            id_texts(ids@)[index as int]
        } else {
            None
        }),
{
    if index < ids.len() {
        copy_of(&ids[index])
    } else {
        None
    }
}

/// The first four of the identified ids; slots beyond the list are unknown.
pub fn four_ids(ids: &Vec<Option<String>>) -> (r: [Option<String>; 4])
    ensures
        id_texts(r@) == first_four(id_texts(ids@)),
{
    let r = [
        id_or_unknown(ids, 0),
        id_or_unknown(ids, 1),
        id_or_unknown(ids, 2),
        id_or_unknown(ids, 3),
    ];
    assert(id_texts(r@) =~= first_four(id_texts(ids@)));
    r
}

/// The known ids of slots, in order.
pub open spec fn known_ids(ids: Seq<Option<Seq<char>>>) -> Seq<Seq<char>>
    decreases ids.len(),
{
    if ids.len() == 0 {
        Seq::empty()
    } else {
        match ids.last() {
            Some(id) => known_ids(ids.drop_last()).push(id),
            None => known_ids(ids.drop_last()),
        }
    }
}

/// The saved ids that were not seen, in order.
pub open spec fn unseen_ids(saved: Seq<Option<Seq<char>>>, seen: Seq<Option<Seq<char>>>) -> Seq<
    Seq<char>,
>
    decreases saved.len(),
{
    if saved.len() == 0 {
        Seq::empty()
    } else {
        let before = unseen_ids(saved.drop_last(), seen);
        match saved.last() {
            Some(id) => if holds_id(seen, id) {
                before
            } else {
                before.push(id)
            },
            None => before,
        }
    }
}

/// The place of the first slot that is unknown.
pub open spec fn first_unknown(ids: Seq<Option<Seq<char>>>) -> int
    decreases ids.len(),
{
    if ids.len() == 0 {
        0
    } else if ids[0] is None {
        0
    } else {
        1 + first_unknown(ids.drop_first())
    }
}

/// The ids of an applied loadout, from what was saved and what was seen. A single
/// unknown slot must hold the one saved id that was not seen; where nothing was
/// seen and the slots were filled in saved order, the saved ids stand.
pub open spec fn settled_ids(
    saved: Seq<Option<Seq<char>>>,
    seen: Seq<Option<Seq<char>>>,
    in_saved_order: bool,
) -> Seq<Option<Seq<char>>> {
    if known_count(seen) + 1 == seen.len() && unseen_ids(saved, seen).len() == 1 {
        seen.update(first_unknown(seen), Some(unseen_ids(saved, seen)[0]))
    } else if known_count(seen) == 0 && in_saved_order {
        saved
    } else {
        seen
    }
}

fn list_unseen(saved: &Vec<Option<String>>, seen: &Vec<Option<String>>) -> (r: Vec<String>)
    ensures
        views(r@) == unseen_ids(id_texts(saved@), id_texts(seen@)),
{
    let ghost all = id_texts(saved@);
    let mut out: Vec<String> = Vec::new();
    let mut i: usize = 0;
    assert(all.take(0) =~= Seq::<Option<Seq<char>>>::empty());
    assert(views(out@) =~= Seq::<Seq<char>>::empty());
    while i < saved.len()
        invariant
            i <= saved@.len(),
            all == id_texts(saved@),
            views(out@) == unseen_ids(all.take(i as int), id_texts(seen@)),
        decreases saved@.len() - i,
    {
        assert(all.take(i + 1).drop_last() == all.take(i as int));
        assert(all.take(i + 1).last() == option_text(saved@[i as int]));
        if let Some(id) = &saved[i] {
            if !contains_id(seen, id.as_str()) {
                let ghost before = views(out@);
                out.push(id.clone());
                assert(views(out@) =~= before.push(id@));
            }
        }
        i = i + 1;
    }
    assert(all.take(all.len() as int) =~= all);
    out
}

fn place_of_unknown(ids: &Vec<Option<String>>) -> (r: usize)
    requires
        known_count(id_texts(ids@)) < ids@.len(),
    ensures
        r < ids@.len(),
        r == first_unknown(id_texts(ids@)),
{
    let ghost all = id_texts(ids@);
    let mut i: usize = 0;
    assert(all.skip(0) =~= all);
    proof {
        lemma_unknown_exists(all);
    }
    while i < ids.len()
        invariant
            i <= ids@.len(),
            all == id_texts(ids@),
            first_unknown(all) == i + first_unknown(all.skip(i as int)),
            exists|k: int| i <= k < all.len() && (#[trigger] all[k]) is None,
        decreases ids@.len() - i,
    {
        assert(all[i as int] == option_text(ids@[i as int]));
        assert(all.skip(i as int)[0] == all[i as int]);
        if ids[i].is_none() {
            return i;
        }
        assert(all.skip(i as int).drop_first() =~= all.skip(i + 1));
        i = i + 1;
    }
    0
}

proof fn lemma_unknown_exists(ids: Seq<Option<Seq<char>>>)
    requires
        known_count(ids) < ids.len(),
    ensures
        exists|k: int| 0 <= k < ids.len() && (#[trigger] ids[k]) is None,
    decreases ids.len(),
{
    if ids.last() is None {
        assert(ids[ids.len() - 1] is None);
    } else {
        lemma_unknown_exists(ids.drop_last());
        let k = choose|k: int|
            0 <= k < ids.drop_last().len() && (#[trigger] ids.drop_last()[k]) is None;
        assert(ids[k] is None);
    }
}

/// The ids of an applied loadout, from what was saved and what was seen.
pub fn settle_ids(
    saved: &[Option<String>; 4],
    seen: &[Option<String>; 4],
    in_saved_order: bool,
) -> (r: [Option<String>; 4])
    ensures
        id_texts(r@) == settled_ids(id_texts(saved@), id_texts(seen@), in_saved_order),
{
    let saved_list = list_of(saved);
    let mut ids = list_of(seen);
    let ghost before = id_texts(ids@);
    let known = count_known(&ids);
    let unseen = list_unseen(&saved_list, &ids);
    assert(views(unseen@).len() == unseen@.len());
    if known == 3 && unseen.len() == 1 {
        let place = place_of_unknown(&ids);
        let id = unseen[0].clone();
        ids.set(place, Some(id));
        assert(views(unseen@)[0] == unseen@[0]@);
        assert(id_texts(ids@) =~= before.update(place as int, Some(unseen@[0]@)));
    } else if known == 0 && in_saved_order {
        ids = saved_list;
    }
    let r = four_ids(&ids);
    assert(id_texts(r@) =~= id_texts(ids@));
    r
}

/// The ids that an applied loadout can hold: the known saved ones, or any where
/// none is known.
pub fn allowed_ids(saved: &[Option<String>; 4]) -> (r: Option<Vec<String>>)
    ensures
        match r {
            Some(ids) => views(ids@) == known_ids(id_texts(saved@)) && ids@.len() > 0,
            None => known_ids(id_texts(saved@)).len() == 0,
        },
{
    let ghost all = id_texts(saved@);
    let mut out: Vec<String> = Vec::new();
    let mut i: usize = 0;
    assert(all.take(0) =~= Seq::<Option<Seq<char>>>::empty());
    assert(views(out@) =~= Seq::<Seq<char>>::empty());
    while i < 4
        invariant
            i <= 4,
            all == id_texts(saved@),
            all.len() == 4,
            views(out@) == known_ids(all.take(i as int)),
        decreases 4 - i,
    {
        assert(all.take(i + 1).drop_last() == all.take(i as int));
        assert(all.take(i + 1).last() == option_text(saved@[i as int]));
        if let Some(id) = &saved[i] {
            let ghost before = views(out@);
            out.push(id.clone());
            assert(views(out@) =~= before.push(id@));
        }
        i = i + 1;
    }
    assert(all.take(4) =~= all);
    assert(views(out@).len() == out@.len());
    if out.len() == 0 {
        None
    } else {
        Some(out)
    }
}

/// What the window is told of a saved preset.
pub open spec fn saved_status(display: Seq<char>, identified: nat) -> (Tone, Seq<char>) {
    if identified == 4 {
        (Tone::Success, "Saved "@ + display + "; all 4 stratagems identified"@)
    } else {
        (
            Tone::Warning,
            "Saved "@ + display + "; "@ + decimal(identified)
                + "/4 stratagems identified. Set the rest in the window."@,
        )
    }
}

/// What the window is told of an applied preset.
pub open spec fn applied_status(display: Seq<char>, identified: nat) -> (Tone, Seq<char>) {
    if identified == 4 {
        (Tone::Success, "Applied "@ + display + "; slot hotkeys armed"@)
    } else {
        (
            Tone::Warning,
            "Applied "@ + display + "; "@ + decimal(identified)
                + "/4 slots identified. Set the rest in the window."@,
        )
    }
}

impl Engine {
    /// Makes a loadout active and tells the window. Its file is left to the caller.
    pub fn set_active(&mut self, loadout: ActiveLoadout, state: &mut SharedState)
        ensures
            final(self).settings == old(self).settings,
            final(self)@ == old(self)@.with_active(loadout@),
            final(state)@ == (SharedStateView {
                active_loadout: Some(loadout@),
                ..old(state)@
            }),
    {
        self.active = Some(loadout);
        self.publish_active(state);
    }

    /// Makes a preset that was just saved the active loadout, with the ids that were
    /// identified in its slots.
    pub fn finish_saved(
        &mut self,
        preset: &str,
        ids: [Option<String>; 4],
        now: u64,
        state: &mut SharedState,
    )
        ensures
            final(self).settings == old(self).settings,
            ({
                let loadout = ActiveLoadoutView {
                    preset: preset@,
                    slots: id_texts(ids@),
                    source: ActiveSource::Saved,
                    set_at_unix: now,
                };
                let status = saved_status(
                    old(self)@.display_name(preset@),
                    known_count(id_texts(ids@)),
                );
                &&& final(self)@ == old(self)@.with_active(loadout)
                &&& final(state)@ == (SharedStateView {
                    active_loadout: Some(loadout),
                    ..old(state)@
                }).with_status(status.0, status.1)
            }),
    {
        let identified = count_known(&list_of(&ids));
        let display = self.preset_display_name(preset);
        self.set_active(
            ActiveLoadout::new_at(preset, ids, ActiveSource::Saved, now),
            state,
        );
        let mut text = "Saved ".to_string();
        text.push_str(display.as_str());
        if identified == 4 {
            text.push_str("; all 4 stratagems identified");
            state.set_status(Tone::Success, text.as_str());
        } else {
            text.push_str("; ");
            text.push_str(decimal_of(identified as u64).as_str());
            text.push_str("/4 stratagems identified. Set the rest in the window.");
            state.set_status(Tone::Warning, text.as_str());
        }
    }

    /// Makes a preset that was just applied the active loadout, with the ids that
    /// follow from what was saved and what was seen in the slots.
    pub fn finish_applied(
        &mut self,
        preset: &str,
        saved: &[Option<String>; 4],
        seen: &[Option<String>; 4],
        now: u64,
        state: &mut SharedState,
    )
        ensures
            final(self).settings == old(self).settings,
            ({
                let ids = settled_ids(
                    id_texts(saved@),
                    id_texts(seen@),
                    old(self)@.settings.apply_in_saved_order,
                );
                let loadout = ActiveLoadoutView {
                    preset: preset@,
                    slots: ids,
                    source: ActiveSource::Applied,
                    set_at_unix: now,
                };
                let status = applied_status(old(self)@.display_name(preset@), known_count(ids));
                &&& final(self)@ == old(self)@.with_active(loadout)
                &&& final(state)@ == (SharedStateView {
                    active_loadout: Some(loadout),
                    ..old(state)@
                }).with_status(status.0, status.1)
            }),
    {
        let ids = settle_ids(saved, seen, self.settings.apply_in_saved_order);
        let identified = count_known(&list_of(&ids));
        let display = self.preset_display_name(preset);
        self.set_active(
            ActiveLoadout::new_at(preset, ids, ActiveSource::Applied, now),
            state,
        );
        let mut text = "Applied ".to_string();
        text.push_str(display.as_str());
        if identified == 4 {
            text.push_str("; slot hotkeys armed");
            state.set_status(Tone::Success, text.as_str());
        } else {
            text.push_str("; ");
            text.push_str(decimal_of(identified as u64).as_str());
            text.push_str("/4 slots identified. Set the rest in the window.");
            state.set_status(Tone::Warning, text.as_str());
        }
    }
}

// ----- what the window shows of the presets ------------------------------------------

/// The saved presets, or why they could not be read.
pub open spec fn loaded_view(loaded: Result<TextMap<Preset>, String>) -> Result<
    Map<Seq<char>, PresetView>,
    Seq<char>,
> {
    match loaded {
        Ok(presets) => Ok(preset_views(presets.map())),
        Err(message) => Err(message@),
    }
}

/// What is wrong with a saved preset: the preset itself, or one of its template
/// files.
pub open spec fn preset_problem(
    name: Seq<char>,
    preset: PresetView,
    files: Seq<TemplateFile>,
) -> Option<Seq<char>> {
    match preset_fault(name, preset) {
        Some(fault) => Some(fault.message_text()),
        None => first_problem(preset.templates(), files),
    }
}

/// What the window shows of a preset slot.
pub open spec fn summary_of(
    engine: EngineView,
    index: usize,
    loaded: Result<Map<Seq<char>, PresetView>, Seq<char>>,
    files: Map<Seq<char>, Vec<TemplateFile>>,
) -> PresetSummaryView {
    let name = preset_name_text(index as nat);
    let blank = PresetSummaryView {
        name,
        index,
        hotkey_label: engine.preset_modifiers.label_text(engine.preset_keys[index as int]),
        label: if engine.settings.labels.contains_key(name) {
            engine.settings.labels[name]
        } else {
            Seq::empty()
        },
        ..PresetSummaryView::blank()
    };
    match loaded {
        Err(message) => PresetSummaryView { problem: Some(message), ..blank },
        Ok(presets) => if presets.contains_key(name) {
            PresetSummaryView {
                saved: true,
                stratagems: presets[name].ids(),
                booster: presets[name].booster is Some,
                fallback_booster: presets[name].fallback_booster is Some,
                problem: preset_problem(name, presets[name], files[name]@),
                ..blank
            }
        } else {
            blank
        },
    }
}

/// The template files of every saved preset are told of, one for each template.
pub open spec fn files_told(
    loaded: Result<Map<Seq<char>, PresetView>, Seq<char>>,
    files: Map<Seq<char>, Vec<TemplateFile>>,
) -> bool {
    loaded matches Ok(presets) ==> forall|name: Seq<char>| #[trigger]
        presets.contains_key(name) ==> files.contains_key(name) && files[name]@.len()
            == presets[name].templates().len()
}

fn problem_with(name: &str, preset: &Preset, files: &Vec<TemplateFile>) -> (r: Option<String>)
    requires
        files@.len() == preset@.templates().len(),
    ensures
        option_text(r) == preset_problem(name@, preset@, files@),
{
    match validate_preset(name, preset) {
        Ok(_) => invalid_preset_reason(preset, files),
        Err(error) => Some(error.message()),
    }
}

impl Engine {
    fn summary(
        &self,
        index: usize,
        loaded: &Result<TextMap<Preset>, String>,
        files: &TextMap<Vec<TemplateFile>>,
    ) -> (r: PresetSummary)
        requires
            index < self@.preset_keys.len(),
            files_told(loaded_view(*loaded), files.map()),
        ensures
            r@ == summary_of(self@, index, loaded_view(*loaded), files.map()),
    {
        let name = preset_name(index);
        let label = match self.settings.labels.get(name.as_str()) {
            Some(label) => label.clone(),
            None => String::new(),
        };
        let hotkey_label = self.preset_modifiers.label_with_key(self.preset_keys[index]);
        let mut summary = PresetSummary {
            name,
            index,
            hotkey_label,
            label,
            ..PresetSummary::default()
        };
        match loaded {
            Err(message) => {
                summary.problem = Some(message.clone());
            },
            Ok(presets) => {
                if let Some(preset) = presets.get(summary.name.as_str()) {
                    summary.saved = true;
                    summary.stratagems = preset.stratagem_ids();
                    summary.booster = preset.booster.is_some();
                    summary.fallback_booster = preset.fallback_booster.is_some();
                    assert(preset_views(presets.map()).contains_key(summary.name@));
                    if let Some(known) = files.get(summary.name.as_str()) {
                        summary.problem = problem_with(summary.name.as_str(), preset, known);
                    }
                }
            },
        }
        summary
    }

    /// What the window shows of the preset slots. `files` tells of the template
    /// files of every saved preset.
    pub fn preset_summaries(
        &self,
        loaded: &Result<TextMap<Preset>, String>,
        files: &TextMap<Vec<TemplateFile>>,
    ) -> (r: Vec<PresetSummary>)
        requires
            files_told(loaded_view(*loaded), files.map()),
        ensures
            summary_views(r@) == Seq::new(
                self@.preset_keys.len(),
                |i: int| summary_of(self@, i as usize, loaded_view(*loaded), files.map()),
            ),
    {
        let ghost wanted = Seq::new(
            self@.preset_keys.len(),
            |i: int| summary_of(self@, i as usize, loaded_view(*loaded), files.map()),
        );
        let mut out: Vec<PresetSummary> = Vec::new();
        let mut i: usize = 0;
        assert(summary_views(out@) =~= wanted.take(0));
        while i < self.preset_keys.len()
            invariant
                i <= self.preset_keys@.len(),
                files_told(loaded_view(*loaded), files.map()),
                wanted == Seq::new(
                    self@.preset_keys.len(),
                    |i: int| summary_of(self@, i as usize, loaded_view(*loaded), files.map()),
                ),
                summary_views(out@) == wanted.take(i as int),
            decreases self.preset_keys@.len() - i,
        {
            let ghost before = summary_views(out@);
            let summary = self.summary(i, loaded, files);
            assert(wanted[i as int] == summary@);
            out.push(summary);
            assert(summary_views(out@) =~= before.push(summary@));
            assert(wanted.take(i + 1) =~= wanted.take(i as int).push(wanted[i as int]));
            i = i + 1;
        }
        assert(wanted.take(wanted.len() as int) =~= wanted);
        out
    }
}

// ----- laws ------------------------------------------------------------------------

proof fn lemma_first_unknown(ids: Seq<Option<Seq<char>>>)
    requires
        exists|k: int| 0 <= k < ids.len() && (#[trigger] ids[k]) is None,
    ensures
        0 <= first_unknown(ids) < ids.len(),
        ids[first_unknown(ids)] is None,
    decreases ids.len(),
{
    if !(ids[0] is None) {
        let k = choose|k: int| 0 <= k < ids.len() && (#[trigger] ids[k]) is None;
        assert(ids.drop_first()[k - 1] is None);
        lemma_first_unknown(ids.drop_first());
        assert(ids[first_unknown(ids)] == ids.drop_first()[first_unknown(ids.drop_first())]);
    }
}

/// What was seen in a slot stays in that slot.
pub proof fn lemma_seen_ids_stay(
    saved: Seq<Option<Seq<char>>>,
    seen: Seq<Option<Seq<char>>>,
    in_saved_order: bool,
    i: int,
)
    requires
        saved.len() == 4,
        seen.len() == 4,
        0 <= i < 4,
        seen[i] is Some,
    ensures
        settled_ids(saved, seen, in_saved_order).len() == 4,
        settled_ids(saved, seen, in_saved_order)[i] == seen[i],
{
    if known_count(seen) < seen.len() {
        lemma_unknown_exists(seen);
        lemma_first_unknown(seen);
    }
    lemma_known_positive(seen, i);
}

proof fn lemma_known_positive(ids: Seq<Option<Seq<char>>>, i: int)
    requires
        0 <= i < ids.len(),
        ids[i] is Some,
    ensures
        known_count(ids) > 0,
    decreases ids.len(),
{
    if i < ids.len() - 1 {
        lemma_known_positive(ids.drop_last(), i);
    }
}

/// Nothing is invented: an id of the applied loadout was seen or saved.
pub proof fn lemma_settled_ids_known(
    saved: Seq<Option<Seq<char>>>,
    seen: Seq<Option<Seq<char>>>,
    in_saved_order: bool,
    i: int,
)
    requires
        saved.len() == 4,
        seen.len() == 4,
        0 <= i < 4,
        settled_ids(saved, seen, in_saved_order)[i] is Some,
    ensures
        holds_id(seen, settled_ids(saved, seen, in_saved_order)[i]->0) || holds_id(
            saved,
            settled_ids(saved, seen, in_saved_order)[i]->0,
        ),
{
    let settled = settled_ids(saved, seen, in_saved_order);
    let id = settled[i]->0;
    if known_count(seen) + 1 == seen.len() && unseen_ids(saved, seen).len() == 1 {
        lemma_unknown_exists(seen);
        lemma_first_unknown(seen);
        if i == first_unknown(seen) {
            lemma_unseen_are_saved(saved, seen, 0);
        } else {
            assert(seen[i] == Some(id));
        }
    } else if known_count(seen) == 0 && in_saved_order {
        assert(saved[i] == Some(id));
    } else {
        assert(seen[i] == Some(id));
    }
}

proof fn lemma_unseen_are_saved(
    saved: Seq<Option<Seq<char>>>,
    seen: Seq<Option<Seq<char>>>,
    k: int,
)
    requires
        0 <= k < unseen_ids(saved, seen).len(),
    ensures
        holds_id(saved, unseen_ids(saved, seen)[k]),
        !holds_id(seen, unseen_ids(saved, seen)[k]),
    decreases saved.len(),
{
    if saved.len() > 0 {
        let before = unseen_ids(saved.drop_last(), seen);
        if k < before.len() {
            lemma_unseen_are_saved(saved.drop_last(), seen, k);
            let j = choose|j: int|
                0 <= j < saved.drop_last().len() && saved.drop_last()[j] == Some(before[k]);
            assert(saved[j] == Some(before[k]));
        } else {
            assert(saved[saved.len() - 1] == Some(unseen_ids(saved, seen)[k]));
        }
    }
}

/// A loadout of which three slots were recognized and whose fourth can only hold
/// one saved Stratagem is known completely.
pub proof fn lemma_last_slot_is_settled(
    saved: Seq<Option<Seq<char>>>,
    seen: Seq<Option<Seq<char>>>,
    in_saved_order: bool,
)
    requires
        saved.len() == 4,
        seen.len() == 4,
        known_count(seen) == 3,
        unseen_ids(saved, seen).len() == 1,
    ensures
        forall|i: int|
            0 <= i < 4 ==> (#[trigger] settled_ids(saved, seen, in_saved_order)[i]) is Some,
        holds_id(settled_ids(saved, seen, in_saved_order), unseen_ids(saved, seen)[0]),
{
    lemma_unknown_exists(seen);
    lemma_first_unknown(seen);
    let place = first_unknown(seen);
    let settled = settled_ids(saved, seen, in_saved_order);
    assert(settled[place] == Some(unseen_ids(saved, seen)[0]));
    assert forall|i: int| 0 <= i < 4 implies (#[trigger] settled[i]) is Some by {
        if seen[i] is None && i != place {
            lemma_two_unknown(seen, i, place);
        }
    }
}

proof fn lemma_two_unknown(ids: Seq<Option<Seq<char>>>, i: int, j: int)
    requires
        0 <= i < ids.len(),
        0 <= j < ids.len(),
        i != j,
        ids[i] is None,
        ids[j] is None,
    ensures
        known_count(ids) + 2 <= ids.len(),
    decreases ids.len(),
{
    let last: int = ids.len() - 1;
    if i == last {
        lemma_one_unknown(ids.drop_last(), j);
    } else if j == last {
        lemma_one_unknown(ids.drop_last(), i);
    } else {
        lemma_two_unknown(ids.drop_last(), i, j);
    }
}

proof fn lemma_one_unknown(ids: Seq<Option<Seq<char>>>, i: int)
    requires
        0 <= i < ids.len(),
        ids[i] is None,
    ensures
        known_count(ids) + 1 <= ids.len(),
    decreases ids.len(),
{
    if i < ids.len() - 1 {
        lemma_one_unknown(ids.drop_last(), i);
    } else {
        lemma_known_bounded(ids.drop_last());
    }
}

proof fn lemma_known_bounded(ids: Seq<Option<Seq<char>>>)
    ensures
        known_count(ids) <= ids.len(),
    decreases ids.len(),
{
    if ids.len() > 0 {
        lemma_known_bounded(ids.drop_last());
    }
}

/// Preset actions keep a sound engine sound.
pub proof fn lemma_preset_actions_keep_engine_sound(
    engine: EngineView,
    loadout: ActiveLoadoutView,
    modifiers_down: bool,
)
    requires
        engine.sound(),
        loadout.slots.len() == 4,
    ensures
        engine.with_active(loadout).sound(),
        engine.after_action(modifiers_down).sound(),
{
}

/// The hotkey whose release is awaited is the one that is registered for the preset.
pub proof fn lemma_released_hotkey_is_registered(
    engine: EngineView,
    bindings: Seq<(Seq<char>, HotkeyBinding)>,
    catalog: Catalog,
    index: usize,
)
    requires
        engine.preset_keys.len() <= 4,
        engine.game_foreground,
        index < engine.preset_keys.len(),
        forall|j: int|
            0 <= j < index ==> #[trigger] engine.preset_keys[j] != engine.preset_keys[index as int],
    ensures
        desired_from(candidates(engine, bindings, catalog)).specs.contains(
            engine.preset_spec(index),
        ),
        engine.preset_spec(index).modifiers == engine.preset_modifiers,
        engine.preset_spec(index).key == engine.preset_keys[index as int],
{
    lemma_preset_hotkey_place(engine, bindings, catalog, index as int);
}

proof fn lemma_all_known(ids: Seq<Option<Seq<char>>>)
    ensures
        known_count(ids) == ids.filter(|id: Option<Seq<char>>| id is Some).len(),
        known_count(ids) <= ids.len(),
        known_count(ids) == 0 <==> forall|i: int|
            0 <= i < ids.len() ==> (#[trigger] ids[i]) is None,
        known_count(ids) == ids.len() <==> forall|i: int|
            0 <= i < ids.len() ==> (#[trigger] ids[i]) is Some,
    decreases ids.len(),
{
    reveal(Seq::filter);
    if ids.len() > 0 {
        let before = ids.drop_last();
        let last: int = ids.len() - 1;
        lemma_all_known(before);
        assert forall|i: int| 0 <= i < before.len() implies #[trigger] ids[i] == before[i] by {}
        assert(ids[last] == ids.last());
        if forall|i: int| 0 <= i < ids.len() ==> (#[trigger] ids[i]) is None {
            assert forall|i: int| 0 <= i < before.len() implies (#[trigger] before[i]) is None by {
                assert(ids[i] is None);
            }
        }
        if forall|i: int| 0 <= i < ids.len() ==> (#[trigger] ids[i]) is Some {
            assert forall|i: int| 0 <= i < before.len() implies (#[trigger] before[i]) is Some by {
                assert(ids[i] is Some);
            }
        }
    }
}

/// How many ids are known is how many slots hold one.
pub proof fn lemma_known_ids_counted(ids: Seq<Option<Seq<char>>>)
    ensures
        known_count(ids) == ids.filter(|id: Option<Seq<char>>| id is Some).len(),
        known_count(ids) == 0 <==> forall|i: int|
            0 <= i < ids.len() ==> (#[trigger] ids[i]) is None,
        known_count(ids) == ids.len() <==> forall|i: int|
            0 <= i < ids.len() ==> (#[trigger] ids[i]) is Some,
{
    lemma_all_known(ids);
}

proof fn lemma_single_unknown(ids: Seq<Option<Seq<char>>>, u: int)
    requires
        0 <= u < ids.len(),
        ids[u] is None,
        forall|i: int| 0 <= i < ids.len() && i != u ==> (#[trigger] ids[i]) is Some,
    ensures
        known_count(ids) + 1 == ids.len(),
        first_unknown(ids) == u,
    decreases ids.len(),
{
    let before = ids.drop_last();
    if u == ids.len() - 1 {
        assert forall|i: int| 0 <= i < before.len() implies (#[trigger] before[i]) is Some by {
            assert(ids[i] is Some);
        }
        lemma_all_known(before);
    } else {
        assert(before[u] == ids[u]);
        assert forall|i: int| 0 <= i < before.len() && i != u implies (
        #[trigger] before[i]) is Some by {
            assert(ids[i] is Some);
        }
        lemma_single_unknown(before, u);
        assert(ids[ids.len() - 1] is Some);
    }
    assert(exists|k: int| 0 <= k < ids.len() && (#[trigger] ids[k]) is None);
    lemma_first_unknown(ids);
    assert(ids[first_unknown(ids)] is None);
}

#[verifier::spinoff_prover]
#[verifier::rlimit(30)]
proof fn lemma_unseen_count(saved: Seq<Option<Seq<char>>>, seen: Seq<Option<Seq<char>>>)
    ensures
        unseen_ids(saved, seen).len() == saved.filter(
            |id: Option<Seq<char>>| id is Some && !seen.contains(id),
        ).len(),
        forall|a: int|
            0 <= a < saved.len() && (#[trigger] saved[a]) is Some && !seen.contains(saved[a])
                ==> unseen_ids(saved, seen).contains(saved[a]->0),
        forall|a: int, b: int|
            0 <= a < b < saved.len() && (#[trigger] saved[a]) is Some && !seen.contains(saved[a])
                && (#[trigger] saved[b]) is Some && !seen.contains(saved[b]) ==> unseen_ids(
                saved,
                seen,
            ).len() >= 2,
    decreases saved.len(),
{
    reveal(Seq::filter);
    if saved.len() > 0 {
        let before = saved.drop_last();
        let last: int = saved.len() - 1;
        lemma_unseen_count(before, seen);
        let held = unseen_ids(before, seen);
        let all = unseen_ids(saved, seen);
        assert(saved[last] == saved.last());
        assert forall|a: int|
            0 <= a < saved.len() && (#[trigger] saved[a]) is Some && !seen.contains(
                saved[a],
            ) implies all.contains(saved[a]->0) by {
            if a < last {
                assert(before[a] == saved[a]);
                let k = choose|k: int| 0 <= k < held.len() && held[k] == saved[a]->0;
                assert(all[k] == saved[a]->0);
            } else {
                assert(all[held.len() as int] == saved[a]->0);
            }
        }
        assert forall|a: int, b: int|
            0 <= a < b < saved.len() && (#[trigger] saved[a]) is Some && !seen.contains(saved[a])
                && (#[trigger] saved[b]) is Some && !seen.contains(saved[b]) implies all.len()
            >= 2 by {
            assert(before[a] == saved[a]);
            if b < last {
                assert(before[b] == saved[b]);
            } else {
                assert(held.contains(before[a]->0));
            }
        }
    }
}

proof fn lemma_single_unseen(saved: Seq<Option<Seq<char>>>, seen: Seq<Option<Seq<char>>>, a: int)
    requires
        0 <= a < saved.len(),
        saved[a] is Some,
        !seen.contains(saved[a]),
        forall|i: int|
            0 <= i < saved.len() && i != a ==> (#[trigger] saved[i]) is None || seen.contains(
                saved[i],
            ),
    ensures
        unseen_ids(saved, seen) == seq![saved[a]->0],
    decreases saved.len(),
{
    let before = saved.drop_last();
    if a == saved.len() - 1 {
        assert forall|i: int| 0 <= i < before.len() implies (#[trigger] before[i]) is None
            || seen.contains(before[i]) by {
            assert(saved[i] is None || seen.contains(saved[i]));
        }
        lemma_none_unseen(before, seen);
        assert(saved.last() == saved[a]);
        assert(unseen_ids(saved, seen) =~= seq![saved[a]->0]);
    } else {
        assert(before[a] == saved[a]);
        assert forall|i: int| 0 <= i < before.len() && i != a implies (
        #[trigger] before[i]) is None || seen.contains(before[i]) by {
            assert(saved[i] is None || seen.contains(saved[i]));
        }
        lemma_single_unseen(before, seen, a);
        assert(saved[saved.len() - 1] is None || seen.contains(saved[saved.len() - 1]));
    }
}

proof fn lemma_none_unseen(saved: Seq<Option<Seq<char>>>, seen: Seq<Option<Seq<char>>>)
    requires
        forall|i: int|
            0 <= i < saved.len() ==> (#[trigger] saved[i]) is None || seen.contains(saved[i]),
    ensures
        unseen_ids(saved, seen).len() == 0,
    decreases saved.len(),
{
    if saved.len() > 0 {
        let before = saved.drop_last();
        assert forall|i: int| 0 <= i < before.len() implies (#[trigger] before[i]) is None
            || seen.contains(before[i]) by {
            assert(saved[i] is None || seen.contains(saved[i]));
        }
        lemma_none_unseen(before, seen);
        assert(saved[saved.len() - 1] is None || seen.contains(saved[saved.len() - 1]));
    }
}

/// When one slot of an applied loadout was not recognized, and one saved Stratagem was not
/// seen, that Stratagem is in that slot, and the other slots hold what was seen in them.
pub proof fn lemma_last_slot_holds_last_id(
    saved: Seq<Option<Seq<char>>>,
    seen: Seq<Option<Seq<char>>>,
    in_saved_order: bool,
    u: int,
    a: int,
)
    requires
        saved.len() == 4,
        seen.len() == 4,
        0 <= u < 4,
        seen[u] is None,
        forall|i: int| 0 <= i < 4 && i != u ==> (#[trigger] seen[i]) is Some,
        0 <= a < 4,
        saved[a] is Some,
        !seen.contains(saved[a]),
        forall|i: int|
            0 <= i < 4 && i != a ==> (#[trigger] saved[i]) is None || seen.contains(saved[i]),
    ensures
        settled_ids(saved, seen, in_saved_order).len() == 4,
        settled_ids(saved, seen, in_saved_order)[u] == saved[a],
        forall|i: int|
            0 <= i < 4 && i != u ==> #[trigger] settled_ids(saved, seen, in_saved_order)[i]
                == seen[i],
{
    lemma_single_unknown(seen, u);
    lemma_single_unseen(saved, seen, a);
}

/// When nothing was recognized, the slots hold what was saved if they were filled in saved
/// order, and stay unknown if they were not.
pub proof fn lemma_nothing_recognized(
    saved: Seq<Option<Seq<char>>>,
    seen: Seq<Option<Seq<char>>>,
    in_saved_order: bool,
)
    requires
        saved.len() == 4,
        seen.len() == 4,
        forall|i: int| 0 <= i < 4 ==> (#[trigger] seen[i]) is None,
    ensures
        in_saved_order ==> settled_ids(saved, seen, in_saved_order) == saved,
        !in_saved_order ==> settled_ids(saved, seen, in_saved_order) == seen,
{
    lemma_all_known(seen);
}

/// In all other cases the slots hold just what was seen: when all were recognized, when two
/// or more were not, when no saved Stratagem is left or when more than one is.
#[verifier::spinoff_prover]
#[verifier::rlimit(30)]
pub proof fn lemma_otherwise_as_seen(
    saved: Seq<Option<Seq<char>>>,
    seen: Seq<Option<Seq<char>>>,
    in_saved_order: bool,
)
    requires
        saved.len() == 4,
        seen.len() == 4,
        exists|i: int| 0 <= i < 4 && (#[trigger] seen[i]) is Some,
        (forall|i: int| 0 <= i < 4 ==> (#[trigger] seen[i]) is Some) || (exists|i: int, j: int|
            0 <= i < j < 4 && (#[trigger] seen[i]) is None && (#[trigger] seen[j]) is None) || (
        forall|i: int|
            0 <= i < 4 ==> (#[trigger] saved[i]) is None || seen.contains(saved[i])) || (exists|
            i: int,
            j: int,
        |
            0 <= i < j < 4 && (#[trigger] saved[i]) is Some && !seen.contains(saved[i]) && (
            #[trigger] saved[j]) is Some && !seen.contains(saved[j])),
    ensures
        settled_ids(saved, seen, in_saved_order) == seen,
{
    lemma_all_known(seen);
    lemma_unseen_count(saved, seen);
    if exists|i: int, j: int|
        0 <= i < j < 4 && (#[trigger] seen[i]) is None && (#[trigger] seen[j]) is None {
        let (i, j) = choose|i: int, j: int|
            0 <= i < j < 4 && (#[trigger] seen[i]) is None && (#[trigger] seen[j]) is None;
        lemma_two_unknown(seen, i, j);
    }
    if forall|i: int| 0 <= i < 4 ==> (#[trigger] saved[i]) is None || seen.contains(saved[i]) {
        lemma_none_unseen(saved, seen);
    }
}

/// The ids that an applied loadout can hold are the known ones of the saved slots, in their
/// order.
pub proof fn lemma_known_ids(ids: Seq<Option<Seq<char>>>)
    ensures
        known_ids(ids) == ids.filter(|id: Option<Seq<char>>| id is Some).map_values(
            |id: Option<Seq<char>>| id->0,
        ),
    decreases ids.len(),
{
    reveal(Seq::filter);
    let known = ids.filter(|id: Option<Seq<char>>| id is Some);
    if ids.len() > 0 {
        lemma_known_ids(ids.drop_last());
        let held = ids.drop_last().filter(|id: Option<Seq<char>>| id is Some);
        if ids.last() is Some {
            assert(known == held.push(ids.last()));
        } else {
            assert(known == held);
        }
    }
    assert(known_ids(ids) =~= known.map_values(|id: Option<Seq<char>>| id->0));
}

/// The first four ids stay in their slots, and a slot without one is unknown.
pub proof fn lemma_first_four(ids: Seq<Option<Seq<char>>>)
    ensures
        first_four(ids).len() == 4,
        forall|i: int| 0 <= i < 4 && i < ids.len() ==> #[trigger] first_four(ids)[i] == ids[i],
        forall|i: int| 0 <= i < 4 && i >= ids.len() ==> (#[trigger] first_four(ids)[i]) is None,
{
}

/// After an action the state of the modifiers is noted, and modifiers that are still held
/// make nothing ready until they were let go. Nothing else of the engine changes.
pub proof fn lemma_after_action(engine: EngineView, modifiers_down: bool)
    ensures
        engine.after_action(modifiers_down).modifiers_were_down == modifiers_down,
        engine.after_action(modifiers_down).prewarm_suppressed == modifiers_down,
        engine.after_action(modifiers_down) == (EngineView {
            modifiers_were_down: engine.after_action(modifiers_down).modifiers_were_down,
            prewarm_suppressed: engine.after_action(modifiers_down).prewarm_suppressed,
            ..engine
        }),
{
}

/// Only a loadout all of whose slots are identified is told as a success.
pub proof fn lemma_status_tells_success(display: Seq<char>, ids: Seq<Option<Seq<char>>>)
    requires
        ids.len() == 4,
    ensures
        (forall|i: int| 0 <= i < 4 ==> (#[trigger] ids[i]) is Some) <==> saved_status(
            display,
            known_count(ids),
        ).0 == Tone::Success,
        (forall|i: int| 0 <= i < 4 ==> (#[trigger] ids[i]) is Some) <==> applied_status(
            display,
            known_count(ids),
        ).0 == Tone::Success,
        saved_status(display, known_count(ids)).0 == Tone::Success || saved_status(
            display,
            known_count(ids),
        ).0 == Tone::Warning,
        applied_status(display, known_count(ids)).0 == Tone::Success || applied_status(
            display,
            known_count(ids),
        ).0 == Tone::Warning,
{
    lemma_all_known(ids);
}

/// What the window shows of a preset slot: its own name, number, keys and label. It is shown
/// as saved exactly when a preset of its name was read, with the ids of the slots of that
/// preset in their order, and with its Boosters.
#[verifier::spinoff_prover]
#[verifier::rlimit(30)]
pub proof fn lemma_summary(
    engine: EngineView,
    index: usize,
    loaded: Result<Map<Seq<char>, PresetView>, Seq<char>>,
    files: Map<Seq<char>, Vec<TemplateFile>>,
)
    ensures
        ({
            let shown = summary_of(engine, index, loaded, files);
            let name = "preset_"@ + decimal((index + 1) as nat);
            &&& shown.name == name
            &&& shown.index == index
            &&& shown.hotkey_label == engine.preset_modifiers.label_text(
                engine.preset_keys[index as int],
            )
            &&& engine.settings.labels.contains_key(name) ==> shown.label
                == engine.settings.labels[name]
            &&& !engine.settings.labels.contains_key(name) ==> shown.label.len() == 0
            &&& shown.saved <==> loaded is Ok && loaded->Ok_0.contains_key(name)
            &&& loaded matches Err(message) ==> shown.problem == Some(message)
            &&& shown.stratagems.len() == 4
            &&& !shown.saved ==> {
                &&& !shown.booster
                &&& !shown.fallback_booster
                &&& forall|j: int| 0 <= j < 4 ==> (#[trigger] shown.stratagems[j]) is None
                &&& loaded is Ok ==> shown.problem is None
            }
            &&& shown.saved ==> {
                let preset = loaded->Ok_0[name];
                &&& shown.booster <==> preset.booster is Some
                &&& shown.fallback_booster <==> preset.fallback_booster is Some
                &&& forall|j: int|
                    0 <= j < 4 ==> (#[trigger] shown.stratagems[j]) == (if j
                        < preset.stratagems.len() {
                        preset.stratagems[j].stratagem
                    } else {
                        None
                    })
                &&& shown.problem is None <==> preset_fault(name, preset) is None && first_problem(
                    preset.templates(),
                    files[name]@,
                ) is None
            }
        }),
{
}

} // verus!
