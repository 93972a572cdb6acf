//! Progress events of a preset action, and what the window is told of each.
use crate::app_state::{SharedState, SharedStateView, StatusLine, StatusView, Tone};
use crate::item::ItemKind;
use crate::text::{decimal, decimal_of, first_line, first_line_of};
use vstd::prelude::*;

verus! {

/// How a preset action ended.
#[derive(Debug)]
pub enum PresetCompletion {
    Complete,
    BoosterUnavailable,
    FallbackBoosterSaved { path: String },
    FallbackBoosterNotSaved,
}

/// Progress events emitted while a preset action runs.
#[derive(Debug)]
pub enum AppEvent {
    PresetStarted { preset: String },
    HotkeyReleaseRequested { preset: String },
    PresetCancelled { preset: String, reason: String },
    PresetSaved { preset: String, stratagems: Vec<String>, booster: Option<String> },
    UiStateDetected { state: String },
    ListSelectionStarted { item_kind: ItemKind, requested_items: usize },
    FallbackBoosterRequested { preset: String },
    ItemSelected,
    PresetDone { preset: String, completion: PresetCompletion },
    PresetFailed { preset: String, error: String },
}

impl PresetCompletion {
    /// The status line that ends a preset action.
    pub open spec fn status(self, preset: Seq<char>) -> StatusView {
        match self {
            PresetCompletion::Complete => StatusView {
                tone: Tone::Success,
                text: preset + " done"@,
            },
            PresetCompletion::BoosterUnavailable => StatusView {
                tone: Tone::Warning,
                text: preset + ": Booster already in use"@,
            },
            PresetCompletion::FallbackBoosterSaved { path } => StatusView {
                tone: Tone::Success,
                text: preset + ": fallback Booster saved ("@ + path@ + ")"@,
            },
            PresetCompletion::FallbackBoosterNotSaved => StatusView {
                tone: Tone::Warning,
                text: preset + ": fallback Booster not saved"@,
            },
        }
    }

    /// The status line that ends a preset action.
    fn status_line(&self, preset: &str) -> (r: StatusLine)
        ensures
            r@ == self.status(preset@),
    {
        let mut text = preset.to_string();
        match self {
            PresetCompletion::Complete => {
                text.push_str(" done");
                StatusLine { tone: Tone::Success, text }
            },
            PresetCompletion::BoosterUnavailable => {
                text.push_str(": Booster already in use");
                StatusLine { tone: Tone::Warning, text }
            },
            PresetCompletion::FallbackBoosterSaved { path } => {
                text.push_str(": fallback Booster saved (");
                text.push_str(path.as_str());
                text.push_str(")");
                StatusLine { tone: Tone::Success, text }
            },
            PresetCompletion::FallbackBoosterNotSaved => {
                text.push_str(": fallback Booster not saved");
                StatusLine { tone: Tone::Warning, text }
            },
        }
    }
}

impl SharedStateView {
    /// The state with another status line and the progress it had.
    pub open spec fn with_status_only(self, tone: Tone, text: Seq<char>) -> SharedStateView {
        SharedStateView { status: StatusView { tone, text }, ..self }
    }
}

/// The state after an event.
pub open spec fn after_event(state: SharedStateView, event: AppEvent) -> SharedStateView {
    match event {
        AppEvent::PresetStarted { preset } => state.with_status(
            Tone::Working,
            "Starting "@ + preset@,
        ),
        AppEvent::HotkeyReleaseRequested { preset } => state.with_status(
            Tone::Working,
            preset@ + ": release the keys to continue"@,
        ),
        AppEvent::PresetCancelled { preset, reason } => state.with_status(
            Tone::Warning,
            preset@ + " cancelled: "@ + reason@,
        ),
        AppEvent::PresetSaved { preset, stratagems, booster } => state.with_status_only(
            Tone::Working,
            "Saved "@ + preset@ + ": "@ + decimal(stratagems@.len()) + " stratagems"@ + (
            if booster is Some {
                " + booster"@
            } else {
                ""@
            }),
        ),
        AppEvent::UiStateDetected { state: seen } => state.with_status_only(
            Tone::Working,
            "Detected UI: "@ + seen@,
        ),
        AppEvent::ListSelectionStarted { item_kind, requested_items } => SharedStateView {
            progress: Some((0, requested_items)),
            ..state.with_status_only(Tone::Working, "Selecting "@ + item_kind.label_text())
        },
        AppEvent::FallbackBoosterRequested { preset } => state.with_status_only(
            Tone::Warning,
            preset@
                + ": the saved Booster is already in use. Select another to save it as the fallback, or return to cancel."@,
        ),
        AppEvent::ItemSelected => match state.progress {
            Some((done, total)) => SharedStateView {
                progress: Some(((done + 1) as usize, total)),
                ..state.with_status_only(
                    Tone::Working,
                    "Selected "@ + decimal((done + 1) as nat) + "/"@ + decimal(total as nat),
                )
            },
            None => state.with_status_only(Tone::Working, "Selected item"@),
        },
        AppEvent::PresetDone { preset, completion } => SharedStateView {
            progress: None,
            status: completion.status(preset@),
            ..state
        },
        AppEvent::PresetFailed { preset, error } => state.with_status(
            Tone::Error,
            preset@ + " failed: "@ + first_line_of(error@),
        ),
    }
}

/// Tells the window what an event means.
pub fn apply_event(state: &mut SharedState, event: AppEvent)
    requires
        event is ItemSelected ==> match old(state).progress {
            Some((done, _)) => done < usize::MAX,
            None => true,
        },
    ensures
        final(state)@ == after_event(old(state)@, event),
{
    match event {
        AppEvent::PresetStarted { preset } => {
            let mut text = "Starting ".to_string();
            text.push_str(preset.as_str());
            state.set_status(Tone::Working, text.as_str());
        },
        AppEvent::HotkeyReleaseRequested { preset } => {
            let mut text = preset;
            text.push_str(": release the keys to continue");
            state.set_status(Tone::Working, text.as_str());
        },
        AppEvent::PresetCancelled { preset, reason } => {
            let mut text = preset;
            text.push_str(" cancelled: ");
            text.push_str(reason.as_str());
            state.set_status(Tone::Warning, text.as_str());
        },
        AppEvent::PresetSaved { preset, stratagems, booster } => {
            let mut text = "Saved ".to_string();
            text.push_str(preset.as_str());
            text.push_str(": ");
            text.push_str(decimal_of(stratagems.len() as u64).as_str());
            text.push_str(" stratagems");
            if booster.is_some() {
                text.push_str(" + booster");
            } else {
                text.push_str("");
            }
            state.status = StatusLine { tone: Tone::Working, text };
        },
        AppEvent::UiStateDetected { state: seen } => {
            let mut text = "Detected UI: ".to_string();
            text.push_str(seen.as_str());
            state.status = StatusLine { tone: Tone::Working, text };
        },
        AppEvent::ListSelectionStarted { item_kind, requested_items } => {
            let mut text = "Selecting ".to_string();
            text.push_str(item_kind.label());
            state.status = StatusLine { tone: Tone::Working, text };
            state.progress = Some((0, requested_items));
        },
        AppEvent::FallbackBoosterRequested { preset } => {
            let mut text = preset;
            text.push_str(
                ": the saved Booster is already in use. Select another to save it as the fallback, or return to cancel.",
            );
            state.status = StatusLine { tone: Tone::Warning, text };
        },
        AppEvent::ItemSelected => {
            match state.progress {
                Some((done, total)) => {
                    let now_done: usize = done + 1;
                    let mut text = "Selected ".to_string();
                    text.push_str(decimal_of(now_done as u64).as_str());
                    text.push_str("/");
                    text.push_str(decimal_of(total as u64).as_str());
                    state.status = StatusLine { tone: Tone::Working, text };
                    state.progress = Some((now_done, total));
                },
                None => {
                    state.status = StatusLine::new(Tone::Working, "Selected item");
                },
            }
        },
        AppEvent::PresetDone { preset, completion } => {
            state.progress = None;
            state.status = completion.status_line(preset.as_str());
        },
        AppEvent::PresetFailed { preset, error } => {
            let mut text = preset;
            text.push_str(" failed: ");
            text.push_str(first_line(error.as_str()).as_str());
            state.set_status(Tone::Error, text.as_str());
        },
    }
}

/// An event touches the status line and the progress, and nothing else.
pub proof fn lemma_events_touch_status_only(state: SharedStateView, event: AppEvent)
    ensures
        after_event(state, event) == (SharedStateView {
            status: after_event(state, event).status,
            progress: after_event(state, event).progress,
            ..state
        }),
{
}

/// What an event means for the progress: a selection starts at none of the requested items,
/// each selected item counts as one, starting and ending a preset clear it, and all else
/// leaves it.
pub proof fn lemma_progress(state: SharedStateView, event: AppEvent)
    requires
        state.progress is Some ==> (state.progress->0).0 < usize::MAX,
    ensures
        event matches AppEvent::ListSelectionStarted { item_kind, requested_items } ==> after_event(
            state,
            event,
        ).progress == Some((0usize, requested_items)),
        event is ItemSelected && state.progress is Some ==> {
            &&& after_event(state, event).progress is Some
            &&& (after_event(state, event).progress->0).0 == (state.progress->0).0 + 1
            &&& (after_event(state, event).progress->0).1 == (state.progress->0).1
        },
        event is ItemSelected && state.progress is None ==> after_event(
            state,
            event,
        ).progress is None,
        event is PresetStarted || event is HotkeyReleaseRequested || event is PresetCancelled
            || event is PresetDone || event is PresetFailed ==> after_event(
            state,
            event,
        ).progress is None,
        event is PresetSaved || event is UiStateDetected || event is FallbackBoosterRequested
            ==> after_event(state, event).progress == state.progress,
{
}

/// The tone of the status line: a failure is an error, a cancellation and what needs the
/// user is a warning, a preset that was applied or whose fallback was saved is a success, and
/// all else is work under way.
pub proof fn lemma_tones(state: SharedStateView, event: AppEvent)
    ensures
        ({
            let tone = after_event(state, event).status.tone;
            &&& event is PresetFailed <==> tone == Tone::Error
            &&& event matches AppEvent::PresetDone { preset, completion } ==> {
                &&& completion is Complete || completion is FallbackBoosterSaved <==> tone
                    == Tone::Success
                &&& completion is BoosterUnavailable || completion is FallbackBoosterNotSaved
                    <==> tone == Tone::Warning
            }
            &&& event is PresetCancelled || event is FallbackBoosterRequested ==> tone
                == Tone::Warning
            &&& event is PresetStarted || event is HotkeyReleaseRequested || event is PresetSaved
                || event is UiStateDetected || event is ListSelectionStarted
                || event is ItemSelected <==> tone == Tone::Working
        }),
{
}

} // verus!
