//! Calling Stratagems in a mission.
use super::{Engine, EngineView};
use crate::app_state::{SharedState, SharedStateView, Tone};
use crate::catalog::{arrows_of, entry_with_id, Catalog, Direction};
use crate::text::{decimal, first_line, first_line_of, ordinal_of};
use vstd::prelude::*;

verus! {

/// A Stratagem whose code is to be entered in the game.
#[derive(Debug)]
pub struct StratagemCall {
    pub name: String,
    /// The code as arrows.
    pub arrows: String,
    pub code: Vec<Direction>,
}

/// A Stratagem call as a mathematical value.
#[verifier::ext_equal]
pub struct StratagemCallView {
    pub name: Seq<char>,
    pub code: Seq<Direction>,
}

impl StratagemCall {
    /// The call, whose arrows are those of its code.
    pub open spec fn is_call(self, call: StratagemCallView) -> bool {
        self.name@ == call.name && self.code@ == call.code && self.arrows@ == arrows_of(call.code)
    }
}

/// What calling a Stratagem leads to: a call to enter, or a status line that says
/// why there is none.
#[verifier::ext_equal]
pub struct CallOutcome {
    pub call: Option<StratagemCallView>,
    pub state: SharedStateView,
}

/// What calling a Stratagem by its id leads to.
pub open spec fn stratagem_called(catalog: Catalog, id: Seq<char>, state: SharedStateView) -> CallOutcome {
    match entry_with_id(catalog.list(), id) {
        None => CallOutcome {
            call: None,
            state: state.with_status(Tone::Error, "Unknown stratagem "@ + id),
        },
        Some(entry) => if entry.code@.len() == 0 {
            CallOutcome {
                call: None,
                state: state.with_status(Tone::Warning, entry.name@ + " has no input code"@),
            }
        } else {
            CallOutcome {
                call: Some(StratagemCallView { name: entry.name@, code: entry.code@ }),
                state,
            }
        },
    }
}

/// What calling a slot of the active loadout leads to.
pub open spec fn slot_called(
    engine: EngineView,
    catalog: Catalog,
    index: usize,
    state: SharedStateView,
) -> CallOutcome {
    match engine.active {
        None => CallOutcome {
            call: None,
            state: state.with_status(
                Tone::Warning,
                "No active loadout; save or apply a preset on the loadout screen first"@,
            ),
        },
        Some(active) => if index < active.slots.len() && active.slots[index as int] is Some {
            stratagem_called(catalog, active.slots[index as int]->0, state)
        } else {
            CallOutcome {
                call: None,
                state: state.with_status(
                    Tone::Warning,
                    "Slot "@ + decimal((index + 1) as nat)
                        + " of the active loadout is not identified; set it in the window"@,
                ),
            }
        },
    }
}

/// The call of an outcome.
pub open spec fn is_outcome(
    call: Option<StratagemCall>,
    state: SharedStateView,
    outcome: CallOutcome,
) -> bool {
    &&& state == outcome.state
    &&& match call {
        Some(call) => outcome.call is Some && call.is_call(outcome.call->0),
        None => outcome.call is None,
    }
}

fn copy_code(code: &Vec<Direction>) -> (r: Vec<Direction>)
    ensures
        r@ == code@,
{
    let mut out: Vec<Direction> = Vec::new();
    let mut i: usize = 0;
    while i < code.len()
        invariant
            i <= code@.len(),
            out@ == code@.take(i as int),
        decreases code@.len() - i,
    {
        out.push(code[i]);
        i = i + 1;
    }
    out
}

/// Calls a Stratagem by its id.
pub fn call_stratagem(catalog: &Catalog, id: &str, state: &mut SharedState) -> (r: Option<
    StratagemCall,
>)
    ensures
        is_outcome(r, final(state)@, stratagem_called(*catalog, id@, old(state)@)),
{
    let entry = match catalog.get(id) {
        Some(entry) => entry,
        None => {
            let mut text = "Unknown stratagem ".to_string();
            text.push_str(id);
            state.set_status(Tone::Error, text.as_str());
            return None;
        },
    };
    if entry.code.len() == 0 {
        let mut text = entry.name.clone();
        text.push_str(" has no input code");
        state.set_status(Tone::Warning, text.as_str());
        return None;
    }
    Some(
        StratagemCall {
            name: entry.name.clone(),
            arrows: entry.arrows(),
            code: copy_code(&entry.code),
        },
    )
}

/// Tells the window how a call went: sent, or not for the reason given.
pub fn report_call(call: &StratagemCall, failure: Option<&str>, state: &mut SharedState)
    ensures
        final(state)@ == (match failure {
            None => old(state)@.with_status(Tone::Success, call.name@ + "  "@ + call.arrows@),
            Some(message) => old(state)@.with_status(
                Tone::Error,
                call.name@ + ": "@ + first_line_of(message@),
            ),
        }),
{
    let mut text = call.name.clone();
    match failure {
        None => {
            text.push_str("  ");
            text.push_str(call.arrows.as_str());
            state.set_status(Tone::Success, text.as_str());
        },
        Some(message) => {
            text.push_str(": ");
            text.push_str(first_line(message).as_str());
            state.set_status(Tone::Error, text.as_str());
        },
    }
}

impl Engine {
    /// Calls the Stratagem in a slot of the active loadout, counted from 0.
    pub fn call_slot(&self, catalog: &Catalog, index: usize, state: &mut SharedState) -> (r: Option<
        StratagemCall,
    >)
        ensures
            is_outcome(r, final(state)@, slot_called(self@, *catalog, index, old(state)@)),
    {
        let active = match &self.active {
            Some(active) => active,
            None => {
                state.set_status(
                    Tone::Warning,
                    "No active loadout; save or apply a preset on the loadout screen first",
                );
                return None;
            },
        };
        match active.slot(index) {
            Some(id) => call_stratagem(catalog, id, state),
            None => {
                let mut text = "Slot ".to_string();
                text.push_str(ordinal_of(index).as_str());
                text.push_str(" of the active loadout is not identified; set it in the window");
                state.set_status(Tone::Warning, text.as_str());
                None
            },
        }
    }
}

/// A slot hotkey enters the code of the Stratagem in its slot: what is sent is the
/// plan for that code, and it can be sent because the input settings are valid.
pub proof fn lemma_slot_call_enters_its_code(
    engine: EngineView,
    catalog: Catalog,
    index: usize,
    state: SharedStateView,
)
    requires
        engine.sound(),
        slot_called(engine, catalog, index, state).call is Some,
    ensures
        ({
            let call = slot_called(engine, catalog, index, state).call->0;
            let id = engine.active->0.slots[index as int]->0;
            &&& index < 4
            &&& entry_with_id(catalog.list(), id) is Some
            &&& call.code == entry_with_id(catalog.list(), id)->0.code@
            &&& call.code.len() > 0
            &&& engine.settings.stratagem_input.problem() is None
        }),
        slot_called(engine, catalog, index, state).state == state,
{
}

/// Without an active loadout a slot hotkey sends nothing, and the window says why.
pub proof fn lemma_slot_call_needs_loadout(
    engine: EngineView,
    catalog: Catalog,
    index: usize,
    state: SharedStateView,
)
    requires
        engine.active is None,
    ensures
        slot_called(engine, catalog, index, state).call is None,
        slot_called(engine, catalog, index, state).state.status.tone == Tone::Warning,
{
}

/// Calling a Stratagem gives the name and the code of the entry that has its id, and the
/// window is told nothing yet. Only a Stratagem that is not in the catalog, or whose code is
/// empty, cannot be called; the window is told so.
pub proof fn lemma_stratagem_called(catalog: Catalog, id: Seq<char>, state: SharedStateView)
    ensures
        ({
            let out = stratagem_called(catalog, id, state);
            &&& out.call matches Some(call) ==> {
                &&& out.state == state
                &&& call.code.len() > 0
                &&& exists|e: int|
                    #![trigger catalog.list()[e]]
                    0 <= e < catalog.list().len() && catalog.list()[e].id@ == id
                        && catalog.list()[e].name@ == call.name && catalog.list()[e].code@
                        == call.code
            }
            &&& out.call is None ==> {
                &&& out.state == (SharedStateView {
                    status: out.state.status,
                    progress: None,
                    ..state
                })
                &&& (forall|e: int|
                    0 <= e < catalog.list().len() ==> (#[trigger] catalog.list()[e]).id@ != id)
                    ==> out.state.status.tone == Tone::Error
                &&& (exists|e: int|
                    0 <= e < catalog.list().len() && (#[trigger] catalog.list()[e]).id@ == id)
                    ==> out.state.status.tone == Tone::Warning
            }
            &&& (forall|e: int|
                0 <= e < catalog.list().len() ==> (#[trigger] catalog.list()[e]).id@ != id)
                ==> out.call is None
            &&& (exists|e: int|
                0 <= e < catalog.list().len() && (#[trigger] catalog.list()[e]).id@ == id) && (
            forall|e: int|
                0 <= e < catalog.list().len() && (#[trigger] catalog.list()[e]).id@ == id
                    ==> catalog.list()[e].code@.len() > 0) ==> out.call is Some
        }),
{
    let entries = catalog.list();
    if exists|e: int| 0 <= e < entries.len() && (#[trigger] entries[e]).id@ == id {
        let e = choose|e: int| 0 <= e < entries.len() && (#[trigger] entries[e]).id@ == id;
        assert(entries[e].id@ == id);
    }
}

/// Calling a slot calls the Stratagem in that slot of the active loadout. Without a loadout,
/// without such a slot, or while it is not identified, nothing is called and the window
/// warns.
pub proof fn lemma_slot_called(
    engine: EngineView,
    catalog: Catalog,
    index: usize,
    state: SharedStateView,
)
    ensures
        engine.active is Some && index < engine.active->0.slots.len()
            && engine.active->0.slots[index as int] is Some ==> slot_called(
            engine,
            catalog,
            index,
            state,
        ) == stratagem_called(catalog, engine.active->0.slots[index as int]->0, state),
        engine.active is None || index >= engine.active->0.slots.len()
            || engine.active->0.slots[index as int] is None ==> {
            &&& slot_called(engine, catalog, index, state).call is None
            &&& slot_called(engine, catalog, index, state).state.status.tone == Tone::Warning
        },
{
}

/// The arrows that are shown of a call are those of its code, one after the other.
pub proof fn lemma_call_arrows(call: StratagemCall, view: StratagemCallView)
    requires
        call.is_call(view),
    ensures
        call.name@ == view.name,
        call.code@ == view.code,
        call.arrows@.len() == call.code@.len(),
        forall|i: int|
            #![trigger call.code@[i]]
            0 <= i < call.code@.len() ==> {
                &&& call.code@[i] == Direction::Up ==> call.arrows@[i] == '\u{2191}'
                &&& call.code@[i] == Direction::Down ==> call.arrows@[i] == '\u{2193}'
                &&& call.code@[i] == Direction::Left ==> call.arrows@[i] == '\u{2190}'
                &&& call.code@[i] == Direction::Right ==> call.arrows@[i] == '\u{2192}'
            },
{
}

} // verus!
