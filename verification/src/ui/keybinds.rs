//! Editing keys in the window.
use crate::app_state::copy_bindings;
use crate::input::{HotkeyBinding, HotkeyModifier, HotkeyModifiers};
use crate::key::Key;
use crate::stratagem_input::StratagemInputSettings;
use crate::text::{decimal, decimal_of};
use vstd::prelude::*;

verus! {

/// How many slots have a key.
pub const SLOT_KEYS: usize = 4;

/// The binding that results from choosing a key: the modifiers stay.
pub fn chosen_binding(current: Option<HotkeyBinding>, key: Key) -> (r: HotkeyBinding)
    ensures
        r == (HotkeyBinding {
            modifiers: match current {
                Some(binding) => binding.modifiers,
                None => HotkeyModifiers::empty_set(),
            },
            key,
        }),
{
    let modifiers = match current {
        Some(binding) => binding.modifiers,
        None => HotkeyModifiers::none(),
    };
    HotkeyBinding::new(modifiers, key)
}

/// The binding that results from switching a modifier: the key stays.
pub fn toggled_binding(binding: HotkeyBinding, modifier: HotkeyModifier) -> (r: HotkeyBinding)
    ensures
        r == (HotkeyBinding {
            modifiers: binding.modifiers.with(modifier, !binding.modifiers.holds(modifier)),
            key: binding.key,
        }),
{
    let enabled = binding.modifiers.contains(modifier);
    HotkeyBinding::new(binding.modifiers.toggled(modifier, !enabled), binding.key)
}

/// Switching a modifier twice gives the binding back.
pub proof fn lemma_toggled_twice(modifiers: HotkeyModifiers, modifier: HotkeyModifier)
    ensures
        ({
            let once = modifiers.with(modifier, !modifiers.holds(modifier));
            once.with(modifier, !once.holds(modifier)) == modifiers
        }),
{
}

/// The key of a binding in words.
pub fn binding_text(current: Option<HotkeyBinding>) -> (r: String)
    ensures
        r@ == match current {
            Some(binding) => binding.key.name_text(),
            None => "Unassigned"@,
        },
{
    match current {
        Some(binding) => binding.key.name().to_string(),
        None => "Unassigned".to_string(),
    }
}

/// A list of keys brought to the length of the slots with the first function key.
pub open spec fn filled_keys(keys: Seq<HotkeyBinding>) -> Seq<HotkeyBinding> {
    if keys.len() >= SLOT_KEYS {
        keys
    } else {
        keys + Seq::new(
            (SLOT_KEYS - keys.len()) as nat,
            |i: int|
                HotkeyBinding { modifiers: HotkeyModifiers::empty_set(), key: Key::F1 },
        )
    }
}

/// The slot keys with one of them changed.
pub fn edited_slot_keys(keys: &Vec<HotkeyBinding>, slot: usize, binding: HotkeyBinding) -> (r: Vec<
    HotkeyBinding,
>)
    requires
        slot < SLOT_KEYS,
    ensures
        r@ == filled_keys(keys@).update(slot as int, binding),
        r@.len() >= SLOT_KEYS,
{
    let mut out = copy_bindings(keys);
    assert(out@ =~= keys@ + Seq::new(
        0,
        |i: int| HotkeyBinding { modifiers: HotkeyModifiers::empty_set(), key: Key::F1 },
    ));
    while out.len() < SLOT_KEYS
        invariant
            out@.len() >= keys@.len(),
            keys@.len() >= SLOT_KEYS ==> out@ == keys@,
            keys@.len() < SLOT_KEYS ==> out@.len() <= SLOT_KEYS,
            out@ == keys@ + Seq::new(
                (out@.len() - keys@.len()) as nat,
                |i: int| HotkeyBinding { modifiers: HotkeyModifiers::empty_set(), key: Key::F1 },
            ),
        decreases SLOT_KEYS - out@.len(),
    {
        let ghost before = out@;
        out.push(HotkeyBinding::bare(Key::F1));
        assert(out@ =~= keys@ + Seq::new(
            (out@.len() - keys@.len()) as nat,
            |i: int| HotkeyBinding { modifiers: HotkeyModifiers::empty_set(), key: Key::F1 },
        ));
    }
    assert(out@ =~= filled_keys(keys@));
    out.set(slot, binding);
    out
}

/// What is said below the game's keys.
#[derive(Debug)]
pub enum DraftNote {
    /// What is wrong with the edited settings.
    Problem(String),
    Unsaved,
    /// How long a code takes.
    Takes(String),
}

/// What is said below the game's keys, as a mathematical value.
#[verifier::ext_equal]
pub enum DraftNoteView {
    Problem(Seq<char>),
    Unsaved,
    Takes(Seq<char>),
}

impl View for DraftNote {
    type V = DraftNoteView;

    open spec fn view(&self) -> DraftNoteView {
        match self {
            DraftNote::Problem(text) => DraftNoteView::Problem(text@),
            DraftNote::Unsaved => DraftNoteView::Unsaved,
            DraftNote::Takes(text) => DraftNoteView::Takes(text@),
        }
    }
}

/// What becomes of edited settings.
#[derive(Debug)]
pub struct DraftVerdict {
    /// The settings can be applied.
    pub can_apply: bool,
    /// The settings can be given up.
    pub can_revert: bool,
    pub note: DraftNote,
}

/// How long a code of five directions takes, in words.
pub open spec fn takes_words(settings: StratagemInputSettings) -> Seq<char> {
    "A 5-arrow code takes about "@ + decimal(settings.estimate(5)) + " ms."@
}

/// Judges edited settings: they can be applied if they differ from the saved ones and
/// are valid.
pub fn judge_draft(draft: &StratagemInputSettings, saved: &StratagemInputSettings) -> (r:
    DraftVerdict)
    ensures
        r.can_apply == (*draft != *saved && draft.problem() is None),
        r.can_revert == (*draft != *saved),
        r.note@ == match draft.problem() {
            Some(error) => DraftNoteView::Problem(error.message_text()),
            None => if *draft != *saved {
                DraftNoteView::Unsaved
            } else {
                DraftNoteView::Takes(takes_words(*saved))
            },
        },
{
    let dirty = *draft != *saved;
    match draft.validate() {
        Err(error) => DraftVerdict {
            can_apply: false,
            can_revert: dirty,
            note: DraftNote::Problem(error.message()),
        },
        Ok(()) => {
            if dirty {
                return DraftVerdict { can_apply: true, can_revert: true, note: DraftNote::Unsaved };
            }
            assert(saved.estimate(5) <= 20_000) by (nonlinear_arith)
                requires
                    saved.menu_open_delay_ms <= 1_000,
                    saved.key_hold_ms <= 1_000,
                    saved.key_gap_ms <= 1_000,
                    saved.menu_release_delay_ms <= 1_000,
            ;
            let mut text = "A 5-arrow code takes about ".to_string();
            text.push_str(decimal_of(saved.estimated_duration(5)).as_str());
            text.push_str(" ms.");
            DraftVerdict { can_apply: false, can_revert: false, note: DraftNote::Takes(text) }
        },
    }
}

/// The edited settings that are kept for the next frame: none once they are given up or
/// agree with the saved ones.
pub fn kept_draft(
    draft: StratagemInputSettings,
    saved: &StratagemInputSettings,
    revert: bool,
) -> (r: Option<StratagemInputSettings>)
    ensures
        r == if revert || draft == *saved {
            None
        } else {
            Some(draft)
        },
{
    if revert || draft == *saved {
        None
    } else {
        Some(draft)
    }
}

/// Changing the key of a slot changes that key alone. A key that was missing before the
/// change is F1 without modifiers.
pub proof fn lemma_one_slot_key(keys: Seq<HotkeyBinding>, slot: int, binding: HotkeyBinding)
    requires
        0 <= slot < 4,
    ensures
        ({
            let after = filled_keys(keys).update(slot, binding);
            &&& after.len() == (if keys.len() < 4 {
                4
            } else {
                keys.len()
            })
            &&& after[slot] == binding
            &&& forall|i: int|
                0 <= i < keys.len() && i != slot ==> #[trigger] after[i] == keys[i]
            &&& forall|i: int|
                keys.len() <= i < 4 && i != slot ==> (#[trigger] after[i]).key == Key::F1
                    && after[i].modifiers == HotkeyModifiers::empty_set()
        }),
{
}

} // verus!
