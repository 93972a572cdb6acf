//! The presets, the active loadout and the mission Stratagems as the window shows them.
use super::{
    active_label, ago_words, all_bindings, binding_conflicts, details_words, entry_details,
    holds_binding, label_words, lemma_conflict_is_second_use, numbered, repeated, time_ago,
};
use crate::active_loadout::{ActiveLoadout, ActiveLoadoutView};
use crate::app_state::{LiveSettings, PresetSummary, PresetSummaryView};
use crate::catalog::{
    arrows_of, entry_with_id, permit_category, pointed_at, Catalog, StratagemEntry,
};
use crate::ids::{copy_of, option_text};
use crate::input::HotkeyBinding;
use crate::item::StratagemCategory;
use crate::text::{decimal, joined, same_text, trim, trimmed};
use vstd::prelude::*;

verus! {

/// How many slots a loadout has.
pub const SLOT_COUNT: usize = 4;

// ----- a slot --------------------------------------------------------------------------

/// A slot of a preset or of the active loadout.
#[derive(Debug)]
pub struct SlotCard {
    pub id: Option<String>,
    /// The name and the code of the Stratagem, if it is known.
    pub known: Option<(String, String)>,
    /// What the choice of Stratagems shows.
    pub picker_text: String,
}

/// A slot as a mathematical value.
#[verifier::ext_equal]
pub struct SlotCardView {
    pub id: Option<Seq<char>>,
    pub known: Option<(Seq<char>, Seq<char>)>,
    pub picker_text: Seq<char>,
}

impl View for SlotCard {
    type V = SlotCardView;

    open spec fn view(&self) -> SlotCardView {
        SlotCardView {
            id: option_text(self.id),
            known: match self.known {
                Some((name, code)) => Some((name@, code@)),
                None => None,
            },
            picker_text: self.picker_text@,
        }
    }
}

/// How a slot is shown that holds an id, or whose Stratagem is not known.
pub open spec fn slot_shown(catalog: Catalog, id: Option<Seq<char>>) -> SlotCardView {
    SlotCardView {
        id,
        known: match id {
            Some(id) => match entry_with_id(catalog.list(), id) {
                Some(entry) => Some((entry.name@, arrows_of(entry.code@))),
                None => None,
            },
            None => None,
        },
        picker_text: match id {
            Some(id) => catalog.name_text(id),
            None => "Unknown"@,
        },
    }
}

/// How a slot is shown.
pub fn slot_card(catalog: &Catalog, id: Option<&str>) -> (r: SlotCard)
    ensures
        r@ == slot_shown(
            *catalog,
            match id {
                Some(id) => Some(id@),
                None => None,
            },
        ),
{
    match id {
        Some(id) => {
            let known = match catalog.get(id) {
                Some(entry) => Some((entry.name.clone(), entry.arrows())),
                None => None,
            };
            SlotCard { id: Some(id.to_string()), known, picker_text: catalog.name_of(id) }
        },
        None => SlotCard { id: None, known: None, picker_text: "Unknown".to_string() },
    }
}

/// The Stratagems of a category among which a slot is chosen, in catalog order.
pub fn picker_entries(catalog: &Catalog, category: StratagemCategory) -> (r: Vec<&StratagemEntry>)
    ensures
        pointed_at(r@) == catalog.list().filter(
            |entry: StratagemEntry|
                entry.equippable() && permit_category(entry.permit@) == Some(category),
        ),
{
    let entries = catalog.entries();
    let ghost wanted = |entry: StratagemEntry|
        entry.equippable() && permit_category(entry.permit@) == Some(category);
    let mut out: Vec<&StratagemEntry> = Vec::new();
    let mut i: usize = 0;
    proof {
        reveal(Seq::filter);
        assert(pointed_at(out@) == entries@.take(0).filter(wanted));
    }
    while i < entries.len()
        invariant
            i <= entries@.len(),
            wanted == (|entry: StratagemEntry|
                entry.equippable() && permit_category(entry.permit@) == Some(category)),
            pointed_at(out@) == entries@.take(i as int).filter(wanted),
        decreases entries@.len() - i,
    {
        let ghost before = out@;
        let matching = match entries[i].category() {
            Some(own) => own == category,
            None => false,
        };
        if entries[i].is_loadout_item() && matching {
            out.push(&entries[i]);
            assert(pointed_at(out@) == pointed_at(before).push(entries@[i as int]));
        }
        proof {
            reveal(Seq::filter);
            let more = entries@.take(i + 1);
            assert(more.drop_last() == entries@.take(i as int));
            assert(more.last() == entries@[i as int]);
        }
        i = i + 1;
    }
    assert(entries@.take(entries@.len() as int) == entries@);
    out
}

// ----- a preset ------------------------------------------------------------------------

/// What a preset's card shows below its heading.
#[derive(Debug)]
pub enum CardBody {
    /// The preset is not saved.
    NotSaved { hint: String },
    /// The preset is saved.
    Saved {
        slots: Vec<SlotCard>,
        booster: &'static str,
        /// Deleting was asked for and has to be confirmed.
        confirm_delete: bool,
        /// The preset can be made the active loadout.
        can_activate: bool,
    },
}

/// What a preset's card shows below its heading, as a mathematical value.
#[verifier::ext_equal]
pub enum CardBodyView {
    NotSaved { hint: Seq<char> },
    Saved {
        slots: Seq<SlotCardView>,
        booster: Seq<char>,
        confirm_delete: bool,
        can_activate: bool,
    },
}

pub open spec fn slot_views(slots: Seq<SlotCard>) -> Seq<SlotCardView> {
    slots.map_values(|slot: SlotCard| slot@)
}

impl View for CardBody {
    type V = CardBodyView;

    open spec fn view(&self) -> CardBodyView {
        match self {
            CardBody::NotSaved { hint } => CardBodyView::NotSaved { hint: hint@ },
            CardBody::Saved { slots, booster, confirm_delete, can_activate } => CardBodyView::Saved {
                slots: slot_views(slots@),
                booster: booster@,
                confirm_delete: *confirm_delete,
                can_activate: *can_activate,
            },
        }
    }
}

/// A preset's card.
#[derive(Debug)]
pub struct PresetCard {
    pub title: String,
    pub is_active: bool,
    pub problem: Option<String>,
    pub body: CardBody,
}

/// A preset's card as a mathematical value.
#[verifier::ext_equal]
pub struct PresetCardView {
    pub title: Seq<char>,
    pub is_active: bool,
    pub problem: Option<Seq<char>>,
    pub body: CardBodyView,
}

impl View for PresetCard {
    type V = PresetCardView;

    open spec fn view(&self) -> PresetCardView {
        PresetCardView {
            title: self.title@,
            is_active: self.is_active,
            problem: option_text(self.problem),
            body: self.body@,
        }
    }
}

pub open spec fn booster_words(booster: bool, fallback_booster: bool) -> Seq<char> {
    if booster && fallback_booster {
        "Booster + fallback"@
    } else if booster {
        "Booster"@
    } else {
        "No booster"@
    }
}

/// Whether a preset has a Booster, in words.
pub fn booster_text(booster: bool, fallback_booster: bool) -> (r: &'static str)
    ensures
        r@ == booster_words(booster, fallback_booster),
{
    if booster && fallback_booster {
        "Booster + fallback"
    } else if booster {
        "Booster"
    } else {
        "No booster"
    }
}

/// The active loadout came from the preset.
pub open spec fn came_from(active: Option<ActiveLoadoutView>, preset: Seq<char>) -> bool {
    match active {
        Some(active) => active.preset == preset,
        None => false,
    }
}

/// How a preset is shown.
pub open spec fn preset_shown(
    preset: PresetSummaryView,
    active: Option<ActiveLoadoutView>,
    catalog: Catalog,
    pending_delete: Option<Seq<char>>,
) -> PresetCardView {
    PresetCardView {
        title: "Preset "@ + decimal((preset.index + 1) as nat),
        is_active: came_from(active, preset.name),
        problem: preset.problem,
        body: if preset.saved {
            CardBodyView::Saved {
                slots: preset.stratagems.map_values(
                    |id: Option<Seq<char>>| slot_shown(catalog, id),
                ),
                booster: booster_words(preset.booster, preset.fallback_booster),
                confirm_delete: pending_delete == Some(preset.name),
                can_activate: !came_from(active, preset.name),
            }
        } else {
            CardBodyView::NotSaved {
                hint: "Not saved yet. Fill the loadout in game and press "@ + preset.hotkey_label
                    + "."@,
            }
        },
    }
}

fn id_text(id: &Option<String>) -> (r: Option<&str>)
    ensures
        match r {
            Some(text) => option_text(*id) == Some(text@),
            None => option_text(*id) is None,
        },
{
    match id {
        Some(id) => Some(id.as_str()),
        None => None,
    }
}

/// How a preset is shown. `pending_delete` is the preset whose deletion was asked for.
pub fn preset_card(
    preset: &PresetSummary,
    active: Option<&ActiveLoadout>,
    catalog: &Catalog,
    pending_delete: Option<&str>,
) -> (r: PresetCard)
    ensures
        r@ == preset_shown(
            preset@,
            match active {
                Some(active) => Some(active@),
                None => None,
            },
            *catalog,
            match pending_delete {
                Some(name) => Some(name@),
                None => None,
            },
        ),
{
    let is_active = match active {
        Some(active) => same_text(active.preset.as_str(), preset.name.as_str()),
        None => false,
    };
    let title = numbered("Preset", preset.index);
    proof {
        reveal_strlit("Preset");
        reveal_strlit(" ");
        reveal_strlit("Preset ");
        assert("Preset"@ + " "@ =~= "Preset "@);
    }
    let problem = copy_of(&preset.problem);
    if !preset.saved {
        let mut hint = joined(
            "Not saved yet. Fill the loadout in game and press ",
            preset.hotkey_label.as_str(),
        );
        hint.push_str(".");
        return PresetCard { title, is_active, problem, body: CardBody::NotSaved { hint } };
    }
    let mut slots: Vec<SlotCard> = Vec::new();
    let ghost wanted = preset@.stratagems.map_values(
        |id: Option<Seq<char>>| slot_shown(*catalog, id),
    );
    let mut i: usize = 0;
    while i < SLOT_COUNT
        invariant
            i <= SLOT_COUNT,
            wanted == preset@.stratagems.map_values(
                |id: Option<Seq<char>>| slot_shown(*catalog, id),
            ),
            wanted.len() == SLOT_COUNT,
            slot_views(slots@) == wanted.take(i as int),
        decreases SLOT_COUNT - i,
    {
        let ghost before = slot_views(slots@);
        let slot = slot_card(catalog, id_text(&preset.stratagems[i]));
        let ghost added = slot@;
        assert(preset@.stratagems[i as int] == option_text(preset.stratagems@[i as int]));
        assert(added == wanted[i as int]);
        slots.push(slot);
        assert(slot_views(slots@) =~= before.push(added));
        assert(slot_views(slots@) =~= wanted.take(i + 1));
        i = i + 1;
    }
    assert(slot_views(slots@) =~= wanted);
    let confirm_delete = match pending_delete {
        Some(name) => same_text(name, preset.name.as_str()),
        None => false,
    };
    PresetCard {
        title,
        is_active,
        problem,
        body: CardBody::Saved {
            slots,
            booster: booster_text(preset.booster, preset.fallback_booster),
            confirm_delete,
            can_activate: !is_active,
        },
    }
}

/// Whether an edited label is sent on: when it differs from the one that is stored,
/// blanks at the ends apart.
pub fn label_changed(text: &str, label: &str) -> (r: bool)
    ensures
        r == (trim(text@) != trim(label@)),
{
    !same_text(trimmed(text).as_str(), trimmed(label).as_str())
}

// ----- the active loadout --------------------------------------------------------------

/// What is said below the active loadout.
#[derive(Debug, Clone, Copy, PartialEq, Eq, Structural)]
pub enum ActiveNotice {
    Nothing,
    /// The mission hotkeys are switched off.
    Disabled,
    /// The hotkeys come on once the game has the focus.
    ArmsWhenFocused,
}

/// The active loadout.
#[derive(Debug)]
pub struct ActiveCard {
    pub heading: String,
    /// For each slot, the label of its key and what it holds.
    pub slots: Vec<(String, SlotCard)>,
    pub notice: ActiveNotice,
}

/// The heading of the active loadout: its name, where it comes from and how old it is.
pub open spec fn heading_words(
    active: ActiveLoadoutView,
    labels: Map<Seq<char>, String>,
    now_unix: u64,
) -> Seq<char> {
    label_words(active.preset, labels) + " · "@ + active.source.label_text() + " · "@ + ago_words(
        active.set_at_unix,
        now_unix,
    )
}

/// The id in a slot, if there is one.
pub open spec fn slot_id(active: ActiveLoadoutView, slot: int) -> Option<Seq<char>> {
    if slot < active.slots.len() {
        active.slots[slot]
    } else {
        None
    }
}

/// The label of a slot's key.
pub open spec fn key_words(slot_keys: Seq<HotkeyBinding>, slot: int) -> Seq<char> {
    if slot < slot_keys.len() {
        slot_keys[slot].modifiers.label_text(slot_keys[slot].key)
    } else {
        "?"@
    }
}

/// How the active loadout is shown.
pub fn active_card(
    active: &ActiveLoadout,
    settings: &LiveSettings,
    catalog: &Catalog,
    game_foreground: bool,
    now_unix: u64,
) -> (r: ActiveCard)
    ensures
        r.heading@ == heading_words(active@, settings.labels.map(), now_unix),
        r.slots@.len() == SLOT_COUNT,
        forall|i: int|
            0 <= i < SLOT_COUNT ==> (#[trigger] r.slots@[i]).0@ == key_words(settings.slot_keys@, i)
                && r.slots@[i].1@ == slot_shown(*catalog, slot_id(active@, i)),
        r.notice == if !settings.mission_enabled {
            ActiveNotice::Disabled
        } else if !game_foreground {
            ActiveNotice::ArmsWhenFocused
        } else {
            ActiveNotice::Nothing
        },
{
    let mut heading = active_label(active.preset.as_str(), &settings.labels);
    heading.push_str(" · ");
    heading.push_str(active.source.label());
    heading.push_str(" · ");
    heading.push_str(time_ago(active.set_at_unix, now_unix).as_str());
    let mut slots: Vec<(String, SlotCard)> = Vec::new();
    let mut i: usize = 0;
    while i < SLOT_COUNT
        invariant
            i <= SLOT_COUNT,
            slots@.len() == i,
            forall|k: int|
                0 <= k < i ==> (#[trigger] slots@[k]).0@ == key_words(settings.slot_keys@, k)
                    && slots@[k].1@ == slot_shown(*catalog, slot_id(active@, k)),
        decreases SLOT_COUNT - i,
    {
        let key_label = if i < settings.slot_keys.len() {
            settings.slot_keys[i].label()
        } else {
            "?".to_string()
        };
        let slot = slot_card(catalog, active.slot(i));
        slots.push((key_label, slot));
        i = i + 1;
    }
    let notice = if !settings.mission_enabled {
        ActiveNotice::Disabled
    } else if !game_foreground {
        ActiveNotice::ArmsWhenFocused
    } else {
        ActiveNotice::Nothing
    };
    ActiveCard { heading, slots, notice }
}

// ----- mission Stratagems --------------------------------------------------------------

/// A mission Stratagem and its key.
#[derive(Debug)]
pub struct MissionRow {
    pub id: String,
    pub name: String,
    pub code: String,
    pub details: String,
    pub binding: Option<HotkeyBinding>,
    /// The key is used more than once.
    pub conflict: bool,
}

/// The key is in conflict.
pub open spec fn in_conflict(
    binding: Option<HotkeyBinding>,
    slot_keys: Seq<HotkeyBinding>,
    bindings: Seq<(Seq<char>, HotkeyBinding)>,
) -> bool {
    match binding {
        Some(binding) => repeated(all_bindings(slot_keys, bindings)).contains(binding),
        None => false,
    }
}

/// The row shows a Stratagem.
pub open spec fn row_shows(row: MissionRow, entry: StratagemEntry, settings: LiveSettings) -> bool {
    &&& row.id@ == entry.id@
    &&& row.name@ == entry.name@
    &&& row.code@ == arrows_of(entry.code@)
    &&& row.details@ == details_words(entry)
    &&& row.binding == if settings.bindings.map().contains_key(entry.id@) {
        Some(settings.bindings.map()[entry.id@])
    } else {
        None
    }
    &&& row.conflict == in_conflict(row.binding, settings.slot_keys@, settings.bindings@)
}

/// The mission Stratagems and their keys.
pub fn mission_rows(catalog: &Catalog, settings: &LiveSettings) -> (r: Vec<MissionRow>)
    ensures
        ({
            let entries = catalog.list().filter(|entry: StratagemEntry| entry.mission_only());
            &&& r@.len() == entries.len()
            &&& forall|i: int|
                0 <= i < entries.len() ==> row_shows(#[trigger] r@[i], entries[i], *settings)
        }),
{
    let entries = catalog.mission_entries();
    let conflicts = binding_conflicts(settings);
    let mut out: Vec<MissionRow> = Vec::new();
    let mut i: usize = 0;
    while i < entries.len()
        invariant
            i <= entries@.len(),
            out@.len() == i,
            conflicts@ == repeated(all_bindings(settings.slot_keys@, settings.bindings@)),
            forall|k: int|
                0 <= k < i ==> row_shows(#[trigger] out@[k], *entries@[k], *settings),
        decreases entries@.len() - i,
    {
        let entry = entries[i];
        let binding = match settings.bindings.get(entry.id.as_str()) {
            Some(binding) => Some(*binding),
            None => None,
        };
        let conflict = match binding {
            Some(binding) => holds_binding(&conflicts, binding),
            None => false,
        };
        out.push(
            MissionRow {
                id: entry.id.clone(),
                name: entry.name.clone(),
                code: entry.arrows(),
                details: entry_details(entry),
                binding,
                conflict,
            },
        );
        i = i + 1;
    }
    proof {
        let list = catalog.list().filter(|entry: StratagemEntry| entry.mission_only());
        assert forall|k: int| 0 <= k < list.len() implies row_shows(
            #[trigger] out@[k],
            list[k],
            *settings,
        ) by {
            assert(pointed_at(entries@)[k] == *entries@[k]);
        }
    }
    out
}

/// Whether the key of a slot is used more than once.
pub fn slot_key_conflict(settings: &LiveSettings, slot: usize) -> (r: bool)
    ensures
        r == in_conflict(
            if slot < settings.slot_keys@.len() {
                Some(settings.slot_keys@[slot as int])
            } else {
                None
            },
            settings.slot_keys@,
            settings.bindings@,
        ),
{
    if slot < settings.slot_keys.len() {
        holds_binding(&binding_conflicts(settings), settings.slot_keys[slot])
    } else {
        false
    }
}

// ----- laws ------------------------------------------------------------------------

/// A preset is shown as active exactly when the active loadout came from it, and can be made
/// active when it is saved and is not. Its slots are shown in their order, and its deletion
/// is confirmed only when it was asked for.
pub proof fn lemma_preset_shown(
    preset: PresetSummaryView,
    active: Option<ActiveLoadoutView>,
    catalog: Catalog,
    pending_delete: Option<Seq<char>>,
)
    ensures
        ({
            let card = preset_shown(preset, active, catalog, pending_delete);
            &&& card.title == "Preset "@ + decimal((preset.index + 1) as nat)
            &&& card.is_active <==> active is Some && active->0.preset == preset.name
            &&& card.problem == preset.problem
            &&& card.body is Saved <==> preset.saved
            &&& card.body matches CardBodyView::Saved {
                slots,
                booster,
                confirm_delete,
                can_activate,
            } ==> {
                &&& can_activate <==> active is None || active->0.preset != preset.name
                &&& confirm_delete <==> pending_delete == Some(preset.name)
                &&& preset.booster && preset.fallback_booster ==> booster == "Booster + fallback"@
                &&& preset.booster && !preset.fallback_booster ==> booster == "Booster"@
                &&& !preset.booster ==> booster == "No booster"@
                &&& slots.len() == preset.stratagems.len()
                &&& forall|i: int|
                    0 <= i < slots.len() ==> (#[trigger] slots[i]).id == preset.stratagems[i]
                        && slots[i] == slot_shown(catalog, preset.stratagems[i])
            }
        }),
{
}

/// A slot shows the name and the code of the Stratagem with its id. One with an id that is
/// not in the catalog shows the id, and one without an id is unknown.
pub proof fn lemma_slot_shown(catalog: Catalog, id: Option<Seq<char>>)
    ensures
        ({
            let slot = slot_shown(catalog, id);
            &&& slot.id == id
            &&& id is None ==> slot.known is None && slot.picker_text == "Unknown"@
            &&& id matches Some(text) ==> {
                &&& slot.known matches Some((name, code)) ==> {
                    &&& slot.picker_text == name
                    &&& exists|e: int|
                        #![trigger catalog.list()[e]]
                        0 <= e < catalog.list().len() && catalog.list()[e].id@ == text
                            && catalog.list()[e].name@ == name && arrows_of(
                            catalog.list()[e].code@,
                        ) == code
                }
                &&& slot.known is None <==> forall|e: int|
                    0 <= e < catalog.list().len() ==> (#[trigger] catalog.list()[e]).id@ != text
                &&& slot.known is None ==> slot.picker_text == text
            }
        }),
{
    let entries = catalog.list();
    if id is Some {
        if exists|e: int| 0 <= e < entries.len() && (#[trigger] entries[e]).id@ == id->0 {
            let e = choose|e: int| 0 <= e < entries.len() && (#[trigger] entries[e]).id@ == id->0;
            assert(entries[e].id@ == id->0);
        }
    }
}

/// The key shown for a slot is the one that is set for it, and the id that of the slot.
pub proof fn lemma_active_slot_shown(
    active: ActiveLoadoutView,
    slot_keys: Seq<HotkeyBinding>,
    slot: int,
)
    requires
        0 <= slot < 4,
    ensures
        slot < active.slots.len() ==> slot_id(active, slot) == active.slots[slot],
        slot >= active.slots.len() ==> slot_id(active, slot) is None,
        slot < slot_keys.len() ==> key_words(slot_keys, slot)
            == slot_keys[slot].modifiers.label_text(slot_keys[slot].key),
        slot >= slot_keys.len() ==> key_words(slot_keys, slot) == "?"@,
{
}

/// A key is in conflict exactly when it is set, and stands twice among the keys of the slots
/// and the mission Stratagems.
pub proof fn lemma_in_conflict(
    binding: Option<HotkeyBinding>,
    slot_keys: Seq<HotkeyBinding>,
    bindings: Seq<(Seq<char>, HotkeyBinding)>,
)
    ensures
        in_conflict(binding, slot_keys, bindings) <==> binding is Some && exists|i: int, j: int|
            0 <= i < j < all_bindings(slot_keys, bindings).len() && #[trigger] all_bindings(
                slot_keys,
                bindings,
            )[i] == binding->0 && #[trigger] all_bindings(slot_keys, bindings)[j] == binding->0,
{
    if binding is Some {
        lemma_conflict_is_second_use(slot_keys, bindings, binding->0);
    }
}

/// A row shows a Stratagem under its own id and name, with the hotkey that is set for it and
/// no other.
pub proof fn lemma_row(row: MissionRow, entry: StratagemEntry, settings: LiveSettings)
    requires
        row_shows(row, entry, settings),
    ensures
        row.id@ == entry.id@,
        row.name@ == entry.name@,
        row.code@ == arrows_of(entry.code@),
        row.binding is Some <==> settings.bindings.map().contains_key(entry.id@),
        row.binding is Some ==> row.binding->0 == settings.bindings.map()[entry.id@],
        row.conflict == in_conflict(row.binding, settings.slot_keys@, settings.bindings@),
{
}

} // verus!
