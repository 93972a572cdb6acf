//! The global hotkeys: which are wanted, which are registered, and what they do.
use super::{action_views, signature_views, Engine, EngineView, HotkeyAction, HotkeyActionView};
use crate::app_state::{HotkeyStatus, HotkeyStatusView, SharedState, SharedStateView};
use crate::catalog::{entry_with_id, Catalog};
use crate::input::{HotkeyBinding, HotkeyModifiers, Key};
use crate::text::{decimal, decimal_of, join, join_all, ordinal_of, same_text, views};
use vstd::prelude::*;

verus! {

pub const PRESET_HOTKEY_ID_BASE: i32 = 1001;

pub const SLOT_HOTKEY_ID_BASE: i32 = 2001;

pub const BINDING_HOTKEY_ID_BASE: i32 = 3001;

/// A hotkey to register.
#[derive(Debug, Clone, Copy, PartialEq, Eq, Structural)]
pub struct HotkeySpec {
    pub id: i32,
    pub modifiers: HotkeyModifiers,
    pub key: Key,
}

impl HotkeySpec {
    pub open spec fn label_text(self) -> Seq<char> {
        self.modifiers.label_text(self.key)
    }

    pub fn label(&self) -> (r: String)
        ensures
            r@ == self.label_text(),
    {
        self.modifiers.label_with_key(self.key)
    }
}

/// A hotkey that is wanted, what it does and who wants it.
pub struct Candidate {
    pub spec: HotkeySpec,
    pub action: HotkeyActionView,
    pub owner: Seq<char>,
}

/// The hotkeys to register, what they do, and those left out because their keys
/// are taken.
#[verifier::ext_equal]
pub struct DesiredView {
    pub specs: Seq<HotkeySpec>,
    pub actions: Seq<(i32, HotkeyActionView)>,
    pub conflicts: Seq<Seq<char>>,
}

/// One of the hotkeys has the keys of `spec`.
pub open spec fn chord_taken(specs: Seq<HotkeySpec>, spec: HotkeySpec) -> bool {
    exists|i: int|
        0 <= i < specs.len() && (#[trigger] specs[i]).modifiers == spec.modifiers && specs[i].key
            == spec.key
}

/// One more wanted hotkey: the first to want a combination of keys gets it.
pub open spec fn with_candidate(desired: DesiredView, candidate: Candidate) -> DesiredView {
    if chord_taken(desired.specs, candidate.spec) {
        DesiredView {
            conflicts: desired.conflicts.push(
                candidate.spec.label_text() + " ("@ + candidate.owner + ")"@,
            ),
            ..desired
        }
    } else {
        DesiredView {
            specs: desired.specs.push(candidate.spec),
            actions: desired.actions.push((candidate.spec.id, candidate.action)),
            ..desired
        }
    }
}

/// The wanted hotkeys, one after the other.
pub open spec fn desired_from(candidates: Seq<Candidate>) -> DesiredView
    decreases candidates.len(),
{
    if candidates.len() == 0 {
        DesiredView { specs: Seq::empty(), actions: Seq::empty(), conflicts: Seq::empty() }
    } else {
        with_candidate(desired_from(candidates.drop_last()), candidates.last())
    }
}

/// The preset hotkeys.
pub open spec fn preset_candidates(engine: EngineView) -> Seq<Candidate> {
    Seq::new(
        engine.preset_keys.len(),
        |i: int|
            Candidate {
                spec: HotkeySpec {
                    id: (PRESET_HOTKEY_ID_BASE + i) as i32,
                    modifiers: engine.preset_modifiers,
                    key: engine.preset_keys[i],
                },
                action: HotkeyActionView::Preset(i as usize),
                owner: "preset "@ + decimal((i + 1) as nat),
            },
    )
}

/// The slot hotkeys.
pub open spec fn slot_candidates(keys: Seq<HotkeyBinding>) -> Seq<Candidate> {
    Seq::new(
        keys.len(),
        |i: int|
            Candidate {
                spec: HotkeySpec {
                    id: (SLOT_HOTKEY_ID_BASE + i) as i32,
                    modifiers: keys[i].modifiers,
                    key: keys[i].key,
                },
                action: HotkeyActionView::Slot(i as usize),
                owner: "slot "@ + decimal((i + 1) as nat),
            },
    )
}

/// The hotkeys of mission Stratagems, in the order of their ids. Those that the
/// catalog does not know or has no code for are left out; each of the others has
/// the number of its place in the whole list.
pub open spec fn binding_candidates(
    bindings: Seq<(Seq<char>, HotkeyBinding)>,
    catalog: Catalog,
) -> Seq<Candidate>
    decreases bindings.len(),
{
    if bindings.len() == 0 {
        Seq::empty()
    } else {
        let before = binding_candidates(bindings.drop_last(), catalog);
        match entry_with_id(catalog.list(), bindings.last().0) {
            Some(entry) => if entry.code@.len() > 0 {
                before.push(
                    Candidate {
                        spec: HotkeySpec {
                            id: (BINDING_HOTKEY_ID_BASE + bindings.len() - 1) as i32,
                            modifiers: bindings.last().1.modifiers,
                            key: bindings.last().1.key,
                        },
                        action: HotkeyActionView::Stratagem(bindings.last().0),
                        owner: entry.name@,
                    },
                )
            } else {
                before
            },
            None => before,
        }
    }
}

/// All wanted hotkeys in order. None is wanted while the game is not in the
/// foreground; slots have theirs while a loadout is active.
pub open spec fn candidates(
    engine: EngineView,
    bindings: Seq<(Seq<char>, HotkeyBinding)>,
    catalog: Catalog,
) -> Seq<Candidate> {
    if !engine.game_foreground {
        Seq::empty()
    } else {
        preset_candidates(engine) + (if engine.settings.mission_enabled {
            (if engine.active is Some {
                slot_candidates(engine.settings.slot_keys)
            } else {
                Seq::empty()
            }) + binding_candidates(bindings, catalog)
        } else {
            Seq::empty()
        })
    }
}

/// The hotkeys to register, what they do, and those left out because their keys
/// are taken.
pub struct DesiredHotkeys {
    pub specs: Vec<HotkeySpec>,
    pub actions: Vec<(i32, HotkeyAction)>,
    pub conflicts: Vec<String>,
}

impl View for DesiredHotkeys {
    type V = DesiredView;

    open spec fn view(&self) -> DesiredView {
        DesiredView {
            specs: self.specs@,
            actions: action_views(self.actions@),
            conflicts: views(self.conflicts@),
        }
    }
}

impl DesiredHotkeys {
    fn want(&mut self, spec: HotkeySpec, action: HotkeyAction, owner: &str)
        ensures
            final(self)@ == with_candidate(
                old(self)@,
                (Candidate { spec, action: action@, owner: owner@ }),
            ),
    {
        let mut taken = false;
        let mut i: usize = 0;
        while i < self.specs.len()
            invariant
                i <= self.specs@.len(),
                taken == chord_taken(self.specs@.take(i as int), spec),
            decreases self.specs@.len() - i,
        {
            let ghost here = self.specs@.take(i + 1);
            let ghost before = self.specs@.take(i as int);
            assert(here[i as int] == self.specs@[i as int]);
            assert(forall|k: int| 0 <= k < i ==> here[k] == before[k]);
            let same = self.specs[i].modifiers == spec.modifiers && self.specs[i].key == spec.key;
            proof {
                if chord_taken(before, spec) {
                    let k = choose|k: int|
                        0 <= k < before.len() && (#[trigger] before[k]).modifiers == spec.modifiers
                            && before[k].key == spec.key;
                    assert(here[k].modifiers == spec.modifiers);
                }
                if chord_taken(here, spec) {
                    let k = choose|k: int|
                        0 <= k < here.len() && (#[trigger] here[k]).modifiers == spec.modifiers
                            && here[k].key == spec.key;
                    if k < i {
                        assert(before[k].modifiers == spec.modifiers);
                    }
                }
            }
            if same {
                taken = true;
            }
            i = i + 1;
        }
        assert(self.specs@.take(self.specs@.len() as int) == self.specs@);
        let ghost before = self@;
        if taken {
            let mut text = spec.label();
            text.push_str(" (");
            text.push_str(owner);
            text.push_str(")");
            self.conflicts.push(text);
            assert(self@.conflicts =~= before.conflicts.push(text@));
        } else {
            self.specs.push(spec);
            let ghost id = spec.id;
            self.actions.push((spec.id, action));
            assert(self@.actions =~= before.actions.push((id, action@)));
        }
        assert(self@ =~= with_candidate(before, Candidate { spec, action: action@, owner: owner@ }));
    }
}

proof fn lemma_desired_push(list: Seq<Candidate>, candidate: Candidate)
    ensures
        desired_from(list.push(candidate)) == with_candidate(desired_from(list), candidate),
{
    assert(list.push(candidate).drop_last() == list);
}

impl Engine {
    /// The ids of the hotkeys of mission Stratagems stay within their type.
    pub open spec fn ids_fit(self) -> bool {
        self.preset_keys@.len() <= 1000 && self.settings.slot_keys@.len() <= 1000
            && self.settings.bindings@.len() <= 2_000_000_000
    }

    /// The hotkeys that should be registered now.
    pub fn desired_hotkeys(&self, catalog: &Catalog) -> (r: DesiredHotkeys)
        requires
            self.ids_fit(),
        ensures
            r@ == desired_from(candidates(self@, self.settings.bindings@, *catalog)),
    {
        let mut desired = DesiredHotkeys {
            specs: Vec::new(),
            actions: Vec::new(),
            conflicts: Vec::new(),
        };
        let ghost mut done: Seq<Candidate> = Seq::empty();
        assert(desired@ =~= desired_from(done));
        if !self.game_foreground {
            return desired;
        }
        let ghost presets = preset_candidates(self@);
        let mut i: usize = 0;
        while i < self.preset_keys.len()
            invariant
                i <= self.preset_keys@.len(),
                self.ids_fit(),
                presets == preset_candidates(self@),
                done == presets.take(i as int),
                desired@ == desired_from(done),
            decreases self.preset_keys@.len() - i,
        {
            let mut owner = "preset ".to_string();
            owner.push_str(ordinal_of(i).as_str());
            desired.want(
                HotkeySpec {
                    id: PRESET_HOTKEY_ID_BASE + i as i32,
                    modifiers: self.preset_modifiers,
                    key: self.preset_keys[i],
                },
                HotkeyAction::Preset(i),
                owner.as_str(),
            );
            proof {
                lemma_desired_push(done, presets[i as int]);
                done = done.push(presets[i as int]);
                assert(done =~= presets.take(i + 1));
            }
            i = i + 1;
        }
        assert(done =~= presets);
        if self.settings.mission_enabled {
            if self.active.is_some() {
                let keys = &self.settings.slot_keys;
                let ghost slots = slot_candidates(keys@);
                let ghost before = done;
                let mut i: usize = 0;
                assert(done =~= before + slots.take(0));
                while i < keys.len()
                    invariant
                        i <= keys@.len(),
                        keys@.len() <= 1000,
                        slots == slot_candidates(keys@),
                        done == before + slots.take(i as int),
                        desired@ == desired_from(done),
                    decreases keys@.len() - i,
                {
                    let mut owner = "slot ".to_string();
                    owner.push_str(ordinal_of(i).as_str());
                    desired.want(
                        HotkeySpec {
                            id: SLOT_HOTKEY_ID_BASE + i as i32,
                            modifiers: keys[i].modifiers,
                            key: keys[i].key,
                        },
                        HotkeyAction::Slot(i),
                        owner.as_str(),
                    );
                    proof {
                        lemma_desired_push(done, slots[i as int]);
                        done = done.push(slots[i as int]);
                        assert(done =~= before + slots.take(i + 1));
                    }
                    i = i + 1;
                }
                assert(slots.take(slots.len() as int) =~= slots);
            }
            let bindings = &self.settings.bindings;
            let ghost before = done;
            let mut i: usize = 0;
            assert(bindings@.take(0) =~= Seq::<(Seq<char>, HotkeyBinding)>::empty());
            assert(done =~= before + binding_candidates(bindings@.take(0), *catalog));
            while i < bindings.len()
                invariant
                    i <= bindings@.len(),
                    bindings@.len() <= 2_000_000_000,
                    done == before + binding_candidates(bindings@.take(i as int), *catalog),
                    desired@ == desired_from(done),
                decreases bindings@.len() - i,
            {
                let ghost here = bindings@.take(i + 1);
                assert(here.drop_last() == bindings@.take(i as int));
                assert(here.last() == bindings@[i as int]);
                let id = bindings.key_at(i);
                let binding = bindings.value_at(i);
                if let Some(entry) = catalog.get(id) {
                    if entry.has_code() {
                        desired.want(
                            HotkeySpec {
                                id: BINDING_HOTKEY_ID_BASE + i as i32,
                                modifiers: binding.modifiers,
                                key: binding.key,
                            },
                            HotkeyAction::Stratagem(id.to_string()),
                            entry.name.as_str(),
                        );
                        proof {
                            let candidate = binding_candidates(here, *catalog).last();
                            lemma_desired_push(done, candidate);
                            done = done.push(candidate);
                        }
                    }
                }
                assert(done =~= before + binding_candidates(here, *catalog));
                i = i + 1;
            }
            assert(bindings@.take(bindings@.len() as int) =~= bindings@);
        }
        assert(done =~= candidates(self@, self.settings.bindings@, *catalog));
        desired
    }
}

// ----- registering -----------------------------------------------------------------

/// Ids and labels of hotkeys, by which a change is noticed.
pub open spec fn signature_of(specs: Seq<HotkeySpec>) -> Seq<(i32, Seq<char>)> {
    specs.map_values(|spec: HotkeySpec| (spec.id, spec.label_text()))
}

fn signature(specs: &Vec<HotkeySpec>) -> (r: Vec<(i32, String)>)
    ensures
        signature_views(r@) == signature_of(specs@),
{
    let mut out: Vec<(i32, String)> = Vec::new();
    let ghost wanted = signature_of(specs@);
    let mut i: usize = 0;
    while i < specs.len()
        invariant
            i <= specs@.len(),
            wanted == signature_of(specs@),
            signature_views(out@) == wanted.take(i as int),
        decreases specs@.len() - i,
    {
        let ghost before = signature_views(out@);
        out.push((specs[i].id, specs[i].label()));
        assert(signature_views(out@) == before.push(wanted[i as int]));
        assert(wanted.take(i + 1) == wanted.take(i as int).push(wanted[i as int]));
        i = i + 1;
    }
    assert(wanted.take(wanted.len() as int) == wanted);
    out
}

fn same_signature(a: &Vec<(i32, String)>, b: &Vec<(i32, String)>) -> (r: bool)
    ensures
        r == (signature_views(a@) == signature_views(b@)),
{
    let ghost x = signature_views(a@);
    let ghost y = signature_views(b@);
    if a.len() != b.len() {
        assert(x.len() != y.len());
        return false;
    }
    let mut i: usize = 0;
    while i < a.len()
        invariant
            i <= a@.len(),
            a@.len() == b@.len(),
            x == signature_views(a@),
            y == signature_views(b@),
            forall|k: int| 0 <= k < i ==> x[k] == y[k],
        decreases a@.len() - i,
    {
        assert(x[i as int] == (a@[i as int].0, a@[i as int].1@));
        assert(y[i as int] == (b@[i as int].0, b@[i as int].1@));
        if a[i].0 != b[i].0 || !same_text(a[i].1.as_str(), b[i].1.as_str()) {
            assert(x[i as int] != y[i as int]);
            return false;
        }
        i = i + 1;
    }
    assert(x =~= y);
    true
}

/// How many of the actions are slot calls.
pub open spec fn slot_count(actions: Seq<(i32, HotkeyActionView)>) -> nat
    decreases actions.len(),
{
    if actions.len() == 0 {
        0
    } else {
        slot_count(actions.drop_last()) + (if actions.last().1 is Slot {
            1nat
        } else {
            0nat
        })
    }
}

/// How many of the actions are mission Stratagem calls.
pub open spec fn stratagem_count(actions: Seq<(i32, HotkeyActionView)>) -> nat
    decreases actions.len(),
{
    if actions.len() == 0 {
        0
    } else {
        stratagem_count(actions.drop_last()) + (if actions.last().1 is Stratagem {
            1nat
        } else {
            0nat
        })
    }
}

fn count_actions(actions: &Vec<(i32, HotkeyAction)>) -> (r: (usize, usize))
    ensures
        r.0 == slot_count(action_views(actions@)),
        r.1 == stratagem_count(action_views(actions@)),
{
    let ghost all = action_views(actions@);
    let mut slots: usize = 0;
    let mut stratagems: usize = 0;
    let mut i: usize = 0;
    assert(all.take(0) == Seq::<(i32, HotkeyActionView)>::empty());
    while i < actions.len()
        invariant
            i <= actions@.len(),
            all == action_views(actions@),
            slots <= i,
            stratagems <= i,
            slots == slot_count(all.take(i as int)),
            stratagems == stratagem_count(all.take(i as int)),
        decreases actions@.len() - i,
    {
        assert(all.take(i + 1).drop_last() == all.take(i as int));
        assert(all.take(i + 1).last() == (actions@[i as int].0, actions@[i as int].1@));
        match &actions[i].1 {
            HotkeyAction::Slot(_) => {
                slots = slots + 1;
            },
            HotkeyAction::Stratagem(_) => {
                stratagems = stratagems + 1;
            },
            HotkeyAction::Preset(_) => {},
        }
        i = i + 1;
    }
    assert(all.take(all.len() as int) == all);
    (slots, stratagems)
}

/// What is said of hotkeys that are registered.
pub open spec fn armed_text(preset_keys: nat, desired: DesiredView) -> Seq<char> {
    let counts = decimal(preset_keys) + " preset, "@ + decimal(slot_count(desired.actions))
        + " slot, "@ + decimal(stratagem_count(desired.actions)) + " mission"@;
    if desired.conflicts.len() == 0 {
        counts
    } else {
        counts + ("; skipped duplicates: "@ + join(desired.conflicts, ", "@))
    }
}

/// What is to be done about the registration of hotkeys.
pub enum SyncStep {
    /// The registered hotkeys are the wanted ones, or it is too early to try again.
    Nothing,
    /// Drop the registered hotkeys.
    Drop,
    /// Drop the registered hotkeys and register these.
    Register(DesiredHotkeys),
}

impl EngineView {
    /// The engine with no hotkeys registered.
    pub open spec fn disarmed(self) -> EngineView {
        EngineView { actions: Seq::empty(), ..self }
    }
}

/// What is said when no hotkey is wanted.
pub open spec fn idle_text(game_foreground: bool) -> Seq<char> {
    if game_foreground {
        "nothing to register"@
    } else {
        "waiting for Helldivers 2 to be focused"@
    }
}

impl Engine {
    /// Compares the registered hotkeys with the wanted ones. `may_try` says whether
    /// enough time has passed since a registration failed.
    pub fn sync_hotkeys(&mut self, catalog: &Catalog, may_try: bool, state: &mut SharedState) -> (r:
        SyncStep)
        requires
            old(self).ids_fit(),
        ensures
            final(self).settings == old(self).settings,
            ({
                let desired = desired_from(
                    candidates(old(self)@, old(self).settings.bindings@, *catalog),
                );
                if signature_of(desired.specs) == old(self)@.registered || !may_try {
                    &&& r is Nothing
                    &&& final(self)@ == old(self)@
                    &&& final(state)@ == old(state)@
                } else if desired.specs.len() == 0 {
                    &&& r is Drop
                    &&& final(self)@ == (EngineView {
                        registered: Seq::empty(),
                        ..old(self)@.disarmed()
                    })
                    &&& final(state)@ == (SharedStateView {
                        hotkeys: HotkeyStatusView {
                            armed: false,
                            detail: idle_text(old(self)@.game_foreground),
                        },
                        ..old(state)@
                    })
                } else {
                    &&& r matches SyncStep::Register(wanted) && wanted@ == desired
                    &&& final(self)@ == old(self)@.disarmed()
                    &&& final(state)@ == old(state)@
                }
            }),
    {
        let desired = self.desired_hotkeys(catalog);
        let wanted = signature(&desired.specs);
        if same_signature(&wanted, &self.registered) || !may_try {
            return SyncStep::Nothing;
        }
        self.actions = Vec::new();
        assert(action_views(self.actions@) =~= Seq::empty());
        if desired.specs.len() == 0 {
            self.registered = wanted;
            assert(signature_views(wanted@) =~= Seq::empty());
            let detail = if self.game_foreground {
                "nothing to register".to_string()
            } else {
                "waiting for Helldivers 2 to be focused".to_string()
            };
            state.hotkeys = HotkeyStatus { armed: false, detail };
            return SyncStep::Drop;
        }
        SyncStep::Register(desired)
    }

    /// Takes note of how a registration went. Returns whether it has to be tried
    /// again later.
    pub fn hotkeys_registered(
        &mut self,
        desired: DesiredHotkeys,
        failure: Option<String>,
        state: &mut SharedState,
    ) -> (r: bool)
        ensures
            r == (failure is Some),
            final(self).settings == old(self).settings,
            match failure {
                None => {
                    &&& final(self)@ == (EngineView {
                        actions: desired@.actions,
                        registered: signature_of(desired@.specs),
                        ..old(self)@
                    })
                    &&& final(state)@ == (SharedStateView {
                        hotkeys: HotkeyStatusView {
                            armed: true,
                            detail: armed_text(old(self)@.preset_keys.len(), desired@),
                        },
                        ..old(state)@
                    })
                },
                Some(message) => {
                    &&& final(self)@ == (EngineView { registered: Seq::empty(), ..old(self)@ })
                    &&& final(state)@ == (SharedStateView {
                        hotkeys: HotkeyStatusView { armed: false, detail: message@ },
                        ..old(state)@
                    })
                },
            },
    {
        match failure {
            None => {
                let (slots, stratagems) = count_actions(&desired.actions);
                let mut detail = decimal_of(self.preset_keys.len() as u64);
                detail.push_str(" preset, ");
                detail.push_str(decimal_of(slots as u64).as_str());
                detail.push_str(" slot, ");
                detail.push_str(decimal_of(stratagems as u64).as_str());
                detail.push_str(" mission");
                if desired.conflicts.len() > 0 {
                    let mut skipped = "; skipped duplicates: ".to_string();
                    skipped.push_str(join_all(&desired.conflicts, ", ").as_str());
                    detail.push_str(skipped.as_str());
                }
                self.registered = signature(&desired.specs);
                self.actions = desired.actions;
                state.hotkeys = HotkeyStatus { armed: true, detail };
                false
            },
            Some(message) => {
                self.registered = Vec::new();
                assert(signature_views(self.registered@) =~= Seq::empty());
                state.hotkeys = HotkeyStatus { armed: false, detail: message };
                true
            },
        }
    }

    /// What a pressed hotkey does, when it is one of the registered ones.
    pub fn on_hotkey(&self, hotkey_id: i32) -> (r: Option<HotkeyAction>)
        ensures
            match r {
                Some(action) => exists|i: int|
                    0 <= i < self@.actions.len() && #[trigger] self@.actions[i] == (
                        hotkey_id,
                        action@,
                    ),
                None => forall|i: int|
                    0 <= i < self@.actions.len() ==> (#[trigger] self@.actions[i]).0 != hotkey_id,
            },
    {
        let ghost all = self@.actions;
        let mut i: usize = 0;
        while i < self.actions.len()
            invariant
                i <= self.actions@.len(),
                all == action_views(self.actions@),
                all == self@.actions,
                forall|k: int| 0 <= k < i ==> (#[trigger] all[k]).0 != hotkey_id,
            decreases self.actions@.len() - i,
        {
            assert(all[i as int] == (self.actions@[i as int].0, self.actions@[i as int].1@));
            if self.actions[i].0 == hotkey_id {
                let action = self.actions[i].1.clone();
                assert(self@.actions[i as int] == (hotkey_id, action@));
                return Some(action);
            }
            i = i + 1;
        }
        None
    }
}

/// What a tick without a hotkey calls for.
#[derive(Debug, Clone, Copy, PartialEq, Eq, Structural)]
pub enum IdleAction {
    Nothing,
    /// Get ready to look at the screen.
    Prewarm,
    /// Drop what was made ready.
    Discard,
}

impl Engine {
    /// Answers a tick without a hotkey: the screen is made ready when the preset
    /// modifiers go down, and dropped when they come up.
    pub fn on_idle_tick(&mut self, modifiers_down: bool) -> (r: IdleAction)
        ensures
            final(self).settings == old(self).settings,
            r == (if modifiers_down && !old(self)@.modifiers_were_down && !old(
                self,
            )@.prewarm_suppressed {
                IdleAction::Prewarm
            } else if !modifiers_down && old(self)@.modifiers_were_down {
                IdleAction::Discard
            } else {
                IdleAction::Nothing
            }),
            final(self)@ == (EngineView {
                modifiers_were_down: modifiers_down,
                prewarm_suppressed: old(self)@.prewarm_suppressed && r != IdleAction::Discard,
                ..old(self)@
            }),
    {
        let mut action = IdleAction::Nothing;
        if modifiers_down && !self.modifiers_were_down && !self.prewarm_suppressed {
            action = IdleAction::Prewarm;
        } else if !modifiers_down && self.modifiers_were_down {
            self.prewarm_suppressed = false;
            action = IdleAction::Discard;
        }
        self.modifiers_were_down = modifiers_down;
        action
    }
}

// ----- laws ------------------------------------------------------------------------

/// Every wanted hotkey is either registered or listed as skipped, and every
/// registered hotkey has an action under its id.
pub proof fn lemma_every_candidate_is_answered(list: Seq<Candidate>)
    ensures
        desired_from(list).specs.len() + desired_from(list).conflicts.len() == list.len(),
        desired_from(list).actions.len() == desired_from(list).specs.len(),
        forall|i: int|
            0 <= i < desired_from(list).specs.len() ==> (#[trigger] desired_from(
                list,
            ).actions[i]).0 == desired_from(list).specs[i].id,
    decreases list.len(),
{
    if list.len() > 0 {
        lemma_every_candidate_is_answered(list.drop_last());
    }
}

/// No combination of keys is registered twice.
pub proof fn lemma_no_chord_twice(list: Seq<Candidate>, i: int, j: int)
    requires
        0 <= i < j < desired_from(list).specs.len(),
    ensures
        !(desired_from(list).specs[i].modifiers == desired_from(list).specs[j].modifiers
            && desired_from(list).specs[i].key == desired_from(list).specs[j].key),
    decreases list.len(),
{
    if list.len() > 0 {
        let before = desired_from(list.drop_last()).specs;
        if j < before.len() {
            lemma_no_chord_twice(list.drop_last(), i, j);
        } else {
            assert(!chord_taken(before, list.last().spec));
            assert(before[i] == desired_from(list).specs[i]);
        }
    }
}

/// The first to want a combination of keys gets it.
pub proof fn lemma_first_wins(list: Seq<Candidate>, i: int)
    requires
        0 <= i < list.len(),
        forall|j: int|
            0 <= j < i ==> !((#[trigger] list[j]).spec.modifiers == list[i].spec.modifiers
                && list[j].spec.key == list[i].spec.key),
    ensures
        desired_from(list).specs.contains(list[i].spec),
        desired_from(list).actions.contains((list[i].spec.id, list[i].action)),
    decreases list.len(),
{
    let before = list.drop_last();
    let taken = desired_from(before);
    if i == list.len() - 1 {
        if chord_taken(taken.specs, list[i].spec) {
            let k = choose|k: int|
                0 <= k < taken.specs.len() && (#[trigger] taken.specs[k]).modifiers
                    == list[i].spec.modifiers && taken.specs[k].key == list[i].spec.key;
            lemma_specs_come_from_candidates(before, k);
            let j = choose|j: int|
                0 <= j < before.len() && #[trigger] before[j].spec == taken.specs[k];
            assert(list[j] == before[j]);
        }
        assert(desired_from(list).specs.last() == list[i].spec);
        assert(desired_from(list).actions.last() == (list[i].spec.id, list[i].action));
    } else {
        assert(before[i] == list[i]);
        assert forall|j: int| 0 <= j < i implies !((#[trigger] before[j]).spec.modifiers
            == before[i].spec.modifiers && before[j].spec.key == before[i].spec.key) by {
            assert(before[j] == list[j]);
        }
        lemma_first_wins(before, i);
        let a = choose|a: int| 0 <= a < taken.specs.len() && taken.specs[a] == list[i].spec;
        assert(desired_from(list).specs[a] == list[i].spec);
        let b = choose|b: int|
            0 <= b < taken.actions.len() && taken.actions[b] == (list[i].spec.id, list[i].action);
        assert(desired_from(list).actions[b] == (list[i].spec.id, list[i].action));
    }
}

proof fn lemma_specs_come_from_candidates(list: Seq<Candidate>, k: int)
    requires
        0 <= k < desired_from(list).specs.len(),
    ensures
        exists|j: int| 0 <= j < list.len() && #[trigger] list[j].spec == desired_from(list).specs[k],
    decreases list.len(),
{
    if list.len() > 0 {
        let before = desired_from(list.drop_last()).specs;
        if k < before.len() {
            lemma_specs_come_from_candidates(list.drop_last(), k);
            let j = choose|j: int|
                0 <= j < list.drop_last().len() && #[trigger] list.drop_last()[j].spec == before[k];
            assert(list[j].spec == desired_from(list).specs[k]);
        } else {
            assert(list[list.len() - 1].spec == desired_from(list).specs[k]);
        }
    }
}

/// The ids of the wanted hotkeys ascend.
pub open spec fn ids_ascend(list: Seq<Candidate>) -> bool {
    forall|i: int, j: int|
        0 <= i < j < list.len() ==> (#[trigger] list[i]).spec.id < (#[trigger] list[j]).spec.id
}

proof fn lemma_binding_ids(bindings: Seq<(Seq<char>, HotkeyBinding)>, catalog: Catalog)
    requires
        bindings.len() <= 2_000_000_000,
    ensures
        ids_ascend(binding_candidates(bindings, catalog)),
        forall|i: int|
            0 <= i < binding_candidates(bindings, catalog).len() ==> BINDING_HOTKEY_ID_BASE <= (
            #[trigger] binding_candidates(bindings, catalog)[i]).spec.id < BINDING_HOTKEY_ID_BASE
                + bindings.len(),
    decreases bindings.len(),
{
    if bindings.len() > 0 {
        lemma_binding_ids(bindings.drop_last(), catalog);
        let before = binding_candidates(bindings.drop_last(), catalog);
        let after = binding_candidates(bindings, catalog);
        assert forall|i: int| 0 <= i < after.len() implies BINDING_HOTKEY_ID_BASE <= (
        #[trigger] after[i]).spec.id < BINDING_HOTKEY_ID_BASE + bindings.len() by {
            if i < before.len() {
                assert(after[i] == before[i]);
            }
        }
        assert forall|i: int, j: int| 0 <= i < j < after.len() implies (
        #[trigger] after[i]).spec.id < (#[trigger] after[j]).spec.id by {
            assert(after[i] == before[i]);
            if j < before.len() {
                assert(after[j] == before[j]);
            }
        }
    }
}

/// All wanted hotkeys have ids of their own.
pub proof fn lemma_candidate_ids_ascend(
    engine: EngineView,
    bindings: Seq<(Seq<char>, HotkeyBinding)>,
    catalog: Catalog,
)
    requires
        engine.preset_keys.len() <= 1000,
        engine.settings.slot_keys.len() <= 1000,
        bindings.len() <= 2_000_000_000,
    ensures
        ids_ascend(candidates(engine, bindings, catalog)),
{
    lemma_binding_ids(bindings, catalog);
    let presets = preset_candidates(engine);
    let slots = slot_candidates(engine.settings.slot_keys);
    let others = binding_candidates(bindings, catalog);
    assert forall|i: int| 0 <= i < presets.len() implies (#[trigger] presets[i]).spec.id
        == PRESET_HOTKEY_ID_BASE + i by {}
    assert forall|i: int| 0 <= i < slots.len() implies (#[trigger] slots[i]).spec.id
        == SLOT_HOTKEY_ID_BASE + i by {}
    let all = candidates(engine, bindings, catalog);
    let middle = if engine.active is Some {
        slots
    } else {
        Seq::empty()
    };
    assert forall|i: int, j: int| 0 <= i < j < all.len() implies (#[trigger] all[i]).spec.id < (
    #[trigger] all[j]).spec.id by {
        let p: int = presets.len() as int;
        let q: int = p + middle.len();
        if i < p {
            assert(all[i] == presets[i]);
        } else if i < q {
            assert(all[i] == middle[i - p]);
        } else {
            assert(all[i] == others[i - q]);
        }
        if j < p {
            assert(all[j] == presets[j]);
        } else if j < q {
            assert(all[j] == middle[j - p]);
        } else {
            assert(all[j] == others[j - q]);
        }
    }
}

proof fn lemma_spec_ids_bounded(list: Seq<Candidate>, k: int)
    requires
        ids_ascend(list),
        list.len() > 0,
        0 <= k < desired_from(list).specs.len(),
    ensures
        desired_from(list).specs[k].id <= list.last().spec.id,
{
    lemma_specs_come_from_candidates(list, k);
    let j = choose|j: int| 0 <= j < list.len() && #[trigger] list[j].spec == desired_from(list).specs[k];
    if j < list.len() - 1 {
        assert(list[j].spec.id < list[list.len() - 1].spec.id);
    }
}

/// A hotkey id stands for one hotkey only, so that a pressed hotkey has one
/// action.
pub proof fn lemma_registered_ids_distinct(list: Seq<Candidate>, i: int, j: int)
    requires
        ids_ascend(list),
        0 <= i < j < desired_from(list).specs.len(),
    ensures
        desired_from(list).specs[i].id < desired_from(list).specs[j].id,
    decreases list.len(),
{
    if list.len() > 0 {
        let before = list.drop_last();
        assert(ids_ascend(before)) by {
            assert forall|a: int, b: int| 0 <= a < b < before.len() implies (
            #[trigger] before[a]).spec.id < (#[trigger] before[b]).spec.id by {
                assert(before[a] == list[a] && before[b] == list[b]);
            }
        }
        let specs = desired_from(before).specs;
        if j < specs.len() {
            lemma_registered_ids_distinct(before, i, j);
        } else {
            assert(desired_from(list).specs[j] == list.last().spec);
            assert(desired_from(list).specs[i] == specs[i]);
            lemma_spec_ids_bounded(before, i);
            assert(list[before.len() - 1].spec.id < list[list.len() - 1].spec.id);
            assert(before.last() == list[before.len() - 1]);
        }
    }
}

/// While the game is not in the foreground no hotkey is wanted, so that the keys
/// keep working in other applications.
pub proof fn lemma_no_hotkeys_in_background(
    engine: EngineView,
    bindings: Seq<(Seq<char>, HotkeyBinding)>,
    catalog: Catalog,
)
    requires
        !engine.game_foreground,
    ensures
        desired_from(candidates(engine, bindings, catalog)).specs.len() == 0,
        desired_from(candidates(engine, bindings, catalog)).actions.len() == 0,
{
}

/// Without an active loadout, or with mission hotkeys switched off, no slot hotkey
/// is registered.
pub proof fn lemma_slots_need_active_loadout(
    engine: EngineView,
    bindings: Seq<(Seq<char>, HotkeyBinding)>,
    catalog: Catalog,
    i: int,
)
    requires
        engine.active is None || !engine.settings.mission_enabled,
        0 <= i < desired_from(candidates(engine, bindings, catalog)).actions.len(),
    ensures
        !(desired_from(candidates(engine, bindings, catalog)).actions[i].1 is Slot),
{
    let list = candidates(engine, bindings, catalog);
    lemma_bindings_are_no_slots(bindings, catalog);
    assert forall|k: int| 0 <= k < list.len() implies !((#[trigger] list[k]).action is Slot) by {
        let presets = preset_candidates(engine);
        if k < presets.len() {
            assert(list[k] == presets[k]);
        } else {
            assert(list[k] == binding_candidates(bindings, catalog)[k - presets.len()]);
        }
    }
    lemma_actions_come_from_candidates(list, i);
}

proof fn lemma_bindings_are_no_slots(bindings: Seq<(Seq<char>, HotkeyBinding)>, catalog: Catalog)
    ensures
        forall|i: int|
            0 <= i < binding_candidates(bindings, catalog).len() ==> !((
            #[trigger] binding_candidates(bindings, catalog)[i]).action is Slot),
    decreases bindings.len(),
{
    if bindings.len() > 0 {
        lemma_bindings_are_no_slots(bindings.drop_last(), catalog);
        let before = binding_candidates(bindings.drop_last(), catalog);
        let after = binding_candidates(bindings, catalog);
        assert forall|i: int| 0 <= i < after.len() implies !((#[trigger] after[i]).action is Slot) by {
            if i < before.len() {
                assert(after[i] == before[i]);
            }
        }
    }
}

proof fn lemma_actions_come_from_candidates(list: Seq<Candidate>, k: int)
    requires
        0 <= k < desired_from(list).actions.len(),
    ensures
        exists|j: int|
            0 <= j < list.len() && #[trigger] list[j].action == desired_from(list).actions[k].1,
    decreases list.len(),
{
    if list.len() > 0 {
        let before = desired_from(list.drop_last()).actions;
        if k < before.len() {
            lemma_actions_come_from_candidates(list.drop_last(), k);
            let j = choose|j: int|
                0 <= j < list.drop_last().len() && #[trigger] list.drop_last()[j].action
                    == before[k].1;
            assert(list[j].action == desired_from(list).actions[k].1);
        } else {
            assert(list[list.len() - 1].action == desired_from(list).actions[k].1);
        }
    }
}

proof fn lemma_winner(list: Seq<Candidate>, i: int) -> (k: int)
    requires
        0 <= i < list.len(),
        forall|j: int|
            0 <= j < i ==> !((#[trigger] list[j]).spec.modifiers == list[i].spec.modifiers
                && list[j].spec.key == list[i].spec.key),
    ensures
        0 <= k < desired_from(list).specs.len(),
        k < desired_from(list).actions.len(),
        desired_from(list).specs[k] == list[i].spec,
        desired_from(list).actions[k] == (list[i].spec.id, list[i].action),
    decreases list.len(),
{
    lemma_every_candidate_is_answered(list);
    let before = list.drop_last();
    lemma_every_candidate_is_answered(before);
    if i == list.len() - 1 {
        let taken = desired_from(before);
        if chord_taken(taken.specs, list[i].spec) {
            let k = choose|k: int|
                0 <= k < taken.specs.len() && (#[trigger] taken.specs[k]).modifiers
                    == list[i].spec.modifiers && taken.specs[k].key == list[i].spec.key;
            lemma_specs_come_from_candidates(before, k);
            let j = choose|j: int|
                0 <= j < before.len() && #[trigger] before[j].spec == taken.specs[k];
            assert(list[j] == before[j]);
        }
        desired_from(list).specs.len() - 1
    } else {
        assert(before[i] == list[i]);
        assert forall|j: int| 0 <= j < i implies !((#[trigger] before[j]).spec.modifiers
            == before[i].spec.modifiers && before[j].spec.key == before[i].spec.key) by {
            assert(before[j] == list[j]);
        }
        lemma_winner(before, i)
    }
}

proof fn lemma_registered_origin(list: Seq<Candidate>, k: int) -> (j: int)
    requires
        0 <= k < desired_from(list).specs.len(),
    ensures
        0 <= j < list.len(),
        k < desired_from(list).actions.len(),
        desired_from(list).specs[k] == list[j].spec,
        desired_from(list).actions[k] == (list[j].spec.id, list[j].action),
    decreases list.len(),
{
    lemma_every_candidate_is_answered(list);
    let before = list.drop_last();
    lemma_every_candidate_is_answered(before);
    if k < desired_from(before).specs.len() {
        let j = lemma_registered_origin(before, k);
        assert(before[j] == list[j]);
        j
    } else {
        list.len() - 1
    }
}

proof fn lemma_one_action_per_id(list: Seq<Candidate>, k: int)
    requires
        ids_ascend(list),
        0 <= k < desired_from(list).specs.len(),
    ensures
        forall|m: int|
            0 <= m < desired_from(list).actions.len() && (#[trigger] desired_from(list).actions[m]).0
                == desired_from(list).specs[k].id ==> m == k,
{
    lemma_every_candidate_is_answered(list);
    let desired = desired_from(list);
    assert forall|m: int|
        0 <= m < desired.actions.len() && (#[trigger] desired.actions[m]).0
            == desired.specs[k].id implies m == k by {
        if m < k {
            lemma_registered_ids_distinct(list, m, k);
        } else if k < m {
            lemma_registered_ids_distinct(list, k, m);
        }
    }
}

proof fn lemma_binding_origin(
    bindings: Seq<(Seq<char>, HotkeyBinding)>,
    catalog: Catalog,
    k: int,
) -> (b: int)
    requires
        0 <= k < binding_candidates(bindings, catalog).len(),
    ensures
        k <= b < bindings.len(),
        entry_with_id(catalog.list(), bindings[b].0) is Some,
        entry_with_id(catalog.list(), bindings[b].0)->0.code@.len() > 0,
        binding_candidates(bindings, catalog)[k].spec.id == (BINDING_HOTKEY_ID_BASE + b) as i32,
        binding_candidates(bindings, catalog)[k].spec.modifiers == bindings[b].1.modifiers,
        binding_candidates(bindings, catalog)[k].spec.key == bindings[b].1.key,
        binding_candidates(bindings, catalog)[k].action == HotkeyActionView::Stratagem(
            bindings[b].0,
        ),
    decreases bindings.len(),
{
    let earlier = bindings.drop_last();
    let before = binding_candidates(earlier, catalog);
    lemma_binding_count(earlier, catalog);
    if k < before.len() {
        let b = lemma_binding_origin(earlier, catalog, k);
        assert(earlier[b] == bindings[b]);
        b
    } else {
        bindings.len() - 1
    }
}

proof fn lemma_binding_count(bindings: Seq<(Seq<char>, HotkeyBinding)>, catalog: Catalog)
    ensures
        binding_candidates(bindings, catalog).len() <= bindings.len(),
    decreases bindings.len(),
{
    if bindings.len() > 0 {
        lemma_binding_count(bindings.drop_last(), catalog);
    }
}

#[verifier::spinoff_prover]
#[verifier::rlimit(30)]
proof fn lemma_binding_wanted(
    bindings: Seq<(Seq<char>, HotkeyBinding)>,
    catalog: Catalog,
    b: int,
) -> (k: int)
    requires
        0 <= b < bindings.len(),
        entry_with_id(catalog.list(), bindings[b].0) is Some,
        entry_with_id(catalog.list(), bindings[b].0)->0.code@.len() > 0,
    ensures
        0 <= k < binding_candidates(bindings, catalog).len(),
        binding_candidates(bindings, catalog)[k].spec.modifiers == bindings[b].1.modifiers,
        binding_candidates(bindings, catalog)[k].spec.key == bindings[b].1.key,
        binding_candidates(bindings, catalog)[k].action == HotkeyActionView::Stratagem(
            bindings[b].0,
        ),
        forall|j: int|
            0 <= j < k ==> exists|a: int|
                #![trigger bindings[a]]
                0 <= a < b && (#[trigger] binding_candidates(bindings, catalog)[j]).spec.modifiers
                    == bindings[a].1.modifiers && binding_candidates(bindings, catalog)[j].spec.key
                    == bindings[a].1.key,
    decreases bindings.len(),
{
    let earlier = bindings.drop_last();
    let before = binding_candidates(earlier, catalog);
    let all = binding_candidates(bindings, catalog);
    if b == bindings.len() - 1 {
        let k = before.len() as int;
        assert forall|j: int| 0 <= j < k implies exists|a: int|
            #![trigger bindings[a]]
            0 <= a < b && (#[trigger] all[j]).spec.modifiers == bindings[a].1.modifiers
                && all[j].spec.key == bindings[a].1.key by {
            assert(all[j] == before[j]);
            let a = lemma_binding_origin(earlier, catalog, j);
            assert(earlier[a] == bindings[a]);
        }
        k
    } else {
        assert(earlier[b] == bindings[b]);
        let k = lemma_binding_wanted(earlier, catalog, b);
        assert(all[k] == before[k]);
        assert forall|j: int| 0 <= j < k implies exists|a: int|
            #![trigger bindings[a]]
            0 <= a < b && (#[trigger] all[j]).spec.modifiers == bindings[a].1.modifiers
                && all[j].spec.key == bindings[a].1.key by {
            assert(all[j] == before[j]);
            let a = choose|a: int|
                #![trigger earlier[a]]
                0 <= a < b && before[j].spec.modifiers == earlier[a].1.modifiers
                    && before[j].spec.key == earlier[a].1.key;
            assert(earlier[a] == bindings[a]);
        }
        k
    }
}

/// A preset whose keys no earlier preset has gets a hotkey with just these keys, and
/// pressing it is for that preset.
#[verifier::spinoff_prover]
#[verifier::rlimit(30)]
pub proof fn lemma_preset_hotkey(
    engine: EngineView,
    bindings: Seq<(Seq<char>, HotkeyBinding)>,
    catalog: Catalog,
    i: int,
)
    requires
        engine.preset_keys.len() <= 1000,
        engine.settings.slot_keys.len() <= 1000,
        bindings.len() <= 2_000_000_000,
        engine.game_foreground,
        0 <= i < engine.preset_keys.len(),
        forall|j: int| 0 <= j < i ==> #[trigger] engine.preset_keys[j] != engine.preset_keys[i],
    ensures
        ({
            let desired = desired_from(candidates(engine, bindings, catalog));
            exists|k: int|
                #![trigger desired.specs[k]]
                {
                    &&& 0 <= k < desired.specs.len()
                    &&& desired.specs[k].modifiers == engine.preset_modifiers
                    &&& desired.specs[k].key == engine.preset_keys[i]
                    &&& desired.actions.contains(
                        (desired.specs[k].id, HotkeyActionView::Preset(i as usize)),
                    )
                    &&& forall|m: int|
                        0 <= m < desired.actions.len() && (#[trigger] desired.actions[m]).0
                            == desired.specs[k].id ==> desired.actions[m].1
                            == HotkeyActionView::Preset(i as usize)
                }
        }),
{
    let list = candidates(engine, bindings, catalog);
    let presets = preset_candidates(engine);
    assert forall|j: int| 0 <= j <= i implies #[trigger] list[j] == presets[j] by {}
    assert forall|j: int| 0 <= j < i implies !((#[trigger] list[j]).spec.modifiers
        == list[i].spec.modifiers && list[j].spec.key == list[i].spec.key) by {
        assert(engine.preset_keys[j] != engine.preset_keys[i]);
    }
    let k = lemma_winner(list, i);
    let desired = desired_from(list);
    lemma_candidate_ids_ascend(engine, bindings, catalog);
    lemma_one_action_per_id(list, k);
    assert(desired.actions[k] == (desired.specs[k].id, HotkeyActionView::Preset(i as usize)));
    assert(desired.specs[k].key == engine.preset_keys[i]);
}

/// With mission hotkeys on, an active loadout and the game in the foreground, a slot
/// whose keys no preset and no earlier slot has gets a hotkey with just the keys that are
/// set for it, and pressing it is for that slot.
#[verifier::spinoff_prover]
#[verifier::rlimit(30)]
pub proof fn lemma_slot_hotkey(
    engine: EngineView,
    bindings: Seq<(Seq<char>, HotkeyBinding)>,
    catalog: Catalog,
    i: int,
)
    requires
        engine.preset_keys.len() <= 1000,
        engine.settings.slot_keys.len() <= 1000,
        bindings.len() <= 2_000_000_000,
        engine.game_foreground,
        engine.settings.mission_enabled,
        engine.active is Some,
        0 <= i < engine.settings.slot_keys.len(),
        forall|j: int|
            0 <= j < engine.preset_keys.len() ==> !(engine.preset_modifiers
                == engine.settings.slot_keys[i].modifiers && #[trigger] engine.preset_keys[j]
                == engine.settings.slot_keys[i].key),
        forall|j: int|
            0 <= j < i ==> !((#[trigger] engine.settings.slot_keys[j]).modifiers
                == engine.settings.slot_keys[i].modifiers && engine.settings.slot_keys[j].key
                == engine.settings.slot_keys[i].key),
    ensures
        ({
            let desired = desired_from(candidates(engine, bindings, catalog));
            exists|k: int|
                #![trigger desired.specs[k]]
                {
                    &&& 0 <= k < desired.specs.len()
                    &&& desired.specs[k].modifiers == engine.settings.slot_keys[i].modifiers
                    &&& desired.specs[k].key == engine.settings.slot_keys[i].key
                    &&& desired.actions.contains(
                        (desired.specs[k].id, HotkeyActionView::Slot(i as usize)),
                    )
                    &&& forall|m: int|
                        0 <= m < desired.actions.len() && (#[trigger] desired.actions[m]).0
                            == desired.specs[k].id ==> desired.actions[m].1
                            == HotkeyActionView::Slot(i as usize)
                }
        }),
{
    let list = candidates(engine, bindings, catalog);
    let presets = preset_candidates(engine);
    let slots = slot_candidates(engine.settings.slot_keys);
    let p = presets.len() as int;
    assert forall|j: int| 0 <= j < p implies #[trigger] list[j] == presets[j] by {}
    assert forall|j: int| p <= j <= p + i implies #[trigger] list[j] == slots[j - p] by {}
    assert forall|j: int| 0 <= j < p + i implies !((#[trigger] list[j]).spec.modifiers
        == list[p + i].spec.modifiers && list[j].spec.key == list[p + i].spec.key) by {
        if j < p {
            assert(list[j].spec.key == engine.preset_keys[j]);
        } else {
            assert(list[j].spec.key == engine.settings.slot_keys[j - p].key);
        }
    }
    let k = lemma_winner(list, p + i);
    let desired = desired_from(list);
    lemma_candidate_ids_ascend(engine, bindings, catalog);
    lemma_one_action_per_id(list, k);
    assert(desired.actions[k] == (desired.specs[k].id, HotkeyActionView::Slot(i as usize)));
    assert(desired.specs[k].key == engine.settings.slot_keys[i].key);
}

/// With mission hotkeys on and the game in the foreground, a mission Stratagem that has a
/// code, and whose keys no preset, no slot and no earlier Stratagem has, gets a hotkey with
/// just the keys that are set for it, and pressing it is for that Stratagem.
#[verifier::spinoff_prover]
#[verifier::rlimit(30)]
pub proof fn lemma_stratagem_hotkey(
    engine: EngineView,
    bindings: Seq<(Seq<char>, HotkeyBinding)>,
    catalog: Catalog,
    i: int,
)
    requires
        engine.preset_keys.len() <= 1000,
        engine.settings.slot_keys.len() <= 1000,
        bindings.len() <= 2_000_000_000,
        engine.game_foreground,
        engine.settings.mission_enabled,
        0 <= i < bindings.len(),
        entry_with_id(catalog.list(), bindings[i].0) is Some,
        entry_with_id(catalog.list(), bindings[i].0)->0.code@.len() > 0,
        forall|j: int|
            0 <= j < engine.preset_keys.len() ==> !(engine.preset_modifiers
                == bindings[i].1.modifiers && #[trigger] engine.preset_keys[j]
                == bindings[i].1.key),
        engine.active is Some ==> forall|j: int|
            0 <= j < engine.settings.slot_keys.len() ==> !((
            #[trigger] engine.settings.slot_keys[j]).modifiers == bindings[i].1.modifiers
                && engine.settings.slot_keys[j].key == bindings[i].1.key),
        forall|j: int|
            0 <= j < i ==> !((#[trigger] bindings[j]).1.modifiers == bindings[i].1.modifiers
                && bindings[j].1.key == bindings[i].1.key),
    ensures
        ({
            let desired = desired_from(candidates(engine, bindings, catalog));
            exists|k: int|
                #![trigger desired.specs[k]]
                {
                    &&& 0 <= k < desired.specs.len()
                    &&& desired.specs[k].modifiers == bindings[i].1.modifiers
                    &&& desired.specs[k].key == bindings[i].1.key
                    &&& desired.actions.contains(
                        (desired.specs[k].id, HotkeyActionView::Stratagem(bindings[i].0)),
                    )
                    &&& forall|m: int|
                        0 <= m < desired.actions.len() && (#[trigger] desired.actions[m]).0
                            == desired.specs[k].id ==> desired.actions[m].1
                            == HotkeyActionView::Stratagem(bindings[i].0)
                }
        }),
{
    let list = candidates(engine, bindings, catalog);
    let presets = preset_candidates(engine);
    let slots = if engine.active is Some {
        slot_candidates(engine.settings.slot_keys)
    } else {
        Seq::empty()
    };
    let others = binding_candidates(bindings, catalog);
    let p = presets.len() as int;
    let q = p + slots.len();
    let o = lemma_binding_wanted(bindings, catalog, i);
    assert(list[q + o] == others[o]);
    assert forall|j: int| 0 <= j < q + o implies !((#[trigger] list[j]).spec.modifiers
        == list[q + o].spec.modifiers && list[j].spec.key == list[q + o].spec.key) by {
        if j < p {
            assert(list[j] == presets[j]);
            assert(list[j].spec.key == engine.preset_keys[j]);
        } else if j < q {
            assert(list[j] == slots[j - p]);
            assert(list[j].spec.key == engine.settings.slot_keys[j - p].key);
        } else {
            assert(list[j] == others[j - q]);
            let a = choose|a: int|
                #![trigger bindings[a]]
                0 <= a < i && others[j - q].spec.modifiers == bindings[a].1.modifiers
                    && others[j - q].spec.key == bindings[a].1.key;
            assert(bindings[a] == bindings[a]);
        }
    }
    let k = lemma_winner(list, q + o);
    let desired = desired_from(list);
    lemma_candidate_ids_ascend(engine, bindings, catalog);
    lemma_one_action_per_id(list, k);
    assert(desired.actions[k] == (
        desired.specs[k].id,
        HotkeyActionView::Stratagem(bindings[i].0),
    ));
    assert(desired.specs[k].key == bindings[i].1.key);
}

/// Every registered hotkey has the keys that are set for what it does, and does something
/// only under the conditions for that: the game is in the foreground, a slot needs mission
/// hotkeys and an active loadout, and a Stratagem needs mission hotkeys and a code.
#[verifier::spinoff_prover]
#[verifier::rlimit(30)]
pub proof fn lemma_registered_hotkey(
    engine: EngineView,
    bindings: Seq<(Seq<char>, HotkeyBinding)>,
    catalog: Catalog,
    k: int,
)
    requires
        engine.preset_keys.len() <= 1000,
        engine.settings.slot_keys.len() <= 1000,
        0 <= k < desired_from(candidates(engine, bindings, catalog)).specs.len(),
    ensures
        ({
            let desired = desired_from(candidates(engine, bindings, catalog));
            let spec = desired.specs[k];
            &&& k < desired.actions.len()
            &&& desired.actions[k].0 == spec.id
            &&& engine.game_foreground
            &&& match desired.actions[k].1 {
                HotkeyActionView::Preset(i) => {
                    &&& i < engine.preset_keys.len()
                    &&& spec.modifiers == engine.preset_modifiers
                    &&& spec.key == engine.preset_keys[i as int]
                },
                HotkeyActionView::Slot(i) => {
                    &&& engine.settings.mission_enabled
                    &&& engine.active is Some
                    &&& i < engine.settings.slot_keys.len()
                    &&& spec.modifiers == engine.settings.slot_keys[i as int].modifiers
                    &&& spec.key == engine.settings.slot_keys[i as int].key
                },
                HotkeyActionView::Stratagem(id) => {
                    &&& engine.settings.mission_enabled
                    &&& exists|b: int|
                        #![trigger bindings[b]]
                        {
                            &&& 0 <= b < bindings.len()
                            &&& bindings[b].0 == id
                            &&& spec.modifiers == bindings[b].1.modifiers
                            &&& spec.key == bindings[b].1.key
                        }
                    &&& exists|e: int|
                        0 <= e < catalog.list().len() && (#[trigger] catalog.list()[e]).id@ == id
                            && catalog.list()[e].code@.len() > 0
                },
            }
        }),
{
    let list = candidates(engine, bindings, catalog);
    let j = lemma_registered_origin(list, k);
    let presets = preset_candidates(engine);
    let slots = if engine.active is Some {
        slot_candidates(engine.settings.slot_keys)
    } else {
        Seq::empty()
    };
    let p = presets.len() as int;
    let q = p + slots.len();
    if j < p {
        assert(list[j] == presets[j]);
    } else if j < q {
        assert(list[j] == slots[j - p]);
    } else {
        assert(list[j] == binding_candidates(bindings, catalog)[j - q]);
        let b = lemma_binding_origin(bindings, catalog, j - q);
        assert(bindings[b].0 == bindings[b].0);
        let entries = catalog.list();
        let e = choose|e: int| 0 <= e < entries.len() && (#[trigger] entries[e]).id@ == bindings[b].0;
        assert(entries[e].code@.len() > 0);
    }
}

/// A slot whose keys are taken by a preset or an earlier slot is listed as skipped, with
/// its keys and its number.
#[verifier::spinoff_prover]
#[verifier::rlimit(30)]
pub proof fn lemma_skipped_slot(
    engine: EngineView,
    bindings: Seq<(Seq<char>, HotkeyBinding)>,
    catalog: Catalog,
    i: int,
)
    requires
        engine.game_foreground,
        engine.settings.mission_enabled,
        engine.active is Some,
        0 <= i < engine.settings.slot_keys.len(),
        (exists|j: int|
            0 <= j < engine.preset_keys.len() && engine.preset_modifiers
                == engine.settings.slot_keys[i].modifiers && #[trigger] engine.preset_keys[j]
                == engine.settings.slot_keys[i].key) || (exists|j: int|
            0 <= j < i && (#[trigger] engine.settings.slot_keys[j]).modifiers
                == engine.settings.slot_keys[i].modifiers && engine.settings.slot_keys[j].key
                == engine.settings.slot_keys[i].key),
    ensures
        desired_from(candidates(engine, bindings, catalog)).conflicts.contains(
            engine.settings.slot_keys[i].modifiers.label_text(engine.settings.slot_keys[i].key)
                + " ("@ + ("slot "@ + decimal((i + 1) as nat)) + ")"@,
        ),
{
    let list = candidates(engine, bindings, catalog);
    let presets = preset_candidates(engine);
    let slots = slot_candidates(engine.settings.slot_keys);
    let keys = engine.settings.slot_keys;
    let p = presets.len() as int;
    assert(list[p + i] == slots[i]);
    if exists|j: int|
        0 <= j < engine.preset_keys.len() && engine.preset_modifiers == keys[i].modifiers
            && #[trigger] engine.preset_keys[j] == keys[i].key {
        let j = choose|j: int|
            0 <= j < engine.preset_keys.len() && engine.preset_modifiers == keys[i].modifiers
                && #[trigger] engine.preset_keys[j] == keys[i].key;
        assert(list[j] == presets[j]);
        lemma_loser(list, j, p + i);
    } else {
        let j = choose|j: int|
            0 <= j < i && (#[trigger] keys[j]).modifiers == keys[i].modifiers && keys[j].key
                == keys[i].key;
        assert(list[p + j] == slots[j]);
        lemma_loser(list, p + j, p + i);
    }
}

proof fn lemma_loser(list: Seq<Candidate>, j: int, i: int)
    requires
        0 <= j < i < list.len(),
        list[j].spec.modifiers == list[i].spec.modifiers,
        list[j].spec.key == list[i].spec.key,
    ensures
        desired_from(list).conflicts.contains(
            list[i].spec.label_text() + " ("@ + list[i].owner + ")"@,
        ),
    decreases list.len(),
{
    let before = list.drop_last();
    let text = list[i].spec.label_text() + " ("@ + list[i].owner + ")"@;
    let held = desired_from(before);
    if i == list.len() - 1 {
        assert(before[j] == list[j]);
        lemma_chord_stays(before, j);
        assert(desired_from(list).conflicts.last() == text);
    } else {
        assert(before[i] == list[i] && before[j] == list[j]);
        lemma_loser(before, j, i);
        let k = choose|k: int| 0 <= k < held.conflicts.len() && held.conflicts[k] == text;
        assert(desired_from(list).conflicts[k] == text);
    }
}

proof fn lemma_chord_stays(list: Seq<Candidate>, j: int)
    requires
        0 <= j < list.len(),
    ensures
        chord_taken(desired_from(list).specs, list[j].spec),
    decreases list.len(),
{
    let before = list.drop_last();
    let held = desired_from(before).specs;
    let after = desired_from(list).specs;
    let spec = list[j].spec;
    if j == list.len() - 1 {
        if chord_taken(held, spec) {
            assert(after == held);
        } else {
            assert(after[held.len() as int] == spec);
        }
    } else {
        assert(before[j] == list[j]);
        lemma_chord_stays(before, j);
        let k = choose|k: int|
            0 <= k < held.len() && (#[trigger] held[k]).modifiers == spec.modifiers && held[k].key
                == spec.key;
        assert(after[k] == held[k]);
    }
}

/// The numbers in the text on armed hotkeys count the slots and the mission Stratagems
/// among the actions.
pub proof fn lemma_counts(actions: Seq<(i32, HotkeyActionView)>)
    ensures
        slot_count(actions) == actions.filter(
            |action: (i32, HotkeyActionView)| action.1 is Slot,
        ).len(),
        stratagem_count(actions) == actions.filter(
            |action: (i32, HotkeyActionView)| action.1 is Stratagem,
        ).len(),
    decreases actions.len(),
{
    reveal(Seq::filter);
    if actions.len() > 0 {
        lemma_counts(actions.drop_last());
    }
}

/// The hotkey of a preset whose keys no earlier preset has is registered, under the id of
/// its place.
pub proof fn lemma_preset_hotkey_place(
    engine: EngineView,
    bindings: Seq<(Seq<char>, HotkeyBinding)>,
    catalog: Catalog,
    i: int,
)
    requires
        engine.preset_keys.len() <= 1000,
        engine.game_foreground,
        0 <= i < engine.preset_keys.len(),
        forall|j: int| 0 <= j < i ==> #[trigger] engine.preset_keys[j] != engine.preset_keys[i],
    ensures
        desired_from(candidates(engine, bindings, catalog)).specs.contains(
            HotkeySpec {
                id: (1001 + i) as i32,
                modifiers: engine.preset_modifiers,
                key: engine.preset_keys[i],
            },
        ),
{
    let list = candidates(engine, bindings, catalog);
    let presets = preset_candidates(engine);
    assert forall|j: int| 0 <= j <= i implies #[trigger] list[j] == presets[j] by {}
    assert forall|j: int| 0 <= j < i implies !((#[trigger] list[j]).spec.modifiers
        == list[i].spec.modifiers && list[j].spec.key == list[i].spec.key) by {
        assert(engine.preset_keys[j] != engine.preset_keys[i]);
    }
    lemma_first_wins(list, i);
}

/// Hotkeys are taken for the registered ones when they have the same ids and the same keys in
/// words, in the same order.
#[verifier::spinoff_prover]
#[verifier::rlimit(30)]
pub proof fn lemma_signature(specs: Seq<HotkeySpec>, others: Seq<HotkeySpec>)
    ensures
        signature_of(specs).len() == specs.len(),
        forall|i: int|
            0 <= i < specs.len() ==> (#[trigger] signature_of(specs)[i]).0 == specs[i].id
                && signature_of(specs)[i].1 == specs[i].modifiers.label_text(specs[i].key),
        signature_of(specs) == signature_of(others) <==> specs.len() == others.len() && forall|
            i: int,
        |
            #![trigger specs[i]]
            #![trigger others[i]]
            0 <= i < specs.len() ==> specs[i].id == others[i].id && specs[i].modifiers.label_text(
                specs[i].key,
            ) == others[i].modifiers.label_text(others[i].key),
{
    let a = signature_of(specs);
    let b = signature_of(others);
    if a == b {
        assert(specs.len() == a.len() && others.len() == b.len());
        assert forall|i: int|
            #![trigger specs[i]]
            #![trigger others[i]]
            0 <= i < specs.len() implies specs[i].id == others[i].id
            && specs[i].modifiers.label_text(specs[i].key) == others[i].modifiers.label_text(
            others[i].key,
        ) by {
            assert(a[i] == b[i]);
        }
    }
    if specs.len() == others.len() && forall|i: int|
        #![trigger specs[i]]
        #![trigger others[i]]
        0 <= i < specs.len() ==> specs[i].id == others[i].id && specs[i].modifiers.label_text(
            specs[i].key,
        ) == others[i].modifiers.label_text(others[i].key) {
        assert(a =~= b);
    }
}

/// What is said while no hotkey is registered: that the game has not the focus, or else that
/// there is nothing to register.
pub proof fn lemma_idle_text(game_foreground: bool)
    ensures
        !game_foreground ==> idle_text(game_foreground)
            == "waiting for Helldivers 2 to be focused"@,
        game_foreground ==> idle_text(game_foreground) == "nothing to register"@,
{
}

/// What is said of registered hotkeys: how many are for presets, for slots and for mission
/// Stratagems, and which were left out, where any were.
pub proof fn lemma_armed_text(preset_keys: nat, desired: DesiredView)
    ensures
        ({
            let counts = decimal(preset_keys) + " preset, "@ + decimal(slot_count(desired.actions))
                + " slot, "@ + decimal(stratagem_count(desired.actions)) + " mission"@;
            &&& desired.conflicts.len() == 0 ==> armed_text(preset_keys, desired) == counts
            &&& desired.conflicts.len() > 0 ==> armed_text(preset_keys, desired) == counts + (
            "; skipped duplicates: "@ + join(desired.conflicts, ", "@))
        }),
{
}

/// An engine whose hotkeys were dropped has no action under any id, and is otherwise as it
/// was.
pub proof fn lemma_disarmed(engine: EngineView)
    ensures
        engine.disarmed().actions.len() == 0,
        engine.disarmed() == (EngineView { actions: engine.disarmed().actions, ..engine }),
{
}

} // verus!
