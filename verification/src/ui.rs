//! What the window shows, apart from how it is drawn.
pub mod cards;
pub mod keybinds;

use crate::app_state::{LiveSettings, StatusLine, Tone};
use crate::catalog::{arrows_of, Catalog, StratagemEntry};
use crate::input::HotkeyBinding;
use crate::item::StratagemCategory;
use crate::text::{contains_text, decimal, decimal_of, joined, occurs_in, ordinal_of, trim, trimmed};
use crate::text_map::TextMap;
use vstd::prelude::*;

verus! {

/// The side of an icon in a row of a table, in pixels.
pub const ICON_ROW: u32 = 26;

/// The side of an icon of a preset, in pixels.
pub const ICON_PRESET: u32 = 52;

/// The side of an icon of the active loadout, in pixels.
pub const ICON_ACTIVE: u32 = 80;

/// How often the window is drawn anew, in milliseconds.
pub const REPAINT_INTERVAL_MS: u64 = 500;

/// How the window is opened.
#[derive(Debug, Clone, Copy, PartialEq, Eq, Structural)]
pub struct WindowOptions {
    pub start_hidden: bool,
}

// ----- the window itself ---------------------------------------------------------------

/// What is asked of the window.
#[derive(Debug, Clone, Copy, PartialEq, Eq, Structural)]
pub enum WindowRequest {
    Minimize,
    Restore,
    Show,
    Focus,
    Close,
    CancelClose,
}

/// What happens before a frame is drawn.
#[derive(Debug)]
pub struct FramePlan {
    pub requests: Vec<WindowRequest>,
    /// A pending request to show the window was served.
    pub shown: bool,
    /// Draw the window again after the repaint interval.
    pub repaint: bool,
}

/// What is asked of the window before a frame.
pub open spec fn frame_requests(
    hides: bool,
    exit_requested: bool,
    show_requested: bool,
    close_requested: bool,
) -> Seq<WindowRequest> {
    let first = if hides {
        seq![WindowRequest::Minimize]
    } else {
        Seq::empty()
    };
    if exit_requested {
        first.push(WindowRequest::Close)
    } else {
        let shown = if show_requested {
            first.push(WindowRequest::Restore).push(WindowRequest::Show).push(WindowRequest::Focus)
        } else {
            first
        };
        if close_requested {
            shown.push(WindowRequest::CancelClose).push(WindowRequest::Minimize)
        } else {
            shown
        }
    }
}

/// Decides what happens before a frame is drawn. The window that is closed keeps
/// running minimized; only a request to exit closes it for good.
pub fn plan_frame(
    first_frame: bool,
    options: WindowOptions,
    exit_requested: bool,
    show_requested: bool,
    close_requested: bool,
) -> (r: FramePlan)
    ensures
        r.requests@ == frame_requests(
            first_frame && options.start_hidden,
            exit_requested,
            show_requested,
            close_requested,
        ),
        r.shown == (show_requested && !exit_requested),
        r.repaint == !exit_requested,
{
    let mut requests: Vec<WindowRequest> = Vec::new();
    if first_frame && options.start_hidden {
        requests.push(WindowRequest::Minimize);
        assert(requests@ =~= seq![WindowRequest::Minimize]);
    }
    if exit_requested {
        requests.push(WindowRequest::Close);
        return FramePlan { requests, shown: false, repaint: false };
    }
    if show_requested {
        requests.push(WindowRequest::Restore);
        requests.push(WindowRequest::Show);
        requests.push(WindowRequest::Focus);
    }
    if close_requested {
        requests.push(WindowRequest::CancelClose);
        requests.push(WindowRequest::Minimize);
    }
    FramePlan { requests, shown: show_requested, repaint: true }
}

/// The window closes exactly when an exit was requested: closing it by hand never does.
pub proof fn lemma_only_exit_closes(
    hides: bool,
    exit_requested: bool,
    show_requested: bool,
    close_requested: bool,
)
    ensures
        frame_requests(hides, exit_requested, show_requested, close_requested).contains(
            WindowRequest::Close,
        ) <==> exit_requested,
{
    let requests = frame_requests(hides, exit_requested, show_requested, close_requested);
    if exit_requested {
        assert(requests[requests.len() - 1] == WindowRequest::Close);
    } else {
        assert forall|i: int| 0 <= i < requests.len() implies requests[i]
            != WindowRequest::Close by {}
    }
}

// ----- texts ---------------------------------------------------------------------------

/// The status line with the progress of an apply.
pub open spec fn status_words(text: Seq<char>, progress: Option<(usize, usize)>) -> Seq<char> {
    match progress {
        Some((done, total)) => text + "  "@ + decimal(done as nat) + "/"@ + decimal(total as nat),
        None => text,
    }
}

/// The status line with the progress of an apply.
pub fn status_text(status: &StatusLine, progress: Option<(usize, usize)>) -> (r: String)
    ensures
        r@ == status_words(status@.text, progress),
{
    let mut out = status.text.clone();
    if let Some((done, total)) = progress {
        out.push_str("  ");
        out.push_str(decimal_of(done as u64).as_str());
        out.push_str("/");
        out.push_str(decimal_of(total as u64).as_str());
    }
    out
}

/// What is said when the automation has stopped.
pub fn fatal_text(error: &str) -> (r: String)
    ensures
        r@ == "Automation stopped: "@ + error@
            + ". Fix the problem and restart the application."@,
{
    let mut out = joined("Automation stopped: ", error);
    out.push_str(". Fix the problem and restart the application.");
    out
}

/// Whether the game has the focus, in words.
pub fn focus_text(game_foreground: bool) -> (r: &'static str)
    ensures
        r@ == if game_foreground {
            "focused"@
        } else {
            "not focused"@
        },
{
    if game_foreground {
        "focused"
    } else {
        "not focused"
    }
}

/// Whether the hotkeys are registered, in words.
pub fn armed_text(armed: bool) -> (r: &'static str)
    ensures
        r@ == if armed {
            "armed"@
        } else {
            "off"@
        },
{
    if armed {
        "armed"
    } else {
        "off"
    }
}

/// The tone in which a line of the log is shown, if it stands out.
pub fn line_tone(line: &str) -> (r: Option<Tone>)
    ensures
        r == if occurs_in(" WARN "@, line@) {
            Some(Tone::Warning)
        } else if occurs_in(" ERROR "@, line@) {
            Some(Tone::Error)
        } else {
            None
        },
{
    if contains_text(line, " WARN ") {
        Some(Tone::Warning)
    } else if contains_text(line, " ERROR ") {
        Some(Tone::Error)
    } else {
        None
    }
}

pub open spec fn category_words(category: StratagemCategory) -> Seq<char> {
    match category {
        StratagemCategory::Offensive => "Offensive"@,
        StratagemCategory::Supply => "Supply"@,
        StratagemCategory::Defensive => "Defensive"@,
    }
}

/// The heading of a category.
pub fn category_title(category: StratagemCategory) -> (r: &'static str)
    ensures
        r@ == category_words(category),
{
    match category {
        StratagemCategory::Offensive => "Offensive",
        StratagemCategory::Supply => "Supply",
        StratagemCategory::Defensive => "Defensive",
    }
}

/// The details of a Stratagem: its code, its kind and its cooldown, as far as known.
pub open spec fn details_words(entry: StratagemEntry) -> Seq<char> {
    let kind = if entry.kind@.len() > 0 {
        "\n"@ + entry.kind@
    } else {
        Seq::empty()
    };
    let cooldown = if entry.cooldown@.len() > 0 {
        "\nCooldown: "@ + entry.cooldown@
    } else {
        Seq::empty()
    };
    arrows_of(entry.code@) + kind + cooldown
}

/// The details of a Stratagem.
pub fn entry_details(entry: &StratagemEntry) -> (r: String)
    ensures
        r@ == details_words(*entry),
{
    let mut out = entry.arrows();
    assert(out@ =~= arrows_of(entry.code@) + Seq::<char>::empty());
    if !entry.kind.as_str().is_empty() {
        out.push_str("\n");
        out.push_str(entry.kind.as_str());
        assert(out@ =~= arrows_of(entry.code@) + ("\n"@ + entry.kind@));
    }
    let ghost before = out@;
    assert(before =~= before + Seq::<char>::empty());
    if !entry.cooldown.as_str().is_empty() {
        out.push_str("\nCooldown: ");
        out.push_str(entry.cooldown.as_str());
        assert(out@ =~= before + ("\nCooldown: "@ + entry.cooldown@));
    }
    out
}

/// How long ago something was, counting what lies ahead as now.
pub open spec fn ago_words(then_unix: u64, now_unix: u64) -> Seq<char> {
    let elapsed: nat = if now_unix >= then_unix {
        (now_unix - then_unix) as nat
    } else {
        0
    };
    if elapsed < 60 {
        "just now"@
    } else if elapsed < 3_600 {
        decimal(elapsed / 60) + " min ago"@
    } else if elapsed < 86_400 {
        decimal(elapsed / 3_600) + " h ago"@
    } else {
        decimal(elapsed / 86_400) + " d ago"@
    }
}

/// How long ago a loadout was set. Both times are seconds since the Unix epoch.
pub fn time_ago(set_at_unix: u64, now_unix: u64) -> (r: String)
    ensures
        r@ == ago_words(set_at_unix, now_unix),
{
    let elapsed: u64 = if now_unix >= set_at_unix {
        now_unix - set_at_unix
    } else {
        0
    };
    if elapsed < 60 {
        return "just now".to_string();
    }
    if elapsed < 3_600 {
        let mut out = decimal_of(elapsed / 60);
        out.push_str(" min ago");
        out
    } else if elapsed < 86_400 {
        let mut out = decimal_of(elapsed / 3_600);
        out.push_str(" h ago");
        out
    } else {
        let mut out = decimal_of(elapsed / 86_400);
        out.push_str(" d ago");
        out
    }
}

/// The name of the active loadout with its label, if it has one.
pub open spec fn label_words(preset: Seq<char>, labels: Map<Seq<char>, String>) -> Seq<char> {
    if labels.contains_key(preset) && trim(labels[preset]@).len() > 0 {
        preset + " ("@ + labels[preset]@ + ")"@
    } else {
        preset
    }
}

/// The name of the active loadout with its label, if it has one.
pub fn active_label(preset: &str, labels: &TextMap<String>) -> (r: String)
    ensures
        r@ == label_words(preset@, labels.map()),
{
    let mut out = preset.to_string();
    if let Some(label) = labels.get(preset) {
        if !trimmed(label.as_str()).as_str().is_empty() {
            out.push_str(" (");
            out.push_str(label.as_str());
            out.push_str(")");
        }
    }
    out
}

/// What is said of the catalog.
pub fn catalog_text(catalog: &Catalog) -> (r: String)
    ensures
        r@ == decimal(catalog.list().len()) + " stratagems, synced "@ + catalog.synced_text()
            + " from "@ + catalog.source_text()
            + ". Re-run tools/sync-stratagems.ps1 and rebuild after a warbond adds stratagems."@,
{
    let mut out = decimal_of(catalog.entries().len() as u64);
    out.push_str(" stratagems, synced ");
    out.push_str(catalog.synced_at());
    out.push_str(" from ");
    out.push_str(catalog.source());
    out.push_str(". Re-run tools/sync-stratagems.ps1 and rebuild after a warbond adds stratagems.");
    out
}

/// The heading of a preset or a slot: a word and its number, counted from 1.
pub fn numbered(word: &str, index: usize) -> (r: String)
    ensures
        r@ == word@ + " "@ + decimal((index + 1) as nat),
{
    let mut out = joined(word, " ");
    out.push_str(ordinal_of(index).as_str());
    out
}

// ----- conflicts -----------------------------------------------------------------------

/// The bindings of a list that are used more than once, in the order in which their
/// second use comes.
pub open spec fn repeated(list: Seq<HotkeyBinding>) -> Seq<HotkeyBinding>
    decreases list.len(),
{
    if list.len() == 0 {
        Seq::empty()
    } else {
        let before = repeated(list.drop_last());
        if list.drop_last().contains(list.last()) && !before.contains(list.last()) {
            before.push(list.last())
        } else {
            before
        }
    }
}

/// The slot keys, followed by the keys of mission Stratagems in the order of their ids.
pub open spec fn all_bindings(
    slot_keys: Seq<HotkeyBinding>,
    bindings: Seq<(Seq<char>, HotkeyBinding)>,
) -> Seq<HotkeyBinding> {
    slot_keys + bindings.map_values(|entry: (Seq<char>, HotkeyBinding)| entry.1)
}

/// Whether a list holds a binding.
pub fn holds_binding(list: &Vec<HotkeyBinding>, binding: HotkeyBinding) -> (r: bool)
    ensures
        r == list@.contains(binding),
{
    let mut i: usize = 0;
    while i < list.len()
        invariant
            i <= list@.len(),
            forall|k: int| 0 <= k < i ==> list@[k] != binding,
        decreases list@.len() - i,
    {
        if list[i] == binding {
            assert(list@[i as int] == binding);
            return true;
        }
        i = i + 1;
    }
    false
}

fn find_repeated(list: &Vec<HotkeyBinding>) -> (r: Vec<HotkeyBinding>)
    ensures
        r@ == repeated(list@),
{
    let mut seen: Vec<HotkeyBinding> = Vec::new();
    let mut conflicts: Vec<HotkeyBinding> = Vec::new();
    let mut i: usize = 0;
    assert(list@.take(0) =~= Seq::<HotkeyBinding>::empty());
    while i < list.len()
        invariant
            i <= list@.len(),
            forall|b: HotkeyBinding| seen@.contains(b) <==> list@.take(i as int).contains(b),
            conflicts@ == repeated(list@.take(i as int)),
        decreases list@.len() - i,
    {
        let ghost here = list@.take(i as int);
        let ghost more = list@.take(i + 1);
        assert(more.drop_last() == here);
        assert(more.last() == list@[i as int]);
        assert(more =~= here.push(list@[i as int]));
        let binding = list[i];
        if holds_binding(&seen, binding) {
            if !holds_binding(&conflicts, binding) {
                conflicts.push(binding);
            }
            assert forall|b: HotkeyBinding| seen@.contains(b) <==> more.contains(b) by {
                if here.contains(b) {
                    let k = choose|k: int| 0 <= k < here.len() && here[k] == b;
                    assert(more[k] == b);
                }
                if more.contains(b) {
                    let k = choose|k: int| 0 <= k < more.len() && more[k] == b;
                    if k < here.len() {
                        assert(here[k] == b);
                    }
                }
            }
        } else {
            let ghost held = seen@;
            seen.push(binding);
            assert forall|b: HotkeyBinding| seen@.contains(b) <==> more.contains(b) by {
                assert(seen@[held.len() as int] == binding);
                assert(more[here.len() as int] == binding);
                if held.contains(b) {
                    let k = choose|k: int| 0 <= k < held.len() && held[k] == b;
                    assert(seen@[k] == b);
                }
                if here.contains(b) {
                    let k = choose|k: int| 0 <= k < here.len() && here[k] == b;
                    assert(more[k] == b);
                }
                if more.contains(b) {
                    let k = choose|k: int| 0 <= k < more.len() && more[k] == b;
                    if k < here.len() {
                        assert(here[k] == b);
                    }
                }
                if seen@.contains(b) {
                    let k = choose|k: int| 0 <= k < seen@.len() && seen@[k] == b;
                    if k < held.len() {
                        assert(held[k] == b);
                    }
                }
            }
        }
        i = i + 1;
    }
    assert(list@.take(list@.len() as int) =~= list@);
    conflicts
}

/// Bindings used more than once across slot keys and mission Stratagems.
pub fn binding_conflicts(settings: &LiveSettings) -> (r: Vec<HotkeyBinding>)
    ensures
        r@ == repeated(all_bindings(settings.slot_keys@, settings.bindings@)),
{
    let mut all: Vec<HotkeyBinding> = Vec::new();
    let mut i: usize = 0;
    while i < settings.slot_keys.len()
        invariant
            i <= settings.slot_keys@.len(),
            all@ == settings.slot_keys@.take(i as int),
        decreases settings.slot_keys@.len() - i,
    {
        all.push(settings.slot_keys[i]);
        i = i + 1;
    }
    let ghost entries = settings.bindings@;
    let mut k: usize = 0;
    assert(all@ =~= all_bindings(settings.slot_keys@, entries.take(0)));
    while k < settings.bindings.len()
        invariant
            entries == settings.bindings@,
            k <= entries.len(),
            all@ == all_bindings(settings.slot_keys@, entries.take(k as int)),
        decreases entries.len() - k,
    {
        all.push(*settings.bindings.value_at(k));
        assert(all@ =~= all_bindings(settings.slot_keys@, entries.take(k + 1)));
        k = k + 1;
    }
    assert(entries.take(entries.len() as int) =~= entries);
    find_repeated(&all)
}

proof fn lemma_repeated(list: Seq<HotkeyBinding>, binding: HotkeyBinding)
    ensures
        repeated(list).contains(binding) <==> exists|i: int, j: int|
            0 <= i < j < list.len() && #[trigger] list[i] == binding && #[trigger] list[j]
                == binding,
    decreases list.len(),
{
    if list.len() > 0 {
        let rest = list.drop_last();
        let last = list.last();
        lemma_repeated(rest, binding);
        if repeated(list).contains(binding) {
            if repeated(rest).contains(binding) {
                let (i, j) = choose|i: int, j: int|
                    0 <= i < j < rest.len() && #[trigger] rest[i] == binding && #[trigger] rest[j]
                        == binding;
                assert(list[i] == binding && list[j] == binding);
            } else {
                let k = choose|k: int|
                    0 <= k < repeated(list).len() && repeated(list)[k] == binding;
                if k < repeated(rest).len() {
                    assert(repeated(rest)[k] == binding);
                }
                let i = choose|i: int| 0 <= i < rest.len() && rest[i] == last;
                assert(list[i] == binding && list[list.len() - 1] == binding);
            }
        }
        if exists|i: int, j: int|
            0 <= i < j < list.len() && #[trigger] list[i] == binding && #[trigger] list[j]
                == binding {
            let (i, j) = choose|i: int, j: int|
                0 <= i < j < list.len() && #[trigger] list[i] == binding && #[trigger] list[j]
                    == binding;
            if j < rest.len() {
                assert(rest[i] == binding && rest[j] == binding);
                let k = choose|k: int|
                    0 <= k < repeated(rest).len() && repeated(rest)[k] == binding;
                assert(repeated(list)[k] == binding);
            } else {
                assert(rest[i] == binding);
                if repeated(rest).contains(last) {
                    let k = choose|k: int|
                        0 <= k < repeated(rest).len() && repeated(rest)[k] == last;
                    assert(repeated(list)[k] == binding);
                } else {
                    assert(repeated(list)[repeated(list).len() - 1] == binding);
                }
            }
        }
    }
}

/// A binding is in conflict exactly when it is used twice.
pub proof fn lemma_conflict_is_second_use(
    slot_keys: Seq<HotkeyBinding>,
    bindings: Seq<(Seq<char>, HotkeyBinding)>,
    binding: HotkeyBinding,
)
    ensures
        repeated(all_bindings(slot_keys, bindings)).contains(binding) <==> exists|i: int, j: int|
            0 <= i < j < all_bindings(slot_keys, bindings).len() && #[trigger] all_bindings(
                slot_keys,
                bindings,
            )[i] == binding && #[trigger] all_bindings(slot_keys, bindings)[j] == binding,
{
    lemma_repeated(all_bindings(slot_keys, bindings), binding);
}

/// What is asked of the window, and when: it starts hidden where that is wanted, a request to
/// show it brings it to the front, and closing it by hand is undone and minimizes it, all of
/// that unless the tool exits.
#[verifier::spinoff_prover]
#[verifier::rlimit(30)]
pub proof fn lemma_frame_requests(
    hides: bool,
    exit_requested: bool,
    show_requested: bool,
    close_requested: bool,
)
    ensures
        ({
            let asked = frame_requests(hides, exit_requested, show_requested, close_requested);
            let n = asked.len() as int;
            &&& hides ==> n > 0 && asked[0] == WindowRequest::Minimize
            &&& exit_requested ==> n > 0 && asked[n - 1] == WindowRequest::Close
            &&& asked.contains(WindowRequest::Show) <==> show_requested && !exit_requested
            &&& asked.contains(WindowRequest::Restore) <==> show_requested && !exit_requested
            &&& asked.contains(WindowRequest::Focus) <==> show_requested && !exit_requested
            &&& asked.contains(WindowRequest::CancelClose) <==> close_requested && !exit_requested
            &&& asked.contains(WindowRequest::Minimize) <==> hides || (close_requested
                && !exit_requested)
            &&& close_requested && !exit_requested ==> n >= 2 && asked[n - 1]
                == WindowRequest::Minimize && asked[n - 2] == WindowRequest::CancelClose
            &&& forall|i: int|
                0 <= i < n && #[trigger] asked[i] == WindowRequest::Show ==> 0 < i < n - 1
                    && asked[i - 1] == WindowRequest::Restore && asked[i + 1]
                    == WindowRequest::Focus
        }),
{
    let first = if hides {
        seq![WindowRequest::Minimize]
    } else {
        Seq::empty()
    };
    let asked = frame_requests(hides, exit_requested, show_requested, close_requested);
    let f = first.len() as int;
    if exit_requested {
        assert(asked =~= first + seq![WindowRequest::Close]);
    } else {
        let shown = if show_requested {
            seq![WindowRequest::Restore, WindowRequest::Show, WindowRequest::Focus]
        } else {
            Seq::empty()
        };
        let closed = if close_requested {
            seq![WindowRequest::CancelClose, WindowRequest::Minimize]
        } else {
            Seq::empty()
        };
        assert(asked =~= first + shown + closed);
        if show_requested {
            assert(asked[f] == WindowRequest::Restore);
            assert(asked[f + 1] == WindowRequest::Show);
            assert(asked[f + 2] == WindowRequest::Focus);
        }
        if close_requested {
            assert(asked[asked.len() - 2] == WindowRequest::CancelClose);
            assert(asked[asked.len() - 1] == WindowRequest::Minimize);
        }
    }
    if hides {
        assert(asked[0] == WindowRequest::Minimize);
    }
}

/// The age of a loadout is told in whole minutes, hours or days, in the largest of these of
/// which one has passed.
pub proof fn lemma_ago(then_unix: u64, now_unix: u64, count: nat)
    ensures
        now_unix < then_unix + 60 ==> ago_words(then_unix, now_unix) == "just now"@,
        1 <= count < 60 && then_unix + count * 60 <= now_unix < then_unix + (count + 1) * 60
            ==> ago_words(then_unix, now_unix) == decimal(count) + " min ago"@,
        1 <= count < 24 && then_unix + count * 3600 <= now_unix < then_unix + (count + 1) * 3600
            ==> ago_words(then_unix, now_unix) == decimal(count) + " h ago"@,
        1 <= count && then_unix + count * 86400 <= now_unix < then_unix + (count + 1) * 86400
            ==> ago_words(then_unix, now_unix) == decimal(count) + " d ago"@,
{
}

proof fn lemma_repeated_once(list: Seq<HotkeyBinding>)
    ensures
        forall|i: int, j: int|
            0 <= i < j < repeated(list).len() ==> (#[trigger] repeated(list)[i]) != (
            #[trigger] repeated(list)[j]),
    decreases list.len(),
{
    if list.len() > 0 {
        lemma_repeated_once(list.drop_last());
        let before = repeated(list.drop_last());
        let all = repeated(list);
        assert forall|i: int, j: int| 0 <= i < j < all.len() implies (#[trigger] all[i]) != (
        #[trigger] all[j]) by {
            assert(all[i] == before[i]);
            if j < before.len() {
                assert(all[j] == before[j]);
            } else {
                assert(before.contains(before[i]));
            }
        }
    }
}

/// What is in conflict is told once. All slot keys and all keys of mission Stratagems are
/// looked at for it.
pub proof fn lemma_conflicts_told_once(
    slot_keys: Seq<HotkeyBinding>,
    bindings: Seq<(Seq<char>, HotkeyBinding)>,
)
    ensures
        ({
            let all = all_bindings(slot_keys, bindings);
            let told = repeated(all);
            &&& forall|i: int, j: int|
                0 <= i < j < told.len() ==> (#[trigger] told[i]) != (#[trigger] told[j])
            &&& all.len() == slot_keys.len() + bindings.len()
            &&& forall|i: int| 0 <= i < slot_keys.len() ==> #[trigger] all[i] == slot_keys[i]
            &&& forall|i: int|
                0 <= i < bindings.len() ==> all[slot_keys.len() + i] == (#[trigger] bindings[i]).1
        }),
{
    lemma_repeated_once(all_bindings(slot_keys, bindings));
}

/// The key of a slot is in conflict exactly when another slot or a mission Stratagem has the
/// same.
#[verifier::spinoff_prover]
#[verifier::rlimit(30)]
pub proof fn lemma_slot_conflict(
    slot_keys: Seq<HotkeyBinding>,
    bindings: Seq<(Seq<char>, HotkeyBinding)>,
    slot: int,
)
    requires
        0 <= slot < slot_keys.len(),
    ensures
        repeated(all_bindings(slot_keys, bindings)).contains(slot_keys[slot]) <==> (exists|j: int|
            0 <= j < slot_keys.len() && j != slot && #[trigger] slot_keys[j] == slot_keys[slot])
            || (exists|b: int|
            0 <= b < bindings.len() && (#[trigger] bindings[b]).1 == slot_keys[slot]),
{
    let all = all_bindings(slot_keys, bindings);
    let key = slot_keys[slot];
    let n = slot_keys.len() as int;
    lemma_repeated(all, key);
    assert(all[slot] == key);
    if exists|j: int| 0 <= j < n && j != slot && #[trigger] slot_keys[j] == key {
        let j = choose|j: int| 0 <= j < n && j != slot && #[trigger] slot_keys[j] == key;
        assert(all[j] == key);
        if j < slot {
            assert(all[j] == key && all[slot] == key);
        }
    }
    if exists|b: int| 0 <= b < bindings.len() && (#[trigger] bindings[b]).1 == key {
        let b = choose|b: int| 0 <= b < bindings.len() && (#[trigger] bindings[b]).1 == key;
        assert(all[n + b] == key);
    }
    if repeated(all).contains(key) {
        let (i, j) = choose|i: int, j: int|
            0 <= i < j < all.len() && #[trigger] all[i] == key && #[trigger] all[j] == key;
        let other = if i == slot {
            j
        } else {
            i
        };
        if other < n {
            assert(slot_keys[other] == key);
        } else {
            assert(bindings[other - n].1 == key);
        }
    }
}

/// The key of a mission Stratagem is in conflict exactly when a slot or another mission
/// Stratagem has the same.
#[verifier::spinoff_prover]
#[verifier::rlimit(30)]
pub proof fn lemma_binding_conflict(
    slot_keys: Seq<HotkeyBinding>,
    bindings: Seq<(Seq<char>, HotkeyBinding)>,
    place: int,
)
    requires
        0 <= place < bindings.len(),
    ensures
        repeated(all_bindings(slot_keys, bindings)).contains(bindings[place].1) <==> (exists|
            j: int,
        |
            0 <= j < slot_keys.len() && #[trigger] slot_keys[j] == bindings[place].1) || (exists|
            b: int,
        |
            0 <= b < bindings.len() && b != place && (#[trigger] bindings[b]).1
                == bindings[place].1),
{
    let all = all_bindings(slot_keys, bindings);
    let key = bindings[place].1;
    let n = slot_keys.len() as int;
    lemma_repeated(all, key);
    assert(all[n + place] == key);
    if exists|j: int| 0 <= j < n && #[trigger] slot_keys[j] == key {
        let j = choose|j: int| 0 <= j < n && #[trigger] slot_keys[j] == key;
        assert(all[j] == key);
    }
    if exists|b: int| 0 <= b < bindings.len() && b != place && (#[trigger] bindings[b]).1 == key {
        let b = choose|b: int|
            0 <= b < bindings.len() && b != place && (#[trigger] bindings[b]).1 == key;
        assert(all[n + b] == key);
    }
    if repeated(all).contains(key) {
        let (i, j) = choose|i: int, j: int|
            0 <= i < j < all.len() && #[trigger] all[i] == key && #[trigger] all[j] == key;
        let other = if i == n + place {
            j
        } else {
            i
        };
        if other < n {
            assert(slot_keys[other] == key);
        } else {
            assert(bindings[other - n].1 == key);
        }
    }
}

/// The active loadout is shown by the name of its preset, followed by the label in brackets
/// where there is one that is more than blanks.
pub proof fn lemma_label_words(preset: Seq<char>, labels: Map<Seq<char>, String>)
    ensures
        labels.contains_key(preset) && trim(labels[preset]@).len() > 0 ==> label_words(
            preset,
            labels,
        ) == preset + " ("@ + labels[preset]@ + ")"@,
        !labels.contains_key(preset) || trim(labels[preset]@).len() == 0 ==> label_words(
            preset,
            labels,
        ) == preset,
{
}

/// The details of a Stratagem begin with its code, and tell its kind and its cooldown where
/// they are known.
pub proof fn lemma_details(entry: StratagemEntry)
    ensures
        entry.kind@.len() == 0 && entry.cooldown@.len() == 0 ==> details_words(entry) == arrows_of(
            entry.code@,
        ),
        entry.kind@.len() > 0 && entry.cooldown@.len() == 0 ==> details_words(entry) == arrows_of(
            entry.code@,
        ) + "\n"@ + entry.kind@,
        entry.kind@.len() == 0 && entry.cooldown@.len() > 0 ==> details_words(entry) == arrows_of(
            entry.code@,
        ) + "\nCooldown: "@ + entry.cooldown@,
        entry.kind@.len() > 0 && entry.cooldown@.len() > 0 ==> details_words(entry) == arrows_of(
            entry.code@,
        ) + "\n"@ + entry.kind@ + "\nCooldown: "@ + entry.cooldown@,
{
    assert(arrows_of(entry.code@) + Seq::<char>::empty() =~= arrows_of(entry.code@));
    assert(details_words(entry) =~= arrows_of(entry.code@) + (if entry.kind@.len() > 0 {
        "\n"@ + entry.kind@
    } else {
        Seq::empty()
    }) + (if entry.cooldown@.len() > 0 {
        "\nCooldown: "@ + entry.cooldown@
    } else {
        Seq::empty()
    }));
    let code = arrows_of(entry.code@);
    assert(code + ("\n"@ + entry.kind@) =~= code + "\n"@ + entry.kind@);
    assert(code + ("\nCooldown: "@ + entry.cooldown@) =~= code + "\nCooldown: "@
        + entry.cooldown@);
    assert(code + "\n"@ + entry.kind@ + ("\nCooldown: "@ + entry.cooldown@) =~= code + "\n"@
        + entry.kind@ + "\nCooldown: "@ + entry.cooldown@);
}

/// The status line tells the progress as the number of selected items and of all items.
pub proof fn lemma_status_words(text: Seq<char>, done: usize, total: usize)
    ensures
        status_words(text, None) == text,
        status_words(text, Some((done, total))) == text + "  "@ + decimal(done as nat) + "/"@
            + decimal(total as nat),
{
}

} // verus!
