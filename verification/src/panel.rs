//! The window for managing builds: what it shows, where its controls are, and what a press of a
//! button asks for.
//!
//! The window runs on a thread of its own. Loading a build is only queued there, and carried out
//! by the game's thread.

use vstd::prelude::*;

use crate::library::{
    active, active_of, binding, bound_to, care_enabled, ctrl_picker_enabled, entries, list,
    BuildEntry, CombatRecord, EntryState, LibraryState, State, StatsPreview,
};
use crate::text::{
    decimal, join, joined, push_decimal, same, text_or_none, texts, trim, trimmed,
};

verus! {

/// How many loads may wait.
pub const PENDING_LIMIT: usize = 32;

/// After how many frames the library is shown anew while the window is open.
pub const PUBLISH_EVERY_FRAMES: u32 = 30;

/// How many keys load a build.
pub const KEYS: usize = 4;

/// What the window asks of the game's thread.
pub struct Panel {
    /// The builds to load, by id.
    pub pending: Vec<String>,
    /// The messages to show.
    pub notices: Vec<String>,
    pub frame: u32,
}

/// Queues a build to load; more than a few are dropped.
pub fn queue_load(panel: &mut Panel, id: String)
    ensures
        texts(final(panel).pending@) == if old(panel).pending@.len() < PENDING_LIMIT {
            texts(old(panel).pending@).push(id@)
        } else {
            texts(old(panel).pending@)
        },
        old(panel).pending@.len() < 32 ==> final(panel).pending@.len() == old(panel).pending@.len()
            + 1,
        texts(final(panel).notices@) == texts(old(panel).notices@),
        final(panel).frame == old(panel).frame,
{
    if panel.pending.len() < PENDING_LIMIT {
        let ghost before = texts(panel.pending@);
        let ghost text = id@;
        panel.pending.push(id);
        assert(texts(panel.pending@) =~= before.push(text));
    }
}

/// Queues a message to show.
pub fn notice(panel: &mut Panel, message: String)
    ensures
        texts(final(panel).notices@) == texts(old(panel).notices@).push(message@),
        texts(final(panel).pending@) == texts(old(panel).pending@),
        final(panel).frame == old(panel).frame,
{
    let ghost before = texts(panel.notices@);
    let ghost text = message@;
    panel.notices.push(message);
    assert(texts(panel.notices@) =~= before.push(text));
}

/// What the game's thread does in one frame.
pub struct PanelWork {
    pub loads: Vec<String>,
    pub notices: Vec<String>,
    /// Whether to show the library anew afterwards.
    pub publish: bool,
}

/// Takes what was asked for since the last frame, in order. The library is shown anew after a
/// load, and every so many frames while the window is open.
pub fn poll(panel: &mut Panel, open: bool) -> (work: PanelWork)
    ensures
        texts(work.loads@) == texts(old(panel).pending@),
        texts(work.notices@) == texts(old(panel).notices@),
        work.publish == (old(panel).pending@.len() > 0 || (open && old(panel).frame
            % PUBLISH_EVERY_FRAMES == 0)),
        work.publish == (old(panel).pending@.len() > 0 || (open && old(panel).frame % 30 == 0)),
        final(panel).pending@.len() == 0,
        final(panel).notices@.len() == 0,
        final(panel).frame == if old(panel).frame == u32::MAX {
            0
        } else {
            old(panel).frame + 1
        },
{
    let periodic = open && panel.frame % PUBLISH_EVERY_FRAMES == 0;
    panel.frame = panel.frame.wrapping_add(1);
    let mut loads: Vec<String> = Vec::new();
    loads.append(&mut panel.pending);
    assert(loads@ =~= old(panel).pending@);
    let mut notices: Vec<String> = Vec::new();
    notices.append(&mut panel.notices);
    assert(notices@ =~= old(panel).notices@);
    let publish = periodic || loads.len() > 0;
    PanelWork { loads, notices, publish }
}

/// What F5 does to the window.
#[derive(Clone, Copy, Debug, PartialEq, Eq, Structural)]
pub enum Toggle {
    /// Ask the window to close.
    Close,
    /// The window is on its way.
    Ignore,
    /// Take the character's build and open the window.
    Open,
}

/// Decides what F5 does, given whether the window is open and whether its thread runs.
pub fn toggle_async(open: bool, running: bool) -> (toggle: Toggle)
    ensures
        toggle == if open {
            Toggle::Close
        } else if running {
            Toggle::Ignore
        } else {
            Toggle::Open
        },
{
    if open {
        Toggle::Close
    } else if running {
        Toggle::Ignore
    } else {
        Toggle::Open
    }
}

/// What the window shows.
pub struct ViewState {
    pub entries: Vec<BuildEntry>,
    /// The builds of the keys.
    pub bindings: Vec<Option<String>>,
    pub active: Option<String>,
    pub care: bool,
    pub ctrl_picker: bool,
    pub busy: bool,
    pub error: Option<String>,
    /// Grows with every change.
    pub revision: u64,
}

/// The same as plain values.
#[verifier::ext_equal]
pub struct ShownState {
    pub entries: Seq<EntryState>,
    pub bindings: Seq<Option<Seq<char>>>,
    pub active: Option<Seq<char>>,
    pub care: bool,
    pub ctrl_picker: bool,
    pub busy: bool,
    pub error: Option<Seq<char>>,
    pub revision: u64,
}

impl View for ViewState {
    type V = ShownState;

    open spec fn view(&self) -> ShownState {
        ShownState {
            entries: entries(self.entries@),
            bindings: crate::library::targets(self.bindings@),
            active: text_or_none(self.active),
            care: self.care,
            ctrl_picker: self.ctrl_picker,
            busy: self.busy,
            error: text_or_none(self.error),
            revision: self.revision,
        }
    }
}

impl ViewState {
    /// There is a place for the build of each key.
    pub open spec fn wf(&self) -> bool {
        self.bindings@.len() == KEYS
    }

    /// Nothing is shown yet.
    pub fn new() -> (view: Self)
        ensures
            view.wf(),
            view@ == (ShownState {
                entries: seq![],
                bindings: seq![None, None, None, None],
                active: None,
                care: false,
                ctrl_picker: false,
                busy: false,
                error: None,
                revision: 0,
            }),
    {
        let mut bindings: Vec<Option<String>> = Vec::new();
        bindings.push(None);
        bindings.push(None);
        bindings.push(None);
        bindings.push(None);
        let view = ViewState {
            entries: Vec::new(),
            bindings,
            active: None,
            care: false,
            ctrl_picker: false,
            busy: false,
            error: None,
            revision: 0,
        };
        assert(view@.entries =~= seq![]);
        assert(view@.bindings =~= seq![None, None, None, None]);
        view
    }
}

/// The revision after another one.
pub open spec fn next_revision(revision: u64) -> u64 {
    if revision == u64::MAX {
        0
    } else {
        (revision + 1) as u64
    }
}

/// What is shown of a library.
pub open spec fn shown(
    view: ShownState,
    state: LibraryState,
    busy: bool,
    error: Option<Seq<char>>,
) -> ShownState {
    ShownState {
        entries: state.builds,
        bindings: Seq::new(KEYS as nat, |i: int| bound_to(state, i)),
        active: active_of(state),
        care: state.care_enabled,
        ctrl_picker: state.ctrl_picker_enabled,
        busy,
        error,
        revision: next_revision(view.revision),
    }
}

/// Shows the library as it is: `busy` tells whether a job runs, and stays where it is `None`.
pub fn publish_state(view: &mut ViewState, state: &State, busy: Option<bool>, error: Option<String>)
    ensures
        final(view)@ == shown(
            old(view)@,
            state@,
            match busy {
                Some(busy) => busy,
                None => old(view).busy,
            },
            text_or_none(error),
        ),
        final(view).wf(),
{
    let mut bindings: Vec<Option<String>> = Vec::new();
    let mut key: usize = 0;
    while key < KEYS
        invariant
            key <= KEYS,
            bindings@.len() == key,
            forall|i: int|
                0 <= i < key ==> text_or_none(#[trigger] bindings@[i]) == bound_to(state@, i),
        decreases KEYS - key,
    {
        bindings.push(binding(Some(state), key));
        key = key + 1;
    }
    assert(crate::library::targets(bindings@) =~= Seq::new(
        KEYS as nat,
        |i: int| bound_to(state@, i),
    ));
    view.entries = list(state);
    view.bindings = bindings;
    view.active = active(Some(state));
    view.care = care_enabled(Some(state));
    view.ctrl_picker = ctrl_picker_enabled(Some(state));
    match busy {
        Some(busy) => {
            view.busy = busy;
        },
        None => {},
    }
    view.error = error;
    view.revision = view.revision.wrapping_add(1);
}

/// Shows that the library could not be read: nothing of it, and what went wrong where that is to
/// be told.
pub fn publish_failure(view: &mut ViewState, busy: bool, error: Option<String>)
    ensures
        final(view)@ == (ShownState {
            entries: seq![],
            bindings: seq![None, None, None, None],
            active: None,
            care: false,
            ctrl_picker: false,
            busy,
            error: text_or_none(error),
            revision: next_revision(old(view)@.revision),
        }),
        final(view).wf(),
{
    let revision: u64 = view.revision.wrapping_add(1);
    let mut empty = ViewState::new();
    empty.busy = busy;
    empty.error = error;
    empty.revision = revision;
    *view = empty;
}

/// The keys that load a build, as texts.
pub open spec fn key_names(bindings: Seq<Option<Seq<char>>>, id: Seq<char>, n: int) -> Seq<Seq<char>>
    decreases n,
{
    if n <= 0 {
        seq![]
    } else {
        let rest = key_names(bindings, id, n - 1);
        if bindings[n - 1] == Some(id) {
            rest.push("F"@ + decimal(n))
        } else {
            rest
        }
    }
}

/// The name of a build with the keys that load it.
pub open spec fn title_of(view: ShownState, entry: EntryState, gap: Seq<char>) -> Seq<char> {
    let keys = key_names(view.bindings, entry.id, KEYS as int);
    if keys.len() == 0 {
        entry.name
    } else {
        entry.name + gap + "["@ + joined(keys, "/"@) + "]"@
    }
}

fn is_bound(binding: &Option<String>, id: &str) -> (bound: bool)
    ensures
        bound == (text_or_none(*binding) == Some(id@)),
{
    match binding {
        Some(text) => same(text.as_str(), id),
        None => false,
    }
}

/// The name of a build with the keys that load it, after a gap.
pub fn entry_title(view: &ViewState, entry: &BuildEntry, gap: &str) -> (title: String)
    requires
        view.wf(),
    ensures
        title@ == title_of(view@, entry@, gap@),
{
    let mut keys: Vec<String> = Vec::new();
    let mut key: usize = 0;
    assert(texts(keys@) =~= seq![]);
    while key < KEYS
        invariant
            key <= KEYS,
            view.wf(),
            texts(keys@) == key_names(view@.bindings, entry@.id, key as int),
        decreases KEYS - key,
    {
        assert(view@.bindings[key as int] == text_or_none(view.bindings@[key as int]));
        if is_bound(&view.bindings[key], entry.id.as_str()) {
            let ghost before = texts(keys@);
            let mut name = "F".to_owned();
            push_decimal(&mut name, key as u64 + 1);
            keys.push(name);
            assert(texts(keys@) =~= before.push("F"@ + decimal(key + 1)));
        }
        key = key + 1;
    }
    assert(texts(keys@).len() == keys@.len());
    let mut title = entry.name.clone();
    if keys.len() > 0 {
        let joined_keys = join(&keys, "/");
        title.append(gap);
        title.append("[");
        title.append(joined_keys.as_str());
        title.append("]");
    }
    title
}

/// Some words of the interface.
pub struct BindingWords<'a> {
    pub unbound: &'a str,
    pub missing: &'a str,
    pub syncing: &'a str,
    pub refresh_failed: &'a str,
}

/// What is said of the build of a key.
pub open spec fn bound_name(view: ShownState, words: BindingWords, key: int) -> Seq<char> {
    match view.bindings[key] {
        Some(id) => {
            let at = crate::library::position(view.entries, id);
            if at < view.entries.len() {
                view.entries[at].name
            } else {
                words.missing@ + " "@ + id
            }
        },
        None => words.unbound@,
    }
}

/// What is said of a key.
pub open spec fn key_text(view: ShownState, words: BindingWords, key: int, sign: Seq<char>) -> Seq<char> {
    "F"@ + decimal(key + 1) + sign + bound_name(view, words, key)
}

/// What is said of all keys.
pub open spec fn keys_text(view: ShownState, words: BindingWords, sign: Seq<char>) -> Seq<char> {
    key_text(view, words, 0, sign) + "    "@ + key_text(view, words, 1, sign) + "    "@ + key_text(
        view,
        words,
        2,
        sign,
    ) + "    "@ + key_text(view, words, 3, sign)
}

fn position_of(builds: &Vec<BuildEntry>, id: &str) -> (at: usize)
    ensures
        at == crate::library::position(entries(builds@), id@),
        at <= builds@.len(),
{
    let mut at: usize = 0;
    while at < builds.len()
        invariant
            at <= builds@.len(),
            crate::library::position(entries(builds@), id@) == crate::library::position_from(
                entries(builds@),
                id@,
                at as int,
            ),
        decreases builds@.len() - at,
    {
        if same(builds[at].id.as_str(), id) {
            assert(entries(builds@)[at as int].id == id@);
            return at;
        }
        at = at + 1;
    }
    at
}

fn describe_key(view: &ViewState, words: &BindingWords, key: usize, sign: &str) -> (text: String)
    requires
        view.wf(),
        key < KEYS,
    ensures
        text@ == key_text(view@, *words, key as int, sign@),
{
    let mut text = "F".to_owned();
    push_decimal(&mut text, key as u64 + 1);
    text.append(sign);
    let ghost head = text@;
    assert(view@.bindings[key as int] == text_or_none(view.bindings@[key as int]));
    match &view.bindings[key] {
        Some(id) => {
            let at: usize = position_of(&view.entries, id.as_str());
            if at < view.entries.len() {
                assert(view@.entries[at as int] == view.entries@[at as int]@);
                text.append(view.entries[at].name.as_str());
            } else {
                text.append(words.missing);
                text.append(" ");
                text.append(id.as_str());
                assert(text@ =~= head + (words.missing@ + " "@ + id@));
            }
        },
        None => {
            text.append(words.unbound);
        },
    }
    text
}

/// Says which build each key loads.
pub fn describe_keys(view: &ViewState, words: &BindingWords, sign: &str) -> (text: String)
    requires
        view.wf(),
    ensures
        text@ == keys_text(view@, *words, sign@),
{
    let second = describe_key(view, words, 1, sign);
    let third = describe_key(view, words, 2, sign);
    let fourth = describe_key(view, words, 3, sign);
    let mut text = describe_key(view, words, 0, sign);
    text.append("    ");
    text.append(second.as_str());
    text.append("    ");
    text.append(third.as_str());
    text.append("    ");
    text.append(fourth.as_str());
    text
}

/// The line under the list of builds.
pub open spec fn binding_line(view: ShownState, words: BindingWords) -> Seq<char> {
    let keys = keys_text(view, words, "："@);
    let with_busy = if view.busy {
        keys + "    "@ + words.syncing@
    } else {
        keys
    };
    match view.error {
        Some(error) => with_busy + "    "@ + words.refresh_failed@ + error,
        None => with_busy,
    }
}

/// The line under the list of builds: which build each key loads, whether a job runs, and what
/// went wrong.
pub fn binding_text(view: &ViewState, words: &BindingWords) -> (text: String)
    requires
        view.wf(),
    ensures
        text@ == binding_line(view@, *words),
{
    let mut text = describe_keys(view, words, "：");
    if view.busy {
        text.append("    ");
        text.append(words.syncing);
    }
    match &view.error {
        Some(error) => {
            text.append("    ");
            text.append(words.refresh_failed);
            text.append(error.as_str());
        },
        None => {},
    }
    text
}

/// What changes in the window when it shows the library anew.
pub struct Refresh {
    /// The rows of the list.
    pub rows: Vec<String>,
    /// The row to select.
    pub selected: Option<usize>,
    /// Whether the field for the name takes the name of the selected build.
    pub update_name: bool,
}

/// The build that is selected after the list was filled anew: the one that was asked for, or the
/// one that was selected, or the active one.
pub open spec fn wanted_of(
    preferred: Option<Seq<char>>,
    current: Option<Seq<char>>,
    active_id: Option<Seq<char>>,
) -> Option<Seq<char>> {
    if preferred is Some {
        preferred
    } else if current is Some {
        current
    } else {
        active_id
    }
}

/// The last of the first `n` rows with an id.
pub open spec fn row_of(builds: Seq<EntryState>, id: Option<Seq<char>>, n: int) -> Option<usize>
    decreases n,
{
    if n <= 0 || id is None {
        None
    } else if builds[n - 1].id == id->0 {
        Some((n - 1) as usize)
    } else {
        row_of(builds, id, n - 1)
    }
}

fn is_id(id: &Option<String>, text: &str) -> (equal: bool)
    ensures
        equal == (text_or_none(*id) == Some(text@)),
{
    is_bound(id, text)
}

/// Fills the list anew, unless this revision is shown already: `preferred` is the build that was
/// asked for, `current` the one that is selected.
pub fn refresh_ui(
    view: &ViewState,
    shown_revision: &mut u64,
    preferred: Option<String>,
    current: Option<String>,
) -> (refresh: Option<Refresh>)
    requires
        view.wf(),
    ensures
        *final(shown_revision) == view@.revision,
        match refresh {
            Some(refresh) => {
                let wanted = wanted_of(
                    text_or_none(preferred),
                    text_or_none(current),
                    view@.active,
                );
                &&& *old(shown_revision) != view@.revision
                &&& refresh.rows@.len() == view@.entries.len()
                &&& forall|i: int|
                    0 <= i < refresh.rows@.len() ==> (#[trigger] refresh.rows@[i])@ == title_of(
                        view@,
                        view@.entries[i],
                        "    "@,
                    )
                &&& refresh.selected == row_of(view@.entries, wanted, view@.entries.len() as int)
                &&& refresh.update_name == (preferred is Some || wanted is None)
            },
            None => *old(shown_revision) == view@.revision,
        },
{
    if *shown_revision == view.revision {
        return None;
    }
    *shown_revision = view.revision;
    let force = preferred.is_some();
    let wanted: Option<String> = match preferred {
        Some(id) => Some(id),
        None => match current {
            Some(id) => Some(id),
            None => match &view.active {
                Some(id) => Some(id.clone()),
                None => None,
            },
        },
    };
    let mut rows: Vec<String> = Vec::new();
    let mut selected: Option<usize> = None;
    let mut at: usize = 0;
    while at < view.entries.len()
        invariant
            view.wf(),
            at <= view.entries@.len(),
            rows@.len() == at,
            forall|i: int|
                0 <= i < at ==> (#[trigger] rows@[i])@ == title_of(
                    view@,
                    view@.entries[i],
                    "    "@,
                ),
            selected == row_of(view@.entries, text_or_none(wanted), at as int),
        decreases view.entries@.len() - at,
    {
        let entry = &view.entries[at];
        assert(view@.entries[at as int] == entry@);
        rows.push(entry_title(view, entry, "    "));
        if is_id(&wanted, entry.id.as_str()) {
            selected = Some(at);
        }
        at = at + 1;
    }
    assert(view@.entries.len() == view.entries@.len());
    let update_name = force || wanted.is_none();
    Some(Refresh { rows, selected, update_name })
}

/// The build of a selected row, where the list has one there.
pub fn selected_entry(displayed: &Vec<BuildEntry>, row: i64) -> (at: Option<usize>)
    ensures
        at == if 0 <= row < displayed@.len() {
            Some(row as usize)
        } else {
            None::<usize>
        },
{
    if row < 0 || row as u64 >= displayed.len() as u64 {
        None
    } else {
        Some(row as usize)
    }
}

/// Notes which build the details are shown of. Tells whether it is another one, whose details
/// are then to be shown, and which is then the active one.
pub fn sync_details_if_selection_changed(previous: &mut Option<String>, selected: &Option<String>) -> (changed:
    bool)
    ensures
        changed == (text_or_none(*old(previous)) != text_or_none(*selected)),
        text_or_none(*final(previous)) == text_or_none(*selected),
{
    let equal = match (&*previous, selected) {
        (Some(a), Some(b)) => same(a.as_str(), b.as_str()),
        (None, None) => true,
        _ => false,
    };
    if equal {
        return false;
    }
    *previous = match selected {
        Some(id) => Some(id.clone()),
        None => None,
    };
    true
}

/// The nine attributes in the order in which they are shown.
pub open spec fn stat_value(stats: StatsPreview, i: int) -> u32 {
    if i == 0 {
        stats.level
    } else if i == 1 {
        stats.vigor
    } else if i == 2 {
        stats.mind
    } else if i == 3 {
        stats.endurance
    } else if i == 4 {
        stats.strength
    } else if i == 5 {
        stats.dexterity
    } else if i == 6 {
        stats.intelligence
    } else if i == 7 {
        stats.faith
    } else {
        stats.arcane
    }
}

fn nth_stat(stats: &StatsPreview, i: usize) -> (value: u32)
    ensures
        value == stat_value(*stats, i as int),
{
    if i == 0 {
        stats.level
    } else if i == 1 {
        stats.vigor
    } else if i == 2 {
        stats.mind
    } else if i == 3 {
        stats.endurance
    } else if i == 4 {
        stats.strength
    } else if i == 5 {
        stats.dexterity
    } else if i == 6 {
        stats.intelligence
    } else if i == 7 {
        stats.faith
    } else {
        stats.arcane
    }
}

/// A label and a number, or a dash where there is none.
pub open spec fn cell_text(label: Seq<char>, gap: Seq<char>, value: Option<u32>) -> Seq<char> {
    match value {
        Some(value) => label + gap + decimal(value as int),
        None => label + gap + "-"@,
    }
}

/// A label and a number, or a dash where there is none.
pub fn cell(label: &str, gap: &str, value: Option<u32>) -> (text: String)
    ensures
        text@ == cell_text(label@, gap@, value),
{
    let mut text = label.to_owned();
    text.append(gap);
    match value {
        Some(value) => {
            push_decimal(&mut text, value as u64);
        },
        None => {
            text.append("-");
        },
    }
    text
}

/// The cells of the nine attributes.
pub fn stat_texts(labels: &Vec<String>, stats: &Option<StatsPreview>, gap: &str) -> (cells: Vec<String>)
    requires
        labels@.len() == 9,
    ensures
        cells@.len() == 9,
        forall|i: int|
            0 <= i < 9 ==> (#[trigger] cells@[i])@ == cell_text(
                labels@[i]@,
                gap@,
                match *stats {
                    Some(stats) => Some(stat_value(stats, i)),
                    None => None,
                },
            ),
{
    let mut cells: Vec<String> = Vec::new();
    let mut at: usize = 0;
    while at < 9
        invariant
            at <= 9,
            labels@.len() == 9,
            cells@.len() == at,
            forall|i: int|
                0 <= i < at ==> (#[trigger] cells@[i])@ == cell_text(
                    labels@[i]@,
                    gap@,
                    match *stats {
                        Some(stats) => Some(stat_value(stats, i)),
                        None => None,
                    },
                ),
        decreases 9 - at,
    {
        let value: Option<u32> = match stats {
            Some(stats) => Some(nth_stat(stats, at)),
            None => None,
        };
        cells.push(cell(labels[at].as_str(), gap, value));
        at = at + 1;
    }
    cells
}

/// The three cells of the record: `rate` is the share of duels won, as a text.
pub fn combat_texts(wins: &str, losses: &str, winrate: &str, record: Option<(CombatRecord, String)>) -> (cells:
    (String, String, String))
    ensures
        match record {
            Some((record, rate)) => {
                &&& cells.0@ == cell_text(wins@, "    "@, Some(record.kills))
                &&& cells.1@ == cell_text(losses@, "    "@, Some(record.deaths))
                &&& cells.2@ == winrate@ + "    "@ + rate@
            },
            None => {
                &&& cells.0@ == cell_text(wins@, "    "@, None)
                &&& cells.1@ == cell_text(losses@, "    "@, None)
                &&& cells.2@ == cell_text(winrate@, "    "@, None)
            },
        },
{
    match record {
        Some((record, rate)) => {
            let mut share = winrate.to_owned();
            share.append("    ");
            share.append(rate.as_str());
            (
                cell(wins, "    ", Some(record.kills)),
                cell(losses, "    ", Some(record.deaths)),
                share,
            )
        },
        None => (
            cell(wins, "    ", None),
            cell(losses, "    ", None),
            cell(winrate, "    ", None),
        ),
    }
}

/// The buttons of the window.
#[derive(Clone, Copy, Debug, PartialEq, Eq, Structural)]
pub enum Button {
    Create,
    Overwrite,
    Load,
    Rename,
    Delete,
    /// Bind the key with this place, from 0.
    Bind(usize),
    Care,
    CtrlPicker,
    Language,
    ClearCombat,
    Refresh,
    Close,
}

/// What a press of a button asks for. The texts are the id of a build, and its name where it is
/// asked about.
pub enum Command {
    Nothing,
    NoSelection,
    /// The character's build could not be taken.
    CaptureFailed,
    NameEmpty,
    Create,
    Overwrite(String),
    Load(String),
    Rename(String, String),
    ConfirmDelete(String, String),
    Bind(usize, String),
    SetCare(bool),
    SetCtrlPicker(bool),
    CycleLanguage,
    ConfirmClearCombat(String, String),
    Refresh,
    Close,
}

/// The same as plain values.
pub enum CommandState {
    Nothing,
    NoSelection,
    CaptureFailed,
    NameEmpty,
    Create,
    Overwrite(Seq<char>),
    Load(Seq<char>),
    Rename(Seq<char>, Seq<char>),
    ConfirmDelete(Seq<char>, Seq<char>),
    Bind(usize, Seq<char>),
    SetCare(bool),
    SetCtrlPicker(bool),
    CycleLanguage,
    ConfirmClearCombat(Seq<char>, Seq<char>),
    Refresh,
    Close,
}

impl View for Command {
    type V = CommandState;

    open spec fn view(&self) -> CommandState {
        match self {
            Command::Nothing => CommandState::Nothing,
            Command::NoSelection => CommandState::NoSelection,
            Command::CaptureFailed => CommandState::CaptureFailed,
            Command::NameEmpty => CommandState::NameEmpty,
            Command::Create => CommandState::Create,
            Command::Overwrite(id) => CommandState::Overwrite(id@),
            Command::Load(id) => CommandState::Load(id@),
            Command::Rename(id, name) => CommandState::Rename(id@, name@),
            Command::ConfirmDelete(id, name) => CommandState::ConfirmDelete(id@, name@),
            Command::Bind(key, id) => CommandState::Bind(*key, id@),
            Command::SetCare(enabled) => CommandState::SetCare(*enabled),
            Command::SetCtrlPicker(enabled) => CommandState::SetCtrlPicker(*enabled),
            Command::CycleLanguage => CommandState::CycleLanguage,
            Command::ConfirmClearCombat(id, name) => CommandState::ConfirmClearCombat(id@, name@),
            Command::Refresh => CommandState::Refresh,
            Command::Close => CommandState::Close,
        }
    }
}

/// What a press of a button asks for, given the selected build, the text in the field for the
/// name, whether the character's build could be taken, and the two settings.
pub open spec fn pressed(
    button: Button,
    selected: Option<EntryState>,
    name: Seq<char>,
    captured: bool,
    care: bool,
    ctrl_picker: bool,
) -> CommandState {
    match button {
        Button::Create => if captured {
            CommandState::Create
        } else {
            CommandState::CaptureFailed
        },
        Button::Care => CommandState::SetCare(!care),
        Button::CtrlPicker => CommandState::SetCtrlPicker(!ctrl_picker),
        Button::Language => CommandState::CycleLanguage,
        Button::Refresh => CommandState::Refresh,
        Button::Close => CommandState::Close,
        _ => match selected {
            None => CommandState::NoSelection,
            Some(entry) => match button {
                Button::Overwrite => if captured {
                    CommandState::Overwrite(entry.id)
                } else {
                    CommandState::CaptureFailed
                },
                Button::Load => CommandState::Load(entry.id),
                Button::Rename => if trimmed(name).len() == 0 {
                    CommandState::NameEmpty
                } else {
                    CommandState::Rename(entry.id, trimmed(name))
                },
                Button::Delete => CommandState::ConfirmDelete(entry.id, entry.name),
                Button::Bind(key) => CommandState::Bind(key, entry.id),
                Button::ClearCombat => CommandState::ConfirmClearCombat(entry.id, entry.name),
                _ => CommandState::Nothing,
            },
        },
    }
}

/// The plain values of a build, if there is one.
pub open spec fn entry_state(entry: Option<&BuildEntry>) -> Option<EntryState> {
    match entry {
        Some(entry) => Some(entry@),
        None => None,
    }
}

/// Decides what a press of a button asks for.
pub fn press(
    button: Button,
    selected: Option<&BuildEntry>,
    name: &str,
    captured: bool,
    care: bool,
    ctrl_picker: bool,
) -> (command: Command)
    ensures
        command@ == pressed(button, entry_state(selected), name@, captured, care, ctrl_picker),
{
    match button {
        Button::Create => {
            return if captured {
                Command::Create
            } else {
                Command::CaptureFailed
            };
        },
        Button::Care => {
            return Command::SetCare(!care);
        },
        Button::CtrlPicker => {
            return Command::SetCtrlPicker(!ctrl_picker);
        },
        Button::Language => {
            return Command::CycleLanguage;
        },
        Button::Refresh => {
            return Command::Refresh;
        },
        Button::Close => {
            return Command::Close;
        },
        _ => {},
    }
    let entry = match selected {
        Some(entry) => entry,
        None => {
            return Command::NoSelection;
        },
    };
    match button {
        Button::Overwrite => if captured {
            Command::Overwrite(entry.id.clone())
        } else {
            Command::CaptureFailed
        },
        Button::Load => Command::Load(entry.id.clone()),
        Button::Rename => {
            let inner = trim(name);
            if inner.unicode_len() == 0 {
                Command::NameEmpty
            } else {
                Command::Rename(entry.id.clone(), inner)
            }
        },
        Button::Delete => Command::ConfirmDelete(entry.id.clone(), entry.name.clone()),
        Button::Bind(key) => Command::Bind(key, entry.id.clone()),
        Button::ClearCombat => Command::ConfirmClearCombat(entry.id.clone(), entry.name.clone()),
        _ => Command::Nothing,
    }
}

/// The number of the list among the controls.
pub const ID_LIST: i32 = 101;

pub const ID_NAME: i32 = 102;

pub const ID_SAVE: i32 = 110;

pub const ID_LOAD: i32 = 111;

pub const ID_RENAME: i32 = 112;

pub const ID_DELETE: i32 = 113;

pub const ID_OVERWRITE: i32 = 114;

pub const ID_BIND_F1: i32 = 121;

pub const ID_BIND_F2: i32 = 122;

pub const ID_BIND_F3: i32 = 123;

pub const ID_BIND_F4: i32 = 124;

pub const ID_CARE: i32 = 131;

pub const ID_CTRL_PICKER: i32 = 132;

pub const ID_REFRESH: i32 = 141;

pub const ID_CLOSE: i32 = 142;

pub const ID_CLEAR_COMBAT: i32 = 143;

pub const ID_LANG: i32 = 144;

pub const ID_TITLE_LABEL: i32 = 201;

pub const ID_SECTION_BUILDS: i32 = 202;

pub const ID_SECTION_STATS: i32 = 203;

pub const ID_SECTION_COMBAT: i32 = 204;

pub const ID_SECTION_NAME: i32 = 205;

/// What the system says when another row was selected.
pub const SELECTION_CHANGED: u16 = 1;

/// What the system says when a button was clicked.
pub const CLICKED: u16 = 0;

/// The number of a control and what happened to it, of what the system says.
pub fn command_parts(word: usize) -> (parts: (i32, u16))
    ensures
        parts.0 == word % 0x1_0000,
        parts.1 == word / 0x1_0000 % 0x1_0000,
{
    ((word % 0x1_0000) as i32, (word / 0x1_0000 % 0x1_0000) as u16)
}

/// The button with a number.
pub open spec fn button_of(id: i32) -> Option<Button> {
    if id == ID_SAVE {
        Some(Button::Create)
    } else if id == ID_OVERWRITE {
        Some(Button::Overwrite)
    } else if id == ID_LOAD {
        Some(Button::Load)
    } else if id == ID_RENAME {
        Some(Button::Rename)
    } else if id == ID_DELETE {
        Some(Button::Delete)
    } else if ID_BIND_F1 <= id <= ID_BIND_F4 {
        Some(Button::Bind((id - ID_BIND_F1) as usize))
    } else if id == ID_CARE {
        Some(Button::Care)
    } else if id == ID_CTRL_PICKER {
        Some(Button::CtrlPicker)
    } else if id == ID_LANG {
        Some(Button::Language)
    } else if id == ID_CLEAR_COMBAT {
        Some(Button::ClearCombat)
    } else if id == ID_REFRESH {
        Some(Button::Refresh)
    } else if id == ID_CLOSE {
        Some(Button::Close)
    } else {
        None
    }
}

fn find_button(id: i32) -> (button: Option<Button>)
    ensures
        button == button_of(id),
{
    if id == ID_SAVE {
        Some(Button::Create)
    } else if id == ID_OVERWRITE {
        Some(Button::Overwrite)
    } else if id == ID_LOAD {
        Some(Button::Load)
    } else if id == ID_RENAME {
        Some(Button::Rename)
    } else if id == ID_DELETE {
        Some(Button::Delete)
    } else if ID_BIND_F1 <= id && id <= ID_BIND_F4 {
        Some(Button::Bind((id - ID_BIND_F1) as usize))
    } else if id == ID_CARE {
        Some(Button::Care)
    } else if id == ID_CTRL_PICKER {
        Some(Button::CtrlPicker)
    } else if id == ID_LANG {
        Some(Button::Language)
    } else if id == ID_CLEAR_COMBAT {
        Some(Button::ClearCombat)
    } else if id == ID_REFRESH {
        Some(Button::Refresh)
    } else if id == ID_CLOSE {
        Some(Button::Close)
    } else {
        None
    }
}

/// What an event of a control comes to.
pub enum Event {
    Nothing,
    /// Another row was selected.
    Selection,
    Command(Command),
}

/// Decides what an event of a control comes to.
pub fn on_command(
    id: i32,
    notification: u16,
    selected: Option<&BuildEntry>,
    name: &str,
    captured: bool,
    care: bool,
    ctrl_picker: bool,
) -> (event: Event)
    ensures
        if id == ID_LIST && notification == SELECTION_CHANGED {
            event is Selection
        } else if notification == CLICKED && button_of(id) is Some {
            event matches Event::Command(command) && command@ == pressed(
                button_of(id)->0,
                entry_state(selected),
                name@,
                captured,
                care,
                ctrl_picker,
            )
        } else {
            event is Nothing
        },
        event is Selection <==> id == 101 && notification == 1,
        event is Command ==> notification == 0,
{
    if id == ID_LIST && notification == SELECTION_CHANGED {
        return Event::Selection;
    }
    if notification != CLICKED {
        return Event::Nothing;
    }
    match find_button(id) {
        Some(button) => Event::Command(press(button, selected, name, captured, care, ctrl_picker)),
        None => Event::Nothing,
    }
}

/// What asks for a selected build does nothing without one.
pub proof fn nothing_happens_without_a_selection(
    button: Button,
    name: Seq<char>,
    captured: bool,
    care: bool,
    ctrl_picker: bool,
)
    ensures
        ({
            let command = pressed(button, None, name, captured, care, ctrl_picker);
            !(command is Overwrite || command is Load || command is Rename || command
                is ConfirmDelete || command is Bind || command is ConfirmClearCombat)
        }),
{
}

/// The texts of the interface that controls show.
#[derive(Clone, Copy, Debug, PartialEq, Eq, Structural)]
pub enum Word {
    PanelTitle,
    SectionBuilds,
    SectionStats,
    SectionCombat,
    SectionName,
    BtnNew,
    BtnOverwrite,
    BtnLoad,
    BtnRename,
    BtnDelete,
    BtnBind(usize),
    BtnClearCombat,
    BtnRefresh,
    BtnClose,
    LangButton,
    CareOn,
    CareOff,
    CtrlPickerOn,
    CtrlPickerOff,
}

/// The text of a label.
pub fn label_word(id: i32) -> (word: Option<Word>)
    ensures
        word == if id == ID_TITLE_LABEL {
            Some(Word::PanelTitle)
        } else if id == ID_SECTION_BUILDS {
            Some(Word::SectionBuilds)
        } else if id == ID_SECTION_STATS {
            Some(Word::SectionStats)
        } else if id == ID_SECTION_COMBAT {
            Some(Word::SectionCombat)
        } else if id == ID_SECTION_NAME {
            Some(Word::SectionName)
        } else {
            None::<Word>
        },
{
    if id == ID_TITLE_LABEL {
        Some(Word::PanelTitle)
    } else if id == ID_SECTION_BUILDS {
        Some(Word::SectionBuilds)
    } else if id == ID_SECTION_STATS {
        Some(Word::SectionStats)
    } else if id == ID_SECTION_COMBAT {
        Some(Word::SectionCombat)
    } else if id == ID_SECTION_NAME {
        Some(Word::SectionName)
    } else {
        None
    }
}

/// The text of a button, given the two settings.
pub open spec fn word_of(button: Button, care: bool, ctrl_picker: bool) -> Word {
    match button {
        Button::Create => Word::BtnNew,
        Button::Overwrite => Word::BtnOverwrite,
        Button::Load => Word::BtnLoad,
        Button::Rename => Word::BtnRename,
        Button::Delete => Word::BtnDelete,
        Button::Bind(key) => Word::BtnBind(key),
        Button::Care => if care {
            Word::CareOn
        } else {
            Word::CareOff
        },
        Button::CtrlPicker => if ctrl_picker {
            Word::CtrlPickerOn
        } else {
            Word::CtrlPickerOff
        },
        Button::Language => Word::LangButton,
        Button::ClearCombat => Word::BtnClearCombat,
        Button::Refresh => Word::BtnRefresh,
        Button::Close => Word::BtnClose,
    }
}

/// The text of the button with a number, given the two settings.
pub fn button_word(id: i32, care: bool, ctrl_picker: bool) -> (word: Option<Word>)
    ensures
        word == match button_of(id) {
            Some(button) => Some(word_of(button, care, ctrl_picker)),
            None => None,
        },
{
    match find_button(id) {
        Some(Button::Create) => Some(Word::BtnNew),
        Some(Button::Overwrite) => Some(Word::BtnOverwrite),
        Some(Button::Load) => Some(Word::BtnLoad),
        Some(Button::Rename) => Some(Word::BtnRename),
        Some(Button::Delete) => Some(Word::BtnDelete),
        Some(Button::Bind(key)) => Some(Word::BtnBind(key)),
        Some(Button::Care) => Some(
            if care {
                Word::CareOn
            } else {
                Word::CareOff
            },
        ),
        Some(Button::CtrlPicker) => Some(
            if ctrl_picker {
                Word::CtrlPickerOn
            } else {
                Word::CtrlPickerOff
            },
        ),
        Some(Button::Language) => Some(Word::LangButton),
        Some(Button::ClearCombat) => Some(Word::BtnClearCombat),
        Some(Button::Refresh) => Some(Word::BtnRefresh),
        Some(Button::Close) => Some(Word::BtnClose),
        None => None,
    }
}

/// The size of the window's inside, before scaling.
pub const CLIENT_W: i32 = 700;

pub const CLIENT_H: i32 = 738;

/// The space at the sides.
pub const MARGIN: i32 = 18;

/// The width between the sides.
pub const CONTENT_W: i32 = 664;

/// The space between controls.
pub const GAP: i32 = 8;

/// The height of a button.
pub const BTN_H: i32 = 34;

/// The height of the list, and of one of its rows.
pub const LIST_H: i32 = 215;

pub const LIST_ITEM_H: i32 = 30;

/// The sizes of the letters.
pub const UI_FONT_PT: i32 = 14;

pub const TITLE_FONT_PT: i32 = 17;

/// The dots per inch at which nothing is scaled.
pub const PLAIN_DPI: u32 = 96;

/// The kinds of controls.
#[derive(Clone, Copy, Debug, PartialEq, Eq, Structural)]
pub enum ControlKind {
    /// The label with the large letters.
    Title,
    Label,
    Button,
    List,
    /// A frame with a value.
    Card,
    Edit,
}

/// A control and where it is.
#[derive(Clone, Copy, Debug, PartialEq, Eq, Structural)]
pub struct Control {
    pub kind: ControlKind,
    pub id: Option<i32>,
    pub x: i32,
    pub y: i32,
    pub width: i32,
    pub height: i32,
}

/// A button.
pub open spec fn button_at(id: i32, x: int, y: int, width: int) -> Control {
    Control {
        kind: ControlKind::Button,
        id: Some(id),
        x: x as i32,
        y: y as i32,
        width: width as i32,
        height: BTN_H,
    }
}

/// A label.
pub open spec fn label_at(kind: ControlKind, id: Option<i32>, x: int, y: int, width: int, height: int) -> Control {
    Control {
        kind,
        id,
        x: x as i32,
        y: y as i32,
        width: width as i32,
        height: height as i32,
    }
}

/// A card in one of three columns.
pub open spec fn card_at(column: int, y: int) -> Control {
    label_at(ControlKind::Card, None, MARGIN + column * (216 + GAP), y, 216, 40)
}

/// The button number `i` of the row that works on builds.
pub open spec fn build_button(i: int) -> Control {
    button_at(
        if i == 0 {
            ID_SAVE
        } else if i == 1 {
            ID_OVERWRITE
        } else if i == 2 {
            ID_LOAD
        } else if i == 3 {
            ID_RENAME
        } else {
            ID_DELETE
        },
        MARGIN + i * (126 + GAP),
        568,
        126,
    )
}

/// The controls down to the label over the attributes.
pub open spec fn head_controls() -> Seq<Control> {
    seq![
        label_at(ControlKind::Title, Some(ID_TITLE_LABEL), MARGIN as int, 12, CONTENT_W - 170, 28),
        button_at(ID_LANG, CLIENT_W - MARGIN - 160, 10, 160),
        label_at(
            ControlKind::Label,
            Some(ID_SECTION_BUILDS),
            MARGIN as int,
            46,
            CONTENT_W as int,
            20,
        ),
        label_at(
            ControlKind::List,
            Some(ID_LIST),
            MARGIN as int,
            68,
            CONTENT_W as int,
            LIST_H as int,
        ),
        label_at(
            ControlKind::Label,
            Some(ID_SECTION_STATS),
            MARGIN as int,
            296,
            CONTENT_W as int,
            20,
        ),
    ]
}

/// The controls around the name.
pub open spec fn name_controls() -> Seq<Control> {
    seq![
        label_at(ControlKind::Label, Some(ID_SECTION_NAME), MARGIN as int, 532, 54, 24),
        label_at(ControlKind::Edit, Some(ID_NAME), MARGIN + 56, 528, CONTENT_W - 56, 30),
    ]
}

/// The controls at the bottom.
pub open spec fn foot_controls() -> Seq<Control> {
    seq![
        label_at(ControlKind::Label, None, MARGIN as int, 650, CONTENT_W as int, 24),
        button_at(ID_CARE, MARGIN as int, 680, 180),
        button_at(ID_CTRL_PICKER, MARGIN + 188, 680, 180),
        button_at(ID_CLEAR_COMBAT, MARGIN + 376, 680, 150),
        button_at(ID_REFRESH, CLIENT_W - MARGIN - 220 - GAP, 680, 110),
        button_at(ID_CLOSE, CLIENT_W - MARGIN - 110, 680, 110),
    ]
}

/// All controls of the window, before scaling, in the order in which they are made.
pub open spec fn layout() -> Seq<Control> {
    head_controls() + Seq::new(9, |i: int| card_at(i % 3, 318 + i / 3 * 46)) + seq![
        label_at(
            ControlKind::Label,
            Some(ID_SECTION_COMBAT),
            MARGIN as int,
            458,
            CONTENT_W as int,
            20,
        ),
    ] + Seq::new(3, |i: int| card_at(i, 480)) + name_controls() + Seq::new(
        5,
        |i: int| build_button(i),
    ) + Seq::new(
        4,
        |i: int| button_at((ID_BIND_F1 + i) as i32, MARGIN + i * (160 + GAP), 610, 160),
    ) + foot_controls()
}

fn make_label(kind: ControlKind, id: Option<i32>, x: i32, y: i32, width: i32, height: i32) -> (control: Control)
    ensures
        control == label_at(kind, id, x as int, y as int, width as int, height as int),
{
    Control { kind, id, x, y, width, height }
}

fn make_button(id: i32, x: i32, y: i32, width: i32) -> (control: Control)
    ensures
        control == button_at(id, x as int, y as int, width as int),
{
    Control { kind: ControlKind::Button, id: Some(id), x, y, width, height: BTN_H }
}

fn push_cards(controls: &mut Vec<Control>, count: u32, y: i32)
    requires
        count <= 9,
        0 <= y <= 1000,
    ensures
        final(controls)@ == old(controls)@ + Seq::new(
            count as nat,
            |i: int| card_at(i % 3, y + i / 3 * 46),
        ),
{
    let ghost start = controls@;
    let mut i: u32 = 0;
    while i < count
        invariant
            i <= count <= 9,
            0 <= y <= 1000,
            controls@ == start + Seq::new(i as nat, |i: int| card_at(i % 3, y + i / 3 * 46)),
        decreases count - i,
    {
        let column: i32 = (i % 3) as i32;
        let row: i32 = (i / 3) as i32;
        controls.push(
            make_label(ControlKind::Card, None, MARGIN + column * 224, y + row * 46, 216, 40),
        );
        i = i + 1;
        assert(controls@ =~= start + Seq::new(i as nat, |i: int| card_at(i % 3, y + i / 3 * 46)));
    }
    assert(controls@ =~= start + Seq::new(count as nat, |i: int| card_at(i % 3, y + i / 3 * 46)));
}

fn push_head(controls: &mut Vec<Control>)
    ensures
        final(controls)@ == old(controls)@ + head_controls(),
{
    let ghost start = controls@;
    controls.push(
        make_label(ControlKind::Title, Some(ID_TITLE_LABEL), MARGIN, 12, CONTENT_W - 170, 28),
    );
    controls.push(make_button(ID_LANG, CLIENT_W - MARGIN - 160, 10, 160));
    controls.push(
        make_label(ControlKind::Label, Some(ID_SECTION_BUILDS), MARGIN, 46, CONTENT_W, 20),
    );
    controls.push(make_label(ControlKind::List, Some(ID_LIST), MARGIN, 68, CONTENT_W, LIST_H));
    controls.push(
        make_label(ControlKind::Label, Some(ID_SECTION_STATS), MARGIN, 296, CONTENT_W, 20),
    );
    assert(controls@ =~= start + head_controls());
}

fn push_build_buttons(controls: &mut Vec<Control>)
    ensures
        final(controls)@ == old(controls)@ + Seq::new(5, |i: int| build_button(i)),
{
    let ghost start = controls@;
    controls.push(make_button(ID_SAVE, MARGIN, 568, 126));
    controls.push(make_button(ID_OVERWRITE, MARGIN + (126 + GAP), 568, 126));
    controls.push(make_button(ID_LOAD, MARGIN + 2 * (126 + GAP), 568, 126));
    controls.push(make_button(ID_RENAME, MARGIN + 3 * (126 + GAP), 568, 126));
    controls.push(make_button(ID_DELETE, MARGIN + 4 * (126 + GAP), 568, 126));
    assert(controls@ =~= start + Seq::new(5, |i: int| build_button(i)));
}

fn push_bind_buttons(controls: &mut Vec<Control>)
    ensures
        final(controls)@ == old(controls)@ + Seq::new(
            4,
            |i: int| button_at((ID_BIND_F1 + i) as i32, MARGIN + i * (160 + GAP), 610, 160),
        ),
{
    let ghost start = controls@;
    controls.push(make_button(ID_BIND_F1, MARGIN, 610, 160));
    controls.push(make_button(ID_BIND_F2, MARGIN + (160 + GAP), 610, 160));
    controls.push(make_button(ID_BIND_F3, MARGIN + 2 * (160 + GAP), 610, 160));
    controls.push(make_button(ID_BIND_F4, MARGIN + 3 * (160 + GAP), 610, 160));
    assert(controls@ =~= start + Seq::new(
        4,
        |i: int| button_at((ID_BIND_F1 + i) as i32, MARGIN + i * (160 + GAP), 610, 160),
    ));
}

fn push_foot(controls: &mut Vec<Control>)
    ensures
        final(controls)@ == old(controls)@ + foot_controls(),
{
    let ghost start = controls@;
    controls.push(make_label(ControlKind::Label, None, MARGIN, 650, CONTENT_W, 24));
    controls.push(make_button(ID_CARE, MARGIN, 680, 180));
    controls.push(make_button(ID_CTRL_PICKER, MARGIN + 188, 680, 180));
    controls.push(make_button(ID_CLEAR_COMBAT, MARGIN + 376, 680, 150));
    controls.push(make_button(ID_REFRESH, CLIENT_W - MARGIN - 220 - GAP, 680, 110));
    controls.push(make_button(ID_CLOSE, CLIENT_W - MARGIN - 110, 680, 110));
    assert(controls@ =~= start + foot_controls());
}

/// All controls of the window, before scaling.
pub fn build_controls() -> (controls: Vec<Control>)
    ensures
        controls@ == layout(),
{
    let mut controls: Vec<Control> = Vec::new();
    push_head(&mut controls);
    assert(controls@ =~= head_controls());
    push_cards(&mut controls, 9, 318);
    controls.push(
        make_label(ControlKind::Label, Some(ID_SECTION_COMBAT), MARGIN, 458, CONTENT_W, 20),
    );
    let ghost over_record = controls@;
    push_cards(&mut controls, 3, 480);
    assert(Seq::new(3, |i: int| card_at(i % 3, 480 + i / 3 * 46)) =~= Seq::new(
        3,
        |i: int| card_at(i, 480),
    ));
    controls.push(make_label(ControlKind::Label, Some(ID_SECTION_NAME), MARGIN, 532, 54, 24));
    controls.push(
        make_label(ControlKind::Edit, Some(ID_NAME), MARGIN + 56, 528, CONTENT_W - 56, 30),
    );
    assert(controls@ =~= over_record + Seq::new(3, |i: int| card_at(i, 480)) + name_controls());
    push_build_buttons(&mut controls);
    push_bind_buttons(&mut controls);
    push_foot(&mut controls);
    assert(controls@ =~= layout());
    controls
}

/// A length at a resolution.
pub open spec fn scale(value: int, dpi: u32) -> int {
    value * dpi / 96
}

/// A length at a resolution.
pub fn scaled(value: i32, dpi: u32) -> (length: i32)
    requires
        0 <= value,
        value * dpi <= i32::MAX,
    ensures
        length == scale(value as int, dpi),
{
    let product: i64 = value as i64 * dpi as i64;
    (product / 96) as i32
}

/// A control at a resolution.
pub open spec fn placed(control: Control, dpi: u32) -> Control {
    Control {
        x: scale(control.x as int, dpi) as i32,
        y: scale(control.y as int, dpi) as i32,
        width: scale(control.width as int, dpi) as i32,
        height: scale(control.height as int, dpi) as i32,
        ..control
    }
}

/// Whether a control is inside the window, before scaling.
pub open spec fn is_inside(control: Control) -> bool {
    0 <= control.x && 0 <= control.width && control.x + control.width <= CLIENT_W && 0
        <= control.y && 0 <= control.height && control.y + control.height <= CLIENT_H
}

/// A control at a resolution.
pub fn place(control: &Control, dpi: u32) -> (scaled_control: Control)
    requires
        is_inside(*control),
        CLIENT_H * dpi <= i32::MAX,
    ensures
        scaled_control == placed(*control, dpi),
{
    proof {
        products_fit(control.x as int, dpi);
        products_fit(control.y as int, dpi);
        products_fit(control.width as int, dpi);
        products_fit(control.height as int, dpi);
    }
    Control {
        kind: control.kind,
        id: control.id,
        x: scaled(control.x, dpi),
        y: scaled(control.y, dpi),
        width: scaled(control.width, dpi),
        height: scaled(control.height, dpi),
    }
}

proof fn products_fit(value: int, dpi: u32)
    requires
        0 <= value <= CLIENT_H,
        CLIENT_H * dpi <= i32::MAX,
    ensures
        0 <= value * dpi <= i32::MAX,
{
    assert(0 <= value * dpi <= CLIENT_H * dpi) by (nonlinear_arith)
        requires
            0 <= value <= CLIENT_H,
            dpi >= 0,
    ;
}

/// Every control is inside the window.
pub proof fn controls_are_inside(i: int)
    requires
        0 <= i < layout().len(),
    ensures
        is_inside(layout()[i]),
{
    if 5 <= i < 14 {
        let k = i - 5;
        assert(layout()[i] == card_at(k % 3, 318 + k / 3 * 46));
    }
}

/// Scaled controls are inside the scaled window.
pub proof fn scaled_controls_are_inside(control: Control, dpi: u32)
    requires
        is_inside(control),
    ensures
        0 <= scale(control.x as int, dpi),
        0 <= scale(control.y as int, dpi),
        scale(control.x as int, dpi) + scale(control.width as int, dpi) <= scale(
            CLIENT_W as int,
            dpi,
        ),
        scale(control.y as int, dpi) + scale(control.height as int, dpi) <= scale(
            CLIENT_H as int,
            dpi,
        ),
{
    scale_adds(control.x as int, control.width as int, CLIENT_W as int, dpi);
    scale_adds(control.y as int, control.height as int, CLIENT_H as int, dpi);
}

proof fn scale_adds(start: int, length: int, limit: int, dpi: u32)
    requires
        0 <= start,
        0 <= length,
        start + length <= limit,
    ensures
        0 <= scale(start, dpi),
        scale(start, dpi) + scale(length, dpi) <= scale(limit, dpi),
{
    assert(0 <= start * dpi && 0 <= length * dpi && start * dpi + length * dpi <= limit * dpi)
        by (nonlinear_arith)
        requires
            0 <= start,
            0 <= length,
            start + length <= limit,
            dpi >= 0,
    ;
}

/// Where a window of a size begins on a screen: in the middle, and not before its edge.
pub fn centered(screen: i32, size: i32) -> (start: i32)
    requires
        0 <= size,
    ensures
        start == if screen > size {
            (screen - size) / 2
        } else {
            0
        },
{
    if screen > size {
        (screen - size) / 2
    } else {
        0
    }
}

/// The height of a row of the list at a resolution: at least enough to read.
pub fn list_item_height(dpi: u32) -> (height: i32)
    requires
        LIST_ITEM_H * dpi <= i32::MAX,
    ensures
        height == if scale(LIST_ITEM_H as int, dpi) < 22 {
            22
        } else {
            scale(LIST_ITEM_H as int, dpi)
        },
{
    let height: i32 = scaled(LIST_ITEM_H, dpi);
    if height < 22 {
        22
    } else {
        height
    }
}

/// The height of letters at a resolution, as the system wants it: negative.
pub fn font_height(points: i32, dpi: u32) -> (height: i32)
    requires
        0 <= points,
        points * dpi <= i32::MAX,
    ensures
        height == -scale(points as int, dpi),
{
    -scaled(points, dpi)
}

/// The resolution that the window is made for: that of the system, and no less than the plain
/// one.
pub fn panel_dpi(system: u32) -> (dpi: u32)
    ensures
        dpi == if system < PLAIN_DPI {
            PLAIN_DPI
        } else {
            system
        },
{
    if system < PLAIN_DPI {
        PLAIN_DPI
    } else {
        system
    }
}

/// What is pressed with a build selected is done to that very build: it is overwritten, where the
/// character could be read, loaded, renamed to what the field holds, or bound to the key; its
/// removal and that of its record are asked about under its name. A switch asks for what it is
/// not.
pub proof fn buttons_work_on_the_selected_build(
    entry: EntryState,
    key: usize,
    name: Seq<char>,
    care: bool,
    ctrl_picker: bool,
)
    ensures
        ({
            let on = |button: Button, captured: bool|
                pressed(button, Some(entry), name, captured, care, ctrl_picker);
            &&& on(Button::Overwrite, true) == CommandState::Overwrite(entry.id)
            &&& on(Button::Overwrite, false) is CaptureFailed
            &&& on(Button::Create, true) is Create
            &&& on(Button::Create, false) is CaptureFailed
            &&& forall|captured: bool| #[trigger]
                on(Button::Load, captured) == CommandState::Load(entry.id)
            &&& forall|captured: bool| #[trigger]
                on(Button::Delete, captured) == CommandState::ConfirmDelete(entry.id, entry.name)
            &&& forall|captured: bool| #[trigger]
                on(Button::ClearCombat, captured) == CommandState::ConfirmClearCombat(
                    entry.id,
                    entry.name,
                )
            &&& forall|captured: bool| #[trigger]
                on(Button::Bind(key), captured) == CommandState::Bind(key, entry.id)
            &&& forall|captured: bool| #[trigger]
                on(Button::Rename, captured) == if trimmed(name).len() == 0 {
                    CommandState::NameEmpty
                } else {
                    CommandState::Rename(entry.id, trimmed(name))
                }
            &&& forall|captured: bool| #[trigger]
                on(Button::Care, captured) == CommandState::SetCare(!care)
            &&& forall|captured: bool| #[trigger]
                on(Button::CtrlPicker, captured) == CommandState::SetCtrlPicker(!ctrl_picker)
            &&& forall|captured: bool| #[trigger] on(Button::Language, captured) is CycleLanguage
            &&& forall|captured: bool| #[trigger] on(Button::Refresh, captured) is Refresh
            &&& forall|captured: bool| #[trigger] on(Button::Close, captured) is Close
        }),
{
}

/// Every button answers to a number of its own, the four that bind a key to four in a row.
pub proof fn buttons_have_their_numbers(id: i32)
    ensures
        button_of(id) == Some(Button::Create) <==> id == 110,
        button_of(id) == Some(Button::Load) <==> id == 111,
        button_of(id) == Some(Button::Rename) <==> id == 112,
        button_of(id) == Some(Button::Delete) <==> id == 113,
        button_of(id) == Some(Button::Overwrite) <==> id == 114,
        121 <= id <= 124 ==> button_of(id) == Some(Button::Bind((id - 121) as usize)),
        button_of(id) matches Some(Button::Bind(key)) ==> id == 121 + key && key < 4,
        button_of(id) == Some(Button::Care) <==> id == 131,
        button_of(id) == Some(Button::CtrlPicker) <==> id == 132,
        button_of(id) == Some(Button::Refresh) <==> id == 141,
        button_of(id) == Some(Button::Close) <==> id == 142,
        button_of(id) == Some(Button::ClearCombat) <==> id == 143,
        button_of(id) == Some(Button::Language) <==> id == 144,
{
}

/// What is shown is the library: its builds, the builds of its first four keys, its active build
/// and its switches; and it is told apart from what was shown before.
pub proof fn the_window_shows_the_library(
    view: ShownState,
    state: LibraryState,
    busy: bool,
    error: Option<Seq<char>>,
    key: int,
)
    requires
        0 <= key < 4,
    ensures
        ({
            let now = shown(view, state, busy, error);
            &&& now.entries == state.builds
            &&& now.bindings.len() == 4
            &&& now.bindings[key] == (if key < state.bindings.len() {
                state.bindings[key]
            } else {
                None
            })
            &&& now.active is Some ==> now.active == state.active
            &&& state.active matches Some(id) ==> (now.active is Some <==> exists|i: int|
                0 <= i < state.builds.len() && (#[trigger] state.builds[i]).id == id)
            &&& now.care == state.care_enabled
            &&& now.ctrl_picker == state.ctrl_picker_enabled
            &&& now.busy == busy
            &&& now.error == error
            &&& now.revision != view.revision
        }),
{
}

/// The keys that are named beside a build are those that it is bound to, `F1` for the first.
pub proof fn titles_name_the_keys(bindings: Seq<Option<Seq<char>>>, id: Seq<char>, n: int)
    requires
        0 <= n <= bindings.len(),
    ensures
        forall|k: int|
            0 <= k < n && #[trigger] bindings[k] == Some(id) ==> key_names(bindings, id, n).contains(
                "F"@ + decimal(k + 1),
            ),
        forall|j: int|
            0 <= j < key_names(bindings, id, n).len() ==> exists|k: int|
                0 <= k < n && #[trigger] bindings[k] == Some(id) && (#[trigger] key_names(
                    bindings,
                    id,
                    n,
                )[j]) == "F"@ + decimal(k + 1),
        (forall|k: int| 0 <= k < n ==> #[trigger] bindings[k] != Some(id)) ==> key_names(
            bindings,
            id,
            n,
        ).len() == 0,
    decreases n,
{
    if n > 0 {
        titles_name_the_keys(bindings, id, n - 1);
        let rest = key_names(bindings, id, n - 1);
        let all = key_names(bindings, id, n);
        assert forall|k: int| 0 <= k < n && #[trigger] bindings[k] == Some(id) implies all.contains(
            "F"@ + decimal(k + 1),
        ) by {
            if k < n - 1 {
                let j = choose|j: int| 0 <= j < rest.len() && rest[j] == "F"@ + decimal(k + 1);
                assert(all[j] == rest[j]);
            } else {
                assert(all[all.len() - 1] == "F"@ + decimal(n));
            }
        }
        assert forall|j: int| 0 <= j < all.len() implies exists|k: int|
            0 <= k < n && #[trigger] bindings[k] == Some(id) && (#[trigger] all[j]) == "F"@
                + decimal(k + 1) by {
            if j < rest.len() {
                assert(all[j] == rest[j]);
                let k = choose|k: int|
                    0 <= k < n - 1 && #[trigger] bindings[k] == Some(id) && rest[j] == "F"@
                        + decimal(k + 1);
                assert(bindings[k] == Some(id));
            } else {
                assert(bindings[n - 1] == Some(id));
            }
        }
    }
}

/// The row that is selected is one of the wanted build, and some row is where it is listed. The
/// build that was asked for comes before the one that was selected, and that before the active
/// one.
pub proof fn the_wanted_row_is_selected(
    builds: Seq<EntryState>,
    preferred: Option<Seq<char>>,
    current: Option<Seq<char>>,
    active_id: Option<Seq<char>>,
    n: int,
)
    requires
        0 <= n <= builds.len() <= usize::MAX,
    ensures
        ({
            let wanted = wanted_of(preferred, current, active_id);
            let row = row_of(builds, wanted, n);
            &&& preferred is Some ==> wanted == preferred
            &&& preferred is None && current is Some ==> wanted == current
            &&& preferred is None && current is None ==> wanted == active_id
            &&& row matches Some(at) ==> at < n && Some(builds[at as int].id) == wanted
            &&& forall|i: int|
                0 <= i < n && Some((#[trigger] builds[i]).id) == wanted ==> row is Some
        }),
    decreases n,
{
    if n > 0 {
        the_wanted_row_is_selected(builds, preferred, current, active_id, n - 1);
    }
}

/// The attributes are shown in this order: level, vigor, mind, endurance, strength, dexterity,
/// intelligence, faith, arcane.
pub proof fn attributes_are_shown_in_order(stats: StatsPreview)
    ensures
        Seq::new(9, |i: int| stat_value(stats, i)) == seq![
            stats.level,
            stats.vigor,
            stats.mind,
            stats.endurance,
            stats.strength,
            stats.dexterity,
            stats.intelligence,
            stats.faith,
            stats.arcane,
        ],
{
}

/// A switch shows what it is, and every other button its own words.
pub proof fn switches_show_their_state(ctrl_picker: bool, care: bool)
    ensures
        word_of(Button::Care, true, ctrl_picker) is CareOn,
        word_of(Button::Care, false, ctrl_picker) is CareOff,
        word_of(Button::CtrlPicker, care, true) is CtrlPickerOn,
        word_of(Button::CtrlPicker, care, false) is CtrlPickerOff,
        word_of(Button::Create, care, ctrl_picker) is BtnNew,
        word_of(Button::Overwrite, care, ctrl_picker) is BtnOverwrite,
        word_of(Button::Load, care, ctrl_picker) is BtnLoad,
        word_of(Button::Rename, care, ctrl_picker) is BtnRename,
        word_of(Button::Delete, care, ctrl_picker) is BtnDelete,
        word_of(Button::ClearCombat, care, ctrl_picker) is BtnClearCombat,
        word_of(Button::Refresh, care, ctrl_picker) is BtnRefresh,
        word_of(Button::Close, care, ctrl_picker) is BtnClose,
        word_of(Button::Language, care, ctrl_picker) is LangButton,
        forall|key: usize| #[trigger]
            word_of(Button::Bind(key), care, ctrl_picker) == Word::BtnBind(key),
{
}

/// What is said of a key is the name of the build that it is bound to, where there is one; a
/// binding to a build that is gone is told apart from no binding.
pub proof fn keys_tell_their_build(view: ShownState, words: BindingWords, key: int, i: int)
    requires
        0 <= key < view.bindings.len(),
    ensures
        view.bindings[key] is None ==> bound_name(view, words, key) == words.unbound@,
        0 <= i < view.entries.len() && view.bindings[key] == Some(view.entries[i].id) && (forall|
            j: int,
        |
            0 <= j < i ==> (#[trigger] view.entries[j]).id != view.entries[i].id) ==> bound_name(
            view,
            words,
            key,
        ) == view.entries[i].name,
        view.bindings[key] is Some && (forall|j: int|
            0 <= j < view.entries.len() ==> Some((#[trigger] view.entries[j]).id)
                != view.bindings[key]) ==> bound_name(view, words, key) == words.missing@ + " "@
            + view.bindings[key]->0,
{
    if let Some(id) = view.bindings[key] {
        crate::library::position_is_first(view.entries, id, 0);
        let at = crate::library::position(view.entries, id);
        if 0 <= i < view.entries.len() && view.entries[i].id == id && at < i {
            assert(view.entries[at].id == id);
        }
    }
}

/// The line under the list begins with the keys, and ends with what went wrong, where anything did.
pub proof fn the_line_ends_with_the_error(view: ShownState, words: BindingWords)
    ensures
        ({
            let line = binding_line(view, words);
            let keys = keys_text(view, words, "："@);
            &&& keys.is_prefix_of(line)
            &&& view.error is None && !view.busy ==> line == keys
            &&& view.error is None && view.busy ==> words.syncing@.is_suffix_of(line)
            &&& view.error matches Some(error) ==> error.is_suffix_of(line)
        }),
{
    let line = binding_line(view, words);
    let keys = keys_text(view, words, "："@);
    assert(keys =~= line.subrange(0, keys.len() as int));
    if view.error is None && view.busy {
        let n = words.syncing@.len() as int;
        assert(words.syncing@ =~= line.subrange(line.len() - n, line.len() as int));
    }
    if let Some(error) = view.error {
        assert(error =~= line.subrange(line.len() - error.len(), line.len() as int));
    }
}

/// Lengths are as they are given at ninety-six dots per inch, grow with the resolution, and double
/// with it.
pub proof fn lengths_follow_the_resolution(value: int, dpi: u32, finer: u32)
    requires
        0 <= value,
        dpi <= finer,
    ensures
        scale(value, 96) == value,
        scale(value, 192) == 2 * value,
        scale(value, 48) == value / 2,
        scale(value, dpi) <= scale(value, finer),
{
    assert(value * dpi <= value * finer) by (nonlinear_arith)
        requires
            0 <= value,
            dpi <= finer,
    ;
}

/// Every button that does anything is in the window, under its number.
pub proof fn every_button_is_placed(id: i32)
    requires
        button_of(id) is Some,
    ensures
        exists|i: int|
            0 <= i < layout().len() && (#[trigger] layout()[i]).id == Some(id)
                && layout()[i].kind is Button,
{
    let at = if id == ID_LANG {
        1int
    } else if id == ID_SAVE {
        20
    } else if id == ID_OVERWRITE {
        21
    } else if id == ID_LOAD {
        22
    } else if id == ID_RENAME {
        23
    } else if id == ID_DELETE {
        24
    } else if ID_BIND_F1 <= id <= ID_BIND_F4 {
        25 + (id - ID_BIND_F1)
    } else if id == ID_CARE {
        30
    } else if id == ID_CTRL_PICKER {
        31
    } else if id == ID_CLEAR_COMBAT {
        32
    } else if id == ID_REFRESH {
        33
    } else {
        34
    };
    assert(layout()[at].id == Some(id) && layout()[at].kind is Button);
}

/// A title begins with the name of its build. Without a key it is the name; with one it ends with
/// that key in brackets.
pub proof fn titles_begin_with_the_name(view: ShownState, entry: EntryState, gap: Seq<char>, key: int)
    requires
        view.bindings.len() == 4,
        0 <= key < 4,
    ensures
        entry.name.is_prefix_of(title_of(view, entry, gap)),
        (forall|k: int| 0 <= k < 4 ==> #[trigger] view.bindings[k] != Some(entry.id)) ==> title_of(
            view,
            entry,
            gap,
        ) == entry.name,
        (forall|k: int| 0 <= k < 4 ==> (#[trigger] view.bindings[k] == Some(entry.id) <==> k == key))
            ==> title_of(view, entry, gap) == entry.name + gap + "["@ + ("F"@ + decimal(key + 1))
            + "]"@,
{
    let title = title_of(view, entry, gap);
    assert(entry.name =~= title.subrange(0, entry.name.len() as int));
    titles_name_the_keys(view.bindings, entry.id, 4);
    if forall|k: int| 0 <= k < 4 ==> (#[trigger] view.bindings[k] == Some(entry.id) <==> k == key) {
        reveal_with_fuel(key_names, 5);
        assert(view.bindings[0] == Some(entry.id) <==> 0 == key);
        assert(view.bindings[1] == Some(entry.id) <==> 1 == key);
        assert(view.bindings[2] == Some(entry.id) <==> 2 == key);
        assert(view.bindings[3] == Some(entry.id) <==> 3 == key);
        assert(key_names(view.bindings, entry.id, 4) =~= seq!["F"@ + decimal(key + 1)]);
    }
}

} // verus!
