//! The panel, the record and the picker over the game's picture.

use vstd::prelude::*;

use crate::i18n::Lang;
use crate::library::{
    entries, position, position_from, position_is_first, BuildEntry, CombatRecord, EntryState,
    StatsPreview,
};
use crate::panel::{entry_title, title_of, ShownState, ViewState};
use crate::text::{
    chars_of, decimal, push_decimal, same, says, text_of, text_or_none, texts, the_middle_is_said,
};

verus! {

/// The attribute that stands out in a build.
#[derive(Clone, Copy, Debug, PartialEq, Eq, Structural)]
pub enum DomStat {
    Str,
    Dex,
    Int,
    Fai,
    Arc,
    Unknown,
}

/// The place of an attribute in the order in which they are looked at.
pub open spec fn rank(dom: DomStat) -> int {
    match dom {
        DomStat::Str => 0,
        DomStat::Dex => 1,
        DomStat::Int => 2,
        DomStat::Fai => 3,
        DomStat::Arc => 4,
        DomStat::Unknown => 5,
    }
}

/// Whether none of the five attributes is higher.
pub open spec fn is_top(s: StatsPreview, value: u32) -> bool {
    value >= s.strength && value >= s.dexterity && value >= s.intelligence && value >= s.faith
        && value >= s.arcane
}

/// The attribute that stands out: the first of the five than which none is higher.
pub open spec fn standing_out(stats: Option<StatsPreview>) -> DomStat {
    match stats {
        Some(s) => if is_top(s, s.strength) {
            DomStat::Str
        } else if is_top(s, s.dexterity) {
            DomStat::Dex
        } else if is_top(s, s.intelligence) {
            DomStat::Int
        } else if is_top(s, s.faith) {
            DomStat::Fai
        } else {
            DomStat::Arc
        },
        None => DomStat::Unknown,
    }
}

/// The attribute that stands out: the highest of the five, the first one of equal ones; `Unknown`
/// for a build without attributes.
pub fn tile_from_stats(stats: &Option<StatsPreview>) -> (dom: DomStat)
    ensures
        dom == standing_out(*stats),
{
    let s = match stats {
        Some(s) => s,
        None => {
            return DomStat::Unknown;
        },
    };
    let mut best: u32 = s.strength;
    let mut dom = DomStat::Str;
    if s.dexterity > best {
        best = s.dexterity;
        dom = DomStat::Dex;
    }
    if s.intelligence > best {
        best = s.intelligence;
        dom = DomStat::Int;
    }
    if s.faith > best {
        best = s.faith;
        dom = DomStat::Fai;
    }
    if s.arcane > best {
        dom = DomStat::Arc;
    }
    dom
}

/// The first character of a name; a question mark where there is none.
pub open spec fn first_letter(name: Option<Seq<char>>) -> Seq<char> {
    match name {
        Some(name) if name.len() > 0 => seq![name[0]],
        _ => "?"@,
    }
}

/// The sign of an attribute: the first character of its name in the language of the interface.
/// `names` are those of the five that can stand out.
pub fn dom_letter(dom: DomStat, names: &Vec<String>) -> (letter: String)
    requires
        names@.len() == 5,
    ensures
        letter@ == first_letter(
            if dom == DomStat::Unknown {
                None
            } else {
                Some(names@[rank(dom)]@)
            },
        ),
{
    let at: usize = match dom {
        DomStat::Str => 0,
        DomStat::Dex => 1,
        DomStat::Int => 2,
        DomStat::Fai => 3,
        DomStat::Arc => 4,
        DomStat::Unknown => {
            return "?".to_owned();
        },
    };
    let chars: Vec<char> = chars_of(names[at].as_str());
    if chars.len() == 0 {
        return "?".to_owned();
    }
    let letter = text_of(chars.as_slice(), 0, 1);
    assert(letter@ =~= seq![names@[at as int]@[0]]);
    letter
}

/// What is shown over the game, and whether it can be.
pub struct Overlay {
    pub visible: bool,
    pub scoreboard: bool,
    /// Whether drawing over the game works.
    pub hook_ready: bool,
    pub frame: u32,
    /// Whether the pointer was set free.
    pub cursor_held: bool,
    pub picker: Option<PickerState>,
}

/// The builds to pick from while the key is held.
pub struct PickerState {
    pub ids: Vec<String>,
    pub names: Vec<String>,
    pub doms: Vec<DomStat>,
    pub index: usize,
    pub last_x: i32,
    /// How far the pointer was moved since the last step.
    pub accum: i64,
}

impl PickerState {
    /// The picked build is one of them.
    pub open spec fn wf(&self) -> bool {
        &&& self.index < self.ids@.len()
        &&& self.names@.len() == self.ids@.len()
        &&& self.doms@.len() == self.ids@.len()
        &&& -PICKER_STEP < self.accum < PICKER_STEP
    }
}

/// How far the pointer has to be moved for one step.
pub const PICKER_STEP: i64 = 96;

/// How many builds are seen at once.
pub const PICKER_WINDOW: usize = 4;

/// Shows the record or hides it; tells whether it is shown.
pub fn toggle_scoreboard(overlay: &mut Overlay) -> (shown: bool)
    ensures
        shown == !old(overlay).scoreboard,
        *final(overlay) == (Overlay { scoreboard: shown, ..*old(overlay) }),
{
    overlay.scoreboard = !overlay.scoreboard;
    overlay.scoreboard
}

/// Whether the record is shown.
pub fn scoreboard_visible(overlay: &Overlay) -> (shown: bool)
    ensures
        shown == overlay.scoreboard,
{
    overlay.scoreboard
}

/// What became of the panel.
#[derive(Clone, Copy, Debug, PartialEq, Eq, Structural)]
pub enum PanelChange {
    /// Nothing can be drawn over the game; the window is to be used.
    NotReady,
    /// It was open already.
    Kept,
    /// It was opened: take the character's build and show the library anew.
    Opened,
    Closed,
}

/// Opens the panel, unless it is open.
pub fn open_panel(overlay: &mut Overlay) -> (change: PanelChange)
    ensures
        change == if !old(overlay).hook_ready {
            PanelChange::NotReady
        } else if old(overlay).visible {
            PanelChange::Kept
        } else {
            PanelChange::Opened
        },
        *final(overlay) == (Overlay {
            visible: old(overlay).visible || old(overlay).hook_ready,
            ..*old(overlay)
        }),
{
    if !overlay.hook_ready {
        return PanelChange::NotReady;
    }
    if overlay.visible {
        return PanelChange::Kept;
    }
    overlay.visible = true;
    PanelChange::Opened
}

/// Closes the panel.
pub fn close_panel(overlay: &mut Overlay)
    ensures
        *final(overlay) == (Overlay { visible: false, ..*old(overlay) }),
{
    overlay.visible = false;
}

/// Opens the panel or closes it.
pub fn toggle_panel(overlay: &mut Overlay) -> (change: PanelChange)
    ensures
        change == if !old(overlay).hook_ready {
            PanelChange::NotReady
        } else if old(overlay).visible {
            PanelChange::Closed
        } else {
            PanelChange::Opened
        },
        *final(overlay) == (Overlay {
            visible: if old(overlay).hook_ready {
                !old(overlay).visible
            } else {
                old(overlay).visible
            },
            ..*old(overlay)
        }),
{
    if !overlay.hook_ready {
        return PanelChange::NotReady;
    }
    if overlay.visible {
        close_panel(overlay);
        return PanelChange::Closed;
    }
    open_panel(overlay)
}

/// Whether the pointer is wanted.
pub open spec fn wants_cursor(overlay: Overlay) -> bool {
    overlay.visible || overlay.picker is Some
}

/// Whether the pointer is wanted: for the panel or for the picker.
pub fn overlay_wants_cursor(overlay: &Overlay) -> (wanted: bool)
    ensures
        wanted == wants_cursor(*overlay),
{
    overlay.visible || overlay.picker.is_some()
}

/// The game's flags with the pointer set free.
pub open spec fn with_cursor(flags: u8) -> u8 {
    if flags % 2 == 0 {
        (flags + 1) as u8
    } else {
        flags
    }
}

/// The game's flags with the pointer bound.
pub open spec fn without_cursor(flags: u8) -> u8 {
    if flags % 2 == 0 {
        flags
    } else {
        (flags - 1) as u8
    }
}

/// The game's flags with the pointer set free, or bound again where it was set free here.
pub fn apply_menu_cursor(overlay: &mut Overlay, free: bool, flags: u8) -> (next: u8)
    ensures
        next == if free {
            with_cursor(flags)
        } else if old(overlay).cursor_held {
            without_cursor(flags)
        } else {
            flags
        },
        *final(overlay) == (Overlay { cursor_held: free, ..*old(overlay) }),
{
    if free {
        overlay.cursor_held = true;
        if flags % 2 == 0 {
            flags + 1
        } else {
            flags
        }
    } else if overlay.cursor_held {
        overlay.cursor_held = false;
        if flags % 2 == 0 {
            flags
        } else {
            flags - 1
        }
    } else {
        flags
    }
}

/// Setting the pointer free and binding it again leaves flags as they were where it was bound,
/// and changes no other flag.
pub proof fn cursor_flag_comes_back(flags: u8)
    ensures
        flags % 2 == 0 ==> without_cursor(with_cursor(flags)) == flags,
        with_cursor(flags) / 2 == flags / 2,
        without_cursor(flags) / 2 == flags / 2,
        with_cursor(flags) % 2 == 1,
        without_cursor(flags) % 2 == 0,
{
}

/// One frame: tells whether the pointer is wanted, and whether to take the character's build
/// and show the library anew, as every so many frames while the panel is open.
pub fn poll(overlay: &mut Overlay) -> (work: (bool, bool))
    ensures
        work.0 == wants_cursor(*old(overlay)),
        work.1 == (old(overlay).visible && old(overlay).frame % 20 == 0),
        *final(overlay) == (Overlay {
            frame: if !old(overlay).visible {
                old(overlay).frame
            } else if old(overlay).frame == u32::MAX {
                0
            } else {
                (old(overlay).frame + 1) as u32
            },
            ..*old(overlay)
        }),
{
    let wanted = overlay_wants_cursor(overlay);
    if !overlay.visible {
        return (wanted, false);
    }
    let due = overlay.frame % 20 == 0;
    overlay.frame = overlay.frame.wrapping_add(1);
    (wanted, due)
}

/// Where the seen part of the builds begins: so that the picked one is in its middle, as far as
/// there are builds on both sides.
pub open spec fn window_start(index: int, count: int, window: int) -> int {
    if count <= window || index <= window / 2 {
        0
    } else if index + window - window / 2 >= count {
        count - window
    } else {
        index - window / 2
    }
}

/// Where the seen part of the builds begins.
pub fn picker_window_start(index: usize, count: usize, window: usize) -> (start: usize)
    requires
        count > window && index > window / 2 ==> index + window <= usize::MAX,
    ensures
        start == window_start(index as int, count as int, window as int),
{
    if count <= window {
        return 0;
    }
    let half: usize = window / 2;
    if index <= half {
        0
    } else if index + window - half >= count {
        count - window
    } else {
        index - half
    }
}

/// The picked build is always among those that are seen, and only builds that exist are seen.
pub proof fn picked_build_is_seen(index: int, count: int, window: int)
    requires
        0 <= index < count,
        0 < window <= count,
    ensures
        ({
            let start = window_start(index, count, window);
            &&& 0 <= start
            &&& start <= index < start + window
            &&& start + window <= count
        }),
{
}

/// One tile of the picker.
#[derive(Clone, Copy, Debug, PartialEq, Eq, Structural)]
pub struct Tile {
    /// The place of the build among all.
    pub build: usize,
    pub dom: DomStat,
    pub picked: bool,
}

/// Tile `i` of the picker.
pub open spec fn tile_of(picker: PickerState, i: int) -> Tile {
    let count = picker.ids@.len() as int;
    let window = if count < PICKER_WINDOW {
        count
    } else {
        PICKER_WINDOW as int
    };
    let build = window_start(picker.index as int, count, window) + i;
    Tile { build: build as usize, dom: picker.doms@[build], picked: build == picker.index }
}

/// The tiles of the picker.
pub fn draw_picker(picker: &PickerState) -> (tiles: Vec<Tile>)
    requires
        picker.wf(),
        picker.ids@.len() + PICKER_WINDOW <= usize::MAX,
    ensures
        tiles@ == Seq::new(
            if picker.ids@.len() < PICKER_WINDOW {
                picker.ids@.len()
            } else {
                PICKER_WINDOW as nat
            },
            |i: int| tile_of(*picker, i),
        ),
{
    let count: usize = picker.ids.len();
    let window: usize = if count < PICKER_WINDOW {
        count
    } else {
        PICKER_WINDOW
    };
    let start: usize = picker_window_start(picker.index, count, window);
    proof {
        picked_build_is_seen(picker.index as int, count as int, window as int);
    }
    let mut tiles: Vec<Tile> = Vec::new();
    let mut i: usize = 0;
    while i < window
        invariant
            i <= window,
            start + window <= count,
            count == picker.ids@.len(),
            picker.doms@.len() == count,
            start == window_start(picker.index as int, count as int, window as int),
            window == if count < PICKER_WINDOW {
                count
            } else {
                PICKER_WINDOW
            },
            tiles@ == Seq::new(i as nat, |i: int| tile_of(*picker, i)),
        decreases window - i,
    {
        let build: usize = start + i;
        tiles.push(Tile { build, dom: picker.doms[build], picked: build == picker.index });
        i = i + 1;
        assert(tiles@ =~= Seq::new(i as nat, |i: int| tile_of(*picker, i)));
    }
    assert(tiles@.len() == window);
    tiles
}

/// What opening the picker comes to.
#[derive(Clone, Copy, Debug, PartialEq, Eq, Structural)]
pub enum PickerBegin {
    /// Nothing can be drawn over the game.
    NotReady,
    /// There are no builds.
    Empty,
    Started,
}

/// The place of the active build; the first one where it is not there.
pub open spec fn first_picked(builds: Seq<EntryState>, active: Option<Seq<char>>) -> int {
    match active {
        Some(id) if position(builds, id) < builds.len() => position(builds, id),
        _ => 0,
    }
}

fn place_of(builds: &Vec<BuildEntry>, active: &Option<String>) -> (at: usize)
    requires
        builds@.len() > 0,
    ensures
        at == first_picked(entries(builds@), text_or_none(*active)),
        at < builds@.len(),
{
    let id = match active {
        Some(id) => id,
        None => {
            return 0;
        },
    };
    let mut at: usize = 0;
    while at < builds.len()
        invariant
            at <= builds@.len(),
            text_or_none(*active) == Some(id@),
            position(entries(builds@), id@) == position_from(entries(builds@), id@, at as int),
        decreases builds@.len() - at,
    {
        if same(builds[at].id.as_str(), id.as_str()) {
            assert(entries(builds@)[at as int].id == id@);
            return at;
        }
        at = at + 1;
    }
    0
}

/// The ids of some builds.
pub open spec fn ids_of(builds: Seq<EntryState>) -> Seq<Seq<char>> {
    builds.map_values(|entry: EntryState| entry.id)
}

/// The names of some builds.
pub open spec fn names_of(builds: Seq<EntryState>) -> Seq<Seq<char>> {
    builds.map_values(|entry: EntryState| entry.name)
}

/// Opens the picker with all builds, on the active one; `x` is where the pointer is.
pub fn picker_begin(overlay: &mut Overlay, builds: &Vec<BuildEntry>, active: &Option<String>, x: i32) -> (begin:
    PickerBegin)
    ensures
        begin == if !old(overlay).hook_ready {
            PickerBegin::NotReady
        } else if builds@.len() == 0 {
            PickerBegin::Empty
        } else {
            PickerBegin::Started
        },
        begin != PickerBegin::Started ==> *final(overlay) == *old(overlay),
        begin == PickerBegin::Started ==> {
            &&& *final(overlay) == (Overlay { picker: final(overlay).picker, ..*old(overlay) })
            &&& final(overlay).picker matches Some(picker)
            &&& picker.wf()
            &&& texts(picker.ids@) == ids_of(entries(builds@))
            &&& texts(picker.names@) == names_of(entries(builds@))
            &&& forall|i: int|
                0 <= i < builds@.len() ==> (#[trigger] picker.doms@[i]) == standing_out(builds@[i].stats)
            &&& picker.index == first_picked(entries(builds@), text_or_none(*active))
            &&& picker.last_x == x
            &&& picker.accum == 0
        },
{
    if !overlay.hook_ready {
        return PickerBegin::NotReady;
    }
    if builds.len() == 0 {
        return PickerBegin::Empty;
    }
    let mut ids: Vec<String> = Vec::new();
    let mut names: Vec<String> = Vec::new();
    let mut doms: Vec<DomStat> = Vec::new();
    let mut at: usize = 0;
    while at < builds.len()
        invariant
            at <= builds@.len(),
            ids@.len() == at,
            names@.len() == at,
            doms@.len() == at,
            forall|i: int| 0 <= i < at ==> (#[trigger] ids@[i])@ == builds@[i].id@,
            forall|i: int| 0 <= i < at ==> (#[trigger] names@[i])@ == builds@[i].name@,
            forall|i: int| 0 <= i < at ==> (#[trigger] doms@[i]) == standing_out(builds@[i].stats),
        decreases builds@.len() - at,
    {
        ids.push(builds[at].id.clone());
        names.push(builds[at].name.clone());
        doms.push(tile_from_stats(&builds[at].stats));
        at = at + 1;
    }
    assert(texts(ids@) =~= ids_of(entries(builds@)));
    assert(texts(names@) =~= names_of(entries(builds@)));
    let index: usize = place_of(builds, active);
    overlay.picker = Some(PickerState { ids, names, doms, index, last_x: x, accum: 0 });
    PickerBegin::Started
}

/// Where moving the pointer leads: the picked place, and how far is left over. At the ends
/// nothing is left over.
pub open spec fn moved(index: int, count: int, distance: int) -> (int, int) {
    if distance <= -PICKER_STEP {
        let steps = -distance / PICKER_STEP as int;
        if steps <= index {
            (index - steps, distance + steps * PICKER_STEP)
        } else {
            (0, 0)
        }
    } else if distance >= PICKER_STEP {
        let steps = distance / PICKER_STEP as int;
        if index + steps < count {
            (index + steps, distance - steps * PICKER_STEP)
        } else {
            (count - 1, 0)
        }
    } else {
        (index, distance)
    }
}

/// Moves the picked place by how far the pointer was moved, to `x`.
pub fn picker_tick(picker: &mut PickerState, x: i32)
    requires
        old(picker).wf(),
    ensures
        final(picker).wf(),
        (final(picker).index as int, final(picker).accum as int) == moved(
            old(picker).index as int,
            old(picker).ids@.len() as int,
            old(picker).accum + x - old(picker).last_x,
        ),
        *final(picker) == (PickerState {
            index: final(picker).index,
            accum: final(picker).accum,
            last_x: x,
            ..*old(picker)
        }),
{
    let distance: i64 = picker.accum + (x as i64 - picker.last_x as i64);
    picker.last_x = x;
    let count: usize = picker.ids.len();
    if distance <= -PICKER_STEP {
        let steps: i64 = -distance / PICKER_STEP;
        if steps as u64 <= picker.index as u64 {
            picker.index = picker.index - steps as usize;
            picker.accum = distance + steps * PICKER_STEP;
        } else {
            picker.index = 0;
            picker.accum = 0;
        }
    } else if distance >= PICKER_STEP {
        let steps: i64 = distance / PICKER_STEP;
        if (steps as u64) < (count - picker.index) as u64 {
            picker.index = picker.index + steps as usize;
            picker.accum = distance - steps * PICKER_STEP;
        } else {
            picker.index = count - 1;
            picker.accum = 0;
        }
    } else {
        picker.accum = distance;
    }
}

/// Moving the pointer there and back without reaching an end picks the same build again.
pub proof fn moving_back_returns(index: int, count: int, accum: int, distance: int)
    requires
        0 <= index < count,
        -PICKER_STEP < accum < PICKER_STEP,
        0 <= index + (accum + distance) / PICKER_STEP as int - 1,
        index + (accum + distance) / PICKER_STEP as int + 1 < count,
    ensures
        ({
            let (there, rest) = moved(index, count, accum + distance);
            let (back, left) = moved(there, count, rest - distance);
            back * PICKER_STEP + left == index * PICKER_STEP + accum
        }),
{
}

/// Closes the picker, and gives back the id of the picked build.
pub fn picker_end(overlay: &mut Overlay) -> (id: Option<String>)
    requires
        old(overlay).picker matches Some(picker) ==> picker.wf(),
    ensures
        *final(overlay) == (Overlay { picker: None, ..*old(overlay) }),
        match old(overlay).picker {
            Some(picker) => text_or_none(id) == Some(picker.ids@[picker.index as int]@),
            None => id is None,
        },
{
    let id = match &overlay.picker {
        Some(picker) => Some(picker.ids[picker.index].clone()),
        None => None,
    };
    overlay.picker = None;
    id
}

/// Closes the picker without picking.
pub fn picker_cancel(overlay: &mut Overlay)
    ensures
        *final(overlay) == (Overlay { picker: None, ..*old(overlay) }),
{
    overlay.picker = None;
}

/// What a question before a change is about.
pub enum Confirm {
    Delete { id: String, name: String },
    ClearCombat { id: String, name: String },
}

/// What the panel remembers.
pub struct OverlayUi {
    pub selected_id: Option<String>,
    /// The text in the field for the name.
    pub name_buf: String,
    pub confirm: Option<Confirm>,
}

/// The selected build, or else the active one.
pub open spec fn selection(view: ShownState, selected: Option<Seq<char>>) -> Option<int> {
    let id = if selected is Some {
        selected
    } else {
        view.active
    };
    match id {
        Some(id) if position(view.entries, id) < view.entries.len() => Some(
            position(view.entries, id),
        ),
        _ => None,
    }
}

fn find_entry(builds: &Vec<BuildEntry>, id: &str) -> (at: Option<usize>)
    ensures
        match at {
            Some(at) => at == position(entries(builds@), id@) && at < builds@.len(),
            None => position(entries(builds@), id@) >= builds@.len(),
        },
{
    let mut at: usize = 0;
    while at < builds.len()
        invariant
            at <= builds@.len(),
            position(entries(builds@), id@) == position_from(entries(builds@), id@, at as int),
        decreases builds@.len() - at,
    {
        if same(builds[at].id.as_str(), id) {
            assert(entries(builds@)[at as int].id == id@);
            return Some(at);
        }
        at = at + 1;
    }
    None
}

/// The place of the selected build, or else of the active one.
pub fn selected_entry(view: &ViewState, selected_id: &Option<String>) -> (at: Option<usize>)
    ensures
        match selection(view@, text_or_none(*selected_id)) {
            Some(i) => at == Some(i as usize) && 0 <= i < view.entries@.len(),
            None => at is None,
        },
{
    let id = match selected_id {
        Some(id) => id,
        None => match &view.active {
            Some(id) => id,
            None => {
                return None;
            },
        },
    };
    find_entry(&view.entries, id.as_str())
}

/// The build whose details are shown: the selected one, or the active one, or the first.
pub open spec fn shown_build(view: ShownState, selected: Option<Seq<char>>) -> Option<int> {
    if selection(view, selected) is Some {
        selection(view, selected)
    } else if selection(view, None) is Some {
        selection(view, None)
    } else if view.entries.len() > 0 {
        Some(0)
    } else {
        None
    }
}

/// The place of the build whose details are shown.
pub fn fallback_entry(view: &ViewState, selected_id: &Option<String>) -> (at: Option<usize>)
    ensures
        match shown_build(view@, text_or_none(*selected_id)) {
            Some(i) => at == Some(i as usize) && 0 <= i < view.entries@.len(),
            None => at is None,
        },
{
    let selected = selected_entry(view, selected_id);
    if selected.is_some() {
        return selected;
    }
    let active = selected_entry(view, &None);
    if active.is_some() {
        return active;
    }
    if view.entries.len() > 0 {
        Some(0)
    } else {
        None
    }
}

/// Takes over the build whose details are shown, where it is another one than before, with its
/// name in the field for the name.
pub fn sync_name_if_needed(ui: &mut OverlayUi, entry: Option<&BuildEntry>)
    ensures
        text_or_none(final(ui).selected_id) == match entry {
            Some(entry) => Some(entry.id@),
            None => None,
        },
        final(ui).name_buf@ == if text_or_none(old(ui).selected_id) == (match entry {
            Some(entry) => Some(entry.id@),
            None => None,
        }) {
            old(ui).name_buf@
        } else {
            match entry {
                Some(entry) => entry.name@,
                None => seq![],
            }
        },
        final(ui).confirm == old(ui).confirm,
{
    let equal = match (&ui.selected_id, entry) {
        (Some(id), Some(entry)) => same(id.as_str(), entry.id.as_str()),
        (None, None) => true,
        _ => false,
    };
    if equal {
        return ;
    }
    match entry {
        Some(entry) => {
            ui.selected_id = Some(entry.id.clone());
            ui.name_buf = entry.name.clone();
        },
        None => {
            ui.selected_id = None;
            ui.name_buf = String::new();
            assert(ui.name_buf@ =~= seq![]);
        },
    }
}

/// One row of the list of builds.
pub struct Row {
    /// What the row says, with the id behind it to tell rows apart.
    pub label: String,
    pub selected: bool,
}

/// Whether the row of a build is marked.
pub open spec fn is_marked(view: ShownState, selected: Option<Seq<char>>, id: Seq<char>) -> bool {
    selected == Some(id) || (selected is None && view.active == Some(id))
}

/// The rows of the list of builds.
pub fn draw_builds(view: &ViewState, selected_id: &Option<String>) -> (rows: Vec<Row>)
    requires
        view.wf(),
    ensures
        rows@.len() == view@.entries.len(),
        forall|i: int|
            0 <= i < rows@.len() ==> (#[trigger] rows@[i]).label@ == title_of(
                view@,
                view@.entries[i],
                "  "@,
            ) + "##"@ + view@.entries[i].id && rows@[i].selected == is_marked(
                view@,
                text_or_none(*selected_id),
                view@.entries[i].id,
            ),
{
    let mut rows: Vec<Row> = Vec::new();
    let mut at: usize = 0;
    while at < view.entries.len()
        invariant
            view.wf(),
            at <= view.entries@.len(),
            rows@.len() == at,
            forall|i: int|
                0 <= i < at ==> (#[trigger] rows@[i]).label@ == title_of(
                    view@,
                    view@.entries[i],
                    "  "@,
                ) + "##"@ + view@.entries[i].id && rows@[i].selected == is_marked(
                    view@,
                    text_or_none(*selected_id),
                    view@.entries[i].id,
                ),
        decreases view.entries@.len() - at,
    {
        let entry = &view.entries[at];
        assert(view@.entries[at as int] == entry@);
        let mut label = entry_title(view, entry, "  ");
        label.append("##");
        label.append(entry.id.as_str());
        let selected = match selected_id {
            Some(id) => same(id.as_str(), entry.id.as_str()),
            None => match &view.active {
                Some(id) => same(id.as_str(), entry.id.as_str()),
                None => false,
            },
        };
        rows.push(Row { label, selected });
        at = at + 1;
    }
    assert(view@.entries.len() == view.entries@.len());
    rows
}

/// The answer to a question: what to do, with the id of the build.
pub enum Confirmed {
    Nothing,
    Delete(String),
    ClearCombat(String),
}

/// Takes the question that was asked, and gives back what it was about where the answer is yes.
pub fn draw_confirm(ui: &mut OverlayUi, yes: bool) -> (confirmed: Confirmed)
    ensures
        final(ui).confirm is None,
        final(ui).selected_id == old(ui).selected_id,
        final(ui).name_buf == old(ui).name_buf,
        match (old(ui).confirm, yes) {
            (Some(Confirm::Delete { id, .. }), true) => confirmed matches Confirmed::Delete(text)
                && text@ == id@,
            (Some(Confirm::ClearCombat { id, .. }), true) => confirmed
                matches Confirmed::ClearCombat(text) && text@ == id@,
            _ => confirmed is Nothing,
        },
{
    let confirmed = if yes {
        match &ui.confirm {
            Some(Confirm::Delete { id, .. }) => Confirmed::Delete(id.clone()),
            Some(Confirm::ClearCombat { id, .. }) => Confirmed::ClearCombat(id.clone()),
            None => Confirmed::Nothing,
        }
    } else {
        Confirmed::Nothing
    };
    ui.confirm = None;
    confirmed
}

/// The words for yes and no.
pub open spec fn yes_no_text(lang: Lang) -> (Seq<char>, Seq<char>) {
    match lang {
        Lang::Zh => ("确定"@, "取消"@),
        Lang::En => ("OK"@, "Cancel"@),
        Lang::Ko => ("확인"@, "취소"@),
        Lang::Ja => ("確定"@, "キャンセル"@),
        Lang::Fr => ("OK"@, "Annuler"@),
    }
}

/// The words for yes and no.
pub fn yes_no(lang: Lang) -> (words: (&'static str, &'static str))
    ensures
        (words.0@, words.1@) == yes_no_text(lang),
{
    match lang {
        Lang::Zh => ("确定", "取消"),
        Lang::En => ("OK", "Cancel"),
        Lang::Ko => ("확인", "취소"),
        Lang::Ja => ("確定", "キャンセル"),
        Lang::Fr => ("OK", "Annuler"),
    }
}

/// The words of the record.
pub struct RecordWords<'a> {
    pub wins: &'a str,
    pub losses: &'a str,
    pub winrate: &'a str,
    pub no_active: &'a str,
}

/// The line of the record: `rate` is the share of duels won, as a text.
pub open spec fn record_line(words: RecordWords, record: CombatRecord, rate: Seq<char>) -> Seq<char> {
    words.wins@ + " "@ + decimal(record.kills as int) + "  ·  "@ + words.losses@ + " "@ + decimal(
        record.deaths as int,
    ) + "  ·  "@ + words.winrate@ + " "@ + rate
}

/// The two lines of the record of the active build: its name, and its duels.
pub fn draw_scoreboard(words: &RecordWords, active: Option<(String, CombatRecord, String)>) -> (lines: (
    String,
    String,
))
    ensures
        match active {
            Some((name, record, rate)) => lines.0@ == name@ && lines.1@ == record_line(
                *words,
                record,
                rate@,
            ),
            None => lines.0@ == words.no_active@ && lines.1@ == "—"@,
        },
{
    match active {
        Some((name, record, rate)) => {
            let mut line = words.wins.to_owned();
            line.append(" ");
            push_decimal(&mut line, record.kills as u64);
            line.append("  ·  ");
            line.append(words.losses);
            line.append(" ");
            push_decimal(&mut line, record.deaths as u64);
            line.append("  ·  ");
            line.append(words.winrate);
            line.append(" ");
            line.append(rate.as_str());
            (name, line)
        },
        None => (words.no_active.to_owned(), "—".to_owned()),
    }
}

/// The attribute that stands out is the highest of the five, and higher than every one that comes
/// before it: strength, dexterity, intelligence, faith, arcane.
pub proof fn the_highest_attribute_stands_out(s: StatsPreview)
    ensures
        ({
            let dom = standing_out(Some(s));
            let top = |v: u32|
                v >= s.strength && v >= s.dexterity && v >= s.intelligence && v >= s.faith && v
                    >= s.arcane;
            &&& dom != DomStat::Unknown
            &&& dom == DomStat::Str ==> top(s.strength)
            &&& dom == DomStat::Dex ==> top(s.dexterity) && s.dexterity > s.strength
            &&& dom == DomStat::Int ==> top(s.intelligence) && s.intelligence > s.strength
                && s.intelligence > s.dexterity
            &&& dom == DomStat::Fai ==> top(s.faith) && s.faith > s.strength && s.faith
                > s.dexterity && s.faith > s.intelligence
            &&& dom == DomStat::Arc ==> s.arcane > s.strength && s.arcane > s.dexterity && s.arcane
                > s.intelligence && s.arcane > s.faith
            &&& standing_out(None) == DomStat::Unknown
        }),
{
}

/// The sign of an attribute is the first character of its own name among those of strength,
/// dexterity, intelligence, faith and arcane.
pub proof fn signs_come_from_their_own_names(names: Seq<Seq<char>>)
    requires
        names.len() == 5,
        forall|i: int| 0 <= i < 5 ==> (#[trigger] names[i]).len() > 0,
    ensures
        first_letter(Some(names[rank(DomStat::Str)])) == seq![names[0][0]],
        first_letter(Some(names[rank(DomStat::Dex)])) == seq![names[1][0]],
        first_letter(Some(names[rank(DomStat::Int)])) == seq![names[2][0]],
        first_letter(Some(names[rank(DomStat::Fai)])) == seq![names[3][0]],
        first_letter(Some(names[rank(DomStat::Arc)])) == seq![names[4][0]],
        first_letter(None) == "?"@,
{
}

/// Every ninety-six points of the pointer are one build, to the right or to the left, up to the
/// last and the first one; what is left over counts for the next move, but not at the ends.
pub proof fn the_pointer_moves_the_pick(index: int, count: int, distance: int)
    requires
        0 <= index < count,
    ensures
        ({
            let (next, rest) = moved(index, count, distance);
            let right = index + distance / 96;
            let left = index - (-distance) / 96;
            &&& 0 <= next < count
            &&& -96 < rest < 96
            &&& distance >= 0 && right < count ==> next == right && next * 96 + rest == index * 96
                + distance
            &&& distance >= 0 && right >= count ==> next == count - 1 && rest == 0
            &&& distance < 0 && left >= 0 ==> next == left && next * 96 + rest == index * 96
                + distance
            &&& distance < 0 && left < 0 ==> next == 0 && rest == 0
        }),
{
}

/// Four builds are seen at once, or all where there are fewer: in their order, each with the
/// attribute that stands out in it, and the picked one, and no other, is marked. It is the third
/// one that is seen, unless it is too near to an end.
pub proof fn tiles_show_the_builds_around_the_pick(picker: PickerState, i: int)
    requires
        picker.wf(),
        picker.ids@.len() <= usize::MAX,
        0 <= i < 4,
        i < picker.ids@.len(),
    ensures
        ({
            let count = picker.ids@.len() as int;
            let tile = tile_of(picker, i);
            let first = tile_of(picker, 0).build as int;
            &&& tile.build == first + i
            &&& tile.build < count
            &&& tile.dom == picker.doms@[tile.build as int]
            &&& tile.picked <==> tile.build == picker.index
            &&& count <= 4 ==> first == 0
            &&& count > 4 ==> first <= picker.index < first + 4 && first + 4 <= count
            &&& count > 4 && 2 <= picker.index <= count - 2 ==> first == picker.index - 2
        }),
{
    let count = picker.ids@.len() as int;
    let window = if count < 4 {
        count
    } else {
        4
    };
    picked_build_is_seen(picker.index as int, count, window);
}

/// The picker starts at the active build where it is listed, and at the first one where not.
pub proof fn the_active_build_is_picked_first(builds: Seq<EntryState>, active: Option<Seq<char>>)
    requires
        builds.len() > 0,
    ensures
        ({
            let at = first_picked(builds, active);
            &&& 0 <= at < builds.len()
            &&& active is None ==> at == 0
            &&& active matches Some(id) ==> {
                if exists|i: int| 0 <= i < builds.len() && (#[trigger] builds[i]).id == id {
                    builds[at].id == id
                } else {
                    at == 0
                }
            }
        }),
{
    if let Some(id) = active {
        position_is_first(builds, id, 0);
    }
}

/// The details are those of the selected build where it is listed, else those of the active one
/// where it is, else those of the first.
pub proof fn details_are_of_the_selected_build(view: ShownState, selected: Option<Seq<char>>)
    ensures
        ({
            let listed = |id: Option<Seq<char>>|
                id is Some && exists|i: int|
                    0 <= i < view.entries.len() && (#[trigger] view.entries[i]).id == id->0;
            let at = shown_build(view, selected);
            &&& at is None <==> view.entries.len() == 0
            &&& at matches Some(i) ==> 0 <= i < view.entries.len()
            &&& listed(selected) ==> at is Some && view.entries[at->0].id == selected->0
            &&& !listed(selected) && listed(view.active) ==> at is Some && view.entries[at->0].id
                == view.active->0
            &&& !listed(selected) && !listed(view.active) && view.entries.len() > 0 ==> at
                == Some(0int)
        }),
{
    if let Some(id) = selected {
        position_is_first(view.entries, id, 0);
    }
    if let Some(id) = view.active {
        position_is_first(view.entries, id, 0);
    }
}

/// The marked row is that of the selected build; the active one is marked only while none is
/// selected.
pub proof fn the_selected_row_is_marked(view: ShownState, selected: Option<Seq<char>>, id: Seq<char>)
    ensures
        selected == Some(id) ==> is_marked(view, selected, id),
        selected is Some && selected != Some(id) ==> !is_marked(view, selected, id),
        selected is None && view.active == Some(id) ==> is_marked(view, selected, id),
        selected is None && view.active != Some(id) ==> !is_marked(view, selected, id),
{
}

/// The pointer is set free for the panel and for the picker, for each alone, and else not.
pub proof fn panel_and_picker_want_the_pointer(overlay: Overlay)
    ensures
        overlay.visible ==> wants_cursor(overlay),
        overlay.picker is Some ==> wants_cursor(overlay),
        !overlay.visible && overlay.picker is None ==> !wants_cursor(overlay),
{
}

/// The record tells the duels won behind the word for them, and the lost ones behind theirs.
pub proof fn records_tell_wins_and_losses(words: RecordWords, record: CombatRecord, rate: Seq<char>)
    ensures
        says(
            record_line(words, record, rate),
            words.wins@ + " "@ + decimal(record.kills as int),
        ),
        says(
            record_line(words, record, rate),
            words.losses@ + " "@ + decimal(record.deaths as int),
        ),
        says(record_line(words, record, rate), words.winrate@ + " "@ + rate),
{
    let none = Seq::<char>::empty();
    let text = record_line(words, record, rate);
    let wins = words.wins@ + " "@ + decimal(record.kills as int);
    let losses = words.losses@ + " "@ + decimal(record.deaths as int);
    let share = words.winrate@ + " "@ + rate;
    let dot = "  ·  "@;
    assert(text =~= none + wins + (dot + losses + dot + share));
    the_middle_is_said(none, wins, dot + losses + dot + share);
    assert(text =~= (wins + dot) + losses + (dot + share));
    the_middle_is_said(wins + dot, losses, dot + share);
    assert(text =~= (wins + dot + losses + dot) + share + none);
    the_middle_is_said(wins + dot + losses + dot, share, none);
}

} // verus!
