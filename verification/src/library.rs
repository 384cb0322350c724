//! The library of saved builds, the keys that are bound to them, and the settings.
//!
//! An operation that is to be saved gives back the library as it would be. It takes the place of
//! the old one once it was written to disk, so a failed write leaves everything as it was.

use vstd::prelude::*;

use crate::calendar::{civil_from_days, day_number, is_date};
use crate::equip::LoadoutSlot;
use crate::i18n::{after, code_of, codes_differ, Lang};
use crate::item::{param_id, param_of};
use crate::snap::{BuildSnapshot, BuildState};
use crate::stats::StatsSnapshot;
use crate::text::{
    chars_of, decimal, decimal_text, hex, join, joined, numeral, push_decimal, push_numeral,
    push_padded, same, says, text_or_none, texts, texts_go_on, the_middle_is_said, trim, trimmed,
    zero_padded,
};

verus! {

/// How many keys can be bound from the beginning.
pub const BINDING_SLOTS: usize = 4;

/// How many numbered slots builds were saved in before there was a library.
pub const LEGACY_SLOTS: usize = 3;

/// Duels won and lost with a build.
#[derive(Clone, Copy, Debug, PartialEq, Eq, Structural)]
pub struct CombatRecord {
    pub kills: u32,
    pub deaths: u32,
}

impl Default for CombatRecord {
    fn default() -> (record: Self)
        ensures
            record == (CombatRecord { kills: 0, deaths: 0 }),
    {
        CombatRecord { kills: 0, deaths: 0 }
    }
}

/// The attributes of a build, as its entry shows them.
#[derive(Clone, Copy, Debug, PartialEq, Eq, Structural)]
pub struct StatsPreview {
    pub level: u32,
    pub vigor: u32,
    pub mind: u32,
    pub endurance: u32,
    pub strength: u32,
    pub dexterity: u32,
    pub intelligence: u32,
    pub faith: u32,
    pub arcane: u32,
}

/// One build of the library.
#[derive(Debug)]
pub struct BuildEntry {
    pub id: String,
    pub name: String,
    pub preview: String,
    /// The icons of the six weapons, four pieces of armor and four talismans.
    pub icon_ids: Vec<Option<u16>>,
    pub stats: Option<StatsPreview>,
    pub combat: CombatRecord,
}

/// The same as plain values.
#[verifier::ext_equal]
pub struct EntryState {
    pub id: Seq<char>,
    pub name: Seq<char>,
    pub preview: Seq<char>,
    pub icon_ids: Seq<Option<u16>>,
    pub stats: Option<StatsPreview>,
    pub combat: CombatRecord,
}

impl View for BuildEntry {
    type V = EntryState;

    open spec fn view(&self) -> EntryState {
        EntryState {
            id: self.id@,
            name: self.name@,
            preview: self.preview@,
            icon_ids: self.icon_ids@,
            stats: self.stats,
            combat: self.combat,
        }
    }
}

impl BuildEntry {
    /// The same entry once more.
    pub fn copied(&self) -> (entry: BuildEntry)
        ensures
            entry@ == self@,
    {
        let mut icon_ids: Vec<Option<u16>> = Vec::new();
        let mut at: usize = 0;
        while at < self.icon_ids.len()
            invariant
                at <= self.icon_ids@.len(),
                icon_ids@ == self.icon_ids@.take(at as int),
            decreases self.icon_ids@.len() - at,
        {
            icon_ids.push(self.icon_ids[at]);
            at = at + 1;
            assert(icon_ids@ =~= self.icon_ids@.take(at as int));
        }
        assert(icon_ids@ =~= self.icon_ids@);
        BuildEntry {
            id: self.id.clone(),
            name: self.name.clone(),
            preview: self.preview.clone(),
            icon_ids,
            stats: self.stats,
            combat: self.combat,
        }
    }
}

/// The builds, in order.
#[derive(Debug)]
pub struct LibraryIndex {
    pub builds: Vec<BuildEntry>,
}

/// The settings.
#[derive(Debug)]
pub struct Config {
    /// The id of the build that each key loads.
    pub bindings: Vec<Option<String>>,
    pub care_enabled: bool,
    pub legacy_migrated: bool,
    /// The code of the language.
    pub language: String,
    pub ctrl_picker_enabled: bool,
}

/// The library.
#[derive(Debug)]
pub struct State {
    pub initialized: bool,
    /// The build that was created, loaded or overwritten last.
    pub active_build: Option<String>,
    pub index: LibraryIndex,
    pub config: Config,
}

/// The same as plain values.
#[verifier::ext_equal]
pub struct LibraryState {
    pub initialized: bool,
    pub active: Option<Seq<char>>,
    pub builds: Seq<EntryState>,
    pub bindings: Seq<Option<Seq<char>>>,
    pub care_enabled: bool,
    pub legacy_migrated: bool,
    pub language: Seq<char>,
    pub ctrl_picker_enabled: bool,
}

/// The entries as plain values.
pub open spec fn entries(builds: Seq<BuildEntry>) -> Seq<EntryState> {
    builds.map_values(|entry: BuildEntry| entry@)
}

/// The bindings as plain values.
pub open spec fn targets(bindings: Seq<Option<String>>) -> Seq<Option<Seq<char>>> {
    bindings.map_values(|binding: Option<String>| text_or_none(binding))
}

impl View for State {
    type V = LibraryState;

    open spec fn view(&self) -> LibraryState {
        LibraryState {
            initialized: self.initialized,
            active: text_or_none(self.active_build),
            builds: entries(self.index.builds@),
            bindings: targets(self.config.bindings@),
            care_enabled: self.config.care_enabled,
            legacy_migrated: self.config.legacy_migrated,
            language: self.config.language@,
            ctrl_picker_enabled: self.config.ctrl_picker_enabled,
        }
    }
}

/// A library as plain values, or nothing where it could not be opened.
pub open spec fn as_opened(state: Option<&State>) -> Option<LibraryState> {
    match state {
        Some(state) => Some(state@),
        None => None,
    }
}

/// Why an operation was refused.
#[derive(Debug)]
pub enum LibraryError {
    /// There is no build with this id.
    NotFound(String),
    /// A name has to hold something.
    NameEmpty,
}

/// The refusal for want of a build.
pub open spec fn is_not_found(error: LibraryError, id: Seq<char>) -> bool {
    error matches LibraryError::NotFound(text) && text@ == id
}

/// The first build from `from` on with an id; the number of builds where there is none.
pub open spec fn position_from(builds: Seq<EntryState>, id: Seq<char>, from: int) -> int
    decreases builds.len() - from,
{
    if from < 0 || from >= builds.len() || builds[from].id == id {
        from
    } else {
        position_from(builds, id, from + 1)
    }
}

/// The first build with an id.
pub open spec fn position(builds: Seq<EntryState>, id: Seq<char>) -> int {
    position_from(builds, id, 0)
}

/// Whether there is a build with an id.
pub open spec fn is_listed(builds: Seq<EntryState>, id: Seq<char>) -> bool {
    exists|i: int| 0 <= i < builds.len() && (#[trigger] builds[i]).id == id
}

/// The position of an id is that of the first build with it, or the end where there is none.
pub proof fn position_is_first(builds: Seq<EntryState>, id: Seq<char>, from: int)
    requires
        0 <= from <= builds.len(),
    ensures
        from <= position_from(builds, id, from) <= builds.len(),
        position_from(builds, id, from) < builds.len() ==> builds[position_from(
            builds,
            id,
            from,
        )].id == id,
        forall|i: int|
            from <= i < position_from(builds, id, from) ==> (#[trigger] builds[i]).id != id,
    decreases builds.len() - from,
{
    if from < builds.len() && builds[from].id != id {
        position_is_first(builds, id, from + 1);
    }
}

/// Where a build is, if it is.
fn find(builds: &Vec<BuildEntry>, id: &str) -> (found: Option<usize>)
    ensures
        match found {
            Some(at) => at == position(entries(builds@), id@) && at < builds@.len()
                && builds@[at as int].id@ == id@ && is_listed(entries(builds@), id@),
            None => !is_listed(entries(builds@), id@),
        },
{
    let mut at: usize = 0;
    while at < builds.len()
        invariant
            at <= builds@.len(),
            position(entries(builds@), id@) == position_from(entries(builds@), id@, at as int),
            forall|i: int| 0 <= i < at ==> (#[trigger] entries(builds@)[i]).id != id@,
        decreases builds@.len() - at,
    {
        if same(builds[at].id.as_str(), id) {
            assert(entries(builds@)[at as int].id == id@);
            return Some(at);
        }
        at = at + 1;
    }
    None
}

fn copy_builds(builds: &Vec<BuildEntry>) -> (copied: Vec<BuildEntry>)
    ensures
        entries(copied@) == entries(builds@),
{
    let mut copied: Vec<BuildEntry> = Vec::new();
    let mut at: usize = 0;
    while at < builds.len()
        invariant
            at <= builds@.len(),
            copied@.len() == at,
            forall|i: int| 0 <= i < at ==> (#[trigger] copied@[i])@ == builds@[i]@,
        decreases builds@.len() - at,
    {
        copied.push(builds[at].copied());
        at = at + 1;
    }
    assert(entries(copied@) =~= entries(builds@));
    copied
}

fn copy_option(text: &Option<String>) -> (copied: Option<String>)
    ensures
        text_or_none(copied) == text_or_none(*text),
{
    match text {
        Some(text) => Some(text.clone()),
        None => None,
    }
}

fn copy_bindings(bindings: &Vec<Option<String>>) -> (copied: Vec<Option<String>>)
    ensures
        targets(copied@) == targets(bindings@),
{
    let mut copied: Vec<Option<String>> = Vec::new();
    let mut at: usize = 0;
    while at < bindings.len()
        invariant
            at <= bindings@.len(),
            copied@.len() == at,
            forall|i: int|
                0 <= i < at ==> text_or_none(#[trigger] copied@[i]) == text_or_none(bindings@[i]),
        decreases bindings@.len() - at,
    {
        copied.push(copy_option(&bindings[at]));
        at = at + 1;
    }
    assert(targets(copied@) =~= targets(bindings@));
    copied
}

impl State {
    /// The same library once more.
    pub fn copied(&self) -> (state: State)
        ensures
            state@ == self@,
    {
        State {
            initialized: self.initialized,
            active_build: copy_option(&self.active_build),
            index: LibraryIndex { builds: copy_builds(&self.index.builds) },
            config: Config {
                bindings: copy_bindings(&self.config.bindings),
                care_enabled: self.config.care_enabled,
                legacy_migrated: self.config.legacy_migrated,
                language: self.config.language.clone(),
                ctrl_picker_enabled: self.config.ctrl_picker_enabled,
            },
        }
    }
}

/// All builds, in order.
pub fn list(state: &State) -> (builds: Vec<BuildEntry>)
    ensures
        entries(builds@) == state@.builds,
{
    copy_builds(&state.index.builds)
}

/// The rows of what is worn in some places, as texts.
pub open spec fn worn_rows(loadout: Seq<LoadoutSlot>, first: u8, last: u8) -> Seq<Seq<char>>
    decreases loadout.len(),
{
    if loadout.len() == 0 {
        seq![]
    } else {
        let rest = worn_rows(loadout.drop_last(), first, last);
        let slot = loadout.last();
        if first <= slot.slot <= last && slot.id != u32::MAX {
            rest.push(decimal(param_of(slot.id) as int))
        } else {
            rest
        }
    }
}

/// What a preview says of some places.
pub open spec fn rows_text(loadout: Seq<LoadoutSlot>, first: u8, last: u8) -> Seq<char> {
    let rows = worn_rows(loadout, first, last);
    if rows.len() == 0 {
        "-"@
    } else {
        joined(rows, "/"@)
    }
}

fn preview_rows(loadout: &Vec<LoadoutSlot>, first: u8, last: u8) -> (text: String)
    ensures
        text@ == rows_text(loadout@, first, last),
{
    let mut rows: Vec<String> = Vec::new();
    let mut at: usize = 0;
    assert(loadout@.take(0) =~= seq![]);
    assert(texts(rows@) =~= worn_rows(loadout@.take(0), first, last));
    while at < loadout.len()
        invariant
            at <= loadout@.len(),
            texts(rows@) == worn_rows(loadout@.take(at as int), first, last),
        decreases loadout@.len() - at,
    {
        assert(loadout@.take(at + 1).drop_last() =~= loadout@.take(at as int));
        let slot: LoadoutSlot = loadout[at];
        if first <= slot.slot && slot.slot <= last && slot.id != u32::MAX {
            let ghost before = texts(rows@);
            rows.push(decimal_text(param_id(slot.id) as u64));
            assert(texts(rows@) =~= before.push(decimal(param_of(slot.id) as int)));
        }
        at = at + 1;
    }
    assert(loadout@.take(loadout@.len() as int) =~= loadout@);
    assert(rows@.len() == texts(rows@).len());
    if rows.len() == 0 {
        "-".to_owned()
    } else {
        join(&rows, "/")
    }
}

/// What a preview says of the attributes.
pub open spec fn stats_part(stats: Option<StatsSnapshot>) -> Seq<char> {
    match stats {
        Some(s) => "Lv"@ + decimal(s.level as int) + " 生"@ + decimal(s.vigor as int) + " 集"@
            + decimal(s.mind as int) + " 耐"@ + decimal(s.endurance as int) + " 力"@ + decimal(
            s.strength as int,
        ) + " 敏"@ + decimal(s.dexterity as int) + " 智"@ + decimal(s.intelligence as int)
            + " 信"@ + decimal(s.faith as int) + " 感"@ + decimal(s.arcane as int),
        None => "无加点"@,
    }
}

fn preview_stats(stats: &Option<StatsSnapshot>) -> (text: String)
    ensures
        text@ == stats_part(*stats),
{
    match stats {
        Some(stats) => {
            let mut text = "Lv".to_owned();
            push_decimal(&mut text, stats.level as u64);
            text.append(" 生");
            push_decimal(&mut text, stats.vigor as u64);
            text.append(" 集");
            push_decimal(&mut text, stats.mind as u64);
            text.append(" 耐");
            push_decimal(&mut text, stats.endurance as u64);
            text.append(" 力");
            push_decimal(&mut text, stats.strength as u64);
            text.append(" 敏");
            push_decimal(&mut text, stats.dexterity as u64);
            text.append(" 智");
            push_decimal(&mut text, stats.intelligence as u64);
            text.append(" 信");
            push_decimal(&mut text, stats.faith as u64);
            text.append(" 感");
            push_decimal(&mut text, stats.arcane as u64);
            text
        },
        None => "无加点".to_owned(),
    }
}

/// How many places of a saved wheel are not empty.
pub open spec fn magic_count(magic: Seq<i32>) -> nat
    decreases magic.len(),
{
    if magic.len() == 0 {
        0
    } else {
        magic_count(magic.drop_last()) + if magic.last() >= 0 {
            1nat
        } else {
            0nat
        }
    }
}

/// The line that shows what a build holds.
pub open spec fn preview_of(build: BuildState) -> Seq<char> {
    stats_part(build.stats) + "  武:"@ + rows_text(build.loadout, 0, 5) + "  甲:"@ + rows_text(
        build.loadout,
        12,
        15,
    ) + "  符:"@ + rows_text(build.loadout, 17, 20) + "  法:"@ + decimal(
        magic_count(build.magic) as int,
    )
}

/// The line that shows what a build holds.
pub fn snapshot_preview(build: &BuildSnapshot) -> (text: String)
    ensures
        text@ == preview_of(build@),
{
    let mut spells: usize = 0;
    let mut at: usize = 0;
    assert(build.magic@.take(0) =~= seq![]);
    while at < build.magic.len()
        invariant
            at <= build.magic@.len(),
            spells <= at,
            spells == magic_count(build.magic@.take(at as int)),
        decreases build.magic@.len() - at,
    {
        assert(build.magic@.take(at + 1).drop_last() =~= build.magic@.take(at as int));
        if build.magic[at] >= 0 {
            spells = spells + 1;
        }
        at = at + 1;
    }
    assert(build.magic@.take(build.magic@.len() as int) =~= build.magic@);
    let weapons = preview_rows(&build.loadout, 0, 5);
    let armor = preview_rows(&build.loadout, 12, 15);
    let talismans = preview_rows(&build.loadout, 17, 20);
    let mut text = preview_stats(&build.stats);
    text.append("  武:");
    text.append(weapons.as_str());
    text.append("  甲:");
    text.append(armor.as_str());
    text.append("  符:");
    text.append(talismans.as_str());
    text.append("  法:");
    push_decimal(&mut text, spells as u64);
    text
}

/// The attributes of a build, as its entry shows them.
pub open spec fn stats_of(stats: Option<StatsSnapshot>) -> Option<StatsPreview> {
    match stats {
        Some(s) => Some(
            StatsPreview {
                level: s.level,
                vigor: s.vigor,
                mind: s.mind,
                endurance: s.endurance,
                strength: s.strength,
                dexterity: s.dexterity,
                intelligence: s.intelligence,
                faith: s.faith,
                arcane: s.arcane,
            },
        ),
        None => None,
    }
}

/// The attributes of a build, as its entry shows them.
pub fn stats_preview(build: &BuildSnapshot) -> (stats: Option<StatsPreview>)
    ensures
        stats == stats_of(build.stats),
{
    match build.stats {
        Some(s) => Some(
            StatsPreview {
                level: s.level,
                vigor: s.vigor,
                mind: s.mind,
                endurance: s.endurance,
                strength: s.strength,
                dexterity: s.dexterity,
                intelligence: s.intelligence,
                faith: s.faith,
                arcane: s.arcane,
            },
        ),
        None => None,
    }
}

/// The date and the time of day of a moment, in seconds since 1970: year, month, day, hour,
/// minute and second.
pub fn utc_parts(seconds: u64) -> (parts: (i64, u32, u32, u32, u32, u32))
    ensures
        is_date(parts.0 as int, parts.1 as int, parts.2 as int),
        parts.3 < 24,
        parts.4 < 60,
        parts.5 < 60,
        seconds == day_number(parts.0 as int, parts.1 as int, parts.2 as int) * 86_400 + parts.3
            * 3_600 + parts.4 * 60 + parts.5,
{
    let days: i64 = (seconds / 86_400) as i64;
    let rest: u64 = seconds % 86_400;
    let (year, month, day) = civil_from_days(days);
    (
        year,
        month,
        day,
        (rest / 3_600) as u32,
        ((rest % 3_600) / 60) as u32,
        (rest % 60) as u32,
    )
}

/// The id of a build that is created: the moment, the process and a running number.
pub open spec fn identity(nanos: u128, process: u32, sequence: u64) -> Seq<char> {
    "build-"@ + hex(nanos as nat) + "-"@ + hex(process as nat) + "-"@ + hex(sequence as nat)
}

/// A date and time of day after a prefix.
pub open spec fn dated_name(prefix: Seq<char>, parts: (i64, u32, u32, u32, u32, u32)) -> Seq<char> {
    prefix + " "@ + zero_padded(decimal(parts.0 as int), 4) + "-"@ + zero_padded(
        decimal(parts.1 as int),
        2,
    ) + "-"@ + zero_padded(decimal(parts.2 as int), 2) + " "@ + zero_padded(
        decimal(parts.3 as int),
        2,
    ) + ":"@ + zero_padded(decimal(parts.4 as int), 2) + ":"@ + zero_padded(
        decimal(parts.5 as int),
        2,
    ) + " UTC"@
}

/// The six numbers of a moment.
pub open spec fn is_moment(seconds: u64, parts: (i64, u32, u32, u32, u32, u32)) -> bool {
    &&& is_date(parts.0 as int, parts.1 as int, parts.2 as int)
    &&& parts.3 < 24 && parts.4 < 60 && parts.5 < 60
    &&& seconds == day_number(parts.0 as int, parts.1 as int, parts.2 as int) * 86_400 + parts.3
        * 3_600 + parts.4 * 60 + parts.5
}

fn name_of_moment(prefix: &str, seconds: u64) -> (name: String)
    ensures
        exists|parts: (i64, u32, u32, u32, u32, u32)| #[trigger]
            is_moment(seconds, parts) && name@ == dated_name(prefix@, parts),
{
    let parts = utc_parts(seconds);
    assert(is_moment(seconds, parts));
    proof {
        moment_after_1970(seconds, parts);
    }
    let mut name = prefix.to_owned();
    name.append(" ");
    push_padded(&mut name, decimal_text(parts.0 as u64).as_str(), 4);
    name.append("-");
    push_padded(&mut name, decimal_text(parts.1 as u64).as_str(), 2);
    name.append("-");
    push_padded(&mut name, decimal_text(parts.2 as u64).as_str(), 2);
    name.append(" ");
    push_padded(&mut name, decimal_text(parts.3 as u64).as_str(), 2);
    name.append(":");
    push_padded(&mut name, decimal_text(parts.4 as u64).as_str(), 2);
    name.append(":");
    push_padded(&mut name, decimal_text(parts.5 as u64).as_str(), 2);
    name.append(" UTC");
    assert(name@ == dated_name(prefix@, parts));
    name
}

/// No moment is before 1970.
proof fn moment_after_1970(seconds: u64, parts: (i64, u32, u32, u32, u32, u32))
    requires
        is_moment(seconds, parts),
    ensures
        parts.0 >= 1970,
{
    if parts.0 < 1970 {
        crate::calendar::dates_before_1970(parts.0 as int, parts.1 as int, parts.2 as int);
    }
}

/// The id and the name of a build that is created now.
pub fn generated_identity(
    prefix: &str,
    nanos: u128,
    seconds: u64,
    process: u32,
    sequence: u64,
) -> (made: (String, String))
    ensures
        made.0@ == identity(nanos, process, sequence),
        exists|parts: (i64, u32, u32, u32, u32, u32)| #[trigger]
            is_moment(seconds, parts) && made.1@ == dated_name(prefix@, parts),
{
    let mut id = "build-".to_owned();
    push_numeral(&mut id, nanos, 16, false);
    id.append("-");
    push_numeral(&mut id, process as u128, 16, false);
    id.append("-");
    push_numeral(&mut id, sequence as u128, 16, false);
    (id, name_of_moment(prefix, seconds))
}

/// A new entry for a build.
pub open spec fn entry_for(id: Seq<char>, name: Seq<char>, build: BuildState) -> EntryState {
    EntryState {
        id,
        name,
        preview: preview_of(build),
        icon_ids: seq![],
        stats: stats_of(build.stats),
        combat: CombatRecord { kills: 0, deaths: 0 },
    }
}

fn new_entry(id: String, name: String, build: &BuildSnapshot) -> (entry: BuildEntry)
    ensures
        entry@ == entry_for(id@, name@, build@),
{
    let entry = BuildEntry {
        id,
        name,
        preview: snapshot_preview(build),
        icon_ids: Vec::new(),
        stats: stats_preview(build),
        combat: CombatRecord { kills: 0, deaths: 0 },
    };
    assert(entry@ =~= entry_for(id@, name@, build@));
    entry
}

/// The library with one build more, which is then the active one.
pub open spec fn created(state: LibraryState, entry: EntryState) -> LibraryState {
    LibraryState { builds: state.builds.push(entry), active: Some(entry.id), ..state }
}

/// The library with a new build; `None` where its id is in use, in the library or as a file, and
/// another one is to be made up.
pub fn create(state: &State, id: String, name: String, file_exists: bool, build: &BuildSnapshot) -> (next:
    Option<State>)
    ensures
        match next {
            Some(next) => !file_exists && !is_listed(state@.builds, id@) && next@ == created(
                state@,
                entry_for(id@, name@, build@),
            ),
            None => file_exists || is_listed(state@.builds, id@),
        },
{
    if file_exists || find(&state.index.builds, id.as_str()).is_some() {
        return None;
    }
    let mut next = state.copied();
    let active = id.clone();
    let entry = new_entry(id, name, build);
    next.index.builds.push(entry);
    next.active_build = Some(active);
    assert(next@.builds =~= state@.builds.push(entry@));
    assert(next@ =~= created(state@, entry@));
    Some(next)
}

/// The name of the file of a build.
pub open spec fn file_of(id: Seq<char>) -> Seq<char> {
    id + ".json"@
}

/// The name of the file of a build.
pub fn snapshot_file(id: &str) -> (name: String)
    ensures
        name@ == file_of(id@),
{
    let mut name = id.to_owned();
    name.append(".json");
    name
}

/// The name of the file to read a build from.
pub fn load(state: &State, id: &str) -> (file: Result<String, LibraryError>)
    ensures
        match file {
            Ok(name) => is_listed(state@.builds, id@) && name@ == file_of(id@),
            Err(error) => !is_listed(state@.builds, id@) && is_not_found(error, id@),
        },
{
    match find(&state.index.builds, id) {
        Some(_) => Ok(snapshot_file(id)),
        None => Err(LibraryError::NotFound(id.to_owned())),
    }
}

/// The library with other contents of one build: its id, name and record stay, and it is the
/// active one.
pub open spec fn overwritten(state: LibraryState, id: Seq<char>, build: BuildState) -> LibraryState {
    let at = position(state.builds, id);
    LibraryState {
        builds: state.builds.update(
            at,
            EntryState {
                preview: preview_of(build),
                icon_ids: seq![],
                stats: stats_of(build.stats),
                ..state.builds[at]
            },
        ),
        active: Some(id),
        ..state
    }
}

/// The library with other contents of one build.
pub fn overwrite(state: &State, id: &str, build: &BuildSnapshot) -> (next: Result<State, LibraryError>)
    ensures
        match next {
            Ok(next) => is_listed(state@.builds, id@) && next@ == overwritten(
                state@,
                id@,
                build@,
            ),
            Err(error) => !is_listed(state@.builds, id@) && is_not_found(error, id@),
        },
{
    let at: usize = match find(&state.index.builds, id) {
        Some(at) => at,
        None => {
            return Err(LibraryError::NotFound(id.to_owned()));
        },
    };
    let mut next = state.copied();
    let mut entry = state.index.builds[at].copied();
    entry.preview = snapshot_preview(build);
    entry.icon_ids = Vec::new();
    entry.stats = stats_preview(build);
    assert(next@.builds.len() == next.index.builds@.len());
    next.index.builds.set(at, entry);
    next.active_build = Some(id.to_owned());
    assert(next@.builds =~= overwritten(state@, id@, build@).builds);
    Ok(next)
}

/// The build that was created, loaded or overwritten last, where it still exists.
pub open spec fn active_of(state: LibraryState) -> Option<Seq<char>> {
    match state.active {
        Some(id) if is_listed(state.builds, id) => Some(id),
        _ => None,
    }
}

/// The build that was created, loaded or overwritten last, where it still exists; none of a
/// library that could not be opened.
pub fn active(state: Option<&State>) -> (id: Option<String>)
    ensures
        text_or_none(id) == match as_opened(state) {
            Some(state) => active_of(state),
            None => None,
        },
{
    let state = match state {
        Some(state) => state,
        None => {
            return None;
        },
    };
    match &state.active_build {
        Some(id) => if find(&state.index.builds, id.as_str()).is_some() {
            Some(id.clone())
        } else {
            None
        },
        None => None,
    }
}

/// The name and the record of the active build.
pub fn active_combat(state: Option<&State>) -> (record: Option<(String, CombatRecord)>)
    ensures
        match as_opened(state) {
            Some(state) => match active_of(state) {
                Some(id) => {
                    let entry = state.builds[position(state.builds, id)];
                    record matches Some(pair) && pair.0@ == entry.name && pair.1 == entry.combat
                },
                None => record is None,
            },
            None => record is None,
        },
{
    let state = match state {
        Some(state) => state,
        None => {
            return None;
        },
    };
    match &state.active_build {
        Some(id) => match find(&state.index.builds, id.as_str()) {
            Some(at) => {
                let entry = &state.index.builds[at];
                assert(state@.builds[at as int] == entry@);
                Some((entry.name.clone(), entry.combat))
            },
            None => None,
        },
        None => None,
    }
}

/// Makes a build the active one.
pub fn set_active(state: &mut State, id: &str) -> (done: Result<(), LibraryError>)
    ensures
        match done {
            Ok(_) => is_listed(old(state)@.builds, id@) && final(state)@ == (LibraryState {
                active: Some(id@),
                ..old(state)@
            }),
            Err(error) => !is_listed(old(state)@.builds, id@) && is_not_found(error, id@)
                && final(state)@ == old(state)@,
        },
{
    if find(&state.index.builds, id).is_none() {
        return Err(LibraryError::NotFound(id.to_owned()));
    }
    state.active_build = Some(id.to_owned());
    Ok(())
}

/// One number added to another, up to the largest.
pub open spec fn capped_sum(a: u32, b: u32) -> u32 {
    if a + b > u32::MAX {
        u32::MAX
    } else {
        (a + b) as u32
    }
}

/// The library with another record of one build.
pub open spec fn with_record(state: LibraryState, at: int, combat: CombatRecord) -> LibraryState {
    LibraryState {
        builds: state.builds.update(at, EntryState { combat, ..state.builds[at] }),
        ..state
    }
}

/// A record with some more duels.
pub open spec fn more(record: CombatRecord, kills: u32, deaths: u32) -> CombatRecord {
    CombatRecord {
        kills: capped_sum(record.kills, kills),
        deaths: capped_sum(record.deaths, deaths),
    }
}

fn set_record(state: &State, at: usize, combat: CombatRecord) -> (next: State)
    requires
        at < state.index.builds@.len(),
    ensures
        next@ == with_record(state@, at as int, combat),
{
    let mut next = state.copied();
    let mut entry = state.index.builds[at].copied();
    entry.combat = combat;
    assert(next@.builds.len() == next.index.builds@.len());
    next.index.builds.set(at, entry);
    assert(next@.builds =~= with_record(state@, at as int, combat).builds);
    next
}

/// What counting some duels for the active build comes to.
pub enum Counted {
    /// There was nothing to count, or no active build.
    Nothing,
    /// The active build is gone; it is active no more.
    Gone,
    /// The library with the new record, and that record.
    Record(State, CombatRecord),
}

/// Counts some duels for the active build.
pub fn add_active_combat(state: &State, kills: u32, deaths: u32) -> (counted: Counted)
    ensures
        match counted {
            Counted::Nothing => (kills == 0 && deaths == 0) || state@.active is None,
            Counted::Gone => (kills > 0 || deaths > 0) && state@.active is Some && active_of(
                state@,
            ) is None,
            Counted::Record(next, record) => {
                &&& kills > 0 || deaths > 0
                &&& active_of(state@) is Some
                &&& ({
                    let at = position(state@.builds, state@.active->0);
                    &&& record == more(state@.builds[at].combat, kills, deaths)
                    &&& next@ == with_record(state@, at, record)
                })
            },
        },
{
    if kills == 0 && deaths == 0 {
        return Counted::Nothing;
    }
    let id = match &state.active_build {
        Some(id) => id,
        None => {
            return Counted::Nothing;
        },
    };
    match find(&state.index.builds, id.as_str()) {
        Some(at) => {
            let old = state.index.builds[at].combat;
            let record = CombatRecord {
                kills: old.kills.saturating_add(kills),
                deaths: old.deaths.saturating_add(deaths),
            };
            assert(state@.builds[at as int] == state.index.builds@[at as int]@);
            Counted::Record(set_record(state, at, record), record)
        },
        None => Counted::Gone,
    }
}

/// Drops an active build that is gone.
pub fn forget_active(state: &mut State)
    ensures
        final(state)@ == (LibraryState { active: None, ..old(state)@ }),
{
    state.active_build = None;
}

/// The library with an empty record of one build.
pub fn clear_combat(state: &State, id: &str) -> (next: Result<State, LibraryError>)
    ensures
        match next {
            Ok(next) => is_listed(state@.builds, id@) && next@ == with_record(
                state@,
                position(state@.builds, id@),
                CombatRecord { kills: 0, deaths: 0 },
            ),
            Err(error) => !is_listed(state@.builds, id@) && is_not_found(error, id@),
        },
{
    match find(&state.index.builds, id) {
        Some(at) => Ok(set_record(state, at, CombatRecord { kills: 0, deaths: 0 })),
        None => Err(LibraryError::NotFound(id.to_owned())),
    }
}

/// The bindings without those to a build.
pub open spec fn unbound(bindings: Seq<Option<Seq<char>>>, id: Seq<char>) -> Seq<Option<Seq<char>>> {
    bindings.map_values(
        |binding: Option<Seq<char>>|
            if binding == Some(id) {
                None
            } else {
                binding
            },
    )
}

/// The library without a build: nothing is bound to it, and it is not active.
pub open spec fn deleted(state: LibraryState, id: Seq<char>) -> LibraryState {
    LibraryState {
        builds: state.builds.remove(position(state.builds, id)),
        bindings: unbound(state.bindings, id),
        active: if state.active == Some(id) {
            None
        } else {
            state.active
        },
        ..state
    }
}

fn is_text(text: &Option<String>, id: &str) -> (equal: bool)
    ensures
        equal == (text_or_none(*text) == Some(id@)),
{
    match text {
        Some(text) => same(text.as_str(), id),
        None => false,
    }
}

/// The value of some digits; `None` where one of them is no digit.
pub open spec fn digits_value(digits: Seq<char>) -> Option<nat>
    decreases digits.len(),
{
    if digits.len() == 0 {
        Some(0)
    } else {
        match digits_value(digits.drop_last()) {
            Some(value) if '0' <= digits.last() <= '9' => Some(
                value * 10 + (digits.last() as nat - '0' as nat) as nat,
            ),
            _ => None,
        }
    }
}

/// The number that a text says: digits, perhaps after a plus sign, that fit.
pub open spec fn number_of(text: Seq<char>) -> Option<usize> {
    let digits = if text.len() > 0 && text[0] == '+' {
        text.skip(1)
    } else {
        text
    };
    match digits_value(digits) {
        Some(value) if digits.len() > 0 && value <= usize::MAX => Some(value as usize),
        _ => None,
    }
}

proof fn digits_value_grows(digits: Seq<char>, n: int)
    requires
        0 <= n <= digits.len(),
    ensures
        digits_value(digits) is Some ==> digits_value(digits.take(n)) is Some && digits_value(
            digits.take(n),
        )->0 <= digits_value(digits)->0,
    decreases digits.len(),
{
    if n < digits.len() {
        digits_value_grows(digits.drop_last(), n);
        assert(digits.drop_last().take(n) =~= digits.take(n));
    } else {
        assert(digits.take(n) =~= digits);
    }
}

/// The number that some characters say from `from` on.
fn parse_number(chars: &Vec<char>, from: usize) -> (number: Option<usize>)
    requires
        from <= chars@.len(),
    ensures
        number == number_of(chars@.skip(from as int)),
{
    let ghost text = chars@.skip(from as int);
    let mut at: usize = from;
    if at < chars.len() && chars[at] == '+' {
        at = at + 1;
    }
    let start: usize = at;
    let ghost digits = chars@.skip(start as int);
    proof {
        if start > from {
            assert(text[0] == '+');
            assert(text.skip(1) =~= digits);
        } else {
            if text.len() > 0 {
                assert(text[0] == chars@[from as int]);
            }
        }
    }
    if start >= chars.len() {
        return None;
    }
    let mut value: usize = 0;
    assert(digits.take(0) =~= seq![]);
    while at < chars.len()
        invariant
            from <= start <= at <= chars@.len(),
            start < chars@.len(),
            digits == chars@.skip(start as int),
            number_of(text) == match digits_value(digits) {
                Some(value) if digits.len() > 0 && value <= usize::MAX => Some(value as usize),
                _ => None,
            },
            text == chars@.skip(from as int),
            digits_value(digits.take(at - start)) == Some(value as nat),
        decreases chars@.len() - at,
    {
        let c: char = chars[at];
        proof {
            assert(digits.take(at - start + 1).drop_last() =~= digits.take(at - start));
            assert(digits.take(at - start + 1).last() == c);
            digits_value_grows(digits, at - start + 1);
        }
        if c < '0' || c > '9' {
            return None;
        }
        let digit: usize = (c as u32 - '0' as u32) as usize;
        if value > (usize::MAX - digit) / 10 {
            return None;
        }
        value = value * 10 + digit;
        at = at + 1;
    }
    assert(digits.take(digits.len() as int) =~= digits);
    Some(value)
}

/// The numbered slot that a build was taken over from.
pub open spec fn legacy_slot_of(id: Seq<char>) -> Option<usize> {
    let prefix = "legacy-bd"@;
    if prefix.len() <= id.len() && id.take(prefix.len() as int) == prefix {
        number_of(id.skip(prefix.len() as int))
    } else {
        None
    }
}

/// The numbered slot that a build was taken over from, whose file goes with it.
pub fn legacy_slot(id: &str) -> (slot: Option<usize>)
    ensures
        slot == legacy_slot_of(id@),
{
    let chars: Vec<char> = chars_of(id);
    let prefix: Vec<char> = chars_of("legacy-bd");
    if chars.len() < prefix.len() {
        return None;
    }
    let mut at: usize = 0;
    while at < prefix.len()
        invariant
            at <= prefix@.len() <= chars@.len(),
            chars@ == id@,
            prefix@ == "legacy-bd"@,
            forall|i: int| 0 <= i < at ==> chars@[i] == prefix@[i],
        decreases prefix@.len() - at,
    {
        if chars[at] != prefix[at] {
            assert(id@.take(prefix@.len() as int)[at as int] != prefix@[at as int]);
            return None;
        }
        at = at + 1;
    }
    assert(id@.take(prefix@.len() as int) =~= prefix@);
    parse_number(&chars, prefix.len())
}

/// The library without a build, and the numbered slot whose file goes with it.
pub fn delete(state: &State, id: &str) -> (next: Result<(State, Option<usize>), LibraryError>)
    ensures
        match next {
            Ok((next, slot)) => is_listed(state@.builds, id@) && next@ == deleted(state@, id@)
                && slot == legacy_slot_of(id@),
            Err(error) => !is_listed(state@.builds, id@) && is_not_found(error, id@),
        },
{
    let at: usize = match find(&state.index.builds, id) {
        Some(at) => at,
        None => {
            return Err(LibraryError::NotFound(id.to_owned()));
        },
    };
    let mut next = state.copied();
    assert(next@.builds.len() == next.index.builds@.len());
    let ghost builds = next.index.builds@;
    let _ = next.index.builds.remove(at);
    assert(entries(next.index.builds@) =~= entries(builds).remove(at as int));
    let mut bindings: Vec<Option<String>> = Vec::new();
    let mut key: usize = 0;
    while key < state.config.bindings.len()
        invariant
            key <= state.config.bindings@.len(),
            bindings@.len() == key,
            forall|i: int|
                0 <= i < key ==> text_or_none(#[trigger] bindings@[i]) == unbound(
                    state@.bindings,
                    id@,
                )[i],
        decreases state.config.bindings@.len() - key,
    {
        let kept = if is_text(&state.config.bindings[key], id) {
            None
        } else {
            copy_option(&state.config.bindings[key])
        };
        bindings.push(kept);
        key = key + 1;
    }
    assert(targets(bindings@) =~= unbound(state@.bindings, id@));
    next.config.bindings = bindings;
    if is_text(&state.active_build, id) {
        next.active_build = None;
    }
    Ok((next, legacy_slot(id)))
}

/// The library with another name of one build.
pub open spec fn renamed(state: LibraryState, id: Seq<char>, name: Seq<char>) -> LibraryState {
    let at = position(state.builds, id);
    LibraryState {
        builds: state.builds.update(at, EntryState { name, ..state.builds[at] }),
        ..state
    }
}

/// The library with another name of one build: without the white space around it, and not
/// empty.
pub fn rename(state: &State, id: &str, name: &str) -> (next: Result<State, LibraryError>)
    ensures
        match next {
            Ok(next) => trimmed(name@).len() > 0 && is_listed(state@.builds, id@) && next@
                == renamed(state@, id@, trimmed(name@)),
            Err(error) => if trimmed(name@).len() == 0 {
                error is NameEmpty
            } else {
                !is_listed(state@.builds, id@) && is_not_found(error, id@)
            },
        },
{
    let inner = trim(name);
    if inner.unicode_len() == 0 {
        return Err(LibraryError::NameEmpty);
    }
    let at: usize = match find(&state.index.builds, id) {
        Some(at) => at,
        None => {
            return Err(LibraryError::NotFound(id.to_owned()));
        },
    };
    let mut next = state.copied();
    let mut entry = state.index.builds[at].copied();
    entry.name = inner;
    assert(next@.builds.len() == next.index.builds@.len());
    next.index.builds.set(at, entry);
    assert(next@.builds =~= renamed(state@, id@, trimmed(name@)).builds);
    Ok(next)
}

/// The build that a key loads.
pub open spec fn bound_to(state: LibraryState, index: int) -> Option<Seq<char>> {
    if 0 <= index < state.bindings.len() {
        state.bindings[index]
    } else {
        None
    }
}

/// The build that a key loads; none where the library could not be opened.
pub fn binding(state: Option<&State>, index: usize) -> (id: Option<String>)
    ensures
        text_or_none(id) == match as_opened(state) {
            Some(state) => bound_to(state, index as int),
            None => None,
        },
{
    let state = match state {
        Some(state) => state,
        None => {
            return None;
        },
    };
    if index < state.config.bindings.len() {
        assert(state@.bindings[index as int] == text_or_none(
            state.config.bindings@[index as int],
        ));
        copy_option(&state.config.bindings[index])
    } else {
        None
    }
}

/// Bindings for at least `length` keys.
pub open spec fn widened(bindings: Seq<Option<Seq<char>>>, length: int) -> Seq<Option<Seq<char>>> {
    if bindings.len() >= length {
        bindings
    } else {
        bindings + Seq::new((length - bindings.len()) as nat, |i: int| None)
    }
}

fn widen(bindings: &mut Vec<Option<String>>, length: usize)
    ensures
        targets(final(bindings)@) == widened(targets(old(bindings)@), length as int),
{
    let ghost start = targets(bindings@);
    while bindings.len() < length
        invariant
            start.len() <= bindings@.len(),
            bindings@.len() <= length || bindings@.len() == start.len(),
            targets(bindings@) == start + Seq::new(
                (bindings@.len() - start.len()) as nat,
                |i: int| None,
            ),
        decreases length - bindings@.len(),
    {
        let ghost before = targets(bindings@);
        bindings.push(None);
        assert(targets(bindings@) =~= before.push(None));
        assert(targets(bindings@) =~= start + Seq::new(
            (bindings@.len() - start.len()) as nat,
            |i: int| None,
        ));
    }
    assert(targets(bindings@) =~= widened(start, length as int));
}

/// The library with another build for a key, or none.
pub open spec fn bound(state: LibraryState, index: int, id: Option<Seq<char>>) -> LibraryState {
    LibraryState { bindings: widened(state.bindings, index + 1).update(index, id), ..state }
}

/// The library with another build for a key, or none; the build has to exist.
pub fn bind(state: &State, index: usize, id: Option<&str>) -> (next: Result<State, LibraryError>)
    requires
        index < usize::MAX,
    ensures
        match id {
            Some(id) => match next {
                Ok(next) => is_listed(state@.builds, id@) && next@ == bound(
                    state@,
                    index as int,
                    Some(id@),
                ),
                Err(error) => !is_listed(state@.builds, id@) && is_not_found(error, id@),
            },
            None => next matches Ok(next) && next@ == bound(state@, index as int, None),
        },
{
    match id {
        Some(id) => {
            if find(&state.index.builds, id).is_none() {
                return Err(LibraryError::NotFound(id.to_owned()));
            }
        },
        None => {},
    }
    let mut next = state.copied();
    widen(&mut next.config.bindings, index + 1);
    let ghost wide = next.config.bindings@;
    assert(targets(wide).len() == wide.len());
    let target: Option<String> = match id {
        Some(id) => Some(id.to_owned()),
        None => None,
    };
    let ghost bound_id = text_or_none(target);
    next.config.bindings.set(index, target);
    assert(targets(next.config.bindings@) =~= targets(wide).update(index as int, bound_id));
    Ok(next)
}

/// Whether there is care: off where the library could not be opened.
pub open spec fn care_of(state: Option<LibraryState>) -> bool {
    state matches Some(state) && state.care_enabled
}

/// Whether there is care after a build was put on: off where the library could not be opened.
pub fn care_enabled(state: Option<&State>) -> (enabled: bool)
    ensures
        enabled == care_of(as_opened(state)),
{
    match state {
        Some(state) => state.config.care_enabled,
        None => false,
    }
}

/// The library with the care on or off.
pub fn set_care_enabled(state: &State, enabled: bool) -> (next: State)
    ensures
        next@ == (LibraryState { care_enabled: enabled, ..state@ }),
{
    let mut next = state.copied();
    next.config.care_enabled = enabled;
    next
}

/// Takes over the setting that was to be written: the library has it where the write succeeded,
/// and stays as it is where it failed.
pub fn care_written(state: &mut State, enabled: bool, written: bool)
    ensures
        final(state)@ == care_changed(old(state)@, enabled, written),
{
    if written {
        state.config.care_enabled = enabled;
    }
}

/// The library after the care was to be set.
pub open spec fn care_changed(state: LibraryState, enabled: bool, written: bool) -> LibraryState {
    if written {
        LibraryState { care_enabled: enabled, ..state }
    } else {
        state
    }
}

/// The care that was set and written is read, a failed write leaves it as it was, and it is off
/// where the library could not be opened.
pub proof fn set_care_is_read(state: LibraryState, enabled: bool)
    ensures
        care_of(Some(care_changed(state, enabled, true))) == enabled,
        care_of(Some(care_changed(state, enabled, false))) == care_of(Some(state)),
        !care_of(None),
{
}

/// Whether holding the control key picks a build: off where the library could not be opened.
pub fn ctrl_picker_enabled(state: Option<&State>) -> (enabled: bool)
    ensures
        enabled == (as_opened(state) matches Some(state) && state.ctrl_picker_enabled),
{
    match state {
        Some(state) => state.config.ctrl_picker_enabled,
        None => false,
    }
}

/// The library with picking by the control key on or off.
pub fn set_ctrl_picker_enabled(state: &State, enabled: bool) -> (next: State)
    ensures
        next@ == (LibraryState { ctrl_picker_enabled: enabled, ..state@ }),
{
    let mut next = state.copied();
    next.config.ctrl_picker_enabled = enabled;
    next
}

/// The language with the code that is set, or `fallback` where no language has it.
pub open spec fn language_of(state: LibraryState, fallback: Lang) -> Lang {
    if exists|lang: Lang| code_of(lang) == state.language {
        choose|lang: Lang| code_of(lang) == state.language
    } else {
        fallback
    }
}

/// The language of the interface: the one that is set, or the one that is shown where none is set
/// or the library could not be opened.
pub fn language(state: Option<&State>, shown: Lang) -> (lang: Lang)
    ensures
        lang == match as_opened(state) {
            Some(state) => language_of(state, shown),
            None => shown,
        },
{
    let state = match state {
        Some(state) => state,
        None => {
            return shown;
        },
    };
    match Lang::from_code(state.config.language.as_str()) {
        Some(lang) => {
            proof {
                codes_differ(lang, language_of(state@, shown));
            }
            lang
        },
        None => shown,
    }
}

/// The library with another language.
pub fn set_language(state: &State, lang: Lang) -> (next: State)
    ensures
        next@ == (LibraryState { language: code_of(lang), ..state@ }),
{
    let mut next = state.copied();
    next.config.language = lang.code().to_owned();
    next
}

/// The library and the language that is shown, after a language was to be set: both follow where
/// the write succeeded, and both stay where it failed.
pub open spec fn language_changed(state: LibraryState, shown: Lang, lang: Lang, written: bool) -> (
    LibraryState,
    Lang,
) {
    if written {
        (LibraryState { language: code_of(lang), ..state }, lang)
    } else {
        (state, shown)
    }
}

/// Takes over the language that was to be written, in the library and on the screen.
pub fn language_written(state: &mut State, shown: &mut Lang, lang: Lang, written: bool)
    ensures
        (final(state)@, *final(shown)) == language_changed(old(state)@, *old(shown), lang, written),
{
    if written {
        state.config.language = lang.code().to_owned();
        *shown = lang;
    }
}

/// The library with the next language, and that language.
pub fn cycle_language(state: &State, fallback: Lang) -> (next: (State, Lang))
    ensures
        next.1 == after(language_of(state@, fallback)),
        next.0@ == (LibraryState { language: code_of(next.1), ..state@ }),
{
    let lang = language(Some(state), fallback).next();
    (set_language(state, lang), lang)
}

/// Settings that were never saved: English, nothing bound, everything off.
pub fn default_config() -> (config: Config)
    ensures
        targets(config.bindings@) == Seq::new(BINDING_SLOTS as nat, |i: int| None::<Seq<char>>),
        config.bindings@.len() == 4,
        !config.care_enabled,
        !config.legacy_migrated,
        config.language@ == code_of(Lang::En),
        !config.ctrl_picker_enabled,
{
    let mut bindings: Vec<Option<String>> = Vec::new();
    widen(&mut bindings, BINDING_SLOTS);
    assert(targets(bindings@) =~= Seq::new(BINDING_SLOTS as nat, |i: int| None::<Seq<char>>));
    assert(targets(bindings@).len() == bindings@.len());
    Config {
        bindings,
        care_enabled: false,
        legacy_migrated: false,
        language: Lang::En.code().to_owned(),
        ctrl_picker_enabled: false,
    }
}

/// The library as it is opened: with what was read of it, keys for at least four bindings, and a
/// language that exists.
pub open spec fn opened(builds: Seq<EntryState>, config: Config) -> LibraryState {
    LibraryState {
        initialized: false,
        active: None,
        builds,
        bindings: widened(targets(config.bindings@), BINDING_SLOTS as int),
        care_enabled: config.care_enabled,
        legacy_migrated: config.legacy_migrated,
        language: if exists|lang: Lang| code_of(lang) == config.language@ {
            config.language@
        } else {
            code_of(Lang::En)
        },
        ctrl_picker_enabled: config.ctrl_picker_enabled,
    }
}

/// Opens the library with what was read of it; what was never saved is at its default.
pub fn open(index: Option<LibraryIndex>, config: Option<Config>) -> (state: State)
    ensures
        match config {
            Some(config) => state@ == opened(
                match index {
                    Some(index) => entries(index.builds@),
                    None => seq![],
                },
                config,
            ),
            None => state@ == (LibraryState {
                initialized: false,
                active: None,
                builds: match index {
                    Some(index) => entries(index.builds@),
                    None => seq![],
                },
                bindings: Seq::new(BINDING_SLOTS as nat, |i: int| None),
                care_enabled: false,
                legacy_migrated: false,
                language: code_of(Lang::En),
                ctrl_picker_enabled: false,
            }),
        },
{
    let index = match index {
        Some(index) => index,
        None => {
            let builds: Vec<BuildEntry> = Vec::new();
            assert(entries(builds@) =~= seq![]);
            LibraryIndex { builds }
        },
    };
    let mut config = match config {
        Some(config) => config,
        None => default_config(),
    };
    widen(&mut config.bindings, BINDING_SLOTS);
    let lang = match Lang::from_code(config.language.as_str()) {
        Some(lang) => lang,
        None => Lang::En,
    };
    config.language = lang.code().to_owned();
    let state = State { initialized: false, active_build: None, index, config };
    state
}

/// The id of the build that is taken over from a numbered slot.
pub open spec fn legacy_id_of(slot: int) -> Seq<char> {
    "legacy-bd"@ + decimal(slot + 1)
}

/// The id of the build that is taken over from a numbered slot.
pub fn legacy_id(slot: usize) -> (id: String)
    requires
        slot < usize::MAX,
    ensures
        id@ == legacy_id_of(slot as int),
{
    let mut id = "legacy-bd".to_owned();
    push_decimal(&mut id, slot as u64 + 1);
    id
}

/// A numbered slot that holds a build.
pub struct LegacyBuild {
    pub slot: usize,
    /// The name that the build gets.
    pub name: String,
    pub build: BuildSnapshot,
}

/// The builds with one more taken over, unless it was before.
pub open spec fn with_legacy(builds: Seq<EntryState>, found: LegacyBuild) -> Seq<EntryState> {
    let id = legacy_id_of(found.slot as int);
    if is_listed(builds, id) {
        builds
    } else {
        builds.push(entry_for(id, found.name@, found.build@))
    }
}

/// The builds with all found ones taken over.
pub open spec fn with_legacies(builds: Seq<EntryState>, found: Seq<LegacyBuild>) -> Seq<EntryState>
    decreases found.len(),
{
    if found.len() == 0 {
        builds
    } else {
        with_legacy(with_legacies(builds, found.drop_last()), found.last())
    }
}

/// The bindings with the key of a numbered slot bound to its build, unless it is bound.
pub open spec fn bind_legacy(bindings: Seq<Option<Seq<char>>>, slot: int) -> Seq<Option<Seq<char>>> {
    let wide = widened(bindings, slot + 1);
    if wide[slot] is None {
        wide.update(slot, Some(legacy_id_of(slot)))
    } else {
        wide
    }
}

/// The bindings with the keys of all found slots bound, unless they are.
pub open spec fn bind_legacies(bindings: Seq<Option<Seq<char>>>, found: Seq<LegacyBuild>) -> Seq<
    Option<Seq<char>>,
>
    decreases found.len(),
{
    if found.len() == 0 {
        bindings
    } else {
        bind_legacy(bind_legacies(bindings, found.drop_last()), found.last().slot as int)
    }
}

/// The library after the numbered slots were taken over.
pub open spec fn migrated(state: LibraryState, found: Seq<LegacyBuild>) -> LibraryState {
    LibraryState {
        builds: with_legacies(state.builds, found),
        bindings: bind_legacies(state.bindings, found),
        legacy_migrated: true,
        ..state
    }
}

/// Takes over the builds of the numbered slots, and binds them to their keys where these are
/// free.
pub fn migrate_legacy(state: &mut State, found: &Vec<LegacyBuild>)
    requires
        forall|i: int| 0 <= i < found@.len() ==> (#[trigger] found@[i]).slot < LEGACY_SLOTS,
    ensures
        final(state)@ == migrated(old(state)@, found@),
{
    let ghost start = state@;
    let mut at: usize = 0;
    assert(found@.take(0) =~= seq![]);
    while at < found.len()
        invariant
            at <= found@.len(),
            forall|i: int| 0 <= i < found@.len() ==> (#[trigger] found@[i]).slot < LEGACY_SLOTS,
            state@ == (LibraryState {
                builds: with_legacies(start.builds, found@.take(at as int)),
                ..start
            }),
        decreases found@.len() - at,
    {
        assert(found@.take(at + 1).drop_last() =~= found@.take(at as int));
        let one = &found[at];
        assert(one.slot < LEGACY_SLOTS);
        let id = legacy_id(one.slot);
        if find(&state.index.builds, id.as_str()).is_none() {
            let ghost before = state@.builds;
            let entry = new_entry(id, one.name.clone(), &one.build);
            state.index.builds.push(entry);
            assert(state@.builds =~= before.push(entry@));
        }
        at = at + 1;
    }
    let ghost listed = state@.builds;
    assert(found@.take(found@.len() as int) =~= found@);
    let mut key: usize = 0;
    while key < found.len()
        invariant
            key <= found@.len(),
            forall|i: int| 0 <= i < found@.len() ==> (#[trigger] found@[i]).slot < LEGACY_SLOTS,
            state@ == (LibraryState {
                builds: listed,
                bindings: bind_legacies(start.bindings, found@.take(key as int)),
                ..start
            }),
        decreases found@.len() - key,
    {
        assert(found@.take(key + 1).drop_last() =~= found@.take(key as int));
        let slot: usize = found[key].slot;
        assert(slot < LEGACY_SLOTS);
        let ghost before = state@.bindings;
        widen(&mut state.config.bindings, slot + 1);
        assert(state@.bindings == widened(before, slot + 1));
        assert(state@.bindings.len() == state.config.bindings@.len());
        let ghost wide = state.config.bindings@;
        assert(state@.bindings[slot as int] == text_or_none(wide[slot as int]));
        if state.config.bindings[slot].is_none() {
            let id = legacy_id(slot);
            state.config.bindings.set(slot, Some(id));
            assert(targets(state.config.bindings@) =~= targets(wide).update(
                slot as int,
                Some(legacy_id_of(slot as int)),
            ));
        }
        key = key + 1;
    }
    state.config.legacy_migrated = true;
}

/// An entry after its build was read: its preview and attributes are those of the build.
pub open spec fn refreshed(entry: EntryState, build: Option<BuildState>) -> EntryState {
    match build {
        Some(build) => EntryState {
            preview: preview_of(build),
            stats: stats_of(build.stats),
            ..entry
        },
        None => entry,
    }
}

/// What was read of a build, if anything.
pub open spec fn build_state(build: Option<BuildSnapshot>) -> Option<BuildState> {
    match build {
        Some(build) => Some(build@),
        None => None,
    }
}

/// Brings the previews up to date with the builds that could be read, and marks the library as
/// open. Tells whether anything changed.
pub fn refresh_previews(state: &mut State, read: &Vec<Option<BuildSnapshot>>) -> (changed: bool)
    requires
        read@.len() == old(state)@.builds.len(),
    ensures
        final(state)@ == (LibraryState {
            builds: Seq::new(
                old(state)@.builds.len(),
                |i: int| refreshed(old(state)@.builds[i], build_state(read@[i])),
            ),
            initialized: true,
            ..old(state)@
        }),
        changed == (final(state)@.builds != old(state)@.builds),
{
    let ghost start = state@;
    let mut changed = false;
    let mut at: usize = 0;
    assert(start.builds.len() == state.index.builds@.len());
    while at < state.index.builds.len()
        invariant
            at <= state.index.builds@.len(),
            state.index.builds@.len() == start.builds.len(),
            read@.len() == start.builds.len(),
            state@ == (LibraryState { builds: state@.builds, ..start }),
            forall|i: int|
                0 <= i < at ==> #[trigger] state@.builds[i] == refreshed(
                    start.builds[i],
                    build_state(read@[i]),
                ),
            forall|i: int|
                at <= i < start.builds.len() ==> #[trigger] state@.builds[i] == start.builds[i],
            changed == (state@.builds != start.builds),
        decreases state.index.builds@.len() - at,
    {
        let ghost before = state@.builds;
        let ghost old_entry = start.builds[at as int];
        assert(before[at as int] == old_entry);
        match &read[at] {
            Some(build) => {
                let preview = snapshot_preview(build);
                let stats = stats_preview(build);
                let mut entry = state.index.builds[at].copied();
                let differs = !same(entry.preview.as_str(), preview.as_str()) || entry.stats
                    != stats;
                if differs {
                    entry.preview = preview;
                    entry.stats = stats;
                    state.index.builds.set(at, entry);
                    changed = true;
                    assert(state@.builds =~= before.update(at as int, entry@));
                    assert(state@.builds[at as int] != start.builds[at as int]);
                } else {
                    assert(refreshed(old_entry, Some(build@)) =~= old_entry);
                }
            },
            None => {},
        }
        at = at + 1;
    }
    state.initialized = true;
    assert(state@.builds =~= Seq::new(
        start.builds.len(),
        |i: int| refreshed(start.builds[i], build_state(read@[i])),
    ));
    changed
}

/// Whether no two builds have the same id.
pub open spec fn ids_differ(builds: Seq<EntryState>) -> bool {
    forall|i: int, j: int|
        0 <= i < j < builds.len() ==> (#[trigger] builds[i]).id != (#[trigger] builds[j]).id
}

/// A build that is created has an id of its own, is listed last, and is the active one.
pub proof fn created_builds_are_told_apart(state: LibraryState, entry: EntryState)
    requires
        ids_differ(state.builds),
        !is_listed(state.builds, entry.id),
    ensures
        ids_differ(created(state, entry).builds),
        created(state, entry).builds.last() == entry,
        active_of(created(state, entry)) == Some(entry.id),
        position(created(state, entry).builds, entry.id) == state.builds.len(),
{
    let builds = created(state, entry).builds;
    assert(builds[state.builds.len() as int] == entry);
    position_is_first(builds, entry.id, 0);
    let at = position(builds, entry.id);
    if at < state.builds.len() {
        assert(state.builds[at].id == entry.id);
    }
}

/// Overwriting a build keeps its id, its name, its record, its place and what is bound to it,
/// and touches no other build.
pub proof fn overwriting_keeps_the_entry(state: LibraryState, id: Seq<char>, build: BuildState)
    requires
        is_listed(state.builds, id),
    ensures
        ({
            let next = overwritten(state, id, build);
            let at = position(state.builds, id);
            &&& 0 <= at < state.builds.len()
            &&& next.builds.len() == state.builds.len()
            &&& next.builds[at].id == id
            &&& next.builds[at].name == state.builds[at].name
            &&& next.builds[at].combat == state.builds[at].combat
            &&& next.bindings == state.bindings
            &&& forall|i: int|
                0 <= i < state.builds.len() && i != at ==> next.builds[i] == state.builds[i]
            &&& ids_differ(state.builds) ==> ids_differ(next.builds)
            &&& active_of(next) == Some(id)
        }),
{
    position_is_first(state.builds, id, 0);
    let i = choose|i: int| 0 <= i < state.builds.len() && (#[trigger] state.builds[i]).id == id;
    assert(state.builds[i].id == id);
    let next = overwritten(state, id, build);
    let at = position(state.builds, id);
    assert(next.builds[at].id == id);
    if ids_differ(state.builds) {
        assert forall|a: int, b: int| 0 <= a < b < next.builds.len() implies (
        #[trigger] next.builds[a]).id != (#[trigger] next.builds[b]).id by {
            assert(next.builds[a].id == state.builds[a].id);
            assert(next.builds[b].id == state.builds[b].id);
        }
    }
}

/// A deleted build is gone: it is not listed, no key loads it, and it is not active.
pub proof fn deleted_builds_are_gone(state: LibraryState, id: Seq<char>)
    requires
        ids_differ(state.builds),
        is_listed(state.builds, id),
    ensures
        !is_listed(deleted(state, id).builds, id),
        forall|key: int| bound_to(deleted(state, id), key) != Some(id),
        active_of(deleted(state, id)) != Some(id),
        ids_differ(deleted(state, id).builds),
        deleted(state, id).builds.len() == state.builds.len() - 1,
{
    position_is_first(state.builds, id, 0);
    let at = position(state.builds, id);
    let k = choose|i: int| 0 <= i < state.builds.len() && (#[trigger] state.builds[i]).id == id;
    assert(state.builds[k].id == id);
    let left = deleted(state, id).builds;
    assert forall|i: int| 0 <= i < left.len() implies (#[trigger] left[i]).id != id by {
        if i < at {
            assert(left[i] == state.builds[i]);
        } else {
            assert(left[i] == state.builds[i + 1]);
        }
    }
    assert forall|i: int, j: int| 0 <= i < j < left.len() implies (#[trigger] left[i]).id != (
    #[trigger] left[j]).id by {
        let a = if i < at {
            i
        } else {
            i + 1
        };
        let b = if j < at {
            j
        } else {
            j + 1
        };
        assert(left[i] == state.builds[a] && left[j] == state.builds[b]);
    }
}

/// Deleting one build leaves the bindings to all others as they were.
pub proof fn deleting_keeps_other_bindings(state: LibraryState, id: Seq<char>, key: int)
    requires
        bound_to(state, key) != Some(id),
    ensures
        bound_to(deleted(state, id), key) == bound_to(state, key),
{
}

/// A key that was bound loads the build that it was bound to, and no other key is changed.
pub proof fn bound_keys_load_their_build(
    state: LibraryState,
    index: int,
    id: Option<Seq<char>>,
    other: int,
)
    requires
        0 <= index,
        other != index,
    ensures
        bound_to(bound(state, index, id), index) == id,
        bound_to(bound(state, index, id), other) == bound_to(state, other),
{
}

/// Renaming a build changes nothing but its name.
pub proof fn renaming_only_renames(state: LibraryState, id: Seq<char>, name: Seq<char>)
    requires
        is_listed(state.builds, id),
    ensures
        ({
            let next = renamed(state, id, name);
            let at = position(state.builds, id);
            &&& 0 <= at < state.builds.len()
            &&& next.builds[at].name == name
            &&& next.builds[at] == (EntryState { name, ..state.builds[at] })
            &&& forall|i: int|
                0 <= i < state.builds.len() && i != at ==> next.builds[i] == state.builds[i]
            &&& next.bindings == state.bindings
            &&& next.active == state.active
        }),
{
    position_is_first(state.builds, id, 0);
    let k = choose|i: int| 0 <= i < state.builds.len() && (#[trigger] state.builds[i]).id == id;
    assert(state.builds[k].id == id);
}

/// The language that was set is the language.
pub proof fn set_language_is_read(state: LibraryState, lang: Lang, fallback: Lang)
    ensures
        language_of(LibraryState { language: code_of(lang), ..state }, fallback) == lang,
{
    let next = LibraryState { language: code_of(lang), ..state };
    assert(code_of(lang) == next.language);
    codes_differ(lang, language_of(next, fallback));
}

/// A language that was written is the language of the library, under its code, and the one that
/// is shown. After a failed write both are what they were. So what is shown is what is set,
/// whatever came of the writes.
pub proof fn shown_language_is_the_one_set(
    state: LibraryState,
    shown: Lang,
    lang: Lang,
    written: bool,
    fallback: Lang,
)
    ensures
        ({
            let (after, now) = language_changed(state, shown, lang, written);
            &&& written ==> language_of(after, fallback) == lang && now == lang && after.language
                == code_of(lang)
            &&& !written ==> language_of(after, fallback) == language_of(state, fallback) && now
                == shown && after.language == state.language
            &&& language_of(state, fallback) == shown ==> language_of(after, fallback) == now
        }),
{
    set_language_is_read(state, lang, fallback);
}

/// Taking the numbered slots over a second time changes nothing.
pub proof fn migrating_again_changes_nothing(state: LibraryState, found: Seq<LegacyBuild>)
    requires
        forall|i: int| 0 <= i < found.len() ==> (#[trigger] found[i]).slot < LEGACY_SLOTS,
    ensures
        migrated(migrated(state, found), found) == migrated(state, found),
{
    let once = migrated(state, found);
    legacies_are_listed(state.builds, found);
    legacies_are_bound(state.bindings, found);
    listed_legacies_stay(once.builds, found);
    bound_legacies_stay(once.bindings, found);
}

/// Every found slot is listed after it was taken over.
proof fn legacies_are_listed(builds: Seq<EntryState>, found: Seq<LegacyBuild>)
    ensures
        forall|i: int|
            0 <= i < found.len() ==> is_listed(
                with_legacies(builds, found),
                legacy_id_of((#[trigger] found[i]).slot as int),
            ),
    decreases found.len(),
{
    if found.len() > 0 {
        let rest = found.drop_last();
        legacies_are_listed(builds, rest);
        let before = with_legacies(builds, rest);
        let now = with_legacies(builds, found);
        assert forall|i: int| 0 <= i < found.len() implies is_listed(
            now,
            legacy_id_of((#[trigger] found[i]).slot as int),
        ) by {
            let id = legacy_id_of(found[i].slot as int);
            if i < rest.len() {
                assert(rest[i] == found[i]);
                let k = choose|k: int| 0 <= k < before.len() && (#[trigger] before[k]).id == id;
                assert(now[k] == before[k]);
            } else if !is_listed(before, id) {
                assert(now[before.len() as int].id == id);
            }
        }
    }
}

/// Where all found slots are listed, taking them over adds nothing.
proof fn listed_legacies_stay(builds: Seq<EntryState>, found: Seq<LegacyBuild>)
    requires
        forall|i: int|
            0 <= i < found.len() ==> is_listed(
                builds,
                legacy_id_of((#[trigger] found[i]).slot as int),
            ),
    ensures
        with_legacies(builds, found) == builds,
    decreases found.len(),
{
    if found.len() > 0 {
        let rest = found.drop_last();
        assert forall|i: int| 0 <= i < rest.len() implies is_listed(
            builds,
            legacy_id_of((#[trigger] rest[i]).slot as int),
        ) by {
            assert(rest[i] == found[i]);
        }
        listed_legacies_stay(builds, rest);
        assert(is_listed(builds, legacy_id_of(found[found.len() - 1].slot as int)));
    }
}

/// Every found slot's key is bound after it was taken over, and keys stay bound.
proof fn legacies_are_bound(bindings: Seq<Option<Seq<char>>>, found: Seq<LegacyBuild>)
    ensures
        bindings.len() <= bind_legacies(bindings, found).len(),
        forall|i: int|
            0 <= i < found.len() ==> (#[trigger] found[i]).slot < bind_legacies(
                bindings,
                found,
            ).len() && bind_legacies(bindings, found)[found[i].slot as int] is Some,
    decreases found.len(),
{
    if found.len() > 0 {
        let rest = found.drop_last();
        legacies_are_bound(bindings, rest);
        let before = bind_legacies(bindings, rest);
        let now = bind_legacies(bindings, found);
        assert forall|i: int| 0 <= i < found.len() implies (#[trigger] found[i]).slot < now.len()
            && now[found[i].slot as int] is Some by {
            if i < rest.len() {
                assert(rest[i] == found[i]);
                assert(before[rest[i].slot as int] is Some);
            }
        }
    }
}

/// Where the keys of all found slots are bound, binding them changes nothing.
proof fn bound_legacies_stay(bindings: Seq<Option<Seq<char>>>, found: Seq<LegacyBuild>)
    requires
        forall|i: int|
            0 <= i < found.len() ==> (#[trigger] found[i]).slot < bindings.len()
                && bindings[found[i].slot as int] is Some,
    ensures
        bind_legacies(bindings, found) == bindings,
    decreases found.len(),
{
    if found.len() > 0 {
        let rest = found.drop_last();
        assert forall|i: int| 0 <= i < rest.len() implies (#[trigger] rest[i]).slot < bindings.len()
            && bindings[rest[i].slot as int] is Some by {
            assert(rest[i] == found[i]);
        }
        bound_legacies_stay(bindings, rest);
        assert(found[found.len() - 1].slot < bindings.len());
    }
}

/// The digits of a number have its value.
proof fn numerals_have_their_value(n: nat)
    ensures
        digits_value(numeral(n, 10, false)) == Some(n),
        numeral(n, 10, false).len() > 0,
        numeral(n, 10, false)[0] != '+',
    decreases n,
{
    let text = numeral(n, 10, false);
    let rest = text.drop_last();
    if n >= 10 {
        numerals_have_their_value(n / 10);
        assert(rest =~= numeral(n / 10, 10, false));
        assert(text[0] == rest[0]);
        assert(text.last() == crate::text::digit_char((n % 10) as int, false));
        assert(text.last() as nat - '0' as nat == n % 10);
        assert(digits_value(text) == Some(n / 10 * 10 + n % 10));
    } else {
        assert(rest =~= seq![]);
        assert(digits_value(rest) == Some(0nat));
        assert(text.last() as nat - '0' as nat == n);
    }
}

/// Deleting a build that was taken over takes the file of its own numbered slot along.
pub proof fn legacy_ids_name_their_slot(slot: usize)
    requires
        slot < usize::MAX,
    ensures
        legacy_slot_of(legacy_id_of(slot as int)) == Some((slot + 1) as usize),
{
    let prefix = "legacy-bd"@;
    let id = legacy_id_of(slot as int);
    let n = (slot + 1) as nat;
    assert(id.take(prefix.len() as int) =~= prefix);
    assert(id.skip(prefix.len() as int) =~= decimal(slot + 1));
    assert(decimal(slot + 1) == numeral(n, 10, false));
    numerals_have_their_value(n);
}

/// An entry shows the attributes of its build, each under its own name, whether the build was
/// created, overwritten or read again; a new entry has its own id and name and an empty record.
pub proof fn entries_show_their_build(
    state: LibraryState,
    id: Seq<char>,
    name: Seq<char>,
    build: BuildState,
    entry: EntryState,
)
    requires
        is_listed(state.builds, id),
    ensures
        ({
            let new = entry_for(id, name, build);
            let at = position(state.builds, id);
            let over = overwritten(state, id, build).builds[at];
            let again = refreshed(entry, Some(build));
            &&& new.id == id && new.name == name
            &&& new.combat.kills == 0 && new.combat.deaths == 0
            &&& again.id == entry.id && again.name == entry.name && again.combat == entry.combat
            &&& new.stats == over.stats && new.stats == again.stats
            &&& new.preview == over.preview && new.preview == again.preview
            &&& build.stats is None ==> new.stats is None
            &&& build.stats matches Some(s) ==> {
                &&& new.stats matches Some(shown)
                &&& shown.level == s.level
                &&& shown.vigor == s.vigor
                &&& shown.mind == s.mind
                &&& shown.endurance == s.endurance
                &&& shown.strength == s.strength
                &&& shown.dexterity == s.dexterity
                &&& shown.intelligence == s.intelligence
                &&& shown.faith == s.faith
                &&& shown.arcane == s.arcane
            }
        }),
{
    position_is_first(state.builds, id, 0);
    let k = choose|i: int| 0 <= i < state.builds.len() && (#[trigger] state.builds[i]).id == id;
    assert(state.builds[k].id == id);
}

/// Duels are added to the record, won ones to the won and lost ones to the lost, up to the largest
/// number; what is counted in two goes is what is counted at once.
pub proof fn duels_add_up(record: CombatRecord, kills: u32, deaths: u32, wins: u32, losses: u32)
    ensures
        more(record, kills, deaths).kills == (if record.kills + kills > 0xFFFF_FFFF {
            0xFFFF_FFFF
        } else {
            record.kills + kills
        }),
        more(record, kills, deaths).deaths == (if record.deaths + deaths > 0xFFFF_FFFF {
            0xFFFF_FFFF
        } else {
            record.deaths + deaths
        }),
        kills + wins <= 0xFFFF_FFFF && deaths + losses <= 0xFFFF_FFFF ==> more(
            more(record, kills, deaths),
            wins,
            losses,
        ) == more(record, (kills + wins) as u32, (deaths + losses) as u32),
{
}

/// A new record of one build changes nothing else of the library.
pub proof fn records_belong_to_one_build(state: LibraryState, at: int, combat: CombatRecord, other: int)
    requires
        0 <= at < state.builds.len(),
        0 <= other < state.builds.len(),
    ensures
        ({
            let next = with_record(state, at, combat);
            &&& next.builds.len() == state.builds.len()
            &&& next.builds[at].combat == combat
            &&& next.builds[at].id == state.builds[at].id
            &&& next.builds[at].name == state.builds[at].name
            &&& next.builds[at].stats == state.builds[at].stats
            &&& other != at ==> next.builds[other] == state.builds[other]
            &&& next.bindings == state.bindings
            &&& next.active == state.active
            &&& next.language == state.language
            &&& next.care_enabled == state.care_enabled
            &&& next.ctrl_picker_enabled == state.ctrl_picker_enabled
        }),
{
}

/// Deleting a build keeps all others, in their order and as they are, and the active build where
/// it is another one.
pub proof fn other_builds_outlive_a_deleted_one(state: LibraryState, id: Seq<char>, other: int)
    requires
        is_listed(state.builds, id),
        0 <= other < state.builds.len(),
        state.builds[other].id != id,
    ensures
        ({
            let left = deleted(state, id);
            let at = position(state.builds, id);
            &&& other < at ==> left.builds[other] == state.builds[other]
            &&& other > at ==> left.builds[other - 1] == state.builds[other]
            &&& is_listed(left.builds, state.builds[other].id)
            &&& state.active != Some(id) ==> left.active == state.active
            &&& state.active == Some(id) ==> left.active is None
        }),
{
    position_is_first(state.builds, id, 0);
    let k = choose|i: int| 0 <= i < state.builds.len() && (#[trigger] state.builds[i]).id == id;
    assert(state.builds[k].id == id);
    let left = deleted(state, id).builds;
    let at = position(state.builds, id);
    let place = if other < at {
        other
    } else {
        other - 1
    };
    assert(left[place] == state.builds[other]);
}

/// Taking the numbered slots over keeps every build and every binding that there was, lists a
/// build for every slot that was found, and binds the key of each to it where that was free.
pub proof fn numbered_slots_are_taken_over(state: LibraryState, found: Seq<LegacyBuild>, i: int)
    requires
        forall|k: int| 0 <= k < found.len() ==> (#[trigger] found[k]).slot < 3,
        0 <= i < found.len(),
    ensures
        ({
            let next = migrated(state, found);
            let slot = found[i].slot as int;
            let id = "legacy-bd"@ + decimal(slot + 1);
            &&& next.legacy_migrated
            &&& next.builds.len() >= state.builds.len()
            &&& forall|k: int|
                0 <= k < state.builds.len() ==> #[trigger] next.builds[k] == state.builds[k]
            &&& exists|k: int|
                0 <= k < next.builds.len() && (#[trigger] next.builds[k]).id == id
            &&& forall|key: int|
                (#[trigger] bound_to(state, key)) is Some ==> bound_to(next, key) == bound_to(
                    state,
                    key,
                )
            &&& bound_to(state, slot) is None ==> bound_to(next, slot) == Some(id)
        }),
{
    legacies_are_listed(state.builds, found);
    legacies_are_added(state.builds, found);
    legacies_take_free_keys(state.bindings, found);
    let next = migrated(state, found);
    let slot = found[i].slot as int;
    assert forall|key: int| (#[trigger] bound_to(state, key)) is Some implies bound_to(next, key)
        == bound_to(state, key) by {
        assert(state.bindings[key] is Some);
    }
    let id = legacy_id_of(slot);
    assert(is_listed(next.builds, id));
    assert(found[i].slot < next.bindings.len());
    assert(next.bindings[slot] is Some);
    assert(bound_to(state, slot) is None ==> bound_to(next, slot) == Some(id));
    assert(exists|k: int| 0 <= k < next.builds.len() && (#[trigger] next.builds[k]).id == id);
}

/// What was listed before stays in front.
proof fn legacies_are_added(builds: Seq<EntryState>, found: Seq<LegacyBuild>)
    ensures
        builds.len() <= with_legacies(builds, found).len(),
        forall|k: int|
            0 <= k < builds.len() ==> #[trigger] with_legacies(builds, found)[k] == builds[k],
    decreases found.len(),
{
    if found.len() > 0 {
        legacies_are_added(builds, found.drop_last());
    }
}

/// Bound keys keep their build, and the free key of a found slot gets the build of that slot.
proof fn legacies_take_free_keys(bindings: Seq<Option<Seq<char>>>, found: Seq<LegacyBuild>)
    ensures
        bindings.len() <= bind_legacies(bindings, found).len(),
        forall|k: int|
            0 <= k < bindings.len() && (#[trigger] bindings[k]) is Some ==> bind_legacies(
                bindings,
                found,
            )[k] == bindings[k],
        forall|k: int|
            0 <= k < bind_legacies(bindings, found).len() && (k >= bindings.len() || bindings[k]
                is None) ==> (#[trigger] bind_legacies(bindings, found)[k]) is None
                || bind_legacies(bindings, found)[k] == Some(legacy_id_of(k)),
        forall|i: int|
            0 <= i < found.len() ==> (#[trigger] found[i]).slot < bind_legacies(
                bindings,
                found,
            ).len() && bind_legacies(bindings, found)[found[i].slot as int] is Some,
    decreases found.len(),
{
    legacies_are_bound(bindings, found);
    if found.len() > 0 {
        legacies_take_free_keys(bindings, found.drop_last());
    }
}

/// An opened library has every build and every binding that was saved, keys for at least four
/// builds, the settings that were saved, and no active build.
pub proof fn opening_keeps_what_was_saved(builds: Seq<EntryState>, config: Config, key: int)
    ensures
        ({
            let state = opened(builds, config);
            &&& state.builds == builds
            &&& state.active is None
            &&& state.bindings.len() >= 4
            &&& 0 <= key < config.bindings@.len() ==> bound_to(state, key) == text_or_none(
                config.bindings@[key],
            )
            &&& key >= config.bindings@.len() ==> bound_to(state, key) is None
            &&& state.care_enabled == config.care_enabled
            &&& state.ctrl_picker_enabled == config.ctrl_picker_enabled
            &&& state.legacy_migrated == config.legacy_migrated
        }),
{
}

/// A preview names the row of every worn place of its kind, and of no other.
pub proof fn previews_name_what_is_worn(loadout: Seq<LoadoutSlot>, first: u8, last: u8)
    ensures
        forall|i: int|
            0 <= i < loadout.len() && first <= (#[trigger] loadout[i]).slot <= last && loadout[i].id
                != 0xFFFF_FFFF ==> worn_rows(loadout, first, last).contains(
                decimal(loadout[i].id as int % 0x1000_0000),
            ),
        forall|text: Seq<char>| #[trigger]
            worn_rows(loadout, first, last).contains(text) ==> exists|i: int|
                0 <= i < loadout.len() && first <= (#[trigger] loadout[i]).slot <= last
                    && loadout[i].id != 0xFFFF_FFFF && text == decimal(
                    loadout[i].id as int % 0x1000_0000,
                ),
    decreases loadout.len(),
{
    if loadout.len() > 0 {
        let rest = loadout.drop_last();
        previews_name_what_is_worn(rest, first, last);
        let before = worn_rows(rest, first, last);
        let now = worn_rows(loadout, first, last);
        assert forall|i: int|
            0 <= i < loadout.len() && first <= (#[trigger] loadout[i]).slot <= last && loadout[i].id
                != 0xFFFF_FFFF implies now.contains(
            decimal(loadout[i].id as int % 0x1000_0000),
        ) by {
            if i < rest.len() {
                assert(rest[i] == loadout[i]);
                let text = decimal(rest[i].id as int % 0x1000_0000);
                let k = choose|k: int| 0 <= k < before.len() && before[k] == text;
                assert(now[k] == text);
            } else {
                assert(now[now.len() - 1] == decimal(loadout[i].id as int % 0x1000_0000));
            }
        }
        assert forall|text: Seq<char>| #[trigger] now.contains(text) implies exists|i: int|
            0 <= i < loadout.len() && first <= (#[trigger] loadout[i]).slot <= last && loadout[i].id
                != 0xFFFF_FFFF && text == decimal(loadout[i].id as int % 0x1000_0000) by {
            let k = choose|k: int| 0 <= k < now.len() && now[k] == text;
            if k < before.len() {
                assert(before[k] == text);
                assert(before.contains(text));
                let i = choose|i: int|
                    0 <= i < rest.len() && first <= (#[trigger] rest[i]).slot <= last && rest[i].id
                        != 0xFFFF_FFFF && text == decimal(rest[i].id as int % 0x1000_0000);
                assert(loadout[i] == rest[i]);
            } else {
                assert(loadout[loadout.len() - 1].slot <= last);
            }
        }
    }
}

/// The spells of a preview are counted one by one.
pub proof fn previews_count_the_spells(magic: Seq<i32>, id: i32)
    ensures
        magic_count(seq![]) == 0,
        id >= 0 ==> magic_count(magic.push(id)) == magic_count(magic) + 1,
        id < 0 ==> magic_count(magic.push(id)) == magic_count(magic),
{
    assert(magic.push(id).drop_last() =~= magic);
}

/// The active build is the one that was made active last, as long as it is listed.
pub proof fn only_listed_builds_are_active(state: LibraryState, id: Seq<char>)
    ensures
        active_of(state) == Some(id) <==> state.active == Some(id) && exists|i: int|
            0 <= i < state.builds.len() && (#[trigger] state.builds[i]).id == id,
        state.active is None ==> active_of(state) is None,
{
}

/// Where two texts are joined by a sign that their first parts lack, equal results have equal parts.
proof fn parts_are_told_apart(a: Seq<char>, b: Seq<char>, c: Seq<char>, d: Seq<char>, sign: char)
    requires
        a + seq![sign] + b == c + seq![sign] + d,
        forall|i: int| 0 <= i < a.len() ==> #[trigger] a[i] != sign,
        forall|i: int| 0 <= i < c.len() ==> #[trigger] c[i] != sign,
    ensures
        a == c,
        b == d,
{
    let left = a + seq![sign] + b;
    let right = c + seq![sign] + d;
    if a.len() < c.len() {
        assert(left[a.len() as int] == sign);
        assert(right[a.len() as int] == c[a.len() as int]);
    } else if c.len() < a.len() {
        assert(right[c.len() as int] == sign);
        assert(left[c.len() as int] == a[c.len() as int]);
    }
    assert forall|i: int| 0 <= i < a.len() implies a[i] == c[i] by {
        assert(left[i] == a[i] && right[i] == c[i]);
    }
    assert(a =~= c);
    assert(b =~= left.skip(a.len() as int + 1));
    assert(d =~= right.skip(c.len() as int + 1));
}

/// Builds that are created at different moments, in different processes or one after the other
/// have different ids.
pub proof fn made_up_ids_differ(
    nanos: u128,
    process: u32,
    sequence: u64,
    other_nanos: u128,
    other_process: u32,
    other_sequence: u64,
)
    requires
        identity(nanos, process, sequence) == identity(other_nanos, other_process, other_sequence),
    ensures
        nanos == other_nanos,
        process == other_process,
        sequence == other_sequence,
{
    reveal_strlit("-");
    assert("-"@ =~= seq!['-']);
    crate::text::numerals_read_as_their_number(nanos as nat, 16, false);
    crate::text::numerals_read_as_their_number(other_nanos as nat, 16, false);
    crate::text::numerals_read_as_their_number(process as nat, 16, false);
    crate::text::numerals_read_as_their_number(other_process as nat, 16, false);
    crate::text::numerals_read_as_their_number(sequence as nat, 16, false);
    crate::text::numerals_read_as_their_number(other_sequence as nat, 16, false);
    let a = hex(nanos as nat);
    let b = hex(process as nat);
    let c = hex(sequence as nat);
    let x = hex(other_nanos as nat);
    let y = hex(other_process as nat);
    let z = hex(other_sequence as nat);
    let start = "build-"@;
    let rest = a + seq!['-'] + (b + seq!['-'] + c);
    let other_rest = x + seq!['-'] + (y + seq!['-'] + z);
    assert(identity(nanos, process, sequence) =~= start + rest);
    assert(identity(other_nanos, other_process, other_sequence) =~= start + other_rest);
    assert(rest =~= (start + rest).skip(start.len() as int));
    assert(other_rest =~= (start + other_rest).skip(start.len() as int));
    parts_are_told_apart(a, b + seq!['-'] + c, x, y + seq!['-'] + z, '-');
    parts_are_told_apart(b, c, y, z, '-');
}

/// A moment has one date and one time of day.
pub proof fn moments_have_one_date(
    seconds: u64,
    parts: (i64, u32, u32, u32, u32, u32),
    others: (i64, u32, u32, u32, u32, u32),
)
    requires
        is_moment(seconds, parts),
        is_moment(seconds, others),
    ensures
        parts == others,
        seconds == day_number(parts.0 as int, parts.1 as int, parts.2 as int) * 86_400 + parts.3
            * 3_600 + parts.4 * 60 + parts.5,
{
    crate::calendar::dates_are_unique(
        parts.0 as int,
        parts.1 as int,
        parts.2 as int,
        others.0 as int,
        others.1 as int,
        others.2 as int,
    );
}

/// A preview tells the attributes, then the rows of the weapons in places 0 to 5, of the armor in 12
/// to 15 and of the talismans in 17 to 20, each behind its sign, and at last how many spells there
/// are.
pub proof fn previews_tell_every_kind(build: BuildState)
    ensures
        says(preview_of(build), stats_part(build.stats)),
        says(preview_of(build), "  武:"@ + rows_text(build.loadout, 0, 5)),
        says(preview_of(build), "  甲:"@ + rows_text(build.loadout, 12, 15)),
        says(preview_of(build), "  符:"@ + rows_text(build.loadout, 17, 20)),
        says(preview_of(build), "  法:"@ + decimal(magic_count(build.magic) as int)),
{
    let none = Seq::<char>::empty();
    let stats = stats_part(build.stats);
    let weapons = "  武:"@ + rows_text(build.loadout, 0, 5);
    let armor = "  甲:"@ + rows_text(build.loadout, 12, 15);
    let talismans = "  符:"@ + rows_text(build.loadout, 17, 20);
    let spells = "  法:"@ + decimal(magic_count(build.magic) as int);
    let text = preview_of(build);
    assert(text =~= none + stats + (weapons + armor + talismans + spells));
    the_middle_is_said(none, stats, weapons + armor + talismans + spells);
    assert(text =~= stats + weapons + (armor + talismans + spells));
    the_middle_is_said(stats, weapons, armor + talismans + spells);
    assert(text =~= (stats + weapons) + armor + (talismans + spells));
    the_middle_is_said(stats + weapons, armor, talismans + spells);
    assert(text =~= (stats + weapons + armor) + talismans + spells);
    the_middle_is_said(stats + weapons + armor, talismans, spells);
    assert(text =~= (stats + weapons + armor + talismans) + spells + none);
    the_middle_is_said(stats + weapons + armor + talismans, spells, none);
}

/// A preview names every attribute with its own number behind its sign.
pub proof fn previews_name_every_attribute(s: StatsSnapshot)
    ensures
        says(stats_part(Some(s)), "Lv"@ + decimal(s.level as int)),
        says(stats_part(Some(s)), " 生"@ + decimal(s.vigor as int)),
        says(stats_part(Some(s)), " 集"@ + decimal(s.mind as int)),
        says(stats_part(Some(s)), " 耐"@ + decimal(s.endurance as int)),
        says(stats_part(Some(s)), " 力"@ + decimal(s.strength as int)),
        says(stats_part(Some(s)), " 敏"@ + decimal(s.dexterity as int)),
        says(stats_part(Some(s)), " 智"@ + decimal(s.intelligence as int)),
        says(stats_part(Some(s)), " 信"@ + decimal(s.faith as int)),
        says(stats_part(Some(s)), " 感"@ + decimal(s.arcane as int)),
{
    let none = Seq::<char>::empty();
    let text = "Lv"@ + decimal(s.level as int);
    assert(text =~= none + "Lv"@ + decimal(s.level as int));
    texts_go_on(none, "Lv"@, decimal(s.level as int));
    texts_go_on(text, " 生"@, decimal(s.vigor as int));
    let text = text + " 生"@ + decimal(s.vigor as int);
    texts_go_on(text, " 集"@, decimal(s.mind as int));
    let text = text + " 集"@ + decimal(s.mind as int);
    texts_go_on(text, " 耐"@, decimal(s.endurance as int));
    let text = text + " 耐"@ + decimal(s.endurance as int);
    texts_go_on(text, " 力"@, decimal(s.strength as int));
    let text = text + " 力"@ + decimal(s.strength as int);
    texts_go_on(text, " 敏"@, decimal(s.dexterity as int));
    let text = text + " 敏"@ + decimal(s.dexterity as int);
    texts_go_on(text, " 智"@, decimal(s.intelligence as int));
    let text = text + " 智"@ + decimal(s.intelligence as int);
    texts_go_on(text, " 信"@, decimal(s.faith as int));
    let text = text + " 信"@ + decimal(s.faith as int);
    texts_go_on(text, " 感"@, decimal(s.arcane as int));
    let text = text + " 感"@ + decimal(s.arcane as int);
    assert(text == stats_part(Some(s)));
}

} // verus!
