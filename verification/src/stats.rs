//! The attributes of the character, and the care after a build was put on.
//!
//! The care clears what has built up of status effects, fills health, focus and stamina, and
//! holds both for some frames, because the game writes some of it back.

use vstd::prelude::*;

use crate::library::{
    as_opened, care_changed, care_enabled, care_of, set_care_enabled, LibraryState, State,
};
use crate::text::{decimal, push_decimal, says, texts_go_on};

verus! {

/// The attributes of a saved build.
#[derive(Clone, Copy, Debug, PartialEq, Eq, Structural)]
pub struct StatsSnapshot {
    pub level: u32,
    pub vigor: u32,
    pub mind: u32,
    pub endurance: u32,
    pub strength: u32,
    pub dexterity: u32,
    pub intelligence: u32,
    pub faith: u32,
    pub arcane: u32,
    pub archetype: u8,
}

impl Default for StatsSnapshot {
    fn default() -> (stats: Self)
        ensures
            stats == (StatsSnapshot {
                level: 0,
                vigor: 0,
                mind: 0,
                endurance: 0,
                strength: 0,
                dexterity: 0,
                intelligence: 0,
                faith: 0,
                arcane: 0,
                archetype: 0,
            }),
    {
        StatsSnapshot {
            level: 0,
            vigor: 0,
            mind: 0,
            endurance: 0,
            strength: 0,
            dexterity: 0,
            intelligence: 0,
            faith: 0,
            arcane: 0,
            archetype: 0,
        }
    }
}

/// The line that says the attributes.
pub open spec fn stats_text(s: StatsSnapshot) -> Seq<char> {
    "Lv"@ + decimal(s.level as int) + "  Vig"@ + decimal(s.vigor as int) + " Min"@ + decimal(
        s.mind as int,
    ) + " End"@ + decimal(s.endurance as int) + " Str"@ + decimal(s.strength as int) + " Dex"@
        + decimal(s.dexterity as int) + " Int"@ + decimal(s.intelligence as int) + " Fai"@
        + decimal(s.faith as int) + " Arc"@ + decimal(s.arcane as int) + "  出身"@ + decimal(
        s.archetype as int,
    )
}

impl StatsSnapshot {
    /// Says the attributes in one line.
    pub fn describe(&self) -> (text: String)
        ensures
            text@ == stats_text(*self),
    {
        let mut text = "Lv".to_owned();
        push_decimal(&mut text, self.level as u64);
        text.append("  Vig");
        push_decimal(&mut text, self.vigor as u64);
        text.append(" Min");
        push_decimal(&mut text, self.mind as u64);
        text.append(" End");
        push_decimal(&mut text, self.endurance as u64);
        text.append(" Str");
        push_decimal(&mut text, self.strength as u64);
        text.append(" Dex");
        push_decimal(&mut text, self.dexterity as u64);
        text.append(" Int");
        push_decimal(&mut text, self.intelligence as u64);
        text.append(" Fai");
        push_decimal(&mut text, self.faith as u64);
        text.append(" Arc");
        push_decimal(&mut text, self.arcane as u64);
        text.append("  出身");
        push_decimal(&mut text, self.archetype as u64);
        text
    }
}

/// The attributes of the character, as the game holds them: those that were chosen, and those
/// that are in effect.
#[derive(Clone, Copy, Debug, PartialEq, Eq, Structural)]
pub struct PlayerStats {
    pub chosen: StatsSnapshot,
    pub effective_vigor: u32,
    pub effective_mind: u32,
    pub effective_endurance: u32,
    pub effective_strength: u32,
    pub effective_dexterity: u32,
    pub effective_intelligence: u32,
    pub effective_faith: u32,
    pub effective_arcane: u32,
}

/// Saves the attributes that were chosen.
pub fn capture(player: &PlayerStats) -> (stats: StatsSnapshot)
    ensures
        stats == player.chosen,
{
    player.chosen
}

/// The attributes of the character after saved ones were written.
pub open spec fn with_stats(stats: StatsSnapshot) -> PlayerStats {
    PlayerStats {
        chosen: stats,
        effective_vigor: stats.vigor,
        effective_mind: stats.mind,
        effective_endurance: stats.endurance,
        effective_strength: stats.strength,
        effective_dexterity: stats.dexterity,
        effective_intelligence: stats.intelligence,
        effective_faith: stats.faith,
        effective_arcane: stats.arcane,
    }
}

/// Writes saved attributes: they are both chosen and in effect.
pub fn apply(player: &mut PlayerStats, stats: &StatsSnapshot)
    ensures
        *final(player) == with_stats(*stats),
        final(player).chosen == *stats,
        final(player).effective_vigor == stats.vigor,
        final(player).effective_mind == stats.mind,
        final(player).effective_endurance == stats.endurance,
        final(player).effective_strength == stats.strength,
        final(player).effective_dexterity == stats.dexterity,
        final(player).effective_intelligence == stats.intelligence,
        final(player).effective_faith == stats.faith,
        final(player).effective_arcane == stats.arcane,
{
    player.chosen = *stats;
    player.effective_vigor = stats.vigor;
    player.effective_mind = stats.mind;
    player.effective_endurance = stats.endurance;
    player.effective_strength = stats.strength;
    player.effective_dexterity = stats.dexterity;
    player.effective_intelligence = stats.intelligence;
    player.effective_faith = stats.faith;
    player.effective_arcane = stats.arcane;
}

/// Saving the attributes after saved ones were written gives them back.
pub proof fn written_stats_are_saved_again(stats: StatsSnapshot)
    ensures
        with_stats(stats).chosen == stats,
{
}

/// For how many frames what has built up is cleared.
pub const CLEAR_HOLD_FRAMES: u32 = 90;

/// For how many frames health, focus and stamina are filled at most.
pub const VITALS_HOLD_FRAMES: u32 = 30;

/// For how many frames the care still goes on.
#[derive(Clone, Copy, Debug, PartialEq, Eq, Structural)]
pub struct CareState {
    pub clear_left: u32,
    pub vitals_left: u32,
}

/// Whether the care is enabled: it is not where the library could not be opened.
pub fn post_sync_care_enabled(state: Option<&State>) -> (enabled: bool)
    ensures
        enabled == care_of(as_opened(state)),
{
    care_enabled(state)
}

/// Turns the care on or off: tells the new setting, gives the library that stores it, and ends
/// the care where it is off. A library that could not be opened stores nothing.
pub fn toggle_post_sync_care(care: &mut CareState, state: Option<&State>) -> (toggled: (
    bool,
    Option<State>,
))
    ensures
        toggled.0 == !care_of(as_opened(state)),
        match as_opened(state) {
            Some(state) => {
                &&& toggled.1 matches Some(next)
                &&& next@ == care_changed(state, toggled.0, true)
                &&& next@ == (LibraryState { care_enabled: toggled.0, ..state })
            },
            None => toggled.1 is None,
        },
        *final(care) == if toggled.0 {
            *old(care)
        } else {
            CareState { clear_left: 0, vitals_left: 0 }
        },
{
    let next = !post_sync_care_enabled(state);
    let library: Option<State> = match state {
        Some(state) => Some(set_care_enabled(state, next)),
        None => None,
    };
    if !next {
        care.clear_left = 0;
        care.vitals_left = 0;
    }
    (next, library)
}

/// The setting after a toggle was written is the one that the toggle told, and toggling twice
/// gives the first setting back.
pub proof fn toggled_care_is_stored(state: LibraryState)
    ensures
        ({
            let told = !care_of(Some(state));
            let after = care_changed(state, told, true);
            &&& care_of(Some(after)) == told
            &&& !care_of(Some(after)) == care_of(Some(state))
        }),
{
}

/// Starts to clear what has built up; it is cleared at once, too.
pub fn clear_status_buildup(care: &mut CareState)
    ensures
        *final(care) == (CareState { clear_left: CLEAR_HOLD_FRAMES, ..*old(care) }),
        final(care).clear_left == 90,
{
    care.clear_left = CLEAR_HOLD_FRAMES;
}

/// Starts the care after a build was put on, where it is enabled. Tells whether it was: then
/// what has built up is cleared, the bars are filled and the rune is lit at once, too.
pub fn after_sync_care(care: &mut CareState, enabled: bool) -> (started: bool)
    ensures
        started == enabled,
        *final(care) == if enabled {
            CareState { clear_left: CLEAR_HOLD_FRAMES, vitals_left: VITALS_HOLD_FRAMES }
        } else {
            *old(care)
        },
        enabled ==> final(care).clear_left == 90 && final(care).vitals_left == 30,
{
    if !enabled {
        return false;
    }
    clear_status_buildup(care);
    care.vitals_left = VITALS_HOLD_FRAMES;
    true
}

/// Three bars and how far they go.
#[derive(Clone, Copy, Debug, PartialEq, Eq, Structural)]
pub struct Bars {
    pub hp: i64,
    pub max_hp: i64,
    pub fp: i64,
    pub max_fp: i64,
    pub stamina: i64,
    pub max_stamina: i64,
}

/// The bars, as the game holds them twice: with the character's data and with its body.
#[derive(Clone, Copy, Debug, PartialEq, Eq, Structural)]
pub struct Vitals {
    pub saved: Option<Bars>,
    pub live: Option<Bars>,
}

/// Bars that are full, where they go anywhere.
pub open spec fn filled(bars: Bars) -> Bars {
    Bars {
        hp: if bars.max_hp > 0 {
            bars.max_hp
        } else {
            bars.hp
        },
        fp: if bars.max_fp > 0 {
            bars.max_fp
        } else {
            bars.fp
        },
        stamina: if bars.max_stamina > 0 {
            bars.max_stamina
        } else {
            bars.stamina
        },
        ..bars
    }
}

fn fill(bars: &Bars) -> (full: Bars)
    ensures
        full == filled(*bars),
{
    let mut full = *bars;
    if full.max_hp > 0 {
        full.hp = full.max_hp;
    }
    if full.max_fp > 0 {
        full.fp = full.max_fp;
    }
    if full.max_stamina > 0 {
        full.stamina = full.max_stamina;
    }
    full
}

/// Whether no bar that goes anywhere is short.
pub open spec fn is_full(bars: Bars) -> bool {
    (bars.max_hp > 0 ==> bars.hp >= bars.max_hp) && (bars.max_fp > 0 ==> bars.fp >= bars.max_fp)
        && (bars.max_stamina > 0 ==> bars.stamina >= bars.max_stamina)
}

fn full(bars: &Bars) -> (full: bool)
    ensures
        full == is_full(*bars),
{
    !(bars.max_hp > 0 && bars.hp < bars.max_hp) && !(bars.max_fp > 0 && bars.fp < bars.max_fp)
        && !(bars.max_stamina > 0 && bars.stamina < bars.max_stamina)
}

/// The bars after filling them: unchanged where the character's data is missing.
pub open spec fn restored(vitals: Vitals) -> Vitals {
    match vitals.saved {
        Some(saved) => Vitals {
            saved: Some(filled(saved)),
            live: match vitals.live {
                Some(live) => Some(filled(live)),
                None => None,
            },
        },
        None => vitals,
    }
}

/// Fills the bars; `false`, and nothing done, where the character's data is missing.
pub fn restore_vitals(vitals: &mut Vitals) -> (done: bool)
    ensures
        *final(vitals) == restored(*old(vitals)),
        done == old(vitals).saved.is_some(),
{
    match vitals.saved {
        Some(saved) => {
            vitals.saved = Some(fill(&saved));
            match vitals.live {
                Some(live) => {
                    vitals.live = Some(fill(&live));
                },
                None => {},
            }
            true
        },
        None => false,
    }
}

/// Whether the bars are full: those of the body, or else those of the data.
pub open spec fn all_full(vitals: Vitals) -> bool {
    match vitals.live {
        Some(live) => is_full(live),
        None => match vitals.saved {
            Some(saved) => is_full(saved),
            None => false,
        },
    }
}

/// Whether the bars are full: those of the body, or else those of the data.
pub fn vitals_are_full(vitals: &Vitals) -> (full_bars: bool)
    ensures
        full_bars == all_full(*vitals),
{
    match vitals.live {
        Some(live) => full(&live),
        None => match vitals.saved {
            Some(saved) => full(&saved),
            None => false,
        },
    }
}

/// One frame of clearing: tells whether to clear, and counts the frame.
pub fn poll_status_clear(care: &mut CareState) -> (clear: bool)
    ensures
        clear == (old(care).clear_left > 0),
        *final(care) == (CareState {
            clear_left: if old(care).clear_left > 0 {
                (old(care).clear_left - 1) as u32
            } else {
                0
            },
            ..*old(care)
        }),
{
    if care.clear_left == 0 {
        return false;
    }
    care.clear_left = care.clear_left - 1;
    true
}

/// One frame of filling: fills the bars, and ends once they are full. Tells whether they were
/// filled.
pub fn poll_vitals(care: &mut CareState, vitals: &mut Vitals) -> (filled: bool)
    ensures
        filled == (old(care).vitals_left > 0 && old(vitals).saved is Some),
        old(care).vitals_left == 0 ==> *final(care) == *old(care) && *final(vitals) == *old(vitals),
        old(care).vitals_left > 0 ==> {
            &&& *final(vitals) == restored(*old(vitals))
            &&& *final(care) == (CareState {
                vitals_left: if all_full(restored(*old(vitals))) {
                    0
                } else {
                    (old(care).vitals_left - 1) as u32
                },
                ..*old(care)
            })
        },
{
    if care.vitals_left == 0 {
        return false;
    }
    let filled = restore_vitals(vitals);
    if vitals_are_full(vitals) {
        care.vitals_left = 0;
    } else {
        care.vitals_left = care.vitals_left - 1;
    }
    filled
}

/// The care after one frame in which it is on.
pub open spec fn cared(care: CareState, vitals: Vitals) -> CareState {
    CareState {
        clear_left: if care.clear_left > 0 {
            (care.clear_left - 1) as u32
        } else {
            0
        },
        vitals_left: if care.vitals_left == 0 || all_full(restored(vitals)) {
            0
        } else {
            (care.vitals_left - 1) as u32
        },
    }
}

/// What one frame of the care comes to.
#[derive(Clone, Copy, Debug, PartialEq, Eq, Structural)]
pub struct CareWork {
    /// What has built up is to be cleared.
    pub clear: bool,
    /// The bars were filled and are to be written.
    pub filled: bool,
}

/// One frame of the care, where it is enabled: tells whether to clear what has built up, and
/// fills the bars.
pub fn poll_care(care: &mut CareState, vitals: &mut Vitals, enabled: bool) -> (work: CareWork)
    ensures
        work.clear == (enabled && old(care).clear_left > 0),
        work.filled == (enabled && old(care).vitals_left > 0 && old(vitals).saved is Some),
        *final(care) == if enabled {
            cared(*old(care), *old(vitals))
        } else {
            *old(care)
        },
        *final(vitals) == if enabled && old(care).vitals_left > 0 {
            restored(*old(vitals))
        } else {
            *old(vitals)
        },
{
    if !enabled {
        return CareWork { clear: false, filled: false };
    }
    let clear = poll_status_clear(care);
    let filled = poll_vitals(care, vitals);
    CareWork { clear, filled }
}

/// Bars that were filled are full, so that filling them again changes nothing.
pub proof fn filled_bars_are_full(vitals: Vitals)
    requires
        vitals.saved is Some,
    ensures
        all_full(restored(vitals)),
        restored(restored(vitals)) == restored(vitals),
{
}

/// The care ends: after `frames` frames with any bars, nothing is left of what is not more.
pub proof fn care_ends(care: CareState, bars: Seq<Vitals>)
    requires
        care.clear_left <= bars.len(),
        care.vitals_left <= bars.len(),
    ensures
        bars.fold_left(care, |state: CareState, vitals: Vitals| cared(state, vitals)) == (
        CareState { clear_left: 0, vitals_left: 0 }),
    decreases bars.len(),
{
    let step = |state: CareState, vitals: Vitals| cared(state, vitals);
    if bars.len() > 0 {
        let next = cared(care, bars[0]);
        care_ends(next, bars.drop_first());
        bars.lemma_fold_left_alt(care, step);
        bars.drop_first().lemma_fold_left_alt(next, step);
        assert(bars.fold_left_alt(care, step) == bars.drop_first().fold_left_alt(
            step(care, bars[0]),
            step,
        ));
    }
}

/// The gauge that leads to death at once.
pub const DEATH_GAUGE: usize = 3;

/// What is set where a gauge has no length.
pub const GAUGE_FILL: u32 = 9999;

/// A gauge that has nothing built up, given its length.
pub open spec fn cleared_gauge(i: int, max: u32) -> u32 {
    if i == DEATH_GAUGE {
        if max > GAUGE_FILL {
            max
        } else {
            GAUGE_FILL
        }
    } else if max > 0 {
        max
    } else {
        GAUGE_FILL
    }
}

/// The seven gauges with nothing built up, given their lengths.
pub fn reset_gauges(max: &[u32; 7]) -> (gauges: Vec<u32>)
    ensures
        gauges@ == Seq::new(7, |i: int| cleared_gauge(i, max@[i])),
{
    let mut gauges: Vec<u32> = Vec::new();
    let mut at: usize = 0;
    while at < 7
        invariant
            at <= 7,
            gauges@.len() == at,
            forall|i: int| 0 <= i < at ==> #[trigger] gauges@[i] == cleared_gauge(i, max@[i]),
        decreases 7 - at,
    {
        let length: u32 = max[at];
        gauges.push(
            if at == DEATH_GAUGE {
                if length > GAUGE_FILL {
                    length
                } else {
                    GAUGE_FILL
                }
            } else if length > 0 {
                length
            } else {
                GAUGE_FILL
            },
        );
        at = at + 1;
    }
    assert(gauges@ =~= Seq::new(7, |i: int| cleared_gauge(i, max@[i])));
    gauges
}

/// What the library reads of one effect on the character: how much of each status it builds up.
#[derive(Clone, Copy, Debug, PartialEq, Eq, Structural)]
pub struct StatusPowers {
    pub curse: i32,
    pub poison: i32,
    pub disease: i32,
    pub blood: i32,
    pub freeze: i32,
    pub sleep: i32,
    pub madness: i32,
}

/// Whether an effect builds up any status.
pub open spec fn builds_up(powers: StatusPowers) -> bool {
    powers.curse > 0 || powers.poison > 0 || powers.disease > 0 || powers.blood > 0
        || powers.freeze > 0 || powers.sleep > 0 || powers.madness > 0
}

/// One effect on the character; `None` where its row is not known.
#[derive(Clone, Copy, Debug, PartialEq, Eq, Structural)]
pub struct StatusEffect {
    pub param_id: i32,
    pub powers: Option<StatusPowers>,
}

/// Whether an effect is taken off: it is known to build up a status.
pub open spec fn expires(effect: StatusEffect) -> bool {
    effect.powers is Some && builds_up(effect.powers->0)
}

/// The effects to take off, by their place among all.
pub fn expire_status_speffects(effects: &Vec<StatusEffect>) -> (places: Vec<usize>)
    ensures
        forall|k: int|
            0 <= k < places@.len() ==> (#[trigger] places@[k]) < effects@.len() && expires(
                effects@[places@[k] as int],
            ),
        forall|k: int, l: int|
            0 <= k < l < places@.len() ==> (#[trigger] places@[k]) < (#[trigger] places@[l]),
        forall|i: int|
            0 <= i < effects@.len() && #[trigger] expires(effects@[i]) ==> places@.contains(
                i as usize,
            ),
{
    let mut places: Vec<usize> = Vec::new();
    let mut at: usize = 0;
    while at < effects.len()
        invariant
            at <= effects@.len(),
            forall|k: int|
                0 <= k < places@.len() ==> (#[trigger] places@[k]) < at && expires(
                    effects@[places@[k] as int],
                ),
            forall|k: int, l: int|
                0 <= k < l < places@.len() ==> (#[trigger] places@[k]) < (#[trigger] places@[l]),
            forall|i: int|
                0 <= i < at && #[trigger] expires(effects@[i]) ==> places@.contains(i as usize),
        decreases effects@.len() - at,
    {
        let off = match effects[at].powers {
            Some(p) => p.curse > 0 || p.poison > 0 || p.disease > 0 || p.blood > 0 || p.freeze > 0
                || p.sleep > 0 || p.madness > 0,
            None => false,
        };
        if off {
            let ghost before = places@;
            places.push(at);
            proof {
                assert(places@[before.len() as int] == at);
                assert forall|i: int| 0 <= i < at + 1 && #[trigger] expires(
                    effects@[i],
                ) implies places@.contains(i as usize) by {
                    if i < at {
                        let k = choose|k: int| 0 <= k < before.len() && before[k] == i as usize;
                        assert(places@[k] == i as usize);
                    }
                }
            }
        }
        at = at + 1;
    }
    places
}

/// What the library reads of one row of the effect table.
#[derive(Clone, Copy, Debug, PartialEq, Eq, Structural)]
pub struct CureRow {
    pub id: u32,
    /// Whether the effect lasts for more than a second.
    pub lasting: bool,
    pub curse: i32,
    pub poison: i32,
    pub disease: i32,
    pub blood: i32,
}

/// Whether a row cures the curse and nothing else, at once.
pub open spec fn cures_curse(row: CureRow) -> bool {
    row.curse > 0 && !row.lasting && row.poison == 0 && row.disease == 0 && row.blood == 0
}

/// The ids of the rows that cure the curse and nothing else, in the order of the table.
pub open spec fn cure_ids(rows: Seq<CureRow>) -> Seq<u32>
    decreases rows.len(),
{
    if rows.len() == 0 {
        seq![]
    } else {
        let rest = cure_ids(rows.drop_last());
        if cures_curse(rows.last()) {
            rest.push(rows.last().id)
        } else {
            rest
        }
    }
}

/// The ids of the rows that cure the curse and nothing else.
pub fn curse_cure_ids(rows: &Vec<CureRow>) -> (ids: Vec<u32>)
    ensures
        ids@ == cure_ids(rows@),
{
    let mut ids: Vec<u32> = Vec::new();
    let mut at: usize = 0;
    assert(rows@.take(0) =~= seq![]);
    while at < rows.len()
        invariant
            at <= rows@.len(),
            ids@ == cure_ids(rows@.take(at as int)),
        decreases rows@.len() - at,
    {
        assert(rows@.take(at + 1).drop_last() =~= rows@.take(at as int));
        let row: CureRow = rows[at];
        if row.curse > 0 && !row.lasting && row.poison == 0 && row.disease == 0 && row.blood == 0 {
            ids.push(row.id);
        }
        at = at + 1;
    }
    assert(rows@.take(rows@.len() as int) =~= rows@);
    ids
}

/// The effects that are put on for one item of the table: its two effects, where it has them.
pub open spec fn item_effects(row: Option<(i32, i32)>) -> Seq<i32> {
    match row {
        Some((first, second)) => (if first > 0 {
            seq![first]
        } else {
            seq![]
        }) + (if second > 0 {
            seq![second]
        } else {
            seq![]
        }),
        None => seq![],
    }
}

/// The effects of some items of the table.
pub open spec fn bolus_effects(rows: Seq<Option<(i32, i32)>>) -> Seq<i32>
    decreases rows.len(),
{
    if rows.len() == 0 {
        seq![]
    } else {
        bolus_effects(rows.drop_last()) + item_effects(rows.last())
    }
}

/// The cures that are put on: those with an id that an effect can have.
pub open spec fn cure_effects(ids: Seq<u32>) -> Seq<i32>
    decreases ids.len(),
{
    if ids.len() == 0 {
        seq![]
    } else {
        let rest = cure_effects(ids.drop_last());
        if 0 < ids.last() <= i32::MAX {
            rest.push(ids.last() as i32)
        } else {
            rest
        }
    }
}

/// The effects that cure everything: those of the curing items, then those that cure the curse.
pub fn apply_bolus_speffects(rows: &Vec<Option<(i32, i32)>>, cures: &Vec<u32>) -> (effects: Vec<i32>)
    ensures
        effects@ == bolus_effects(rows@) + cure_effects(cures@),
{
    let mut effects: Vec<i32> = Vec::new();
    let mut at: usize = 0;
    assert(rows@.take(0) =~= seq![]);
    while at < rows.len()
        invariant
            at <= rows@.len(),
            effects@ == bolus_effects(rows@.take(at as int)),
        decreases rows@.len() - at,
    {
        assert(rows@.take(at + 1).drop_last() =~= rows@.take(at as int));
        let ghost before = effects@;
        match rows[at] {
            Some((first, second)) => {
                if first > 0 {
                    effects.push(first);
                }
                if second > 0 {
                    effects.push(second);
                }
            },
            None => {},
        }
        assert(effects@ =~= before + item_effects(rows@[at as int]));
        at = at + 1;
    }
    assert(rows@.take(rows@.len() as int) =~= rows@);
    let ghost items = effects@;
    let mut cure: usize = 0;
    assert(cures@.take(0) =~= seq![]);
    assert(effects@ =~= items + cure_effects(cures@.take(0)));
    while cure < cures.len()
        invariant
            cure <= cures@.len(),
            effects@ == items + cure_effects(cures@.take(cure as int)),
        decreases cures@.len() - cure,
    {
        assert(cures@.take(cure + 1).drop_last() =~= cures@.take(cure as int));
        let id: u32 = cures[cure];
        if 0 < id && id <= 0x7FFF_FFFF {
            effects.push(id as i32);
        }
        assert(effects@ =~= items + cure_effects(cures@.take(cure + 1)));
        cure = cure + 1;
    }
    assert(cures@.take(cures@.len() as int) =~= cures@);
    effects
}

/// After saved attributes were written, each attribute in effect is the saved one of the same
/// name, and all that was chosen is what was saved.
pub proof fn written_stats_are_in_effect(stats: StatsSnapshot)
    ensures
        ({
            let player = with_stats(stats);
            &&& player.effective_vigor == stats.vigor
            &&& player.effective_mind == stats.mind
            &&& player.effective_endurance == stats.endurance
            &&& player.effective_strength == stats.strength
            &&& player.effective_dexterity == stats.dexterity
            &&& player.effective_intelligence == stats.intelligence
            &&& player.effective_faith == stats.faith
            &&& player.effective_arcane == stats.arcane
            &&& player.chosen.level == stats.level && player.chosen.archetype == stats.archetype
            &&& player.chosen.vigor == player.effective_vigor
            &&& player.chosen.mind == player.effective_mind
            &&& player.chosen.endurance == player.effective_endurance
            &&& player.chosen.strength == player.effective_strength
            &&& player.chosen.dexterity == player.effective_dexterity
            &&& player.chosen.intelligence == player.effective_intelligence
            &&& player.chosen.faith == player.effective_faith
            &&& player.chosen.arcane == player.effective_arcane
        }),
{
}

/// Filling takes every bar that goes anywhere to its own end, leaves one that goes nowhere, and
/// changes no length.
pub proof fn every_bar_fills_to_its_own_end(bars: Bars)
    ensures
        ({
            let full = filled(bars);
            &&& bars.max_hp > 0 ==> full.hp == bars.max_hp
            &&& bars.max_fp > 0 ==> full.fp == bars.max_fp
            &&& bars.max_stamina > 0 ==> full.stamina == bars.max_stamina
            &&& bars.max_hp <= 0 ==> full.hp == bars.hp
            &&& bars.max_fp <= 0 ==> full.fp == bars.fp
            &&& bars.max_stamina <= 0 ==> full.stamina == bars.stamina
            &&& full.max_hp == bars.max_hp
            &&& full.max_fp == bars.max_fp
            &&& full.max_stamina == bars.max_stamina
        }),
{
}

/// Bars that are short anywhere are not full, those of the body before those of the data.
pub proof fn short_bars_are_not_full(vitals: Vitals, bars: Bars)
    requires
        vitals.live == Some(bars) || (vitals.live is None && vitals.saved == Some(bars)),
    ensures
        all_full(vitals) <==> !(0 < bars.max_hp && bars.hp < bars.max_hp) && !(0 < bars.max_fp
            && bars.fp < bars.max_fp) && !(0 < bars.max_stamina && bars.stamina < bars.max_stamina),
{
}

/// Each frame of the care counts once for clearing, and once for filling until the bars are full:
/// with the character's data there, they are full at once.
pub proof fn frames_of_care_count(care: CareState, vitals: Vitals)
    ensures
        ({
            let next = cared(care, vitals);
            &&& care.clear_left > 0 ==> next.clear_left == care.clear_left - 1
            &&& care.clear_left == 0 ==> next.clear_left == 0
            &&& vitals.saved is Some ==> next.vitals_left == 0
            &&& vitals.saved is None && vitals.live is None && care.vitals_left > 0
                ==> next.vitals_left == care.vitals_left - 1
        }),
{
}

/// A gauge with nothing built up stands at its length, one without a length at 9999, and the one
/// of death never below that.
pub proof fn gauges_stand_at_their_length(i: int, max: u32)
    ensures
        i != 3 && max > 0 ==> cleared_gauge(i, max) == max,
        i != 3 && max == 0 ==> cleared_gauge(i, max) == 9999,
        i == 3 && max >= 9999 ==> cleared_gauge(i, max) == max,
        i == 3 && max < 9999 ==> cleared_gauge(i, max) == 9999,
{
}

/// An effect is taken off when it builds up any of the seven states, and only then.
pub proof fn every_build_up_is_taken_off(effect: StatusEffect)
    ensures
        effect.powers is None ==> !expires(effect),
        effect.powers matches Some(p) ==> {
            &&& p.curse > 0 ==> expires(effect)
            &&& p.poison > 0 ==> expires(effect)
            &&& p.disease > 0 ==> expires(effect)
            &&& p.blood > 0 ==> expires(effect)
            &&& p.freeze > 0 ==> expires(effect)
            &&& p.sleep > 0 ==> expires(effect)
            &&& p.madness > 0 ==> expires(effect)
            &&& p.curse <= 0 && p.poison <= 0 && p.disease <= 0 && p.blood <= 0 && p.freeze <= 0
                && p.sleep <= 0 && p.madness <= 0 ==> !expires(effect)
        },
{
}

/// Every row that cures the curse at once and nothing else is used for it, and no other.
pub proof fn every_cure_is_found(rows: Seq<CureRow>)
    ensures
        forall|i: int|
            0 <= i < rows.len() && (#[trigger] rows[i]).curse > 0 && !rows[i].lasting
                && rows[i].poison == 0 && rows[i].disease == 0 && rows[i].blood == 0 ==> cure_ids(
                rows,
            ).contains(rows[i].id),
        forall|id: u32| #[trigger]
            cure_ids(rows).contains(id) ==> exists|i: int|
                0 <= i < rows.len() && (#[trigger] rows[i]).id == id && rows[i].curse > 0
                    && !rows[i].lasting && rows[i].poison == 0 && rows[i].disease == 0
                    && rows[i].blood == 0,
    decreases rows.len(),
{
    if rows.len() > 0 {
        let rest = rows.drop_last();
        every_cure_is_found(rest);
        let before = cure_ids(rest);
        let now = cure_ids(rows);
        assert forall|i: int|
            0 <= i < rows.len() && (#[trigger] rows[i]).curse > 0 && !rows[i].lasting
                && rows[i].poison == 0 && rows[i].disease == 0 && rows[i].blood
                == 0 implies now.contains(rows[i].id) by {
            if i < rest.len() {
                assert(rest[i] == rows[i]);
                let k = choose|k: int| 0 <= k < before.len() && before[k] == rest[i].id;
                assert(now[k] == rows[i].id);
            } else {
                assert(now[now.len() - 1] == rows[i].id);
            }
        }
        assert forall|id: u32| #[trigger] now.contains(id) implies exists|i: int|
            0 <= i < rows.len() && (#[trigger] rows[i]).id == id && rows[i].curse > 0
                && !rows[i].lasting && rows[i].poison == 0 && rows[i].disease == 0 && rows[i].blood
                == 0 by {
            let k = choose|k: int| 0 <= k < now.len() && now[k] == id;
            if k < before.len() {
                assert(before[k] == id);
                assert(before.contains(id));
                let i = choose|i: int|
                    0 <= i < rest.len() && (#[trigger] rest[i]).id == id && rest[i].curse > 0
                        && !rest[i].lasting && rest[i].poison == 0 && rest[i].disease == 0
                        && rest[i].blood == 0;
                assert(rows[i] == rest[i]);
            } else {
                assert(rows[rows.len() - 1].id == id);
            }
        }
    }
}

/// Both effects of every curing item are put on, where it has them.
pub proof fn both_effects_are_put_on(rows: Seq<Option<(i32, i32)>>, i: int)
    requires
        0 <= i < rows.len(),
    ensures
        rows[i] matches Some((first, second)) ==> {
            &&& first > 0 ==> bolus_effects(rows).contains(first)
            &&& second > 0 ==> bolus_effects(rows).contains(second)
        },
        forall|k: int| 0 <= k < bolus_effects(rows).len() ==> #[trigger] bolus_effects(rows)[k] > 0,
    decreases rows.len(),
{
    let rest = rows.drop_last();
    let before = bolus_effects(rest);
    let own = item_effects(rows.last());
    let all = bolus_effects(rows);
    if rest.len() > 0 {
        both_effects_are_put_on(rest, 0);
    }
    if i < rest.len() {
        both_effects_are_put_on(rest, i);
        assert(rest[i] == rows[i]);
        if let Some((first, second)) = rows[i] {
            if first > 0 {
                let k = choose|k: int| 0 <= k < before.len() && before[k] == first;
                assert(all[k] == first);
            }
            if second > 0 {
                let k = choose|k: int| 0 <= k < before.len() && before[k] == second;
                assert(all[k] == second);
            }
        }
    } else if let Some((first, second)) = rows[i] {
        if first > 0 {
            assert(own[0] == first);
            assert(all[before.len() as int] == first);
        }
        if second > 0 {
            assert(own[own.len() - 1] == second);
            assert(all[all.len() - 1] == second);
        }
    }
}

/// Every cure with an id that an effect can have is put on, in its order.
pub proof fn cures_are_put_on(ids: Seq<u32>)
    requires
        forall|i: int| 0 <= i < ids.len() ==> 0 < (#[trigger] ids[i]) <= 0x7FFF_FFFF,
    ensures
        cure_effects(ids).len() == ids.len(),
        forall|i: int| 0 <= i < ids.len() ==> #[trigger] cure_effects(ids)[i] == ids[i],
    decreases ids.len(),
{
    if ids.len() > 0 {
        let rest = ids.drop_last();
        assert forall|i: int| 0 <= i < rest.len() implies 0 < (#[trigger] rest[i])
            <= 0x7FFF_FFFF by {
            assert(rest[i] == ids[i]);
        }
        cures_are_put_on(rest);
        assert(0 < ids[ids.len() - 1] <= 0x7FFF_FFFF);
    }
}

/// While the character's data is missing, nothing is filled.
pub proof fn missing_data_is_left_alone(vitals: Vitals)
    ensures
        vitals.saved is None ==> restored(vitals) == vitals,
        vitals.saved matches Some(saved) ==> restored(vitals).saved == Some(filled(saved)),
        vitals.saved is Some && vitals.live is Some ==> restored(vitals).live == Some(
            filled(vitals.live->0),
        ),
        vitals.live is None ==> restored(vitals).live is None,
{
}

/// The line names every attribute with its own number behind it.
pub proof fn lines_name_every_attribute(s: StatsSnapshot)
    ensures
        says(stats_text(s), "Lv"@ + decimal(s.level as int)),
        says(stats_text(s), "  Vig"@ + decimal(s.vigor as int)),
        says(stats_text(s), " Min"@ + decimal(s.mind as int)),
        says(stats_text(s), " End"@ + decimal(s.endurance as int)),
        says(stats_text(s), " Str"@ + decimal(s.strength as int)),
        says(stats_text(s), " Dex"@ + decimal(s.dexterity as int)),
        says(stats_text(s), " Int"@ + decimal(s.intelligence as int)),
        says(stats_text(s), " Fai"@ + decimal(s.faith as int)),
        says(stats_text(s), " Arc"@ + decimal(s.arcane as int)),
{
    let none = Seq::<char>::empty();
    let text = "Lv"@ + decimal(s.level as int);
    assert(text =~= none + "Lv"@ + decimal(s.level as int));
    texts_go_on(none, "Lv"@, decimal(s.level as int));
    texts_go_on(text, "  Vig"@, decimal(s.vigor as int));
    let text = text + "  Vig"@ + decimal(s.vigor as int);
    texts_go_on(text, " Min"@, decimal(s.mind as int));
    let text = text + " Min"@ + decimal(s.mind as int);
    texts_go_on(text, " End"@, decimal(s.endurance as int));
    let text = text + " End"@ + decimal(s.endurance as int);
    texts_go_on(text, " Str"@, decimal(s.strength as int));
    let text = text + " Str"@ + decimal(s.strength as int);
    texts_go_on(text, " Dex"@, decimal(s.dexterity as int));
    let text = text + " Dex"@ + decimal(s.dexterity as int);
    texts_go_on(text, " Int"@, decimal(s.intelligence as int));
    let text = text + " Int"@ + decimal(s.intelligence as int);
    texts_go_on(text, " Fai"@, decimal(s.faith as int));
    let text = text + " Fai"@ + decimal(s.faith as int);
    texts_go_on(text, " Arc"@, decimal(s.arcane as int));
    let text = text + " Arc"@ + decimal(s.arcane as int);
    texts_go_on(text, "  出身"@, decimal(s.archetype as int));
    let text = text + "  出身"@ + decimal(s.archetype as int);
    assert(text == stats_text(s));
}

} // verus!
