//! Counting kills and deaths of duels, frame by frame.
//!
//! The player that the local player hit last is the one target. A kill counts only where
//! the target itself dies, at most once per round, and ends the pursuit; a death of the local
//! player counts once and ends it too.

use std::collections::{HashMap, HashSet};

use vstd::prelude::*;

use crate::text::{
    chars_of, hex, is_white, only_outer_white_space_is_cut, push_numeral, trim, trimmed,
};

verus! {

broadcast use vstd::std_specs::hash::group_hash_axioms;

/// The selector of an empty handle.
pub const EMPTY_SELECTOR: u32 = 0xFFFF_FFFF;

/// Whether a selector names a bullet: its kind stands in the upper four bits.
pub open spec fn is_bullet(selector: u32) -> bool {
    selector / 0x1000_0000 == 3
}

/// What hit a player last, and, where that is a bullet still in flight, who fired it.
#[derive(Clone, Copy, Debug, PartialEq, Eq, Structural)]
pub struct Hit {
    pub selector: u32,
    pub bullet_owner: Option<u32>,
}

/// Who stands behind a hit.
pub open spec fn attacker_of(hit: Hit) -> u32 {
    if hit.selector != EMPTY_SELECTOR && is_bullet(hit.selector) {
        hit.bullet_owner.unwrap_or(hit.selector)
    } else {
        hit.selector
    }
}

/// Turns a bullet into the one who fired it; keeps the bullet where it is gone already.
pub fn resolve_attacker_handle(hit: &Hit) -> (attacker: u32)
    ensures
        attacker == attacker_of(*hit),
{
    if hit.selector == EMPTY_SELECTOR || hit.selector / 0x1000_0000 != 3 {
        return hit.selector;
    }
    match hit.bullet_owner {
        Some(owner) => owner,
        None => hit.selector,
    }
}

/// Whether a hit came from the local player.
#[derive(Clone, Copy, Debug, PartialEq, Eq, Structural)]
pub enum Attribution {
    Local,
    Other,
    Unknown,
}

/// To whom an attacker is attributed.
pub open spec fn attribution_of(attacker: u32, local: u32) -> Attribution {
    if attacker == EMPTY_SELECTOR {
        Attribution::Unknown
    } else if attacker == local {
        Attribution::Local
    } else if is_bullet(attacker) {
        Attribution::Unknown
    } else {
        Attribution::Other
    }
}

/// Attributes an attacker.
pub fn attribution(attacker: u32, local: u32) -> (side: Attribution)
    ensures
        side == attribution_of(attacker, local),
{
    if attacker == EMPTY_SELECTOR {
        Attribution::Unknown
    } else if attacker == local {
        Attribution::Local
    } else if attacker / 0x1000_0000 == 3 {
        Attribution::Unknown
    } else {
        Attribution::Other
    }
}

/// One player in this frame.
#[derive(Clone, Copy, Debug, PartialEq, Eq, Structural)]
pub struct Player {
    pub selector: u32,
    /// The lower half of the Steam id; 0 where there is none.
    pub steam: u32,
    pub hp: i32,
    pub last_hit: Hit,
}

/// A death that a hook saw.
#[derive(Clone, Copy, Debug, PartialEq, Eq, Structural)]
pub struct DeathEvent {
    pub victim: u32,
    pub last_hit: Hit,
}

/// What was seen since the last frame.
#[derive(Debug)]
pub struct Frame {
    /// The selector of the local player.
    pub local: u32,
    pub local_hp: i32,
    /// All players of the session, with or without the local one.
    pub players: Vec<Player>,
    /// The players that the local player damaged, oldest first.
    pub damaged: Vec<u32>,
    /// The deaths that the hooks saw, oldest first.
    pub deaths: Vec<DeathEvent>,
    /// The owners of the braid packets that came in, oldest first; 0 where the owner is unknown.
    pub braids: Vec<u32>,
}

/// What is remembered of another player.
#[derive(Clone, Copy, Debug, PartialEq, Eq, Structural)]
pub struct PeerTrack {
    pub alive: bool,
    pub hp: i32,
}

/// What is remembered from frame to frame.
#[derive(Debug)]
pub struct CombatTrack {
    pub local_alive: Option<bool>,
    pub local_hp: Option<i32>,
    pub local_death_credited: bool,
    /// The other player that the local player hit last.
    pub tracked_target: Option<u32>,
    pub peers: HashMap<u32, PeerTrack>,
    /// The players whose death in this round has counted already.
    pub hp_credited: HashSet<u32>,
}

/// What a `CombatTrack` remembers.
#[verifier::ext_equal]
pub struct TrackState {
    pub local_alive: Option<bool>,
    pub local_hp: Option<i32>,
    pub local_death_credited: bool,
    pub tracked_target: Option<u32>,
    pub peers: Map<u32, PeerTrack>,
    pub hp_credited: Set<u32>,
}

impl View for CombatTrack {
    type V = TrackState;

    open spec fn view(&self) -> TrackState {
        TrackState {
            local_alive: self.local_alive,
            local_hp: self.local_hp,
            local_death_credited: self.local_death_credited,
            tracked_target: self.tracked_target,
            peers: self.peers@,
            hp_credited: self.hp_credited@,
        }
    }
}

impl CombatTrack {
    /// Nothing remembered.
    pub fn new() -> (track: Self)
        ensures
            track@ == (TrackState {
                local_alive: None,
                local_hp: None,
                local_death_credited: false,
                tracked_target: None,
                peers: Map::empty(),
                hp_credited: Set::empty(),
            }),
    {
        CombatTrack {
            local_alive: None,
            local_hp: None,
            local_death_credited: false,
            tracked_target: None,
            peers: HashMap::new(),
            hp_credited: HashSet::new(),
        }
    }
}

/// Drops the target by hand; tells whether there was one.
pub fn clear_tracked_target(track: &mut Option<CombatTrack>) -> (dropped: bool)
    ensures
        dropped == (*old(track) matches Some(before) && before.tracked_target is Some),
        match (*old(track), *final(track)) {
            (Some(before), Some(after)) => after@ == (TrackState {
                tracked_target: None,
                ..before@
            }),
            (None, None) => true,
            _ => false,
        },
{
    match track {
        Some(inner) => {
            let dropped = inner.tracked_target.is_some();
            inner.tracked_target = None;
            dropped
        },
        None => false,
    }
}

/// A moment for which the packets around it are kept.
#[derive(Clone, Copy, Debug, PartialEq, Eq, Structural)]
pub enum Capture {
    /// The local player's hit points reached zero.
    LocalDeath,
    /// A hook saw the local player die.
    LocalDeathNative,
    /// Another player's hit points reached zero.
    RemoteDeath { mine: bool, last_hit: u32, attacker: u32 },
    /// A hook or a packet told of another player's death.
    RemoteDeathNative { mine: bool, victim: u32, last_hit: u32, attacker: u32 },
}

/// The players other than the local one, in order.
pub open spec fn remote(players: Seq<Player>, local: u32) -> Seq<Player>
    decreases players.len(),
{
    if players.len() == 0 {
        seq![]
    } else if players.last().selector == local {
        remote(players.drop_last(), local)
    } else {
        remote(players.drop_last(), local).push(players.last())
    }
}

/// The first player with this selector.
pub open spec fn player_with(players: Seq<Player>, selector: u32) -> Option<Player>
    decreases players.len(),
{
    if players.len() == 0 {
        None
    } else if players[0].selector == selector {
        Some(players[0])
    } else {
        player_with(players.drop_first(), selector)
    }
}

/// The selectors of the players.
pub open spec fn selectors(players: Seq<Player>) -> Set<u32> {
    players.map_values(|p: Player| p.selector).to_set()
}

/// The deaths that braid packets tell of: those of players in the session.
pub open spec fn braid_deaths(braids: Seq<u32>, players: Seq<Player>) -> Seq<DeathEvent>
    decreases braids.len(),
{
    if braids.len() == 0 {
        seq![]
    } else {
        let before = braid_deaths(braids.drop_last(), players);
        match player_with(players, braids.last()) {
            Some(player) if braids.last() != 0 => before.push(
                DeathEvent { victim: braids.last(), last_hit: player.last_hit },
            ),
            _ => before,
        }
    }
}

/// The victims of the events.
pub open spec fn victims(events: Seq<DeathEvent>) -> Set<u32> {
    events.map_values(|e: DeathEvent| e.victim).to_set()
}

/// The state in the middle of a frame, and what was counted so far.
#[verifier::ext_equal]
pub struct Tally {
    pub state: TrackState,
    pub kills: int,
    pub deaths: int,
    /// The victims that counted in this frame.
    pub credited: Set<u32>,
    pub captures: Seq<Capture>,
}

/// The target after the damage of this frame: the latest one hit, if it is another player.
pub open spec fn retargeted(target: Option<u32>, damaged: Seq<u32>, local: u32, peers: Seq<
    Player,
>) -> Option<u32> {
    if damaged.len() > 0 && damaged.last() != local && selectors(peers).contains(damaged.last()) {
        Some(damaged.last())
    } else {
        target
    }
}

/// What the local player's own hit points tell.
pub open spec fn after_local(state: TrackState, local_hp: i32) -> Tally {
    let hurt = match state.local_hp {
        Some(previous) => state.local_alive == Some(true) && local_hp < previous,
        None => false,
    };
    let credited = state.local_death_credited && !hurt;
    let died = state.local_alive == Some(true) && local_hp <= 0;
    Tally {
        state: TrackState {
            local_alive: Some(local_hp > 0),
            local_hp: Some(local_hp),
            local_death_credited: credited || died,
            ..state
        },
        kills: 0,
        deaths: if died && !credited {
            1
        } else {
            0
        },
        credited: Set::empty(),
        captures: if died {
            seq![Capture::LocalDeath]
        } else {
            seq![]
        },
    }
}

/// By what a victim is told apart within one frame.
pub open spec fn victim_id(steam: u32, selector: u32) -> u32 {
    if steam != 0 {
        steam
    } else {
        selector
    }
}

/// Counts the death of the target and ends the pursuit.
pub open spec fn credit(tally: Tally, selector: u32, steam: u32) -> Tally {
    let victim = victim_id(steam, selector);
    Tally {
        state: TrackState {
            tracked_target: None,
            hp_credited: tally.state.hp_credited.insert(selector),
            ..tally.state
        },
        kills: if tally.credited.contains(victim) {
            tally.kills
        } else {
            tally.kills + 1
        },
        credited: tally.credited.insert(victim),
        ..tally
    }
}

/// What one other player's hit points tell.
pub open spec fn step_peer(tally: Tally, peer: Player) -> Tally {
    let sel = peer.selector;
    let alive = peer.hp > 0;
    let known = tally.state.peers.contains_key(sel);
    let before = tally.state.peers[sel];
    let hurt_again = known && before.alive && peer.hp < before.hp;
    let seen = Tally {
        state: TrackState {
            peers: tally.state.peers.insert(sel, PeerTrack { alive, hp: peer.hp }),
            hp_credited: if hurt_again {
                tally.state.hp_credited.remove(sel)
            } else {
                tally.state.hp_credited
            },
            ..tally.state
        },
        ..tally
    };
    if known && before.alive && !alive {
        let mine = seen.state.tracked_target == Some(sel);
        let noted = Tally {
            captures: seen.captures.push(
                Capture::RemoteDeath {
                    mine,
                    last_hit: peer.last_hit.selector,
                    attacker: attacker_of(peer.last_hit),
                },
            ),
            ..seen
        };
        if mine {
            credit(noted, sel, peer.steam)
        } else {
            noted
        }
    } else {
        seen
    }
}

/// What the hit points of the other players tell, in order.
pub open spec fn after_peers(tally: Tally, peers: Seq<Player>) -> Tally
    decreases peers.len(),
{
    if peers.len() == 0 {
        tally
    } else {
        step_peer(after_peers(tally, peers.drop_last()), peers.last())
    }
}

/// What one event tells.
pub open spec fn step_event(
    tally: Tally,
    event: DeathEvent,
    local: u32,
    peers: Seq<Player>,
    packets: Set<u32>,
) -> Tally {
    let sel = event.victim;
    let attacker = attacker_of(event.last_hit);
    let mine = tally.state.tracked_target == Some(sel);
    if sel == local {
        if tally.state.local_death_credited {
            tally
        } else {
            Tally {
                state: TrackState { local_death_credited: true, ..tally.state },
                deaths: tally.deaths + 1,
                captures: tally.captures.push(Capture::LocalDeathNative),
                ..tally
            }
        }
    } else if player_with(peers, sel) is None {
        tally
    } else if attribution_of(attacker, local) != Attribution::Local && !mine && !packets.contains(
        sel,
    ) {
        tally
    } else if tally.state.hp_credited.contains(sel) {
        tally
    } else {
        let noted = Tally {
            captures: tally.captures.push(
                Capture::RemoteDeathNative {
                    mine,
                    victim: sel,
                    last_hit: event.last_hit.selector,
                    attacker,
                },
            ),
            ..tally
        };
        if mine {
            credit(noted, sel, player_with(peers, sel)->0.steam)
        } else {
            noted
        }
    }
}

/// What the events tell, in order.
pub open spec fn after_events(
    tally: Tally,
    events: Seq<DeathEvent>,
    local: u32,
    peers: Seq<Player>,
    packets: Set<u32>,
) -> Tally
    decreases events.len(),
{
    if events.len() == 0 {
        tally
    } else {
        step_event(
            after_events(tally, events.drop_last(), local, peers, packets),
            events.last(),
            local,
            peers,
            packets,
        )
    }
}

/// The end of a frame: players that left are forgotten, and a counted kill or death, or the
/// target's leaving, ends the pursuit.
pub open spec fn settled(tally: Tally, live: Set<u32>) -> Tally {
    let target = tally.state.tracked_target;
    Tally {
        state: TrackState {
            peers: tally.state.peers.restrict(live),
            tracked_target: if tally.kills > 0 || tally.deaths > 0 || (target is Some
                && !live.contains(target->0)) {
                None
            } else {
                target
            },
            ..tally.state
        },
        ..tally
    }
}

/// What a frame tells.
pub open spec fn polled(
    state: TrackState,
    local: u32,
    local_hp: i32,
    players: Seq<Player>,
    damaged: Seq<u32>,
    deaths: Seq<DeathEvent>,
    braids: Seq<u32>,
) -> Tally {
    let peers = remote(players, local);
    let by_packet = braid_deaths(braids, players);
    let aimed = TrackState {
        tracked_target: retargeted(state.tracked_target, damaged, local, peers),
        ..state
    };
    settled(
        after_events(
            after_peers(after_local(aimed, local_hp), peers),
            deaths + by_packet,
            local,
            peers,
            victims(by_packet),
        ),
        selectors(peers),
    )
}

/// What came out of a frame.
#[derive(Debug)]
pub struct Outcome {
    pub kills: u32,
    pub deaths: u32,
    /// The new target, where it changed.
    pub target_changed: Option<u32>,
    pub captures: Vec<Capture>,
}

fn remote_players(players: &Vec<Player>, local: u32) -> (peers: Vec<Player>)
    ensures
        peers@ == remote(players@, local),
{
    let mut peers: Vec<Player> = Vec::new();
    let mut at: usize = 0;
    while at < players.len()
        invariant
            at <= players@.len(),
            peers@ == remote(players@.take(at as int), local),
        decreases players@.len() - at,
    {
        assert(players@.take(at + 1).drop_last() =~= players@.take(at as int));
        let player = players[at];
        if player.selector != local {
            peers.push(player);
        }
        at = at + 1;
    }
    assert(players@.take(players@.len() as int) =~= players@);
    peers
}

proof fn player_with_skips(players: Seq<Player>, selector: u32, n: int)
    requires
        0 <= n <= players.len(),
        forall|i: int| 0 <= i < n ==> (#[trigger] players[i]).selector != selector,
    ensures
        player_with(players, selector) == player_with(players.skip(n), selector),
    decreases n,
{
    if n == 0 {
        assert(players.skip(0) =~= players);
    } else {
        assert forall|i: int| 0 <= i < n - 1 implies (
        #[trigger] players.drop_first()[i]).selector != selector by {
            assert(players.drop_first()[i] == players[i + 1]);
        }
        player_with_skips(players.drop_first(), selector, n - 1);
        assert(players.drop_first().skip(n - 1) =~= players.skip(n));
    }
}

/// The first player with this selector.
pub fn find_player(players: &Vec<Player>, selector: u32) -> (player: Option<Player>)
    ensures
        player == player_with(players@, selector),
        player is Some <==> selectors(players@).contains(selector),
{
    let mut at: usize = 0;
    while at < players.len()
        invariant
            at <= players@.len(),
            forall|i: int| 0 <= i < at ==> (#[trigger] players@[i]).selector != selector,
        decreases players@.len() - at,
    {
        if players[at].selector == selector {
            proof {
                player_with_skips(players@, selector, at as int);
                assert(players@.map_values(|p: Player| p.selector)[at as int] == selector);
            }
            return Some(players[at]);
        }
        at = at + 1;
    }
    proof {
        player_with_skips(players@, selector, players@.len() as int);
        assert(players@.skip(players@.len() as int) =~= seq![]);
        let list = players@.map_values(|p: Player| p.selector);
        assert(!list.contains(selector));
    }
    None
}

fn deaths_by_braid(braids: &Vec<u32>, players: &Vec<Player>) -> (events: Vec<DeathEvent>)
    ensures
        events@ == braid_deaths(braids@, players@),
{
    let mut events: Vec<DeathEvent> = Vec::new();
    let mut at: usize = 0;
    while at < braids.len()
        invariant
            at <= braids@.len(),
            events@ == braid_deaths(braids@.take(at as int), players@),
        decreases braids@.len() - at,
    {
        assert(braids@.take(at + 1).drop_last() =~= braids@.take(at as int));
        let selector: u32 = braids[at];
        if selector != 0 {
            match find_player(players, selector) {
                Some(player) => {
                    events.push(DeathEvent { victim: selector, last_hit: player.last_hit });
                },
                None => {},
            }
        }
        at = at + 1;
    }
    assert(braids@.take(braids@.len() as int) =~= braids@);
    events
}

fn victim_set(events: &Vec<DeathEvent>) -> (set: HashSet<u32>)
    ensures
        set@ == victims(events@),
{
    let mut set: HashSet<u32> = HashSet::new();
    let mut at: usize = 0;
    assert(set@ =~= victims(events@.take(0)));
    while at < events.len()
        invariant
            at <= events@.len(),
            set@ == victims(events@.take(at as int)),
        decreases events@.len() - at,
    {
        set.insert(events[at].victim);
        proof {
            let f = |e: DeathEvent| e.victim;
            let now = events@.take(at as int).map_values(f);
            let next = events@.take(at + 1).map_values(f);
            assert(next =~= now.push(events@[at as int].victim));
            assert forall|v: u32| next.contains(v) <==> (now.contains(v) || v
                == events@[at as int].victim) by {
                if now.contains(v) {
                    let i = choose|i: int| 0 <= i < now.len() && now[i] == v;
                    assert(next[i] == v);
                }
                assert(next[at as int] == events@[at as int].victim);
            }
            assert(set@ =~= victims(events@.take(at + 1)));
        }
        at = at + 1;
    }
    assert(events@.take(events@.len() as int) =~= events@);
    set
}

/// The running count of a frame.
struct Count {
    kills: u32,
    deaths: u32,
    credited: HashSet<u32>,
    captures: Vec<Capture>,
}

impl Count {
    spec fn tally(&self, track: CombatTrack) -> Tally {
        Tally {
            state: track@,
            kills: self.kills as int,
            deaths: self.deaths as int,
            credited: self.credited@,
            captures: self.captures@,
        }
    }
}

/// A frame counts at most one kill while the target is gone, and none before.
spec fn bounded(tally: Tally) -> bool {
    &&& 0 <= tally.kills <= 1
    &&& 0 <= tally.deaths <= 1
    &&& tally.kills == 1 ==> tally.state.tracked_target is None
    &&& tally.deaths == 1 ==> tally.state.local_death_credited
}

fn note_local(track: &mut CombatTrack, local_hp: i32) -> (count: Count)
    ensures
        count.tally(*final(track)) == after_local(old(track)@, local_hp),
        bounded(count.tally(*final(track))),
{
    let hurt = match track.local_hp {
        Some(previous) => match track.local_alive {
            Some(true) => local_hp < previous,
            _ => false,
        },
        None => false,
    };
    if hurt {
        track.local_death_credited = false;
    }
    let mut deaths: u32 = 0;
    let mut captures: Vec<Capture> = Vec::new();
    match track.local_alive {
        Some(true) => {
            if local_hp <= 0 {
                captures.push(Capture::LocalDeath);
                if !track.local_death_credited {
                    deaths = 1;
                    track.local_death_credited = true;
                }
            }
        },
        _ => {},
    }
    track.local_alive = Some(local_hp > 0);
    track.local_hp = Some(local_hp);
    let count = Count { kills: 0, deaths, credited: HashSet::new(), captures };
    assert(count.captures@ =~= after_local(old(track)@, local_hp).captures);
    count
}

fn note_credit(track: &mut CombatTrack, count: &mut Count, selector: u32, steam: u32)
    requires
        old(count).kills == 0,
    ensures
        final(count).tally(*final(track)) == credit(old(count).tally(*old(track)), selector, steam),
        final(count).kills <= 1,
        final(count).deaths == old(count).deaths,
{
    let victim: u32 = if steam != 0 {
        steam
    } else {
        selector
    };
    if count.credited.insert(victim) {
        count.kills = count.kills + 1;
    }
    track.hp_credited.insert(selector);
    track.tracked_target = None;
}

fn note_peer(track: &mut CombatTrack, count: &mut Count, peer: &Player)
    requires
        bounded(old(count).tally(*old(track))),
    ensures
        final(count).tally(*final(track)) == step_peer(old(count).tally(*old(track)), *peer),
        bounded(final(count).tally(*final(track))),
{
    let selector: u32 = peer.selector;
    let alive = peer.hp > 0;
    let before: Option<PeerTrack> = match track.peers.get(&selector) {
        Some(before) => Some(*before),
        None => None,
    };
    let was_alive = match before {
        Some(before) => {
            if before.alive && peer.hp < before.hp {
                track.hp_credited.remove(&selector);
            }
            before.alive
        },
        None => false,
    };
    track.peers.insert(selector, PeerTrack { alive, hp: peer.hp });
    if was_alive && !alive {
        let mine = match track.tracked_target {
            Some(target) => target == selector,
            None => false,
        };
        count.captures.push(
            Capture::RemoteDeath {
                mine,
                last_hit: peer.last_hit.selector,
                attacker: resolve_attacker_handle(&peer.last_hit),
            },
        );
        if mine {
            note_credit(track, count, selector, peer.steam);
        }
    }
}

fn note_event(
    track: &mut CombatTrack,
    count: &mut Count,
    event: &DeathEvent,
    local: u32,
    peers: &Vec<Player>,
    packets: &HashSet<u32>,
)
    requires
        bounded(old(count).tally(*old(track))),
    ensures
        final(count).tally(*final(track)) == step_event(
            old(count).tally(*old(track)),
            *event,
            local,
            peers@,
            packets@,
        ),
        bounded(final(count).tally(*final(track))),
{
    let selector: u32 = event.victim;
    if selector == local {
        if !track.local_death_credited {
            count.captures.push(Capture::LocalDeathNative);
            count.deaths = count.deaths + 1;
            track.local_death_credited = true;
        }
        return;
    }
    let steam: u32 = match find_player(peers, selector) {
        Some(player) => player.steam,
        None => {
            return;
        },
    };
    let attacker: u32 = resolve_attacker_handle(&event.last_hit);
    let direct = match attribution(attacker, local) {
        Attribution::Local => true,
        _ => false,
    };
    let mine = match track.tracked_target {
        Some(target) => target == selector,
        None => false,
    };
    if !direct && !mine && !packets.contains(&selector) {
        return;
    }
    if track.hp_credited.contains(&selector) {
        return;
    }
    count.captures.push(
        Capture::RemoteDeathNative {
            mine,
            victim: selector,
            last_hit: event.last_hit.selector,
            attacker,
        },
    );
    if mine {
        note_credit(track, count, selector, steam);
    }
}

fn forget_absent(track: &mut CombatTrack, peers: &Vec<Player>)
    ensures
        final(track)@ == (TrackState {
            peers: old(track)@.peers.restrict(selectors(peers@)),
            ..old(track)@
        }),
{
    let mut kept: HashMap<u32, PeerTrack> = HashMap::new();
    let mut at: usize = 0;
    assert(kept@ =~= track.peers@.restrict(selectors(peers@.take(0))));
    while at < peers.len()
        invariant
            at <= peers@.len(),
            *track == *old(track),
            kept@ == track.peers@.restrict(selectors(peers@.take(at as int))),
        decreases peers@.len() - at,
    {
        let selector: u32 = peers[at].selector;
        match track.peers.get(&selector) {
            Some(peer) => {
                kept.insert(selector, *peer);
            },
            None => {},
        }
        proof {
            let f = |p: Player| p.selector;
            let now = peers@.take(at as int).map_values(f);
            let next = peers@.take(at + 1).map_values(f);
            assert(next =~= now.push(selector));
            assert forall|v: u32| next.contains(v) <==> (now.contains(v) || v == selector) by {
                if now.contains(v) {
                    let i = choose|i: int| 0 <= i < now.len() && now[i] == v;
                    assert(next[i] == v);
                }
                assert(next[at as int] == selector);
            }
            assert(kept@ =~= track.peers@.restrict(selectors(peers@.take(at + 1))));
        }
        at = at + 1;
    }
    assert(peers@.take(peers@.len() as int) =~= peers@);
    track.peers = kept;
}

/// Counts what a frame tells.
pub fn poll(track: &mut CombatTrack, frame: &Frame) -> (outcome: Outcome)
    ensures
        ({
            let tally = polled(
                old(track)@,
                frame.local,
                frame.local_hp,
                frame.players@,
                frame.damaged@,
                frame.deaths@,
                frame.braids@,
            );
            let target = retargeted(
                old(track).tracked_target,
                frame.damaged@,
                frame.local,
                remote(frame.players@, frame.local),
            );
            &&& final(track)@ == tally.state
            &&& outcome.kills == tally.kills
            &&& outcome.deaths == tally.deaths
            &&& outcome.captures@ == tally.captures
            &&& outcome.target_changed == if target != old(track).tracked_target {
                target
            } else {
                None
            }
        }),
{
    let local: u32 = frame.local;
    let peers: Vec<Player> = remote_players(&frame.players, local);
    let by_packet: Vec<DeathEvent> = deaths_by_braid(&frame.braids, &frame.players);
    let packets: HashSet<u32> = victim_set(&by_packet);

    let mut target_changed: Option<u32> = None;
    if frame.damaged.len() > 0 {
        let latest: u32 = frame.damaged[frame.damaged.len() - 1];
        if latest != local && find_player(&peers, latest).is_some() {
            let unchanged = match track.tracked_target {
                Some(target) => target == latest,
                None => false,
            };
            if !unchanged {
                target_changed = Some(latest);
            }
            track.tracked_target = Some(latest);
        }
    }
    let ghost aimed = track@;
    assert(aimed =~= TrackState {
        tracked_target: retargeted(old(track).tracked_target, frame.damaged@, local, peers@),
        ..old(track)@
    });

    let mut count = note_local(track, frame.local_hp);
    let ghost start = count.tally(*track);
    let mut at: usize = 0;
    assert(peers@.take(0) =~= seq![]);
    while at < peers.len()
        invariant
            at <= peers@.len(),
            count.tally(*track) == after_peers(start, peers@.take(at as int)),
            bounded(count.tally(*track)),
        decreases peers@.len() - at,
    {
        assert(peers@.take(at + 1).drop_last() =~= peers@.take(at as int));
        note_peer(track, &mut count, &peers[at]);
        at = at + 1;
    }
    assert(peers@.take(peers@.len() as int) =~= peers@);

    let ghost middle = count.tally(*track);
    let ghost events = frame.deaths@ + by_packet@;
    let mut seen: usize = 0;
    assert(events.take(0) =~= seq![]);
    while seen < frame.deaths.len()
        invariant
            seen <= frame.deaths@.len(),
            events == frame.deaths@ + by_packet@,
            packets@ == victims(by_packet@),
            count.tally(*track) == after_events(
                middle,
                events.take(seen as int),
                local,
                peers@,
                packets@,
            ),
            bounded(count.tally(*track)),
        decreases frame.deaths@.len() - seen,
    {
        assert(events.take(seen + 1).drop_last() =~= events.take(seen as int));
        note_event(track, &mut count, &frame.deaths[seen], local, &peers, &packets);
        seen = seen + 1;
    }
    let mut told: usize = 0;
    while told < by_packet.len()
        invariant
            told <= by_packet@.len(),
            events == frame.deaths@ + by_packet@,
            packets@ == victims(by_packet@),
            count.tally(*track) == after_events(
                middle,
                events.take(frame.deaths@.len() + told),
                local,
                peers@,
                packets@,
            ),
            bounded(count.tally(*track)),
        decreases by_packet@.len() - told,
    {
        assert(events.take(frame.deaths@.len() + told + 1).drop_last() =~= events.take(
            frame.deaths@.len() + told,
        ));
        note_event(track, &mut count, &by_packet[told], local, &peers, &packets);
        told = told + 1;
    }
    assert(events.take((frame.deaths@.len() + by_packet@.len()) as int) =~= events);

    let ghost before = count.tally(*track);
    forget_absent(track, &peers);
    let gone = match track.tracked_target {
        Some(target) => find_player(&peers, target).is_none(),
        None => false,
    };
    if gone || count.kills > 0 || count.deaths > 0 {
        track.tracked_target = None;
    }
    assert(count.tally(*track) =~= settled(before, selectors(peers@)));
    Outcome { kills: count.kills, deaths: count.deaths, target_changed, captures: count.captures }
}

/// What a hook on damage learns.
#[derive(Clone, Copy, Debug, PartialEq, Eq, Structural)]
pub struct DamageNote {
    /// The player that the local player damaged.
    pub damaged: Option<u32>,
    /// The death that the damage caused.
    pub death: Option<DeathEvent>,
}

/// Reads off what one damage call did to the player `victim`.
///
/// `before` and `after` are the victim's hit points around the call, `attacker` is the one
/// that the call names, and `last_hit` is what the victim itself was hit by last.
pub fn damage_note(
    victim: u32,
    before: i32,
    after: i32,
    attacker: Option<u32>,
    last_hit: Option<Hit>,
    local: u32,
) -> (note: DamageNote)
    ensures
        note.damaged == if after < before && attacker.unwrap_or(0) == local {
            Some(victim)
        } else {
            None
        },
        note.death == if before > 0 && after <= 0 {
            match (attacker, last_hit) {
                (Some(selector), _) => Some(
                    DeathEvent { victim, last_hit: Hit { selector, bullet_owner: None } },
                ),
                (None, Some(last_hit)) => Some(DeathEvent { victim, last_hit }),
                (None, None) => None,
            }
        } else {
            None
        },
{
    let source: u32 = match attacker {
        Some(selector) => selector,
        None => 0,
    };
    let damaged = if after < before && source == local {
        Some(victim)
    } else {
        None
    };
    let death = if before > 0 && after <= 0 {
        match attacker {
            Some(selector) => Some(
                DeathEvent { victim, last_hit: Hit { selector, bullet_owner: None } },
            ),
            None => match last_hit {
                Some(last_hit) => Some(DeathEvent { victim, last_hit }),
                None => None,
            },
        }
    } else {
        None
    };
    DamageNote { damaged, death }
}

/// Notes the player in whose damage call a damage packet was sent; 0 stands for none.
pub fn note_local_damage_packet_target(damaged: &mut Vec<u32>, context_victim: u32)
    ensures
        final(damaged)@ == if context_victim == 0 {
            old(damaged)@
        } else {
            old(damaged)@.push(context_victim)
        },
{
    if context_victim != 0 {
        damaged.push(context_victim);
    }
}

/// Follows the answers of the game's death query; tells whether this one is a new death.
pub fn note_is_dead(dead: &mut HashSet<u32>, selector: u32, is_dead: bool) -> (died: bool)
    ensures
        died == (is_dead && !old(dead)@.contains(selector)),
        final(dead)@ == if is_dead {
            old(dead)@.insert(selector)
        } else {
            old(dead)@.remove(selector)
        },
{
    if is_dead {
        dead.insert(selector)
    } else {
        dead.remove(&selector);
        false
    }
}

/// Whether to try again to install the hooks: about once a second while one is missing.
pub fn should_install(death: bool, is_dead: bool, damage: bool, tick: usize) -> (due: bool)
    ensures
        due == (!(death && is_dead && damage) && tick % 60 == 0),
{
    (!death || !is_dead || !damage) && tick % 60 == 0
}

/// The name to show for a player: the character's, else the account's, else a stand-in.
pub open spec fn display_name(character: Seq<char>, account: Option<Seq<char>>) -> Seq<char> {
    if trimmed(character).len() > 0 {
        character
    } else if account is Some && trimmed(account->0).len() > 0 {
        account->0
    } else {
        "未知玩家"@
    }
}

/// The name to show for a player.
pub fn player_display_name(character: &str, account: Option<&str>) -> (name: String)
    ensures
        name@ == display_name(
            character@,
            match account {
                Some(account) => Some(account@),
                None => None,
            },
        ),
{
    if chars_of(trim(character).as_str()).len() > 0 {
        return character.to_owned();
    }
    match account {
        Some(account) => {
            if chars_of(trim(account).as_str()).len() > 0 {
                return account.to_owned();
            }
        },
        None => {},
    }
    "未知玩家".to_owned()
}

impl Capture {
    /// The characters of the label, in a session of the local player `local`.
    pub open spec fn text(&self, local: u32) -> Seq<char> {
        match self {
            Capture::LocalDeath => "local_death"@,
            Capture::LocalDeathNative => "local_death_native"@,
            Capture::RemoteDeath { mine, last_hit, attacker } => (if *mine {
                "remote_death_mine local=0x"@
            } else {
                "remote_death_other local=0x"@
            }) + hex(local as nat) + " last_hit=0x"@ + hex(*last_hit as nat) + " attacker=0x"@
                + hex(*attacker as nat),
            Capture::RemoteDeathNative { mine, victim, last_hit, attacker } => (if *mine {
                "remote_death_native_mine local=0x"@
            } else {
                "remote_death_native_other local=0x"@
            }) + hex(local as nat) + " victim=0x"@ + hex(*victim as nat) + " last_hit=0x"@ + hex(
                *last_hit as nat,
            ) + " attacker=0x"@ + hex(*attacker as nat),
        }
    }

    /// The label under which the packets are kept.
    pub fn label(&self, local: u32) -> (text: String)
        ensures
            text@ == self.text(local),
    {
        match self {
            Capture::LocalDeath => "local_death".to_owned(),
            Capture::LocalDeathNative => "local_death_native".to_owned(),
            Capture::RemoteDeath { mine, last_hit, attacker } => {
                let mut text = if *mine {
                    "remote_death_mine local=0x".to_owned()
                } else {
                    "remote_death_other local=0x".to_owned()
                };
                push_numeral(&mut text, local as u128, 16, false);
                text.append(" last_hit=0x");
                push_numeral(&mut text, *last_hit as u128, 16, false);
                text.append(" attacker=0x");
                push_numeral(&mut text, *attacker as u128, 16, false);
                text
            },
            Capture::RemoteDeathNative { mine, victim, last_hit, attacker } => {
                let mut text = if *mine {
                    "remote_death_native_mine local=0x".to_owned()
                } else {
                    "remote_death_native_other local=0x".to_owned()
                };
                push_numeral(&mut text, local as u128, 16, false);
                text.append(" victim=0x");
                push_numeral(&mut text, *victim as u128, 16, false);
                text.append(" last_hit=0x");
                push_numeral(&mut text, *last_hit as u128, 16, false);
                text.append(" attacker=0x");
                push_numeral(&mut text, *attacker as u128, 16, false);
                text
            },
        }
    }
}

/// What holds in the middle of a frame that began with target `target`.
spec fn midway(tally: Tally, target: Option<u32>) -> bool {
    &&& bounded(tally)
    &&& tally.state.tracked_target is Some ==> tally.state.tracked_target == target
    &&& tally.kills == 1 ==> target is Some
}

proof fn midway_peers(tally: Tally, peers: Seq<Player>, target: Option<u32>)
    requires
        midway(tally, target),
    ensures
        midway(after_peers(tally, peers), target),
    decreases peers.len(),
{
    if peers.len() > 0 {
        midway_peers(tally, peers.drop_last(), target);
    }
}

proof fn midway_events(
    tally: Tally,
    events: Seq<DeathEvent>,
    local: u32,
    peers: Seq<Player>,
    packets: Set<u32>,
    target: Option<u32>,
)
    requires
        midway(tally, target),
    ensures
        midway(after_events(tally, events, local, peers, packets), target),
    decreases events.len(),
{
    if events.len() > 0 {
        midway_events(tally, events.drop_last(), local, peers, packets, target);
    }
}

/// Whether a player was alive before place `i` of the list: at the last frame, or at an earlier
/// place.
pub open spec fn was_alive(
    known: Map<u32, PeerTrack>,
    players: Seq<Player>,
    selector: u32,
    i: int,
) -> bool {
    ||| known.contains_key(selector) && known[selector].alive
    ||| exists|j: int|
        0 <= j < i && (#[trigger] players[j]).selector == selector && players[j].hp > 0
}

/// Whether a player who was alive has no hit points left.
pub open spec fn fell(known: Map<u32, PeerTrack>, players: Seq<Player>, selector: u32) -> bool {
    exists|i: int|
        0 <= i < players.len() && (#[trigger] players[i]).selector == selector && players[i].hp <= 0
            && was_alive(known, players, selector, i)
}

/// Whether a death event names a player.
pub open spec fn is_named(events: Seq<DeathEvent>, selector: u32) -> bool {
    exists|i: int| 0 <= i < events.len() && (#[trigger] events[i]).victim == selector
}

proof fn watched_target_fell(tally: Tally, peers: Seq<Player>, target: u32)
    requires
        tally.kills == 0,
        tally.state.tracked_target is Some ==> tally.state.tracked_target == Some(target),
    ensures
        ({
            let after = after_peers(tally, peers);
            let known = tally.state.peers;
            &&& after.kills > 0 ==> fell(known, peers, target)
            &&& after.state.tracked_target is Some ==> after.state.tracked_target == Some(target)
            &&& after.state.peers.contains_key(target) && after.state.peers[target].alive
                ==> was_alive(known, peers, target, peers.len() as int)
        }),
    decreases peers.len(),
{
    if peers.len() > 0 {
        let rest = peers.drop_last();
        let known = tally.state.peers;
        let last = peers.len() - 1;
        watched_target_fell(tally, rest, target);
        let before = after_peers(tally, rest);
        if was_alive(known, rest, target, last) {
            if !(known.contains_key(target) && known[target].alive) {
                let j = choose|j: int|
                    0 <= j < last && (#[trigger] rest[j]).selector == target && rest[j].hp > 0;
                assert(peers[j] == rest[j]);
            }
            assert(was_alive(known, peers, target, last));
            assert(was_alive(known, peers, target, peers.len() as int));
        }
        if fell(known, rest, target) {
            let i = choose|i: int|
                0 <= i < rest.len() && (#[trigger] rest[i]).selector == target && rest[i].hp <= 0
                    && was_alive(known, rest, target, i);
            assert(peers[i] == rest[i]);
            if !(known.contains_key(target) && known[target].alive) {
                let j = choose|j: int|
                    0 <= j < i && (#[trigger] rest[j]).selector == target && rest[j].hp > 0;
                assert(peers[j] == rest[j]);
            }
            assert(was_alive(known, peers, target, i));
        }
        assert(peers[last] == peers.last());
    }
}

proof fn credited_target_is_named(
    tally: Tally,
    events: Seq<DeathEvent>,
    local: u32,
    peers: Seq<Player>,
    packets: Set<u32>,
    target: u32,
)
    requires
        tally.state.tracked_target is Some ==> tally.state.tracked_target == Some(target),
    ensures
        ({
            let after = after_events(tally, events, local, peers, packets);
            &&& after.kills > tally.kills ==> is_named(events, target)
            &&& after.state.tracked_target is Some ==> after.state.tracked_target == Some(target)
        }),
    decreases events.len(),
{
    if events.len() > 0 {
        let rest = events.drop_last();
        credited_target_is_named(tally, rest, local, peers, packets, target);
        if is_named(rest, target) {
            let i = choose|i: int| 0 <= i < rest.len() && (#[trigger] rest[i]).victim == target;
            assert(events[i] == rest[i]);
        }
        assert(events[events.len() - 1] == events.last());
    }
}

/// A frame counts at most one kill and one death. It counts a kill only where there is a target
/// and the target died: its hit points fell to 0, or a death event or a packet names it. A frame
/// that counted anything leaves no target behind.
pub proof fn one_kill_and_it_is_the_target(
    state: TrackState,
    local: u32,
    local_hp: i32,
    players: Seq<Player>,
    damaged: Seq<u32>,
    deaths: Seq<DeathEvent>,
    braids: Seq<u32>,
)
    ensures
        ({
            let tally = polled(state, local, local_hp, players, damaged, deaths, braids);
            let target = retargeted(state.tracked_target, damaged, local, remote(players, local));
            &&& 0 <= tally.kills <= 1
            &&& 0 <= tally.deaths <= 1
            &&& tally.kills == 1 ==> target is Some && (fell(
                state.peers,
                remote(players, local),
                target->0,
            ) || is_named(deaths + braid_deaths(braids, players), target->0))
            &&& tally.kills + tally.deaths > 0 ==> tally.state.tracked_target is None
        }),
{
    let peers = remote(players, local);
    let target = retargeted(state.tracked_target, damaged, local, peers);
    let aimed = TrackState { tracked_target: target, ..state };
    let started = after_local(aimed, local_hp);
    midway_peers(started, peers, target);
    let by_packet = braid_deaths(braids, players);
    let watched = after_peers(started, peers);
    midway_events(watched, deaths + by_packet, local, peers, victims(by_packet), target);
    if target is Some {
        watched_target_fell(started, peers, target->0);
        credited_target_is_named(
            watched,
            deaths + by_packet,
            local,
            peers,
            victims(by_packet),
            target->0,
        );
    }
}

/// The target that a frame leaves behind is another player of the session.
pub proof fn target_is_present(
    state: TrackState,
    local: u32,
    local_hp: i32,
    players: Seq<Player>,
    damaged: Seq<u32>,
    deaths: Seq<DeathEvent>,
    braids: Seq<u32>,
)
    ensures
        ({
            let target = polled(
                state,
                local,
                local_hp,
                players,
                damaged,
                deaths,
                braids,
            ).state.tracked_target;
            target is Some ==> target->0 != local && selectors(players).contains(target->0)
        }),
{
    let target = polled(
        state,
        local,
        local_hp,
        players,
        damaged,
        deaths,
        braids,
    ).state.tracked_target;
    if target is Some {
        remote_selectors(players, local, target->0);
    }
}

/// The players other than the local one are those with another selector.
proof fn remote_selectors(players: Seq<Player>, local: u32, selector: u32)
    ensures
        selectors(remote(players, local)).contains(selector) <==> selector != local && selectors(
            players,
        ).contains(selector),
    decreases players.len(),
{
    let f = |p: Player| p.selector;
    if players.len() == 0 {
        assert(remote(players, local) =~= seq![]);
    } else {
        let rest = players.drop_last();
        remote_selectors(rest, local, selector);
        pushed_selector(rest, players.last(), selector);
        assert(rest.push(players.last()) =~= players);
        pushed_selector(remote(rest, local), players.last(), selector);
    }
}

proof fn pushed_selector(players: Seq<Player>, player: Player, selector: u32)
    ensures
        selectors(players.push(player)).contains(selector) <==> selectors(players).contains(
            selector,
        ) || selector == player.selector,
{
    let f = |p: Player| p.selector;
    let now = players.map_values(f);
    let next = players.push(player).map_values(f);
    assert(next =~= now.push(player.selector));
    if now.contains(selector) {
        let i = choose|i: int| 0 <= i < now.len() && now[i] == selector;
        assert(next[i] == selector);
    }
    assert(next[players.len() as int] == player.selector);
}

/// After a frame exactly the other players of the session are remembered.
pub proof fn remembers_exactly_the_session(
    state: TrackState,
    local: u32,
    local_hp: i32,
    players: Seq<Player>,
    damaged: Seq<u32>,
    deaths: Seq<DeathEvent>,
    braids: Seq<u32>,
)
    ensures
        polled(state, local, local_hp, players, damaged, deaths, braids).state.peers.dom()
            == selectors(remote(players, local)),
{
    let peers = remote(players, local);
    let aimed = TrackState {
        tracked_target: retargeted(state.tracked_target, damaged, local, peers),
        ..state
    };
    let started = after_local(aimed, local_hp);
    let by_packet = braid_deaths(braids, players);
    let watched = after_peers(started, peers);
    peers_are_noted(started, peers);
    events_keep_peers(watched, deaths + by_packet, local, peers, victims(by_packet));
    assert(polled(state, local, local_hp, players, damaged, deaths, braids).state.peers.dom()
        =~= selectors(peers));
}

proof fn peers_are_noted(tally: Tally, peers: Seq<Player>)
    ensures
        forall|selector: u32| #[trigger]
            selectors(peers).contains(selector) ==> after_peers(
                tally,
                peers,
            ).state.peers.contains_key(selector),
    decreases peers.len(),
{
    let after = after_peers(tally, peers);
    assert forall|selector: u32| #[trigger]
        selectors(peers).contains(selector) implies after.state.peers.contains_key(selector) by {
        let rest = peers.drop_last();
        assert(peers.len() > 0);
        peers_are_noted(tally, rest);
        assert(rest.push(peers.last()) =~= peers);
        pushed_selector(rest, peers.last(), selector);
    }
}

proof fn events_keep_peers(
    tally: Tally,
    events: Seq<DeathEvent>,
    local: u32,
    peers: Seq<Player>,
    packets: Set<u32>,
)
    ensures
        after_events(tally, events, local, peers, packets).state.peers == tally.state.peers,
    decreases events.len(),
{
    if events.len() > 0 {
        events_keep_peers(tally, events.drop_last(), local, peers, packets);
    }
}

/// A local death that counted does not count again before the local player is hurt anew.
pub proof fn local_death_counts_once(
    state: TrackState,
    local: u32,
    local_hp: i32,
    players: Seq<Player>,
    damaged: Seq<u32>,
    deaths: Seq<DeathEvent>,
    braids: Seq<u32>,
)
    requires
        state.local_death_credited,
        !(state.local_alive == Some(true) && state.local_hp is Some && local_hp
            < state.local_hp->0),
    ensures
        polled(state, local, local_hp, players, damaged, deaths, braids).deaths == 0,
        polled(
            state,
            local,
            local_hp,
            players,
            damaged,
            deaths,
            braids,
        ).state.local_death_credited,
{
    let peers = remote(players, local);
    let aimed = TrackState {
        tracked_target: retargeted(state.tracked_target, damaged, local, peers),
        ..state
    };
    let started = after_local(aimed, local_hp);
    let by_packet = braid_deaths(braids, players);
    peers_keep_local(started, peers);
    events_keep_credited_local(
        after_peers(started, peers),
        deaths + by_packet,
        local,
        peers,
        victims(by_packet),
    );
}

proof fn peers_keep_local(tally: Tally, peers: Seq<Player>)
    ensures
        after_peers(tally, peers).deaths == tally.deaths,
        after_peers(tally, peers).state.local_death_credited == tally.state.local_death_credited,
    decreases peers.len(),
{
    if peers.len() > 0 {
        peers_keep_local(tally, peers.drop_last());
    }
}

proof fn events_keep_credited_local(
    tally: Tally,
    events: Seq<DeathEvent>,
    local: u32,
    peers: Seq<Player>,
    packets: Set<u32>,
)
    requires
        tally.state.local_death_credited,
    ensures
        after_events(tally, events, local, peers, packets).deaths == tally.deaths,
        after_events(tally, events, local, peers, packets).state.local_death_credited,
    decreases events.len(),
{
    if events.len() > 0 {
        events_keep_credited_local(tally, events.drop_last(), local, peers, packets);
    }
}

/// A remembered player is alive exactly where its hit points are above zero.
pub open spec fn consistent(state: TrackState) -> bool {
    forall|selector: u32| #[trigger]
        state.peers.contains_key(selector) ==> state.peers[selector].alive == (
        state.peers[selector].hp > 0)
}

/// Every frame keeps the remembered players consistent.
pub proof fn frames_keep_consistency(
    state: TrackState,
    local: u32,
    local_hp: i32,
    players: Seq<Player>,
    damaged: Seq<u32>,
    deaths: Seq<DeathEvent>,
    braids: Seq<u32>,
)
    requires
        consistent(state),
    ensures
        consistent(polled(state, local, local_hp, players, damaged, deaths, braids).state),
{
    let peers = remote(players, local);
    let aimed = TrackState {
        tracked_target: retargeted(state.tracked_target, damaged, local, peers),
        ..state
    };
    let started = after_local(aimed, local_hp);
    let by_packet = braid_deaths(braids, players);
    peers_keep_consistency(started, peers);
    events_keep_peers(
        after_peers(started, peers),
        deaths + by_packet,
        local,
        peers,
        victims(by_packet),
    );
}

proof fn peers_keep_consistency(tally: Tally, peers: Seq<Player>)
    requires
        consistent(tally.state),
    ensures
        consistent(after_peers(tally, peers).state),
    decreases peers.len(),
{
    if peers.len() > 0 {
        peers_keep_consistency(tally, peers.drop_last());
    }
}

/// A player whose death counted does not count again before being hurt anew: while its hit
/// points stay at or above what is remembered, neither they nor any event give a kill.
pub proof fn victim_counts_once(
    state: TrackState,
    local: u32,
    local_hp: i32,
    players: Seq<Player>,
    damaged: Seq<u32>,
    deaths: Seq<DeathEvent>,
    braids: Seq<u32>,
    victim: u32,
    hp: i32,
)
    requires
        consistent(state),
        state.hp_credited.contains(victim),
        forall|i: int|
            0 <= i < players.len() && (#[trigger] players[i]).selector == victim ==> players[i].hp
                == hp,
        state.peers.contains_key(victim) ==> hp >= state.peers[victim].hp,
        retargeted(state.tracked_target, damaged, local, remote(players, local)) == Some(victim),
    ensures
        polled(state, local, local_hp, players, damaged, deaths, braids).kills == 0,
{
    let peers = remote(players, local);
    let aimed = TrackState {
        tracked_target: retargeted(state.tracked_target, damaged, local, peers),
        ..state
    };
    let started = after_local(aimed, local_hp);
    let by_packet = braid_deaths(braids, players);
    remote_are_players(players, local, victim, hp);
    peers_skip_credited(started, peers, victim, hp);
    events_skip_credited(
        after_peers(started, peers),
        deaths + by_packet,
        local,
        peers,
        victims(by_packet),
        victim,
    );
}

proof fn remote_are_players(players: Seq<Player>, local: u32, victim: u32, hp: i32)
    requires
        forall|i: int|
            0 <= i < players.len() && (#[trigger] players[i]).selector == victim ==> players[i].hp
                == hp,
    ensures
        forall|i: int|
            0 <= i < remote(players, local).len() && (#[trigger] remote(
                players,
                local,
            )[i]).selector == victim ==> remote(players, local)[i].hp == hp,
    decreases players.len(),
{
    if players.len() > 0 {
        assert forall|i: int|
            0 <= i < players.drop_last().len() && (#[trigger] players.drop_last()[i]).selector
                == victim implies players.drop_last()[i].hp == hp by {
            assert(players[i] == players.drop_last()[i]);
        }
        remote_are_players(players.drop_last(), local, victim, hp);
        assert(players.last() == players[players.len() - 1]);
    }
}

proof fn peers_skip_credited(tally: Tally, peers: Seq<Player>, victim: u32, hp: i32)
    requires
        consistent(tally.state),
        tally.state.hp_credited.contains(victim),
        tally.kills == 0,
        tally.state.tracked_target == Some(victim),
        tally.state.peers.contains_key(victim) ==> hp >= tally.state.peers[victim].hp,
        forall|i: int|
            0 <= i < peers.len() && (#[trigger] peers[i]).selector == victim ==> peers[i].hp == hp,
    ensures
        ({
            let after = after_peers(tally, peers);
            &&& consistent(after.state)
            &&& after.state.hp_credited.contains(victim)
            &&& after.kills == 0
            &&& after.state.tracked_target == Some(victim)
            &&& after.state.peers.contains_key(victim) ==> hp >= after.state.peers[victim].hp
        }),
    decreases peers.len(),
{
    if peers.len() > 0 {
        assert forall|i: int|
            0 <= i < peers.drop_last().len() && (#[trigger] peers.drop_last()[i]).selector
                == victim implies peers.drop_last()[i].hp == hp by {
            assert(peers[i] == peers.drop_last()[i]);
        }
        peers_skip_credited(tally, peers.drop_last(), victim, hp);
        assert(peers.last() == peers[peers.len() - 1]);
    }
}

proof fn events_skip_credited(
    tally: Tally,
    events: Seq<DeathEvent>,
    local: u32,
    peers: Seq<Player>,
    packets: Set<u32>,
    victim: u32,
)
    requires
        tally.state.hp_credited.contains(victim),
        tally.kills == 0,
        tally.state.tracked_target == Some(victim),
    ensures
        ({
            let after = after_events(tally, events, local, peers, packets);
            &&& after.state.hp_credited.contains(victim)
            &&& after.kills == 0
            &&& after.state.tracked_target == Some(victim)
        }),
    decreases events.len(),
{
    if events.len() > 0 {
        events_skip_credited(tally, events.drop_last(), local, peers, packets, victim);
    }
}

/// The target of a frame: whom the local player hit last in it, where that is another player of
/// the session, or else the one from before.
pub proof fn whoever_was_hit_last_is_the_target(
    target: Option<u32>,
    damaged: Seq<u32>,
    local: u32,
    players: Seq<Player>,
    i: int,
)
    ensures
        0 <= i < players.len() && damaged.len() > 0 && players[i].selector == damaged.last()
            && damaged.last() != local ==> retargeted(
            target,
            damaged,
            local,
            remote(players, local),
        ) == Some(damaged.last()),
        damaged.len() == 0 || damaged.last() == local || (forall|k: int|
            0 <= k < players.len() ==> (#[trigger] players[k]).selector != damaged.last())
            ==> retargeted(target, damaged, local, remote(players, local)) == target,
{
    if damaged.len() > 0 {
        let hit = damaged.last();
        let f = |p: Player| p.selector;
        remote_selectors(players, local, hit);
        if 0 <= i < players.len() && players[i].selector == hit {
            assert(players.map_values(f)[i] == hit);
        }
        if selectors(players).contains(hit) {
            let k = choose|k: int| 0 <= k < players.len() && players.map_values(f)[k] == hit;
            assert(players[k].selector == hit);
        }
    }
}

proof fn fallen_target_counts(tally: Tally, peers: Seq<Player>, target: u32)
    requires
        tally.kills == 0,
        tally.credited == Set::<u32>::empty(),
        tally.state.tracked_target == Some(target),
        tally.state.peers.contains_key(target),
        tally.state.peers[target].alive,
    ensures
        ({
            let after = after_peers(tally, peers);
            let fallen = exists|i: int|
                0 <= i < peers.len() && (#[trigger] peers[i]).selector == target && peers[i].hp <= 0;
            if fallen {
                after.kills == 1
            } else {
                &&& after.kills == 0
                &&& after.credited == Set::<u32>::empty()
                &&& after.state.tracked_target == Some(target)
                &&& after.state.peers.contains_key(target)
                &&& after.state.peers[target].alive
            }
        }),
    decreases peers.len(),
{
    if peers.len() > 0 {
        let rest = peers.drop_last();
        fallen_target_counts(tally, rest, target);
        let last = peers.len() - 1;
        assert(peers[last] == peers.last());
        if exists|i: int|
            0 <= i < rest.len() && (#[trigger] rest[i]).selector == target && rest[i].hp <= 0 {
            let i = choose|i: int|
                0 <= i < rest.len() && (#[trigger] rest[i]).selector == target && rest[i].hp <= 0;
            assert(peers[i] == rest[i]);
            no_second_kill(tally, rest, target);
            no_second_kill(tally, peers, target);
        } else {
            assert forall|i: int|
                0 <= i < last && (#[trigger] peers[i]).selector == target implies peers[i].hp > 0 by {
                assert(peers[i] == rest[i]);
            }
        }
    }
}

/// Once the target counted there is none, so nothing more counts.
proof fn no_second_kill(tally: Tally, peers: Seq<Player>, target: u32)
    requires
        tally.kills == 0,
        tally.state.tracked_target == Some(target),
    ensures
        ({
            let after = after_peers(tally, peers);
            &&& after.kills > 0 ==> after.state.tracked_target is None
            &&& after.kills <= 1
            &&& after.state.tracked_target is Some ==> after.state.tracked_target == Some(target)
                && after.kills == 0
        }),
    decreases peers.len(),
{
    if peers.len() > 0 {
        no_second_kill(tally, peers.drop_last(), target);
    }
}

proof fn events_keep_a_kill(
    tally: Tally,
    events: Seq<DeathEvent>,
    local: u32,
    peers: Seq<Player>,
    packets: Set<u32>,
)
    requires
        tally.state.tracked_target is None,
    ensures
        after_events(tally, events, local, peers, packets).kills == tally.kills,
        after_events(tally, events, local, peers, packets).state.tracked_target is None,
    decreases events.len(),
{
    if events.len() > 0 {
        events_keep_a_kill(tally, events.drop_last(), local, peers, packets);
    }
}

proof fn a_player_is_remote(players: Seq<Player>, local: u32, i: int)
    requires
        0 <= i < players.len(),
        players[i].selector != local,
    ensures
        exists|k: int|
            0 <= k < remote(players, local).len() && #[trigger] remote(players, local)[k]
                == players[i],
    decreases players.len(),
{
    let rest = players.drop_last();
    let now = remote(players, local);
    if i < rest.len() {
        a_player_is_remote(rest, local, i);
        let k = choose|k: int|
            0 <= k < remote(rest, local).len() && #[trigger] remote(rest, local)[k] == rest[i];
        assert(now[k] == players[i]);
    } else {
        assert(now[now.len() - 1] == players[i]);
    }
}

/// Every fall of the target counts: where the frame's target was remembered alive and its hit
/// points are now at or below zero, the frame counts one kill, whatever counted in earlier
/// rounds.
pub proof fn a_fallen_target_counts(
    state: TrackState,
    local: u32,
    local_hp: i32,
    players: Seq<Player>,
    damaged: Seq<u32>,
    deaths: Seq<DeathEvent>,
    braids: Seq<u32>,
    target: u32,
    i: int,
)
    requires
        target != local,
        0 <= i < players.len(),
        players[i].selector == target,
        players[i].hp <= 0,
        state.peers.contains_key(target),
        state.peers[target].alive,
        (damaged.len() == 0 && state.tracked_target == Some(target)) || (damaged.len() > 0
            && damaged.last() == target),
    ensures
        polled(state, local, local_hp, players, damaged, deaths, braids).kills == 1,
{
    let peers = remote(players, local);
    whoever_was_hit_last_is_the_target(state.tracked_target, damaged, local, players, i);
    let aimed = TrackState { tracked_target: Some(target), ..state };
    let started = after_local(aimed, local_hp);
    a_player_is_remote(players, local, i);
    let k = choose|k: int| 0 <= k < peers.len() && #[trigger] peers[k] == players[i];
    assert(peers[k].selector == target && peers[k].hp <= 0);
    fallen_target_counts(started, peers, target);
    no_second_kill(started, peers, target);
    let by_packet = braid_deaths(braids, players);
    events_keep_a_kill(
        after_peers(started, peers),
        deaths + by_packet,
        local,
        peers,
        victims(by_packet),
    );
}

proof fn hurt_is_rearmed(tally: Tally, peers: Seq<Player>, selector: u32, hp: i32, k: int)
    requires
        0 <= k < peers.len(),
        peers[k].selector == selector,
        peers[k].hp == hp,
        hp > 0,
        forall|i: int|
            0 <= i < peers.len() && (#[trigger] peers[i]).selector == selector ==> peers[i].hp == hp,
        tally.state.peers.contains_key(selector),
        tally.state.peers[selector].alive,
        hp < tally.state.peers[selector].hp,
    ensures
        !after_peers(tally, peers).state.hp_credited.contains(selector),
        after_peers(tally, peers).state.peers.contains_key(selector),
        after_peers(tally, peers).state.peers[selector].alive,
    decreases peers.len(),
{
    let rest = peers.drop_last();
    assert forall|i: int|
        0 <= i < rest.len() && (#[trigger] rest[i]).selector == selector implies rest[i].hp == hp by {
        assert(rest[i] == peers[i]);
    }
    if k < rest.len() {
        assert(rest[k] == peers[k]);
        hurt_is_rearmed(tally, rest, selector, hp, k);
        assert(peers[peers.len() - 1] == peers.last());
    } else if exists|i: int| 0 <= i < rest.len() && (#[trigger] rest[i]).selector == selector {
        let i = choose|i: int| 0 <= i < rest.len() && (#[trigger] rest[i]).selector == selector;
        hurt_is_rearmed(tally, rest, selector, hp, i);
    } else {
        others_leave_alone(tally, rest, selector);
    }
}

proof fn others_leave_alone(tally: Tally, peers: Seq<Player>, selector: u32)
    requires
        forall|i: int| 0 <= i < peers.len() ==> (#[trigger] peers[i]).selector != selector,
    ensures
        ({
            let after = after_peers(tally, peers).state;
            &&& after.peers.contains_key(selector) == tally.state.peers.contains_key(selector)
            &&& after.peers[selector] == tally.state.peers[selector]
            &&& after.hp_credited.contains(selector) == tally.state.hp_credited.contains(selector)
        }),
    decreases peers.len(),
{
    if peers.len() > 0 {
        let rest = peers.drop_last();
        assert forall|i: int| 0 <= i < rest.len() implies (#[trigger] rest[i]).selector != selector by {
            assert(rest[i] == peers[i]);
        }
        assert(peers[peers.len() - 1].selector != selector);
        others_leave_alone(tally, rest, selector);
    }
}

proof fn unnamed_stay_uncredited(
    tally: Tally,
    events: Seq<DeathEvent>,
    local: u32,
    peers: Seq<Player>,
    packets: Set<u32>,
    selector: u32,
)
    requires
        !is_named(events, selector),
    ensures
        after_events(tally, events, local, peers, packets).state.hp_credited.contains(selector)
            == tally.state.hp_credited.contains(selector),
    decreases events.len(),
{
    if events.len() > 0 {
        let rest = events.drop_last();
        if is_named(rest, selector) {
            let i = choose|i: int| 0 <= i < rest.len() && (#[trigger] rest[i]).victim == selector;
            assert(events[i] == rest[i]);
        }
        assert(events[events.len() - 1] == events.last());
        unnamed_stay_uncredited(tally, rest, local, peers, packets, selector);
    }
}

/// A new round begins with the first hit: another player who is remembered alive and has lost hit
/// points, without dying or being named dead, is no longer marked as having counted.
pub proof fn a_hurt_opponent_can_count_again(
    state: TrackState,
    local: u32,
    local_hp: i32,
    players: Seq<Player>,
    damaged: Seq<u32>,
    deaths: Seq<DeathEvent>,
    braids: Seq<u32>,
    i: int,
)
    requires
        0 <= i < players.len(),
        players[i].selector != local,
        players[i].hp > 0,
        forall|j: int|
            0 <= j < players.len() && (#[trigger] players[j]).selector == players[i].selector
                ==> players[j].hp == players[i].hp,
        state.peers.contains_key(players[i].selector),
        state.peers[players[i].selector].alive,
        players[i].hp < state.peers[players[i].selector].hp,
        forall|j: int|
            0 <= j < deaths.len() ==> (#[trigger] deaths[j]).victim != players[i].selector,
        forall|j: int| 0 <= j < braids.len() ==> #[trigger] braids[j] != players[i].selector,
    ensures
        ({
            let after = polled(state, local, local_hp, players, damaged, deaths, braids).state;
            &&& !after.hp_credited.contains(players[i].selector)
            &&& after.peers.contains_key(players[i].selector)
            &&& after.peers[players[i].selector] == (PeerTrack { alive: true, hp: players[i].hp })
        }),
{
    let selector = players[i].selector;
    let hp = players[i].hp;
    let peers = remote(players, local);
    let aimed = TrackState {
        tracked_target: retargeted(state.tracked_target, damaged, local, peers),
        ..state
    };
    let started = after_local(aimed, local_hp);
    a_player_is_remote(players, local, i);
    let k = choose|k: int| 0 <= k < peers.len() && #[trigger] peers[k] == players[i];
    remote_are_players(players, local, selector, hp);
    hurt_is_rearmed(started, peers, selector, hp, k);
    seen_players_are_remembered(started, peers, selector, hp, k);
    let by_packet = braid_deaths(braids, players);
    braids_name_only_owners(braids, players, selector);
    assert(!is_named(deaths + by_packet, selector)) by {
        let all = deaths + by_packet;
        if is_named(all, selector) {
            let j = choose|j: int| 0 <= j < all.len() && (#[trigger] all[j]).victim == selector;
            if j < deaths.len() {
                assert(all[j] == deaths[j]);
            } else {
                assert(all[j] == by_packet[j - deaths.len()]);
            }
        }
    }
    let watched = after_peers(started, peers);
    unnamed_stay_uncredited(
        watched,
        deaths + by_packet,
        local,
        peers,
        victims(by_packet),
        selector,
    );
    events_keep_peers(watched, deaths + by_packet, local, peers, victims(by_packet));
    let f = |p: Player| p.selector;
    assert(peers.map_values(f)[k] == selector);
    assert(selectors(peers).contains(selector));
}

proof fn seen_players_are_remembered(
    tally: Tally,
    peers: Seq<Player>,
    selector: u32,
    hp: i32,
    k: int,
)
    requires
        0 <= k < peers.len(),
        peers[k].selector == selector,
        forall|i: int|
            0 <= i < peers.len() && (#[trigger] peers[i]).selector == selector ==> peers[i].hp == hp,
    ensures
        after_peers(tally, peers).state.peers.contains_key(selector),
        after_peers(tally, peers).state.peers[selector] == (PeerTrack { alive: hp > 0, hp }),
    decreases peers.len(),
{
    let rest = peers.drop_last();
    assert forall|i: int|
        0 <= i < rest.len() && (#[trigger] rest[i]).selector == selector implies rest[i].hp == hp by {
        assert(rest[i] == peers[i]);
    }
    assert(peers[peers.len() - 1] == peers.last());
    if peers.last().selector != selector {
        assert(rest[k] == peers[k]);
        seen_players_are_remembered(tally, rest, selector, hp, k);
    }
}

proof fn braids_name_only_owners(braids: Seq<u32>, players: Seq<Player>, selector: u32)
    requires
        forall|j: int| 0 <= j < braids.len() ==> #[trigger] braids[j] != selector,
    ensures
        !is_named(braid_deaths(braids, players), selector),
    decreases braids.len(),
{
    if braids.len() > 0 {
        let rest = braids.drop_last();
        assert forall|j: int| 0 <= j < rest.len() implies #[trigger] rest[j] != selector by {
            assert(rest[j] == braids[j]);
        }
        braids_name_only_owners(rest, players, selector);
        assert(braids[braids.len() - 1] != selector);
        let before = braid_deaths(rest, players);
        let now = braid_deaths(braids, players);
        if is_named(now, selector) {
            let j = choose|j: int| 0 <= j < now.len() && (#[trigger] now[j]).victim == selector;
            if j < before.len() {
                assert(before[j] == now[j]);
            }
        }
    }
}

/// A named target that has not counted yet counts: where a death event names the frame's target,
/// who is in the session, has hit points left and is not marked as having counted, the frame
/// counts one kill.
pub proof fn a_named_target_counts(
    state: TrackState,
    local: u32,
    local_hp: i32,
    players: Seq<Player>,
    damaged: Seq<u32>,
    deaths: Seq<DeathEvent>,
    braids: Seq<u32>,
    target: u32,
    i: int,
    e: int,
)
    requires
        target != local,
        0 <= i < players.len(),
        players[i].selector == target,
        forall|j: int|
            0 <= j < players.len() && (#[trigger] players[j]).selector == target ==> players[j].hp
                > 0,
        !state.hp_credited.contains(target),
        (damaged.len() == 0 && state.tracked_target == Some(target)) || (damaged.len() > 0
            && damaged.last() == target),
        0 <= e < deaths.len() + braids.len(),
        e < deaths.len() ==> deaths[e].victim == target,
        e >= deaths.len() ==> braids[e - deaths.len()] == target && target != 0,
    ensures
        polled(state, local, local_hp, players, damaged, deaths, braids).kills == 1,
{
    let peers = remote(players, local);
    whoever_was_hit_last_is_the_target(state.tracked_target, damaged, local, players, i);
    let aimed = TrackState { tracked_target: Some(target), ..state };
    let started = after_local(aimed, local_hp);
    a_player_is_remote(players, local, i);
    let k = choose|k: int| 0 <= k < peers.len() && #[trigger] peers[k] == players[i];
    living_players_stay_living(players, local, target);
    living_target_stays(started, peers, target);
    let by_packet = braid_deaths(braids, players);
    let all = deaths + by_packet;
    if e < deaths.len() {
        assert(all[e].victim == target);
    } else {
        braids_of_players_are_named(braids, players, target, i, e - deaths.len());
        let j = choose|j: int|
            0 <= j < by_packet.len() && (#[trigger] by_packet[j]).victim == target;
        assert(all[deaths.len() + j].victim == target);
    }
    assert(is_named(all, target));
    present_players_are_found(peers, target, k);
    named_target_is_credited(after_peers(started, peers), all, local, peers, victims(by_packet), target);
}

proof fn living_players_stay_living(players: Seq<Player>, local: u32, target: u32)
    requires
        forall|j: int|
            0 <= j < players.len() && (#[trigger] players[j]).selector == target ==> players[j].hp
                > 0,
    ensures
        forall|j: int|
            0 <= j < remote(players, local).len() && (#[trigger] remote(
                players,
                local,
            )[j]).selector == target ==> remote(players, local)[j].hp > 0,
    decreases players.len(),
{
    if players.len() > 0 {
        let rest = players.drop_last();
        assert forall|j: int|
            0 <= j < rest.len() && (#[trigger] rest[j]).selector == target implies rest[j].hp > 0 by {
            assert(rest[j] == players[j]);
        }
        assert(players[players.len() - 1] == players.last());
        living_players_stay_living(rest, local, target);
    }
}

proof fn living_target_stays(tally: Tally, peers: Seq<Player>, target: u32)
    requires
        tally.kills == 0,
        tally.credited == Set::<u32>::empty(),
        tally.state.tracked_target == Some(target),
        !tally.state.hp_credited.contains(target),
        forall|j: int|
            0 <= j < peers.len() && (#[trigger] peers[j]).selector == target ==> peers[j].hp > 0,
    ensures
        ({
            let after = after_peers(tally, peers);
            &&& after.kills == 0
            &&& after.credited == Set::<u32>::empty()
            &&& after.state.tracked_target == Some(target)
            &&& !after.state.hp_credited.contains(target)
        }),
    decreases peers.len(),
{
    if peers.len() > 0 {
        let rest = peers.drop_last();
        assert forall|j: int|
            0 <= j < rest.len() && (#[trigger] rest[j]).selector == target implies rest[j].hp > 0 by {
            assert(rest[j] == peers[j]);
        }
        assert(peers[peers.len() - 1] == peers.last());
        living_target_stays(tally, rest, target);
    }
}

proof fn present_players_are_found(players: Seq<Player>, selector: u32, k: int)
    requires
        0 <= k < players.len(),
        players[k].selector == selector,
    ensures
        player_with(players, selector) is Some,
    decreases players.len(),
{
    if players[0].selector != selector {
        assert(players.drop_first()[k - 1] == players[k]);
        present_players_are_found(players.drop_first(), selector, k - 1);
    }
}

proof fn braids_of_players_are_named(
    braids: Seq<u32>,
    players: Seq<Player>,
    target: u32,
    i: int,
    b: int,
)
    requires
        0 <= i < players.len(),
        players[i].selector == target,
        0 <= b < braids.len(),
        braids[b] == target,
        target != 0,
    ensures
        is_named(braid_deaths(braids, players), target),
    decreases braids.len(),
{
    let rest = braids.drop_last();
    let before = braid_deaths(rest, players);
    let now = braid_deaths(braids, players);
    if b < rest.len() {
        assert(rest[b] == braids[b]);
        braids_of_players_are_named(rest, players, target, i, b);
        let j = choose|j: int| 0 <= j < before.len() && (#[trigger] before[j]).victim == target;
        assert(now[j] == before[j]);
    } else {
        present_players_are_found(players, target, i);
        assert(now[before.len() as int].victim == target);
    }
}

proof fn named_target_is_credited(
    tally: Tally,
    events: Seq<DeathEvent>,
    local: u32,
    peers: Seq<Player>,
    packets: Set<u32>,
    target: u32,
)
    requires
        target != local,
        tally.kills == 0,
        tally.credited == Set::<u32>::empty(),
        tally.state.tracked_target == Some(target),
        !tally.state.hp_credited.contains(target),
        player_with(peers, target) is Some,
    ensures
        ({
            let after = after_events(tally, events, local, peers, packets);
            if is_named(events, target) {
                after.kills == 1 && after.state.tracked_target is None
            } else {
                &&& after.kills == 0
                &&& after.credited == Set::<u32>::empty()
                &&& after.state.tracked_target == Some(target)
                &&& !after.state.hp_credited.contains(target)
            }
        }),
    decreases events.len(),
{
    if events.len() > 0 {
        let rest = events.drop_last();
        named_target_is_credited(tally, rest, local, peers, packets, target);
        assert(events[events.len() - 1] == events.last());
        if is_named(rest, target) {
            let j = choose|j: int| 0 <= j < rest.len() && (#[trigger] rest[j]).victim == target;
            assert(events[j] == rest[j]);
        } else if is_named(events, target) {
            let j = choose|j: int| 0 <= j < events.len() && (#[trigger] events[j]).victim == target;
            if j < rest.len() {
                assert(rest[j] == events[j]);
            }
        }
    }
}

/// Every death of the local player counts: who was alive with hit points above zero and has none
/// left dies once in this frame, whatever counted before.
pub proof fn the_own_death_counts(
    state: TrackState,
    local: u32,
    local_hp: i32,
    players: Seq<Player>,
    damaged: Seq<u32>,
    deaths: Seq<DeathEvent>,
    braids: Seq<u32>,
)
    requires
        state.local_alive == Some(true),
        state.local_hp is Some && state.local_hp->0 > 0,
        local_hp <= 0,
    ensures
        polled(state, local, local_hp, players, damaged, deaths, braids).deaths == 1,
        polled(state, local, local_hp, players, damaged, deaths, braids).state.tracked_target
            is None,
{
    let peers = remote(players, local);
    let aimed = TrackState {
        tracked_target: retargeted(state.tracked_target, damaged, local, peers),
        ..state
    };
    let started = after_local(aimed, local_hp);
    let by_packet = braid_deaths(braids, players);
    peers_keep_local(started, peers);
    events_keep_credited_local(
        after_peers(started, peers),
        deaths + by_packet,
        local,
        peers,
        victims(by_packet),
    );
}

/// A frame in which the local player stays alive and no event names it counts no death.
pub proof fn the_living_do_not_die(
    state: TrackState,
    local: u32,
    local_hp: i32,
    players: Seq<Player>,
    damaged: Seq<u32>,
    deaths: Seq<DeathEvent>,
    braids: Seq<u32>,
)
    requires
        local_hp > 0,
        forall|j: int| 0 <= j < deaths.len() ==> (#[trigger] deaths[j]).victim != local,
        forall|j: int| 0 <= j < braids.len() ==> #[trigger] braids[j] != local,
    ensures
        polled(state, local, local_hp, players, damaged, deaths, braids).deaths == 0,
        polled(state, local, local_hp, players, damaged, deaths, braids).state.local_alive == Some(
            true,
        ),
        polled(state, local, local_hp, players, damaged, deaths, braids).state.local_hp == Some(
            local_hp,
        ),
{
    let peers = remote(players, local);
    let aimed = TrackState {
        tracked_target: retargeted(state.tracked_target, damaged, local, peers),
        ..state
    };
    let started = after_local(aimed, local_hp);
    let by_packet = braid_deaths(braids, players);
    let all = deaths + by_packet;
    peers_keep_local(started, peers);
    peers_keep_life(started, peers);
    braids_name_only_owners(braids, players, local);
    if is_named(all, local) {
        let j = choose|j: int| 0 <= j < all.len() && (#[trigger] all[j]).victim == local;
        if j < deaths.len() {
            assert(all[j] == deaths[j]);
        } else {
            assert(all[j] == by_packet[j - deaths.len()]);
        }
    }
    unnamed_local_lives(after_peers(started, peers), all, local, peers, victims(by_packet));
}

proof fn peers_keep_life(tally: Tally, peers: Seq<Player>)
    ensures
        after_peers(tally, peers).state.local_alive == tally.state.local_alive,
        after_peers(tally, peers).state.local_hp == tally.state.local_hp,
    decreases peers.len(),
{
    if peers.len() > 0 {
        peers_keep_life(tally, peers.drop_last());
    }
}

proof fn unnamed_local_lives(
    tally: Tally,
    events: Seq<DeathEvent>,
    local: u32,
    peers: Seq<Player>,
    packets: Set<u32>,
)
    requires
        !is_named(events, local),
    ensures
        ({
            let after = after_events(tally, events, local, peers, packets);
            &&& after.deaths == tally.deaths
            &&& after.state.local_alive == tally.state.local_alive
            &&& after.state.local_hp == tally.state.local_hp
        }),
    decreases events.len(),
{
    if events.len() > 0 {
        let rest = events.drop_last();
        if is_named(rest, local) {
            let j = choose|j: int| 0 <= j < rest.len() && (#[trigger] rest[j]).victim == local;
            assert(events[j] == rest[j]);
        }
        assert(events[events.len() - 1] == events.last());
        unnamed_local_lives(tally, rest, local, peers, packets);
    }
}

/// A bullet leads to the one who fired it while that one is known, and any other hit is the
/// attacker's own.
pub proof fn hits_lead_to_the_attacker(hit: Hit)
    ensures
        hit.selector == 0xFFFF_FFFF ==> attacker_of(hit) == 0xFFFF_FFFF,
        !(0x3000_0000 <= hit.selector < 0x4000_0000) ==> attacker_of(hit) == hit.selector,
        0x3000_0000 <= hit.selector < 0x4000_0000 ==> attacker_of(hit) == (
        if hit.bullet_owner is Some { hit.bullet_owner->0 } else { hit.selector }),
{
}

/// A hit is the local player's exactly where its attacker is the local player; nobody and bullets
/// of unknown origin stay unknown, and all others are someone else's.
pub proof fn hits_are_attributed(attacker: u32, local: u32)
    ensures
        attacker == 0xFFFF_FFFF ==> attribution_of(attacker, local) == Attribution::Unknown,
        attacker != 0xFFFF_FFFF && attacker == local ==> attribution_of(attacker, local)
            == Attribution::Local,
        attacker != local && 0x3000_0000 <= attacker < 0x4000_0000 ==> attribution_of(
            attacker,
            local,
        ) == Attribution::Unknown,
        attacker != local && attacker != 0xFFFF_FFFF && !(0x3000_0000 <= attacker < 0x4000_0000)
            ==> attribution_of(attacker, local) == Attribution::Other,
{
}

/// The target stays the target while nobody counts: in a frame without a kill and without a death
/// a target who is in the session is kept.
pub proof fn the_target_is_kept(
    state: TrackState,
    local: u32,
    local_hp: i32,
    players: Seq<Player>,
    damaged: Seq<u32>,
    deaths: Seq<DeathEvent>,
    braids: Seq<u32>,
    target: u32,
    i: int,
)
    requires
        target != local,
        0 <= i < players.len(),
        players[i].selector == target,
        (damaged.len() == 0 && state.tracked_target == Some(target)) || (damaged.len() > 0
            && damaged.last() == target),
        polled(state, local, local_hp, players, damaged, deaths, braids).kills == 0,
        polled(state, local, local_hp, players, damaged, deaths, braids).deaths == 0,
    ensures
        polled(state, local, local_hp, players, damaged, deaths, braids).state.tracked_target
            == Some(target),
{
    let peers = remote(players, local);
    whoever_was_hit_last_is_the_target(state.tracked_target, damaged, local, players, i);
    let aimed = TrackState { tracked_target: Some(target), ..state };
    let started = after_local(aimed, local_hp);
    target_goes_with_a_kill(started, peers);
    let by_packet = braid_deaths(braids, players);
    target_goes_with_an_event(
        after_peers(started, peers),
        deaths + by_packet,
        local,
        peers,
        victims(by_packet),
    );
    remote_selectors(players, local, target);
    let f = |p: Player| p.selector;
    assert(players.map_values(f)[i] == target);
}

/// The target is dropped only with a kill.
proof fn target_goes_with_a_kill(tally: Tally, peers: Seq<Player>)
    requires
        tally.kills == 0,
        tally.credited == Set::<u32>::empty(),
    ensures
        ({
            let after = after_peers(tally, peers);
            after.kills == 0 ==> after.state.tracked_target == tally.state.tracked_target
                && after.credited == Set::<u32>::empty()
        }),
        after_peers(tally, peers).kills >= 0,
    decreases peers.len(),
{
    if peers.len() > 0 {
        target_goes_with_a_kill(tally, peers.drop_last());
    }
}

proof fn target_goes_with_an_event(
    tally: Tally,
    events: Seq<DeathEvent>,
    local: u32,
    peers: Seq<Player>,
    packets: Set<u32>,
)
    requires
        tally.kills == 0 ==> tally.credited == Set::<u32>::empty(),
        tally.kills >= 0,
    ensures
        ({
            let after = after_events(tally, events, local, peers, packets);
            &&& after.kills >= tally.kills
            &&& after.kills == 0 ==> after.state.tracked_target == tally.state.tracked_target
                && after.credited == Set::<u32>::empty()
        }),
    decreases events.len(),
{
    if events.len() > 0 {
        target_goes_with_an_event(tally, events.drop_last(), local, peers, packets);
    }
}

/// After a frame every other player is remembered as it was seen: with its hit points, and alive
/// exactly where they are above zero.
pub proof fn players_are_remembered_as_seen(
    state: TrackState,
    local: u32,
    local_hp: i32,
    players: Seq<Player>,
    damaged: Seq<u32>,
    deaths: Seq<DeathEvent>,
    braids: Seq<u32>,
    i: int,
)
    requires
        0 <= i < players.len(),
        players[i].selector != local,
        forall|j: int|
            0 <= j < players.len() && (#[trigger] players[j]).selector == players[i].selector
                ==> players[j].hp == players[i].hp,
    ensures
        ({
            let after = polled(state, local, local_hp, players, damaged, deaths, braids).state;
            &&& after.peers.contains_key(players[i].selector)
            &&& after.peers[players[i].selector].hp == players[i].hp
            &&& after.peers[players[i].selector].alive == (players[i].hp > 0)
        }),
{
    let selector = players[i].selector;
    let hp = players[i].hp;
    let peers = remote(players, local);
    let aimed = TrackState {
        tracked_target: retargeted(state.tracked_target, damaged, local, peers),
        ..state
    };
    let started = after_local(aimed, local_hp);
    a_player_is_remote(players, local, i);
    let k = choose|k: int| 0 <= k < peers.len() && #[trigger] peers[k] == players[i];
    remote_are_players(players, local, selector, hp);
    seen_players_are_remembered(started, peers, selector, hp, k);
    let by_packet = braid_deaths(braids, players);
    let watched = after_peers(started, peers);
    events_keep_peers(watched, deaths + by_packet, local, peers, victims(by_packet));
    let f = |p: Player| p.selector;
    assert(peers.map_values(f)[k] == selector);
    assert(selectors(peers).contains(selector));
}

/// What was captured stays captured.
proof fn peers_keep_captures(tally: Tally, peers: Seq<Player>)
    ensures
        tally.captures.len() <= after_peers(tally, peers).captures.len(),
        forall|j: int|
            0 <= j < tally.captures.len() ==> #[trigger] after_peers(tally, peers).captures[j]
                == tally.captures[j],
    decreases peers.len(),
{
    if peers.len() > 0 {
        peers_keep_captures(tally, peers.drop_last());
    }
}

proof fn events_keep_captures(
    tally: Tally,
    events: Seq<DeathEvent>,
    local: u32,
    peers: Seq<Player>,
    packets: Set<u32>,
)
    ensures
        tally.captures.len() <= after_events(tally, events, local, peers, packets).captures.len(),
        forall|j: int|
            0 <= j < tally.captures.len() ==> #[trigger] after_events(
                tally,
                events,
                local,
                peers,
                packets,
            ).captures[j] == tally.captures[j],
    decreases events.len(),
{
    if events.len() > 0 {
        events_keep_captures(tally, events.drop_last(), local, peers, packets);
    }
}

/// Others neither become the target nor stop someone else from being it.
proof fn others_keep_the_aim(tally: Tally, peers: Seq<Player>, selector: u32)
    requires
        forall|i: int| 0 <= i < peers.len() ==> (#[trigger] peers[i]).selector != selector,
    ensures
        after_peers(tally, peers).state.tracked_target == Some(selector)
            <==> tally.state.tracked_target == Some(selector),
    decreases peers.len(),
{
    if peers.len() > 0 {
        let rest = peers.drop_last();
        assert forall|i: int| 0 <= i < rest.len() implies (#[trigger] rest[i]).selector != selector by {
            assert(rest[i] == peers[i]);
        }
        assert(peers[peers.len() - 1].selector != selector);
        others_keep_the_aim(tally, rest, selector);
    }
}

/// The capture of a fall.
spec fn fall_of(player: Player, mine: bool) -> Capture {
    Capture::RemoteDeath {
        mine,
        last_hit: player.last_hit.selector,
        attacker: attacker_of(player.last_hit),
    }
}

proof fn falls_are_captured(tally: Tally, peers: Seq<Player>, k: int)
    requires
        0 <= k < peers.len(),
        forall|i: int|
            0 <= i < peers.len() && i != k ==> (#[trigger] peers[i]).selector != peers[k].selector,
        tally.state.peers.contains_key(peers[k].selector),
        tally.state.peers[peers[k].selector].alive,
        peers[k].hp <= 0,
    ensures
        exists|j: int|
            0 <= j < after_peers(tally, peers).captures.len() && #[trigger] after_peers(
                tally,
                peers,
            ).captures[j] == fall_of(
                peers[k],
                tally.state.tracked_target == Some(peers[k].selector),
            ),
    decreases peers.len(),
{
    let rest = peers.drop_last();
    let before = after_peers(tally, rest);
    let now = after_peers(tally, peers);
    let fall = fall_of(peers[k], tally.state.tracked_target == Some(peers[k].selector));
    if k < rest.len() {
        assert forall|i: int| 0 <= i < rest.len() && i != k implies (#[trigger] rest[i]).selector
            != rest[k].selector by {
            assert(rest[i] == peers[i] && rest[k] == peers[k]);
        }
        falls_are_captured(tally, rest, k);
        let j = choose|j: int|
            0 <= j < before.captures.len() && #[trigger] before.captures[j] == fall;
        assert(now.captures[j] == fall);
    } else {
        assert forall|i: int| 0 <= i < rest.len() implies (#[trigger] rest[i]).selector
            != peers[k].selector by {
            assert(rest[i] == peers[i]);
        }
        others_leave_alone(tally, rest, peers[k].selector);
        others_keep_the_aim(tally, rest, peers[k].selector);
        assert(now.captures[before.captures.len() as int] == fall);
    }
}

proof fn a_player_is_remote_once(players: Seq<Player>, local: u32, i: int) -> (k: int)
    requires
        0 <= i < players.len(),
        players[i].selector != local,
        forall|j: int|
            0 <= j < players.len() && j != i ==> (#[trigger] players[j]).selector
                != players[i].selector,
    ensures
        0 <= k < remote(players, local).len(),
        remote(players, local)[k] == players[i],
        forall|j: int|
            0 <= j < remote(players, local).len() && j != k ==> (#[trigger] remote(
                players,
                local,
            )[j]).selector != players[i].selector,
    decreases players.len(),
{
    let rest = players.drop_last();
    let before = remote(rest, local);
    let now = remote(players, local);
    if i < rest.len() {
        assert forall|j: int| 0 <= j < rest.len() && j != i implies (#[trigger] rest[j]).selector
            != rest[i].selector by {
            assert(rest[j] == players[j] && rest[i] == players[i]);
        }
        let k = a_player_is_remote_once(rest, local, i);
        assert(players[players.len() - 1].selector != players[i].selector);
        assert forall|j: int| 0 <= j < now.len() && j != k implies (#[trigger] now[j]).selector
            != players[i].selector by {
            if j < before.len() {
                assert(now[j] == before[j]);
            }
        }
        k
    } else {
        let sought = players[i].selector;
        remote_lacks(rest, local, sought);
        assert forall|j: int| 0 <= j < now.len() - 1 implies (#[trigger] now[j]).selector
            != sought by {
            assert(now[j] == before[j]);
        }
        now.len() - 1
    }
}

proof fn remote_lacks(players: Seq<Player>, local: u32, selector: u32)
    requires
        forall|j: int| 0 <= j < players.len() ==> (#[trigger] players[j]).selector != selector,
    ensures
        forall|j: int|
            0 <= j < remote(players, local).len() ==> (#[trigger] remote(players, local)[j]).selector
                != selector,
    decreases players.len(),
{
    if players.len() > 0 {
        let rest = players.drop_last();
        assert forall|j: int| 0 <= j < rest.len() implies (#[trigger] rest[j]).selector
            != selector by {
            assert(rest[j] == players[j]);
        }
        assert(players[players.len() - 1].selector != selector);
        remote_lacks(rest, local, selector);
    }
}

/// The fall of every other player who was remembered alive is captured, with the one who hit last,
/// as the local player's own exactly where the player was the frame's target; and so is the local
/// player's own death.
pub proof fn every_fall_is_captured(
    state: TrackState,
    local: u32,
    local_hp: i32,
    players: Seq<Player>,
    damaged: Seq<u32>,
    deaths: Seq<DeathEvent>,
    braids: Seq<u32>,
    i: int,
)
    ensures
        ({
            let captures = polled(
                state,
                local,
                local_hp,
                players,
                damaged,
                deaths,
                braids,
            ).captures;
            let target = retargeted(state.tracked_target, damaged, local, remote(players, local));
            &&& state.local_alive == Some(true) && local_hp <= 0 ==> captures.len() > 0
                && captures[0] is LocalDeath
            &&& 0 <= i < players.len() && players[i].selector != local && players[i].hp <= 0
                && state.peers.contains_key(players[i].selector)
                && state.peers[players[i].selector].alive && (forall|j: int|
                0 <= j < players.len() && j != i ==> (#[trigger] players[j]).selector
                    != players[i].selector) ==> exists|j: int|
                0 <= j < captures.len() && #[trigger] captures[j] == (Capture::RemoteDeath {
                    mine: target == Some(players[i].selector),
                    last_hit: players[i].last_hit.selector,
                    attacker: attacker_of(players[i].last_hit),
                })
        }),
{
    let peers = remote(players, local);
    let aimed = TrackState {
        tracked_target: retargeted(state.tracked_target, damaged, local, peers),
        ..state
    };
    let started = after_local(aimed, local_hp);
    let watched = after_peers(started, peers);
    let by_packet = braid_deaths(braids, players);
    let told = after_events(watched, deaths + by_packet, local, peers, victims(by_packet));
    let captures = polled(state, local, local_hp, players, damaged, deaths, braids).captures;
    assert(captures == told.captures);
    peers_keep_captures(started, peers);
    events_keep_captures(watched, deaths + by_packet, local, peers, victims(by_packet));
    if state.local_alive == Some(true) && local_hp <= 0 {
        assert(started.captures[0] is LocalDeath);
        assert(watched.captures[0] == started.captures[0]);
        assert(told.captures[0] == watched.captures[0]);
    }
    if 0 <= i < players.len() && players[i].selector != local && players[i].hp <= 0
        && state.peers.contains_key(players[i].selector) && state.peers[players[i].selector].alive
        && (forall|j: int|
        0 <= j < players.len() && j != i ==> (#[trigger] players[j]).selector
            != players[i].selector) {
        let k = a_player_is_remote_once(players, local, i);
        falls_are_captured(started, peers, k);
        let fall = fall_of(peers[k], aimed.tracked_target == Some(peers[k].selector));
        let j = choose|j: int|
            0 <= j < watched.captures.len() && #[trigger] watched.captures[j] == fall;
        assert(told.captures[j] == fall);
        assert(captures[j] == fall);
    }
}

/// A death of the local player that an event tells of counts, where it has not counted yet.
pub proof fn the_own_named_death_counts(
    state: TrackState,
    local: u32,
    local_hp: i32,
    players: Seq<Player>,
    damaged: Seq<u32>,
    deaths: Seq<DeathEvent>,
    braids: Seq<u32>,
    e: int,
)
    requires
        0 <= e < deaths.len(),
        deaths[e].victim == local,
        !state.local_death_credited,
        state.local_alive != Some(true) || local_hp > 0,
    ensures
        polled(state, local, local_hp, players, damaged, deaths, braids).deaths == 1,
        polled(state, local, local_hp, players, damaged, deaths, braids).state.tracked_target
            is None,
{
    let peers = remote(players, local);
    let aimed = TrackState {
        tracked_target: retargeted(state.tracked_target, damaged, local, peers),
        ..state
    };
    let started = after_local(aimed, local_hp);
    let by_packet = braid_deaths(braids, players);
    let all = deaths + by_packet;
    peers_keep_local(started, peers);
    assert(all[e].victim == local);
    assert(is_named(all, local));
    named_local_dies(after_peers(started, peers), all, local, peers, victims(by_packet));
}

proof fn named_local_dies(
    tally: Tally,
    events: Seq<DeathEvent>,
    local: u32,
    peers: Seq<Player>,
    packets: Set<u32>,
)
    requires
        tally.deaths == 0,
        !tally.state.local_death_credited,
    ensures
        ({
            let after = after_events(tally, events, local, peers, packets);
            if is_named(events, local) {
                after.deaths == 1 && after.state.local_death_credited
            } else {
                after.deaths == 0 && !after.state.local_death_credited
            }
        }),
    decreases events.len(),
{
    if events.len() > 0 {
        let rest = events.drop_last();
        named_local_dies(tally, rest, local, peers, packets);
        assert(events[events.len() - 1] == events.last());
        if is_named(rest, local) {
            let j = choose|j: int| 0 <= j < rest.len() && (#[trigger] rest[j]).victim == local;
            assert(events[j] == rest[j]);
        } else if is_named(events, local) {
            let j = choose|j: int| 0 <= j < events.len() && (#[trigger] events[j]).victim == local;
            if j < rest.len() {
                assert(rest[j] == events[j]);
            }
        }
    }
}

/// A new round begins for the local player, too, with the first hit: who is alive, has lost hit
/// points and is not named dead can die again.
pub proof fn a_hurt_character_can_die_again(
    state: TrackState,
    local: u32,
    local_hp: i32,
    players: Seq<Player>,
    damaged: Seq<u32>,
    deaths: Seq<DeathEvent>,
    braids: Seq<u32>,
)
    requires
        state.local_alive == Some(true),
        state.local_hp is Some && local_hp < state.local_hp->0,
        local_hp > 0,
        forall|j: int| 0 <= j < deaths.len() ==> (#[trigger] deaths[j]).victim != local,
        forall|j: int| 0 <= j < braids.len() ==> #[trigger] braids[j] != local,
    ensures
        !polled(
            state,
            local,
            local_hp,
            players,
            damaged,
            deaths,
            braids,
        ).state.local_death_credited,
{
    let peers = remote(players, local);
    let aimed = TrackState {
        tracked_target: retargeted(state.tracked_target, damaged, local, peers),
        ..state
    };
    let started = after_local(aimed, local_hp);
    let by_packet = braid_deaths(braids, players);
    let all = deaths + by_packet;
    peers_keep_local(started, peers);
    braids_name_only_owners(braids, players, local);
    if is_named(all, local) {
        let j = choose|j: int| 0 <= j < all.len() && (#[trigger] all[j]).victim == local;
        if j < deaths.len() {
            assert(all[j] == deaths[j]);
        } else {
            assert(all[j] == by_packet[j - deaths.len()]);
        }
    }
    named_local_dies(after_peers(started, peers), all, local, peers, victims(by_packet));
}

/// A player is shown under the name of the character; under that of the account only where the
/// character has none that can be seen.
pub proof fn players_are_shown_by_name(character: Seq<char>, account: Option<Seq<char>>, c: char)
    requires
        !is_white(c),
    ensures
        display_name(seq![c] + character, account) == seq![c] + character,
        display_name(seq![], Some(seq![c] + character)) == seq![c] + character,
        display_name(seq![' '], Some(seq![c] + character)) == seq![c] + character,
        display_name(seq![], None) == "未知玩家"@,
{
    let named = seq![c] + character;
    let (from, to) = only_outer_white_space_is_cut(named);
    if to <= from {
        assert(named[0] == c);
        assert(is_white(named[0]));
    }
    assert(trimmed(Seq::<char>::empty()).len() == 0);
    assert(seq![' '].drop_first() =~= seq![]);
    assert(trimmed(seq![' ']).len() == 0);
}

/// A death that an event tells of is captured, where the local player dealt the last hit, was after
/// the victim, or a packet tells of it too, unless it counted before: with the victim and the one
/// who hit last, and as the local player's own exactly where the victim was the target.
pub proof fn told_deaths_are_captured(
    tally: Tally,
    event: DeathEvent,
    local: u32,
    peers: Seq<Player>,
    packets: Set<u32>,
)
    requires
        event.victim != local,
        player_with(peers, event.victim) is Some,
        !tally.state.hp_credited.contains(event.victim),
        attribution_of(attacker_of(event.last_hit), local) == Attribution::Local
            || tally.state.tracked_target == Some(event.victim) || packets.contains(event.victim),
    ensures
        ({
            let after = step_event(tally, event, local, peers, packets);
            &&& after.captures.len() == tally.captures.len() + 1
            &&& after.captures.last() == (Capture::RemoteDeathNative {
                mine: tally.state.tracked_target == Some(event.victim),
                victim: event.victim,
                last_hit: event.last_hit.selector,
                attacker: attacker_of(event.last_hit),
            })
            &&& after.captures.drop_last() == tally.captures
        }),
{
    let after = step_event(tally, event, local, peers, packets);
    assert(after.captures.drop_last() =~= tally.captures);
}

} // verus!
