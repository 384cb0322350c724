use erdueltools::combat::{
    attribution, clear_tracked_target, damage_note, find_player, note_is_dead,
    note_local_damage_packet_target, player_display_name, poll, resolve_attacker_handle,
    should_install, Attribution, Capture, CombatTrack, DeathEvent, Frame, Hit, Player,
};
use std::collections::HashSet;

const LOCAL: u32 = 0x1000_0001;
const FOE: u32 = 0x1000_0002;
const FRIEND: u32 = 0x1000_0003;

fn hit(selector: u32) -> Hit {
    Hit { selector, bullet_owner: None }
}

fn player(selector: u32, hp: i32) -> Player {
    Player { selector, steam: 0, hp, last_hit: hit(0xFFFF_FFFF) }
}

fn frame(local_hp: i32, foe_hp: i32) -> Frame {
    Frame {
        local: LOCAL,
        local_hp,
        players: vec![player(LOCAL, local_hp), player(FOE, foe_hp), player(FRIEND, 500)],
        damaged: Vec::new(),
        deaths: Vec::new(),
        braids: Vec::new(),
    }
}

fn hitting(mut frame: Frame, target: u32) -> Frame {
    frame.damaged.push(target);
    frame
}

#[test]
fn a_struck_foe_that_falls_counts() {
    let mut track = CombatTrack::new();
    let first = poll(&mut track, &hitting(frame(1000, 900), FOE));
    assert_eq!(first.target_changed, Some(FOE));
    assert_eq!((first.kills, first.deaths), (0, 0));
    assert_eq!(track.tracked_target, Some(FOE));
    let second = poll(&mut track, &frame(1000, 0));
    assert_eq!((second.kills, second.deaths), (1, 0));
    assert_eq!(track.tracked_target, None);
    assert_eq!(
        second.captures,
        vec![Capture::RemoteDeath { mine: true, last_hit: 0xFFFF_FFFF, attacker: 0xFFFF_FFFF }],
    );
    let third = poll(&mut track, &frame(1000, 0));
    assert_eq!((third.kills, third.deaths), (0, 0));
    assert!(third.captures.is_empty());
}

#[test]
fn a_foe_that_someone_else_fought_does_not_count() {
    let mut track = CombatTrack::new();
    poll(&mut track, &frame(1000, 900));
    let outcome = poll(&mut track, &frame(1000, 0));
    assert_eq!((outcome.kills, outcome.deaths), (0, 0));
    assert_eq!(outcome.captures.len(), 1);
    assert!(matches!(outcome.captures[0], Capture::RemoteDeath { mine: false, .. }));
}

#[test]
fn the_latest_target_is_pursued() {
    let mut track = CombatTrack::new();
    poll(&mut track, &hitting(hitting(frame(1000, 900), FOE), FRIEND));
    assert_eq!(track.tracked_target, Some(FRIEND));
    poll(&mut track, &hitting(frame(1000, 900), LOCAL));
    assert_eq!(track.tracked_target, Some(FRIEND));
    poll(&mut track, &hitting(frame(1000, 900), 0x1000_0099));
    assert_eq!(track.tracked_target, Some(FRIEND));
    let outcome = poll(&mut track, &frame(1000, 0));
    assert_eq!(outcome.kills, 0);
    assert_eq!(track.tracked_target, Some(FRIEND));
}

#[test]
fn the_own_death_counts_once() {
    let mut track = CombatTrack::new();
    poll(&mut track, &hitting(frame(1000, 900), FOE));
    let mut fallen = frame(0, 900);
    fallen.deaths.push(DeathEvent { victim: LOCAL, last_hit: hit(FOE) });
    let outcome = poll(&mut track, &fallen);
    assert_eq!((outcome.kills, outcome.deaths), (0, 1));
    assert_eq!(outcome.captures, vec![Capture::LocalDeath]);
    assert_eq!(track.tracked_target, None);
    let again = poll(&mut track, &fallen);
    assert_eq!((again.kills, again.deaths), (0, 0));
    // Alive again and hurt again: the next death counts.
    poll(&mut track, &frame(1000, 900));
    poll(&mut track, &frame(600, 900));
    let second = poll(&mut track, &frame(0, 900));
    assert_eq!(second.deaths, 1);
}

#[test]
fn a_death_that_a_hook_saw_first_counts_once() {
    let mut track = CombatTrack::new();
    poll(&mut track, &hitting(frame(1000, 900), FOE));
    let mut seen = frame(1000, 0);
    seen.deaths.push(DeathEvent { victim: FOE, last_hit: hit(LOCAL) });
    seen.braids.push(FOE);
    let outcome = poll(&mut track, &seen);
    assert_eq!(outcome.kills, 1);
    assert!(track.hp_credited.contains(&FOE));
    let later = poll(&mut track, &seen);
    assert_eq!(later.kills, 0);
}

#[test]
fn a_packet_tells_of_a_death_before_the_hit_points_do() {
    let mut track = CombatTrack::new();
    poll(&mut track, &hitting(frame(1000, 900), FOE));
    let mut told = frame(1000, 900);
    told.braids.push(0);
    told.braids.push(FOE);
    let outcome = poll(&mut track, &told);
    assert_eq!(outcome.kills, 1);
    assert_eq!(
        outcome.captures,
        vec![Capture::RemoteDeathNative {
            mine: true,
            victim: FOE,
            last_hit: 0xFFFF_FFFF,
            attacker: 0xFFFF_FFFF,
        }],
    );
    let down = poll(&mut track, &frame(1000, 0));
    assert_eq!(down.kills, 0);
}

#[test]
fn a_target_that_left_is_forgotten() {
    let mut track = CombatTrack::new();
    poll(&mut track, &hitting(frame(1000, 900), FOE));
    let mut alone = frame(1000, 900);
    alone.players.truncate(1);
    let outcome = poll(&mut track, &alone);
    assert_eq!(outcome.kills, 0);
    assert_eq!(track.tracked_target, None);
    assert!(track.peers.is_empty());
}

#[test]
fn one_account_counts_once_in_a_frame() {
    let mut track = CombatTrack::new();
    let mut before = hitting(frame(1000, 900), FOE);
    before.players[1].steam = 77;
    poll(&mut track, &before);
    let mut after = frame(1000, 0);
    after.players[1].steam = 77;
    after.deaths.push(DeathEvent { victim: FOE, last_hit: hit(LOCAL) });
    assert_eq!(poll(&mut track, &after).kills, 1);
}

#[test]
fn a_target_can_be_dropped() {
    let mut none: Option<CombatTrack> = None;
    assert!(!clear_tracked_target(&mut none));
    let mut track = Some(CombatTrack::new());
    assert!(!clear_tracked_target(&mut track));
    poll(track.as_mut().unwrap(), &hitting(frame(1000, 900), FOE));
    assert!(clear_tracked_target(&mut track));
    assert_eq!(track.unwrap().tracked_target, None);
}

#[test]
fn bullets_lead_to_their_owner() {
    let bullet = 0x3000_0007u32;
    let owned = Hit { selector: bullet, bullet_owner: Some(FOE) };
    assert_eq!(resolve_attacker_handle(&owned), FOE);
    assert_eq!(resolve_attacker_handle(&hit(bullet)), bullet);
    let other = Hit { selector: FRIEND, bullet_owner: Some(FOE) };
    assert_eq!(resolve_attacker_handle(&other), FRIEND);
    assert_eq!(resolve_attacker_handle(&hit(0xFFFF_FFFF)), 0xFFFF_FFFF);
    assert_eq!(attribution(LOCAL, LOCAL), Attribution::Local);
    assert_eq!(attribution(FOE, LOCAL), Attribution::Other);
    assert_eq!(attribution(0xFFFF_FFFF, LOCAL), Attribution::Unknown);
}

#[test]
fn a_damage_call_tells_of_target_and_death() {
    let wounded = damage_note(FOE, 500, 400, Some(LOCAL), None, LOCAL);
    assert_eq!(wounded.damaged, Some(FOE));
    assert!(wounded.death.is_none());
    let killed = damage_note(FOE, 500, 0, Some(LOCAL), Some(hit(FRIEND)), LOCAL);
    assert_eq!(killed.death, Some(DeathEvent { victim: FOE, last_hit: hit(LOCAL) }));
    let unnamed = damage_note(FOE, 500, -1, None, Some(hit(FRIEND)), LOCAL);
    assert_eq!(unnamed.damaged, None);
    assert_eq!(unnamed.death, Some(DeathEvent { victim: FOE, last_hit: hit(FRIEND) }));
    assert!(damage_note(FOE, 500, 0, None, None, LOCAL).death.is_none());
    assert!(damage_note(FOE, 0, 0, Some(LOCAL), None, LOCAL).death.is_none());
}

#[test]
fn packets_and_queries_are_noted() {
    let mut damaged = Vec::new();
    note_local_damage_packet_target(&mut damaged, 0);
    note_local_damage_packet_target(&mut damaged, FOE);
    assert_eq!(damaged, vec![FOE]);
    let mut dead = HashSet::new();
    assert!(!note_is_dead(&mut dead, FOE, false));
    assert!(note_is_dead(&mut dead, FOE, true));
    assert!(!note_is_dead(&mut dead, FOE, true));
    assert!(!note_is_dead(&mut dead, FOE, false));
    assert!(note_is_dead(&mut dead, FOE, true));
}

#[test]
fn hooks_are_tried_once_a_second() {
    assert!(should_install(false, true, true, 120));
    assert!(!should_install(false, true, true, 121));
    assert!(!should_install(true, true, true, 120));
}

#[test]
fn names_fall_back() {
    assert_eq!(player_display_name("Tarnished", Some("acct")), "Tarnished");
    assert_eq!(player_display_name("  ", Some("acct")), "acct");
    assert_eq!(player_display_name("", Some(" \t")), "未知玩家");
    assert_eq!(player_display_name("", None), "未知玩家");
    let players = vec![player(LOCAL, 1), player(FOE, 2)];
    assert_eq!(find_player(&players, FOE), Some(player(FOE, 2)));
    assert_eq!(find_player(&players, 5), None);
}

#[test]
fn captures_have_labels() {
    assert_eq!(Capture::LocalDeath.label(LOCAL), "local_death");
    assert_eq!(Capture::LocalDeathNative.label(LOCAL), "local_death_native");
    let theirs = Capture::RemoteDeath { mine: false, last_hit: 0xAB, attacker: 0xCD };
    assert_eq!(
        theirs.label(LOCAL),
        "remote_death_other local=0x10000001 last_hit=0xab attacker=0xcd",
    );
    let mine = Capture::RemoteDeathNative { mine: true, victim: FOE, last_hit: 0, attacker: 1 };
    assert_eq!(
        mine.label(LOCAL),
        "remote_death_native_mine local=0x10000001 victim=0x10000002 last_hit=0x0 attacker=0x1",
    );
}
