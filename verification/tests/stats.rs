use erdueltools::library::{open, set_care_enabled};
use erdueltools::stats::{
    after_sync_care, apply, apply_bolus_speffects, capture, clear_status_buildup, curse_cure_ids,
    expire_status_speffects, poll_care, poll_status_clear, poll_vitals, post_sync_care_enabled,
    reset_gauges, restore_vitals, toggle_post_sync_care, vitals_are_full, Bars, CareState,
    CureRow, PlayerStats, StatsSnapshot, StatusEffect, StatusPowers, Vitals,
};

fn stats() -> StatsSnapshot {
    StatsSnapshot {
        level: 150,
        vigor: 60,
        mind: 20,
        endurance: 25,
        strength: 54,
        dexterity: 18,
        intelligence: 9,
        faith: 10,
        arcane: 11,
        archetype: 3,
    }
}

fn player() -> PlayerStats {
    PlayerStats {
        chosen: StatsSnapshot::default(),
        effective_vigor: 1,
        effective_mind: 1,
        effective_endurance: 1,
        effective_strength: 1,
        effective_dexterity: 1,
        effective_intelligence: 1,
        effective_faith: 1,
        effective_arcane: 1,
    }
}

fn bars(hp: i64) -> Bars {
    Bars { hp, max_hp: 1000, fp: 5, max_fp: 100, stamina: 3, max_stamina: 0 }
}

#[test]
fn attributes_are_described() {
    assert_eq!(
        stats().describe(),
        "Lv150  Vig60 Min20 End25 Str54 Dex18 Int9 Fai10 Arc11  出身3",
    );
}

#[test]
fn written_attributes_are_saved_again() {
    let mut player = player();
    apply(&mut player, &stats());
    assert_eq!(capture(&player), stats());
    assert_eq!(player.effective_vigor, 60);
    assert_eq!(player.effective_arcane, 11);
}

#[test]
fn bars_are_filled() {
    let mut vitals = Vitals { saved: Some(bars(1)), live: Some(bars(2)) };
    assert!(!vitals_are_full(&vitals));
    assert!(restore_vitals(&mut vitals));
    assert!(vitals_are_full(&vitals));
    let full = Bars { hp: 1000, max_hp: 1000, fp: 100, max_fp: 100, stamina: 3, max_stamina: 0 };
    assert_eq!(vitals, Vitals { saved: Some(full), live: Some(full) });
    let mut gone = Vitals { saved: None, live: Some(bars(2)) };
    assert!(!restore_vitals(&mut gone));
    assert_eq!(gone.live, Some(bars(2)));
    assert!(!vitals_are_full(&Vitals { saved: None, live: None }));
}

#[test]
fn care_runs_for_its_frames() {
    let mut care = CareState { clear_left: 0, vitals_left: 0 };
    assert!(!after_sync_care(&mut care, false));
    assert_eq!(care, CareState { clear_left: 0, vitals_left: 0 });
    assert!(after_sync_care(&mut care, true));
    let mut vitals = Vitals { saved: Some(bars(1)), live: Some(bars(1)) };
    let mut clears = 0;
    for _ in 0..200 {
        if poll_care(&mut care, &mut vitals, true).clear {
            clears += 1;
        }
    }
    assert_eq!(clears, 90);
    assert!(vitals_are_full(&vitals));
    assert_eq!(care, CareState { clear_left: 0, vitals_left: 0 });
}

#[test]
fn switching_care_off_ends_it() {
    let mut care = CareState { clear_left: 40, vitals_left: 10 };
    let state = open(None, None);
    let (on, stored) = toggle_post_sync_care(&mut care, Some(&state));
    let enabled = stored.unwrap();
    assert!(on && post_sync_care_enabled(Some(&enabled)));
    assert_eq!(care, CareState { clear_left: 40, vitals_left: 10 });
    let (off, stored) = toggle_post_sync_care(&mut care, Some(&enabled));
    assert!(!off && !post_sync_care_enabled(stored.as_ref()));
    assert_eq!(care, CareState { clear_left: 0, vitals_left: 0 });
    let (told, nothing) = toggle_post_sync_care(&mut care, None);
    assert!(told && nothing.is_none());
    assert!(!post_sync_care_enabled(None));
    assert!(!post_sync_care_enabled(Some(&state)));
    assert!(post_sync_care_enabled(Some(&set_care_enabled(&state, true))));
}

#[test]
fn status_is_cleared_frame_by_frame() {
    let mut care = CareState { clear_left: 0, vitals_left: 0 };
    assert!(!poll_status_clear(&mut care));
    clear_status_buildup(&mut care);
    assert!(poll_status_clear(&mut care));
    assert_eq!(care.clear_left, 89);
    let mut vitals = Vitals { saved: Some(bars(1)), live: None };
    poll_vitals(&mut care, &mut vitals);
    assert_eq!(vitals.saved.unwrap().hp, 1);
}

#[test]
fn gauges_are_refilled() {
    assert_eq!(
        reset_gauges(&[100, 0, 5, 20, 7, 8, 20_000]),
        vec![100, 9999, 5, 9999, 7, 8, 20_000],
    );
    assert_eq!(reset_gauges(&[0, 0, 0, 12_000, 0, 0, 0])[3], 12_000);
}

#[test]
fn effects_that_build_up_expire() {
    let still = StatusPowers {
        curse: 0,
        poison: 0,
        disease: 0,
        blood: 0,
        freeze: 0,
        sleep: 0,
        madness: -1,
    };
    let effect = |powers| StatusEffect { param_id: 1, powers };
    let effects = vec![
        effect(None),
        effect(Some(StatusPowers { curse: 1, ..still })),
        effect(Some(still)),
        effect(Some(StatusPowers { madness: 9, ..still })),
    ];
    assert_eq!(expire_status_speffects(&effects), vec![1, 3]);
}

#[test]
fn cures_are_found() {
    let row = CureRow { id: 5, lasting: false, curse: 1, poison: 0, disease: 0, blood: 0 };
    let rows = vec![row, CureRow { id: 6, lasting: true, ..row }, CureRow { id: 7, poison: 1, ..row }];
    assert_eq!(curse_cure_ids(&rows), vec![5]);
    let effects = apply_bolus_speffects(&vec![Some((1, 2)), None, Some((-1, 3))], &vec![5, 0, u32::MAX]);
    assert_eq!(effects, vec![1, 2, 3, 5]);
}
