use erdueltools::equip::LoadoutSlot;
use erdueltools::i18n::Lang;
use erdueltools::library::{
    active, active_combat, add_active_combat, bind, binding, care_enabled, care_written, clear_combat, create,
    ctrl_picker_enabled, cycle_language, default_config, delete, forget_active, language, language_written,
    legacy_id, legacy_slot, list, load, migrate_legacy, open, overwrite, refresh_previews, rename,
    set_active, set_care_enabled, set_ctrl_picker_enabled, set_language, snapshot_file,
    snapshot_preview, stats_preview, CombatRecord, Config, Counted, LegacyBuild, LibraryError,
    LibraryIndex, State,
};
use erdueltools::snap::BuildSnapshot;
use erdueltools::stats::StatsSnapshot;

fn slot(place: u8, id: u32) -> LoadoutSlot {
    LoadoutSlot { slot: place, id, gem: -1, weapon_sort_id: None, accessory_ordinal: None }
}

fn build(level: u32) -> BuildSnapshot {
    BuildSnapshot {
        version: 11,
        bag: Vec::new(),
        loadout: vec![
            slot(0, 1_000_000),
            slot(3, 2_000_000),
            slot(12, 0x1000_9C40),
            slot(17, 0xFFFF_FFFF),
        ],
        magic: vec![4000, -1, 0],
        arm_style: 1,
        stats: Some(StatsSnapshot { level, ..StatsSnapshot::default() }),
    }
}

fn two() -> State {
    let state = create(&open(None, None), "a".to_owned(), "A".to_owned(), false, &build(1)).unwrap();
    create(&state, "b".to_owned(), "B".to_owned(), false, &build(2)).unwrap()
}

fn is_missing(error: LibraryError, id: &str) -> bool {
    matches!(error, LibraryError::NotFound(text) if text == id)
}

#[test]
fn previews_say_what_a_build_holds() {
    assert_eq!(
        snapshot_preview(&build(9)),
        "Lv9 生0 集0 耐0 力0 敏0 智0 信0 感0  武:1000000/2000000  甲:40000  符:-  法:2",
    );
    let mut bare = build(9);
    bare.stats = None;
    bare.loadout.clear();
    bare.magic.clear();
    assert_eq!(snapshot_preview(&bare), "无加点  武:-  甲:-  符:-  法:0");
    assert_eq!(stats_preview(&build(9)).unwrap().level, 9);
    assert_eq!(stats_preview(&bare), None);
}

#[test]
fn builds_are_created_once() {
    let state = two();
    let ids: Vec<String> = list(&state).into_iter().map(|entry| entry.id).collect();
    assert_eq!(ids, vec!["a", "b"]);
    assert_eq!(active(Some(&state)), Some("b".to_owned()));
    assert!(create(&state, "a".to_owned(), "x".to_owned(), false, &build(3)).is_none());
    assert!(create(&state, "c".to_owned(), "x".to_owned(), true, &build(3)).is_none());
    assert_eq!(list(&state)[0].combat, CombatRecord::default());
}

#[test]
fn builds_are_loaded_by_id() {
    let state = two();
    assert_eq!(load(&state, "a").unwrap(), "a.json");
    assert_eq!(snapshot_file("a"), "a.json");
    assert!(is_missing(load(&state, "z").unwrap_err(), "z"));
}

#[test]
fn overwriting_keeps_name_and_record() {
    let state = two();
    let state = match add_active_combat(&state, 3, 1) {
        Counted::Record(next, record) => {
            assert_eq!(record, CombatRecord { kills: 3, deaths: 1 });
            next
        }
        _ => panic!("not counted"),
    };
    let state = overwrite(&state, "b", &build(77)).unwrap();
    let entry = &list(&state)[1];
    assert_eq!(entry.name, "B");
    assert_eq!(entry.combat, CombatRecord { kills: 3, deaths: 1 });
    assert_eq!(entry.stats.unwrap().level, 77);
    assert_eq!(active_combat(Some(&state)), Some(("B".to_owned(), CombatRecord { kills: 3, deaths: 1 })));
    assert!(is_missing(overwrite(&state, "z", &build(1)).unwrap_err(), "z"));
}

#[test]
fn combat_is_counted_for_the_active_build() {
    let mut state = two();
    assert!(matches!(add_active_combat(&state, 0, 0), Counted::Nothing));
    state.index.builds[1].combat = CombatRecord { kills: u32::MAX, deaths: 5 };
    match add_active_combat(&state, 1, 1) {
        Counted::Record(_, record) => {
            assert_eq!(record, CombatRecord { kills: u32::MAX, deaths: 6 })
        }
        _ => panic!("not counted"),
    }
    state.active_build = Some("gone".to_owned());
    assert!(matches!(add_active_combat(&state, 1, 0), Counted::Gone));
    forget_active(&mut state);
    assert!(matches!(add_active_combat(&state, 1, 0), Counted::Nothing));
    assert_eq!(active_combat(Some(&state)), None);
    let cleared = clear_combat(&state, "b").unwrap();
    assert_eq!(list(&cleared)[1].combat, CombatRecord { kills: 0, deaths: 0 });
    assert!(is_missing(clear_combat(&state, "z").unwrap_err(), "z"));
}

#[test]
fn a_build_can_be_made_active() {
    let mut state = two();
    set_active(&mut state, "a").unwrap();
    assert_eq!(active(Some(&state)), Some("a".to_owned()));
    assert!(is_missing(set_active(&mut state, "z").unwrap_err(), "z"));
    assert_eq!(active(Some(&state)), Some("a".to_owned()));
}

#[test]
fn a_deleted_build_is_gone_everywhere() {
    let state = bind(&two(), 0, Some("a")).unwrap();
    let state = bind(&state, 1, Some("b")).unwrap();
    let (state, legacy) = delete(&state, "b").unwrap();
    assert_eq!(legacy, None);
    assert_eq!(list(&state).len(), 1);
    assert_eq!(active(Some(&state)), None);
    assert_eq!(binding(Some(&state), 0), Some("a".to_owned()));
    assert_eq!(binding(Some(&state), 1), None);
    assert!(is_missing(delete(&state, "b").unwrap_err(), "b"));
}

#[test]
fn names_are_trimmed() {
    let state = two();
    let renamed = rename(&state, "a", "  新 名  ").unwrap();
    assert_eq!(list(&renamed)[0].name, "新 名");
    assert_eq!(list(&renamed)[1].name, "B");
    assert!(matches!(rename(&state, "a", " \t"), Err(LibraryError::NameEmpty)));
    assert!(is_missing(rename(&state, "z", "n").unwrap_err(), "z"));
}

#[test]
fn keys_are_bound_to_builds() {
    let state = bind(&two(), 6, Some("a")).unwrap();
    assert_eq!(binding(Some(&state), 6), Some("a".to_owned()));
    assert_eq!(binding(Some(&state), 5), None);
    assert_eq!(binding(Some(&state), 100), None);
    let state = bind(&state, 6, None).unwrap();
    assert_eq!(binding(Some(&state), 6), None);
    assert!(is_missing(bind(&state, 0, Some("z")).unwrap_err(), "z"));
}

#[test]
fn settings_are_kept() {
    let state = open(None, None);
    assert!(!care_enabled(Some(&state)));
    assert!(care_enabled(Some(&set_care_enabled(&state, true))));
    assert!(!ctrl_picker_enabled(Some(&state)));
    assert!(ctrl_picker_enabled(Some(&set_ctrl_picker_enabled(&state, true))));
    assert_eq!(language(Some(&state), Lang::Fr), Lang::En);
    assert_eq!(language(Some(&set_language(&state, Lang::Ko)), Lang::Fr), Lang::Ko);
    let (next, lang) = cycle_language(&set_language(&state, Lang::Fr), Lang::En);
    assert_eq!(lang, Lang::Zh);
    assert_eq!(language(Some(&next), Lang::Fr), Lang::Zh);
}

#[test]
fn a_library_that_could_not_be_opened_reads_as_empty() {
    assert!(!care_enabled(None));
    assert!(!ctrl_picker_enabled(None));
    assert_eq!(language(None, Lang::Ja), Lang::Ja);
    assert_eq!(binding(None, 0), None);
    assert_eq!(active(None), None);
    assert_eq!(active_combat(None), None);
}

#[test]
fn a_setting_counts_once_it_is_written() {
    let mut state = open(None, None);
    care_written(&mut state, true, false);
    assert!(!care_enabled(Some(&state)));
    care_written(&mut state, true, true);
    assert!(care_enabled(Some(&state)));
    let mut shown = Lang::En;
    language_written(&mut state, &mut shown, Lang::Ko, false);
    assert_eq!((language(Some(&state), Lang::Fr), shown), (Lang::En, Lang::En));
    language_written(&mut state, &mut shown, Lang::Ko, true);
    assert_eq!((language(Some(&state), Lang::Fr), shown), (Lang::Ko, Lang::Ko));
    assert_eq!(state.config.language, "ko");
}

#[test]
fn an_opened_library_has_four_keys_and_a_language() {
    let config = Config { bindings: Vec::new(), language: "xx".to_owned(), ..default_config() };
    let state = open(Some(LibraryIndex { builds: list(&two()) }), Some(config));
    assert_eq!(state.config.bindings.len(), 4);
    assert_eq!(state.config.language, "en");
    assert_eq!(list(&state).len(), 2);
    assert!(!state.initialized);
    assert_eq!(default_config().bindings.len(), 4);
}

#[test]
fn old_slots_become_builds() {
    let mut state = open(None, None);
    let found = || vec![
        LegacyBuild { slot: 0, name: "BD 1".to_owned(), build: build(1) },
        LegacyBuild { slot: 2, name: "BD 3".to_owned(), build: build(3) },
    ];
    migrate_legacy(&mut state, &found());
    let ids: Vec<String> = list(&state).into_iter().map(|entry| entry.id).collect();
    assert_eq!(ids, vec!["legacy-bd1", "legacy-bd3"]);
    assert_eq!(binding(Some(&state), 0), Some("legacy-bd1".to_owned()));
    assert_eq!(binding(Some(&state), 1), None);
    assert_eq!(binding(Some(&state), 2), Some("legacy-bd3".to_owned()));
    assert!(state.config.legacy_migrated);
    migrate_legacy(&mut state, &found());
    assert_eq!(list(&state).len(), 2);
}

#[test]
fn old_ids_name_their_slot() {
    for number in 0..3usize {
        assert_eq!(legacy_slot(&legacy_id(number)), Some(number + 1));
    }
    assert_eq!(legacy_id(1), "legacy-bd2");
    assert_eq!(legacy_slot("legacy-bd"), None);
    assert_eq!(legacy_slot("build-1"), None);
    assert_eq!(legacy_slot("legacy-bdx"), None);
    let mut state = open(None, None);
    migrate_legacy(&mut state, &vec![LegacyBuild { slot: 1, name: "n".to_owned(), build: build(1) }]);
    assert_eq!(delete(&state, "legacy-bd2").unwrap().1, Some(2));
}

#[test]
fn previews_are_refreshed() {
    let mut state = two();
    assert!(!refresh_previews(&mut state, &vec![Some(build(1)), None]));
    assert!(state.initialized);
    assert!(refresh_previews(&mut state, &vec![None, Some(build(50))]));
    assert_eq!(list(&state)[1].stats.unwrap().level, 50);
}
