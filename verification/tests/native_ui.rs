use erdueltools::i18n::Lang;
use erdueltools::library::{create, open, CombatRecord, State, StatsPreview};
use erdueltools::native_ui::{
    apply_menu_cursor, close_panel, dom_letter, draw_builds, draw_confirm, draw_picker,
    draw_scoreboard, fallback_entry, open_panel, overlay_wants_cursor, picker_begin,
    picker_cancel, picker_end, picker_tick, picker_window_start, poll, scoreboard_visible,
    selected_entry, sync_name_if_needed, tile_from_stats, toggle_panel, toggle_scoreboard, yes_no,
    Confirm, Confirmed, DomStat, Overlay, OverlayUi, PanelChange, PickerBegin, RecordWords,
};
use erdueltools::panel::{publish_state, ViewState};
use erdueltools::snap::BuildSnapshot;

fn overlay(hook_ready: bool) -> Overlay {
    Overlay {
        visible: false,
        scoreboard: false,
        hook_ready,
        frame: 0,
        cursor_held: false,
        picker: None,
    }
}

fn library(count: usize) -> State {
    let build = BuildSnapshot {
        version: 11,
        bag: Vec::new(),
        loadout: Vec::new(),
        magic: Vec::new(),
        arm_style: 1,
        stats: None,
    };
    let mut state = open(None, None);
    for n in 0..count {
        state = create(&state, format!("id{}", n), format!("name{}", n), false, &build).unwrap();
    }
    state
}

fn view(count: usize) -> ViewState {
    let mut view = ViewState::new();
    publish_state(&mut view, &library(count), None, None);
    view
}

fn stats(values: [u32; 5]) -> Option<StatsPreview> {
    Some(StatsPreview {
        level: 1,
        vigor: 99,
        mind: 99,
        endurance: 99,
        strength: values[0],
        dexterity: values[1],
        intelligence: values[2],
        faith: values[3],
        arcane: values[4],
    })
}

#[test]
fn the_largest_attribute_stands_out() {
    assert_eq!(tile_from_stats(&stats([5, 4, 3, 2, 1])), DomStat::Str);
    assert_eq!(tile_from_stats(&stats([5, 5, 5, 5, 5])), DomStat::Str);
    assert_eq!(tile_from_stats(&stats([1, 5, 5, 2, 1])), DomStat::Dex);
    assert_eq!(tile_from_stats(&stats([1, 2, 5, 5, 1])), DomStat::Int);
    assert_eq!(tile_from_stats(&stats([1, 2, 3, 5, 5])), DomStat::Fai);
    assert_eq!(tile_from_stats(&stats([1, 2, 3, 4, 5])), DomStat::Arc);
    assert_eq!(tile_from_stats(&None), DomStat::Unknown);
    let names: Vec<String> = ["力气", "Dex", "Int", "Fai", ""].iter().map(|n| n.to_string()).collect();
    assert_eq!(dom_letter(DomStat::Str, &names), "力");
    assert_eq!(dom_letter(DomStat::Arc, &names), "?");
    assert_eq!(dom_letter(DomStat::Unknown, &names), "?");
}

#[test]
fn the_panel_needs_the_hook() {
    let mut missing = overlay(false);
    assert_eq!(open_panel(&mut missing), PanelChange::NotReady);
    assert_eq!(toggle_panel(&mut missing), PanelChange::NotReady);
    assert!(!missing.visible);
    let mut ready = overlay(true);
    assert_eq!(open_panel(&mut ready), PanelChange::Opened);
    assert_eq!(open_panel(&mut ready), PanelChange::Kept);
    assert_eq!(toggle_panel(&mut ready), PanelChange::Closed);
    assert_eq!(toggle_panel(&mut ready), PanelChange::Opened);
    assert!(overlay_wants_cursor(&ready));
    close_panel(&mut ready);
    assert!(!overlay_wants_cursor(&ready));
}

#[test]
fn the_scoreboard_is_switched() {
    let mut overlay = overlay(true);
    assert!(toggle_scoreboard(&mut overlay));
    assert!(scoreboard_visible(&overlay));
    assert!(!toggle_scoreboard(&mut overlay));
}

#[test]
fn the_pointer_is_given_back() {
    for flags in 0..=255u8 {
        let mut overlay = overlay(true);
        assert_eq!(apply_menu_cursor(&mut overlay, false, flags), flags);
        let free = apply_menu_cursor(&mut overlay, true, flags);
        assert_eq!(free, flags | 1);
        assert!(overlay.cursor_held);
        assert_eq!(apply_menu_cursor(&mut overlay, false, free), flags & !1);
        assert!(!overlay.cursor_held);
    }
}

#[test]
fn an_open_panel_is_shown_anew_now_and_then() {
    let mut overlay = overlay(true);
    assert_eq!(poll(&mut overlay), (false, false));
    assert_eq!(overlay.frame, 0);
    overlay.visible = true;
    assert_eq!(poll(&mut overlay), (true, true));
    for _ in 1..20 {
        assert_eq!(poll(&mut overlay), (true, false));
    }
    assert_eq!(poll(&mut overlay), (true, true));
}

#[test]
fn the_picked_build_is_in_the_window() {
    for count in 0..12usize {
        for index in 0..count {
            let window = if count < 4 { count } else { 4 };
            let start = picker_window_start(index, count, window);
            assert!(start <= index && index < start + window);
            assert!(start + window <= count);
        }
    }
    assert_eq!(picker_window_start(5, 10, 4), 3);
    assert_eq!(picker_window_start(usize::MAX, 3, 5), 0);
}

#[test]
fn builds_are_picked_by_moving() {
    let state = library(6);
    let mut overlay = overlay(true);
    let active = Some("id2".to_owned());
    assert_eq!(picker_begin(&mut overlay, &state.index.builds, &active, 500), PickerBegin::Started);
    let picker = overlay.picker.as_mut().unwrap();
    assert_eq!(picker.index, 2);
    picker_tick(picker, 500 + 95);
    assert_eq!((picker.index, picker.accum), (2, 95));
    picker_tick(picker, 500 + 96);
    assert_eq!((picker.index, picker.accum), (3, 0));
    picker_tick(picker, 500);
    assert_eq!((picker.index, picker.accum), (2, 0));
    picker_tick(picker, 500 + 96 * 50);
    assert_eq!((picker.index, picker.accum), (5, 0));
    let tiles = draw_picker(picker);
    assert_eq!(tiles.len(), 4);
    assert_eq!((tiles[3].build, tiles[3].picked), (5, true));
    assert_eq!(picker_end(&mut overlay), Some("id5".to_owned()));
    assert!(overlay.picker.is_none());
    assert_eq!(picker_end(&mut overlay), None);
}

#[test]
fn picking_needs_builds_and_the_hook() {
    let mut missing = overlay(false);
    assert_eq!(picker_begin(&mut missing, &library(1).index.builds, &None, 0), PickerBegin::NotReady);
    let mut ready = overlay(true);
    assert_eq!(picker_begin(&mut ready, &library(0).index.builds, &None, 0), PickerBegin::Empty);
    picker_begin(&mut ready, &library(1).index.builds, &None, 0);
    assert!(overlay_wants_cursor(&ready));
    picker_cancel(&mut ready);
    assert!(ready.picker.is_none());
}

#[test]
fn a_build_is_selected_or_stands_in() {
    let view = view(3);
    assert_eq!(selected_entry(&view, &Some("id1".to_owned())), Some(1));
    assert_eq!(selected_entry(&view, &Some("gone".to_owned())), None);
    assert_eq!(selected_entry(&view, &None), Some(2));
    assert_eq!(fallback_entry(&view, &Some("gone".to_owned())), Some(2));
    let rows = draw_builds(&view, &None);
    assert_eq!(rows[2].label, "name2##id2");
    let marks: Vec<bool> = rows.iter().map(|row| row.selected).collect();
    assert_eq!(marks, vec![false, false, true]);
}

#[test]
fn the_name_follows_the_selection() {
    let view = view(2);
    let mut ui = OverlayUi { selected_id: None, name_buf: "typed".to_owned(), confirm: None };
    sync_name_if_needed(&mut ui, Some(&view.entries[1]));
    assert_eq!(ui.name_buf, "name1");
    ui.name_buf = "typed".to_owned();
    sync_name_if_needed(&mut ui, Some(&view.entries[1]));
    assert_eq!(ui.name_buf, "typed");
    sync_name_if_needed(&mut ui, None);
    assert_eq!(ui.name_buf, "");
}

#[test]
fn questions_are_answered_once() {
    let mut ui = OverlayUi {
        selected_id: None,
        name_buf: String::new(),
        confirm: Some(Confirm::Delete { id: "a".to_owned(), name: "A".to_owned() }),
    };
    assert!(matches!(draw_confirm(&mut ui, true), Confirmed::Delete(id) if id == "a"));
    assert!(matches!(draw_confirm(&mut ui, true), Confirmed::Nothing));
    ui.confirm = Some(Confirm::ClearCombat { id: "b".to_owned(), name: "B".to_owned() });
    assert!(matches!(draw_confirm(&mut ui, false), Confirmed::Nothing));
    assert!(ui.confirm.is_none());
    ui.confirm = Some(Confirm::ClearCombat { id: "b".to_owned(), name: "B".to_owned() });
    assert!(matches!(draw_confirm(&mut ui, true), Confirmed::ClearCombat(id) if id == "b"));
}

#[test]
fn answers_come_in_five_languages() {
    assert_eq!(yes_no(Lang::Zh), ("确定", "取消"));
    assert_eq!(yes_no(Lang::En), ("OK", "Cancel"));
    assert_eq!(yes_no(Lang::Ko), ("확인", "취소"));
    assert_eq!(yes_no(Lang::Ja), ("確定", "キャンセル"));
    assert_eq!(yes_no(Lang::Fr), ("OK", "Annuler"));
}

#[test]
fn the_record_is_one_line() {
    let words = RecordWords { wins: "W", losses: "L", winrate: "R", no_active: "none" };
    let record = CombatRecord { kills: 3, deaths: 1 };
    let lines = draw_scoreboard(&words, Some(("Mage".to_owned(), record, "75%".to_owned())));
    assert_eq!(lines, ("Mage".to_owned(), "W 3  ·  L 1  ·  R 75%".to_owned()));
    assert_eq!(draw_scoreboard(&words, None), ("none".to_owned(), "—".to_owned()));
}
