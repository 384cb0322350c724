use erdueltools::library::{bind, create, open, CombatRecord, State};
use erdueltools::panel::{
    binding_text, build_controls, button_word, cell, centered, combat_texts, command_parts,
    describe_keys, entry_title, font_height, label_word, list_item_height, notice, on_command,
    panel_dpi, place, poll, press, publish_failure, publish_state, queue_load, refresh_ui, scaled,
    selected_entry, stat_texts, sync_details_if_selection_changed, toggle_async, BindingWords,
    Button, Command, Event, Panel, Toggle, ViewState, Word, CLICKED, CLIENT_H, CLIENT_W, ID_CARE,
    ID_DELETE, ID_LIST, ID_TITLE_LABEL, SELECTION_CHANGED,
};
use erdueltools::snap::BuildSnapshot;

fn build() -> BuildSnapshot {
    BuildSnapshot {
        version: 11,
        bag: Vec::new(),
        loadout: Vec::new(),
        magic: Vec::new(),
        arm_style: 1,
        stats: None,
    }
}

fn library() -> State {
    let state = create(&open(None, None), "a".to_owned(), "A".to_owned(), false, &build()).unwrap();
    let state = create(&state, "b".to_owned(), "B".to_owned(), false, &build()).unwrap();
    let state = bind(&state, 0, Some("a")).unwrap();
    bind(&state, 2, Some("a")).unwrap()
}

fn view() -> ViewState {
    let mut view = ViewState::new();
    publish_state(&mut view, &library(), Some(false), None);
    view
}

const WORDS: BindingWords<'static> =
    BindingWords { unbound: "-", missing: "?", syncing: "busy", refresh_failed: "bad " };

#[test]
fn requests_wait_for_the_frame() {
    let mut panel = Panel { pending: Vec::new(), notices: Vec::new(), frame: 1 };
    queue_load(&mut panel, "a".to_owned());
    notice(&mut panel, "hello".to_owned());
    let work = poll(&mut panel, false);
    assert_eq!(work.loads, vec!["a"]);
    assert_eq!(work.notices, vec!["hello"]);
    assert!(work.publish);
    let work = poll(&mut panel, true);
    assert!(work.loads.is_empty() && work.notices.is_empty() && !work.publish);
    panel.frame = 30;
    assert!(poll(&mut panel, true).publish);
    panel.frame = 60;
    assert!(!poll(&mut panel, false).publish);
    for _ in 0..40 {
        queue_load(&mut panel, "b".to_owned());
    }
    assert_eq!(panel.pending.len(), 32);
}

#[test]
fn the_window_opens_and_closes() {
    assert_eq!(toggle_async(true, true), Toggle::Close);
    assert_eq!(toggle_async(false, true), Toggle::Ignore);
    assert_eq!(toggle_async(false, false), Toggle::Open);
}

#[test]
fn the_library_is_shown() {
    let mut view = view();
    assert_eq!(view.revision, 1);
    assert_eq!(view.entries.len(), 2);
    assert_eq!(view.active, Some("b".to_owned()));
    assert_eq!(view.bindings[2], Some("a".to_owned()));
    assert_eq!(entry_title(&view, &view.entries[0], "  "), "A  [F1/F3]");
    assert_eq!(entry_title(&view, &view.entries[1], "  "), "B");
    assert_eq!(describe_keys(&view, &WORDS, "="), "F1=A    F2=-    F3=A    F4=-");
    assert_eq!(binding_text(&view, &WORDS), "F1：A    F2：-    F3：A    F4：-");
    view.bindings[1] = Some("gone".to_owned());
    view.busy = true;
    view.error = Some("disk".to_owned());
    assert_eq!(
        binding_text(&view, &WORDS),
        "F1：A    F2：? gone    F3：A    F4：-    busy    bad disk",
    );
    publish_failure(&mut view, true, Some("disk".to_owned()));
    assert!(view.entries.is_empty() && view.busy);
    assert_eq!(view.error.as_deref(), Some("disk"));
    assert_eq!(view.revision, 2);
    publish_failure(&mut view, false, None);
    assert_eq!(view.error, None);
}

#[test]
fn the_list_is_refreshed_when_something_changed() {
    let view = view();
    let mut shown = 0;
    let refresh = refresh_ui(&view, &mut shown, None, Some("a".to_owned())).unwrap();
    assert_eq!(refresh.rows, vec!["A    [F1/F3]", "B"]);
    assert_eq!(refresh.selected, Some(0));
    assert!(!refresh.update_name);
    assert!(refresh_ui(&view, &mut shown, None, None).is_none());
    shown = 0;
    let refresh = refresh_ui(&view, &mut shown, Some("b".to_owned()), Some("a".to_owned())).unwrap();
    assert_eq!(refresh.selected, Some(1));
    assert!(refresh.update_name);
    assert_eq!(selected_entry(&view.entries, 1), Some(1));
    assert_eq!(selected_entry(&view.entries, -1), None);
    assert_eq!(selected_entry(&view.entries, 2), None);
    let mut previous = None;
    assert!(sync_details_if_selection_changed(&mut previous, &Some("a".to_owned())));
    assert!(!sync_details_if_selection_changed(&mut previous, &Some("a".to_owned())));
}

#[test]
fn cells_say_their_value() {
    assert_eq!(cell("Lv", "  ", Some(9)), "Lv  9");
    assert_eq!(cell("Lv", "  ", None), "Lv  -");
    let labels: Vec<String> = (0..9).map(|n| format!("s{}", n)).collect();
    assert_eq!(stat_texts(&labels, &None, " ")[8], "s8 -");
    let record = CombatRecord { kills: 3, deaths: 1 };
    let cells = combat_texts("W", "L", "R", Some((record, "75%".to_owned())));
    assert_eq!(cells, ("W    3".to_owned(), "L    1".to_owned(), "R    75%".to_owned()));
    assert_eq!(combat_texts("W", "L", "R", None).2, "R    -");
}

#[test]
fn buttons_ask_for_commands() {
    let view = view();
    let entry = Some(&view.entries[0]);
    assert!(matches!(press(Button::Create, None, "", true, false, false), Command::Create));
    assert!(matches!(press(Button::Create, None, "", false, false, false), Command::CaptureFailed));
    assert!(matches!(press(Button::Load, None, "", true, false, false), Command::NoSelection));
    assert!(matches!(press(Button::Load, entry, "", true, false, false), Command::Load(id) if id == "a"));
    assert!(matches!(press(Button::Rename, entry, " ", true, false, false), Command::NameEmpty));
    assert!(matches!(
        press(Button::Rename, entry, " x ", true, false, false),
        Command::Rename(id, name) if id == "a" && name == "x"
    ));
    assert!(matches!(press(Button::Care, None, "", true, true, false), Command::SetCare(false)));
    assert!(matches!(press(Button::CtrlPicker, None, "", true, true, false), Command::SetCtrlPicker(true)));
    assert!(matches!(
        press(Button::Bind(3), entry, "", true, false, false),
        Command::Bind(3, id) if id == "a"
    ));
    assert!(matches!(
        press(Button::Delete, entry, "", true, false, false),
        Command::ConfirmDelete(id, name) if id == "a" && name == "A"
    ));
    assert!(matches!(
        press(Button::Overwrite, entry, "", false, false, false),
        Command::CaptureFailed
    ));
}

#[test]
fn messages_of_the_window_lead_to_commands() {
    assert_eq!(command_parts(0x0001_0065), (101, 1));
    let changed = on_command(ID_LIST, SELECTION_CHANGED, None, "", true, false, false);
    assert!(matches!(changed, Event::Selection));
    let delete = on_command(ID_DELETE, CLICKED, None, "", true, false, false);
    assert!(matches!(delete, Event::Command(Command::NoSelection)));
    assert!(matches!(on_command(ID_DELETE, 7, None, "", true, false, false), Event::Nothing));
    assert!(matches!(on_command(999, CLICKED, None, "", true, false, false), Event::Nothing));
    assert_eq!(label_word(ID_TITLE_LABEL), Some(Word::PanelTitle));
    assert_eq!(label_word(ID_CARE), None);
    assert_eq!(button_word(ID_CARE, true, false), Some(Word::CareOn));
    assert_eq!(button_word(ID_CARE, false, false), Some(Word::CareOff));
    assert_eq!(button_word(ID_LIST, true, true), None);
}

#[test]
fn controls_stay_inside_at_every_scale() {
    let controls = build_controls();
    assert_eq!(controls.len(), 35);
    for dpi in [96u32, 120, 144, 192, 288] {
        let width = scaled(CLIENT_W, dpi);
        let height = scaled(CLIENT_H, dpi);
        for control in &controls {
            let placed = place(control, dpi);
            assert!(placed.x >= 0 && placed.y >= 0);
            assert!(placed.x + placed.width <= width);
            assert!(placed.y + placed.height <= height);
        }
    }
}

#[test]
fn lengths_are_scaled() {
    assert_eq!(scaled(10, 144), 15);
    assert_eq!(scaled(10, 96), 10);
    assert_eq!(centered(1920, 700), 610);
    assert_eq!(centered(600, 700), 0);
    assert_eq!(list_item_height(96), 30);
    assert_eq!(list_item_height(48), 22);
    assert_eq!(font_height(14, 192), -28);
    assert_eq!(panel_dpi(0), 96);
    assert_eq!(panel_dpi(120), 120);
}
