use erdueltools::hotkeys::{
    edge, load_binding, poll, save_current, HotkeyState, Input, KeyAction, Keys, LoadBinding,
    PickerAction, SaveCurrent,
};
use erdueltools::library::{bind, create, open, set_active, State};
use erdueltools::snap::BuildSnapshot;

const UP: Keys = Keys {
    f5: false,
    f6: false,
    f8: false,
    f9: false,
    f7: false,
    f1: false,
    f2: false,
    f3: false,
    f4: false,
};

fn input(down: Keys) -> Input {
    Input { down, shift: false, control: false, picker_enabled: true, game_ready: true }
}

fn library() -> State {
    let build = BuildSnapshot {
        version: 11,
        bag: Vec::new(),
        loadout: Vec::new(),
        magic: Vec::new(),
        arm_style: 1,
        stats: None,
    };
    create(&open(None, None), "a".to_owned(), "A".to_owned(), false, &build).unwrap()
}

#[test]
fn each_key_asks_for_its_action() {
    let cases = [
        (Keys { f5: true, ..UP }, KeyAction::TogglePanel),
        (Keys { f6: true, ..UP }, KeyAction::ToggleScoreboard),
        (Keys { f8: true, ..UP }, KeyAction::ClearTarget),
        (Keys { f9: true, ..UP }, KeyAction::PurgeOnly),
        (Keys { f7: true, ..UP }, KeyAction::SaveCurrent),
        (Keys { f1: true, ..UP }, KeyAction::LoadBinding(0)),
        (Keys { f2: true, ..UP }, KeyAction::LoadBinding(1)),
        (Keys { f3: true, ..UP }, KeyAction::LoadBinding(2)),
        (Keys { f4: true, ..UP }, KeyAction::LoadBinding(3)),
    ];
    for (down, action) in cases {
        let mut state = HotkeyState { prev: UP, ctrl_held: false };
        assert_eq!(poll(&mut state, &input(down)), (PickerAction::Nothing, action));
        assert_eq!(poll(&mut state, &input(down)).1, KeyAction::Nothing);
        assert_eq!(poll(&mut state, &input(UP)).1, KeyAction::Nothing);
        assert_eq!(poll(&mut state, &input(down)).1, action);
    }
    let mut state = HotkeyState { prev: UP, ctrl_held: false };
    let mut shifted = input(Keys { f7: true, ..UP });
    shifted.shift = true;
    assert_eq!(poll(&mut state, &shifted).1, KeyAction::SaveNew);
}

#[test]
fn two_keys_count_one_after_the_other() {
    let mut state = HotkeyState { prev: UP, ctrl_held: false };
    let both = input(Keys { f5: true, f1: true, ..UP });
    assert_eq!(poll(&mut state, &both).1, KeyAction::TogglePanel);
    assert_eq!(poll(&mut state, &both).1, KeyAction::LoadBinding(0));
    assert_eq!(poll(&mut state, &both).1, KeyAction::Nothing);
}

#[test]
fn some_keys_wait_for_the_character() {
    let mut state = HotkeyState { prev: UP, ctrl_held: false };
    let mut early = input(Keys { f9: true, ..UP });
    early.game_ready = false;
    assert_eq!(poll(&mut state, &early).1, KeyAction::Nothing);
    early.game_ready = true;
    assert_eq!(poll(&mut state, &early).1, KeyAction::PurgeOnly);
}

#[test]
fn control_holds_the_picker_open() {
    let mut state = HotkeyState { prev: UP, ctrl_held: false };
    let mut held = input(Keys { f5: true, ..UP });
    held.control = true;
    assert_eq!(poll(&mut state, &held), (PickerAction::Begin, KeyAction::Nothing));
    assert_eq!(poll(&mut state, &held), (PickerAction::Tick, KeyAction::Nothing));
    held.control = false;
    assert_eq!(poll(&mut state, &held), (PickerAction::End, KeyAction::TogglePanel));
    held.control = true;
    poll(&mut state, &held);
    held.picker_enabled = false;
    assert_eq!(poll(&mut state, &held).0, PickerAction::Cancel);
    assert_eq!(poll(&mut state, &held).0, PickerAction::Nothing);
}

#[test]
fn edges_are_presses() {
    assert!(edge(false, true));
    assert!(!edge(true, true));
    assert!(!edge(true, false));
    assert!(!edge(false, false));
}

#[test]
fn saving_needs_an_active_build() {
    let mut state = library();
    assert!(matches!(save_current(Some(&state)), SaveCurrent::Overwrite(id) if id == "a"));
    state.active_build = None;
    assert!(matches!(save_current(Some(&state)), SaveCurrent::NoActive));
    set_active(&mut state, "a").unwrap();
    assert!(matches!(save_current(Some(&state)), SaveCurrent::Overwrite(id) if id == "a"));
}

#[test]
fn a_bound_key_loads_its_build() {
    let state = library();
    assert!(matches!(load_binding(Some(&state), 2, false), LoadBinding::Empty(3)));
    let state = bind(&state, 2, Some("a")).unwrap();
    assert!(matches!(load_binding(Some(&state), 2, false), LoadBinding::Load(id) if id == "a"));
    assert!(matches!(load_binding(Some(&state), 2, true), LoadBinding::Busy));
    assert!(matches!(load_binding(None, 2, true), LoadBinding::Empty(3)));
    assert!(matches!(save_current(None), SaveCurrent::NoActive));
}
