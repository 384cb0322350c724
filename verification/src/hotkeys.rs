//! The keys: what a press asks for, once for each press.

use vstd::prelude::*;

use crate::library::{active, active_of, as_opened, binding, bound_to, State};

verus! {

/// The keys that are watched, in the order in which they are looked at.
#[derive(Clone, Copy, Debug, PartialEq, Eq, Structural)]
pub struct Keys {
    pub f5: bool,
    pub f6: bool,
    pub f8: bool,
    pub f9: bool,
    pub f7: bool,
    pub f1: bool,
    pub f2: bool,
    pub f3: bool,
    pub f4: bool,
}

/// What is known of the keys from the last frame.
#[derive(Clone, Copy, Debug, PartialEq, Eq, Structural)]
pub struct HotkeyState {
    /// Which keys were down when they were looked at last.
    pub prev: Keys,
    /// Whether the control key is held for the picker.
    pub ctrl_held: bool,
}

/// The keyboard and the game in this frame.
#[derive(Clone, Copy, Debug, PartialEq, Eq, Structural)]
pub struct Input {
    pub down: Keys,
    pub shift: bool,
    pub control: bool,
    /// Whether the picker is enabled.
    pub picker_enabled: bool,
    /// Whether the character is there.
    pub game_ready: bool,
}

/// What to do with the picker.
#[derive(Clone, Copy, Debug, PartialEq, Eq, Structural)]
pub enum PickerAction {
    Nothing,
    Cancel,
    Begin,
    Tick,
    /// Close it and load the picked build.
    End,
}

/// What a key asks for.
#[derive(Clone, Copy, Debug, PartialEq, Eq, Structural)]
pub enum KeyAction {
    Nothing,
    TogglePanel,
    ToggleScoreboard,
    ClearTarget,
    PurgeOnly,
    SaveNew,
    SaveCurrent,
    /// Load the build of the key with this place, from 0.
    LoadBinding(usize),
}

/// What to do with the picker, and whether the control key is held for it afterwards.
pub open spec fn picker_step(held: bool, input: Input) -> (PickerAction, bool) {
    if !input.picker_enabled {
        if held {
            (PickerAction::Cancel, false)
        } else {
            (PickerAction::Nothing, false)
        }
    } else if input.control && !held {
        if input.game_ready {
            (PickerAction::Begin, true)
        } else {
            (PickerAction::Nothing, true)
        }
    } else if input.control {
        (PickerAction::Tick, true)
    } else if held {
        (PickerAction::End, false)
    } else {
        (PickerAction::Nothing, false)
    }
}

/// Decides what to do with the picker.
pub fn poll_ctrl_picker(state: &mut HotkeyState, input: &Input) -> (action: PickerAction)
    ensures
        (action, final(state).ctrl_held) == picker_step(old(state).ctrl_held, *input),
        final(state).prev == old(state).prev,
{
    let held = state.ctrl_held;
    if !input.picker_enabled {
        state.ctrl_held = false;
        return if held {
            PickerAction::Cancel
        } else {
            PickerAction::Nothing
        };
    }
    state.ctrl_held = input.control;
    if input.control && !held {
        if input.game_ready {
            PickerAction::Begin
        } else {
            PickerAction::Nothing
        }
    } else if input.control {
        PickerAction::Tick
    } else if held {
        PickerAction::End
    } else {
        PickerAction::Nothing
    }
}

/// Which keys were looked at after a frame, and what was asked for: the keys are looked at in
/// turn, up to the first one that was just pressed; only those before F9 while the character is
/// not there.
pub open spec fn key_step(prev: Keys, input: Input) -> (Keys, KeyAction) {
    let down = input.down;
    let seen = Keys { f5: down.f5, ..prev };
    if down.f5 && !prev.f5 {
        (seen, KeyAction::TogglePanel)
    } else {
        let seen = Keys { f6: down.f6, ..seen };
        if down.f6 && !prev.f6 {
            (seen, KeyAction::ToggleScoreboard)
        } else {
            let seen = Keys { f8: down.f8, ..seen };
            if down.f8 && !prev.f8 {
                (seen, KeyAction::ClearTarget)
            } else if !input.game_ready {
                (seen, KeyAction::Nothing)
            } else {
                let seen = Keys { f9: down.f9, ..seen };
                if down.f9 && !prev.f9 {
                    (seen, KeyAction::PurgeOnly)
                } else {
                    let seen = Keys { f7: down.f7, ..seen };
                    if down.f7 && !prev.f7 {
                        (
                            seen,
                            if input.shift {
                                KeyAction::SaveNew
                            } else {
                                KeyAction::SaveCurrent
                            },
                        )
                    } else {
                        load_step(prev, seen, down)
                    }
                }
            }
        }
    }
}

/// The same for the four keys that load a build.
pub open spec fn load_step(prev: Keys, seen: Keys, down: Keys) -> (Keys, KeyAction) {
    let seen = Keys { f1: down.f1, ..seen };
    if down.f1 && !prev.f1 {
        (seen, KeyAction::LoadBinding(0))
    } else {
        let seen = Keys { f2: down.f2, ..seen };
        if down.f2 && !prev.f2 {
            (seen, KeyAction::LoadBinding(1))
        } else {
            let seen = Keys { f3: down.f3, ..seen };
            if down.f3 && !prev.f3 {
                (seen, KeyAction::LoadBinding(2))
            } else {
                let seen = Keys { f4: down.f4, ..seen };
                if down.f4 && !prev.f4 {
                    (seen, KeyAction::LoadBinding(3))
                } else {
                    (seen, KeyAction::Nothing)
                }
            }
        }
    }
}

/// Whether a key was just pressed: it is down, and was not.
pub fn edge(was: bool, now: bool) -> (pressed: bool)
    ensures
        pressed == (now && !was),
{
    now && !was
}

fn poll_loads(prev: &mut Keys, was: Keys, down: Keys) -> (action: KeyAction)
    ensures
        (*final(prev), action) == load_step(was, *old(prev), down),
{
    prev.f1 = down.f1;
    if edge(was.f1, down.f1) {
        return KeyAction::LoadBinding(0);
    }
    prev.f2 = down.f2;
    if edge(was.f2, down.f2) {
        return KeyAction::LoadBinding(1);
    }
    prev.f3 = down.f3;
    if edge(was.f3, down.f3) {
        return KeyAction::LoadBinding(2);
    }
    prev.f4 = down.f4;
    if edge(was.f4, down.f4) {
        return KeyAction::LoadBinding(3);
    }
    KeyAction::Nothing
}

fn poll_keys(prev: &mut Keys, input: &Input) -> (action: KeyAction)
    ensures
        (*final(prev), action) == key_step(*old(prev), *input),
{
    let was = *prev;
    let down = input.down;
    prev.f5 = down.f5;
    if edge(was.f5, down.f5) {
        return KeyAction::TogglePanel;
    }
    prev.f6 = down.f6;
    if edge(was.f6, down.f6) {
        return KeyAction::ToggleScoreboard;
    }
    prev.f8 = down.f8;
    if edge(was.f8, down.f8) {
        return KeyAction::ClearTarget;
    }
    if !input.game_ready {
        return KeyAction::Nothing;
    }
    prev.f9 = down.f9;
    if edge(was.f9, down.f9) {
        return KeyAction::PurgeOnly;
    }
    prev.f7 = down.f7;
    if edge(was.f7, down.f7) {
        return if input.shift {
            KeyAction::SaveNew
        } else {
            KeyAction::SaveCurrent
        };
    }
    poll_loads(prev, was, down)
}

/// One frame: what to do with the picker, and what a key asks for. While the control key is held
/// for the picker, the other keys are not looked at.
pub fn poll(state: &mut HotkeyState, input: &Input) -> (actions: (PickerAction, KeyAction))
    ensures
        (actions.0, final(state).ctrl_held) == picker_step(old(state).ctrl_held, *input),
        final(state).ctrl_held ==> actions.1 == KeyAction::Nothing && final(state).prev == old(state).prev,
        !final(state).ctrl_held ==> (final(state).prev, actions.1) == key_step(
            old(state).prev,
            *input,
        ),
{
    let picker = poll_ctrl_picker(state, input);
    if state.ctrl_held {
        return (picker, KeyAction::Nothing);
    }
    (picker, poll_keys(&mut state.prev, input))
}

/// Whether the key of an action is down.
pub open spec fn is_down(keys: Keys, action: KeyAction) -> bool {
    match action {
        KeyAction::Nothing => false,
        KeyAction::TogglePanel => keys.f5,
        KeyAction::ToggleScoreboard => keys.f6,
        KeyAction::ClearTarget => keys.f8,
        KeyAction::PurgeOnly => keys.f9,
        KeyAction::SaveNew | KeyAction::SaveCurrent => keys.f7,
        KeyAction::LoadBinding(index) => if index == 0 {
            keys.f1
        } else if index == 1 {
            keys.f2
        } else if index == 2 {
            keys.f3
        } else {
            keys.f4
        },
    }
}

/// A key asks for something only when it was just pressed, and a key that stays down asks no
/// more.
pub proof fn a_press_counts_once(prev: Keys, input: Input, next: Input)
    ensures
        ({
            let (seen, action) = key_step(prev, input);
            &&& action != KeyAction::Nothing ==> is_down(input.down, action) && !is_down(
                prev,
                action,
            ) && is_down(seen, action)
            &&& action != KeyAction::Nothing && action != KeyAction::SaveNew && action
                != KeyAction::SaveCurrent ==> key_step(seen, next).1 != action
            &&& action == KeyAction::SaveNew || action == KeyAction::SaveCurrent ==> key_step(
                seen,
                next,
            ).1 != KeyAction::SaveNew && key_step(seen, next).1 != KeyAction::SaveCurrent
        }),
{
}

/// Whether two actions belong to one key.
pub open spec fn same_key(a: KeyAction, b: KeyAction) -> bool {
    a == b || (a == KeyAction::SaveNew && b == KeyAction::SaveCurrent) || (a
        == KeyAction::SaveCurrent && b == KeyAction::SaveNew)
}

/// A press that asks for nothing now, because another key comes first or the character is not
/// there, is not lost while the key stays down: the key does not count as seen.
pub proof fn a_later_key_still_counts(prev: Keys, input: Input, wanted: KeyAction)
    requires
        wanted matches KeyAction::LoadBinding(index) ==> index < 4,
        is_down(input.down, wanted),
        !is_down(prev, wanted),
    ensures
        ({
            let (seen, action) = key_step(prev, input);
            same_key(action, wanted) || !is_down(seen, wanted)
        }),
{
}

/// What saving over the active build comes to.
pub enum SaveCurrent {
    /// There is no active build.
    NoActive,
    /// Save over the build with this id.
    Overwrite(String),
}

/// Decides what saving over the active build comes to.
pub fn save_current(state: Option<&State>) -> (save: SaveCurrent)
    ensures
        match as_opened(state) {
            Some(state) => match active_of(state) {
                Some(id) => save matches SaveCurrent::Overwrite(text) && text@ == id,
                None => save is NoActive,
            },
            None => save is NoActive,
        },
{
    match active(state) {
        Some(id) => SaveCurrent::Overwrite(id),
        None => SaveCurrent::NoActive,
    }
}

/// What loading the build of a key comes to.
pub enum LoadBinding {
    /// No build is bound to the key with this number, from 1.
    Empty(usize),
    /// A job runs.
    Busy,
    /// Load the build with this id.
    Load(String),
}

/// Decides what loading the build of a key comes to, given whether a job runs.
pub fn load_binding(state: Option<&State>, index: usize, busy: bool) -> (load: LoadBinding)
    requires
        index < usize::MAX,
    ensures
        match as_opened(state) {
            Some(state) if bound_to(state, index as int) is Some => if busy {
                load is Busy
            } else {
                load matches LoadBinding::Load(text) && text@ == bound_to(state, index as int)->0
            },
            _ => load matches LoadBinding::Empty(number) && number == index + 1,
        },
{
    match binding(state, index) {
        Some(id) => if busy {
            LoadBinding::Busy
        } else {
            LoadBinding::Load(id)
        },
        None => LoadBinding::Empty(index + 1),
    }
}

/// Pressed with no other key down, every key asks for its own thing: F5 for the panel, F6 for the
/// record, F8 for no target, and, where the character is there, F9 for an empty bag, F7 for
/// saving, over the active build or with Shift as a new one, and F1 to F4 for the builds bound to
/// them, in this order.
pub proof fn every_key_has_its_task(prev: Keys, input: Input)
    requires
        !prev.f1 && !prev.f2 && !prev.f3 && !prev.f4 && !prev.f5,
        !prev.f6 && !prev.f7 && !prev.f8 && !prev.f9,
    ensures
        ({
            let none = Keys {
                f5: false,
                f6: false,
                f8: false,
                f9: false,
                f7: false,
                f1: false,
                f2: false,
                f3: false,
                f4: false,
            };
            let action = key_step(prev, input).1;
            let down = input.down;
            &&& down == none ==> action == KeyAction::Nothing
            &&& down == (Keys { f5: true, ..none }) ==> action == KeyAction::TogglePanel
            &&& down == (Keys { f6: true, ..none }) ==> action == KeyAction::ToggleScoreboard
            &&& down == (Keys { f8: true, ..none }) ==> action == KeyAction::ClearTarget
            &&& input.game_ready ==> {
                &&& down == (Keys { f9: true, ..none }) ==> action == KeyAction::PurgeOnly
                &&& down == (Keys { f7: true, ..none }) && input.shift ==> action
                    == KeyAction::SaveNew
                &&& down == (Keys { f7: true, ..none }) && !input.shift ==> action
                    == KeyAction::SaveCurrent
                &&& down == (Keys { f1: true, ..none }) ==> action == KeyAction::LoadBinding(0)
                &&& down == (Keys { f2: true, ..none }) ==> action == KeyAction::LoadBinding(1)
                &&& down == (Keys { f3: true, ..none }) ==> action == KeyAction::LoadBinding(2)
                &&& down == (Keys { f4: true, ..none }) ==> action == KeyAction::LoadBinding(3)
            }
        }),
{
}

/// A fresh press is heard at once unless another key comes first: F5 before F6 before F8, and,
/// where the character is there, those before F9, F7 and F1 to F4.
pub proof fn a_fresh_press_is_heard(prev: Keys, input: Input)
    ensures
        ({
            let action = key_step(prev, input).1;
            let panel = input.down.f5 && !prev.f5;
            let record = input.down.f6 && !prev.f6;
            let target = input.down.f8 && !prev.f8;
            let purge = input.down.f9 && !prev.f9;
            let save = input.down.f7 && !prev.f7;
            let first = input.down.f1 && !prev.f1;
            let second = input.down.f2 && !prev.f2;
            let third = input.down.f3 && !prev.f3;
            let fourth = input.down.f4 && !prev.f4;
            &&& panel ==> action == KeyAction::TogglePanel
            &&& record ==> panel || action == KeyAction::ToggleScoreboard
            &&& target ==> panel || record || action == KeyAction::ClearTarget
            &&& purge && input.game_ready ==> panel || record || target || action
                == KeyAction::PurgeOnly
            &&& save && input.game_ready ==> panel || record || target || purge || action
                == KeyAction::SaveNew || action == KeyAction::SaveCurrent
            &&& (first || second || third || fourth) && input.game_ready ==> action
                != KeyAction::Nothing
            &&& action is LoadBinding ==> first || second || third || fourth
        }),
{
}

/// While the character is not there, no key saves, loads or empties the bag, and those keys count
/// as they did.
pub proof fn without_the_character_builds_are_left_alone(prev: Keys, input: Input)
    requires
        !input.game_ready,
    ensures
        ({
            let (seen, action) = key_step(prev, input);
            &&& action != KeyAction::PurgeOnly
            &&& action != KeyAction::SaveNew
            &&& action != KeyAction::SaveCurrent
            &&& !(action is LoadBinding)
            &&& seen.f9 == prev.f9 && seen.f7 == prev.f7
            &&& seen.f1 == prev.f1 && seen.f2 == prev.f2
            &&& seen.f3 == prev.f3 && seen.f4 == prev.f4
        }),
{
}

/// The picker opens when the control key goes down, moves while it stays down, and loads when it
/// is let go; switched off, it closes without loading and stays closed.
pub proof fn the_control_key_holds_the_picker(held: bool, input: Input)
    ensures
        picker_step(held, input).1 == (input.picker_enabled && input.control),
        picker_step(held, input).0 == PickerAction::Begin <==> input.picker_enabled && input.control
            && !held && input.game_ready,
        picker_step(held, input).0 == PickerAction::Tick <==> input.picker_enabled && input.control
            && held,
        picker_step(held, input).0 == PickerAction::End <==> input.picker_enabled && !input.control
            && held,
        picker_step(held, input).0 == PickerAction::Cancel <==> !input.picker_enabled && held,
{
}

} // verus!
