//! The library together with the files of its builds.
//!
//! A build that is created or overwritten is written to the file of its id, a build that is
//! loaded is read from there, and a build that is deleted takes its file along.

use vstd::prelude::*;

use crate::i18n::{code_of, Lang};
use crate::library::{
    active_of, bound, created, created_builds_are_told_apart, deleted, deleted_builds_are_gone,
    entry_for, file_of, ids_differ, is_listed, more, overwriting_keeps_the_entry, overwritten,
    position, position_is_first, renamed, with_record, CombatRecord,
    EntryState, LibraryState,
};
use crate::snap::BuildState;
use crate::text::trimmed;

verus! {

/// The library, and the builds in its folder by the names of their files.
#[verifier::ext_equal]
pub struct Shelf {
    pub library: LibraryState,
    pub files: Map<Seq<char>, BuildState>,
}

/// What is done with the library.
pub enum Change {
    Create { id: Seq<char>, name: Seq<char>, build: BuildState },
    Overwrite { id: Seq<char>, build: BuildState },
    Delete { id: Seq<char> },
    /// The build is put on, or selected.
    Activate { id: Seq<char> },
    Rename { id: Seq<char>, name: Seq<char> },
    Count { kills: u32, deaths: u32 },
    ClearRecord { id: Seq<char> },
    Bind { key: int, to: Option<Seq<char>> },
    SetCare { enabled: bool },
    SetCtrlPicker { enabled: bool },
    SetLanguage { lang: Lang },
}

/// Whether a change is possible; one that is not is refused and changes nothing.
pub open spec fn is_possible(shelf: Shelf, change: Change) -> bool {
    let builds = shelf.library.builds;
    match change {
        Change::Create { id, .. } => !is_listed(builds, id) && !shelf.files.contains_key(
            file_of(id),
        ),
        Change::Overwrite { id, .. } => is_listed(builds, id) && shelf.files.contains_key(
            file_of(id),
        ),
        Change::Delete { id } | Change::Activate { id } | Change::ClearRecord { id } => is_listed(
            builds,
            id,
        ),
        Change::Rename { id, name } => trimmed(name).len() > 0 && is_listed(builds, id),
        Change::Count { kills, deaths } => (kills > 0 || deaths > 0) && active_of(
            shelf.library,
        ) is Some,
        Change::Bind { key, to } => key >= 0 && (to is Some ==> is_listed(builds, to->0)),
        Change::SetCare { .. } | Change::SetCtrlPicker { .. } | Change::SetLanguage { .. } => true,
    }
}

/// The library after a change that is possible.
pub open spec fn library_after(state: LibraryState, change: Change) -> LibraryState {
    match change {
        Change::Create { id, name, build } => created(state, entry_for(id, name, build)),
        Change::Overwrite { id, build } => overwritten(state, id, build),
        Change::Delete { id } => deleted(state, id),
        Change::Activate { id } => LibraryState { active: Some(id), ..state },
        Change::Rename { id, name } => renamed(state, id, trimmed(name)),
        Change::Count { kills, deaths } => {
            let at = position(state.builds, state.active->0);
            with_record(state, at, more(state.builds[at].combat, kills, deaths))
        },
        Change::ClearRecord { id } => with_record(
            state,
            position(state.builds, id),
            CombatRecord { kills: 0, deaths: 0 },
        ),
        Change::Bind { key, to } => bound(state, key, to),
        Change::SetCare { enabled } => LibraryState { care_enabled: enabled, ..state },
        Change::SetCtrlPicker { enabled } => LibraryState { ctrl_picker_enabled: enabled, ..state },
        Change::SetLanguage { lang } => LibraryState { language: code_of(lang), ..state },
    }
}

/// Library and files after a change.
pub open spec fn changed(shelf: Shelf, change: Change) -> Shelf {
    if !is_possible(shelf, change) {
        shelf
    } else {
        Shelf {
            library: library_after(shelf.library, change),
            files: match change {
                Change::Create { id, build, .. } | Change::Overwrite { id, build } => {
                    shelf.files.insert(file_of(id), build)
                },
                Change::Delete { id } => shelf.files.remove(file_of(id)),
                _ => shelf.files,
            },
        }
    }
}

/// Library and files after some changes, one after the other.
pub open spec fn changed_all(shelf: Shelf, changes: Seq<Change>) -> Shelf
    decreases changes.len(),
{
    if changes.len() == 0 {
        shelf
    } else {
        changed(changed_all(shelf, changes.drop_last()), changes.last())
    }
}

/// What loading a build gives; nothing where it is not listed, even if there is a file.
pub open spec fn loaded(shelf: Shelf, id: Seq<char>) -> Option<BuildState> {
    if is_listed(shelf.library.builds, id) && shelf.files.contains_key(file_of(id)) {
        Some(shelf.files[file_of(id)])
    } else {
        None
    }
}

/// Whether a change writes this build under this id.
pub open spec fn writes(change: Change, id: Seq<char>, build: BuildState) -> bool {
    match change {
        Change::Create { id: to, build: what, .. } => to == id && what == build,
        Change::Overwrite { id: to, build: what } => to == id && what == build,
        _ => false,
    }
}

/// Whether a change leaves what is written under an id alone.
pub open spec fn spares(change: Change, id: Seq<char>) -> bool {
    match change {
        Change::Create { id: to, .. } => to != id,
        Change::Overwrite { id: to, .. } => to != id,
        Change::Delete { id: gone } => gone != id,
        _ => true,
    }
}

/// The build that a change makes the active one.
pub open spec fn activates(change: Change) -> Option<Seq<char>> {
    match change {
        Change::Create { id, .. } => Some(id),
        Change::Overwrite { id, .. } => Some(id),
        Change::Activate { id } => Some(id),
        _ => None,
    }
}

/// No two builds share a file.
pub proof fn files_differ(a: Seq<char>, b: Seq<char>)
    ensures
        file_of(a) == file_of(b) ==> a == b,
{
    if file_of(a) == file_of(b) {
        assert(file_of(a).len() == a.len() + ".json"@.len());
        assert(file_of(b).len() == b.len() + ".json"@.len());
        assert(a =~= file_of(a).take(a.len() as int));
        assert(b =~= file_of(b).take(b.len() as int));
    }
}

proof fn listed_by_position(builds: Seq<EntryState>, id: Seq<char>)
    requires
        is_listed(builds, id),
    ensures
        0 <= position(builds, id) < builds.len(),
        builds[position(builds, id)].id == id,
{
    position_is_first(builds, id, 0);
    let k = choose|k: int| 0 <= k < builds.len() && (#[trigger] builds[k]).id == id;
    assert(builds[k].id == id);
}

proof fn same_ids_same_list(before: Seq<EntryState>, after: Seq<EntryState>, id: Seq<char>)
    requires
        before.len() == after.len(),
        forall|i: int| 0 <= i < before.len() ==> (#[trigger] after[i]).id == before[i].id,
    ensures
        is_listed(after, id) == is_listed(before, id),
        ids_differ(before) ==> ids_differ(after),
{
    if is_listed(before, id) {
        let k = choose|k: int| 0 <= k < before.len() && (#[trigger] before[k]).id == id;
        assert(after[k].id == id);
    }
    if is_listed(after, id) {
        let k = choose|k: int| 0 <= k < after.len() && (#[trigger] after[k]).id == id;
        assert(before[k].id == id);
    }
    if ids_differ(before) {
        assert forall|i: int, j: int| 0 <= i < j < after.len() implies (#[trigger] after[i]).id != (
        #[trigger] after[j]).id by {
            assert(after[i].id == before[i].id && after[j].id == before[j].id);
        }
    }
}

/// Whatever is done, ids that differ go on differing, and a build stays listed until it is
/// deleted.
pub proof fn builds_stay_listed(shelf: Shelf, change: Change, id: Seq<char>)
    ensures
        ids_differ(shelf.library.builds) ==> ids_differ(changed(shelf, change).library.builds),
        change != (Change::Delete { id }) && is_listed(shelf.library.builds, id) ==> is_listed(
            changed(shelf, change).library.builds,
            id,
        ),
{
    let state = shelf.library;
    let after = changed(shelf, change).library;
    if is_possible(shelf, change) {
        match change {
            Change::Create { id: new, name, build } => {
                if ids_differ(state.builds) {
                    created_builds_are_told_apart(state, entry_for(new, name, build));
                }
                if is_listed(state.builds, id) {
                    let k = choose|k: int|
                        0 <= k < state.builds.len() && (#[trigger] state.builds[k]).id == id;
                    assert(after.builds[k].id == id);
                }
            },
            Change::Overwrite { id: to, build } => {
                overwriting_keeps_the_entry(state, to, build);
                listed_by_position(state.builds, to);
                same_ids_same_list(state.builds, after.builds, id);
            },
            Change::Delete { id: gone } => {
                if ids_differ(state.builds) {
                    deleted_builds_are_gone(state, gone);
                }
                listed_by_position(state.builds, gone);
                let at = position(state.builds, gone);
                if is_listed(state.builds, id) && id != gone {
                    let k = choose|k: int|
                        0 <= k < state.builds.len() && (#[trigger] state.builds[k]).id == id;
                    let moved = if k < at {
                        k
                    } else {
                        k - 1
                    };
                    assert(after.builds[moved].id == id);
                }
            },
            Change::Rename { id: to, name } => {
                listed_by_position(state.builds, to);
                same_ids_same_list(state.builds, after.builds, id);
            },
            Change::Count { .. } => {
                listed_by_position(state.builds, state.active->0);
                same_ids_same_list(state.builds, after.builds, id);
            },
            Change::ClearRecord { id: of } => {
                listed_by_position(state.builds, of);
                same_ids_same_list(state.builds, after.builds, id);
            },
            _ => {
                assert(after.builds == state.builds);
            },
        }
    }
}

/// Loading gives back what was written last under an id, in every field, whatever was done with
/// the library since and as long as the build was not deleted.
pub proof fn loading_gives_back_the_last_write(
    shelf: Shelf,
    written: Change,
    later: Seq<Change>,
    id: Seq<char>,
    build: BuildState,
)
    requires
        is_possible(shelf, written),
        writes(written, id, build),
        forall|i: int| 0 <= i < later.len() ==> spares(#[trigger] later[i], id),
    ensures
        loaded(changed_all(changed(shelf, written), later), id) == Some(build),
    decreases later.len(),
{
    if later.len() == 0 {
        builds_stay_listed(shelf, written, id);
        match written {
            Change::Create { id: new, name, build: what } => {
                let builds = changed(shelf, written).library.builds;
                assert(builds[shelf.library.builds.len() as int].id == id);
            },
            _ => {},
        }
    } else {
        let rest = later.drop_last();
        assert forall|i: int| 0 <= i < rest.len() implies spares(#[trigger] rest[i], id) by {
            assert(rest[i] == later[i]);
        }
        loading_gives_back_the_last_write(shelf, written, rest, id, build);
        let before = changed_all(changed(shelf, written), rest);
        let change = later.last();
        assert(spares(later[later.len() - 1], id));
        builds_stay_listed(before, change, id);
        match change {
            Change::Create { id: other, .. } | Change::Overwrite { id: other, .. }
            | Change::Delete { id: other } => {
                files_differ(other, id);
            },
            _ => {},
        }
    }
}

/// A build that is not listed cannot be loaded, even if there is a file of its name, and a build
/// that was deleted cannot be loaded either.
pub proof fn deleted_builds_are_not_loaded(shelf: Shelf, id: Seq<char>)
    ensures
        !is_listed(shelf.library.builds, id) ==> loaded(shelf, id) is None,
        loaded(changed(shelf, Change::Delete { id }), id) is None,
{
}

/// The active build is the one that was created, loaded or overwritten last: it stays so until
/// another one is, or until it is deleted.
pub proof fn the_last_build_is_active(
    shelf: Shelf,
    change: Change,
    later: Seq<Change>,
    id: Seq<char>,
)
    requires
        is_possible(shelf, change),
        activates(change) == Some(id),
        forall|i: int|
            0 <= i < later.len() ==> (activates(#[trigger] later[i]) is None || activates(later[i])
                == Some(id)) && later[i] != (Change::Delete { id }),
    ensures
        active_of(changed_all(changed(shelf, change), later).library) == Some(id),
    decreases later.len(),
{
    if later.len() == 0 {
        builds_stay_listed(shelf, change, id);
        match change {
            Change::Create { id: new, name, build } => {
                let builds = changed(shelf, change).library.builds;
                assert(builds[shelf.library.builds.len() as int].id == id);
            },
            _ => {},
        }
    } else {
        let rest = later.drop_last();
        assert forall|i: int| 0 <= i < rest.len() implies (activates(#[trigger] rest[i]) is None
            || activates(rest[i]) == Some(id)) && rest[i] != (Change::Delete { id }) by {
            assert(rest[i] == later[i]);
        }
        the_last_build_is_active(shelf, change, rest, id);
        let before = changed_all(changed(shelf, change), rest);
        assert(activates(later[later.len() - 1]) is None || activates(later[later.len() - 1])
            == Some(id));
        builds_stay_listed(before, later.last(), id);
    }
}

} // verus!
