//! Loading a build: from asking for it to putting it on.

use vstd::prelude::*;

use crate::game::managed_count;
use crate::item::{Bag, WeaponTable};
use crate::library::{
    active_of, file_of, is_listed, is_not_found, load, set_active, LibraryError, LibraryState, State,
};
use crate::snap::{is_given, BuildSnapshot};
use crate::sync::{begin, fresh, to_give, Job};

verus! {

/// What asking for a build comes to.
#[derive(Debug)]
pub enum Request {
    /// Another build is being put on.
    Busy,
    /// There is no such build.
    Refused(LibraryError),
    /// Read the build from this file.
    Read(String),
}

/// Asks for a build. It is read only while no other one is being put on.
pub fn request(state: &State, id: &str, busy: bool) -> (request: Request)
    ensures
        match request {
            Request::Busy => busy,
            Request::Refused(error) => !busy && !is_listed(state@.builds, id@) && is_not_found(
                error,
                id@,
            ),
            Request::Read(file) => !busy && is_listed(state@.builds, id@) && file@ == file_of(id@),
        },
{
    if busy {
        return Request::Busy;
    }
    match load(state, id) {
        Ok(file) => Request::Read(file),
        Err(error) => Request::Refused(error),
    }
}

/// Begins to put a build on that was read and whose attributes are written, in the bag as it is
/// after everything was taken off, and makes it the active one in the same step.
///
/// A build that was deleted while it was read is put on all the same, but it is not active.
pub fn put_on(
    state: &mut State,
    id: &str,
    build: BuildSnapshot,
    bag: &Bag,
    table: &WeaponTable,
) -> (begun: (Job, Result<(), LibraryError>))
    requires
        bag.wf(),
        bag.normal@.len() < u32::MAX,
        build.loadout@.len() <= u32::MAX,
        to_give(table@, *bag, build.magic@, build.bag@).len() <= u32::MAX,
        forall|i: int|
            0 <= i < build.bag@.len() && (#[trigger] build.bag@[i]).sort_id == 0 && is_given(
                table@,
                build.bag@[i],
            ) ==> (i + 1) * 1000 <= u32::MAX,
    ensures
        begun.0@ == fresh(
            false,
            managed_count(table@, bag.normal@) as int,
            to_give(table@, *bag, build.magic@, build.bag@),
            build.loadout@,
            build.magic@,
            build.arm_style,
        ),
        begun.0@.wf(),
        match begun.1 {
            Ok(_) => {
                &&& is_listed(old(state)@.builds, id@)
                &&& final(state)@ == (LibraryState { active: Some(id@), ..old(state)@ })
                &&& active_of(final(state)@) == Some(id@)
            },
            Err(error) => {
                &&& !is_listed(old(state)@.builds, id@)
                &&& is_not_found(error, id@)
                &&& final(state)@ == old(state)@
            },
        },
{
    let active = set_active(state, id);
    (begin(build, bag, table), active)
}

} // verus!
