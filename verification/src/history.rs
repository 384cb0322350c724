//! What holds of a whole job, from its first step to its last.
//!
//! A history lists what a job asked for, step by step, whatever came of its requests and whatever
//! the bag looked like. A frame begins with the first step and after every step that ends one.

use vstd::prelude::*;

use crate::equip::{
    copies, empty_in, every_slot_has_its_turn, everything_is_taken_off, loadout_slot, unequip_calls,
    wear_order, DressStage, LoadoutSlot,
};
use crate::game::{holds_managed, managed_count};
use crate::item::{Bag, WeaponRow};
use crate::snap::BagItem;
use crate::sync::{
    closing, ends_frame, fresh, items_are_given_once, only_managed_items_are_removed,
    phases_come_in_order, purge_only_never_gives_or_wears, rank, stepped, ActionState, ClosingState,
    EndState, JobState, Phase, SETTLE_FRAMES,
};
use crate::tga::resolved;

verus! {

/// What a step of a job meets: the outcome of the last request, and the game as it is.
pub struct Occasion {
    pub failure: Option<Seq<char>>,
    pub bag: Bag,
    pub table: Option<Map<u32, WeaponRow>>,
    pub level: u8,
}

/// One step of a job: the phase that it was taken in, the game that it met, how many slots were
/// taken up with it, and what it asked for.
pub struct Deed {
    pub phase: Phase,
    pub bag: Bag,
    pub table: Option<Map<u32, WeaponRow>>,
    pub level: u8,
    pub taken: int,
    pub action: ActionState,
}

/// Whether a job with this history is over.
pub open spec fn is_over(deeds: Seq<Deed>) -> bool {
    deeds.len() > 0 && deeds.last().action is End
}

/// The job at its next step: in a new frame where the last one is over.
pub open spec fn renewed(job: JobState, deeds: Seq<Deed>) -> JobState {
    if deeds.len() > 0 && ends_frame(deeds.last().action) {
        JobState { turn: 0, ..job }
    } else {
        job
    }
}

/// The next step of a job.
pub open spec fn done(job: JobState, met: Occasion) -> (JobState, Deed) {
    let (after, action) = stepped(job, met.failure, met.bag, met.table, met.level);
    (
        after,
        Deed {
            phase: job.phase,
            bag: met.bag,
            table: met.table,
            level: met.level,
            taken: after.dressing.next,
            action,
        },
    )
}

/// Where a job stands and what it did, after it was asked on these occasions.
pub open spec fn history(job: JobState, occasions: Seq<Occasion>) -> (JobState, Seq<Deed>)
    decreases occasions.len(),
{
    if occasions.len() == 0 {
        (job, seq![])
    } else {
        let (before, deeds) = history(job, occasions.drop_last());
        if is_over(deeds) {
            (before, deeds)
        } else {
            let (after, deed) = done(renewed(before, deeds), occasions.last());
            (after, deeds.push(deed))
        }
    }
}

/// How many items were handed to the game.
pub open spec fn handed(deeds: Seq<Deed>) -> int
    decreases deeds.len(),
{
    if deeds.len() == 0 {
        0
    } else {
        handed(deeds.drop_last()) + match deeds.last().action {
            ActionState::Give(entries) => entries.len() as int,
            _ => 0,
        }
    }
}

/// How many frames were left to pass between giving and wearing.
pub open spec fn waited(deeds: Seq<Deed>) -> int
    decreases deeds.len(),
{
    if deeds.len() == 0 {
        0
    } else {
        waited(deeds.drop_last()) + if deeds.last().phase == Phase::Settle
            && deeds.last().action is Yield {
            1int
        } else {
            0int
        }
    }
}

/// How many closing steps were taken.
pub open spec fn closings(deeds: Seq<Deed>) -> int
    decreases deeds.len(),
{
    if deeds.len() == 0 {
        0
    } else {
        closings(deeds.drop_last()) + if deeds.last().action is Close {
            1int
        } else {
            0int
        }
    }
}

/// Whether a step asks only for what belongs to its phase.
pub open spec fn belongs(deed: Deed) -> bool {
    match deed.action {
        ActionState::Remove { .. } | ActionState::StartGiving => deed.phase == Phase::Purge,
        ActionState::Give(_) | ActionState::Stamp(_) => deed.phase == Phase::Give,
        ActionState::GivePlaceholder(_) | ActionState::Equip(_) | ActionState::Skip(_) => deed.phase
            == Phase::Equip,
        ActionState::Close(_) => deed.phase == Phase::Finish,
        ActionState::End(EndState::Stalled { .. })
        | ActionState::End(EndState::DeleteFailed { .. })
        | ActionState::End(EndState::PurgeDone { .. }) => deed.phase == Phase::Purge,
        ActionState::End(EndState::GiveFailed { .. }) => deed.phase == Phase::Give,
        ActionState::End(EndState::Synced { .. }) => deed.phase == Phase::Finish,
        ActionState::Proceed | ActionState::Yield => true,
    }
}

/// Whether a step begins the giving, in a bag that holds nothing that builds hold.
pub open spec fn begins_giving(deed: Deed) -> bool {
    deed.phase == Phase::Purge && deed.action is StartGiving && managed_count(
        deed.table,
        deed.bag.normal@,
    ) == 0
}

/// Whether some step begins the giving.
pub open spec fn has_begun_giving(deeds: Seq<Deed>) -> bool {
    exists|k: int| 0 <= k < deeds.len() && begins_giving(#[trigger] deeds[k])
}

/// Whether step `i` gives exactly the items whose turn it is.
pub open spec fn gives_in_turn(queue: Seq<BagItem>, deeds: Seq<Deed>, i: int) -> bool {
    deeds[i].action matches ActionState::Give(entries) ==> {
        let from = handed(deeds.take(i));
        &&& from + entries.len() <= queue.len()
        &&& forall|k: int|
            0 <= k < entries.len() ==> resolved(
                deeds[i].table,
                deeds[i].level,
                #[trigger] queue[from + k],
            ) == Some(entries[k])
    }
}

/// Whether an equip call of step `i` is for the slot whose turn it is.
pub open spec fn wears_in_turn(loadout: Seq<LoadoutSlot>, deeds: Seq<Deed>, i: int) -> bool {
    deeds[i].action matches ActionState::Equip(call) ==> {
        &&& 0 < deeds[i].taken <= wear_order(loadout).len()
        &&& call.slot == wear_order(loadout)[deeds[i].taken - 1].slot
    }
}

/// Whether step `i` takes the closing step whose turn it is.
pub open spec fn closes_in_turn(job: JobState, deeds: Seq<Deed>, i: int) -> bool {
    match deeds[i].action {
        ActionState::Close(step) => {
            let at = closings(deeds.take(i));
            0 <= at < closing(job).len() && step == closing(job)[at]
        },
        ActionState::End(EndState::Synced { .. }) => closings(deeds.take(i)) == closing(job).len(),
        _ => true,
    }
}

/// Whether step `i` comes after all that has to come before its phase: a clear bag before
/// giving, every item before waiting, all the frames before wearing, every slot before the
/// closing steps.
pub open spec fn comes_after(job: JobState, deeds: Seq<Deed>, i: int) -> bool {
    let phase = deeds[i].phase;
    &&& rank(phase) >= rank(Phase::Give) ==> has_begun_giving(deeds.take(i))
    &&& rank(phase) >= rank(Phase::Settle) ==> handed(deeds.take(i)) == job.queue.len()
    &&& rank(phase) >= rank(Phase::Equip) ==> waited(deeds.take(i)) == SETTLE_FRAMES
    &&& rank(phase) >= rank(Phase::Finish) ==> deeds[i].taken == job.loadout.len()
}

/// Whether the phases of a history follow each other.
pub open spec fn phases_follow(deeds: Seq<Deed>) -> bool {
    forall|i: int, j: int|
        0 <= i <= j < deeds.len() ==> rank((#[trigger] deeds[i]).phase) <= rank(
            (#[trigger] deeds[j]).phase,
        )
}

/// Whether the slots are taken up one after the other.
pub open spec fn slots_follow(deeds: Seq<Deed>) -> bool {
    forall|i: int, j: int|
        0 <= i && j == i + 1 && j < deeds.len() && (#[trigger] deeds[j]).phase == Phase::Equip && (
        #[trigger] deeds[i]).phase == Phase::Equip ==> deeds[i].taken <= deeds[j].taken
            <= deeds[i].taken + 1
}

/// What a history has to do with where the job stands.
spec fn agrees(start: JobState, now: JobState, deeds: Seq<Deed>) -> bool {
    &&& now.wf()
    &&& now.magic == start.magic && now.arm_style == start.arm_style && now.loadout
        == start.loadout && now.queue == start.queue && now.purge_only == start.purge_only
    &&& forall|i: int| 0 <= i < deeds.len() ==> rank((#[trigger] deeds[i]).phase) <= rank(now.phase)
    &&& now.phase != Phase::Purge ==> has_begun_giving(deeds)
    &&& now.next == handed(deeds)
    &&& waited(deeds) == if rank(now.phase) < rank(Phase::Settle) {
        0
    } else if now.phase == Phase::Settle {
        SETTLE_FRAMES - now.settle
    } else {
        SETTLE_FRAMES as int
    }
    &&& rank(now.phase) >= rank(Phase::Equip) ==> {
        &&& now.dressing.slots == wear_order(start.loadout)
        &&& now.dressing.stage matches DressStage::Emptying(place) ==> now.dressing.next > 0
            && place == now.dressing.slots[now.dressing.next - 1].slot
        &&& deeds.len() > 0 && deeds.last().phase == Phase::Equip ==> deeds.last().taken
            == now.dressing.next
    }
    &&& now.phase == Phase::Finish ==> now.dressing.next == start.loadout.len()
    &&& now.closed == closings(deeds)
}

/// What holds of the one step that shows the others the build: it is the last closing step.
spec fn shown_last(start: JobState, now: JobState, deeds: Seq<Deed>) -> bool {
    let last = deeds.len() - if is_over(deeds) {
        2int
    } else {
        1int
    };
    &&& now.closed > 0 ==> last >= 0 && deeds[last].action == ActionState::Close(
        closing(start)[now.closed - 1],
    )
    &&& forall|i: int|
        0 <= i < deeds.len() && (#[trigger] deeds[i]).action == ActionState::Close(
            ClosingState::ShowOthers,
        ) ==> i == last && now.closed == closing(start).len()
    &&& is_over(deeds) && deeds.last().action->End_0 is Synced ==> now.closed == closing(start).len()
}

/// Whether a history keeps the order of a whole job.
pub open spec fn is_orderly(job: JobState, deeds: Seq<Deed>) -> bool {
    &&& phases_follow(deeds)
    &&& slots_follow(deeds)
    &&& forall|i: int|
        #![trigger deeds[i]]
        0 <= i < deeds.len() ==> {
            &&& belongs(deeds[i])
            &&& comes_after(job, deeds, i)
            &&& gives_in_turn(job.queue, deeds, i)
            &&& wears_in_turn(job.loadout, deeds, i)
            &&& closes_in_turn(job, deeds, i)
        }
}

/// Showing the others the build is the last of the closing steps, and only that.
pub proof fn showing_comes_last(job: JobState)
    ensures
        closing(job).last() == ClosingState::ShowOthers,
        forall|i: int|
            0 <= i < closing(job).len() - 1 ==> #[trigger] closing(job)[i]
                != ClosingState::ShowOthers,
        job.magic.len() > 0 ==> closing(job)[1] == ClosingState::WriteWheel(job.magic),
{
}

proof fn still_begun(deeds: Seq<Deed>, deed: Deed)
    ensures
        has_begun_giving(deeds) || begins_giving(deed) ==> has_begun_giving(deeds.push(deed)),
{
    let more = deeds.push(deed);
    if has_begun_giving(deeds) {
        let k = choose|k: int| 0 <= k < deeds.len() && begins_giving(#[trigger] deeds[k]);
        assert(begins_giving(more[k]));
    }
    if begins_giving(deed) {
        assert(begins_giving(more[deeds.len() as int]));
    }
}

#[verifier::spinoff_prover]
proof fn still_agrees(start: JobState, now: JobState, deeds: Seq<Deed>, met: Occasion)
    requires
        agrees(start, now, deeds),
        met.bag.wf(),
    ensures
        agrees(start, done(now, met).0, deeds.push(done(now, met).1)),
{
    let (after, deed) = done(now, met);
    let more = deeds.push(deed);
    phases_come_in_order(now, met.failure, met.bag, met.table, met.level);
    every_slot_has_its_turn(start.loadout);
    assert(more.drop_last() =~= deeds);
    assert(more.last() == deed);
    still_begun(deeds, deed);
    if now.phase == Phase::Give {
        items_are_given_once(now, met.failure, met.bag, met.table, met.level);
    }
    assert forall|i: int| 0 <= i < more.len() implies rank((#[trigger] more[i]).phase) <= rank(
        after.phase,
    ) by {
        if i < deeds.len() {
            assert(more[i] == deeds[i]);
        }
    }
}

proof fn still_shown_last(start: JobState, now: JobState, deeds: Seq<Deed>, met: Occasion)
    requires
        agrees(start, now, deeds),
        shown_last(start, now, deeds),
        !is_over(deeds),
        met.bag.wf(),
    ensures
        shown_last(start, done(now, met).0, deeds.push(done(now, met).1)),
{
    let (after, deed) = done(now, met);
    let more = deeds.push(deed);
    showing_comes_last(start);
    assert(closing(now) == closing(start));
    assert(more.last() == deed);
    assert forall|i: int| 0 <= i < deeds.len() implies #[trigger] more[i] == deeds[i] by {}
}

#[verifier::spinoff_prover]
proof fn step_is_orderly(start: JobState, now: JobState, deeds: Seq<Deed>, met: Occasion)
    requires
        agrees(start, now, deeds),
        met.bag.wf(),
    ensures
        ({
            let more = deeds.push(done(now, met).1);
            let n = deeds.len() as int;
            &&& belongs(more[n])
            &&& comes_after(start, more, n)
            &&& gives_in_turn(start.queue, more, n)
            &&& wears_in_turn(start.loadout, more, n)
            &&& closes_in_turn(start, more, n)
        }),
{
    let (after, deed) = done(now, met);
    let more = deeds.push(deed);
    let n = deeds.len() as int;
    phases_come_in_order(now, met.failure, met.bag, met.table, met.level);
    every_slot_has_its_turn(start.loadout);
    assert(more.take(n) =~= deeds);
    assert(closing(now) == closing(start));
    if now.phase == Phase::Give {
        items_are_given_once(now, met.failure, met.bag, met.table, met.level);
    }
}

proof fn order_grows(start: JobState, deeds: Seq<Deed>, deed: Deed)
    requires
        is_orderly(start, deeds),
        forall|i: int|
            0 <= i < deeds.len() ==> rank((#[trigger] deeds[i]).phase) <= rank(deed.phase),
        deeds.len() > 0 && deeds.last().phase == Phase::Equip && deed.phase == Phase::Equip
            ==> deeds.last().taken <= deed.taken <= deeds.last().taken + 1,
        ({
            let more = deeds.push(deed);
            let n = deeds.len() as int;
            &&& belongs(more[n])
            &&& comes_after(start, more, n)
            &&& gives_in_turn(start.queue, more, n)
            &&& wears_in_turn(start.loadout, more, n)
            &&& closes_in_turn(start, more, n)
        }),
    ensures
        is_orderly(start, deeds.push(deed)),
{
    let more = deeds.push(deed);
    let n = deeds.len() as int;
    assert forall|i: int| #![trigger more[i]] 0 <= i < more.len() implies belongs(more[i])
        && comes_after(start, more, i) && gives_in_turn(start.queue, more, i) && wears_in_turn(
        start.loadout,
        more,
        i,
    ) && closes_in_turn(start, more, i) by {
        if i < n {
            assert(more[i] == deeds[i]);
            assert(more.take(i) =~= deeds.take(i));
            assert(comes_after(start, deeds, i));
            assert(gives_in_turn(start.queue, deeds, i));
            assert(closes_in_turn(start, deeds, i));
        }
    }
    assert forall|i: int, j: int| 0 <= i <= j < more.len() implies rank((#[trigger] more[i]).phase)
        <= rank((#[trigger] more[j]).phase) by {
        if j < n {
            assert(more[i] == deeds[i] && more[j] == deeds[j]);
        } else if i < n {
            assert(more[i] == deeds[i]);
        }
    }
    assert forall|i: int, j: int|
        0 <= i && j == i + 1 && j < more.len() && (#[trigger] more[j]).phase == Phase::Equip && (
        #[trigger] more[i]).phase == Phase::Equip implies more[i].taken <= more[j].taken
        <= more[i].taken + 1 by {
        if j < n {
            assert(more[i] == deeds[i] && more[j] == deeds[j]);
        } else {
            assert(more[i] == deeds.last());
        }
    }
}

proof fn histories_keep_order(start: JobState, occasions: Seq<Occasion>)
    requires
        start.wf(),
        start.phase == Phase::Purge,
        forall|i: int| 0 <= i < occasions.len() ==> (#[trigger] occasions[i]).bag.wf(),
    ensures
        ({
            let (now, deeds) = history(start, occasions);
            &&& agrees(start, now, deeds)
            &&& shown_last(start, now, deeds)
            &&& is_orderly(start, deeds)
        }),
    decreases occasions.len(),
{
    if occasions.len() > 0 {
        let rest = occasions.drop_last();
        let met = occasions.last();
        assert(occasions[occasions.len() - 1] == met);
        assert forall|i: int| 0 <= i < rest.len() implies (#[trigger] rest[i]).bag.wf() by {
            assert(rest[i] == occasions[i]);
        }
        histories_keep_order(start, rest);
        let (before, deeds) = history(start, rest);
        if !is_over(deeds) {
            let now = renewed(before, deeds);
            assert(agrees(start, now, deeds));
            assert(shown_last(start, now, deeds));
            still_agrees(start, now, deeds, met);
            still_shown_last(start, now, deeds, met);
            step_is_orderly(start, now, deeds, met);
            order_grows(start, deeds, done(now, met).1);
        }
    }
}

/// A job that puts a build on goes through its phases in order, whatever it meets: it clears the
/// bag until nothing is left that builds hold, then gives every item once and in turn, lets three
/// frames pass, wears the saved slots one by one in the order of wearing, and takes the closing
/// steps in turn. It ends well only after all of them.
///
/// What is worn is shown to the others exactly once, after everything else: a job that shows it
/// does nothing more, and a job that ended well has shown it with the step before its end.
pub proof fn builds_are_put_on_in_order(job: JobState, occasions: Seq<Occasion>)
    requires
        job.wf(),
        job.phase == Phase::Purge,
        forall|i: int| 0 <= i < occasions.len() ==> (#[trigger] occasions[i]).bag.wf(),
    ensures
        ({
            let deeds = history(job, occasions).1;
            let shown = ActionState::Close(ClosingState::ShowOthers);
            &&& is_orderly(job, deeds)
            &&& forall|i: int, j: int|
                0 <= i < j < deeds.len() && (#[trigger] deeds[i]).action == shown ==> j
                    == deeds.len() - 1 && (#[trigger] deeds[j]).action is End
            &&& is_over(deeds) && deeds.last().action->End_0 is Synced ==> deeds.len() >= 2
                && deeds[deeds.len() - 2].action == shown
        }),
{
    histories_keep_order(job, occasions);
    showing_comes_last(job);
}

/// Whether a step only clears the bag: it removes all copies of a weapon, a piece of armor or a
/// talisman, or asks for nothing.
pub open spec fn only_clears(deed: Deed) -> bool {
    match deed.action {
        ActionState::Remove { index, count } => {
            let place = index - deed.bag.key_capacity;
            &&& 0 <= place < deed.bag.normal@.len()
            &&& holds_managed(deed.table, deed.bag.normal@[place])
            &&& count == copies(deed.bag.normal@[place]->0.quantity)
        },
        ActionState::Proceed | ActionState::Yield => true,
        ActionState::End(end) => end is PurgeDone || end is Stalled || end is DeleteFailed,
        _ => false,
    }
}

proof fn histories_only_clear(job: JobState, occasions: Seq<Occasion>)
    requires
        job.wf(),
        job.purge_only,
        forall|i: int| 0 <= i < occasions.len() ==> (#[trigger] occasions[i]).bag.wf(),
    ensures
        ({
            let (now, deeds) = history(job, occasions);
            &&& now.wf()
            &&& now.purge_only
            &&& forall|i: int| 0 <= i < deeds.len() ==> only_clears(#[trigger] deeds[i])
        }),
    decreases occasions.len(),
{
    if occasions.len() > 0 {
        let rest = occasions.drop_last();
        let met = occasions.last();
        assert(occasions[occasions.len() - 1] == met);
        assert forall|i: int| 0 <= i < rest.len() implies (#[trigger] rest[i]).bag.wf() by {
            assert(rest[i] == occasions[i]);
        }
        histories_only_clear(job, rest);
        let (before, deeds) = history(job, rest);
        let now = renewed(before, deeds);
        assert(now.wf());
        phases_come_in_order(now, met.failure, met.bag, met.table, met.level);
        only_managed_items_are_removed(now, met.failure, met.bag, met.table, met.level);
        purge_only_never_gives_or_wears(now, met.failure, met.bag, met.table, met.level);
    }
}

/// Clearing the bag alone takes everything off, each of the fourteen places with one call, and
/// from then on only removes weapons, armor and talismans, each with all its copies: however
/// often the job is asked, it gives nothing, wears nothing and takes no closing step.
pub proof fn clearing_alone_takes_off_and_removes(
    bags: Seq<Bag>,
    bag: Bag,
    table: Option<Map<u32, WeaponRow>>,
    occasions: Seq<Occasion>,
)
    requires
        unequip_calls(bags).0.done == 14,
        forall|i: int| 0 <= i < occasions.len() ==> (#[trigger] occasions[i]).bag.wf(),
    ensures
        ({
            let taken_off = unequip_calls(bags).1;
            let left = managed_count(table, bag.normal@) as int;
            let deeds = history(fresh(true, left, seq![], seq![], seq![], 1), occasions).1;
            &&& taken_off.len() == 14
            &&& forall|i: int|
                0 <= i < 14 ==> (#[trigger] taken_off[i]).slot == loadout_slot(i) && empty_in(
                    taken_off[i].slot,
                    taken_off[i].item,
                )
            &&& forall|i: int| 0 <= i < deeds.len() ==> only_clears(#[trigger] deeds[i])
        }),
{
    everything_is_taken_off(bags);
    let left = managed_count(table, bag.normal@) as int;
    histories_only_clear(fresh(true, left, seq![], seq![], seq![], 1), occasions);
}

} // verus!
