//! Putting a saved build on, step by step over many frames.
//!
//! A job goes through five phases, each of which ends before the next begins: the bag is
//! cleared, the saved items are given, some frames pass, the saved places are worn, and what is
//! left of the build follows, with showing it to the others as the last step. In each frame the
//! job is asked again and again what to do next, and told what came of the last request, until it
//! says that the frame is over.

use vstd::prelude::*;

use crate::equip::{
    answered, apply_arm_style, arm_change, copies, dressed, every_slot_has_its_turn, one_handed,
    reset_arm_style_one_handed, sort_loadout_for_apply, wear_order, ArmChange, DressStage, DressState, DressStep, Dressing,
    EquipCall, EquipError, LoadoutSlot,
};
use crate::game::{
    first_managed, holds_managed, managed_count, managed_entry_count, managed_target,
    target_exists_while_some_remain,
};
use crate::item::{category_of, Bag, WeaponRow, WeaponTable};
use crate::magic::{missing, missing_goods};
use crate::snap::{expand_copies, expanded, is_given, BagItem, BuildSnapshot};
use crate::stats::StatsSnapshot;
use crate::text::text_or_none;
use crate::tga::{give_batch, given, resolved, GiveError, BATCH_LIMIT, NO_GEM};

verus! {

/// How many removals one frame asks for at most.
pub const REMOVE_PER_FRAME: u32 = 96;

/// How many items one frame gives at most.
pub const GIVE_PER_FRAME: u32 = 48;

/// How many saved slots one frame takes up at most.
pub const EQUIP_PER_FRAME: u32 = 32;

/// How many frames pass between giving and wearing.
pub const SETTLE_FRAMES: u32 = 3;

/// How many removals may leave the bag as it is.
pub const STALL_LIMIT: u32 = 8;

/// Where a job stands.
#[derive(Clone, Copy, Debug, PartialEq, Eq, Structural)]
pub enum Phase {
    Purge,
    Give,
    Settle,
    Equip,
    Finish,
}

/// Putting a build on, or only clearing the bag.
pub struct Job {
    pub phase: Phase,
    /// Whether only the bag is cleared.
    pub purge_only: bool,
    /// How many removals in a row left the bag as it was.
    pub stall: u32,
    /// How much was left to remove at the last look.
    pub last_remaining: u32,
    /// Whether a removal was asked for.
    pub removing: bool,
    /// What is given, in order.
    pub queue: Vec<BagItem>,
    /// How many of them were taken up.
    pub next: usize,
    /// What was asked for and not answered: finished id, ash of war and order number.
    pub sent: Vec<(u32, i64, u32)>,
    /// What was given, in the same form.
    pub placed: Vec<(u32, i64, u32)>,
    /// How many frames are still to pass before wearing.
    pub settle: u32,
    /// What is worn in the end.
    pub loadout: Vec<LoadoutSlot>,
    pub dressing: Dressing,
    /// How many of the closing steps were asked for.
    pub closed: usize,
    /// How much was done in this frame.
    pub turn: u32,
    pub removed: u32,
    pub given: u32,
    pub magic: Vec<i32>,
    pub arm_style: u8,
}

/// The same as plain values.
#[verifier::ext_equal]
pub struct JobState {
    pub phase: Phase,
    pub purge_only: bool,
    pub stall: int,
    pub last_remaining: int,
    pub removing: bool,
    pub queue: Seq<BagItem>,
    pub next: int,
    pub sent: Seq<(u32, i64, u32)>,
    pub placed: Seq<(u32, i64, u32)>,
    pub settle: int,
    pub loadout: Seq<LoadoutSlot>,
    pub dressing: DressState,
    pub closed: int,
    pub turn: int,
    pub removed: int,
    pub given: int,
    pub magic: Seq<i32>,
    pub arm_style: u8,
}

impl View for Job {
    type V = JobState;

    open spec fn view(&self) -> JobState {
        JobState {
            phase: self.phase,
            purge_only: self.purge_only,
            stall: self.stall as int,
            last_remaining: self.last_remaining as int,
            removing: self.removing,
            queue: self.queue@,
            next: self.next as int,
            sent: self.sent@,
            placed: self.placed@,
            settle: self.settle as int,
            loadout: self.loadout@,
            dressing: self.dressing@,
            closed: self.closed as int,
            turn: self.turn as int,
            removed: self.removed as int,
            given: self.given as int,
            magic: self.magic@,
            arm_style: self.arm_style,
        }
    }
}

impl JobState {
    /// What holds of a job at all times: nothing is given while the bag is cleared, every item
    /// that was taken up is either given or on its way, and nothing is worn before its turn.
    pub open spec fn wf(self) -> bool {
        &&& 0 <= self.stall < STALL_LIMIT
        &&& 0 <= self.next <= self.queue.len() <= u32::MAX
        &&& 0 <= self.given
        &&& self.given + self.sent.len() == self.next
        &&& self.phase == Phase::Give ==> self.placed.len() == self.given
        &&& 0 <= self.turn <= REMOVE_PER_FRAME
        &&& self.phase == Phase::Give ==> self.turn + self.sent.len() <= GIVE_PER_FRAME
        &&& 0 <= self.settle <= SETTLE_FRAMES
        &&& self.loadout.len() <= u32::MAX
        &&& self.dressing.wf()
        &&& self.purge_only ==> self.phase == Phase::Purge
        &&& self.phase == Phase::Purge ==> self.next == 0 && self.placed.len() == 0
        &&& self.phase == Phase::Settle || self.phase == Phase::Equip || self.phase
            == Phase::Finish ==> self.next == self.queue.len() && self.sent.len() == 0
        &&& self.phase != Phase::Purge ==> !self.removing
        &&& self.phase == Phase::Equip ==> self.turn <= EQUIP_PER_FRAME
        &&& self.phase != Phase::Finish ==> self.closed == 0
        &&& 0 <= self.closed <= closing(self).len()
    }
}

/// A step that is left once everything is worn.
pub enum Closing {
    /// Remove the placeholders that are not worn.
    ClearPlaceholders,
    /// Write these spells into the wheel.
    WriteWheel(Vec<i32>),
    /// Hold the weapons in this way.
    Hold(ArmChange),
    /// Wear the talismans of these slots that were saved as one of several.
    WearRanked(Vec<LoadoutSlot>),
    /// Send the others what is worn.
    ShowOthers,
}

/// The same as plain values.
pub enum ClosingState {
    ClearPlaceholders,
    WriteWheel(Seq<i32>),
    Hold(ArmChange),
    WearRanked(Seq<LoadoutSlot>),
    ShowOthers,
}

impl View for Closing {
    type V = ClosingState;

    open spec fn view(&self) -> ClosingState {
        match self {
            Closing::ClearPlaceholders => ClosingState::ClearPlaceholders,
            Closing::WriteWheel(magic) => ClosingState::WriteWheel(magic@),
            Closing::Hold(change) => ClosingState::Hold(*change),
            Closing::WearRanked(slots) => ClosingState::WearRanked(slots@),
            Closing::ShowOthers => ClosingState::ShowOthers,
        }
    }
}

/// What is left of a build once everything is worn, in order: the placeholders go, the spell
/// wheel is written where the build has one, the weapons are held first one in each hand and then
/// as saved, the ranked talismans are worn, and the others are shown what came of it.
pub open spec fn closing(job: JobState) -> Seq<ClosingState> {
    let wheel = if job.magic.len() > 0 {
        seq![ClosingState::WriteWheel(job.magic)]
    } else {
        seq![]
    };
    seq![ClosingState::ClearPlaceholders] + wheel + seq![
        ClosingState::Hold(one_handed()),
        ClosingState::Hold(arm_change(job.arm_style)),
        ClosingState::WearRanked(job.loadout),
        ClosingState::ShowOthers,
    ]
}

/// How a job ended.
pub enum Ending {
    /// The bag did not change any more; the id of what could not be removed.
    Stalled { removed: u32, left: u32, stuck: Option<u32> },
    /// A removal failed.
    DeleteFailed { removed: u32 },
    /// The bag is cleared, and that was all.
    PurgeDone { removed: u32 },
    /// Giving failed.
    GiveFailed { error: String, removed: u32, given: u32 },
    /// The build was put on and shown; the care begins.
    Synced { removed: u32, given: u32, equipped: u32 },
}

/// The same as plain values.
pub enum EndState {
    Stalled { removed: int, left: int, stuck: Option<u32> },
    DeleteFailed { removed: int },
    PurgeDone { removed: int },
    GiveFailed { error: Seq<char>, removed: int, given: int },
    Synced { removed: int, given: int, equipped: int },
}

impl View for Ending {
    type V = EndState;

    open spec fn view(&self) -> EndState {
        match self {
            Ending::Stalled { removed, left, stuck } => EndState::Stalled {
                removed: *removed as int,
                left: *left as int,
                stuck: *stuck,
            },
            Ending::DeleteFailed { removed } => EndState::DeleteFailed {
                removed: *removed as int,
            },
            Ending::PurgeDone { removed } => EndState::PurgeDone { removed: *removed as int },
            Ending::GiveFailed { error, removed, given } => EndState::GiveFailed {
                error: error@,
                removed: *removed as int,
                given: *given as int,
            },
            Ending::Synced { removed, given, equipped } => EndState::Synced {
                removed: *removed as int,
                given: *given as int,
                equipped: *equipped as int,
            },
        }
    }
}

/// What a job asks for.
pub enum Action {
    /// Remove this many of what is at this absolute index.
    Remove { index: u32, count: u32 },
    /// Keep the game quiet about items from now on.
    StartGiving,
    /// Give these entries in one packet.
    Give(Vec<(u32, u32, u32)>),
    /// Pass the order numbers on to the bag. The frame is over.
    Stamp(Vec<(u32, i64, u32)>),
    /// Give this placeholder.
    GivePlaceholder(u32),
    /// Make this equip call.
    Equip(EquipCall),
    /// A slot is left alone, for this reason.
    Skip(EquipError),
    /// Take this closing step; what comes of it makes no difference.
    Close(Closing),
    /// Nothing; ask again.
    Proceed,
    /// The frame is over.
    Yield,
    /// The job is over.
    End(Ending),
}

/// The same as plain values.
pub enum ActionState {
    Remove { index: u32, count: u32 },
    StartGiving,
    Give(Seq<(u32, u32, u32)>),
    Stamp(Seq<(u32, i64, u32)>),
    GivePlaceholder(u32),
    Equip(EquipCall),
    Skip(EquipError),
    Close(ClosingState),
    Proceed,
    Yield,
    End(EndState),
}

impl View for Action {
    type V = ActionState;

    open spec fn view(&self) -> ActionState {
        match self {
            Action::Remove { index, count } => ActionState::Remove {
                index: *index,
                count: *count,
            },
            Action::StartGiving => ActionState::StartGiving,
            Action::Give(entries) => ActionState::Give(entries@),
            Action::Stamp(placed) => ActionState::Stamp(placed@),
            Action::GivePlaceholder(item) => ActionState::GivePlaceholder(*item),
            Action::Equip(call) => ActionState::Equip(*call),
            Action::Skip(error) => ActionState::Skip(*error),
            Action::Close(step) => ActionState::Close(step@),
            Action::Proceed => ActionState::Proceed,
            Action::Yield => ActionState::Yield,
            Action::End(ending) => ActionState::End(ending@),
        }
    }
}

/// Whether an action ends the frame.
pub open spec fn ends_frame(action: ActionState) -> bool {
    action is Stamp || action is Yield || action is End
}

/// Whether a job runs.
pub fn is_busy(job: &Option<Job>) -> (busy: bool)
    ensures
        busy == job.is_some(),
{
    job.is_some()
}

/// One removal more; the count starts over after the largest number.
pub open spec fn counted(removed: int) -> int {
    if removed == u32::MAX {
        0
    } else {
        removed + 1
    }
}

/// One step of clearing the bag.
pub open spec fn purge_step(
    job: JobState,
    failed: bool,
    bag: Bag,
    table: Option<Map<u32, WeaponRow>>,
) -> (JobState, ActionState) {
    if job.removing && failed {
        (
            JobState { removing: false, ..job },
            ActionState::End(EndState::DeleteFailed { removed: job.removed }),
        )
    } else {
        let job = JobState {
            removing: false,
            removed: if job.removing {
                counted(job.removed)
            } else {
                job.removed
            },
            ..job
        };
        let left = managed_count(table, bag.normal@) as int;
        let stall = if left >= job.last_remaining {
            job.stall + 1
        } else {
            0
        };
        if left == 0 {
            if job.purge_only {
                (job, ActionState::End(EndState::PurgeDone { removed: job.removed }))
            } else {
                (JobState { phase: Phase::Give, turn: 0, ..job }, ActionState::StartGiving)
            }
        } else if job.turn >= REMOVE_PER_FRAME {
            (job, ActionState::Yield)
        } else if stall >= STALL_LIMIT {
            (
                job,
                ActionState::End(
                    EndState::Stalled {
                        removed: job.removed,
                        left,
                        stuck: match managed_target(table, bag) {
                            Some((_, id, _)) => Some(id),
                            None => None,
                        },
                    },
                ),
            )
        } else {
            let job = JobState { stall, last_remaining: left, turn: job.turn + 1, ..job };
            match managed_target(table, bag) {
                Some((index, _, count)) => (
                    JobState { removing: true, ..job },
                    ActionState::Remove { index, count },
                ),
                None => (job, ActionState::Proceed),
            }
        }
    }
}

/// How many items the next packet holds.
pub open spec fn batch_length(job: JobState) -> int {
    let room = GIVE_PER_FRAME - job.turn;
    let waiting = job.queue.len() - job.next;
    let limited = if room < BATCH_LIMIT {
        room
    } else {
        BATCH_LIMIT as int
    };
    if waiting < limited {
        waiting
    } else {
        limited
    }
}

/// What is noted of an item that was given: the finished id, the ash of war, the order number.
pub open spec fn note_of(entry: (u32, u32, u32), item: BagItem) -> (u32, i64, u32) {
    (
        given(entry).0,
        if given(entry).1 == NO_GEM {
            -1i64
        } else {
            given(entry).1 as i64
        },
        item.sort_id,
    )
}

/// The entries of the next packet, where all its items can be given.
pub open spec fn batch_entries(
    job: JobState,
    table: Option<Map<u32, WeaponRow>>,
    level: u8,
) -> Option<Seq<(u32, u32, u32)>> {
    let batch = job.queue.subrange(job.next, job.next + batch_length(job));
    if forall|i: int| 0 <= i < batch.len() ==> category_of((#[trigger] batch[i]).id) is Some {
        Some(Seq::new(batch.len(), |i: int| resolved(table, level, batch[i])->0))
    } else {
        None
    }
}

/// One step of giving.
pub open spec fn give_step(
    job: JobState,
    failure: Option<Seq<char>>,
    table: Option<Map<u32, WeaponRow>>,
    level: u8,
) -> (JobState, ActionState) {
    if job.sent.len() > 0 && failure is Some {
        (
            job,
            ActionState::End(
                EndState::GiveFailed {
                    error: failure->0,
                    removed: job.removed,
                    given: job.given,
                },
            ),
        )
    } else {
        let job = JobState {
            placed: job.placed + job.sent,
            given: job.given + job.sent.len(),
            turn: job.turn + job.sent.len(),
            sent: seq![],
            ..job
        };
        if job.next >= job.queue.len() {
            (
                JobState {
                    phase: Phase::Settle,
                    settle: SETTLE_FRAMES as int,
                    placed: seq![],
                    ..job
                },
                ActionState::Stamp(job.placed),
            )
        } else if job.turn >= GIVE_PER_FRAME {
            (job, ActionState::Yield)
        } else {
            let count = batch_length(job);
            match batch_entries(job, table, level) {
                Some(entries) => (
                    JobState {
                        sent: Seq::new(
                            count as nat,
                            |i: int| note_of(entries[i], job.queue[job.next + i]),
                        ),
                        next: job.next + count,
                        ..job
                    },
                    ActionState::Give(entries),
                ),
                None => (
                    job,
                    ActionState::End(
                        EndState::GiveFailed {
                            error: GiveError::InvalidItem.text(),
                            removed: job.removed,
                            given: job.given,
                        },
                    ),
                ),
            }
        }
    }
}

/// One step of letting frames pass.
pub open spec fn settle_step(job: JobState) -> (JobState, ActionState) {
    if job.settle > 0 {
        (JobState { settle: job.settle - 1, ..job }, ActionState::Yield)
    } else {
        (
            JobState {
                phase: Phase::Equip,
                turn: 0,
                dressing: DressState {
                    slots: wear_order(job.loadout),
                    next: 0,
                    used: Set::empty(),
                    stage: DressStage::Ready,
                    done: 0,
                },
                ..job
            },
            ActionState::Proceed,
        )
    }
}

/// One step of wearing. A slot that is waiting for its placeholder is finished in any case; a
/// new slot is taken up only while the frame has room for it.
pub open spec fn equip_step(job: JobState, failed: bool, bag: Bag) -> (JobState, ActionState) {
    let waiting = answered(job.dressing, failed);
    if job.turn >= EQUIP_PER_FRAME && !(waiting.stage is Emptying) {
        (JobState { dressing: waiting, ..job }, ActionState::Yield)
    } else {
        let (dressing, step) = dressed(job.dressing, failed, bag);
        let turn = job.turn + dressing.next - job.dressing.next;
        let job = JobState { dressing, turn, ..job };
        match step {
            DressStep::Give(item) => (job, ActionState::GivePlaceholder(item)),
            DressStep::Call(call) => (job, ActionState::Equip(call)),
            DressStep::Passed => (job, ActionState::Proceed),
            DressStep::Skipped(error) => (job, ActionState::Skip(error)),
            DressStep::Finished => (
                JobState { phase: Phase::Finish, ..job },
                ActionState::Proceed,
            ),
        }
    }
}

/// One closing step, or the end.
pub open spec fn finish_step(job: JobState) -> (JobState, ActionState) {
    if job.closed < closing(job).len() {
        (
            JobState { closed: job.closed + 1, ..job },
            ActionState::Close(closing(job)[job.closed]),
        )
    } else {
        (
            job,
            ActionState::End(
                EndState::Synced {
                    removed: job.removed,
                    given: job.given,
                    equipped: job.dressing.done,
                },
            ),
        )
    }
}

/// One step of a job: what came of the last request goes in, the next request comes out.
pub open spec fn stepped(
    job: JobState,
    failure: Option<Seq<char>>,
    bag: Bag,
    table: Option<Map<u32, WeaponRow>>,
    level: u8,
) -> (JobState, ActionState) {
    match job.phase {
        Phase::Purge => purge_step(job, failure is Some, bag, table),
        Phase::Give => give_step(job, failure, table, level),
        Phase::Settle => settle_step(job),
        Phase::Equip => equip_step(job, failure is Some, bag),
        Phase::Finish => finish_step(job),
    }
}

impl Job {
    /// A new frame begins.
    pub fn begin_frame(&mut self)
        requires
            old(self)@.wf(),
        ensures
            final(self)@ == (JobState { turn: 0, ..old(self)@ }),
            final(self)@.wf(),
    {
        self.turn = 0;
    }

    fn purge(&mut self, failed: bool, bag: &Bag, table: &WeaponTable) -> (action: Action)
        requires
            old(self)@.wf(),
            old(self).phase == Phase::Purge,
            bag.wf(),
        ensures
            (final(self)@, action@) == purge_step(old(self)@, failed, *bag, table@),
            final(self)@.wf(),
    {
        if self.removing {
            self.removing = false;
            if failed {
                return Action::End(Ending::DeleteFailed { removed: self.removed });
            }
            self.removed = self.removed.wrapping_add(1);
        }
        let left: u32 = managed_entry_count(table, bag);
        if left == 0 {
            if self.purge_only {
                return Action::End(Ending::PurgeDone { removed: self.removed });
            }
            self.phase = Phase::Give;
            self.turn = 0;
            return Action::StartGiving;
        }
        if self.turn >= REMOVE_PER_FRAME {
            return Action::Yield;
        }
        let target = first_managed(table, bag);
        let stall: u32 = if left >= self.last_remaining {
            self.stall + 1
        } else {
            0
        };
        if stall >= STALL_LIMIT {
            let stuck: Option<u32> = match target {
                Some((_index, id, _count)) => Some(id),
                None => None,
            };
            return Action::End(Ending::Stalled { removed: self.removed, left, stuck });
        }
        self.stall = stall;
        self.last_remaining = left;
        self.turn = self.turn + 1;
        match target {
            Some((index, _id, count)) => {
                self.removing = true;
                Action::Remove { index, count }
            },
            None => Action::Proceed,
        }
    }

    fn settle_down(&mut self) -> (action: Action)
        requires
            old(self)@.wf(),
            old(self).phase == Phase::Settle,
        ensures
            (final(self)@, action@) == settle_step(old(self)@),
            final(self)@.wf(),
    {
        if self.settle > 0 {
            self.settle = self.settle - 1;
            return Action::Yield;
        }
        self.phase = Phase::Equip;
        self.turn = 0;
        self.dressing = Dressing::new(sort_loadout_for_apply(self.loadout.as_slice()));
        Action::Proceed
    }

    fn wear(&mut self, failed: bool, bag: &Bag) -> (action: Action)
        requires
            old(self)@.wf(),
            old(self).phase == Phase::Equip,
            bag.wf(),
        ensures
            (final(self)@, action@) == equip_step(old(self)@, failed, *bag),
            final(self)@.wf(),
    {
        self.dressing.answer(failed);
        let emptying = match self.dressing.stage {
            DressStage::Emptying(_) => true,
            _ => false,
        };
        if self.turn >= EQUIP_PER_FRAME && !emptying {
            return Action::Yield;
        }
        let before: usize = self.dressing.next;
        let step = self.dressing.step(false, bag);
        if self.dressing.next > before {
            self.turn = self.turn + 1;
        }
        match step {
            DressStep::Give(item) => Action::GivePlaceholder(item),
            DressStep::Call(call) => Action::Equip(call),
            DressStep::Passed => Action::Proceed,
            DressStep::Skipped(error) => Action::Skip(error),
            DressStep::Finished => {
                self.phase = Phase::Finish;
                Action::Proceed
            },
        }
    }

    fn close(&mut self) -> (action: Action)
        requires
            old(self)@.wf(),
            old(self).phase == Phase::Finish,
        ensures
            (final(self)@, action@) == finish_step(old(self)@),
            final(self)@.wf(),
    {
        let steps = closing_steps(self);
        if self.closed >= steps.len() {
            return Action::End(
                Ending::Synced {
                    removed: self.removed,
                    given: self.given,
                    equipped: self.dressing.done,
                },
            );
        }
        let at: usize = self.closed;
        self.closed = self.closed + 1;
        let mut steps = steps;
        let step = steps.swap_remove(at);
        Action::Close(step)
    }

    fn give(&mut self, failure: Option<String>, table: &WeaponTable, level: u8) -> (action: Action)
        requires
            old(self)@.wf(),
            old(self).phase == Phase::Give,
        ensures
            (final(self)@, action@) == give_step(
                old(self)@,
                text_or_none(failure),
                table@,
                level,
            ),
            final(self)@.wf(),
    {
        let waiting = self.sent.len() > 0;
        if waiting {
            match failure {
                Some(error) => {
                    return Action::End(
                        Ending::GiveFailed { error, removed: self.removed, given: self.given },
                    );
                },
                None => {},
            }
        }
        let count: u32 = self.sent.len() as u32;
        self.placed.append(&mut self.sent);
        self.given = self.given + count;
        self.turn = self.turn + count;
        let ghost now = self@;
        assert(now.sent =~= seq![]);
        if self.next >= self.queue.len() {
            self.phase = Phase::Settle;
            self.settle = SETTLE_FRAMES;
            let mut placed: Vec<(u32, i64, u32)> = Vec::new();
            placed.append(&mut self.placed);
            assert(self@.placed =~= seq![]);
            assert(placed@ =~= now.placed);
            return Action::Stamp(placed);
        }
        if self.turn >= GIVE_PER_FRAME {
            return Action::Yield;
        }
        let room: usize = (GIVE_PER_FRAME - self.turn) as usize;
        let limited: usize = if room < BATCH_LIMIT {
            room
        } else {
            BATCH_LIMIT
        };
        let left: usize = self.queue.len() - self.next;
        let length: usize = if left < limited {
            left
        } else {
            limited
        };
        let mut batch: Vec<BagItem> = Vec::new();
        let mut at: usize = 0;
        while at < length
            invariant
                at <= length,
                self@ == now,
                self.next + length <= self.queue@.len() <= u32::MAX,
                batch@ == self.queue@.subrange(self.next as int, self.next + at),
            decreases length - at,
        {
            batch.push(self.queue[self.next + at]);
            at = at + 1;
            assert(batch@ =~= self.queue@.subrange(self.next as int, self.next + at));
        }
        assert(length == batch_length(now));
        match give_batch(table, level, batch.as_slice()) {
            Ok(entries) => {
                let mut at: usize = 0;
                while at < length
                    invariant
                        at <= length,
                        length == batch@.len(),
                        length == entries@.len(),
                        self@ == (JobState { sent: self.sent@, ..now }),
                        self.sent@.len() == at,
                        forall|i: int|
                            0 <= i < at ==> #[trigger] self.sent@[i] == note_of(
                                entries@[i],
                                batch@[i],
                            ),
                    decreases length - at,
                {
                    let (id, _quantity, gem) = entries[at];
                    let gem: i64 = if gem == NO_GEM {
                        -1
                    } else {
                        gem as i64
                    };
                    self.sent.push((id, gem, batch[at].sort_id));
                    at = at + 1;
                }
                self.next = self.next + length;
                proof {
                    assert forall|i: int| 0 <= i < batch@.len() implies category_of(
                        (#[trigger] batch@[i]).id,
                    ) is Some by {
                        assert(resolved(table@, level, batch@[i]) == Some(entries@[i]));
                    }
                    assert(entries@ =~= batch_entries(now, table@, level)->0);
                    assert(self.sent@ =~= Seq::new(
                        length as nat,
                        |i: int| note_of(entries@[i], now.queue[now.next + i]),
                    ));
                }
                Action::Give(entries)
            },
            Err(error) => {
                assert(batch_entries(now, table@, level) is None);
                Action::End(
                    Ending::GiveFailed {
                        error: error.message(),
                        removed: self.removed,
                        given: self.given,
                    },
                )
            },
        }
    }
}

fn copy_spells(spells: &Vec<i32>) -> (copied: Vec<i32>)
    ensures
        copied@ == spells@,
{
    let mut copied: Vec<i32> = Vec::new();
    let mut at: usize = 0;
    while at < spells.len()
        invariant
            at <= spells@.len(),
            copied@ == spells@.take(at as int),
        decreases spells@.len() - at,
    {
        copied.push(spells[at]);
        at = at + 1;
        assert(copied@ =~= spells@.take(at as int));
    }
    assert(copied@ =~= spells@);
    copied
}

fn copy_slots(slots: &Vec<LoadoutSlot>) -> (copied: Vec<LoadoutSlot>)
    ensures
        copied@ == slots@,
{
    let mut copied: Vec<LoadoutSlot> = Vec::new();
    let mut at: usize = 0;
    while at < slots.len()
        invariant
            at <= slots@.len(),
            copied@ == slots@.take(at as int),
        decreases slots@.len() - at,
    {
        copied.push(slots[at]);
        at = at + 1;
        assert(copied@ =~= slots@.take(at as int));
    }
    assert(copied@ =~= slots@);
    copied
}

/// The closing steps as plain values.
pub open spec fn closing_states(steps: Seq<Closing>) -> Seq<ClosingState> {
    steps.map_values(|step: Closing| step@)
}

/// What is left of a job's build once everything is worn, in order.
pub fn closing_steps(job: &Job) -> (steps: Vec<Closing>)
    ensures
        closing_states(steps@) == closing(job@),
{
    let mut steps: Vec<Closing> = Vec::new();
    steps.push(Closing::ClearPlaceholders);
    if job.magic.len() > 0 {
        steps.push(Closing::WriteWheel(copy_spells(&job.magic)));
    }
    steps.push(Closing::Hold(reset_arm_style_one_handed()));
    steps.push(Closing::Hold(apply_arm_style(job.arm_style)));
    steps.push(Closing::WearRanked(copy_slots(&job.loadout)));
    steps.push(Closing::ShowOthers);
    assert(closing_states(steps@) =~= closing(job@));
    steps
}

/// Takes what came of the job's last request, and decides the next one in the bag as it is.
pub fn poll(
    job: &mut Job,
    failure: Option<String>,
    bag: &Bag,
    table: &WeaponTable,
    level: u8,
) -> (action: Action)
    requires
        old(job)@.wf(),
        bag.wf(),
    ensures
        (final(job)@, action@) == stepped(
            old(job)@,
            text_or_none(failure),
            *bag,
            table@,
            level,
        ),
        final(job)@.wf(),
{
    match job.phase {
        Phase::Purge => job.purge(failure.is_some(), bag, table),
        Phase::Give => job.give(failure, table, level),
        Phase::Settle => job.settle_down(),
        Phase::Equip => job.wear(failure.is_some(), bag),
        Phase::Finish => job.close(),
    }
}

/// Which of the game's functions were found.
#[derive(Clone, Copy, Debug, PartialEq, Eq, Structural)]
pub struct Readiness {
    pub remove: bool,
    pub give: bool,
    pub equip: bool,
}

/// Why a job was not started.
#[derive(Clone, Copy, Debug, PartialEq, Eq, Structural)]
pub enum StartError {
    /// A job is still running.
    StillRunning,
    /// A job is running, and the bag is not cleared meanwhile.
    Busy,
    RemoveItemMissing,
    ItemGiveMissing,
    EquipGearMissing,
    /// The build holds no attributes.
    NoStats,
    /// The build holds no worn places.
    NoLoadout,
}

/// What is missing to start a job.
pub open spec fn unready(ready: Readiness) -> Option<StartError> {
    if !ready.remove {
        Some(StartError::RemoveItemMissing)
    } else if !ready.give {
        Some(StartError::ItemGiveMissing)
    } else if !ready.equip {
        Some(StartError::EquipGearMissing)
    } else {
        None
    }
}

fn find_unready(ready: &Readiness) -> (error: Option<StartError>)
    ensures
        error == unready(*ready),
{
    if !ready.remove {
        Some(StartError::RemoveItemMissing)
    } else if !ready.give {
        Some(StartError::ItemGiveMissing)
    } else if !ready.equip {
        Some(StartError::EquipGearMissing)
    } else {
        None
    }
}

/// What starting to put a build on comes to: attributes to write in any case, and whether to go
/// on.
#[derive(Clone, Copy, Debug, PartialEq, Eq, Structural)]
pub struct Start {
    pub stats: Option<StatsSnapshot>,
    pub error: Option<StartError>,
}

/// Decides whether a build can be put on. The attributes are written before the worn places are
/// looked at, so a build without any has its attributes written all the same.
pub fn start(busy: bool, ready: &Readiness, build: &BuildSnapshot) -> (start: Start)
    ensures
        start == if busy {
            Start { stats: None, error: Some(StartError::StillRunning) }
        } else if unready(*ready) is Some {
            Start { stats: None, error: unready(*ready) }
        } else if build.stats is None {
            Start { stats: None, error: Some(StartError::NoStats) }
        } else if build.loadout@.len() == 0 {
            Start { stats: build.stats, error: Some(StartError::NoLoadout) }
        } else {
            Start { stats: build.stats, error: None }
        },
{
    if busy {
        return Start { stats: None, error: Some(StartError::StillRunning) };
    }
    let missing = find_unready(ready);
    if missing.is_some() {
        return Start { stats: None, error: missing };
    }
    if build.stats.is_none() {
        return Start { stats: None, error: Some(StartError::NoStats) };
    }
    if build.loadout.len() == 0 {
        return Start { stats: build.stats, error: Some(StartError::NoLoadout) };
    }
    Start { stats: build.stats, error: None }
}

/// Decides whether the bag can be cleared.
pub fn start_purge_only(busy: bool, ready: &Readiness) -> (error: Option<StartError>)
    ensures
        error == if busy {
            Some(StartError::Busy)
        } else {
            unready(*ready)
        },
{
    if busy {
        return Some(StartError::Busy);
    }
    find_unready(ready)
}

/// What is given for a build: the goods of its missing spells, then its items one by one.
pub open spec fn to_give(
    table: Option<Map<u32, WeaponRow>>,
    bag: Bag,
    magic: Seq<i32>,
    items: Seq<BagItem>,
) -> Seq<BagItem> {
    missing(bag, magic) + expanded(table, items, items.len() as int)
}

/// A job at its beginning.
pub open spec fn fresh(
    purge_only: bool,
    left: int,
    queue: Seq<BagItem>,
    loadout: Seq<LoadoutSlot>,
    magic: Seq<i32>,
    arm_style: u8,
) -> JobState {
    JobState {
        phase: Phase::Purge,
        purge_only,
        stall: 0,
        last_remaining: left + 1,
        removing: false,
        queue,
        next: 0,
        sent: seq![],
        placed: seq![],
        settle: 0,
        loadout,
        dressing: DressState {
            slots: seq![],
            next: 0,
            used: Set::empty(),
            stage: DressStage::Ready,
            done: 0,
        },
        closed: 0,
        turn: 0,
        removed: 0,
        given: 0,
        magic,
        arm_style,
    }
}

fn make_job(
    purge_only: bool,
    left: u32,
    queue: Vec<BagItem>,
    loadout: Vec<LoadoutSlot>,
    magic: Vec<i32>,
    arm_style: u8,
) -> (job: Job)
    requires
        left < u32::MAX,
        queue@.len() <= u32::MAX,
        loadout@.len() <= u32::MAX,
    ensures
        job@ == fresh(purge_only, left as int, queue@, loadout@, magic@, arm_style),
        job@.wf(),
{
    let job = Job {
        phase: Phase::Purge,
        purge_only,
        stall: 0,
        last_remaining: left + 1,
        removing: false,
        queue,
        next: 0,
        sent: Vec::new(),
        placed: Vec::new(),
        settle: 0,
        loadout,
        dressing: Dressing::new(Vec::new()),
        closed: 0,
        turn: 0,
        removed: 0,
        given: 0,
        magic,
        arm_style,
    };
    assert(job@ =~= fresh(purge_only, left as int, queue@, loadout@, magic@, arm_style)) by {
        assert(job@.dressing.slots =~= seq![]);
        assert(job@.dressing.used =~= Set::empty());
    }
    job
}

/// The job that puts a build on, in the bag as it is after everything was taken off.
pub fn begin(build: BuildSnapshot, bag: &Bag, table: &WeaponTable) -> (job: Job)
    requires
        bag.wf(),
        bag.normal@.len() < u32::MAX,
        build.loadout@.len() <= u32::MAX,
        to_give(table@, *bag, build.magic@, build.bag@).len() <= u32::MAX,
        forall|i: int|
            0 <= i < build.bag@.len() && (#[trigger] build.bag@[i]).sort_id == 0 && is_given(
                table@,
                build.bag@[i],
            ) ==> (i + 1) * 1000 <= u32::MAX,
    ensures
        job@ == fresh(
            false,
            managed_count(table@, bag.normal@) as int,
            to_give(table@, *bag, build.magic@, build.bag@),
            build.loadout@,
            build.magic@,
            build.arm_style,
        ),
        job@.wf(),
{
    let mut items: Vec<BagItem> = expand_copies(table, build.bag.as_slice());
    let mut queue: Vec<BagItem> = missing_goods(bag, build.magic.as_slice());
    queue.append(&mut items);
    assert(queue@ =~= to_give(table@, *bag, build.magic@, build.bag@));
    let left: u32 = managed_entry_count(table, bag);
    make_job(false, left, queue, build.loadout, build.magic, build.arm_style)
}

/// The job that only clears the bag.
pub fn begin_purge_only(bag: &Bag, table: &WeaponTable) -> (job: Job)
    requires
        bag.wf(),
        bag.normal@.len() < u32::MAX,
    ensures
        job@ == fresh(
            true,
            managed_count(table@, bag.normal@) as int,
            seq![],
            seq![],
            seq![],
            1,
        ),
        job@.wf(),
{
    let left: u32 = managed_entry_count(table, bag);
    let job = make_job(true, left, Vec::new(), Vec::new(), Vec::new(), 1);
    assert(job@ =~= fresh(
        true,
        managed_count(table@, bag.normal@) as int,
        seq![],
        seq![],
        seq![],
        1,
    ));
    job
}

/// The place of a phase in the order of phases.
pub open spec fn rank(phase: Phase) -> int {
    match phase {
        Phase::Purge => 0,
        Phase::Give => 1,
        Phase::Settle => 2,
        Phase::Equip => 3,
        Phase::Finish => 4,
    }
}

/// A job keeps what holds of it, never goes back to an earlier phase, and goes on by one phase
/// at most.
pub proof fn phases_come_in_order(
    job: JobState,
    failure: Option<Seq<char>>,
    bag: Bag,
    table: Option<Map<u32, WeaponRow>>,
    level: u8,
)
    requires
        job.wf(),
        bag.wf(),
    ensures
        stepped(job, failure, bag, table, level).0.wf(),
        rank(job.phase) <= rank(stepped(job, failure, bag, table, level).0.phase) <= rank(
            job.phase,
        ) + 1,
        stepped(job, failure, bag, table, level).0.purge_only == job.purge_only,
        stepped(job, failure, bag, table, level).0.magic == job.magic,
        stepped(job, failure, bag, table, level).0.arm_style == job.arm_style,
        stepped(job, failure, bag, table, level).0.loadout == job.loadout,
        stepped(job, failure, bag, table, level).0.queue == job.queue,
{
    every_slot_has_its_turn(job.loadout);
}

/// What only clears the bag removes, and does nothing else.
pub proof fn purge_only_never_gives_or_wears(
    job: JobState,
    failure: Option<Seq<char>>,
    bag: Bag,
    table: Option<Map<u32, WeaponRow>>,
    level: u8,
)
    requires
        job.wf(),
        job.purge_only,
        bag.wf(),
    ensures
        ({
            let action = stepped(job, failure, bag, table, level).1;
            action is Remove || action is Proceed || action is Yield || action is End
        }),
        stepped(job, failure, bag, table, level).0.phase == Phase::Purge,
        stepped(job, failure, bag, table, level).0.given == job.given,
{
}

/// Giving begins only once the bag holds nothing that builds hold.
pub proof fn giving_begins_with_a_clear_bag(
    job: JobState,
    failure: Option<Seq<char>>,
    bag: Bag,
    table: Option<Map<u32, WeaponRow>>,
    level: u8,
)
    requires
        job.wf(),
        bag.wf(),
        job.phase == Phase::Purge,
        stepped(job, failure, bag, table, level).0.phase == Phase::Give,
    ensures
        managed_count(table, bag.normal@) == 0,
        managed_target(table, bag) is None,
{
    target_exists_while_some_remain(table, bag);
}

/// Nothing is removed but weapons, armor and talismans, each with all its copies.
pub proof fn only_managed_items_are_removed(
    job: JobState,
    failure: Option<Seq<char>>,
    bag: Bag,
    table: Option<Map<u32, WeaponRow>>,
    level: u8,
)
    requires
        job.wf(),
        bag.wf(),
    ensures
        stepped(job, failure, bag, table, level).1 matches ActionState::Remove { index, count }
            ==> {
            let place = index - bag.key_capacity;
            &&& 0 <= place < bag.normal@.len()
            &&& holds_managed(table, bag.normal@[place])
            &&& count == copies(bag.normal@[place]->0.quantity)
        },
{
    target_exists_while_some_remain(table, bag);
}

/// While the bag is cleared, no step passes without a removal, unless it ends the frame, the
/// clearing or the job.
pub proof fn purging_always_has_a_target(
    job: JobState,
    failure: Option<Seq<char>>,
    bag: Bag,
    table: Option<Map<u32, WeaponRow>>,
    level: u8,
)
    requires
        job.wf(),
        bag.wf(),
        job.phase == Phase::Purge,
    ensures
        !(stepped(job, failure, bag, table, level).1 is Proceed),
{
    target_exists_while_some_remain(table, bag);
}

/// No item is lost or given twice: what was given, what is on its way and what still waits are
/// together what was to be given, in that order.
pub proof fn items_are_given_once(
    job: JobState,
    failure: Option<Seq<char>>,
    bag: Bag,
    table: Option<Map<u32, WeaponRow>>,
    level: u8,
)
    requires
        job.wf(),
        bag.wf(),
        job.phase == Phase::Give,
    ensures
        ({
            let (after, action) = stepped(job, failure, bag, table, level);
            &&& after.next >= job.next
            &&& after.given + after.sent.len() == after.next
            &&& action matches ActionState::Give(entries) ==> {
                &&& job.next + entries.len() == after.next
                &&& 1 <= entries.len() <= BATCH_LIMIT
                &&& forall|i: int|
                    0 <= i < entries.len() ==> resolved(
                        table,
                        level,
                        #[trigger] job.queue[job.next + i],
                    ) == Some(entries[i])
            }
            &&& action is Stamp ==> after.given == job.queue.len() && action->Stamp_0.len()
                == job.queue.len()
        }),
{
    let (after, action) = stepped(job, failure, bag, table, level);
    if let ActionState::Give(entries) = action {
        let now = JobState {
            placed: job.placed + job.sent,
            given: job.given + job.sent.len(),
            turn: job.turn + job.sent.len(),
            sent: seq![],
            ..job
        };
        let batch = now.queue.subrange(now.next, now.next + batch_length(now));
        assert forall|i: int| 0 <= i < entries.len() implies resolved(
            table,
            level,
            #[trigger] job.queue[job.next + i],
        ) == Some(entries[i]) by {
            assert(batch[i] == job.queue[job.next + i]);
            assert(category_of(batch[i].id) is Some);
        }
    }
}

/// How much a frame can still do.
pub open spec fn frame_measure(job: JobState) -> int {
    match job.phase {
        Phase::Purge => 1000 + 2 * (REMOVE_PER_FRAME - job.turn) + if job.removing {
            1int
        } else {
            0int
        },
        Phase::Give => 500 + 2 * (GIVE_PER_FRAME - job.turn - job.sent.len()),
        Phase::Settle => 400,
        Phase::Equip => 10 + 3 * (EQUIP_PER_FRAME - job.turn) + match job.dressing.stage {
            DressStage::Emptying(_) => 2int,
            DressStage::Calling => 1int,
            DressStage::Ready => 0int,
        },
        Phase::Finish => closing(job).len() - job.closed,
    }
}

/// Every frame comes to an end: a step that does not end it leaves less to be done in it.
pub proof fn frames_end(
    job: JobState,
    failure: Option<Seq<char>>,
    bag: Bag,
    table: Option<Map<u32, WeaponRow>>,
    level: u8,
)
    requires
        job.wf(),
        bag.wf(),
        !ends_frame(stepped(job, failure, bag, table, level).1),
    ensures
        0 <= frame_measure(stepped(job, failure, bag, table, level).0) < frame_measure(job),
{
}

/// Clearing gives up after a bounded number of removals that change nothing: a removal after
/// which no less is left brings the job nearer to its limit, and one after which less is left
/// starts the count anew.
pub proof fn clearing_gives_up(
    job: JobState,
    failure: Option<Seq<char>>,
    bag: Bag,
    table: Option<Map<u32, WeaponRow>>,
    level: u8,
)
    requires
        job.wf(),
        bag.wf(),
        job.phase == Phase::Purge,
        stepped(job, failure, bag, table, level).1 is Remove,
    ensures
        ({
            let after = stepped(job, failure, bag, table, level).0;
            &&& after.last_remaining == managed_count(table, bag.normal@)
            &&& after.last_remaining < job.last_remaining ==> after.stall == 0
            &&& after.last_remaining >= job.last_remaining ==> after.stall == job.stall + 1
            &&& after.stall < STALL_LIMIT
        }),
{
}

/// Wearing begins only after the given frames have passed.
pub proof fn wearing_waits(
    job: JobState,
    failure: Option<Seq<char>>,
    bag: Bag,
    table: Option<Map<u32, WeaponRow>>,
    level: u8,
)
    requires
        job.wf(),
        bag.wf(),
        job.phase == Phase::Settle,
    ensures
        ({
            let (after, action) = stepped(job, failure, bag, table, level);
            if job.settle > 0 {
                after.phase == Phase::Settle && after.settle == job.settle - 1 && action is Yield
            } else {
                after.phase == Phase::Equip && after.dressing.slots == wear_order(job.loadout)
            }
        }),
{
}

/// What is noted of the first `n` items, where they are given with this table and level.
pub open spec fn notes(
    queue: Seq<BagItem>,
    n: int,
    table: Option<Map<u32, WeaponRow>>,
    level: u8,
) -> Seq<(u32, i64, u32)> {
    Seq::new(n as nat, |i: int| note_of(resolved(table, level, queue[i])->0, queue[i]))
}

/// With one table and one level, what is passed on to the bag in the end is noted of every item
/// in the order in which they were to be given.
pub proof fn order_numbers_follow_the_queue(
    job: JobState,
    failure: Option<Seq<char>>,
    bag: Bag,
    table: Option<Map<u32, WeaponRow>>,
    level: u8,
)
    requires
        job.wf(),
        bag.wf(),
        job.phase == Phase::Give,
        job.placed + job.sent == notes(job.queue, job.next, table, level),
    ensures
        ({
            let (after, action) = stepped(job, failure, bag, table, level);
            &&& after.phase == Phase::Give ==> after.placed + after.sent == notes(
                after.queue,
                after.next,
                table,
                level,
            )
            &&& action matches ActionState::Stamp(placed) ==> placed == notes(
                job.queue,
                job.queue.len() as int,
                table,
                level,
            )
        }),
{
    let (after, action) = stepped(job, failure, bag, table, level);
    let now = JobState {
        placed: job.placed + job.sent,
        given: job.given + job.sent.len(),
        turn: job.turn + job.sent.len(),
        sent: seq![],
        ..job
    };
    assert(job.placed + job.sent + Seq::<(u32, i64, u32)>::empty() =~= job.placed + job.sent);
    if let ActionState::Give(entries) = action {
        let batch = now.queue.subrange(now.next, now.next + batch_length(now));
        assert forall|i: int| 0 <= i < entries.len() implies #[trigger] entries[i] == resolved(
            table,
            level,
            job.queue[job.next + i],
        )->0 by {
            assert(batch[i] == job.queue[job.next + i]);
        }
        assert(after.placed + after.sent =~= notes(after.queue, after.next, table, level));
    }
}

/// While the bag holds anything that builds hold, clearing removes it, with ninety-six removals in
/// a frame, and gives up with the eighth in a row that changed nothing; then it ends, or goes on
/// to giving. A removal that failed ends the job, and one that went through counts.
pub proof fn clearing_goes_on(
    job: JobState,
    failure: Option<Seq<char>>,
    bag: Bag,
    table: Option<Map<u32, WeaponRow>>,
    level: u8,
)
    requires
        job.wf(),
        bag.wf(),
        job.phase == Phase::Purge,
    ensures
        ({
            let (after, action) = stepped(job, failure, bag, table, level);
            let left = managed_count(table, bag.normal@);
            let removed = if !job.removing {
                job.removed
            } else if job.removed == 0xFFFF_FFFF {
                0
            } else {
                job.removed + 1
            };
            if job.removing && failure is Some {
                action == ActionState::End(EndState::DeleteFailed { removed: job.removed })
            } else if left == 0 {
                if job.purge_only {
                    action == ActionState::End(EndState::PurgeDone { removed })
                } else {
                    after.phase == Phase::Give && after.removed == removed && after.turn == 0
                        && action is StartGiving
                }
            } else {
                &&& after.removed == removed
                &&& job.turn >= 96 ==> action is Yield
                &&& job.turn < 96 && (left < job.last_remaining || job.stall < 7) ==> action
                    is Remove && after.turn == job.turn + 1 && after.removing
                &&& job.turn < 96 && left >= job.last_remaining && job.stall >= 7 ==> {
                    &&& action matches ActionState::End(
                        EndState::Stalled { removed: told, left: rest, stuck },
                    )
                    &&& told == removed
                    &&& rest == left
                    &&& stuck is Some
                    &&& crate::snap::is_managed_id(table, stuck->0)
                }
            }
        }),
{
    target_exists_while_some_remain(table, bag);
}

/// Giving goes on until all items were given: at most ten in a packet and forty-eight in a frame,
/// as many as there are. What the game refused ends the job with its own words, and so does an
/// item of no kind; the rest counts as given. Then three frames pass.
pub proof fn giving_goes_on(
    job: JobState,
    failure: Option<Seq<char>>,
    bag: Bag,
    table: Option<Map<u32, WeaponRow>>,
    level: u8,
)
    requires
        job.wf(),
        bag.wf(),
        job.phase == Phase::Give,
    ensures
        ({
            let (after, action) = stepped(job, failure, bag, table, level);
            let turn = job.turn + job.sent.len();
            let waiting = job.queue.len() - job.next;
            if job.sent.len() > 0 && failure is Some {
                action == ActionState::End(
                    EndState::GiveFailed {
                        error: failure->0,
                        removed: job.removed,
                        given: job.given,
                    },
                )
            } else {
                &&& after.given == job.given + job.sent.len()
                &&& waiting == 0 ==> action == ActionState::Stamp(job.placed + job.sent)
                    && after.phase == Phase::Settle && after.settle == 3
                &&& waiting > 0 && turn >= 48 ==> action is Yield && after.next == job.next
                &&& waiting > 0 && turn < 48 ==> action is Give || action is End
                &&& action matches ActionState::Give(entries) ==> {
                    &&& entries.len() <= 10 && entries.len() <= 48 - turn && entries.len()
                        <= waiting
                    &&& entries.len() == 10 || entries.len() == 48 - turn || entries.len()
                        == waiting
                    &&& after.sent.len() == entries.len()
                    &&& after.next == job.next + entries.len()
                }
                &&& action is End ==> exists|k: int|
                    job.next <= k < job.queue.len() && category_of(
                        (#[trigger] job.queue[k]).id,
                    ) is None
            }
        }),
{
    let now = JobState {
        placed: job.placed + job.sent,
        given: job.given + job.sent.len(),
        turn: job.turn + job.sent.len(),
        sent: seq![],
        ..job
    };
    let (after, action) = stepped(job, failure, bag, table, level);
    if !(job.sent.len() > 0 && failure is Some) && action is End {
        let batch = now.queue.subrange(now.next, now.next + batch_length(now));
        let i = choose|i: int|
            0 <= i < batch.len() && category_of((#[trigger] batch[i]).id) is None;
        assert(batch[i] == job.queue[job.next + i]);
        assert(category_of(job.queue[job.next + i].id) is None);
    }
}

/// What is noted of an item that was given is the id that it was given under, its ash of war, or
/// -1 where it has none, and the order number that it was saved with.
pub proof fn notes_tell_what_was_given(id: u32, quantity: u32, gem: u32, item: BagItem)
    ensures
        ({
            let (noted, ash, number) = note_of((id, quantity, gem), item);
            &&& noted == id
            &&& gem == 0xFFFF_FFFF ==> ash == -1
            &&& gem != 0xFFFF_FFFF ==> ash == gem
            &&& number == item.sort_id
        }),
{
}

/// Wearing takes up thirty-two slots in a frame, finishes a slot that waits for its placeholder in
/// any case, and goes on to the closing steps once no slot is left.
pub proof fn wearing_goes_on(
    job: JobState,
    failure: Option<Seq<char>>,
    bag: Bag,
    table: Option<Map<u32, WeaponRow>>,
    level: u8,
)
    requires
        job.wf(),
        bag.wf(),
        job.phase == Phase::Equip,
    ensures
        ({
            let (after, action) = stepped(job, failure, bag, table, level);
            let waits = failure is None && job.dressing.stage is Emptying;
            let left = job.dressing.slots.len() - job.dressing.next;
            &&& action is Yield <==> job.turn >= 32 && !waits
            &&& waits ==> after.turn == job.turn && after.dressing.next == job.dressing.next
            &&& !waits && job.turn < 32 && left > 0 ==> after.turn == job.turn + 1
                && after.dressing.next == job.dressing.next + 1
            &&& after.phase == Phase::Finish <==> !waits && job.turn < 32 && left == 0
        }),
{
}

/// Once everything is worn, the loose placeholders are cleared first; then the spells of the build
/// are written, where it has any; then the weapons are held, one in each hand and after that as
/// saved; then the talismans that were one of several are worn; the others are shown the outcome
/// last.
pub proof fn closing_steps_come_in_order(job: JobState)
    ensures
        ({
            let steps = closing(job);
            let n = steps.len();
            &&& steps[0] is ClearPlaceholders
            &&& job.magic.len() > 0 ==> n == 6 && steps[1] == ClosingState::WriteWheel(job.magic)
            &&& job.magic.len() == 0 ==> n == 5
            &&& steps[n - 4] matches ClosingState::Hold(change) && change.style
                == crate::equip::ArmStyle::OneHanded && !change.change_left && !change.change_right
            &&& steps[n - 3] == ClosingState::Hold(arm_change(job.arm_style))
            &&& steps[n - 2] == ClosingState::WearRanked(job.loadout)
            &&& steps[n - 1] is ShowOthers
        }),
{
}

/// Every closing step is asked for, one after the other; after the last one the job ends and tells
/// what was removed, given and worn.
pub proof fn every_closing_step_is_taken(
    job: JobState,
    failure: Option<Seq<char>>,
    bag: Bag,
    table: Option<Map<u32, WeaponRow>>,
    level: u8,
)
    requires
        job.wf(),
        bag.wf(),
        job.phase == Phase::Finish,
    ensures
        ({
            let (after, action) = stepped(job, failure, bag, table, level);
            &&& job.closed < closing(job).len() ==> action == ActionState::Close(
                closing(job)[job.closed],
            ) && after.closed == job.closed + 1
            &&& job.closed == closing(job).len() ==> action == ActionState::End(
                EndState::Synced {
                    removed: job.removed,
                    given: job.given,
                    equipped: job.dressing.done,
                },
            )
        }),
{
}

/// A job begins with clearing, with nothing removed, given or worn, and with all of the build
/// ahead of it: the goods of the missing spells are given first, then the items of the bag.
pub proof fn jobs_begin_with_the_whole_build(
    table: Option<Map<u32, WeaponRow>>,
    bag: Bag,
    left: int,
    items: Seq<BagItem>,
    loadout: Seq<LoadoutSlot>,
    magic: Seq<i32>,
    arm_style: u8,
)
    ensures
        ({
            let goods = missing(bag, magic);
            let copies = expanded(table, items, items.len() as int);
            let job = fresh(
                false,
                left,
                to_give(table, bag, magic, items),
                loadout,
                magic,
                arm_style,
            );
            &&& job.phase == Phase::Purge && !job.purge_only && !job.removing
            &&& job.removed == 0 && job.given == 0 && job.next == 0 && job.closed == 0
            &&& job.turn == 0 && job.stall == 0 && job.dressing.done == 0
            &&& job.last_remaining > left
            &&& job.queue.len() == goods.len() + copies.len()
            &&& forall|i: int| 0 <= i < goods.len() ==> job.queue[i] == goods[i]
            &&& forall|i: int|
                0 <= i < copies.len() ==> job.queue[goods.len() + i] == copies[i]
            &&& job.loadout == loadout
            &&& job.magic == magic
            &&& job.arm_style == arm_style
        }),
{
}

/// A job can be started only where the game's functions to remove, to give and to equip were all
/// found; of those that were not, the first in this order is named.
pub proof fn all_three_functions_are_needed(ready: Readiness)
    ensures
        unready(ready) is None <==> ready.remove && ready.give && ready.equip,
        unready(ready) == Some(StartError::RemoveItemMissing) <==> !ready.remove,
        unready(ready) == Some(StartError::ItemGiveMissing) <==> ready.remove && !ready.give,
        unready(ready) == Some(StartError::EquipGearMissing) <==> ready.remove && ready.give
            && !ready.equip,
{
}

} // verus!
