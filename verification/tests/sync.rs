use erdueltools::equip::{ArmStyle, LoadoutSlot};
use erdueltools::item::{Bag, BagEntry, WeaponTable};
use erdueltools::snap::{stamp_sort_ids, BagItem, BuildSnapshot};
use erdueltools::stats::StatsSnapshot;
use erdueltools::sync::{
    begin, begin_purge_only, closing_steps, is_busy, poll, start, start_purge_only, Action, Closing,
    Ending, Job, Readiness, StartError,
};

const SWORD: u32 = 1_000_000;
const TALISMAN: u32 = 0x2000_03E8;

fn table() -> WeaponTable {
    WeaponTable { rows: None }
}

fn bag() -> Bag {
    Bag {
        key_capacity: 10,
        keys: Vec::new(),
        normal: Vec::new(),
        normal_len: 0,
        next_sort_id: 1,
    }
}

fn item(id: u32, sort_id: u32) -> BagItem {
    BagItem { id, qty: 1, reinforce: 0, upgrade: 0, gem: -1, sort_id }
}

fn slot(place: u8, id: u32) -> LoadoutSlot {
    LoadoutSlot { slot: place, id, gem: -1, weapon_sort_id: None, accessory_ordinal: None }
}

fn build() -> BuildSnapshot {
    BuildSnapshot {
        version: 11,
        bag: vec![item(SWORD, 300), item(SWORD, 100), item(TALISMAN, 200)],
        loadout: vec![slot(0, SWORD), slot(1, 110_000), slot(17, TALISMAN)],
        magic: vec![4000],
        arm_style: 1,
        stats: Some(StatsSnapshot::default()),
    }
}

/// A game that gives, removes and equips.
struct Game {
    bag: Bag,
    handle: u32,
    worn: Vec<(u8, u32)>,
    frames: u32,
    stubborn: bool,
    fail_gifts: bool,
    closed: Vec<Closing>,
}

impl Game {
    fn new() -> Game {
        Game {
            bag: bag(),
            handle: 1000,
            worn: Vec::new(),
            frames: 0,
            stubborn: false,
            fail_gifts: false,
            closed: Vec::new(),
        }
    }

    fn add(&mut self, id: u32) {
        self.handle += 1;
        let sort_id = self.bag.next_sort_id;
        self.bag.next_sort_id += 1;
        let handle = self.handle;
        self.bag.normal.push(Some(BagEntry { item_id: id, handle, quantity: 1, sort_id, gem: -1 }));
        self.bag.normal_len += 1;
    }

    fn run(&mut self, job: &mut Job) -> Ending {
        let mut failure = None;
        for _ in 0..100_000 {
            let action = poll(job, failure.take(), &self.bag, &table(), 25);
            match action {
                Action::Remove { index, count } => {
                    assert_eq!(count, 1);
                    if !self.stubborn {
                        self.bag.normal[(index - self.bag.key_capacity) as usize] = None;
                    }
                }
                Action::StartGiving | Action::Proceed | Action::Skip(_) => {}
                Action::Close(step) => self.closed.push(step),
                Action::Give(entries) => {
                    assert!(entries.len() <= 10);
                    if self.fail_gifts {
                        failure = Some("refused".to_owned());
                    } else {
                        for (id, quantity, _) in entries {
                            assert_eq!(quantity, 1);
                            self.add(id);
                        }
                    }
                }
                Action::Stamp(given) => {
                    stamp_sort_ids(&mut self.bag, &given);
                    self.frames += 1;
                    job.begin_frame();
                }
                Action::GivePlaceholder(id) => self.add(id),
                Action::Equip(call) => self.worn.push((call.slot, call.item)),
                Action::Yield => {
                    self.frames += 1;
                    job.begin_frame();
                }
                Action::End(ending) => return ending,
            }
        }
        panic!("the job does not end");
    }
}

#[test]
fn a_build_is_put_on() {
    let mut game = Game::new();
    for _ in 0..5 {
        game.add(2_000_000);
    }
    game.add(0x4000_1A90);
    let mut job = begin(build(), &game.bag, &table());
    match game.run(&mut job) {
        Ending::Synced { removed, given, equipped } => {
            assert_eq!((removed, given, equipped), (5, 4, 3));
        }
        _ => panic!("not put on"),
    }
    let held: Vec<u32> = game.bag.normal.iter().flatten().map(|entry| entry.item_id).collect();
    assert_eq!(held, vec![0x4000_1A90, 0x4000_0FA0, SWORD, SWORD, TALISMAN, 110_000]);
    let places: Vec<u8> = game.worn.iter().map(|(place, _)| *place).collect();
    assert_eq!(places, vec![1, 0, 17]);
    // The items carry their saved order numbers.
    let swords: Vec<u32> =
        game.bag.normal.iter().flatten().filter(|e| e.item_id == SWORD).map(|e| e.sort_id).collect();
    assert_eq!(swords, vec![300, 100]);
    assert_eq!(game.closed.len(), 6);
    assert!(matches!(game.closed[0], Closing::ClearPlaceholders));
    match &game.closed[1] {
        Closing::WriteWheel(magic) => assert_eq!(*magic, vec![4000]),
        _ => panic!("no wheel"),
    }
    for step in &game.closed[2..4] {
        match step {
            Closing::Hold(change) => assert_eq!(change.style, ArmStyle::OneHanded),
            _ => panic!("not held"),
        }
    }
    match &game.closed[4] {
        Closing::WearRanked(slots) => assert_eq!(*slots, build().loadout),
        _ => panic!("no talismans"),
    }
    assert!(matches!(game.closed[5], Closing::ShowOthers));
}

#[test]
fn a_build_without_a_wheel_writes_none() {
    let mut plain = build();
    plain.magic.clear();
    plain.arm_style = 2;
    let job = begin(plain, &bag(), &table());
    let steps = closing_steps(&job);
    assert_eq!(steps.len(), 5);
    match (&steps[1], &steps[2]) {
        (Closing::Hold(first), Closing::Hold(then)) => {
            assert_eq!((first.style, first.change_left), (ArmStyle::OneHanded, false));
            assert_eq!((then.style, then.change_left), (ArmStyle::LeftBothHands, true));
        }
        _ => panic!("not held"),
    }
    assert!(matches!(steps[4], Closing::ShowOthers));
}

#[test]
fn clearing_only_clears() {
    let mut game = Game::new();
    for _ in 0..200 {
        game.add(SWORD);
    }
    let mut job = begin_purge_only(&game.bag, &table());
    match game.run(&mut job) {
        Ending::PurgeDone { removed } => assert_eq!(removed, 200),
        _ => panic!("not cleared"),
    }
    assert_eq!(game.frames, 2);
    assert!(game.worn.is_empty() && game.closed.is_empty());
    assert!(game.bag.normal.iter().all(|entry| entry.is_none()));
}

#[test]
fn a_bag_that_does_not_change_ends_the_job() {
    let mut game = Game::new();
    game.add(SWORD);
    game.stubborn = true;
    let mut job = begin(build(), &game.bag, &table());
    match game.run(&mut job) {
        Ending::Stalled { left, stuck, .. } => assert_eq!((left, stuck), (1, Some(SWORD))),
        _ => panic!("not stalled"),
    }
}

#[test]
fn a_failed_removal_ends_the_job() {
    let mut game = Game::new();
    game.add(SWORD);
    let mut job = begin(build(), &game.bag, &table());
    assert!(matches!(poll(&mut job, None, &game.bag, &table(), 25), Action::Remove { .. }));
    let action = poll(&mut job, Some("x".to_owned()), &game.bag, &table(), 25);
    assert!(matches!(action, Action::End(Ending::DeleteFailed { removed: 0 })));
}

#[test]
fn the_count_of_removals_starts_over() {
    let mut game = Game::new();
    game.add(SWORD);
    let mut job = begin_purge_only(&game.bag, &table());
    job.removed = u32::MAX;
    match game.run(&mut job) {
        Ending::PurgeDone { removed } => assert_eq!(removed, 0),
        _ => panic!("not cleared"),
    }
}

#[test]
fn a_failed_gift_ends_the_job() {
    let mut game = Game::new();
    game.fail_gifts = true;
    let mut job = begin(build(), &game.bag, &table());
    match game.run(&mut job) {
        Ending::GiveFailed { error, removed, given } => {
            assert_eq!((error.as_str(), removed, given), ("refused", 0, 0));
        }
        _ => panic!("not refused"),
    }
}

#[test]
fn many_items_take_several_frames() {
    let mut game = Game::new();
    let mut many = build();
    many.magic.clear();
    many.bag = (0..100u32).map(|n| item(SWORD, n + 1)).collect();
    let mut job = begin(many, &game.bag, &table());
    match game.run(&mut job) {
        Ending::Synced { given, .. } => assert_eq!(given, 100),
        _ => panic!("not put on"),
    }
    // Two full frames of gifts, the end of giving, and three frames of waiting.
    assert_eq!(game.frames, 2 + 1 + 3);
}

#[test]
fn starting_has_conditions() {
    let ready = Readiness { remove: true, give: true, equip: true };
    let full = build();
    let go = start(false, &ready, &full);
    assert_eq!(go.error, None);
    assert_eq!(go.stats, full.stats);
    assert_eq!(start(true, &ready, &full).error, Some(StartError::StillRunning));
    let cases = [
        (Readiness { remove: false, give: false, equip: false }, StartError::RemoveItemMissing),
        (Readiness { remove: true, give: false, equip: false }, StartError::ItemGiveMissing),
        (Readiness { remove: true, give: true, equip: false }, StartError::EquipGearMissing),
    ];
    for (missing, error) in cases {
        assert_eq!(start(false, &missing, &full).error, Some(error));
        assert_eq!(start_purge_only(false, &missing), Some(error));
    }
    let mut without_stats = build();
    without_stats.stats = None;
    assert_eq!(start(false, &ready, &without_stats).error, Some(StartError::NoStats));
    let mut naked = build();
    naked.loadout.clear();
    let partial = start(false, &ready, &naked);
    assert_eq!(partial.error, Some(StartError::NoLoadout));
    assert_eq!(partial.stats, naked.stats);
    assert_eq!(start_purge_only(true, &ready), Some(StartError::Busy));
    assert_eq!(start_purge_only(false, &ready), None);
    assert!(!is_busy(&None));
    assert!(is_busy(&Some(begin_purge_only(&bag(), &table()))));
}
