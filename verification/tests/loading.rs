use erdueltools::item::{Bag, WeaponTable};
use erdueltools::library::{active, create, delete, open, LibraryError, State};
use erdueltools::loading::{put_on, request, Request};
use erdueltools::snap::{BagItem, BuildSnapshot};
use erdueltools::stats::StatsSnapshot;
use erdueltools::sync::{is_busy, Phase};

fn build(id: u32) -> BuildSnapshot {
    BuildSnapshot {
        version: 11,
        bag: vec![BagItem { id, qty: 1, reinforce: 0, upgrade: 0, gem: -1, sort_id: 5 }],
        loadout: Vec::new(),
        magic: Vec::new(),
        arm_style: 1,
        stats: Some(StatsSnapshot::default()),
    }
}

fn bag() -> Bag {
    Bag { key_capacity: 10, keys: Vec::new(), normal: Vec::new(), normal_len: 0, next_sort_id: 1 }
}

fn two() -> State {
    let state =
        create(&open(None, None), "a".to_owned(), "A".to_owned(), false, &build(1_000_000)).unwrap();
    create(&state, "b".to_owned(), "B".to_owned(), false, &build(2_000_000)).unwrap()
}

#[test]
fn a_build_is_asked_for() {
    let state = two();
    assert!(matches!(request(&state, "a", true), Request::Busy));
    assert!(matches!(request(&state, "z", true), Request::Busy));
    match request(&state, "z", false) {
        Request::Refused(LibraryError::NotFound(id)) => assert_eq!(id, "z"),
        _ => panic!("not refused"),
    }
    match request(&state, "a", false) {
        Request::Read(file) => assert_eq!(file, "a.json"),
        _ => panic!("not read"),
    }
}

#[test]
fn a_build_that_is_put_on_is_active() {
    let table = WeaponTable { rows: None };
    let mut state = two();
    assert_eq!(active(Some(&state)), Some("b".to_owned()));
    let (job, done) = put_on(&mut state, "a", build(1_000_000), &bag(), &table);
    assert!(done.is_ok());
    assert_eq!(active(Some(&state)), Some("a".to_owned()));
    assert_eq!(job.phase, Phase::Purge);
    assert_eq!(job.queue, build(1_000_000).bag);
    assert!(is_busy(&Some(job)));
}

#[test]
fn a_deleted_build_is_put_on_without_being_active() {
    let table = WeaponTable { rows: None };
    let (mut state, _) = delete(&two(), "a").unwrap();
    let (job, done) = put_on(&mut state, "a", build(1_000_000), &bag(), &table);
    assert!(matches!(done, Err(LibraryError::NotFound(id)) if id == "a"));
    assert_eq!(active(Some(&state)), Some("b".to_owned()));
    assert_eq!(job.queue.len(), 1);
}
