use erdueltools::library::{
    active, bind, clear_combat, create, delete, load, open, overwrite, rename, set_active,
    set_care_enabled, snapshot_file, State,
};
use erdueltools::snap::BuildSnapshot;
use erdueltools::stats::StatsSnapshot;
use std::collections::HashMap;

fn build(level: u32) -> BuildSnapshot {
    BuildSnapshot {
        version: 11,
        bag: Vec::new(),
        loadout: Vec::new(),
        magic: vec![4000],
        arm_style: 2,
        stats: Some(StatsSnapshot { level, ..StatsSnapshot::default() }),
    }
}

/// A library with a folder.
struct Shelf {
    state: State,
    files: HashMap<String, BuildSnapshot>,
}

impl Shelf {
    fn new() -> Shelf {
        Shelf { state: open(None, None), files: HashMap::new() }
    }

    fn create(&mut self, id: &str, build: BuildSnapshot) -> bool {
        let file = snapshot_file(id);
        let exists = self.files.contains_key(&file);
        match create(&self.state, id.to_owned(), id.to_uppercase(), exists, &build) {
            Some(next) => {
                self.files.insert(file, build);
                self.state = next;
                true
            }
            None => false,
        }
    }

    fn overwrite(&mut self, id: &str, build: BuildSnapshot) {
        self.state = overwrite(&self.state, id, &build).unwrap();
        self.files.insert(snapshot_file(id), build);
    }

    fn delete(&mut self, id: &str) {
        self.state = delete(&self.state, id).unwrap().0;
        self.files.remove(&snapshot_file(id));
    }

    fn level(&self, id: &str) -> Option<u32> {
        let file = load(&self.state, id).ok()?;
        self.files.get(&file)?.stats.map(|stats| stats.level)
    }
}

#[test]
fn what_was_written_last_is_loaded() {
    let mut shelf = Shelf::new();
    assert!(shelf.create("a", build(1)));
    assert!(shelf.create("b", build(2)));
    assert!(!shelf.create("a", build(9)));
    assert_eq!((shelf.level("a"), shelf.level("b")), (Some(1), Some(2)));
    shelf.overwrite("a", build(3));
    assert_eq!((shelf.level("a"), shelf.level("b")), (Some(3), Some(2)));
    shelf.state = rename(&shelf.state, "a", "other").unwrap();
    shelf.state = bind(&shelf.state, 2, Some("a")).unwrap();
    shelf.state = clear_combat(&shelf.state, "a").unwrap();
    shelf.state = set_care_enabled(&shelf.state, true);
    shelf.delete("b");
    assert_eq!((shelf.level("a"), shelf.level("b")), (Some(3), None));
}

#[test]
fn a_file_without_an_entry_is_not_loaded() {
    let mut shelf = Shelf::new();
    shelf.files.insert(snapshot_file("stray"), build(5));
    assert_eq!(shelf.level("stray"), None);
    assert!(!shelf.create("stray", build(6)));
}

#[test]
fn the_build_touched_last_is_active() {
    let mut shelf = Shelf::new();
    assert!(shelf.create("a", build(1)));
    assert!(shelf.create("b", build(2)));
    assert_eq!(active(Some(&shelf.state)), Some("b".to_owned()));
    shelf.overwrite("a", build(3));
    shelf.state = rename(&shelf.state, "b", "other").unwrap();
    assert_eq!(active(Some(&shelf.state)), Some("a".to_owned()));
    assert!(set_active(&mut shelf.state, "b").is_ok());
    shelf.delete("a");
    assert_eq!(active(Some(&shelf.state)), Some("b".to_owned()));
    shelf.delete("b");
    assert_eq!(active(Some(&shelf.state)), None);
}
