use erdueltools::item::{Bag, BagEntry, WeaponTable};
use erdueltools::magic::{
    apply, capture, charges_of, describe, goods_id, missing_goods, owns_goods, spell_gifts,
    SpellTable, Wheel, WheelEntry,
};
use std::collections::HashMap;

fn bag(ids: &[u32]) -> Bag {
    let normal: Vec<Option<BagEntry>> = ids
        .iter()
        .map(|id| Some(BagEntry { item_id: *id, handle: 0, quantity: 1, sort_id: 0, gem: -1 }))
        .collect();
    Bag { key_capacity: 1, keys: Vec::new(), normal_len: normal.len() as u32, normal, next_sort_id: 0 }
}

fn wheel() -> Wheel {
    Wheel { entries: vec![WheelEntry { param_id: 9, charges: 9 }; 14], selected_slot: 20, unlocked: 2 }
}

fn charges() -> SpellTable {
    let mut quantities = HashMap::new();
    quantities.insert(4000, 3);
    quantities.insert(4001, 0);
    SpellTable { quantities: Some(quantities) }
}

#[test]
fn wheels_are_saved_and_described() {
    let mut held = vec![-1; 14];
    held[0] = 4000;
    held[5] = 4001;
    let saved = capture(&held);
    assert_eq!(saved, held);
    assert_eq!(describe(&saved), "法术 2/14");
    assert_eq!(describe(&[]), "法术：无（请重新保存）");
}

#[test]
fn a_written_wheel_is_saved_as_it_was() {
    let mut held = vec![-1; 14];
    held[0] = 4000;
    held[5] = 4001;
    let mut wheel = wheel();
    assert_eq!(apply(&mut wheel, &charges(), &held), 2);
    assert_eq!(wheel.entries[0], WheelEntry { param_id: 4000, charges: 3 });
    assert_eq!(wheel.entries[1], WheelEntry { param_id: -1, charges: 0 });
    assert_eq!(wheel.entries[5], WheelEntry { param_id: 4001, charges: 1 });
    assert_eq!(wheel.unlocked, 6);
    assert_eq!(wheel.selected_slot, 0);
    let ids: Vec<i32> = wheel.entries.iter().map(|entry| entry.param_id).collect();
    assert_eq!(capture(&ids), held);
}

#[test]
fn no_slots_change_nothing() {
    let mut wheel = wheel();
    assert_eq!(apply(&mut wheel, &charges(), &[]), 0);
    assert_eq!(wheel.entries[0], WheelEntry { param_id: 9, charges: 9 });
    assert_eq!(wheel.selected_slot, 20);
    assert_eq!(wheel.unlocked, 2);
}

#[test]
fn charges_are_at_least_one() {
    assert_eq!(charges_of(&charges(), 4000), 3);
    assert_eq!(charges_of(&charges(), 4001), 1);
    assert_eq!(charges_of(&charges(), 7), 1);
    assert_eq!(charges_of(&SpellTable { quantities: None }, 4000), 1);
}

#[test]
fn missing_goods_are_listed_once() {
    let id = goods_id(4000);
    assert_eq!(id, 0x4000_0FA0);
    assert!(owns_goods(&bag(&[id]), id));
    assert!(!owns_goods(&bag(&[]), id));
    let missing = missing_goods(&bag(&[goods_id(4002)]), &[4000, -1, 4002, 4000, 4001]);
    let ids: Vec<u32> = missing.iter().map(|item| item.id).collect();
    assert_eq!(ids, vec![goods_id(4000), goods_id(4001)]);
    let table = WeaponTable { rows: None };
    let (gifts, all) = spell_gifts(&table, 25, &bag(&[]), &[4000]);
    assert_eq!(gifts, vec![(0x4000_0FA0, 1, 0xFFFF_FFFF)]);
    assert!(all);
}
