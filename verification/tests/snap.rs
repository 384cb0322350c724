use erdueltools::equip::{ArmStyle, EquipError, Worn, WornSlot};
use erdueltools::item::{Bag, BagEntry, WeaponRow, WeaponTable};
use erdueltools::snap::{
    capture, capture_bag, count_bag, default_arm_style, default_gem, dump_inventory,
    expand_copies, gem_of_handle, is_ammo, is_managed, live_counts, load_slot, save_slot,
    snap_counts, stamp_sort_ids, BagItem, Gaitem, Gaitems, SlotError,
};
use erdueltools::stats::StatsSnapshot;
use erdueltools::tga::resolve_one;
use std::collections::HashMap;

const SWORD: u32 = 1_000_000;
const ARROW: u32 = 50_000_000;
const HELM: u32 = 0x1000_9C40;
const TALISMAN: u32 = 0x2000_03E8;

fn row(wep_type: u16, origin: i32) -> WeaponRow {
    WeaponRow { wep_type, origin_equip_wep: origin, origin_equip_wep1: 1, origin_equip_wep16: 1 }
}

fn table() -> WeaponTable {
    let mut rows = HashMap::new();
    rows.insert(SWORD, row(1, SWORD as i32));
    rows.insert(SWORD + 3, row(1, SWORD as i32));
    rows.insert(51_000_000, row(1, 51_000_000));
    rows.insert(2_000_000, row(81, 2_000_000));
    WeaponTable { rows: Some(rows) }
}

fn entry(item_id: u32, quantity: u32, sort_id: u32) -> Option<BagEntry> {
    Some(BagEntry { item_id, handle: item_id, quantity, sort_id, gem: -1 })
}

fn bag(normal: Vec<Option<BagEntry>>) -> Bag {
    let normal_len = normal.len() as u32;
    Bag { key_capacity: 384, keys: Vec::new(), normal, normal_len, next_sort_id: 7 }
}

fn item(id: u32, qty: u32, sort_id: u32) -> BagItem {
    BagItem { id, qty, reinforce: 0, upgrade: 0, gem: -1, sort_id }
}

fn naked() -> Worn {
    let bare = |id| WornSlot { id, handle: None, index: None, gem: -1 };
    Worn {
        weapons: [bare(Some(110_000)); 6],
        armor: [bare(Some(0x1000_2710)); 4],
        accessories: vec![bare(None); 4],
    }
}

#[test]
fn ammunition_is_told_by_type_or_row() {
    assert!(is_ammo(&table(), 2_000_000));
    assert!(!is_ammo(&table(), SWORD));
    assert!(!is_ammo(&table(), 51_000_000));
    assert!(is_ammo(&table(), ARROW));
    assert!(!is_ammo(&table(), HELM));
    let missing = WeaponTable { rows: None };
    assert!(is_ammo(&missing, 51_000_000));
    assert!(!is_ammo(&missing, 49_999_999));
}

#[test]
fn what_is_managed() {
    assert!(is_managed(&table(), SWORD));
    assert!(is_managed(&table(), HELM));
    assert!(is_managed(&table(), TALISMAN));
    assert!(is_managed(&table(), 110_000));
    assert!(!is_managed(&table(), 0));
    assert!(!is_managed(&table(), ARROW));
    assert!(!is_managed(&table(), 0x4000_1A90));
    assert!(!is_managed(&table(), 0x8000_4E20));
}

#[test]
fn ashes_are_found_through_their_instance() {
    let mut instances = HashMap::new();
    instances.insert(1, Gaitem { item_id: Some(SWORD), gem_handle: Some(2) });
    instances.insert(2, Gaitem { item_id: Some(0x8000_4E20), gem_handle: None });
    instances.insert(3, Gaitem { item_id: Some(SWORD), gem_handle: Some(0) });
    instances.insert(4, Gaitem { item_id: Some(SWORD), gem_handle: Some(9) });
    let gaitems = Gaitems { instances: Some(instances) };
    assert_eq!(gem_of_handle(&gaitems, 1), 0x8000_4E20);
    for handle in [2, 3, 4, 5] {
        assert_eq!(gem_of_handle(&gaitems, handle), -1);
    }
    assert_eq!(gem_of_handle(&Gaitems { instances: None }, 1), -1);
    assert_eq!(default_gem(), -1);
    assert_eq!(default_arm_style(), 1);
}

#[test]
fn a_bag_is_saved_in_order_of_acquisition() {
    let bag = bag(vec![
        entry(HELM, 1, 30),
        entry(SWORD + 3, 1, 10),
        None,
        entry(ARROW, 99, 5),
        entry(TALISMAN, 2, 20),
        entry(0x4000_1A90, 5, 1),
    ]);
    let saved = capture_bag(&table(), &bag);
    let ids: Vec<(u32, i32, u32)> = saved.iter().map(|i| (i.id, i.reinforce, i.sort_id)).collect();
    assert!(ids.starts_with(&[(SWORD, 3, 10), (TALISMAN, 0, 20)]));
    assert_eq!(ids.last(), Some(&(HELM, 0, 30)));
}

#[test]
fn a_build_is_saved_whole() {
    let bag = bag(vec![entry(SWORD, 1, 10)]);
    let wheel = vec![-1; 14];
    let build =
        capture(&table(), &bag, &naked(), &wheel, Some(ArmStyle::RightBothHands), StatsSnapshot::default())
            .unwrap();
    assert_eq!(build.version, 11);
    assert_eq!(build.bag, vec![item(SWORD, 1, 10)]);
    assert_eq!(build.loadout.len(), 14);
    assert_eq!(build.magic, wheel);
    assert_eq!(build.arm_style, 3);
    assert_eq!(build.stats, Some(StatsSnapshot::default()));
    let mut short = naked();
    short.accessories.clear();
    let refused = capture(&table(), &bag, &short, &wheel, None, StatsSnapshot::default());
    assert!(matches!(refused, Err(EquipError::CaptureFailed(10))));
}

#[test]
fn copies_are_given_one_by_one() {
    let saved = vec![item(SWORD, 2, 0), item(110_000, 1, 5), item(ARROW, 9, 6), item(HELM, 0, 40)];
    let single = expand_copies(&table(), &saved);
    assert_eq!(single, vec![item(SWORD, 1, 1000), item(SWORD, 1, 1001), item(HELM, 1, 40)]);
    assert_eq!(expand_copies(&table(), &single), single);
    assert!(expand_copies(&table(), &[item(0xF000_0000, 1, 1)]).is_empty());
}

#[test]
fn order_numbers_are_passed_on() {
    let mut bag = bag(vec![entry(SWORD, 1, 1), entry(SWORD, 1, 2), entry(HELM, 1, 3)]);
    stamp_sort_ids(&mut bag, &[(SWORD, -1, 500), (HELM, -1, 100), (SWORD, -1, 300), (TALISMAN, -1, 9)]);
    let numbers: Vec<u32> = bag.normal.iter().flatten().map(|e| e.sort_id).collect();
    assert_eq!(numbers, vec![500, 300, 100]);
    assert_eq!(bag.next_sort_id, 501);
    let mut empty = self::bag(vec![None]);
    stamp_sort_ids(&mut empty, &[]);
    assert_eq!(empty.next_sort_id, 1);
}

#[test]
fn the_number_of_nothing_does_not_count() {
    let mut bag = bag(vec![entry(SWORD, 1, u32::MAX), entry(HELM, 1, 3)]);
    stamp_sort_ids(&mut bag, &[]);
    assert_eq!(bag.next_sort_id, 4);
}

#[test]
fn pieces_are_counted() {
    let items = vec![item(SWORD, 2, 1), item(HELM, 1, 2), item(TALISMAN, 3, 3)];
    let counts = count_bag(&table(), &items);
    assert_eq!((counts.weapons, counts.armor, counts.talismans), (2, 1, 3));
    assert_eq!(counts.describe(), "武器 2 / 护甲 1 / 护符 3");
    let bag = bag(vec![entry(SWORD, 1, 10), None, entry(HELM, 1, 11)]);
    let live = live_counts(&table(), &bag);
    assert_eq!((live.weapons, live.armor, live.talismans), (1, 1, 0));
    let build = capture(&table(), &bag, &naked(), &vec![-1; 14], None, StatsSnapshot::default()).unwrap();
    assert_eq!(snap_counts(&table(), &build), live);
}

#[test]
fn a_bag_is_listed() {
    let mut with_gem = bag(vec![entry(SWORD, 1, 10), None, entry(ARROW, 99, 11)]);
    if let Some(sword) = &mut with_gem.normal[0] {
        sword.gem = 0x8000_4E20;
    }
    assert_eq!(
        dump_inventory(&table(), &with_gem),
        "普通格容量 3 已用 3 / 钥匙格容量 384\n\n普通格\t绝对索引\titem_id\t\t类别\t数量\t灰烬\t处理\n\
         0\t384\t0x000F4240\tWeapon\t1\t0x80004E20\t同步\n\
         2\t386\t0x02FAF080\tWeapon\t99\t-\t弹药-跳过\n",
    );
}

#[test]
fn numbered_slots_have_files() {
    assert_eq!(save_slot(0), Ok("bd1.json".to_owned()));
    assert_eq!(save_slot(2), Ok("bd3.json".to_owned()));
    assert_eq!(save_slot(3), Err(SlotError::Invalid));
    assert_eq!(load_slot(1, Some("{}".to_owned())), Ok("{}".to_owned()));
    assert_eq!(load_slot(1, None), Err(SlotError::Empty(1)));
    assert_eq!(load_slot(9, Some("{}".to_owned())), Err(SlotError::Invalid));
    assert_eq!(SlotError::Empty(1).message(), "槽 2 还没有存档");
    assert_eq!(SlotError::Invalid.message(), "槽位无效");
}

#[test]
fn a_saved_bag_is_given_again() {
    let mut held = bag(vec![
        entry(HELM, 1, 30),
        entry(SWORD + 3, 1, 10),
        entry(110_000, 1, 1),
        entry(TALISMAN, 2, 20),
        entry(ARROW, 99, 5),
    ]);
    if let Some(sword) = &mut held.normal[1] {
        sword.gem = 0x8000_4E20;
    }
    let saved = capture_bag(&table(), &held);
    let given: Vec<(u32, u32, u32)> = expand_copies(&table(), &saved)
        .iter()
        .map(|item| resolve_one(&table(), 25, item).unwrap())
        .collect();
    assert_eq!(
        given,
        vec![
            (SWORD + 3, 1, 0x8000_4E20),
            (TALISMAN, 1, 0xFFFF_FFFF),
            (TALISMAN, 1, 0xFFFF_FFFF),
            (HELM, 1, 0xFFFF_FFFF),
        ],
    );
}
