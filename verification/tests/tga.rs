use erdueltools::item::{WeaponRow, WeaponTable};
use erdueltools::snap::BagItem;
use erdueltools::tga::{
    apply_reinforce, decode_weapon, gem_u32, give_batch, give_one, player_reinforce_lv,
    ready_report, resolve_one, GiveError,
};
use std::collections::HashMap;

fn row(origin: i32, first: i32, sixteenth: i32) -> WeaponRow {
    WeaponRow {
        wep_type: 1,
        origin_equip_wep: origin,
        origin_equip_wep1: first,
        origin_equip_wep16: sixteenth,
    }
}

/// A weapon 1000000 that is reinforced to 25, with two affinities, and one 2000000 that stops
/// at 10.
fn table() -> WeaponTable {
    let mut rows = HashMap::new();
    for affinity in [0u32, 100, 1200] {
        for level in 0..=25u32 {
            let origin = 1_000_000 + affinity;
            rows.insert(origin + level, row(origin as i32, 1, 1));
        }
    }
    for level in 0..=10u32 {
        rows.insert(2_000_000 + level, row(2_000_000, 1, -1));
    }
    rows.insert(3_000_000, row(3_000_000, -1, -1));
    WeaponTable { rows: Some(rows) }
}

fn item(id: u32, reinforce: i32, upgrade: i32, gem: i64) -> BagItem {
    BagItem { id, qty: 1, reinforce, upgrade, gem, sort_id: 0 }
}

#[test]
fn a_finished_weapon_comes_apart() {
    let table = table();
    assert_eq!(decode_weapon(&table, 1_000_000, -1), item(1_000_000, 0, 0, -1));
    assert_eq!(decode_weapon(&table, 1_000_025, -1), item(1_000_000, 25, 0, -1));
    assert_eq!(decode_weapon(&table, 1_000_112, 7), item(1_000_000, 12, 100, 7));
    assert_eq!(decode_weapon(&table, 1_001_203, -1), item(1_000_000, 3, 1200, -1));
    assert_eq!(decode_weapon(&table, 2_000_010, -1), item(2_000_000, 10, 0, -1));
}

#[test]
fn what_is_no_known_weapon_stays_whole() {
    let table = table();
    assert_eq!(decode_weapon(&table, 9_000_000, 5), BagItem::exact(9_000_000, 1, 5));
    assert_eq!(decode_weapon(&table, 0x1000_2710, -1), BagItem::exact(0x1000_2710, 1, -1));
    assert_eq!(decode_weapon(&table, 0xFFFF_FFFF, -1), BagItem::exact(0xFFFF_FFFF, 1, -1));
    let missing = WeaponTable { rows: None };
    assert_eq!(decode_weapon(&missing, 1_000_012, -1), BagItem::exact(1_000_012, 1, -1));
    assert_eq!(BagItem::exact(4, 0, -1).qty, 1);
}

#[test]
fn a_decoded_weapon_is_given_under_its_id() {
    let table = table();
    for id in [1_000_000u32, 1_000_025, 1_000_112, 1_001_203, 2_000_000, 3_000_000] {
        let decoded = decode_weapon(&table, id, -1);
        assert_eq!(resolve_one(&table, 7, &decoded), Some((id, 1, 0xFFFF_FFFF)));
    }
}

#[test]
fn a_weapon_that_stops_at_ten_keeps_its_level() {
    let table = table();
    for level in 0..=10u32 {
        let decoded = decode_weapon(&table, 2_000_000 + level, 7);
        assert_eq!(resolve_one(&table, 25, &decoded), Some((2_000_000 + level, 1, 7)));
        assert_eq!(apply_reinforce(2_000_000, level as i32, row(0, 1, -1), 25), 2_000_000 + level);
    }
}

#[test]
fn the_level_of_the_player_folds_onto_ten() {
    let ten = row(0, 1, -1);
    for level in 0..=25u8 {
        let folded = ((level as f32 + 0.5) / 2.5).floor() as u32;
        assert_eq!(apply_reinforce(2_000_000, -1, ten, level), 2_000_000 + folded);
    }
    assert_eq!(apply_reinforce(2_000_000, -1, ten, 25), 2_000_010);
    assert_eq!(apply_reinforce(1_000_000, -1, row(0, 1, 1), 9), 1_000_009);
    assert_eq!(apply_reinforce(1_000_000, 26, row(0, 1, 1), 9), 1_000_009);
    assert_eq!(apply_reinforce(1_000_000, 25, row(0, -1, 1), 9), 1_000_000);
}

#[test]
fn other_categories_are_given_as_they_are() {
    let table = table();
    let mut goods = item(0x4000_1A90, 5, 100, 12);
    goods.qty = 99;
    assert_eq!(resolve_one(&table, 7, &goods), Some((0x4000_1A90, 99, 0xFFFF_FFFF)));
    assert_eq!(resolve_one(&table, 7, &item(0x1000_2710, 5, 100, -1)), Some((0x1000_2710, 1, 0xFFFF_FFFF)));
    assert_eq!(resolve_one(&table, 7, &item(0xF000_0000, 0, 0, -1)), None);
}

#[test]
fn ashes_of_war_become_words() {
    assert_eq!(gem_u32(-1), 0xFFFF_FFFF);
    assert_eq!(gem_u32(i64::MIN), 0xFFFF_FFFF);
    assert_eq!(gem_u32(0x8000_4E20), 0x8000_4E20);
    assert_eq!(gem_u32(0x1_0000_0005), 5);
    assert_eq!(player_reinforce_lv(None), 25);
    assert_eq!(player_reinforce_lv(Some(3)), 3);
}

#[test]
fn a_batch_holds_up_to_ten() {
    let table = table();
    let weapon = item(1_000_000, 2, 0, -1);
    let ten = vec![weapon; 10];
    let entries = give_batch(&table, 7, &ten).unwrap();
    assert_eq!(entries, vec![(1_000_002, 1, 0xFFFF_FFFF); 10]);
    let eleven = vec![weapon; 11];
    let refused = give_batch(&table, 7, &eleven).unwrap_err();
    assert_eq!(refused, GiveError::TooLong(11));
    assert_eq!(refused.message(), "批次过长：11");
    let none: Vec<BagItem> = Vec::new();
    assert!(give_batch(&table, 7, &none).unwrap().is_empty());
}

#[test]
fn an_invalid_item_is_refused() {
    let table = table();
    let bad = item(0xF000_0000, 0, 0, -1);
    let mixed = vec![item(1_000_000, 0, 0, -1), bad];
    assert_eq!(give_one(&table, 7, &bad), Err(GiveError::InvalidItem));
    assert_eq!(GiveError::InvalidItem.message(), "物品无效");
    assert_eq!(give_batch(&table, 7, &mixed), Err(GiveError::InvalidItem));
}

#[test]
fn readiness_is_told() {
    assert_eq!(ready_report(true, false), "TGA 发放：ItemGive 已解析 / MapItemMan 未就绪");
    assert_eq!(ready_report(false, true), "TGA 发放：ItemGive 未解析 / MapItemMan 就绪");
}
