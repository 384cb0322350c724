use erdueltools::equip::{
    accessory_ordinal_of_slot, apply_arm_style, apply_loadout, apply_one,
    apply_saved_accessory_ordinals, arm_style_from_u8, capture_arm_style, capture_loadout,
    ensure_placeholder, equip_gear_call, equip_gear_ready, equip_gear_report, equipped_handles,
    find_inv_id, inventory_instances, is_empty_loadout, is_placeholder_item, loadout_describe,
    next_unequipped_bare, purge_placeholders, reset_arm_style_one_handed, sort_loadout_for_apply,
    unequip_all, unequip_slot_tga, weapon_sort_id_of_slot, ArmStyle, DressStep, EquipCall,
    EquipError, LoadoutSlot, Move, PurgeRun, UnequipRun, Wear, Worn, WornSlot,
};
use erdueltools::item::{Bag, BagEntry, ItemCategory};
use std::collections::HashSet;

const SWORD: u32 = 1_000_000;
const TALISMAN: u32 = 0x2000_03E8;
const HELM: u32 = 0x1000_9C40;

fn entry(item_id: u32, handle: u32, sort_id: u32, gem: i64) -> Option<BagEntry> {
    Some(BagEntry { item_id, handle, quantity: 1, sort_id, gem })
}

fn bag(normal: Vec<Option<BagEntry>>) -> Bag {
    let normal_len = normal.len() as u32;
    Bag { key_capacity: 384, keys: Vec::new(), normal, normal_len, next_sort_id: 9000 }
}

fn slot(place: u8, id: u32) -> LoadoutSlot {
    LoadoutSlot { slot: place, id, gem: -1, weapon_sort_id: None, accessory_ordinal: None }
}

fn bare(id: Option<u32>) -> WornSlot {
    WornSlot { id, handle: None, index: None, gem: -1 }
}

fn naked() -> Worn {
    Worn {
        weapons: [bare(Some(110_000)); 6],
        armor: [
            bare(Some(0x1000_2710)),
            bare(Some(0x1000_2774)),
            bare(Some(0x1000_27D8)),
            bare(Some(0x1000_283C)),
        ],
        accessories: vec![bare(None); 4],
    }
}

#[test]
fn empty_places_are_known() {
    assert!(is_empty_loadout(0, 110_000));
    assert!(is_empty_loadout(5, 0));
    assert!(!is_empty_loadout(0, SWORD));
    assert!(is_empty_loadout(12, 0x1000_2710));
    assert!(!is_empty_loadout(12, HELM));
    assert!(is_empty_loadout(17, 0xFFFF_FFFF));
    assert!(!is_empty_loadout(20, TALISMAN));
    assert!(is_empty_loadout(7, SWORD));
    assert!(is_placeholder_item(110_000));
    assert!(is_placeholder_item(0x1000_283C));
    assert!(!is_placeholder_item(SWORD));
}

#[test]
fn calls_take_the_fourteen_places() {
    let mut taken = Vec::new();
    for place in 0..=255u8 {
        match equip_gear_call(place, 7, 9) {
            Ok(call) => {
                assert_eq!(call, EquipCall { slot: place, item: 7, index: 9 });
                taken.push(place);
            }
            Err(error) => assert_eq!(error, EquipError::IllegalSlot(place)),
        }
    }
    assert_eq!(taken, vec![0, 1, 2, 3, 4, 5, 12, 13, 14, 15, 17, 18, 19, 20]);
    assert!(!equip_gear_ready(None));
    assert_eq!(equip_gear_report(None), "EquipGear：解析失败");
}

#[test]
fn instances_come_in_order_of_acquisition() {
    let bag = bag(vec![
        entry(TALISMAN, 11, 300, -1),
        None,
        entry(TALISMAN, 12, 100, -1),
        entry(SWORD, 13, 50, -1),
        entry(TALISMAN, 14, 100, -1),
    ]);
    let handles: Vec<u32> = inventory_instances(&bag, TALISMAN).iter().map(|i| i.handle).collect();
    assert_eq!(handles, vec![12, 14, 11]);
    let indices: Vec<u32> = inventory_instances(&bag, TALISMAN).iter().map(|i| i.index).collect();
    assert_eq!(indices, vec![386, 388, 384]);
    assert_eq!(accessory_ordinal_of_slot(&bag, TALISMAN, Some(388), Some(11)), Some(1));
    assert_eq!(accessory_ordinal_of_slot(&bag, TALISMAN, Some(1), Some(11)), Some(2));
    assert_eq!(accessory_ordinal_of_slot(&bag, TALISMAN, None, None), None);
    assert_eq!(accessory_ordinal_of_slot(&bag, SWORD, Some(387), Some(13)), None);
    assert_eq!(weapon_sort_id_of_slot(&bag, TALISMAN, Some(11)), Some(300));
    assert_eq!(weapon_sort_id_of_slot(&bag, SWORD, Some(13)), None);
    assert_eq!(find_inv_id(&bag, SWORD), Some((387, 13, 3)));
    assert_eq!(find_inv_id(&bag, HELM), None);
}

#[test]
fn a_slot_is_worn_as_saved() {
    let bag = bag(vec![
        entry(SWORD, 1, 10, -1),
        entry(SWORD, 2, 20, 5),
        entry(SWORD, 3, 30, 5),
        entry(HELM, 4, 40, -1),
    ]);
    let mut used = HashSet::new();
    let mut wanted = slot(0, SWORD);
    wanted.gem = 5;
    wanted.weapon_sort_id = Some(30);
    let call = EquipCall { slot: 0, item: 3, index: 386 };
    assert_eq!(apply_one(&bag, &wanted, &mut used), Ok(Wear::Equip(call)));
    // The same place is not used twice: any order number with this ash of war comes next.
    wanted.slot = 1;
    let call = EquipCall { slot: 1, item: 2, index: 385 };
    assert_eq!(apply_one(&bag, &wanted, &mut used), Ok(Wear::Equip(call)));
    wanted.slot = 2;
    let call = EquipCall { slot: 2, item: 1, index: 384 };
    assert_eq!(apply_one(&bag, &wanted, &mut used), Ok(Wear::Equip(call)));
    wanted.slot = 3;
    let refused = EquipError::NotInBag { slot: 3, id: SWORD, gem: 5 };
    assert_eq!(apply_one(&bag, &wanted, &mut used), Err(refused));
    assert_eq!(refused.message(), "槽 3 要装 0x000F4240 gem=5，物品栏里找不到");
    assert_eq!(used.len(), 3);
    assert_eq!(apply_one(&bag, &slot(1, 110_000), &mut used), Ok(Wear::Unequip(1)));
}

#[test]
fn wrong_slots_are_refused() {
    let bag = bag(vec![entry(HELM, 4, 40, -1), entry(0x5000_0001, 5, 50, -1)]);
    let mut used = HashSet::new();
    let wrong = EquipError::WrongCategory { slot: 0, category: ItemCategory::Protector };
    assert_eq!(apply_one(&bag, &slot(0, HELM), &mut used), Err(wrong));
    assert_eq!(wrong.message(), "槽 0 与类别 Protector 不匹配，已拒绝");
    let invalid = apply_one(&bag, &slot(2, 0x5000_0001), &mut used);
    assert_eq!(invalid, Err(EquipError::InvalidId(2)));
    assert_eq!(EquipError::InvalidId(2).message(), "槽 2 物品 id 无效");
}

#[test]
fn errors_have_messages() {
    assert_eq!(EquipError::IllegalSlot(6).message(), "非法穿戴槽 6");
    assert_eq!(EquipError::Unresolved.message(), "EquipGear 未解析");
    assert_eq!(EquipError::NoLoadout.message(), "存档没有穿戴数据，请先 Shift+F7 重新保存");
    assert_eq!(EquipError::PlaceholderMissing(110_000).message(), "占位物 0x0001ADB0 发放后仍找不到");
    let few = EquipError::TooFewTalismans { slot: 17, ordinal: 2, count: 1 };
    assert_eq!(few.message(), "护符槽 17 保存为同类第 3 件，当前只有 1 件");
    assert_eq!(EquipError::CaptureFailed(12).message(), "穿戴捕获异常：得到 12 格");
}

#[test]
fn placeholders_empty_a_place() {
    let empty = bag(vec![None]);
    let with_fist = bag(vec![None, entry(110_000, 77, 1, -1)]);
    assert_eq!(unequip_slot_tga(&empty, 3, false), Ok(Move::Give(110_000)));
    assert_eq!(unequip_slot_tga(&empty, 3, true), Err(EquipError::PlaceholderMissing(110_000)));
    let call = EquipCall { slot: 3, item: 110_000, index: 385 };
    assert_eq!(unequip_slot_tga(&with_fist, 3, true), Ok(Move::Call(call)));
    let nothing = EquipCall { slot: 18, item: 0xFFFF_FFFF, index: 0xFFFF_FFFF };
    assert_eq!(unequip_slot_tga(&empty, 18, false), Ok(Move::Call(nothing)));
    assert_eq!(unequip_slot_tga(&empty, 13, false), Ok(Move::Give(0x1000_2774)));
    assert_eq!(unequip_slot_tga(&empty, 9, false), Ok(Move::Nothing));
    assert_eq!(ensure_placeholder(&with_fist, 110_000, false), Ok(Some((385, 77, 1))));
    assert_eq!(ensure_placeholder(&empty, 110_000, false), Ok(None));
}

#[test]
fn everything_is_taken_off() {
    let mut bag = bag(Vec::new());
    let mut run = UnequipRun::new();
    let mut gifts = Vec::new();
    let mut places = Vec::new();
    while let Some(step) = unequip_all(&mut run, &bag) {
        match step.unwrap() {
            Move::Give(id) => {
                gifts.push(id);
                bag.normal.push(entry(id, id, 0, -1));
            }
            Move::Call(call) => places.push(call.slot),
            Move::Nothing => unreachable!(),
        }
    }
    assert_eq!(gifts, vec![110_000, 0x1000_2710, 0x1000_2774, 0x1000_27D8, 0x1000_283C]);
    assert_eq!(places, vec![0, 1, 2, 3, 4, 5, 12, 13, 14, 15, 17, 18, 19, 20]);
}

#[test]
fn what_is_worn_is_saved() {
    let bag = bag(vec![
        entry(SWORD, 1, 10, 5),
        entry(SWORD, 2, 20, -1),
        entry(TALISMAN, 3, 30, -1),
        entry(TALISMAN, 4, 25, -1),
    ]);
    let mut worn = naked();
    worn.weapons[1] = WornSlot { id: Some(SWORD), handle: Some(2), index: Some(385), gem: -1 };
    worn.accessories[2] = WornSlot { id: Some(TALISMAN), handle: Some(3), index: Some(386), gem: -1 };
    let saved = capture_loadout(&bag, &worn).unwrap();
    assert_eq!(saved.len(), 14);
    assert_eq!(saved[0], slot(0, 110_000));
    assert_eq!(saved[1].weapon_sort_id, Some(20));
    assert_eq!(saved[12].slot, 19);
    assert_eq!(saved[12].accessory_ordinal, Some(1));
    assert_eq!(saved[13].accessory_ordinal, None);
    assert_eq!(loadout_describe(&saved), "穿戴 武器1/6 护甲0/4 护符1/4");
    let none: Vec<LoadoutSlot> = Vec::new();
    assert_eq!(loadout_describe(&none), "穿戴：无（请重新保存）");
    // Worn again, the same instances are found.
    let mut used = HashSet::new();
    let again = EquipCall { slot: 1, item: 2, index: 385 };
    assert_eq!(apply_one(&bag, &saved[1], &mut used), Ok(Wear::Equip(again)));
    let mut at = 0;
    let ranked = apply_saved_accessory_ordinals(&saved, &mut at, &bag);
    assert_eq!(ranked, Some(Ok(EquipCall { slot: 19, item: 3, index: 386 })));
    assert_eq!(apply_saved_accessory_ordinals(&saved, &mut at, &bag), None);
}

#[test]
fn too_few_places_are_refused() {
    let bag = bag(Vec::new());
    let mut worn = naked();
    worn.accessories.pop();
    assert_eq!(capture_loadout(&bag, &worn), Err(EquipError::CaptureFailed(13)));
}

#[test]
fn too_few_talismans_are_told() {
    let bag = bag(vec![entry(TALISMAN, 3, 30, -1)]);
    let mut ranked = slot(17, TALISMAN);
    ranked.accessory_ordinal = Some(1);
    let mut at = 0;
    assert_eq!(
        apply_saved_accessory_ordinals(&[ranked], &mut at, &bag),
        Some(Err(EquipError::TooFewTalismans { slot: 17, ordinal: 1, count: 1 })),
    );
}

#[test]
fn empty_places_come_first() {
    let slots = vec![slot(0, SWORD), slot(12, 0x1000_2710), slot(1, 110_000), slot(17, TALISMAN)];
    let places: Vec<u8> = sort_loadout_for_apply(&slots).iter().map(|s| s.slot).collect();
    assert_eq!(places, vec![1, 12, 0, 17]);
}

#[test]
fn a_loadout_is_put_on() {
    let slots = vec![slot(0, SWORD), slot(1, 110_000), slot(2, HELM), slot(17, TALISMAN)];
    assert!(matches!(apply_loadout(&[], true), Err(EquipError::NoLoadout)));
    assert!(matches!(apply_loadout(&slots, false), Err(EquipError::Unresolved)));
    let mut run = apply_loadout(&slots, true).unwrap_or_else(|_| panic!("refused"));
    let mut bag = bag(vec![entry(SWORD, 1, 10, -1), entry(TALISMAN, 2, 20, -1)]);
    assert_eq!(run.step(None, &bag), DressStep::Give(110_000));
    bag.normal.push(entry(110_000, 9, 0, -1));
    let fist = EquipCall { slot: 1, item: 110_000, index: 386 };
    assert_eq!(run.step(None, &bag), DressStep::Call(fist));
    let sword = EquipCall { slot: 0, item: 1, index: 384 };
    assert_eq!(run.step(None, &bag), DressStep::Call(sword));
    let missing = EquipError::NotInBag { slot: 2, id: HELM, gem: -1 };
    assert_eq!(run.step(None, &bag), DressStep::Skipped(missing));
    let talisman = EquipCall { slot: 17, item: 2, index: 385 };
    assert_eq!(run.step(None, &bag), DressStep::Call(talisman));
    assert_eq!(run.step(Some("no".to_owned()), &bag), DressStep::Finished);
    assert_eq!(run.finish(), Ok(2));
    assert_eq!(run.errors, vec![missing.message(), "no".to_owned()]);
    assert_eq!(run.dressing.done as usize + run.errors.len(), slots.len());
}

#[test]
fn a_loadout_of_which_nothing_fits_fails() {
    let bag = bag(Vec::new());
    let slots = vec![slot(0, SWORD), slot(17, TALISMAN)];
    let mut run = apply_loadout(&slots, true).unwrap_or_else(|_| panic!("refused"));
    while run.step(None, &bag) != DressStep::Finished {}
    assert_eq!(
        run.finish(),
        Err("槽 0 要装 0x000F4240 gem=-1，物品栏里找不到\n槽 17 要装 0x200003E8 gem=-1，物品栏里找不到".to_owned()),
    );
}

#[test]
fn loose_placeholders_are_cleared() {
    let worn = equipped_handles(&vec![1, 0], &vec![2]);
    assert!(worn.contains(&1) && worn.contains(&2));
    let mut bag = bag(vec![
        entry(0x1000_2710, 1, 0, -1),
        entry(110_000, 8, 0, -1),
        entry(0x1000_2774, 3, 0, -1),
        entry(0x1000_27D8, 4, 0, -1),
    ]);
    assert_eq!(next_unequipped_bare(&bag, &worn), Some((386, 1)));
    let mut run = PurgeRun::new();
    assert_eq!(purge_placeholders(&mut run, false, &bag, &worn), Some((386, 1)));
    bag.normal[2] = None;
    assert_eq!(purge_placeholders(&mut run, false, &bag, &worn), Some((387, 1)));
    assert_eq!(purge_placeholders(&mut run, true, &bag, &worn), None);
    assert_eq!(run.removed, 1);
    assert_eq!(purge_placeholders(&mut run, false, &bag, &worn), None);
}

#[test]
fn clearing_gives_up_after_its_limit() {
    let worn = HashSet::new();
    let bag = bag(vec![entry(0x1000_2774, 3, 0, -1)]);
    let mut run = PurgeRun::new();
    let mut tries = 0;
    while purge_placeholders(&mut run, false, &bag, &worn).is_some() {
        tries += 1;
    }
    assert_eq!(tries, 32);
}

#[test]
fn ways_of_holding_have_numbers() {
    for number in 0..=255u8 {
        let style = arm_style_from_u8(number);
        let expected = if number <= 3 { number } else { 1 };
        assert_eq!(capture_arm_style(Some(style)), expected);
        let change = apply_arm_style(number);
        assert_eq!(change.style, style);
        assert_eq!(change.change_left, style == ArmStyle::LeftBothHands);
        assert_eq!(change.change_right, style == ArmStyle::RightBothHands);
    }
    assert_eq!(capture_arm_style(None), 1);
    let reset = reset_arm_style_one_handed();
    assert_eq!(reset.style, ArmStyle::OneHanded);
    assert!(!reset.change_left && !reset.change_right);
}
