use erdueltools::item::{category, param_id, ItemCategory, WeaponTable};

#[test]
fn categories_stand_in_the_upper_bits() {
    assert_eq!(category(110_000), Some(ItemCategory::Weapon));
    assert_eq!(category(0x1000_2710), Some(ItemCategory::Protector));
    assert_eq!(category(0x2000_0001), Some(ItemCategory::Accessory));
    assert_eq!(category(0x4000_1A90), Some(ItemCategory::Goods));
    assert_eq!(category(0x8000_4E20), Some(ItemCategory::Gem));
    assert_eq!(category(0x3000_0000), None);
    assert_eq!(category(0xFFFF_FFFF), None);
    assert_eq!(param_id(0x1000_2710), 10_000);
    assert_eq!(param_id(0xFFFF_FFFF), 0x0FFF_FFFF);
}

#[test]
fn a_table_that_is_not_loaded_has_no_rows() {
    let table = WeaponTable { rows: None };
    assert!(!table.loaded());
    assert!(table.row(1_000_000).is_none());
}
