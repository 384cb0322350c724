//! Item ids, the weapon parameter table, and the bag, as plain values.
//!
//! An item id holds its category in the upper four bits and the row of the category's
//! parameter table in the lower twenty-eight.

use std::collections::HashMap;

use vstd::prelude::*;

verus! {

broadcast use vstd::std_specs::hash::group_hash_axioms;

/// The categories that have a parameter table.
#[derive(Clone, Copy, Debug, PartialEq, Eq, Structural)]
pub enum ItemCategory {
    Weapon,
    Protector,
    Accessory,
    Goods,
    Gem,
}

/// One more than the largest parameter id.
pub const PARAM_SPAN: u32 = 0x1000_0000;

/// The category of an id, where it has a known one.
pub open spec fn category_of(id: u32) -> Option<ItemCategory> {
    let top = id / PARAM_SPAN;
    if top == 0 {
        Some(ItemCategory::Weapon)
    } else if top == 1 {
        Some(ItemCategory::Protector)
    } else if top == 2 {
        Some(ItemCategory::Accessory)
    } else if top == 4 {
        Some(ItemCategory::Goods)
    } else if top == 8 {
        Some(ItemCategory::Gem)
    } else {
        None
    }
}

/// The parameter row that an id names.
pub open spec fn param_of(id: u32) -> u32 {
    id % PARAM_SPAN
}

/// The category of `id`; `None` where the upper bits name none.
pub fn category(id: u32) -> (category: Option<ItemCategory>)
    ensures
        category == category_of(id),
{
    let top: u32 = id / PARAM_SPAN;
    if top == 0 {
        Some(ItemCategory::Weapon)
    } else if top == 1 {
        Some(ItemCategory::Protector)
    } else if top == 2 {
        Some(ItemCategory::Accessory)
    } else if top == 4 {
        Some(ItemCategory::Goods)
    } else if top == 8 {
        Some(ItemCategory::Gem)
    } else {
        None
    }
}

/// The parameter row of `id`.
pub fn param_id(id: u32) -> (row: u32)
    ensures
        row == param_of(id),
{
    id % PARAM_SPAN
}

/// What the library reads of one row of the weapon table.
#[derive(Clone, Copy, Debug, PartialEq, Eq, Structural)]
pub struct WeaponRow {
    pub wep_type: u16,
    /// The row of this weapon without any reinforcement; negative where there is none.
    pub origin_equip_wep: i32,
    /// The row that the first reinforcement comes from; -1 where the weapon takes none.
    pub origin_equip_wep1: i32,
    /// The row that the sixteenth reinforcement comes from; -1 where the weapon stops at ten.
    pub origin_equip_wep16: i32,
}

/// The weapon table, or `None` while the game has not loaded its parameters.
pub struct WeaponTable {
    pub rows: Option<HashMap<u32, WeaponRow>>,
}

impl View for WeaponTable {
    type V = Option<Map<u32, WeaponRow>>;

    open spec fn view(&self) -> Option<Map<u32, WeaponRow>> {
        match self.rows {
            Some(rows) => Some(rows@),
            None => None,
        }
    }
}

/// The row `id` of a table that may be missing.
pub open spec fn row_of(table: Option<Map<u32, WeaponRow>>, id: u32) -> Option<WeaponRow> {
    match table {
        Some(rows) if rows.contains_key(id) => Some(rows[id]),
        _ => None,
    }
}

impl WeaponTable {
    /// The row `id`, where the table is loaded and holds it.
    pub fn row(&self, id: u32) -> (row: Option<WeaponRow>)
        ensures
            row == row_of(self@, id),
    {
        match &self.rows {
            Some(rows) => match rows.get(&id) {
                Some(row) => Some(*row),
                None => None,
            },
            None => None,
        }
    }

    /// Whether the game has loaded the table.
    pub fn loaded(&self) -> (loaded: bool)
        ensures
            loaded == self@.is_some(),
    {
        self.rows.is_some()
    }
}

/// One filled place of the bag.
#[derive(Clone, Copy, Debug, PartialEq, Eq, Structural)]
pub struct BagEntry {
    pub item_id: u32,
    /// The handle of the item's instance.
    pub handle: u32,
    pub quantity: u32,
    /// The place in the order of acquisition.
    pub sort_id: u32,
    /// The item id of the ash of war on the instance; -1 for none.
    pub gem: i64,
}

/// The bag: key items first, then the places of the normal list.
#[derive(Debug)]
pub struct Bag {
    /// How many absolute indices come before the first normal place.
    pub key_capacity: u32,
    /// The key items.
    pub keys: Vec<BagEntry>,
    /// The places of the normal list, filled or empty.
    pub normal: Vec<Option<BagEntry>>,
    /// How many places of the normal list are in use.
    pub normal_len: u32,
    /// The order number that the next acquired item gets.
    pub next_sort_id: u32,
}

impl Bag {
    /// Every normal place has an absolute index.
    pub open spec fn wf(&self) -> bool {
        self.key_capacity + self.normal@.len() <= u32::MAX
    }

    /// The absolute index of normal place `i`.
    pub open spec fn absolute(&self, i: int) -> int {
        self.key_capacity + i
    }
}

/// The upper four bits of an id name its category, and the lower ones its row.
pub proof fn ids_name_category_and_row(id: u32)
    ensures
        id < 0x1000_0000 <==> category_of(id) == Some(ItemCategory::Weapon),
        0x1000_0000 <= id < 0x2000_0000 <==> category_of(id) == Some(ItemCategory::Protector),
        0x2000_0000 <= id < 0x3000_0000 <==> category_of(id) == Some(ItemCategory::Accessory),
        0x4000_0000 <= id < 0x5000_0000 <==> category_of(id) == Some(ItemCategory::Goods),
        0x8000_0000 <= id < 0x9000_0000 <==> category_of(id) == Some(ItemCategory::Gem),
        param_of(id) < 0x1000_0000,
        exists|kind: int| 0 <= kind < 16 && id == #[trigger] (kind * 0x1000_0000) + param_of(id),
{
    let kind = id as int / 0x1000_0000;
    assert(id == (kind * 0x1000_0000) + param_of(id));
}

} // verus!
