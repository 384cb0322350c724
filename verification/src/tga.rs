//! Taking weapon ids apart and putting them together, and the batches of items to give.

use vstd::prelude::*;

use crate::item::{category, category_of, param_id, param_of, row_of, ItemCategory, WeaponRow, WeaponTable};
use crate::snap::{exact_item, BagItem};
use crate::text::{decimal, push_decimal};

verus! {

/// No ash of war, in the form that the game takes.
pub const NO_GEM: u32 = 0xFFFF_FFFF;

/// The most items that the game takes in one call.
pub const BATCH_LIMIT: usize = 10;

/// How far row `param` is reinforced above its origin; 0 where that is out of range.
pub open spec fn reinforcement(row: WeaponRow, param: u32) -> int {
    let above = param - row.origin_equip_wep;
    if row.origin_equip_wep >= 0 && 0 <= above <= 25 {
        above
    } else {
        0
    }
}

/// The largest affinity offset, of `a` and the smaller multiples of 100, below which a row exists.
pub open spec fn affinity_from(rows: Map<u32, WeaponRow>, plus0: u32, a: int) -> int
    decreases a + 100,
{
    if a <= 0 {
        0
    } else if plus0 >= a && rows.contains_key((plus0 - a) as u32) {
        a
    } else {
        affinity_from(rows, plus0, a - 100)
    }
}

/// A finished weapon id taken apart; a finished item where the id is not a weapon in the table.
pub open spec fn decoded(table: Option<Map<u32, WeaponRow>>, full_id: u32, gem: i64) -> BagItem {
    let param = param_of(full_id);
    match row_of(table, param) {
        Some(row) if category_of(full_id) == Some(ItemCategory::Weapon) => {
            let reinforce = reinforcement(row, param);
            let plus0 = (param - reinforce) as u32;
            let affinity = affinity_from(table->0, plus0, 1200);
            BagItem {
                id: (plus0 - affinity) as u32,
                qty: 1,
                reinforce: reinforce as i32,
                upgrade: affinity as i32,
                gem,
                sort_id: 0,
            }
        },
        _ => exact_item(full_id, 1, gem),
    }
}

/// Takes a weapon's finished id apart into base id, reinforcement and affinity.
pub fn decode_weapon(table: &WeaponTable, full_id: u32, gem: i64) -> (item: BagItem)
    ensures
        item == decoded(table@, full_id, gem),
{
    match category(full_id) {
        Some(ItemCategory::Weapon) => {},
        _ => {
            return BagItem::exact(full_id, 1, gem);
        },
    }
    let param: u32 = param_id(full_id);
    let row = match table.row(param) {
        Some(row) => row,
        None => {
            return BagItem::exact(full_id, 1, gem);
        },
    };
    let origin: i32 = row.origin_equip_wep;
    let mut reinforce: i32 = 0;
    if origin >= 0 {
        let above: i32 = param as i32 - origin;
        if 0 <= above && above <= 25 {
            reinforce = above;
        }
    }
    let plus0: u32 = param - reinforce as u32;
    let mut affinity: u32 = 1200;
    while affinity > 0
        invariant
            affinity <= 1200,
            affinity % 100 == 0,
            plus0 < crate::item::PARAM_SPAN,
            table@.is_some(),
            affinity_from(table@->0, plus0, 1200) == affinity_from(
                table@->0,
                plus0,
                affinity as int,
            ),
        ensures
            affinity_from(table@->0, plus0, 1200) == affinity,
            affinity <= plus0,
            affinity <= 1200,
        decreases affinity,
    {
        if plus0 >= affinity && table.row(plus0 - affinity).is_some() {
            break;
        }
        affinity = affinity - 100;
    }
    BagItem { id: plus0 - affinity, qty: 1, reinforce, upgrade: affinity as i32, gem, sort_id: 0 }
}

/// The ash of war in the form that the game takes.
pub open spec fn gem_word(gem: i64) -> u32 {
    if gem < 0 {
        NO_GEM
    } else {
        (gem as int % 0x1_0000_0000) as u32
    }
}

/// The ash of war in the form that the game takes.
pub fn gem_u32(gem: i64) -> (word: u32)
    ensures
        word == gem_word(gem),
{
    if gem < 0 {
        NO_GEM
    } else {
        (gem as u64 % 0x1_0000_0000) as u32
    }
}

/// The level that stands in for a missing reinforcement: 25 until the player's data is there.
pub fn player_reinforce_lv(matching_weapon_level: Option<u8>) -> (level: u8)
    ensures
        level == matching_weapon_level.unwrap_or(25),
{
    match matching_weapon_level {
        Some(level) => level,
        None => 25,
    }
}

/// How much a reinforcement of `input` adds to the id of a weapon of this row.
///
/// A recorded level is the weapon's own and is added as it is. The player's level, which stands
/// in for a missing one, is on the scale to 25, so it folds onto the scale of the row.
pub open spec fn reinforce_steps(row: WeaponRow, input: i32, player_level: u8) -> int {
    if row.origin_equip_wep1 == -1 {
        0
    } else if 0 <= input <= 25 {
        input as int
    } else if row.origin_equip_wep16 == -1 {
        // Levels 0 to 25 fold onto 0 to 10: (level + 0.5) / 2.5, rounded down.
        (2 * player_level + 1) / 5
    } else {
        player_level as int
    }
}

/// The sum of an id and an offset, modulo two to the thirty-second.
pub open spec fn id_plus(id: u32, offset: int) -> u32 {
    ((id + offset) % 0x1_0000_0000) as u32
}

/// Adds the reinforcement to a weapon id.
pub fn apply_reinforce(weapon_id: u32, input: i32, row: WeaponRow, player_level: u8) -> (id: u32)
    ensures
        id == id_plus(weapon_id, reinforce_steps(row, input, player_level)),
{
    if row.origin_equip_wep1 == -1 {
        return weapon_id;
    }
    let steps: u32 = if 0 <= input && input <= 25 {
        input as u32
    } else if row.origin_equip_wep16 == -1 {
        (2 * player_level as u32 + 1) / 5
    } else {
        player_level as u32
    };
    weapon_id.wrapping_add(steps)
}

/// The row that decides how a weapon is reinforced: its own, or that of its hundred.
pub open spec fn reinforce_row(table: Option<Map<u32, WeaponRow>>, param: u32) -> Option<WeaponRow> {
    match row_of(table, param) {
        Some(row) => Some(row),
        None => row_of(table, (param / 100 * 100) as u32),
    }
}

/// The finished id of a weapon item.
pub open spec fn finished_weapon(
    table: Option<Map<u32, WeaponRow>>,
    player_level: u8,
    item: BagItem,
) -> u32 {
    let affinity = if 0 <= item.upgrade <= 1200 {
        item.upgrade as int
    } else {
        0
    };
    if table is None {
        item.id
    } else {
        match reinforce_row(table, param_of(item.id)) {
            Some(row) => id_plus(
                id_plus(item.id, reinforce_steps(row, item.reinforce, player_level)),
                affinity,
            ),
            None => if 0 <= item.reinforce <= 25 {
                id_plus(id_plus(item.id, item.reinforce as int), affinity)
            } else {
                item.id
            },
        }
    }
}

/// What is handed to the game for one item: finished id, quantity and ash of war.
pub open spec fn resolved(
    table: Option<Map<u32, WeaponRow>>,
    player_level: u8,
    item: BagItem,
) -> Option<(u32, u32, u32)> {
    match category_of(item.id) {
        Some(ItemCategory::Weapon) => Some(
            (finished_weapon(table, player_level, item), 1, gem_word(item.gem)),
        ),
        Some(ItemCategory::Protector) | Some(ItemCategory::Accessory) => Some(
            (item.id, 1, NO_GEM),
        ),
        Some(ItemCategory::Goods) | Some(ItemCategory::Gem) => Some(
            (
                item.id,
                if item.qty < 1 {
                    1
                } else {
                    item.qty
                },
                NO_GEM,
            ),
        ),
        None => None,
    }
}

/// Adds an offset to an id, modulo two to the thirty-second.
fn add_to_id(id: u32, offset: u32) -> (sum: u32)
    ensures
        sum == id_plus(id, offset as int),
{
    id.wrapping_add(offset)
}

/// Puts the finished id of a weapon together.
fn finish_weapon(table: &WeaponTable, player_level: u8, item: &BagItem) -> (id: u32)
    ensures
        id == finished_weapon(table@, player_level, *item),
{
    if !table.loaded() {
        return item.id;
    }
    let affinity: u32 = if 0 <= item.upgrade && item.upgrade <= 1200 {
        item.upgrade as u32
    } else {
        0
    };
    let param: u32 = param_id(item.id);
    let row = match table.row(param) {
        Some(row) => Some(row),
        None => table.row(param / 100 * 100),
    };
    match row {
        Some(row) => add_to_id(
            apply_reinforce(item.id, item.reinforce, row, player_level),
            affinity,
        ),
        None => if 0 <= item.reinforce && item.reinforce <= 25 {
            add_to_id(add_to_id(item.id, item.reinforce as u32), affinity)
        } else {
            item.id
        },
    }
}

/// Turns one item into what is handed to the game; `None` where its id has no category.
pub fn resolve_one(table: &WeaponTable, player_level: u8, item: &BagItem) -> (entry: Option<
    (u32, u32, u32),
>)
    ensures
        entry == resolved(table@, player_level, *item),
{
    match category(item.id) {
        Some(ItemCategory::Weapon) => {
            let id: u32 = finish_weapon(table, player_level, item);
            Some((id, 1, gem_u32(item.gem)))
        },
        Some(ItemCategory::Protector) | Some(ItemCategory::Accessory) => Some(
            (item.id, 1, NO_GEM),
        ),
        Some(ItemCategory::Goods) | Some(ItemCategory::Gem) => Some(
            (
                item.id,
                if item.qty < 1 {
                    1
                } else {
                    item.qty
                },
                NO_GEM,
            ),
        ),
        None => None,
    }
}

/// Why a batch of items was not given.
#[derive(Clone, Copy, Debug, PartialEq, Eq, Structural)]
pub enum GiveError {
    /// More items than the game takes in one call.
    TooLong(usize),
    /// An item whose id has no category.
    InvalidItem,
}

impl GiveError {
    /// The characters of the message.
    pub open spec fn text(&self) -> Seq<char> {
        match self {
            GiveError::TooLong(length) => "批次过长："@ + decimal(*length as int),
            GiveError::InvalidItem => "物品无效"@,
        }
    }

    /// The message for the player.
    pub fn message(&self) -> (text: String)
        ensures
            text@ == self.text(),
    {
        match self {
            GiveError::TooLong(length) => {
                let mut text = "批次过长：".to_owned();
                push_decimal(&mut text, *length as u64);
                text
            },
            GiveError::InvalidItem => "物品无效".to_owned(),
        }
    }
}

/// Turns a batch of items into the entries of one packet, in order.
///
/// An empty batch gives no entries, and then there is no packet to send.
pub fn give_batch(table: &WeaponTable, player_level: u8, items: &[BagItem]) -> (entries: Result<
    Vec<(u32, u32, u32)>,
    GiveError,
>)
    ensures
        items@.len() > BATCH_LIMIT ==> entries == Err::<Vec<(u32, u32, u32)>, GiveError>(
            GiveError::TooLong(items@.len() as usize),
        ),
        items@.len() <= BATCH_LIMIT ==> match entries {
            Ok(entries) => {
                &&& entries@.len() == items@.len()
                &&& forall|i: int|
                    0 <= i < items@.len() ==> resolved(table@, player_level, #[trigger] items@[i])
                        == Some(entries@[i])
            },
            Err(error) => {
                &&& error == GiveError::InvalidItem
                &&& exists|i: int|
                    0 <= i < items@.len() && category_of((#[trigger] items@[i]).id) is None
            },
        },
{
    if items.len() > BATCH_LIMIT {
        return Err(GiveError::TooLong(items.len()));
    }
    let mut entries: Vec<(u32, u32, u32)> = Vec::new();
    let mut at: usize = 0;
    while at < items.len()
        invariant
            at <= items@.len(),
            items@.len() <= BATCH_LIMIT,
            entries@.len() == at,
            forall|i: int|
                0 <= i < at ==> resolved(table@, player_level, #[trigger] items@[i]) == Some(
                    entries@[i],
                ),
        decreases items@.len() - at,
    {
        match resolve_one(table, player_level, &items[at]) {
            Some(entry) => {
                entries.push(entry);
            },
            None => {
                assert(category_of(items@[at as int].id) is None);
                return Err(GiveError::InvalidItem);
            },
        }
        at = at + 1;
    }
    Ok(entries)
}

/// What is noted of a given entry for the order of the bag: finished id and ash of war.
pub open spec fn given(entry: (u32, u32, u32)) -> (u32, u32) {
    (entry.0, entry.2)
}

/// Turns one item into the one entry of its packet.
pub fn give_one(table: &WeaponTable, player_level: u8, item: &BagItem) -> (entry: Result<
    (u32, u32, u32),
    GiveError,
>)
    ensures
        entry == match resolved(table@, player_level, *item) {
            Some(entry) => Ok::<(u32, u32, u32), GiveError>(entry),
            None => Err::<(u32, u32, u32), GiveError>(GiveError::InvalidItem),
        },
{
    match resolve_one(table, player_level, item) {
        Some(entry) => Ok(entry),
        None => Err(GiveError::InvalidItem),
    }
}

/// Whether the levels of a weapon item are added to its id: they are, unless the row that decides
/// says that the weapon cannot be reinforced.
pub open spec fn takes_levels(table: Option<Map<u32, WeaponRow>>, item: BagItem) -> bool {
    match reinforce_row(table, param_of(item.id)) {
        Some(row) => row.origin_equip_wep1 != -1,
        None => true,
    }
}

/// Taking a weapon of the table apart and finishing it again gives the same weapon, at its own
/// level and with its own affinity and ash of war.
///
/// The one exception is a reinforced weapon of which the row of its base id says that it cannot
/// be reinforced.
pub proof fn decode_then_resolve(
    table: Option<Map<u32, WeaponRow>>,
    player_level: u8,
    full_id: u32,
    gem: i64,
)
    requires
        category_of(full_id) == Some(ItemCategory::Weapon),
        row_of(table, param_of(full_id)) is Some,
    ensures
        ({
            let item = decoded(table, full_id, gem);
            resolved(table, player_level, item) == Some((full_id, 1u32, gem_word(gem))) <==> (
            item.reinforce == 0 || takes_levels(table, item))
        }),
{
    let param = param_of(full_id);
    let row = row_of(table, param)->0;
    let reinforce = reinforcement(row, param);
    let plus0 = (param - reinforce) as u32;
    affinity_in_range(table->0, plus0, 1200);
    assert(full_id == param);
}

/// An affinity offset is a multiple of 100 that the unreinforced id reaches.
pub proof fn affinity_in_range(rows: Map<u32, WeaponRow>, plus0: u32, a: int)
    requires
        a % 100 == 0,
        0 <= a <= 1200,
    ensures
        0 <= affinity_from(rows, plus0, a) <= a,
        affinity_from(rows, plus0, a) <= plus0,
        affinity_from(rows, plus0, a) % 100 == 0,
    decreases a,
{
    if a > 0 && !(plus0 >= a && rows.contains_key((plus0 - a) as u32)) {
        affinity_in_range(rows, plus0, a - 100);
    }
}

/// The planner's equation: the base id, the reinforcement and the affinity of a decoded
/// weapon add up to the finished id.
pub proof fn decoded_parts_add_up(table: Option<Map<u32, WeaponRow>>, full_id: u32, gem: i64)
    requires
        category_of(full_id) == Some(ItemCategory::Weapon),
    ensures
        ({
            let item = decoded(table, full_id, gem);
            &&& item.id + item.reinforce + item.upgrade == full_id
            &&& 0 <= item.reinforce <= 25
            &&& 0 <= item.upgrade <= 1200
            &&& item.upgrade % 100 == 0
            &&& category_of(item.id) == Some(ItemCategory::Weapon)
        }),
{
    let param = param_of(full_id);
    match row_of(table, param) {
        Some(row) => {
            let plus0 = (param - reinforcement(row, param)) as u32;
            affinity_in_range(table->0, plus0, 1200);
        },
        None => {},
    }
}

/// The text that tells whether items can be given.
pub open spec fn ready_text(item_give: bool, map_item_man: bool) -> Seq<char> {
    "TGA 发放："@ + (if item_give {
        "ItemGive 已解析"@
    } else {
        "ItemGive 未解析"@
    }) + " / "@ + (if map_item_man {
        "MapItemMan 就绪"@
    } else {
        "MapItemMan 未就绪"@
    })
}

/// Tells whether items can be given.
pub fn ready_report(item_give: bool, map_item_man: bool) -> (text: String)
    ensures
        text@ == ready_text(item_give, map_item_man),
{
    let mut text = "TGA 发放：".to_owned();
    if item_give {
        text.append("ItemGive 已解析");
    } else {
        text.append("ItemGive 未解析");
    }
    text.append(" / ");
    if map_item_man {
        text.append("MapItemMan 就绪");
    } else {
        text.append("MapItemMan 未就绪");
    }
    text
}

proof fn affinity_is_the_largest(rows: Map<u32, WeaponRow>, plus0: u32, a: int)
    requires
        a % 100 == 0,
        0 <= a <= 1200,
    ensures
        ({
            let found = affinity_from(rows, plus0, a);
            &&& found > 0 ==> found <= plus0 && rows.contains_key((plus0 - found) as u32)
            &&& forall|b: int|
                found < b <= a && b % 100 == 0 && b <= plus0 ==> !#[trigger] rows.contains_key(
                    (plus0 - b) as u32,
                )
        }),
    decreases a,
{
    affinity_in_range(rows, plus0, a);
    if a > 0 && !(plus0 >= a && rows.contains_key((plus0 - a) as u32)) {
        affinity_is_the_largest(rows, plus0, a - 100);
        affinity_in_range(rows, plus0, a - 100);
        assert forall|b: int|
            affinity_from(rows, plus0, a) < b <= a && b % 100 == 0 && b <= plus0 implies
            !#[trigger] rows.contains_key((plus0 - b) as u32) by {
            if b > a - 100 {
                assert(b == a);
            }
        }
    }
}

/// A weapon of the table comes apart at its origin: its level is how far its row is above the
/// origin, up to 25, and what is below that is the base with the largest affinity, up to 1200 in
/// hundreds, whose base is in the table too.
pub proof fn weapons_come_apart_at_their_origin(
    rows: Map<u32, WeaponRow>,
    full_id: u32,
    gem: i64,
)
    requires
        full_id < 0x1000_0000,
        rows.contains_key(full_id),
    ensures
        ({
            let item = decoded(Some(rows), full_id, gem);
            let origin = rows[full_id].origin_equip_wep;
            let unreinforced = item.id + item.upgrade;
            &&& origin >= 0 && 0 <= full_id - origin <= 25 ==> item.reinforce == full_id - origin
                && unreinforced == origin
            &&& !(origin >= 0 && 0 <= full_id - origin <= 25) ==> item.reinforce == 0
                && unreinforced == full_id
            &&& 0 <= item.upgrade <= 1200 && item.upgrade % 100 == 0
            &&& item.upgrade > 0 ==> rows.contains_key(item.id)
            &&& forall|a: int|
                item.upgrade < a <= 1200 && a % 100 == 0 && a <= unreinforced
                    ==> !#[trigger] rows.contains_key((unreinforced - a) as u32)
            &&& item.qty == 1 && item.gem == gem && item.sort_id == 0
        }),
{
    let param = param_of(full_id);
    assert(param == full_id);
    let reinforce = reinforcement(rows[full_id], param);
    let plus0 = (param - reinforce) as u32;
    affinity_in_range(rows, plus0, 1200);
    affinity_is_the_largest(rows, plus0, 1200);
}

/// What is no weapon of the table stays whole.
pub proof fn other_items_stay_whole(table: Option<Map<u32, WeaponRow>>, full_id: u32, gem: i64)
    requires
        full_id >= 0x1000_0000 || table is None || !table->0.contains_key(full_id),
    ensures
        decoded(table, full_id, gem) == (BagItem {
            id: full_id,
            qty: 1,
            reinforce: 0,
            upgrade: 0,
            gem,
            sort_id: 0,
        }),
{
}

/// A weapon is given under its base id plus its level plus its affinity: its own level where one
/// is recorded, and else that of the player, of which a weapon that stops at ten takes two fifths.
/// A weapon that cannot be reinforced takes no level.
pub proof fn weapons_are_given_at_their_level(
    rows: Map<u32, WeaponRow>,
    player_level: u8,
    item: BagItem,
)
    requires
        item.id < 0x1000_0000 - 2000,
        rows.contains_key(item.id),
        0 <= item.upgrade <= 1200,
    ensures
        ({
            let row = rows[item.id];
            let made = resolved(Some(rows), player_level, item);
            let (id, quantity, gem) = made.unwrap();
            let steps = id - item.id - item.upgrade;
            &&& made is Some
            &&& quantity == 1
            &&& item.gem < 0 ==> gem == 0xFFFF_FFFF
            &&& 0 <= item.gem <= 0xFFFF_FFFF ==> gem == item.gem
            &&& row.origin_equip_wep1 == -1 ==> steps == 0
            &&& row.origin_equip_wep1 != -1 && 0 <= item.reinforce <= 25 ==> steps == item.reinforce
            &&& row.origin_equip_wep1 != -1 && !(0 <= item.reinforce <= 25) ==> {
                &&& row.origin_equip_wep16 != -1 ==> steps == player_level
                &&& row.origin_equip_wep16 == -1 ==> 5 * steps <= 2 * player_level + 1 < 5 * steps + 5
            }
        }),
{
}

/// Armor and talismans are given one by one without an ash of war, goods and ashes of war in
/// their quantity, and an id of another kind is not given at all.
pub proof fn other_items_are_given_as_they_are(
    table: Option<Map<u32, WeaponRow>>,
    player_level: u8,
    item: BagItem,
)
    requires
        item.id >= 0x1000_0000,
    ensures
        0x1000_0000 <= item.id < 0x3000_0000 ==> resolved(table, player_level, item) == Some(
            (item.id, 1u32, 0xFFFF_FFFFu32),
        ),
        0x4000_0000 <= item.id < 0x5000_0000 || 0x8000_0000 <= item.id < 0x9000_0000 ==> resolved(
            table,
            player_level,
            item,
        ) == Some((item.id, if item.qty == 0 { 1u32 } else { item.qty }, 0xFFFF_FFFFu32)),
        0x3000_0000 <= item.id < 0x4000_0000 || 0x5000_0000 <= item.id < 0x8000_0000 || item.id
            >= 0x9000_0000 ==> resolved(table, player_level, item) is None,
{
}

/// A weapon without a row of its own is reinforced by the row of its hundred; without that one,
/// its recorded level is added as it is, and without a level it stays as it is. While the table is
/// not loaded, every weapon stays as it is.
pub proof fn weapons_without_a_row(rows: Map<u32, WeaponRow>, player_level: u8, item: BagItem)
    requires
        item.id < 0x1000_0000 - 2000,
        !rows.contains_key(item.id),
        0 <= item.upgrade <= 1200,
    ensures
        ({
            let hundred = (item.id / 100 * 100) as u32;
            let (id, quantity, gem) = resolved(Some(rows), player_level, item).unwrap();
            let steps = id - item.id - item.upgrade;
            let recorded = 0 <= item.reinforce <= 25;
            &&& resolved(Some(rows), player_level, item) is Some
            &&& quantity == 1
            &&& rows.contains_key(hundred) ==> {
                let row = rows[hundred];
                &&& row.origin_equip_wep1 == -1 ==> steps == 0
                &&& row.origin_equip_wep1 != -1 && recorded ==> steps == item.reinforce
                &&& row.origin_equip_wep1 != -1 && !recorded && row.origin_equip_wep16 != -1
                    ==> steps == player_level
            }
            &&& !rows.contains_key(hundred) && recorded ==> steps == item.reinforce
            &&& !rows.contains_key(hundred) && !recorded ==> id == item.id
        }),
        resolved(None, player_level, item) matches Some((id, _, _)) && id == item.id,
{
}

} // verus!
