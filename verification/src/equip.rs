//! The fourteen worn places: what is worn, and the calls that wear it.
//!
//! Every change goes through the game's own equip call, which takes a place, the handle of
//! an item's instance and the absolute index of its place in the bag; an empty place is filled
//! with a placeholder, named by its item id in place of a handle.

use std::collections::HashSet;

use vstd::prelude::*;

use crate::item::{category, category_of, Bag, BagEntry, ItemCategory};
use crate::order::{
    arranged, before, is_stable_order, sorted, sorting_rearranges, stable, stable_exists, stable_is,
    stable_order,
};
use crate::offsets::{
    equip_gear_address, is_callable, may_call, relative, resolve_equip_gear, to_rva, Image,
};
use crate::text::{
    decimal, hex, join, joined, numeral, padded_hex, push_decimal, push_numeral, push_signed, text_or_none, texts,
    zero_padded,
};

verus! {

broadcast use vstd::std_specs::hash::group_hash_axioms;

/// The bare fist, which fills an empty weapon place.
pub const FIST: u32 = 110_000;

/// The id of nothing, which fills an empty talisman place.
pub const NOTHING: u32 = 0xFFFF_FFFF;

/// One worn place of a saved build.
#[derive(Clone, Copy, Debug, PartialEq, Eq, Structural)]
pub struct LoadoutSlot {
    pub slot: u8,
    pub id: u32,
    pub gem: i64,
    /// Which of several equal weapons: the order number that it had when it was saved.
    pub weapon_sort_id: Option<u32>,
    /// Which of several equal talismans: its rank by order number and place, from 0.
    pub accessory_ordinal: Option<u32>,
}

/// The six weapon places.
pub open spec fn is_weapon_slot(slot: u8) -> bool {
    slot <= 5
}

/// The four armor places.
pub open spec fn is_armor_slot(slot: u8) -> bool {
    12 <= slot <= 15
}

/// The four talisman places.
pub open spec fn is_talisman_slot(slot: u8) -> bool {
    17 <= slot <= 20
}

/// The fourteen places, in order.
pub open spec fn loadout_slot(i: int) -> u8 {
    (if i < 6 {
        i
    } else if i < 10 {
        i + 6
    } else {
        i + 7
    }) as u8
}

/// Whether the equip call takes this place.
pub open spec fn is_loadout_slot(slot: u8) -> bool {
    is_weapon_slot(slot) || is_armor_slot(slot) || is_talisman_slot(slot)
}

/// The naked piece of an armor place.
pub open spec fn bare_piece(slot: u8) -> u32 {
    if slot == 12 {
        0x1000_2710
    } else if slot == 13 {
        0x1000_2774
    } else if slot == 14 {
        0x1000_27D8
    } else {
        0x1000_283C
    }
}

/// Whether an id is one of the four naked pieces.
pub open spec fn is_bare(id: u32) -> bool {
    id == 0x1000_2710 || id == 0x1000_2774 || id == 0x1000_27D8 || id == 0x1000_283C
}

fn is_bare_armor(id: u32) -> (bare: bool)
    ensures
        bare == is_bare(id),
{
    id == 0x1000_2710 || id == 0x1000_2774 || id == 0x1000_27D8 || id == 0x1000_283C
}

/// Whether `id` in this place stands for wearing nothing.
pub open spec fn empty_in(slot: u8, id: u32) -> bool {
    if is_weapon_slot(slot) {
        id == FIST || id == 0
    } else if is_armor_slot(slot) {
        is_bare(id) || id == 0
    } else if is_talisman_slot(slot) {
        id == NOTHING || id == 0
    } else {
        true
    }
}

/// Whether `id` in this place stands for wearing nothing.
pub fn is_empty_loadout(slot: u8, id: u32) -> (empty: bool)
    ensures
        empty == empty_in(slot, id),
{
    if slot <= 5 {
        id == FIST || id == 0
    } else if 12 <= slot && slot <= 15 {
        is_bare_armor(id) || id == 0
    } else if 17 <= slot && slot <= 20 {
        id == NOTHING || id == 0
    } else {
        true
    }
}

/// Whether an item only fills empty places: the fist or a naked piece.
pub fn is_placeholder_item(id: u32) -> (placeholder: bool)
    ensures
        placeholder == (id == FIST || is_bare(id)),
{
    id == FIST || is_bare_armor(id)
}

/// One equip call.
#[derive(Clone, Copy, Debug, PartialEq, Eq, Structural)]
pub struct EquipCall {
    pub slot: u8,
    /// The handle of the instance, or the item id of a placeholder.
    pub item: u32,
    /// The absolute index in the bag.
    pub index: u32,
}

/// Why an item was not worn.
#[derive(Clone, Copy, Debug, PartialEq, Eq, Structural)]
pub enum EquipError {
    IllegalSlot(u8),
    Unresolved,
    NoLoadout,
    NotInBag { slot: u8, id: u32, gem: i64 },
    InvalidId(u8),
    WrongCategory { slot: u8, category: ItemCategory },
    PlaceholderMissing(u32),
    TooFewTalismans { slot: u8, ordinal: u32, count: usize },
    CaptureFailed(usize),
}

/// An id as `0x` and eight upper-case digits.
pub open spec fn id_text(id: u32) -> Seq<char> {
    "0x"@ + zero_padded(numeral(id as nat, 16, true), 8)
}

/// Appends an id as `0x` and eight upper-case digits.
pub fn push_id(out: &mut String, id: u32)
    ensures
        final(out)@ == old(out)@ + id_text(id),
{
    out.append("0x");
    out.append(padded_hex(id as u64, true, 8).as_str());
    assert(out@ =~= old(out)@ + id_text(id));
}

/// The name of a category.
pub open spec fn category_text(category: ItemCategory) -> Seq<char> {
    match category {
        ItemCategory::Weapon => "Weapon"@,
        ItemCategory::Protector => "Protector"@,
        ItemCategory::Accessory => "Accessory"@,
        ItemCategory::Goods => "Goods"@,
        ItemCategory::Gem => "Gem"@,
    }
}

/// The name of a category.
pub fn category_name(category: ItemCategory) -> (name: &'static str)
    ensures
        name@ == category_text(category),
{
    match category {
        ItemCategory::Weapon => "Weapon",
        ItemCategory::Protector => "Protector",
        ItemCategory::Accessory => "Accessory",
        ItemCategory::Goods => "Goods",
        ItemCategory::Gem => "Gem",
    }
}

impl EquipError {
    /// The characters of the message.
    pub open spec fn text(&self) -> Seq<char> {
        match self {
            EquipError::IllegalSlot(slot) => "非法穿戴槽 "@ + decimal(*slot as int),
            EquipError::Unresolved => "EquipGear 未解析"@,
            EquipError::NoLoadout => "存档没有穿戴数据，请先 Shift+F7 重新保存"@,
            EquipError::NotInBag { slot, id, gem } => "槽 "@ + decimal(*slot as int) + " 要装 "@
                + id_text(*id) + " gem="@ + decimal(*gem as int) + "，物品栏里找不到"@,
            EquipError::InvalidId(slot) => "槽 "@ + decimal(*slot as int) + " 物品 id 无效"@,
            EquipError::WrongCategory { slot, category } => "槽 "@ + decimal(*slot as int)
                + " 与类别 "@ + category_text(*category) + " 不匹配，已拒绝"@,
            EquipError::PlaceholderMissing(id) => "占位物 "@ + id_text(*id)
                + " 发放后仍找不到"@,
            EquipError::TooFewTalismans { slot, ordinal, count } => "护符槽 "@ + decimal(
                *slot as int,
            ) + " 保存为同类第 "@ + decimal(*ordinal + 1) + " 件，当前只有 "@ + decimal(
                *count as int,
            ) + " 件"@,
            EquipError::CaptureFailed(count) => "穿戴捕获异常：得到 "@ + decimal(*count as int)
                + " 格"@,
        }
    }

    /// The message for the player.
    pub fn message(&self) -> (text: String)
        ensures
            text@ == self.text(),
    {
        match self {
            EquipError::IllegalSlot(slot) => {
                let mut text = "非法穿戴槽 ".to_owned();
                push_decimal(&mut text, *slot as u64);
                text
            },
            EquipError::Unresolved => "EquipGear 未解析".to_owned(),
            EquipError::NoLoadout => "存档没有穿戴数据，请先 Shift+F7 重新保存".to_owned(),
            EquipError::NotInBag { slot, id, gem } => {
                let mut text = "槽 ".to_owned();
                push_decimal(&mut text, *slot as u64);
                text.append(" 要装 ");
                push_id(&mut text, *id);
                text.append(" gem=");
                push_signed(&mut text, *gem);
                text.append("，物品栏里找不到");
                text
            },
            EquipError::InvalidId(slot) => {
                let mut text = "槽 ".to_owned();
                push_decimal(&mut text, *slot as u64);
                text.append(" 物品 id 无效");
                text
            },
            EquipError::WrongCategory { slot, category } => {
                let mut text = "槽 ".to_owned();
                push_decimal(&mut text, *slot as u64);
                text.append(" 与类别 ");
                text.append(category_name(*category));
                text.append(" 不匹配，已拒绝");
                text
            },
            EquipError::PlaceholderMissing(id) => {
                let mut text = "占位物 ".to_owned();
                push_id(&mut text, *id);
                text.append(" 发放后仍找不到");
                text
            },
            EquipError::TooFewTalismans { slot, ordinal, count } => {
                let mut text = "护符槽 ".to_owned();
                push_decimal(&mut text, *slot as u64);
                text.append(" 保存为同类第 ");
                push_decimal(&mut text, *ordinal as u64 + 1);
                text.append(" 件，当前只有 ");
                push_decimal(&mut text, *count as u64);
                text.append(" 件");
                text
            },
            EquipError::CaptureFailed(count) => {
                let mut text = "穿戴捕获异常：得到 ".to_owned();
                push_decimal(&mut text, *count as u64);
                text.append(" 格");
                text
            },
        }
    }
}

/// Whether items can be equipped.
pub fn equip_gear_ready(image: Option<&Image>) -> (ready: bool)
    requires
        image matches Some(image) ==> image.wf(),
    ensures
        ready == match image {
            Some(image) => may_call(*image, equip_gear_address(*image)),
            None => false,
        },
{
    match image {
        Some(image) => is_callable(image, resolve_equip_gear(image)),
        None => false,
    }
}

/// What the report says of the found function.
pub open spec fn equip_report_text(image: Image, address: usize) -> Seq<char> {
    "EquipGear：RVA 0x"@ + hex(relative(Some(image.base), address) as nat) + " / "@ + if may_call(
        image,
        Some(address),
    ) {
        "可用"@
    } else {
        "序言不符"@
    }
}

/// Says what was found of the function that equips items, without calling it.
pub fn equip_gear_report(image: Option<&Image>) -> (text: String)
    requires
        image matches Some(image) ==> image.wf(),
    ensures
        text@ == match image {
            Some(image) => match equip_gear_address(*image) {
                Some(address) => equip_report_text(*image, address),
                None => "EquipGear：解析失败"@,
            },
            None => "EquipGear：解析失败"@,
        },
{
    let image = match image {
        Some(image) => image,
        None => {
            return "EquipGear：解析失败".to_owned();
        },
    };
    let address: usize = match resolve_equip_gear(image) {
        Some(address) => address,
        None => {
            return "EquipGear：解析失败".to_owned();
        },
    };
    let verdict = if is_callable(image, Some(address)) {
        "可用"
    } else {
        "序言不符"
    };
    let mut text = "EquipGear：RVA 0x".to_owned();
    push_numeral(&mut text, to_rva(Some(image.base), address) as u128, 16, false);
    text.append(" / ");
    text.append(verdict);
    text
}

/// Puts an equip call together; refuses a place that is none of the fourteen.
pub fn equip_gear_call(slot: u8, item: u32, index: u32) -> (call: Result<EquipCall, EquipError>)
    ensures
        call == if is_loadout_slot(slot) {
            Ok::<EquipCall, EquipError>(EquipCall { slot, item, index })
        } else {
            Err::<EquipCall, EquipError>(EquipError::IllegalSlot(slot))
        },
{
    if slot <= 5 || (12 <= slot && slot <= 15) || (17 <= slot && slot <= 20) {
        Ok(EquipCall { slot, item, index })
    } else {
        Err(EquipError::IllegalSlot(slot))
    }
}

/// An item of the bag with its places.
#[derive(Clone, Copy, Debug, PartialEq, Eq, Structural)]
pub struct Instance {
    /// The place in the normal list.
    pub place: usize,
    /// The absolute index.
    pub index: u32,
    pub handle: u32,
    pub sort_id: u32,
}

/// The instance in normal place `i`.
pub open spec fn instance_at(bag: Bag, i: int) -> Instance {
    Instance {
        place: i as usize,
        index: bag.absolute(i) as u32,
        handle: bag.normal@[i]->0.handle,
        sort_id: bag.normal@[i]->0.sort_id,
    }
}

/// The instances of an item in the first `n` normal places, by place.
pub open spec fn instances_below(bag: Bag, item_id: u32, n: int) -> Seq<Instance>
    decreases n,
{
    if n <= 0 {
        seq![]
    } else {
        let rest = instances_below(bag, item_id, n - 1);
        match bag.normal@[n - 1] {
            Some(entry) if entry.item_id == item_id => rest.push(instance_at(bag, n - 1)),
            _ => rest,
        }
    }
}

/// The order numbers of the instances.
pub open spec fn sort_ids(list: Seq<Instance>) -> Seq<u64> {
    list.map_values(|x: Instance| x.sort_id as u64)
}

/// The instances of an item, ordered by order number and then by place.
pub open spec fn instances(bag: Bag, item_id: u32) -> Seq<Instance> {
    let found = instances_below(bag, item_id, bag.normal@.len() as int);
    sorted(found, sort_ids(found))
}

/// The instances of an item, ordered by order number and then by place.
pub fn inventory_instances(bag: &Bag, item_id: u32) -> (list: Vec<Instance>)
    requires
        bag.wf(),
    ensures
        list@ == instances(*bag, item_id),
        list@.len() <= u32::MAX,
{
    let mut found: Vec<Instance> = Vec::new();
    let mut keys: Vec<u64> = Vec::new();
    let mut at: usize = 0;
    while at < bag.normal.len()
        invariant
            bag.wf(),
            at <= bag.normal@.len(),
            found@ == instances_below(*bag, item_id, at as int),
            keys@ == sort_ids(found@),
        decreases bag.normal@.len() - at,
    {
        match bag.normal[at] {
            Some(entry) => {
                if entry.item_id == item_id {
                    found.push(
                        Instance {
                            place: at,
                            index: bag.key_capacity + at as u32,
                            handle: entry.handle,
                            sort_id: entry.sort_id,
                        },
                    );
                    keys.push(entry.sort_id as u64);
                    assert(keys@ =~= sort_ids(found@));
                }
            },
            None => {},
        }
        at = at + 1;
    }
    let order: Vec<usize> = stable_order(&keys);
    let mut list: Vec<Instance> = Vec::new();
    let mut taken: usize = 0;
    while taken < order.len()
        invariant
            taken <= order@.len(),
            is_stable_order(keys@, order@),
            keys@ == sort_ids(found@),
            list@ == arranged(found@, order@.take(taken as int)),
        decreases order@.len() - taken,
    {
        assert(order@[taken as int] < keys@.len());
        list.push(found[order[taken]]);
        assert(order@.take(taken + 1) =~= order@.take(taken as int).push(order@[taken as int]));
        assert(list@ =~= arranged(found@, order@.take(taken + 1)));
        taken = taken + 1;
    }
    assert(order@.take(order@.len() as int) =~= order@);
    proof {
        stable_is(keys@, order@);
        instances_fit(*bag, item_id, bag.normal@.len() as int);
    }
    list
}

/// The first instance that is meant by an index, absolute or of the normal list.
pub open spec fn rank_by_index(list: Seq<Instance>, index: u32, from: int) -> Option<u32>
    decreases list.len() - from,
{
    if from < 0 || from >= list.len() {
        None
    } else if list[from].index == index || list[from].place == index {
        Some(from as u32)
    } else {
        rank_by_index(list, index, from + 1)
    }
}

/// The first instance with a handle.
pub open spec fn rank_by_handle(list: Seq<Instance>, handle: u32, from: int) -> Option<u32>
    decreases list.len() - from,
{
    if from < 0 || from >= list.len() {
        None
    } else if list[from].handle == handle {
        Some(from as u32)
    } else {
        rank_by_handle(list, handle, from + 1)
    }
}

fn find_by_handle(list: &Vec<Instance>, handle: u32) -> (rank: Option<u32>)
    requires
        list@.len() <= u32::MAX,
    ensures
        rank == rank_by_handle(list@, handle, 0),
        rank is Some ==> rank->0 < list@.len(),
{
    let mut at: usize = 0;
    while at < list.len()
        invariant
            at <= list@.len(),
            list@.len() <= u32::MAX,
            rank_by_handle(list@, handle, 0) == rank_by_handle(list@, handle, at as int),
        decreases list@.len() - at,
    {
        if list[at].handle == handle {
            return Some(at as u32);
        }
        at = at + 1;
    }
    None
}

/// Which of several equal talismans is worn, given the ordered instances of its item: by
/// the index that the game keeps, or, where that is stale, by the worn handle.
pub open spec fn accessory_rank(
    list: Seq<Instance>,
    equipped_index: Option<u32>,
    equipped_handle: Option<u32>,
) -> Option<u32> {
    let by_index = match equipped_index {
        Some(index) => rank_by_index(list, index, 0),
        None => None,
    };
    if list.len() < 2 {
        None
    } else if by_index is Some {
        by_index
    } else {
        match equipped_handle {
            Some(handle) => rank_by_handle(list, handle, 0),
            None => None,
        }
    }
}

/// Which of several equal talismans is worn; `None` where the item occurs only once.
pub fn accessory_ordinal_of_slot(
    bag: &Bag,
    item_id: u32,
    equipped_index: Option<u32>,
    equipped_handle: Option<u32>,
) -> (ordinal: Option<u32>)
    requires
        bag.wf(),
    ensures
        ordinal == accessory_rank(instances(*bag, item_id), equipped_index, equipped_handle),
{
    let list: Vec<Instance> = inventory_instances(bag, item_id);
    if list.len() < 2 {
        return None;
    }
    match equipped_index {
        Some(index) => {
            let mut at: usize = 0;
            while at < list.len()
                invariant
                    at <= list@.len(),
                    list@.len() <= u32::MAX,
                    2 <= list@.len(),
                    list@ == instances(*bag, item_id),
                    equipped_index == Some(index),
                    rank_by_index(list@, index, 0) == rank_by_index(list@, index, at as int),
                decreases list@.len() - at,
            {
                if list[at].index == index || list[at].place == index as usize {
                    return Some(at as u32);
                }
                at = at + 1;
            }
        },
        None => {},
    }
    match equipped_handle {
        Some(handle) => find_by_handle(&list, handle),
        None => None,
    }
}

/// There are no more instances than places.
proof fn instances_fit(bag: Bag, item_id: u32, n: int)
    requires
        0 <= n,
    ensures
        instances_below(bag, item_id, n).len() <= n,
    decreases n,
{
    if n > 0 {
        instances_fit(bag, item_id, n - 1);
    }
}

/// The order number of the worn one among several equal weapons.
pub open spec fn weapon_rank(list: Seq<Instance>, equipped_handle: Option<u32>) -> Option<u32> {
    if list.len() < 2 || equipped_handle is None {
        None
    } else {
        match rank_by_handle(list, equipped_handle->0, 0) {
            Some(rank) => Some(list[rank as int].sort_id),
            None => None,
        }
    }
}

/// The order number of the worn one among several equal weapons; `None` for a single one.
pub fn weapon_sort_id_of_slot(bag: &Bag, item_id: u32, equipped_handle: Option<u32>) -> (sort_id:
    Option<u32>)
    requires
        bag.wf(),
    ensures
        sort_id == weapon_rank(instances(*bag, item_id), equipped_handle),
{
    let list: Vec<Instance> = inventory_instances(bag, item_id);
    if list.len() < 2 {
        None
    } else {
        match equipped_handle {
            Some(handle) => match find_by_handle(&list, handle) {
                Some(rank) => Some(list[rank as usize].sort_id),
                None => None,
            },
            None => None,
        }
    }
}

/// What an item of the bag must be.
#[derive(Clone, Copy, Debug, PartialEq, Eq, Structural)]
pub struct Wanted {
    pub item_id: u32,
    /// The ash of war; a negative one matches any.
    pub gem: Option<i64>,
    pub sort_id: Option<u32>,
}

/// Whether the item in a place is what is wanted.
pub open spec fn suits(entry: Option<BagEntry>, wanted: Wanted) -> bool {
    match entry {
        Some(entry) => {
            &&& entry.item_id == wanted.item_id
            &&& wanted.sort_id is Some ==> entry.sort_id == wanted.sort_id->0
            &&& wanted.gem is Some && wanted.gem->0 >= 0 ==> entry.gem == wanted.gem->0
        },
        None => false,
    }
}

/// The first place from `from` on that suits and is not used yet.
pub open spec fn first_suiting(
    normal: Seq<Option<BagEntry>>,
    wanted: Wanted,
    used: Set<usize>,
    from: int,
) -> Option<int>
    decreases normal.len() - from,
{
    if from < 0 || from >= normal.len() {
        None
    } else if !used.contains(from as usize) && suits(normal[from], wanted) {
        Some(from)
    } else {
        first_suiting(normal, wanted, used, from + 1)
    }
}

/// The first place that suits and is not used yet: absolute index, handle and place.
pub fn find_entry(bag: &Bag, wanted: &Wanted, used: &HashSet<usize>) -> (found: Option<
    (u32, u32, usize),
>)
    requires
        bag.wf(),
    ensures
        match first_suiting(bag.normal@, *wanted, used@, 0) {
            Some(i) => 0 <= i < bag.normal@.len() && found == Some(
                (bag.absolute(i) as u32, bag.normal@[i]->0.handle, i as usize),
            ),
            None => found is None,
        },
{
    let mut at: usize = 0;
    while at < bag.normal.len()
        invariant
            bag.wf(),
            at <= bag.normal@.len(),
            first_suiting(bag.normal@, *wanted, used@, 0) == first_suiting(
                bag.normal@,
                *wanted,
                used@,
                at as int,
            ),
        decreases bag.normal@.len() - at,
    {
        if !used.contains(&at) {
            match bag.normal[at] {
                Some(entry) => {
                    let in_order = match wanted.sort_id {
                        Some(sort_id) => entry.sort_id == sort_id,
                        None => true,
                    };
                    let with_gem = match wanted.gem {
                        Some(gem) => gem < 0 || entry.gem == gem,
                        None => true,
                    };
                    if entry.item_id == wanted.item_id && in_order && with_gem {
                        return Some((bag.key_capacity + at as u32, entry.handle, at));
                    }
                },
                None => {},
            }
        }
        at = at + 1;
    }
    None
}

/// The first place of the bag with this item: absolute index, handle and place.
pub fn find_inv_id(bag: &Bag, item_id: u32) -> (found: Option<(u32, u32, usize)>)
    requires
        bag.wf(),
    ensures
        match first_suiting(
            bag.normal@,
            Wanted { item_id, gem: None, sort_id: None },
            Set::empty(),
            0,
        ) {
            Some(i) => 0 <= i < bag.normal@.len() && found == Some(
                (bag.absolute(i) as u32, bag.normal@[i]->0.handle, i as usize),
            ),
            None => found is None,
        },
{
    let used: HashSet<usize> = HashSet::new();
    find_entry(bag, &Wanted { item_id, gem: None, sort_id: None }, &used)
}

/// The place for a saved slot: as saved, else with any ash of war, else of any order number,
/// else any of the item.
pub open spec fn place_for(normal: Seq<Option<BagEntry>>, slot: LoadoutSlot, used: Set<usize>) -> Option<
    int,
> {
    let gem = if slot.gem >= 0 {
        Some(slot.gem)
    } else {
        None
    };
    let sort_id = slot.weapon_sort_id;
    let exact = first_suiting(normal, Wanted { item_id: slot.id, gem, sort_id }, used, 0);
    let any_gem = first_suiting(
        normal,
        Wanted { item_id: slot.id, gem: None, sort_id },
        used,
        0,
    );
    let any_order = first_suiting(
        normal,
        Wanted { item_id: slot.id, gem, sort_id: None },
        used,
        0,
    );
    let any = first_suiting(
        normal,
        Wanted { item_id: slot.id, gem: None, sort_id: None },
        used,
        0,
    );
    if exact is Some {
        exact
    } else if gem is Some && any_gem is Some {
        any_gem
    } else if sort_id is Some && any_order is Some {
        any_order
    } else if gem is Some && sort_id is Some {
        any
    } else {
        None
    }
}

/// Whether a category belongs into a place.
pub open spec fn fits(slot: u8, category: ItemCategory) -> bool {
    if is_weapon_slot(slot) {
        category == ItemCategory::Weapon
    } else if is_armor_slot(slot) {
        category == ItemCategory::Protector
    } else if is_talisman_slot(slot) {
        category == ItemCategory::Accessory
    } else {
        false
    }
}

/// What is to be done for one saved slot.
#[derive(Clone, Copy, Debug, PartialEq, Eq, Structural)]
pub enum Wear {
    /// Fill the place with its placeholder.
    Unequip(u8),
    /// Make this call.
    Equip(EquipCall),
}

/// What is to be done for one saved slot.
pub open spec fn wear_of(bag: Bag, slot: LoadoutSlot, used: Set<usize>) -> Result<Wear, EquipError> {
    if empty_in(slot.slot, slot.id) {
        Ok(Wear::Unequip(slot.slot))
    } else {
        match place_for(bag.normal@, slot, used) {
            None => Err(EquipError::NotInBag { slot: slot.slot, id: slot.id, gem: slot.gem }),
            Some(i) => match category_of(slot.id) {
                None => Err(EquipError::InvalidId(slot.slot)),
                Some(category) => if fits(slot.slot, category) {
                    Ok(
                        Wear::Equip(
                            EquipCall {
                                slot: slot.slot,
                                item: bag.normal@[i]->0.handle,
                                index: bag.absolute(i) as u32,
                            },
                        ),
                    )
                } else {
                    Err(EquipError::WrongCategory { slot: slot.slot, category })
                },
            },
        }
    }
}

/// The places that are used up after one saved slot.
pub open spec fn used_after(bag: Bag, slot: LoadoutSlot, used: Set<usize>) -> Set<usize> {
    match place_for(bag.normal@, slot, used) {
        Some(i) if !empty_in(slot.slot, slot.id) => used.insert(i as usize),
        _ => used,
    }
}

fn find_place(bag: &Bag, slot: &LoadoutSlot, used: &HashSet<usize>) -> (found: Option<
    (u32, u32, usize),
>)
    requires
        bag.wf(),
    ensures
        match place_for(bag.normal@, *slot, used@) {
            Some(i) => 0 <= i < bag.normal@.len() && found == Some(
                (bag.absolute(i) as u32, bag.normal@[i]->0.handle, i as usize),
            ),
            None => found is None,
        },
{
    let gem: Option<i64> = if slot.gem >= 0 {
        Some(slot.gem)
    } else {
        None
    };
    let sort_id: Option<u32> = slot.weapon_sort_id;
    let exact = find_entry(bag, &Wanted { item_id: slot.id, gem, sort_id }, used);
    if exact.is_some() {
        return exact;
    }
    if gem.is_some() {
        let any_gem = find_entry(bag, &Wanted { item_id: slot.id, gem: None, sort_id }, used);
        if any_gem.is_some() {
            return any_gem;
        }
    }
    if sort_id.is_some() {
        let any_order = find_entry(bag, &Wanted { item_id: slot.id, gem, sort_id: None }, used);
        if any_order.is_some() {
            return any_order;
        }
    }
    if gem.is_some() && sort_id.is_some() {
        return find_entry(bag, &Wanted { item_id: slot.id, gem: None, sort_id: None }, used);
    }
    None
}

/// Decides what is to be done for one saved slot, and marks the place that it takes.
pub fn apply_one(bag: &Bag, slot: &LoadoutSlot, used: &mut HashSet<usize>) -> (wear: Result<
    Wear,
    EquipError,
>)
    requires
        bag.wf(),
    ensures
        wear == wear_of(*bag, *slot, old(used)@),
        final(used)@ == used_after(*bag, *slot, old(used)@),
{
    if is_empty_loadout(slot.slot, slot.id) {
        return Ok(Wear::Unequip(slot.slot));
    }
    let (index, handle, place) = match find_place(bag, slot, used) {
        Some(found) => found,
        None => {
            return Err(EquipError::NotInBag { slot: slot.slot, id: slot.id, gem: slot.gem });
        },
    };
    used.insert(place);
    let category = match category(slot.id) {
        Some(category) => category,
        None => {
            return Err(EquipError::InvalidId(slot.slot));
        },
    };
    let fitting = if slot.slot <= 5 {
        category == ItemCategory::Weapon
    } else if 12 <= slot.slot && slot.slot <= 15 {
        category == ItemCategory::Protector
    } else if 17 <= slot.slot && slot.slot <= 20 {
        category == ItemCategory::Accessory
    } else {
        false
    };
    if !fitting {
        return Err(EquipError::WrongCategory { slot: slot.slot, category });
    }
    match equip_gear_call(slot.slot, handle, index) {
        Ok(call) => Ok(Wear::Equip(call)),
        Err(error) => Err(error),
    }
}

/// A place that one slot took is not taken by another.
pub proof fn taken_places_stay_taken(bag: Bag, slot: LoadoutSlot, used: Set<usize>)
    requires
        bag.wf(),
    ensures
        match place_for(bag.normal@, slot, used) {
            Some(i) => {
                &&& 0 <= i < bag.normal@.len()
                &&& !used.contains(i as usize)
                &&& bag.normal@[i] is Some
                &&& bag.normal@[i]->0.item_id == slot.id
            },
            None => true,
        },
        used.subset_of(used_after(bag, slot, used)),
{
    let gem = if slot.gem >= 0 {
        Some(slot.gem)
    } else {
        None
    };
    let item_id = slot.id;
    let sort_id = slot.weapon_sort_id;
    suiting_is_free(bag.normal@, Wanted { item_id, gem, sort_id }, used, 0);
    suiting_is_free(bag.normal@, Wanted { item_id, gem: None, sort_id }, used, 0);
    suiting_is_free(bag.normal@, Wanted { item_id, gem, sort_id: None }, used, 0);
    suiting_is_free(bag.normal@, Wanted { item_id, gem: None, sort_id: None }, used, 0);
}

proof fn suiting_is_free(
    normal: Seq<Option<BagEntry>>,
    wanted: Wanted,
    used: Set<usize>,
    from: int,
)
    requires
        0 <= from,
    ensures
        match first_suiting(normal, wanted, used, from) {
            Some(i) => from <= i < normal.len() && !used.contains(i as usize) && suits(
                normal[i],
                wanted,
            ),
            None => true,
        },
    decreases normal.len() - from,
{
    if from < normal.len() && !(!used.contains(from as usize) && suits(normal[from], wanted)) {
        suiting_is_free(normal, wanted, used, from + 1);
    }
}

/// What fills an empty place.
pub open spec fn placeholder_of(slot: u8) -> Option<u32> {
    if is_weapon_slot(slot) {
        Some(FIST)
    } else if is_armor_slot(slot) {
        Some(bare_piece(slot))
    } else {
        None
    }
}

/// What is to be done next to wear an item or to empty a place.
#[derive(Clone, Copy, Debug, PartialEq, Eq, Structural)]
pub enum Move {
    /// Give this placeholder, which the bag lacks, and ask again.
    Give(u32),
    /// Make this call.
    Call(EquipCall),
    /// Nothing: the place is none of the fourteen.
    Nothing,
}

/// The first place of the bag with this item.
pub open spec fn first_of(bag: Bag, item_id: u32) -> Option<int> {
    first_suiting(
        bag.normal@,
        Wanted { item_id, gem: None, sort_id: None },
        Set::empty(),
        0,
    )
}

/// What is to be done next to empty a place; `given` tells that the placeholder was given.
pub open spec fn unequip_of(bag: Bag, slot: u8, given: bool) -> Result<Move, EquipError> {
    match placeholder_of(slot) {
        Some(item) => match first_of(bag, item) {
            Some(i) => Ok(
                Move::Call(EquipCall { slot, item, index: bag.absolute(i) as u32 }),
            ),
            None => if given {
                Err(EquipError::PlaceholderMissing(item))
            } else {
                Ok(Move::Give(item))
            },
        },
        None => if is_talisman_slot(slot) {
            Ok(Move::Call(EquipCall { slot, item: NOTHING, index: NOTHING }))
        } else {
            Ok(Move::Nothing)
        },
    }
}

/// Looks for a placeholder in the bag; asks for one where there is none and none was given.
pub fn ensure_placeholder(bag: &Bag, item_id: u32, given: bool) -> (found: Result<
    Option<(u32, u32, usize)>,
    EquipError,
>)
    requires
        bag.wf(),
    ensures
        match first_of(*bag, item_id) {
            Some(i) => 0 <= i < bag.normal@.len() && found == Ok::<
                Option<(u32, u32, usize)>,
                EquipError,
            >(Some((bag.absolute(i) as u32, bag.normal@[i]->0.handle, i as usize))),
            None => found == if given {
                Err::<Option<(u32, u32, usize)>, EquipError>(
                    EquipError::PlaceholderMissing(item_id),
                )
            } else {
                Ok::<Option<(u32, u32, usize)>, EquipError>(None)
            },
        },
{
    match find_inv_id(bag, item_id) {
        Some(found) => Ok(Some(found)),
        None => if given {
            Err(EquipError::PlaceholderMissing(item_id))
        } else {
            Ok(None)
        },
    }
}

/// Decides what is to be done next to empty a place.
pub fn unequip_slot_tga(bag: &Bag, slot: u8, given: bool) -> (step: Result<Move, EquipError>)
    requires
        bag.wf(),
    ensures
        step == unequip_of(*bag, slot, given),
{
    let item: u32 = if slot <= 5 {
        FIST
    } else if slot == 12 {
        0x1000_2710
    } else if slot == 13 {
        0x1000_2774
    } else if slot == 14 {
        0x1000_27D8
    } else if slot == 15 {
        0x1000_283C
    } else if 17 <= slot && slot <= 20 {
        return Ok(Move::Call(EquipCall { slot, item: NOTHING, index: NOTHING }));
    } else {
        return Ok(Move::Nothing);
    };
    match ensure_placeholder(bag, item, given) {
        Ok(Some((index, _handle, _place))) => Ok(Move::Call(EquipCall { slot, item, index })),
        Ok(None) => Ok(Move::Give(item)),
        Err(error) => Err(error),
    }
}

/// A run over the fourteen places that empties them all.
#[derive(Clone, Copy, Debug, PartialEq, Eq, Structural)]
pub struct UnequipRun {
    /// How many places are done.
    pub done: u8,
    /// Whether the placeholder of the next place was given.
    pub given: bool,
}

impl UnequipRun {
    /// At the first place.
    pub fn new() -> (run: Self)
        ensures
            run == (UnequipRun { done: 0, given: false }),
    {
        UnequipRun { done: 0, given: false }
    }
}

/// One step of emptying all places; `None` at the end.
pub open spec fn unequip_step(run: UnequipRun, bag: Bag) -> (
    UnequipRun,
    Option<Result<Move, EquipError>>,
) {
    if run.done >= 14 {
        (run, None)
    } else {
        let next = unequip_of(bag, loadout_slot(run.done as int), run.given);
        (
            match next {
                Ok(Move::Give(_)) => UnequipRun { given: true, ..run },
                Ok(_) => UnequipRun { done: (run.done + 1) as u8, given: false },
                Err(_) => run,
            },
            Some(next),
        )
    }
}

/// Decides the next step of emptying all places, in the bag as it is now; `None` at the end.
///
/// After a step that gives a placeholder the same place is asked for again.
pub fn unequip_all(run: &mut UnequipRun, bag: &Bag) -> (step: Option<Result<Move, EquipError>>)
    requires
        bag.wf(),
    ensures
        (*final(run), step) == unequip_step(*old(run), *bag),
{
    if run.done >= 14 {
        return None;
    }
    let slot: u8 = if run.done < 6 {
        run.done
    } else if run.done < 10 {
        run.done + 6
    } else {
        run.done + 7
    };
    let step = unequip_slot_tga(bag, slot, run.given);
    match step {
        Ok(Move::Give(_)) => {
            run.given = true;
        },
        Ok(_) => {
            run.done = run.done + 1;
            run.given = false;
        },
        Err(_) => {},
    }
    Some(step)
}

/// Each of the fourteen places takes one equip call, and the fourteen are exactly the places
/// that the call accepts.
pub proof fn fourteen_places(bag: Bag, i: int, given: bool)
    requires
        0 <= i < 14,
    ensures
        is_loadout_slot(loadout_slot(i)),
        unequip_of(bag, loadout_slot(i), given) != Ok::<Move, EquipError>(Move::Nothing),
        unequip_of(bag, loadout_slot(i), given) matches Ok(Move::Call(call)) ==> call.slot
            == loadout_slot(i) && empty_in(call.slot, call.item),
        forall|slot: u8| #[trigger]
            is_loadout_slot(slot) ==> exists|j: int| 0 <= j < 14 && #[trigger] loadout_slot(j) == slot,
{
    assert forall|slot: u8| #[trigger] is_loadout_slot(slot) implies exists|j: int|
        0 <= j < 14 && #[trigger] loadout_slot(j) == slot by {
        let j = if slot <= 5 {
            slot as int
        } else if slot <= 15 {
            slot - 6
        } else {
            slot - 7
        };
        assert(loadout_slot(j) == slot);
    }
}

/// Where emptying all places stands after steps in these bags, and the calls that were asked for.
pub open spec fn unequip_calls(bags: Seq<Bag>) -> (UnequipRun, Seq<EquipCall>)
    decreases bags.len(),
{
    if bags.len() == 0 {
        (UnequipRun { done: 0, given: false }, seq![])
    } else {
        let (before, calls) = unequip_calls(bags.drop_last());
        let (after, step) = unequip_step(before, bags.last());
        (
            after,
            match step {
                Some(Ok(Move::Call(call))) => calls.push(call),
                _ => calls,
            },
        )
    }
}

/// A run that came to its end has emptied each of the fourteen places with one call, in order.
pub proof fn everything_is_taken_off(bags: Seq<Bag>)
    ensures
        ({
            let (run, calls) = unequip_calls(bags);
            &&& run.done <= 14
            &&& calls.len() == run.done
            &&& forall|i: int|
                0 <= i < calls.len() ==> (#[trigger] calls[i]).slot == loadout_slot(i) && empty_in(
                    calls[i].slot,
                    calls[i].item,
                )
        }),
    decreases bags.len(),
{
    if bags.len() > 0 {
        everything_is_taken_off(bags.drop_last());
        let before = unequip_calls(bags.drop_last()).0;
        if before.done < 14 {
            fourteen_places(bags.last(), before.done as int, before.given);
        }
    }
}

/// One worn place, as the game holds it.
#[derive(Clone, Copy, Debug, PartialEq, Eq, Structural)]
pub struct WornSlot {
    /// The worn item; `None` for nothing.
    pub id: Option<u32>,
    /// The handle of the worn instance, where the place has one.
    pub handle: Option<u32>,
    /// The index of the worn instance in the bag.
    pub index: Option<u32>,
    /// The ash of war on the instance; -1 for none.
    pub gem: i64,
}

/// What is worn, as the game holds it: weapons left and right in turn, armor from the head
/// down, then the talismans.
#[derive(Debug)]
pub struct Worn {
    pub weapons: [WornSlot; 6],
    pub armor: [WornSlot; 4],
    pub accessories: Vec<WornSlot>,
}

/// The ash of war on what a place holds.
pub open spec fn gem_in(worn: WornSlot) -> i64 {
    if worn.handle is Some && worn.handle->0 != 0 {
        worn.gem
    } else {
        -1i64
    }
}

/// The ash of war on what a place holds; -1 where the place holds no instance.
pub fn gem_of_slot(worn: &WornSlot) -> (gem: i64)
    ensures
        gem == gem_in(*worn),
{
    match worn.handle {
        Some(handle) if handle != 0 => worn.gem,
        _ => -1,
    }
}

/// The id that stands for what a place holds.
pub open spec fn worn_id(worn: WornSlot) -> u32 {
    match worn.id {
        Some(id) => id,
        None => NOTHING,
    }
}

/// A weapon place as it is saved.
pub open spec fn saved_weapon(bag: Bag, slot: u8, worn: WornSlot) -> LoadoutSlot {
    LoadoutSlot {
        slot,
        id: worn_id(worn),
        gem: gem_in(worn),
        weapon_sort_id: weapon_rank(instances(bag, worn_id(worn)), worn.handle),
        accessory_ordinal: None,
    }
}

/// A talisman place as it is saved.
pub open spec fn saved_talisman(bag: Bag, slot: u8, worn: WornSlot) -> LoadoutSlot {
    let id = worn_id(worn);
    LoadoutSlot {
        slot,
        id,
        gem: -1i64,
        weapon_sort_id: None,
        accessory_ordinal: if empty_in(slot, id) {
            None
        } else {
            accessory_rank(instances(bag, id), worn.index, worn.handle)
        },
    }
}

/// The saved slot number `i` of the fourteen.
pub open spec fn saved_slot(bag: Bag, worn: Worn, i: int) -> LoadoutSlot {
    let slot = loadout_slot(i);
    if i < 6 {
        saved_weapon(bag, slot, worn.weapons@[i])
    } else if i < 10 {
        LoadoutSlot {
            slot,
            id: worn_id(worn.armor@[i - 6]),
            gem: -1i64,
            weapon_sort_id: None,
            accessory_ordinal: None,
        }
    } else {
        saved_talisman(bag, slot, worn.accessories@[i - 10])
    }
}

/// What is worn, as it is saved.
pub open spec fn saved_loadout(bag: Bag, worn: Worn) -> Seq<LoadoutSlot> {
    Seq::new(14, |i: int| saved_slot(bag, worn, i))
}

fn id_in(worn: &WornSlot) -> (id: u32)
    ensures
        id == worn_id(*worn),
{
    match worn.id {
        Some(id) => id,
        None => NOTHING,
    }
}

/// Saves what is worn; fails where the game does not show fourteen places.
pub fn capture_loadout(bag: &Bag, worn: &Worn) -> (loadout: Result<Vec<LoadoutSlot>, EquipError>)
    requires
        bag.wf(),
        worn.accessories@.len() + 10 <= usize::MAX,
    ensures
        match loadout {
            Ok(slots) => {
                &&& worn.accessories@.len() == 4 && slots@ == saved_loadout(*bag, *worn)
                &&& slots@.len() == 14
                &&& forall|k: int|
                    0 <= k < 6 ==> (#[trigger] slots@[k]).slot == k && slots@[k].id == worn_id(
                        worn.weapons@[k],
                    )
                &&& slots@[6].slot == 12 && slots@[6].id == worn_id(worn.armor@[0])
                &&& slots@[7].slot == 13 && slots@[7].id == worn_id(worn.armor@[1])
                &&& slots@[8].slot == 14 && slots@[8].id == worn_id(worn.armor@[2])
                &&& slots@[9].slot == 15 && slots@[9].id == worn_id(worn.armor@[3])
                &&& forall|k: int|
                    10 <= k < 14 ==> (#[trigger] slots@[k]).slot == k + 7 && slots@[k].id
                        == worn_id(worn.accessories@[k - 10])
            },
            Err(error) => worn.accessories@.len() != 4 && error == EquipError::CaptureFailed(
                (worn.accessories@.len() + 10) as usize,
            ),
        },
{
    let count: usize = worn.accessories.len();
    if count != 4 {
        return Err(EquipError::CaptureFailed(count + 10));
    }
    let mut out: Vec<LoadoutSlot> = Vec::new();
    let mut at: usize = 0;
    while at < 14
        invariant
            bag.wf(),
            worn.accessories@.len() == 4,
            at <= 14,
            out@.len() == at,
            forall|i: int| 0 <= i < at ==> #[trigger] out@[i] == saved_slot(*bag, *worn, i),
        decreases 14 - at,
    {
        if at < 6 {
            let piece: WornSlot = worn.weapons[at];
            let id: u32 = id_in(&piece);
            out.push(
                LoadoutSlot {
                    slot: at as u8,
                    id,
                    gem: gem_of_slot(&piece),
                    weapon_sort_id: weapon_sort_id_of_slot(bag, id, piece.handle),
                    accessory_ordinal: None,
                },
            );
        } else if at < 10 {
            out.push(
                LoadoutSlot {
                    slot: at as u8 + 6,
                    id: id_in(&worn.armor[at - 6]),
                    gem: -1,
                    weapon_sort_id: None,
                    accessory_ordinal: None,
                },
            );
        } else {
            let piece: WornSlot = worn.accessories[at - 10];
            let slot: u8 = at as u8 + 7;
            let id: u32 = id_in(&piece);
            let accessory_ordinal = if is_empty_loadout(slot, id) {
                None
            } else {
                accessory_ordinal_of_slot(bag, id, piece.index, piece.handle)
            };
            out.push(
                LoadoutSlot { slot, id, gem: -1, weapon_sort_id: None, accessory_ordinal },
            );
        }
        at = at + 1;
    }
    assert(out@ =~= saved_loadout(*bag, *worn));
    Ok(out)
}

/// How many of the slots are worn and in places of one kind.
pub open spec fn worn_count(slots: Seq<LoadoutSlot>, kind: spec_fn(u8) -> bool) -> nat {
    slots.filter(|s: LoadoutSlot| !empty_in(s.slot, s.id) && kind(s.slot)).len()
}

/// What the loadout line says.
pub open spec fn loadout_text(slots: Seq<LoadoutSlot>) -> Seq<char> {
    if slots.len() == 0 {
        "穿戴：无（请重新保存）"@
    } else {
        "穿戴 武器"@ + decimal(worn_count(slots, |slot: u8| is_weapon_slot(slot)) as int)
            + "/6 护甲"@ + decimal(worn_count(slots, |slot: u8| is_armor_slot(slot)) as int)
            + "/4 护符"@ + decimal(worn_count(slots, |slot: u8| is_talisman_slot(slot)) as int)
            + "/4"@
    }
}

proof fn count_one_more(slots: Seq<LoadoutSlot>, i: int, kind: spec_fn(u8) -> bool)
    requires
        0 <= i < slots.len(),
    ensures
        worn_count(slots.take(i + 1), kind) == worn_count(slots.take(i), kind) + if !empty_in(
            slots[i].slot,
            slots[i].id,
        ) && kind(slots[i].slot) {
            1nat
        } else {
            0nat
        },
{
    let wanted = |s: LoadoutSlot| !empty_in(s.slot, s.id) && kind(s.slot);
    assert(slots.take(i + 1).drop_last() =~= slots.take(i));
    reveal(Seq::filter);
}

/// Says how many weapons, pieces of armor and talismans a loadout holds.
pub fn loadout_describe(slots: &[LoadoutSlot]) -> (text: String)
    ensures
        text@ == loadout_text(slots@),
{
    if slots.len() == 0 {
        return "穿戴：无（请重新保存）".to_owned();
    }
    let ghost weapon = |slot: u8| is_weapon_slot(slot);
    let ghost armor = |slot: u8| is_armor_slot(slot);
    let ghost talisman = |slot: u8| is_talisman_slot(slot);
    let mut weapons: usize = 0;
    let mut pieces: usize = 0;
    let mut talismans: usize = 0;
    let mut at: usize = 0;
    assert(slots@.take(0) =~= seq![]);
    assert(seq![].filter(|s: LoadoutSlot| !empty_in(s.slot, s.id) && weapon(s.slot)).len() == 0)
        by {
        reveal(Seq::filter);
    }
    assert(seq![].filter(|s: LoadoutSlot| !empty_in(s.slot, s.id) && armor(s.slot)).len() == 0) by {
        reveal(Seq::filter);
    }
    assert(seq![].filter(|s: LoadoutSlot| !empty_in(s.slot, s.id) && talisman(s.slot)).len() == 0)
        by {
        reveal(Seq::filter);
    }
    while at < slots.len()
        invariant
            at <= slots@.len(),
            slots@.len() <= usize::MAX,
            weapons <= at,
            pieces <= at,
            talismans <= at,
            weapon == (|slot: u8| is_weapon_slot(slot)),
            armor == (|slot: u8| is_armor_slot(slot)),
            talisman == (|slot: u8| is_talisman_slot(slot)),
            weapons == worn_count(slots@.take(at as int), weapon),
            pieces == worn_count(slots@.take(at as int), armor),
            talismans == worn_count(slots@.take(at as int), talisman),
        decreases slots@.len() - at,
    {
        let one: LoadoutSlot = slots[at];
        proof {
            count_one_more(slots@, at as int, weapon);
            count_one_more(slots@, at as int, armor);
            count_one_more(slots@, at as int, talisman);
        }
        if !is_empty_loadout(one.slot, one.id) {
            if one.slot <= 5 {
                weapons = weapons + 1;
            } else if 12 <= one.slot && one.slot <= 15 {
                pieces = pieces + 1;
            } else if 17 <= one.slot && one.slot <= 20 {
                talismans = talismans + 1;
            }
        }
        at = at + 1;
    }
    assert(slots@.take(slots@.len() as int) =~= slots@);
    let mut text = "穿戴 武器".to_owned();
    push_decimal(&mut text, weapons as u64);
    text.append("/6 护甲");
    push_decimal(&mut text, pieces as u64);
    text.append("/4 护符");
    push_decimal(&mut text, talismans as u64);
    text.append("/4");
    text
}

/// The place of a saved slot in the order of wearing: empty places first, then by place.
pub open spec fn wear_key(slot: LoadoutSlot) -> u64 {
    if empty_in(slot.slot, slot.id) {
        slot.slot as u64
    } else {
        (256 + slot.slot) as u64
    }
}

/// The saved slots in the order in which they are worn.
pub open spec fn wear_order(slots: Seq<LoadoutSlot>) -> Seq<LoadoutSlot> {
    sorted(slots, slots.map_values(|s: LoadoutSlot| wear_key(s)))
}

/// Puts the places to empty before the places to fill, each by place.
pub fn sort_loadout_for_apply(slots: &[LoadoutSlot]) -> (list: Vec<LoadoutSlot>)
    ensures
        list@ == wear_order(slots@),
        list@.len() == slots@.len(),
        list@.to_multiset() == slots@.to_multiset(),
{
    let mut keys: Vec<u64> = Vec::new();
    let count: usize = slots.len();
    let mut at: usize = 0;
    while at < count
        invariant
            at <= count,
            count == slots@.len(),
            keys@.len() == at,
            forall|i: int| 0 <= i < at ==> #[trigger] keys@[i] == wear_key(slots@[i]),
        decreases count - at,
    {
        let one: LoadoutSlot = slots[at];
        keys.push(
            if is_empty_loadout(one.slot, one.id) {
                one.slot as u64
            } else {
                256 + one.slot as u64
            },
        );
        at = at + 1;
    }
    assert(keys@ =~= slots@.map_values(|s: LoadoutSlot| wear_key(s)));
    let order: Vec<usize> = stable_order(&keys);
    let mut list: Vec<LoadoutSlot> = Vec::new();
    let mut taken: usize = 0;
    while taken < order.len()
        invariant
            taken <= order@.len(),
            is_stable_order(keys@, order@),
            keys@.len() == slots@.len(),
            list@ == arranged(slots@, order@.take(taken as int)),
        decreases order@.len() - taken,
    {
        assert(order@[taken as int] < keys@.len());
        list.push(slots[order[taken]]);
        assert(order@.take(taken + 1) =~= order@.take(taken as int).push(order@[taken as int]));
        assert(list@ =~= arranged(slots@, order@.take(taken + 1)));
        taken = taken + 1;
    }
    proof {
        assert(order@.take(order@.len() as int) =~= order@);
        stable_is(keys@, order@);
        sorting_rearranges(slots@, keys@);
    }
    list
}

/// In the order of wearing every saved slot has its turn, and nothing else.
pub proof fn every_slot_has_its_turn(slots: Seq<LoadoutSlot>)
    requires
        slots.len() <= usize::MAX,
    ensures
        wear_order(slots).len() == slots.len(),
        wear_order(slots).to_multiset() == slots.to_multiset(),
{
    sorting_rearranges(slots, slots.map_values(|s: LoadoutSlot| wear_key(s)));
}

/// In the order of wearing no place is filled before another is emptied.
pub proof fn emptied_before_filled(slots: Seq<LoadoutSlot>, i: int, j: int)
    requires
        slots.len() <= usize::MAX,
        0 <= i < j < slots.len(),
        empty_in(wear_order(slots)[j].slot, wear_order(slots)[j].id),
    ensures
        empty_in(wear_order(slots)[i].slot, wear_order(slots)[i].id),
{
    let keys = slots.map_values(|s: LoadoutSlot| wear_key(s));
    stable_exists(keys);
    let order = stable(keys);
    assert(before(keys, order[i] as int, order[j] as int));
    assert(wear_order(slots)[i] == slots[order[i] as int]);
    assert(wear_order(slots)[j] == slots[order[j] as int]);
}

/// Where wearing a saved loadout stands.
#[derive(Clone, Copy, Debug, PartialEq, Eq, Structural)]
pub enum DressStage {
    /// Nothing was asked for.
    Ready,
    /// The placeholder of this place was asked for.
    Emptying(u8),
    /// An equip call was asked for.
    Calling,
}

/// Wearing a saved loadout, slot by slot.
pub struct Dressing {
    pub slots: Vec<LoadoutSlot>,
    /// How many slots were taken up.
    pub next: usize,
    /// The places of the bag that are used up.
    pub used: HashSet<usize>,
    pub stage: DressStage,
    /// How many slots were worn.
    pub done: u32,
}

/// The same as plain values.
pub struct DressState {
    pub slots: Seq<LoadoutSlot>,
    pub next: int,
    pub used: Set<usize>,
    pub stage: DressStage,
    pub done: int,
}

impl View for Dressing {
    type V = DressState;

    open spec fn view(&self) -> DressState {
        DressState {
            slots: self.slots@,
            next: self.next as int,
            used: self.used@,
            stage: self.stage,
            done: self.done as int,
        }
    }
}

impl DressState {
    /// A slot is counted at most once.
    pub open spec fn wf(self) -> bool {
        &&& 0 <= self.next <= self.slots.len() <= u32::MAX
        &&& 0 <= self.done <= self.next
        &&& self.stage != DressStage::Ready ==> self.done < self.next
    }
}

/// What wearing asks for next.
#[derive(Clone, Copy, Debug, PartialEq, Eq, Structural)]
pub enum DressStep {
    /// Give this placeholder.
    Give(u32),
    /// Make this call.
    Call(EquipCall),
    /// The slot needs nothing.
    Passed,
    /// The slot is left alone.
    Skipped(EquipError),
    /// All slots were taken up.
    Finished,
}

/// The first move for a saved slot.
pub open spec fn first_move(bag: Bag, slot: LoadoutSlot, used: Set<usize>) -> Result<Move, EquipError> {
    match wear_of(bag, slot, used) {
        Ok(Wear::Unequip(place)) => unequip_of(bag, place, false),
        Ok(Wear::Equip(call)) => Ok(Move::Call(call)),
        Err(error) => Err(error),
    }
}

/// After the outcome of what was asked for is known.
pub open spec fn answered(state: DressState, failed: bool) -> DressState {
    match state.stage {
        DressStage::Ready => state,
        DressStage::Emptying(_) => if failed {
            DressState { stage: DressStage::Ready, ..state }
        } else {
            state
        },
        DressStage::Calling => DressState {
            stage: DressStage::Ready,
            done: if failed {
                state.done
            } else {
                state.done + 1
            },
            ..state
        },
    }
}

/// After a move for `place` was chosen.
pub open spec fn moved(state: DressState, place: u8, chosen: Result<Move, EquipError>) -> (
    DressState,
    DressStep,
) {
    match chosen {
        Ok(Move::Give(item)) => (
            DressState { stage: DressStage::Emptying(place), ..state },
            DressStep::Give(item),
        ),
        Ok(Move::Call(call)) => (
            DressState { stage: DressStage::Calling, ..state },
            DressStep::Call(call),
        ),
        Ok(Move::Nothing) => (
            DressState { stage: DressStage::Ready, done: state.done + 1, ..state },
            DressStep::Passed,
        ),
        Err(error) => (
            DressState { stage: DressStage::Ready, ..state },
            DressStep::Skipped(error),
        ),
    }
}

/// One step of wearing: the outcome of the last request goes in, the next request comes out.
pub open spec fn dressed(state: DressState, failed: bool, bag: Bag) -> (DressState, DressStep) {
    let state = answered(state, failed);
    match state.stage {
        DressStage::Emptying(place) => moved(state, place, unequip_of(bag, place, true)),
        _ => if state.next >= state.slots.len() {
            (state, DressStep::Finished)
        } else {
            let slot = state.slots[state.next];
            moved(
                DressState {
                    next: state.next + 1,
                    used: used_after(bag, slot, state.used),
                    ..state
                },
                slot.slot,
                first_move(bag, slot, state.used),
            )
        },
    }
}

impl Dressing {
    /// At the first slot.
    pub fn new(slots: Vec<LoadoutSlot>) -> (dressing: Self)
        requires
            slots@.len() <= u32::MAX,
        ensures
            dressing@ == (DressState {
                slots: slots@,
                next: 0,
                used: Set::empty(),
                stage: DressStage::Ready,
                done: 0,
            }),
            dressing@.wf(),
    {
        Dressing { slots, next: 0, used: HashSet::new(), stage: DressStage::Ready, done: 0 }
    }

    /// Takes the outcome of the last request.
    pub fn answer(&mut self, failed: bool)
        requires
            old(self)@.wf(),
        ensures
            final(self)@ == answered(old(self)@, failed),
            final(self)@.wf(),
    {
        match self.stage {
            DressStage::Ready => {},
            DressStage::Emptying(_) => {
                if failed {
                    self.stage = DressStage::Ready;
                }
            },
            DressStage::Calling => {
                self.stage = DressStage::Ready;
                if !failed {
                    self.done = self.done + 1;
                }
            },
        }
    }

    /// Takes the outcome of the last request, and decides the next one in the bag as it is.
    pub fn step(&mut self, failed: bool, bag: &Bag) -> (step: DressStep)
        requires
            old(self)@.wf(),
            bag.wf(),
        ensures
            (final(self)@, step) == dressed(old(self)@, failed, *bag),
            final(self)@.wf(),
    {
        self.answer(failed);
        let (place, chosen) = match self.stage {
            DressStage::Emptying(place) => (place, unequip_slot_tga(bag, place, true)),
            _ => {
                if self.next >= self.slots.len() {
                    return DressStep::Finished;
                }
                let slot: LoadoutSlot = self.slots[self.next];
                self.next = self.next + 1;
                let chosen = match apply_one(bag, &slot, &mut self.used) {
                    Ok(Wear::Unequip(place)) => unequip_slot_tga(bag, place, false),
                    Ok(Wear::Equip(call)) => Ok(Move::Call(call)),
                    Err(error) => Err(error),
                };
                (slot.slot, chosen)
            },
        };
        match chosen {
            Ok(Move::Give(item)) => {
                self.stage = DressStage::Emptying(place);
                DressStep::Give(item)
            },
            Ok(Move::Call(call)) => {
                self.stage = DressStage::Calling;
                DressStep::Call(call)
            },
            Ok(Move::Nothing) => {
                self.stage = DressStage::Ready;
                self.done = self.done + 1;
                DressStep::Passed
            },
            Err(error) => {
                self.stage = DressStage::Ready;
                DressStep::Skipped(error)
            },
        }
    }
}

/// How many steps wearing can still take.
pub open spec fn dress_measure(state: DressState) -> int {
    3 * (state.slots.len() - state.next) + match state.stage {
        DressStage::Emptying(_) => 2int,
        DressStage::Calling => 1int,
        DressStage::Ready => 0int,
    }
}

/// Wearing comes to an end: each step but the last brings it nearer.
pub proof fn dressing_ends(state: DressState, failed: bool, bag: Bag)
    requires
        state.wf(),
        bag.wf(),
    ensures
        dressed(state, failed, bag).0.wf(),
        dressed(state, failed, bag).1 != DressStep::Finished ==> dress_measure(
            dressed(state, failed, bag).0,
        ) < dress_measure(state),
{
}

/// A place of the bag that was used for one slot is never handed out for another: what is used
/// only grows.
pub proof fn dressing_keeps_used(state: DressState, failed: bool, bag: Bag)
    requires
        state.wf(),
        bag.wf(),
    ensures
        state.used.subset_of(dressed(state, failed, bag).0.used),
{
}

/// Wearing a whole saved loadout at once, collecting what went wrong.
pub struct LoadoutRun {
    pub dressing: Dressing,
    pub errors: Vec<String>,
}

/// Starts wearing a saved loadout; refuses where there is none or no equip call.
pub fn apply_loadout(slots: &[LoadoutSlot], ready: bool) -> (run: Result<LoadoutRun, EquipError>)
    requires
        slots@.len() <= u32::MAX,
    ensures
        match run {
            Ok(run) => {
                &&& slots@.len() > 0 && ready
                &&& run.dressing@ == (DressState {
                    slots: wear_order(slots@),
                    next: 0,
                    used: Set::empty(),
                    stage: DressStage::Ready,
                    done: 0,
                })
                &&& run.dressing@.wf()
                &&& run.errors@.len() == 0
                &&& adds_up(run.dressing@, texts(run.errors@))
            },
            Err(error) => if slots@.len() == 0 {
                error == EquipError::NoLoadout
            } else {
                !ready && error == EquipError::Unresolved
            },
        },
{
    if slots.len() == 0 {
        return Err(EquipError::NoLoadout);
    }
    if !ready {
        return Err(EquipError::Unresolved);
    }
    Ok(LoadoutRun { dressing: Dressing::new(sort_loadout_for_apply(slots)), errors: Vec::new() })
}

/// What is noted of one step: the failure of the last request, then the slot that was skipped.
pub open spec fn noted(
    errors: Seq<Seq<char>>,
    stage: DressStage,
    failure: Option<Seq<char>>,
    step: DressStep,
) -> Seq<Seq<char>> {
    let errors = if failure is Some && stage != DressStage::Ready {
        errors.push(failure->0)
    } else {
        errors
    };
    match step {
        DressStep::Skipped(error) => errors.push(error.text()),
        _ => errors,
    }
}

/// How many slots still wait for the outcome of a request.
pub open spec fn pending(state: DressState) -> int {
    if state.stage == DressStage::Ready {
        0
    } else {
        1
    }
}

/// Whether every slot that was taken up was worn, failed, or is pending.
pub open spec fn adds_up(state: DressState, errors: Seq<Seq<char>>) -> bool {
    state.done + errors.len() + pending(state) == state.next
}

/// What one step of wearing a whole loadout meets: the failure of the last request, and the bag.
pub struct Fitting {
    pub failure: Option<Seq<char>>,
    pub bag: Bag,
}

/// Where wearing a whole loadout stands after some steps, and what went wrong.
pub open spec fn loadout_after(slots: Seq<LoadoutSlot>, fittings: Seq<Fitting>) -> (
    DressState,
    Seq<Seq<char>>,
)
    decreases fittings.len(),
{
    if fittings.len() == 0 {
        (
            DressState {
                slots: wear_order(slots),
                next: 0,
                used: Set::empty(),
                stage: DressStage::Ready,
                done: 0,
            },
            seq![],
        )
    } else {
        let (before, errors) = loadout_after(slots, fittings.drop_last());
        let met = fittings.last();
        let (after, step) = dressed(before, met.failure is Some, met.bag);
        (after, noted(errors, before.stage, met.failure, step))
    }
}

/// Whether a run ends with the collected messages instead of a count.
pub open spec fn run_fails(done: int, errors: Seq<Seq<char>>) -> bool {
    done == 0 && errors.len() > 0
}

/// A step keeps the count of what was worn, what failed and what is pending.
pub proof fn steps_add_up(
    state: DressState,
    errors: Seq<Seq<char>>,
    failure: Option<Seq<char>>,
    bag: Bag,
)
    requires
        state.wf(),
        adds_up(state, errors),
    ensures
        ({
            let (after, step) = dressed(state, failure is Some, bag);
            &&& after.wf()
            &&& after.slots == state.slots
            &&& adds_up(after, noted(errors, state.stage, failure, step))
            &&& step == DressStep::Finished ==> after.next == after.slots.len() && after.stage
                == DressStage::Ready
        }),
{
}

/// Over a whole run the slots that were worn, those that failed and the one that is pending are
/// together those that were taken up. Once the run is over, every saved slot was worn or failed
/// with one message, so the run as a whole fails only where every slot did.
pub proof fn every_slot_is_worn_or_fails(slots: Seq<LoadoutSlot>, fittings: Seq<Fitting>)
    requires
        0 < slots.len() <= u32::MAX,
    ensures
        ({
            let (state, errors) = loadout_after(slots, fittings);
            &&& state.wf()
            &&& state.slots == wear_order(slots)
            &&& adds_up(state, errors)
            &&& state.next == slots.len() && pending(state) == 0 ==> {
                &&& state.done + errors.len() == slots.len()
                &&& run_fails(state.done, errors) <==> errors.len() == slots.len()
            }
        }),
    decreases fittings.len(),
{
    every_slot_has_its_turn(slots);
    if fittings.len() > 0 {
        every_slot_is_worn_or_fails(slots, fittings.drop_last());
        let (before, errors) = loadout_after(slots, fittings.drop_last());
        steps_add_up(before, errors, fittings.last().failure, fittings.last().bag);
    }
}

impl LoadoutRun {
    /// Takes the failure of the last request, if it failed, and decides the next one.
    pub fn step(&mut self, failure: Option<String>, bag: &Bag) -> (step: DressStep)
        requires
            old(self).dressing@.wf(),
            bag.wf(),
        ensures
            (final(self).dressing@, step) == dressed(old(self).dressing@, failure is Some, *bag),
            texts(final(self).errors@) == noted(
                texts(old(self).errors@),
                old(self).dressing@.stage,
                text_or_none(failure),
                step,
            ),
            final(self).dressing@.wf(),
            adds_up(old(self).dressing@, texts(old(self).errors@)) ==> adds_up(
                final(self).dressing@,
                texts(final(self).errors@),
            ),
    {
        let ghost start = self.dressing@;
        let ghost reason = text_or_none(failure);
        proof {
            if adds_up(start, texts(self.errors@)) {
                steps_add_up(start, texts(self.errors@), reason, *bag);
            }
        }
        let waiting = match self.dressing.stage {
            DressStage::Ready => false,
            _ => true,
        };
        let failed = failure.is_some();
        let ghost before = texts(self.errors@);
        match failure {
            Some(text) => {
                if waiting {
                    self.errors.push(text);
                    assert(texts(self.errors@) =~= before.push(text@));
                }
            },
            None => {},
        }
        let step = self.dressing.step(failed, bag);
        match step {
            DressStep::Skipped(error) => {
                let ghost middle = texts(self.errors@);
                self.errors.push(error.message());
                assert(texts(self.errors@) =~= middle.push(error.text()));
            },
            _ => {},
        }
        step
    }

    /// How many slots were worn; the collected messages where it was none for want of them.
    pub fn finish(&self) -> (outcome: Result<u32, String>)
        ensures
            outcome is Err <==> run_fails(self.dressing@.done, texts(self.errors@)),
            match outcome {
                Ok(done) => (self.dressing.done > 0 || self.errors@.len() == 0) && done
                    == self.dressing.done,
                Err(text) => self.dressing.done == 0 && self.errors@.len() > 0 && text@ == joined(
                    texts(self.errors@),
                    "\n"@,
                ),
            },
    {
        if self.dressing.done == 0 && self.errors.len() > 0 {
            Err(join(&self.errors, "\n"))
        } else {
            Ok(self.dressing.done)
        }
    }
}

/// The saved talisman slots that name one of several equal talismans.
pub open spec fn is_ranked(slot: LoadoutSlot) -> bool {
    is_talisman_slot(slot.slot) && slot.accessory_ordinal is Some
}

/// The call that wears the named one of several equal talismans.
pub open spec fn ranked_call(bag: Bag, slot: LoadoutSlot) -> Result<EquipCall, EquipError> {
    let list = instances(bag, slot.id);
    let ordinal = slot.accessory_ordinal->0;
    if ordinal < list.len() {
        Ok(
            EquipCall {
                slot: slot.slot,
                item: list[ordinal as int].handle,
                index: list[ordinal as int].index,
            },
        )
    } else {
        Err(
            EquipError::TooFewTalismans {
                slot: slot.slot,
                ordinal,
                count: list.len() as usize,
            },
        )
    }
}

/// The first ranked slot from `from` on.
pub open spec fn next_ranked(slots: Seq<LoadoutSlot>, from: int) -> int
    decreases slots.len() - from,
{
    if from < 0 || from >= slots.len() || is_ranked(slots[from]) {
        from
    } else {
        next_ranked(slots, from + 1)
    }
}

/// Decides the next call of wearing again each saved talisman that was one of several equal
/// ones; `None` after the last. `at` is how many slots were looked at, and the count of calls
/// is the count of `Some(Ok(..))`; the run is over with the first error.
pub fn apply_saved_accessory_ordinals(slots: &[LoadoutSlot], at: &mut usize, bag: &Bag) -> (call:
    Option<Result<EquipCall, EquipError>>)
    requires
        bag.wf(),
        *old(at) <= slots@.len(),
    ensures
        ({
            let found = next_ranked(slots@, *old(at) as int);
            if found < slots@.len() {
                *final(at) == found + 1 && call == Some(ranked_call(*bag, slots@[found]))
            } else {
                *final(at) == slots@.len() && call is None
            }
        }),
{
    let count: usize = slots.len();
    while *at < count
        invariant
            *at <= count,
            count == slots@.len(),
            bag.wf(),
            next_ranked(slots@, *at as int) == next_ranked(slots@, *old(at) as int),
        decreases count - *at,
    {
        let slot: LoadoutSlot = slots[*at];
        *at = *at + 1;
        if 17 <= slot.slot && slot.slot <= 20 {
            match slot.accessory_ordinal {
                Some(ordinal) => {
                    let list: Vec<Instance> = inventory_instances(bag, slot.id);
                    let rank: usize = ordinal as usize;
                    if rank < list.len() {
                        let target: Instance = list[rank];
                        return Some(equip_gear_call(slot.slot, target.handle, target.index));
                    }
                    return Some(
                        Err(
                            EquipError::TooFewTalismans {
                                slot: slot.slot,
                                ordinal,
                                count: list.len(),
                            },
                        ),
                    );
                },
                None => {},
            }
        }
    }
    None
}

/// The handles that name a worn instance.
pub open spec fn handle_set(handles: Seq<u32>) -> Set<u32> {
    Set::new(|handle: u32| handle != 0 && handle != u32::MAX && handles.contains(handle))
}

fn add_handles(out: &mut HashSet<u32>, handles: &Vec<u32>)
    ensures
        final(out)@ == old(out)@.union(handle_set(handles@)),
{
    let ghost start = out@;
    let mut at: usize = 0;
    while at < handles.len()
        invariant
            at <= handles@.len(),
            start == old(out)@,
            out@ == start.union(handle_set(handles@.take(at as int))),
        decreases handles@.len() - at,
    {
        let handle: u32 = handles[at];
        let ghost part = out@;
        if handle != 0 && handle != u32::MAX {
            out.insert(handle);
        }
        assert(handles@.take(at + 1) =~= handles@.take(at as int).push(handle));
        assert forall|h: u32| #[trigger]
            handles@.take(at + 1).contains(h) == (handles@.take(at as int).contains(h) || h
                == handle) by {
            if handles@.take(at as int).contains(h) {
                let i = choose|i: int| 0 <= i < at && handles@.take(at as int)[i] == h;
                assert(handles@.take(at + 1)[i] == h);
            }
            if h == handle {
                assert(handles@.take(at + 1)[at as int] == h);
            }
        }
        assert(out@ =~= start.union(handle_set(handles@.take(at + 1))));
        at = at + 1;
    }
    assert(handles@.take(handles@.len() as int) =~= handles@);
}

/// The handles of all worn instances, saved and live.
pub fn equipped_handles(saved: &Vec<u32>, live: &Vec<u32>) -> (handles: HashSet<u32>)
    ensures
        handles@ == handle_set(saved@).union(handle_set(live@)),
{
    let mut handles: HashSet<u32> = HashSet::new();
    add_handles(&mut handles, saved);
    assert(handles@ =~= handle_set(saved@));
    add_handles(&mut handles, live);
    handles
}

/// Whether the item in a place is a naked piece that is not worn.
pub open spec fn is_loose_bare(entry: Option<BagEntry>, worn: Set<u32>) -> bool {
    entry is Some && is_bare(entry->0.item_id) && !worn.contains(entry->0.handle)
}

/// The first place from `from` on with a naked piece that is not worn.
pub open spec fn first_loose_bare(normal: Seq<Option<BagEntry>>, worn: Set<u32>, from: int) -> int
    decreases normal.len() - from,
{
    if from < 0 || from >= normal.len() || is_loose_bare(normal[from], worn) {
        from
    } else {
        first_loose_bare(normal, worn, from + 1)
    }
}

/// How many copies a place counts as: at least one.
pub open spec fn copies(quantity: u32) -> u32 {
    if quantity < 1 {
        1
    } else {
        quantity
    }
}

/// The naked piece to remove next, if any: its index and its quantity.
pub open spec fn loose_bare(bag: Bag, worn: Set<u32>) -> Option<(u32, u32)> {
    let found = first_loose_bare(bag.normal@, worn, 0);
    if found < bag.normal@.len() {
        Some((bag.absolute(found) as u32, copies(bag.normal@[found]->0.quantity)))
    } else {
        None
    }
}

/// The first naked piece of the bag that is not worn: its absolute index and its quantity.
pub fn next_unequipped_bare(bag: &Bag, worn: &HashSet<u32>) -> (found: Option<(u32, u32)>)
    requires
        bag.wf(),
    ensures
        found == loose_bare(*bag, worn@),
{
    let mut at: usize = 0;
    while at < bag.normal.len()
        invariant
            bag.wf(),
            at <= bag.normal@.len(),
            first_loose_bare(bag.normal@, worn@, 0) == first_loose_bare(
                bag.normal@,
                worn@,
                at as int,
            ),
        decreases bag.normal@.len() - at,
    {
        match bag.normal[at] {
            Some(entry) => {
                if is_bare_armor(entry.item_id) && !worn.contains(&entry.handle) {
                    let quantity: u32 = if entry.quantity < 1 {
                        1
                    } else {
                        entry.quantity
                    };
                    return Some((bag.key_capacity + at as u32, quantity));
                }
            },
            None => {},
        }
        at = at + 1;
    }
    None
}

/// How many naked pieces one clearing removes at most.
pub const PURGE_LIMIT: u32 = 32;

/// Clearing the naked pieces that are not worn; the fists stay.
#[derive(Clone, Copy, Debug, PartialEq, Eq, Structural)]
pub struct PurgeRun {
    pub tries: u32,
    pub removed: u32,
    /// Whether a removal was asked for.
    pub waiting: bool,
}

impl PurgeRun {
    /// A removal counts only after it was tried.
    pub open spec fn wf(self) -> bool {
        &&& self.removed <= self.tries <= PURGE_LIMIT
        &&& self.waiting ==> self.removed < self.tries
    }

    /// Nothing removed yet.
    pub fn new() -> (run: Self)
        ensures
            run == (PurgeRun { tries: 0, removed: 0, waiting: false }),
            run.wf(),
    {
        PurgeRun { tries: 0, removed: 0, waiting: false }
    }
}

/// One step of the clearing.
pub open spec fn purged(run: PurgeRun, failed: bool, bag: Bag, worn: Set<u32>) -> (
    PurgeRun,
    Option<(u32, u32)>,
) {
    if run.waiting && failed {
        (PurgeRun { waiting: false, tries: PURGE_LIMIT, ..run }, None)
    } else {
        let removed = if run.waiting {
            (run.removed + 1) as u32
        } else {
            run.removed
        };
        let target = loose_bare(bag, worn);
        if run.tries >= PURGE_LIMIT || target is None {
            (PurgeRun { waiting: false, removed, ..run }, None)
        } else {
            (PurgeRun { tries: (run.tries + 1) as u32, removed, waiting: true }, target)
        }
    }
}

/// Takes the outcome of the last removal, and decides the next one: absolute index and
/// quantity. `None` where nothing is left, a removal failed or the limit is reached.
pub fn purge_placeholders(run: &mut PurgeRun, failed: bool, bag: &Bag, worn: &HashSet<u32>) -> (next:
    Option<(u32, u32)>)
    requires
        old(run).wf(),
        bag.wf(),
    ensures
        (*final(run), next) == purged(*old(run), failed, *bag, worn@),
        final(run).wf(),
{
    if run.waiting {
        run.waiting = false;
        if failed {
            run.tries = PURGE_LIMIT;
            return None;
        }
        run.removed = run.removed + 1;
    }
    if run.tries >= PURGE_LIMIT {
        return None;
    }
    let next = next_unequipped_bare(bag, worn);
    if next.is_some() {
        run.tries = run.tries + 1;
        run.waiting = true;
    }
    next
}

/// What the clearing removes is a naked piece that is not worn, never a fist.
pub proof fn clearing_spares_what_is_worn(bag: Bag, worn: Set<u32>)
    requires
        bag.wf(),
    ensures
        match loose_bare(bag, worn) {
            Some((index, quantity)) => {
                let place = index - bag.key_capacity;
                &&& 0 <= place < bag.normal@.len()
                &&& bag.normal@[place] is Some
                &&& is_bare(bag.normal@[place]->0.item_id)
                &&& bag.normal@[place]->0.item_id != FIST
                &&& !worn.contains(bag.normal@[place]->0.handle)
            },
            None => forall|i: int|
                0 <= i < bag.normal@.len() ==> !is_loose_bare(#[trigger] bag.normal@[i], worn),
        },
{
    loose_bare_is_first(bag.normal@, worn, 0);
}

proof fn loose_bare_is_first(normal: Seq<Option<BagEntry>>, worn: Set<u32>, from: int)
    requires
        0 <= from <= normal.len(),
    ensures
        from <= first_loose_bare(normal, worn, from) <= normal.len(),
        first_loose_bare(normal, worn, from) < normal.len() ==> is_loose_bare(
            normal[first_loose_bare(normal, worn, from)],
            worn,
        ),
        forall|i: int|
            from <= i < first_loose_bare(normal, worn, from) ==> !is_loose_bare(
                #[trigger] normal[i],
                worn,
            ),
    decreases normal.len() - from,
{
    if from < normal.len() && !is_loose_bare(normal[from], worn) {
        loose_bare_is_first(normal, worn, from + 1);
    }
}

/// How the weapons are held.
#[derive(Clone, Copy, Debug, PartialEq, Eq, Structural)]
pub enum ArmStyle {
    EmptyHanded,
    OneHanded,
    LeftBothHands,
    RightBothHands,
}

/// The number under which a way of holding is saved.
pub open spec fn style_number(style: ArmStyle) -> u8 {
    match style {
        ArmStyle::EmptyHanded => 0,
        ArmStyle::OneHanded => 1,
        ArmStyle::LeftBothHands => 2,
        ArmStyle::RightBothHands => 3,
    }
}

/// The way of holding that a saved number names; one-handed for a number that names none.
pub fn arm_style_from_u8(number: u8) -> (style: ArmStyle)
    ensures
        number <= 3 ==> style_number(style) == number,
        number > 3 ==> style == ArmStyle::OneHanded,
{
    match number {
        0 => ArmStyle::EmptyHanded,
        2 => ArmStyle::LeftBothHands,
        3 => ArmStyle::RightBothHands,
        _ => ArmStyle::OneHanded,
    }
}

/// The number under which the way of holding is saved; one-handed while the game is not ready.
pub fn capture_arm_style(style: Option<ArmStyle>) -> (number: u8)
    ensures
        number == match style {
            Some(style) => style_number(style),
            None => 1u8,
        },
{
    match style {
        Some(ArmStyle::EmptyHanded) => 0,
        Some(ArmStyle::OneHanded) | None => 1,
        Some(ArmStyle::LeftBothHands) => 2,
        Some(ArmStyle::RightBothHands) => 3,
    }
}

/// A way of holding to write, and the motions to ask for.
#[derive(Clone, Copy, Debug, PartialEq, Eq, Structural)]
pub struct ArmChange {
    pub style: ArmStyle,
    pub change_left: bool,
    pub change_right: bool,
}

/// Holding one weapon in each hand: a style, no motion.
pub open spec fn one_handed() -> ArmChange {
    ArmChange { style: ArmStyle::OneHanded, change_left: false, change_right: false }
}

/// The way of holding that a saved number names, and a motion where one weapon is held in both
/// hands.
pub open spec fn arm_change(number: u8) -> ArmChange {
    ArmChange {
        style: if number == 0 {
            ArmStyle::EmptyHanded
        } else if number == 2 {
            ArmStyle::LeftBothHands
        } else if number == 3 {
            ArmStyle::RightBothHands
        } else {
            ArmStyle::OneHanded
        },
        change_left: number == 2,
        change_right: number == 3,
    }
}

/// What takes the character to a saved way of holding: the style to write, and a motion where
/// one weapon is held in both hands.
pub fn apply_arm_style(number: u8) -> (change: ArmChange)
    ensures
        change == arm_change(number),
{
    let style = arm_style_from_u8(number);
    ArmChange {
        style,
        change_left: style == ArmStyle::LeftBothHands,
        change_right: style == ArmStyle::RightBothHands,
    }
}

/// What takes the character back to holding one weapon in each hand: a style, no motion.
pub fn reset_arm_style_one_handed() -> (change: ArmChange)
    ensures
        change == one_handed(),
{
    ArmChange { style: ArmStyle::OneHanded, change_left: false, change_right: false }
}

/// Each way of holding is saved under a number of its own, so that it comes back as it was.
pub proof fn styles_have_their_own_numbers(a: ArmStyle, b: ArmStyle)
    ensures
        style_number(a) <= 3,
        style_number(a) == style_number(b) ==> a == b,
        arm_change(style_number(a)).style == a,
{
}

/// Every instance of an item in the first `n` places is listed, and nothing else.
proof fn instances_are_places(bag: Bag, item_id: u32, n: int)
    requires
        0 <= n <= bag.normal@.len(),
    ensures
        forall|i: int|
            0 <= i < n && (#[trigger] bag.normal@[i]) is Some && bag.normal@[i]->0.item_id == item_id
                ==> instances_below(bag, item_id, n).contains(instance_at(bag, i)),
        forall|x: Instance| #[trigger]
            instances_below(bag, item_id, n).contains(x) ==> exists|i: int|
                0 <= i < n && (#[trigger] bag.normal@[i]) is Some && bag.normal@[i]->0.item_id
                    == item_id && x == instance_at(bag, i),
    decreases n,
{
    if n > 0 {
        instances_are_places(bag, item_id, n - 1);
        let rest = instances_below(bag, item_id, n - 1);
        let all = instances_below(bag, item_id, n);
        let new = instance_at(bag, n - 1);
        let grows = bag.normal@[n - 1] is Some && bag.normal@[n - 1]->0.item_id == item_id;
        assert forall|i: int|
            0 <= i < n && (#[trigger] bag.normal@[i]) is Some && bag.normal@[i]->0.item_id
                == item_id implies all.contains(instance_at(bag, i)) by {
            if i < n - 1 {
                let k = choose|k: int| 0 <= k < rest.len() && rest[k] == instance_at(bag, i);
                assert(all[k] == instance_at(bag, i));
            } else {
                assert(all[all.len() - 1] == new);
            }
        }
        assert forall|x: Instance| #[trigger] all.contains(x) implies exists|i: int|
            0 <= i < n && (#[trigger] bag.normal@[i]) is Some && bag.normal@[i]->0.item_id
                == item_id && x == instance_at(bag, i) by {
            let k = choose|k: int| 0 <= k < all.len() && all[k] == x;
            if grows && k == all.len() - 1 {
                assert(bag.normal@[n - 1] is Some);
            } else {
                assert(rest[k] == x);
                assert(rest.contains(x));
            }
        }
    }
}

/// The same of the ordered list.
proof fn ordered_instances(bag: Bag, item_id: u32)
    requires
        bag.wf(),
        bag.normal@.len() <= usize::MAX,
    ensures
        instances(bag, item_id).len() == instances_below(
            bag,
            item_id,
            bag.normal@.len() as int,
        ).len(),
        forall|i: int|
            0 <= i < bag.normal@.len() && (#[trigger] bag.normal@[i]) is Some
                && bag.normal@[i]->0.item_id == item_id ==> instances(bag, item_id).contains(
                instance_at(bag, i),
            ),
        forall|x: Instance| #[trigger]
            instances(bag, item_id).contains(x) ==> exists|i: int|
                0 <= i < bag.normal@.len() && (#[trigger] bag.normal@[i]) is Some
                    && bag.normal@[i]->0.item_id == item_id && x == instance_at(bag, i),
{
    let found = instances_below(bag, item_id, bag.normal@.len() as int);
    let list = instances(bag, item_id);
    instances_are_places(bag, item_id, bag.normal@.len() as int);
    instances_fit(bag, item_id, bag.normal@.len() as int);
    sorting_rearranges(found, sort_ids(found));
    found.to_multiset_ensures();
    list.to_multiset_ensures();
    assert forall|x: Instance| found.contains(x) == #[trigger] list.contains(x) by {
        assert(found.contains(x) == (found.to_multiset().count(x) > 0));
        assert(list.contains(x) == (list.to_multiset().count(x) > 0));
    }
}

/// Looking for a handle finds it where it is listed.
proof fn rank_finds(list: Seq<Instance>, handle: u32, from: int, k: int)
    requires
        0 <= from <= k < list.len() <= u32::MAX,
        list[k].handle == handle,
    ensures
        rank_by_handle(list, handle, from) is Some,
        rank_by_handle(list, handle, from)->0 < list.len(),
        list[rank_by_handle(list, handle, from)->0 as int].handle == handle,
    decreases list.len() - from,
{
    if list[from].handle != handle {
        rank_finds(list, handle, from + 1, k);
    }
}

/// What looking for an index or a handle finds is listed and meant.
proof fn ranks_are_meant(list: Seq<Instance>, sought: u32, from: int)
    requires
        0 <= from <= list.len() <= u32::MAX,
    ensures
        rank_by_handle(list, sought, from) matches Some(k) ==> k < list.len()
            && list[k as int].handle == sought,
        rank_by_index(list, sought, from) matches Some(k) ==> k < list.len() && (
        list[k as int].index == sought || list[k as int].place == sought),
    decreases list.len() - from,
{
    if from < list.len() {
        ranks_are_meant(list, sought, from + 1);
    }
}

/// A talisman that was saved as one of several equal ones is worn again by the index or the
/// handle that it was worn by.
pub proof fn saved_talisman_is_found_again(bag: Bag, slot: u8, worn: WornSlot)
    requires
        bag.wf(),
        bag.normal@.len() <= usize::MAX,
        saved_talisman(bag, slot, worn).accessory_ordinal is Some,
    ensures
        ({
            let saved = saved_talisman(bag, slot, worn);
            let x = instances(bag, saved.id)[saved.accessory_ordinal->0 as int];
            &&& ranked_call(bag, saved) == Ok::<EquipCall, EquipError>(
                EquipCall { slot, item: x.handle, index: x.index },
            )
            &&& worn.index == Some(x.index) || worn.index == Some(x.place as u32) || worn.handle
                == Some(x.handle)
        }),
{
    let id = worn_id(worn);
    let list = instances(bag, id);
    ordered_instances(bag, id);
    instances_fit(bag, id, bag.normal@.len() as int);
    if worn.index is Some {
        ranks_are_meant(list, worn.index->0, 0);
    }
    if worn.handle is Some {
        ranks_are_meant(list, worn.handle->0, 0);
    }
}

/// Two places with an item make two instances.
proof fn two_instances(bag: Bag, item_id: u32, i: int, j: int)
    requires
        bag.wf(),
        bag.normal@.len() <= usize::MAX,
        0 <= i < bag.normal@.len(),
        0 <= j < bag.normal@.len(),
        i != j,
        bag.normal@[i] is Some && bag.normal@[i]->0.item_id == item_id,
        bag.normal@[j] is Some && bag.normal@[j]->0.item_id == item_id,
    ensures
        instances(bag, item_id).len() >= 2,
{
    ordered_instances(bag, item_id);
    let list = instances(bag, item_id);
    let a = choose|k: int| 0 <= k < list.len() && list[k] == instance_at(bag, i);
    let b = choose|k: int| 0 <= k < list.len() && list[k] == instance_at(bag, j);
    assert(list[a].place == i && list[b].place == j);
}

/// The first place that suits is the only one that does.
proof fn suiting_place(
    normal: Seq<Option<BagEntry>>,
    wanted: Wanted,
    used: Set<usize>,
    from: int,
    i: int,
)
    requires
        0 <= from <= i < normal.len(),
        suits(normal[i], wanted),
        !used.contains(i as usize),
        forall|j: int| from <= j < i ==> !suits(#[trigger] normal[j], wanted),
    ensures
        first_suiting(normal, wanted, used, from) == Some(i),
    decreases i - from,
{
    if from < i {
        assert(!suits(normal[from], wanted));
        suiting_place(normal, wanted, used, from + 1, i);
    }
}

/// A weapon that was worn when it was saved is the one that is worn again: with the bag as it
/// was, and equal weapons told apart by handle and order number, the saved slot leads to an
/// equip call for the very same instance.
pub proof fn saved_weapon_is_worn_again(
    bag: Bag,
    slot: u8,
    worn: WornSlot,
    used: Set<usize>,
    i: int,
)
    requires
        bag.wf(),
        bag.normal@.len() <= usize::MAX,
        is_weapon_slot(slot),
        0 <= i < bag.normal@.len(),
        bag.normal@[i] is Some,
        worn.id == Some(bag.normal@[i]->0.item_id),
        worn.handle == Some(bag.normal@[i]->0.handle),
        worn.handle->0 != 0,
        worn.gem == bag.normal@[i]->0.gem,
        category_of(worn.id->0) == Some(ItemCategory::Weapon),
        !empty_in(slot, worn.id->0),
        !used.contains(i as usize),
        forall|j: int|
            0 <= j < bag.normal@.len() && j != i && (#[trigger] bag.normal@[j]) is Some
                && bag.normal@[j]->0.item_id == worn.id->0 ==> bag.normal@[j]->0.handle
                != bag.normal@[i]->0.handle && bag.normal@[j]->0.sort_id
                != bag.normal@[i]->0.sort_id,
    ensures
        first_move(bag, saved_weapon(bag, slot, worn), used) == Ok::<Move, EquipError>(
            Move::Call(
                EquipCall {
                    slot,
                    item: bag.normal@[i]->0.handle,
                    index: bag.absolute(i) as u32,
                },
            ),
        ),
{
    let id = worn.id->0;
    let entry = bag.normal@[i]->0;
    let list = instances(bag, id);
    let saved = saved_weapon(bag, slot, worn);
    ordered_instances(bag, id);
    instances_fit(bag, id, bag.normal@.len() as int);
    let k = choose|k: int| 0 <= k < list.len() && list[k] == instance_at(bag, i);
    rank_finds(list, entry.handle, 0, k);
    let r = rank_by_handle(list, entry.handle, 0)->0 as int;
    assert(list.contains(list[r]));
    let p = choose|p: int|
        0 <= p < bag.normal@.len() && (#[trigger] bag.normal@[p]) is Some
            && bag.normal@[p]->0.item_id == id && list[r] == instance_at(bag, p);
    assert(p == i);
    let gem = if saved.gem >= 0 {
        Some(saved.gem)
    } else {
        None
    };
    let wanted = Wanted { item_id: id, gem, sort_id: saved.weapon_sort_id };
    assert forall|j: int| 0 <= j < i implies !suits(#[trigger] bag.normal@[j], wanted) by {
        if suits(bag.normal@[j], wanted) {
            two_instances(bag, id, i, j);
        }
    }
    suiting_place(bag.normal@, wanted, used, 0, i);
}

/// Looking for a place finds one where there is one: the first that suits and is free.
proof fn suiting_is_found(
    normal: Seq<Option<BagEntry>>,
    wanted: Wanted,
    used: Set<usize>,
    from: int,
    i: int,
)
    requires
        0 <= from <= i < normal.len(),
        suits(normal[i], wanted),
        !used.contains(i as usize),
    ensures
        first_suiting(normal, wanted, used, from) matches Some(j) && from <= j <= i,
    decreases i - from,
{
    if from < i && !(!used.contains(from as usize) && suits(normal[from], wanted)) {
        suiting_is_found(normal, wanted, used, from + 1, i);
    }
}

/// What looking for a place finds is a filled place that was not used, with the wanted item.
proof fn found_suits(normal: Seq<Option<BagEntry>>, wanted: Wanted, used: Set<usize>, from: int)
    requires
        0 <= from <= normal.len(),
    ensures
        first_suiting(normal, wanted, used, from) matches Some(j) ==> from <= j < normal.len()
            && !used.contains(j as usize) && suits(normal[j], wanted),
    decreases normal.len() - from,
{
    if from < normal.len() {
        found_suits(normal, wanted, used, from + 1);
    }
}

proof fn chosen_place(normal: Seq<Option<BagEntry>>, slot: LoadoutSlot, used: Set<usize>)
    ensures
        place_for(normal, slot, used) matches Some(j) ==> 0 <= j < normal.len() && !used.contains(
            j as usize,
        ) && normal[j] is Some && normal[j]->0.item_id == slot.id,
        forall|i: int|
            0 <= i < normal.len() && (#[trigger] normal[i]) is Some && normal[i]->0.item_id
                == slot.id && !used.contains(i as usize) ==> place_for(normal, slot, used) is Some,
        forall|i: int|
            0 <= i < normal.len() && (#[trigger] normal[i]) is Some && normal[i]->0.item_id
                == slot.id && !used.contains(i as usize) && (slot.gem >= 0 ==> normal[i]->0.gem
                == slot.gem) && (slot.weapon_sort_id is Some ==> normal[i]->0.sort_id
                == slot.weapon_sort_id->0) ==> {
                let j = place_for(normal, slot, used)->0;
                &&& slot.gem >= 0 ==> normal[j]->0.gem == slot.gem
                &&& slot.weapon_sort_id is Some ==> normal[j]->0.sort_id == slot.weapon_sort_id->0
            },
{
    let gem = if slot.gem >= 0 {
        Some(slot.gem)
    } else {
        None
    };
    let sort_id = slot.weapon_sort_id;
    let exact = Wanted { item_id: slot.id, gem, sort_id };
    let any_gem = Wanted { item_id: slot.id, gem: None, sort_id };
    let any_order = Wanted { item_id: slot.id, gem, sort_id: None };
    let any = Wanted { item_id: slot.id, gem: None, sort_id: None };
    found_suits(normal, exact, used, 0);
    found_suits(normal, any_gem, used, 0);
    found_suits(normal, any_order, used, 0);
    found_suits(normal, any, used, 0);
    assert forall|i: int|
        0 <= i < normal.len() && (#[trigger] normal[i]) is Some && normal[i]->0.item_id == slot.id
            && !used.contains(i as usize) implies place_for(normal, slot, used) is Some by {
        suiting_is_found(normal, any, used, 0, i);
        if gem is None && sort_id is None {
            suiting_is_found(normal, exact, used, 0, i);
        } else if gem is None {
            suiting_is_found(normal, any_order, used, 0, i);
        } else if sort_id is None {
            suiting_is_found(normal, any_gem, used, 0, i);
        }
    }
    assert forall|i: int|
        0 <= i < normal.len() && (#[trigger] normal[i]) is Some && normal[i]->0.item_id == slot.id
            && !used.contains(i as usize) && (slot.gem >= 0 ==> normal[i]->0.gem == slot.gem) && (
        slot.weapon_sort_id is Some ==> normal[i]->0.sort_id == slot.weapon_sort_id->0) implies {
        let j = place_for(normal, slot, used)->0;
        &&& slot.gem >= 0 ==> normal[j]->0.gem == slot.gem
        &&& slot.weapon_sort_id is Some ==> normal[j]->0.sort_id == slot.weapon_sort_id->0
    } by {
        suiting_is_found(normal, exact, used, 0, i);
    }
}

/// Every saved weapon, piece of armor and talisman that the bag holds is worn: the decision for
/// a saved slot with an item of its kind is a call for that very slot, with the handle and the
/// absolute index of a place that holds the item and was not used, and that place is used up.
/// Where a free place holds the item as it was saved, with its ash of war and its order number,
/// the call is for such a place.
pub proof fn what_the_bag_holds_is_worn(bag: Bag, slot: LoadoutSlot, used: Set<usize>, i: int)
    requires
        bag.wf(),
        0 <= i < bag.normal@.len(),
        bag.normal@[i] is Some,
        bag.normal@[i]->0.item_id == slot.id,
        !used.contains(i as usize),
        slot.id != 0,
        (slot.slot <= 5 && slot.id < 0x1000_0000 && slot.id != 110_000) || (12 <= slot.slot <= 15
            && 0x1000_0000 <= slot.id < 0x2000_0000 && slot.id != 0x1000_2710 && slot.id
            != 0x1000_2774 && slot.id != 0x1000_27D8 && slot.id != 0x1000_283C) || (17 <= slot.slot
            <= 20 && 0x2000_0000 <= slot.id < 0x3000_0000),
    ensures
        wear_of(bag, slot, used) matches Ok(Wear::Equip(call)) && call.slot == slot.slot && exists|
            j: int,
        |
            {
                &&& 0 <= j < bag.normal@.len()
                &&& !used.contains(j as usize)
                &&& (#[trigger] bag.normal@[j]) is Some
                &&& bag.normal@[j]->0.item_id == slot.id
                &&& call.item == bag.normal@[j]->0.handle
                &&& call.index == bag.key_capacity + j
                &&& used_after(bag, slot, used) == used.insert(j as usize)
                &&& (slot.gem >= 0 ==> bag.normal@[i]->0.gem == slot.gem) && (
                slot.weapon_sort_id is Some ==> bag.normal@[i]->0.sort_id
                    == slot.weapon_sort_id->0) ==> {
                    &&& slot.gem >= 0 ==> bag.normal@[j]->0.gem == slot.gem
                    &&& slot.weapon_sort_id is Some ==> bag.normal@[j]->0.sort_id
                        == slot.weapon_sort_id->0
                }
            },
{
    chosen_place(bag.normal@, slot, used);
    assert(place_for(bag.normal@, slot, used) is Some);
    let j = place_for(bag.normal@, slot, used)->0;
    assert(bag.normal@[j] is Some);
}

/// What is worn is what was saved: a call for a saved slot is for that slot and for a free place
/// with the saved item, of the kind that the slot takes. A slot whose item no free place holds is
/// left alone, and nothing is used up for it.
pub proof fn only_what_was_saved_is_worn(bag: Bag, slot: LoadoutSlot, used: Set<usize>)
    requires
        bag.wf(),
    ensures
        wear_of(bag, slot, used) matches Ok(Wear::Equip(call)) ==> {
            &&& call.slot == slot.slot
            &&& (slot.slot <= 5 && slot.id < 0x1000_0000) || (12 <= slot.slot <= 15 && 0x1000_0000
                <= slot.id < 0x2000_0000) || (17 <= slot.slot <= 20 && 0x2000_0000 <= slot.id
                < 0x3000_0000)
            &&& exists|j: int|
                0 <= j < bag.normal@.len() && !used.contains(j as usize) && (
                #[trigger] bag.normal@[j]) is Some && bag.normal@[j]->0.item_id == slot.id
                    && call.item == bag.normal@[j]->0.handle && call.index == bag.key_capacity + j
        },
        (forall|j: int|
            0 <= j < bag.normal@.len() && (#[trigger] bag.normal@[j]) is Some
                && bag.normal@[j]->0.item_id == slot.id ==> used.contains(j as usize)) ==> {
            &&& !(wear_of(bag, slot, used) matches Ok(Wear::Equip(_)))
            &&& used_after(bag, slot, used) == used
        },
{
    chosen_place(bag.normal@, slot, used);
    if place_for(bag.normal@, slot, used) is Some {
        let j = place_for(bag.normal@, slot, used)->0;
        assert(bag.normal@[j] is Some);
    }
}

/// A place that was saved empty is emptied: a weapon place with the fist, an armor place with one
/// of the naked pieces, a talisman place with nothing, and any of them with no item at all.
pub proof fn empty_places_are_emptied(bag: Bag, slot: LoadoutSlot, used: Set<usize>)
    requires
        (slot.slot <= 5 && (slot.id == 110_000 || slot.id == 0)) || (12 <= slot.slot <= 15 && (
        slot.id == 0x1000_2710 || slot.id == 0x1000_2774 || slot.id == 0x1000_27D8 || slot.id
            == 0x1000_283C || slot.id == 0)) || (17 <= slot.slot <= 20 && (slot.id == 0xFFFF_FFFF
            || slot.id == 0)),
    ensures
        wear_of(bag, slot, used) == Ok::<Wear, EquipError>(Wear::Unequip(slot.slot)),
        used_after(bag, slot, used) == used,
{
}

/// A place is emptied by wearing its placeholder from where the bag holds it: the fist, the naked
/// piece of the very place, or nothing for a talisman. Where the bag lacks the placeholder it is
/// given first.
pub proof fn placeholders_fill_their_places(bag: Bag, slot: u8, given: bool)
    requires
        bag.wf(),
        slot <= 5 || 12 <= slot <= 15 || 17 <= slot <= 20,
    ensures
        ({
            let item: u32 = if slot <= 5 {
                110_000
            } else if slot == 12 {
                0x1000_2710
            } else if slot == 13 {
                0x1000_2774
            } else if slot == 14 {
                0x1000_27D8
            } else if slot == 15 {
                0x1000_283C
            } else {
                0xFFFF_FFFF
            };
            let held = exists|j: int|
                0 <= j < bag.normal@.len() && (#[trigger] bag.normal@[j]) is Some
                    && bag.normal@[j]->0.item_id == item;
            match unequip_of(bag, slot, given) {
                Ok(Move::Call(call)) => {
                    &&& call.slot == slot
                    &&& call.item == item
                    &&& slot >= 17 ==> call.index == 0xFFFF_FFFF
                    &&& slot <= 15 ==> exists|j: int|
                        0 <= j < bag.normal@.len() && (#[trigger] bag.normal@[j]) is Some
                            && bag.normal@[j]->0.item_id == item && call.index == bag.key_capacity
                            + j
                },
                Ok(Move::Give(wanted)) => slot <= 15 && !held && !given && wanted == item,
                Ok(Move::Nothing) => false,
                Err(_) => slot <= 15 && !held && given,
            }
        }),
{
    if slot <= 15 {
        let item = placeholder_of(slot)->0;
        let wanted = Wanted { item_id: item, gem: None, sort_id: None };
        found_suits(bag.normal@, wanted, Set::empty(), 0);
        if exists|j: int|
            0 <= j < bag.normal@.len() && (#[trigger] bag.normal@[j]) is Some
                && bag.normal@[j]->0.item_id == item {
            let j = choose|j: int|
                0 <= j < bag.normal@.len() && (#[trigger] bag.normal@[j]) is Some
                    && bag.normal@[j]->0.item_id == item;
            suiting_is_found(bag.normal@, wanted, Set::empty(), 0, j);
        }
        if let Some(j) = first_of(bag, item) {
            assert(bag.normal@[j] is Some);
        }
    }
}

/// A saved loadout tells of each place what is worn in that very place: the weapons in places 0
/// to 5, head, chest, hands and legs in 12 to 15, and the talismans in 17 to 20. A place with
/// nothing in it is saved with the id of nothing, and only weapons are saved with an ash of war.
pub proof fn places_are_saved_as_they_are_worn(bag: Bag, worn: Worn)
    ensures
        ({
            let slots = saved_loadout(bag, worn);
            &&& slots.len() == 14
            &&& forall|k: int|
                0 <= k < 6 ==> {
                    let slot = #[trigger] slots[k];
                    let piece = worn.weapons@[k];
                    &&& slot.slot == k
                    &&& slot.id == (if piece.id is Some { piece.id->0 } else { 0xFFFF_FFFFu32 })
                    &&& slot.gem == (if piece.handle is Some && piece.handle->0 != 0 {
                        piece.gem
                    } else {
                        -1i64
                    })
                    &&& slot.accessory_ordinal is None
                }
            &&& forall|k: int|
                6 <= k < 10 ==> {
                    let slot = #[trigger] slots[k];
                    let piece = worn.armor@[k - 6];
                    &&& slot.slot == k + 6
                    &&& slot.id == (if piece.id is Some { piece.id->0 } else { 0xFFFF_FFFFu32 })
                    &&& slot.gem == -1 && slot.weapon_sort_id is None
                        && slot.accessory_ordinal is None
                }
            &&& forall|k: int|
                10 <= k < 14 ==> {
                    let slot = #[trigger] slots[k];
                    let piece = worn.accessories@[k - 10];
                    &&& slot.slot == k + 7
                    &&& slot.id == (if piece.id is Some { piece.id->0 } else { 0xFFFF_FFFFu32 })
                    &&& slot.gem == -1 && slot.weapon_sort_id is None
                }
        }),
{
}

/// Looking for an index finds it where it is listed.
proof fn index_is_found(list: Seq<Instance>, index: u32, from: int, k: int)
    requires
        0 <= from <= k < list.len() <= u32::MAX,
        list[k].index == index,
    ensures
        rank_by_index(list, index, from) is Some,
    decreases list.len() - from,
{
    if list[from].index != index && list[from].place != index {
        index_is_found(list, index, from + 1, k);
    }
}

/// A talisman that is worn as one of several equal ones is saved as that very one, and the saved
/// slot wears it again: by the worn handle, where the game keeps no index and the equal ones have
/// other handles, or by the index that the game keeps, where it names no other equal one.
pub proof fn one_of_several_talismans_is_worn_again(bag: Bag, slot: u8, worn: WornSlot, i: int, other: int)
    requires
        bag.wf(),
        bag.normal@.len() <= usize::MAX,
        17 <= slot <= 20,
        0 <= i < bag.normal@.len(),
        0 <= other < bag.normal@.len(),
        i != other,
        bag.normal@[i] is Some,
        bag.normal@[other] is Some,
        worn.id == Some(bag.normal@[i]->0.item_id),
        worn.id == Some(bag.normal@[other]->0.item_id),
        worn.id->0 != 0,
        worn.id->0 != 0xFFFF_FFFF,
        (worn.index is None && worn.handle == Some(bag.normal@[i]->0.handle) && forall|j: int|
            0 <= j < bag.normal@.len() && j != i && (#[trigger] bag.normal@[j]) is Some
                && bag.normal@[j]->0.item_id == worn.id->0 ==> bag.normal@[j]->0.handle
                != bag.normal@[i]->0.handle) || (worn.index == Some((bag.key_capacity + i) as u32)
            && forall|j: int|
            0 <= j < bag.normal@.len() && j != i && (#[trigger] bag.normal@[j]) is Some
                && bag.normal@[j]->0.item_id == worn.id->0 ==> j != bag.key_capacity + i),
    ensures
        saved_talisman(bag, slot, worn).accessory_ordinal is Some,
        ranked_call(bag, saved_talisman(bag, slot, worn)) == Ok::<EquipCall, EquipError>(
            EquipCall {
                slot,
                item: bag.normal@[i]->0.handle,
                index: (bag.key_capacity + i) as u32,
            },
        ),
{
    let id = worn.id->0;
    let list = instances(bag, id);
    ordered_instances(bag, id);
    instances_fit(bag, id, bag.normal@.len() as int);
    two_instances(bag, id, i, other);
    let k = choose|k: int| 0 <= k < list.len() && list[k] == instance_at(bag, i);
    assert(list[k] == instance_at(bag, i));
    if worn.index is Some {
        index_is_found(list, worn.index->0, 0, k);
        ranks_are_meant(list, worn.index->0, 0);
    } else {
        rank_finds(list, worn.handle->0, 0, k);
        ranks_are_meant(list, worn.handle->0, 0);
    }
    let r = saved_talisman(bag, slot, worn).accessory_ordinal->0 as int;
    assert(list.contains(list[r]));
    let p = choose|p: int|
        0 <= p < bag.normal@.len() && (#[trigger] bag.normal@[p]) is Some
            && bag.normal@[p]->0.item_id == id && list[r] == instance_at(bag, p);
    assert(p == i);
}

/// Equal items are told apart by order number, and by place where that is the same.
pub proof fn equal_items_come_by_order_number(bag: Bag, item_id: u32, a: int, b: int)
    requires
        bag.wf(),
        bag.normal@.len() <= usize::MAX,
        0 <= a < b < instances(bag, item_id).len(),
    ensures
        ({
            let first = instances(bag, item_id)[a];
            let second = instances(bag, item_id)[b];
            first.sort_id < second.sort_id || (first.sort_id == second.sort_id && first.place
                < second.place)
        }),
{
    let n = bag.normal@.len() as int;
    let found = instances_below(bag, item_id, n);
    let keys = sort_ids(found);
    instances_fit(bag, item_id, n);
    ordered_instances(bag, item_id);
    stable_exists(keys);
    let order = stable(keys);
    assert(before(keys, order[a] as int, order[b] as int));
    assert(instances(bag, item_id)[a] == found[order[a] as int]);
    assert(instances(bag, item_id)[b] == found[order[b] as int]);
    instances_by_place(bag, item_id, n);
}

/// The instances are found by place.
proof fn instances_by_place(bag: Bag, item_id: u32, n: int)
    requires
        0 <= n <= bag.normal@.len() <= usize::MAX,
    ensures
        forall|a: int|
            0 <= a < instances_below(bag, item_id, n).len() ==> (#[trigger] instances_below(
                bag,
                item_id,
                n,
            )[a]).place < n,
        forall|a: int, b: int|
            0 <= a < b < instances_below(bag, item_id, n).len() ==> (#[trigger] instances_below(
                bag,
                item_id,
                n,
            )[a]).place < (#[trigger] instances_below(bag, item_id, n)[b]).place,
    decreases n,
{
    if n > 0 {
        instances_by_place(bag, item_id, n - 1);
        let rest = instances_below(bag, item_id, n - 1);
        let all = instances_below(bag, item_id, n);
        assert forall|a: int| 0 <= a < all.len() implies (#[trigger] all[a]).place < n by {
            if a < rest.len() {
                assert(all[a] == rest[a]);
            }
        }
        assert forall|a: int, b: int| 0 <= a < b < all.len() implies (#[trigger] all[a]).place < (
        #[trigger] all[b]).place by {
            assert(all[a] == rest[a]);
            if b < rest.len() {
                assert(all[b] == rest[b]);
            }
        }
    }
}

/// No saved talisman that was one of several is passed over when they are worn again, and no
/// other slot is taken up.
pub proof fn every_ranked_talisman_is_taken_up(slots: Seq<LoadoutSlot>, from: int, k: int)
    requires
        0 <= from <= k < slots.len(),
        17 <= slots[k].slot <= 20,
        slots[k].accessory_ordinal is Some,
    ensures
        from <= next_ranked(slots, from) <= k,
        17 <= slots[next_ranked(slots, from)].slot <= 20,
        slots[next_ranked(slots, from)].accessory_ordinal is Some,
    decreases k - from,
{
    if from < k && !is_ranked(slots[from]) {
        every_ranked_talisman_is_taken_up(slots, from + 1, k);
    }
}

/// A naked piece that nobody wears is cleared away while the clearing goes on: it, or one that
/// lies before it, is what is removed next, with all its copies.
pub proof fn every_loose_piece_is_cleared(run: PurgeRun, failed: bool, bag: Bag, worn: Set<u32>, i: int)
    requires
        bag.wf(),
        run.tries < 32,
        !(run.waiting && failed),
        0 <= i < bag.normal@.len(),
        bag.normal@[i] is Some,
        bag.normal@[i]->0.item_id == 0x1000_2710 || bag.normal@[i]->0.item_id == 0x1000_2774
            || bag.normal@[i]->0.item_id == 0x1000_27D8 || bag.normal@[i]->0.item_id == 0x1000_283C,
        !worn.contains(bag.normal@[i]->0.handle),
    ensures
        purged(run, failed, bag, worn).1 matches Some((index, quantity)) && {
            let place = index - bag.key_capacity;
            let entry = bag.normal@[place]->0;
            &&& 0 <= place <= i
            &&& bag.normal@[place] is Some
            &&& !worn.contains(entry.handle)
            &&& entry.item_id == 0x1000_2710 || entry.item_id == 0x1000_2774 || entry.item_id
                == 0x1000_27D8 || entry.item_id == 0x1000_283C
            &&& quantity == (if entry.quantity == 0 {
                1
            } else {
                entry.quantity
            })
        },
        purged(run, failed, bag, worn).0.waiting,
        purged(run, failed, bag, worn).0.tries == run.tries + 1,
{
    loose_bare_is_first(bag.normal@, worn, 0);
    assert(is_loose_bare(bag.normal@[i], worn));
}

/// Clearing stops after thirty-two removals, and with the first that fails.
pub proof fn clearing_stops(run: PurgeRun, failed: bool, bag: Bag, worn: Set<u32>)
    requires
        run.tries >= 32 || (run.waiting && failed),
    ensures
        purged(run, failed, bag, worn).1 is None,
        purged(run, failed, bag, worn).0.tries >= 32,
        purged(run, failed, bag, worn).0.removed == (if run.waiting && !failed {
            (run.removed + 1) as u32
        } else {
            run.removed
        }),
{
}

/// What is worn is known by every handle that was read, but for those that name nothing.
pub proof fn worn_handles_are_known(handles: Seq<u32>, handle: u32)
    ensures
        handle_set(handles).contains(handle) <==> handle != 0 && handle != 0xFFFF_FFFF && exists|
            i: int,
        |
            0 <= i < handles.len() && handles[i] == handle,
{
}

/// The weapons are held as the saved number says: 0 in no hand, 1 one in each, 2 the left one in
/// both, 3 the right one in both, and one in each for every other number. A weapon is taken into
/// both hands by a motion of its own hand, and by no other.
pub proof fn weapons_are_held_as_saved(number: u8)
    ensures
        ({
            let change = arm_change(number);
            &&& change.style == ArmStyle::EmptyHanded <==> number == 0
            &&& change.style == ArmStyle::LeftBothHands <==> number == 2
            &&& change.style == ArmStyle::RightBothHands <==> number == 3
            &&& change.style == ArmStyle::OneHanded <==> number == 1 || number > 3
            &&& change.change_left <==> change.style == ArmStyle::LeftBothHands
            &&& change.change_right <==> change.style == ArmStyle::RightBothHands
            &&& number <= 3 ==> style_number(change.style) == number
            &&& one_handed().style == ArmStyle::OneHanded
            &&& !one_handed().change_left && !one_handed().change_right
        }),
{
}

/// The places are taken up in ascending order, first all that are to be empty: those of weapons
/// with the fist or no id, of armor with a naked piece or no id, of talismans with nothing or no
/// id.
pub proof fn places_are_taken_up_in_order(slots: Seq<LoadoutSlot>, i: int, j: int)
    requires
        slots.len() <= usize::MAX,
        0 <= i < j < slots.len(),
    ensures
        ({
            let first = wear_order(slots)[i];
            let second = wear_order(slots)[j];
            let bare = |id: u32|
                id == 0x1000_2710 || id == 0x1000_2774 || id == 0x1000_27D8 || id == 0x1000_283C;
            let empties = |s: LoadoutSlot|
                if s.slot <= 5 {
                    s.id == 110_000 || s.id == 0
                } else if 12 <= s.slot <= 15 {
                    bare(s.id) || s.id == 0
                } else if 17 <= s.slot <= 20 {
                    s.id == 0xFFFF_FFFF || s.id == 0
                } else {
                    true
                };
            &&& empties(second) ==> empties(first)
            &&& empties(first) == empties(second) ==> first.slot <= second.slot
        }),
{
    let keys = slots.map_values(|s: LoadoutSlot| wear_key(s));
    stable_exists(keys);
    let order = stable(keys);
    assert(before(keys, order[i] as int, order[j] as int));
    assert(wear_order(slots)[i] == slots[order[i] as int]);
    assert(wear_order(slots)[j] == slots[order[j] as int]);
}

/// A slot counts as worn when its call went through or it needs none, and never when its call
/// failed or it was skipped; every failure and every skipped slot leaves its own message.
pub proof fn what_counts_as_worn(
    state: DressState,
    errors: Seq<Seq<char>>,
    failure: Option<Seq<char>>,
    bag: Bag,
)
    requires
        state.wf(),
    ensures
        ({
            let (after, step) = dressed(state, failure is Some, bag);
            let told = noted(errors, state.stage, failure, step);
            let called = state.stage == DressStage::Calling && failure is None;
            let failed = state.stage != DressStage::Ready && failure is Some;
            &&& after.done == state.done + (if called {
                1int
            } else {
                0int
            }) + (if step is Passed {
                1int
            } else {
                0int
            })
            &&& told.len() == errors.len() + (if failed {
                1int
            } else {
                0int
            }) + (if step is Skipped {
                1int
            } else {
                0int
            })
            &&& failed ==> told[errors.len() as int] == failure->0
            &&& step matches DressStep::Skipped(error) ==> told.last() == error.text()
            &&& forall|k: int| 0 <= k < errors.len() ==> told[k] == errors[k]
        }),
{
}

/// While slots are left, the next one is taken up, unless the last one still waits for its
/// placeholder, whose place is then filled with it.
pub proof fn the_next_slot_is_taken_up(state: DressState, failed: bool, bag: Bag)
    requires
        state.wf(),
    ensures
        ({
            let (after, step) = dressed(state, failed, bag);
            let waits = !failed && state.stage is Emptying;
            &&& step is Finished <==> !waits && state.next == state.slots.len()
            &&& waits ==> after.next == state.next && after.used == state.used
            &&& !waits && state.next < state.slots.len() ==> after.next == state.next + 1
            &&& after.slots == state.slots
            &&& !waits && state.next < state.slots.len() && wear_of(
                bag,
                state.slots[state.next],
                state.used,
            ) is Err ==> step is Skipped
        }),
{
}

/// Among the free places with a saved item, one that is as it was saved is chosen, the first of
/// them; without one, a place with the saved order number; without that, one with the saved ash of
/// war; and any other only where there is none of these.
pub proof fn the_saved_instance_is_preferred(
    normal: Seq<Option<BagEntry>>,
    slot: LoadoutSlot,
    used: Set<usize>,
    i: int,
)
    requires
        0 <= i < normal.len(),
        normal[i] is Some,
        normal[i]->0.item_id == slot.id,
        !used.contains(i as usize),
    ensures
        ({
            let chosen = place_for(normal, slot, used);
            let j = chosen->0;
            let order = |k: int|
                slot.weapon_sort_id is Some ==> normal[k]->0.sort_id == slot.weapon_sort_id->0;
            let ash = |k: int| slot.gem >= 0 ==> normal[k]->0.gem == slot.gem;
            let free = |k: int|
                normal[k] is Some && normal[k]->0.item_id == slot.id && !used.contains(k as usize);
            &&& chosen is Some && 0 <= j < normal.len() && free(j)
            &&& order(i) && ash(i) ==> order(j) && ash(j) && j <= i
            &&& order(i) ==> order(j)
            &&& ash(i) && (forall|k: int|
                #![trigger normal[k]]
                0 <= k < normal.len() && free(k) ==> !order(k)) ==> ash(j)
        }),
{
    chosen_place(normal, slot, used);
    let gem = if slot.gem >= 0 {
        Some(slot.gem)
    } else {
        None
    };
    let sort_id = slot.weapon_sort_id;
    let exact = Wanted { item_id: slot.id, gem, sort_id };
    let any_gem = Wanted { item_id: slot.id, gem: None, sort_id };
    let any_order = Wanted { item_id: slot.id, gem, sort_id: None };
    found_suits(normal, exact, used, 0);
    found_suits(normal, any_gem, used, 0);
    found_suits(normal, any_order, used, 0);
    if suits(normal[i], exact) {
        suiting_is_found(normal, exact, used, 0, i);
    }
    if suits(normal[i], any_gem) {
        suiting_is_found(normal, any_gem, used, 0, i);
    }
    if suits(normal[i], any_order) {
        suiting_is_found(normal, any_order, used, 0, i);
    }
}

} // verus!
