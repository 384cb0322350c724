//! What a saved build holds, how it is taken from the bag, and how it is put back in order.

use std::collections::HashMap;

use vstd::prelude::*;

use crate::equip::{
    capture_arm_style, capture_loadout, category_name, category_text, copies, id_text, push_id,
    saved_loadout, style_number, ArmStyle, EquipError, LoadoutSlot, Worn, FIST,
};
use crate::item::{
    category, category_of, param_id, param_of, row_of, Bag, BagEntry, ItemCategory, WeaponRow,
    WeaponTable,
};
use crate::magic::{capture as capture_magic, captured_wheel};
use crate::order::{
    arranged, before, is_stable_order, sorted, sorting_rearranges, stable, stable_exists, stable_is,
    stable_order,
};
use crate::stats::StatsSnapshot;
use crate::text::{decimal, decimal_text, push_decimal};
use crate::tga::{
    decode_then_resolve, decode_weapon, decoded, decoded_parts_add_up, gem_word, resolved,
    takes_levels, NO_GEM,
};

verus! {

broadcast use vstd::std_specs::hash::group_hash_axioms;

/// The first parameter row that is taken for ammunition while the table is not at hand.
pub const AMMO_PARAM_ID_FLOOR: u32 = 50_000_000;

/// How many numbered slots there are.
pub const SLOT_COUNT: usize = 3;

/// The version under which builds are saved.
pub const SNAPSHOT_VERSION: u32 = 11;

/// One item to give: the base id and what is added to it.
#[derive(Clone, Copy, Debug, PartialEq, Eq, Structural)]
pub struct BagItem {
    /// The id with its category. Of a weapon, the base id: not reinforced, without affinity.
    pub id: u32,
    /// How many copies. Only builds saved long ago hold more than one in one item.
    pub qty: u32,
    /// The reinforcement, 0 to 25; -1 stands for the character's matching weapon level.
    pub reinforce: i32,
    /// The affinity offset, a multiple of 100 up to 1200; -1 for none.
    pub upgrade: i32,
    /// The full item id of the ash of war; -1 for none.
    pub gem: i64,
    /// The place in the order of acquisition; 0 where it was not recorded.
    pub sort_id: u32,
}

/// The item that is given under a finished id, with only an ash of war to attach.
pub open spec fn exact_item(id: u32, qty: u32, gem: i64) -> BagItem {
    BagItem { id, qty: if qty < 1 { 1 } else { qty }, reinforce: 0, upgrade: 0, gem, sort_id: 0 }
}

impl BagItem {
    /// The item that is given under a finished id, with only an ash of war to attach.
    pub fn exact(id: u32, qty: u32, gem: i64) -> (item: Self)
        ensures
            item == exact_item(id, qty, gem),
    {
        BagItem { id, qty: if qty < 1 { 1 } else { qty }, reinforce: 0, upgrade: 0, gem, sort_id: 0 }
    }
}

/// Whether an id is ammunition: by its weapon type where the table holds it, else by its row.
pub open spec fn is_ammo_id(table: Option<Map<u32, WeaponRow>>, id: u32) -> bool {
    category_of(id) == Some(ItemCategory::Weapon) && match row_of(
        table,
        (param_of(id) / 100 * 100) as u32,
    ) {
        Some(row) => 81 <= row.wep_type <= 86,
        None => param_of(id) >= AMMO_PARAM_ID_FLOOR,
    }
}

/// Whether an id is ammunition.
pub fn is_ammo(table: &WeaponTable, id: u32) -> (ammo: bool)
    ensures
        ammo == is_ammo_id(table@, id),
{
    match category(id) {
        Some(ItemCategory::Weapon) => {},
        _ => {
            return false;
        },
    }
    let param: u32 = param_id(id);
    match table.row(param / 100 * 100) {
        Some(row) => 81 <= row.wep_type && row.wep_type <= 86,
        None => param >= AMMO_PARAM_ID_FLOOR,
    }
}

/// Whether builds hold this item: a weapon, a piece of armor or a talisman; no ammunition.
pub open spec fn is_managed_id(table: Option<Map<u32, WeaponRow>>, id: u32) -> bool {
    &&& category_of(id) == Some(ItemCategory::Weapon) || category_of(id) == Some(
        ItemCategory::Protector,
    ) || category_of(id) == Some(ItemCategory::Accessory)
    &&& param_of(id) != 0
    &&& !is_ammo_id(table, id)
}

/// Whether builds hold this item.
pub fn is_managed(table: &WeaponTable, id: u32) -> (managed: bool)
    ensures
        managed == is_managed_id(table@, id),
{
    match category(id) {
        Some(ItemCategory::Weapon) | Some(ItemCategory::Protector) | Some(
            ItemCategory::Accessory,
        ) => {},
        _ => {
            return false;
        },
    }
    param_id(id) != 0 && !is_ammo(table, id)
}

/// A saved build.
#[derive(Clone, Debug)]
pub struct BuildSnapshot {
    pub version: u32,
    pub bag: Vec<BagItem>,
    /// The fourteen worn places.
    pub loadout: Vec<LoadoutSlot>,
    /// The fourteen places of the spell wheel; -1 for an empty one. Empty in old builds.
    pub magic: Vec<i32>,
    /// How the weapons are held: 0 not at all, 1 one in each hand, 2 the left one in both
    /// hands, 3 the right one.
    pub arm_style: u8,
    pub stats: Option<StatsSnapshot>,
}

/// The same as plain values.
pub struct BuildState {
    pub version: u32,
    pub bag: Seq<BagItem>,
    pub loadout: Seq<LoadoutSlot>,
    pub magic: Seq<i32>,
    pub arm_style: u8,
    pub stats: Option<StatsSnapshot>,
}

impl View for BuildSnapshot {
    type V = BuildState;

    open spec fn view(&self) -> BuildState {
        BuildState {
            version: self.version,
            bag: self.bag@,
            loadout: self.loadout@,
            magic: self.magic@,
            arm_style: self.arm_style,
            stats: self.stats,
        }
    }
}

/// The ash of war of an item that was saved without one.
pub fn default_gem() -> (gem: i64)
    ensures
        gem == -1,
{
    -1
}

/// The way of holding of a build that was saved without one: one weapon in each hand.
pub fn default_arm_style() -> (number: u8)
    ensures
        number == style_number(ArmStyle::OneHanded),
{
    1
}

/// What the library reads of one instance.
#[derive(Clone, Copy, Debug, PartialEq, Eq, Structural)]
pub struct Gaitem {
    /// The item of the instance, where it is valid.
    pub item_id: Option<u32>,
    /// Of a weapon, the handle in its first slot for an ash of war.
    pub gem_handle: Option<u32>,
}

/// The instances by handle, or `None` while the game has not loaded them.
pub struct Gaitems {
    pub instances: Option<HashMap<u32, Gaitem>>,
}

impl View for Gaitems {
    type V = Option<Map<u32, Gaitem>>;

    open spec fn view(&self) -> Option<Map<u32, Gaitem>> {
        match self.instances {
            Some(instances) => Some(instances@),
            None => None,
        }
    }
}

/// The ash of war on an instance: the item of the instance in its first slot.
pub open spec fn gem_on(gaitems: Option<Map<u32, Gaitem>>, handle: u32) -> i64 {
    match gaitems {
        Some(instances) if instances.contains_key(handle) => match instances[handle].gem_handle {
            Some(gem) if gem != 0 && instances.contains_key(gem) => match instances[gem].item_id {
                Some(id) => id as i64,
                None => -1i64,
            },
            _ => -1i64,
        },
        _ => -1i64,
    }
}

/// The ash of war on an instance; -1 for none.
pub fn gem_of_handle(gaitems: &Gaitems, handle: u32) -> (gem: i64)
    ensures
        gem == gem_on(gaitems@, handle),
{
    let instances = match &gaitems.instances {
        Some(instances) => instances,
        None => {
            return -1;
        },
    };
    let weapon = match instances.get(&handle) {
        Some(instance) => *instance,
        None => {
            return -1;
        },
    };
    let gem: u32 = match weapon.gem_handle {
        Some(gem) => gem,
        None => {
            return -1;
        },
    };
    if gem == 0 {
        return -1;
    }
    match instances.get(&gem) {
        Some(instance) => match instance.item_id {
            Some(id) => id as i64,
            None => -1,
        },
        None => -1,
    }
}

/// The item that one copy of a place is saved as.
pub open spec fn saved_item(table: Option<Map<u32, WeaponRow>>, entry: BagEntry) -> BagItem {
    let item = if category_of(entry.item_id) == Some(ItemCategory::Weapon) {
        decoded(table, entry.item_id, entry.gem)
    } else {
        exact_item(entry.item_id, 1, -1i64)
    };
    BagItem { qty: 1, sort_id: entry.sort_id, ..item }
}

/// The items that a place is saved as: one for each copy of an item that builds hold, none for
/// the fist.
pub open spec fn saved_items(table: Option<Map<u32, WeaponRow>>, entry: Option<BagEntry>) -> Seq<
    BagItem,
> {
    match entry {
        Some(entry) if is_managed_id(table, entry.item_id) && entry.item_id != FIST => Seq::new(
            copies(entry.quantity) as nat,
            |i: int| saved_item(table, entry),
        ),
        _ => seq![],
    }
}

/// The items that the first `n` places are saved as.
pub open spec fn items_below(
    table: Option<Map<u32, WeaponRow>>,
    normal: Seq<Option<BagEntry>>,
    n: int,
) -> Seq<BagItem>
    decreases n,
{
    if n <= 0 {
        seq![]
    } else {
        items_below(table, normal, n - 1) + saved_items(table, normal[n - 1])
    }
}

/// The order numbers of some items.
pub open spec fn order_numbers(items: Seq<BagItem>) -> Seq<u64> {
    items.map_values(|item: BagItem| item.sort_id as u64)
}

/// The bag as it is saved: in the order of acquisition.
pub open spec fn saved_bag(table: Option<Map<u32, WeaponRow>>, bag: Bag) -> Seq<BagItem> {
    let items = items_below(table, bag.normal@, bag.normal@.len() as int);
    sorted(items, order_numbers(items))
}

fn push_copies(items: &mut Vec<BagItem>, item: BagItem, count: u32)
    ensures
        final(items)@ == old(items)@ + Seq::new(count as nat, |i: int| item),
{
    let ghost start = items@;
    let mut made: u32 = 0;
    while made < count
        invariant
            made <= count,
            items@ == start + Seq::new(made as nat, |i: int| item),
        decreases count - made,
    {
        items.push(item);
        made = made + 1;
        assert(items@ =~= start + Seq::new(made as nat, |i: int| item));
    }
    assert(items@ =~= start + Seq::new(count as nat, |i: int| item));
}

/// Saves the bag: one item for each copy, in the order of acquisition.
pub fn capture_bag(table: &WeaponTable, bag: &Bag) -> (items: Vec<BagItem>)
    ensures
        items@ == saved_bag(table@, *bag),
{
    let mut items: Vec<BagItem> = Vec::new();
    let mut at: usize = 0;
    while at < bag.normal.len()
        invariant
            at <= bag.normal@.len(),
            items@ == items_below(table@, bag.normal@, at as int),
        decreases bag.normal@.len() - at,
    {
        let ghost so_far = items@;
        match bag.normal[at] {
            Some(entry) => {
                if is_managed(table, entry.item_id) && entry.item_id != FIST {
                    let made = match category(entry.item_id) {
                        Some(ItemCategory::Weapon) => decode_weapon(
                            table,
                            entry.item_id,
                            entry.gem,
                        ),
                        _ => BagItem::exact(entry.item_id, 1, -1),
                    };
                    let item = BagItem {
                        id: made.id,
                        qty: 1,
                        reinforce: made.reinforce,
                        upgrade: made.upgrade,
                        gem: made.gem,
                        sort_id: entry.sort_id,
                    };
                    let count: u32 = if entry.quantity < 1 {
                        1
                    } else {
                        entry.quantity
                    };
                    push_copies(&mut items, item, count);
                }
            },
            None => {},
        }
        assert(items@ =~= so_far + saved_items(table@, bag.normal@[at as int]));
        at = at + 1;
    }
    let mut keys: Vec<u64> = Vec::new();
    let mut keyed: usize = 0;
    while keyed < items.len()
        invariant
            keyed <= items@.len(),
            keys@.len() == keyed,
            forall|i: int| 0 <= i < keyed ==> #[trigger] keys@[i] == items@[i].sort_id,
        decreases items@.len() - keyed,
    {
        keys.push(items[keyed].sort_id as u64);
        keyed = keyed + 1;
    }
    assert(keys@ =~= order_numbers(items@));
    let order: Vec<usize> = stable_order(&keys);
    let mut list: Vec<BagItem> = Vec::new();
    let mut taken: usize = 0;
    while taken < order.len()
        invariant
            taken <= order@.len(),
            is_stable_order(keys@, order@),
            keys@.len() == items@.len(),
            list@ == arranged(items@, order@.take(taken as int)),
        decreases order@.len() - taken,
    {
        assert(order@[taken as int] < keys@.len());
        list.push(items[order[taken]]);
        assert(order@.take(taken + 1) =~= order@.take(taken as int).push(order@[taken as int]));
        assert(list@ =~= arranged(items@, order@.take(taken + 1)));
        taken = taken + 1;
    }
    proof {
        assert(order@.take(order@.len() as int) =~= order@);
        stable_is(keys@, order@);
    }
    list
}

/// Saves the whole build: bag, worn places, spell wheel, way of holding and attributes.
pub fn capture(
    table: &WeaponTable,
    bag: &Bag,
    worn: &Worn,
    wheel: &Vec<i32>,
    style: Option<ArmStyle>,
    stats: StatsSnapshot,
) -> (build: Result<BuildSnapshot, EquipError>)
    requires
        bag.wf(),
        worn.accessories@.len() + 10 <= usize::MAX,
    ensures
        match build {
            Ok(build) => worn.accessories@.len() == 4 && build@ == (BuildState {
                version: SNAPSHOT_VERSION,
                bag: saved_bag(table@, *bag),
                loadout: saved_loadout(*bag, *worn),
                magic: captured_wheel(wheel@),
                arm_style: match style {
                    Some(style) => style_number(style),
                    None => 1u8,
                },
                stats: Some(stats),
            }) && build@.version == 11,
            Err(error) => worn.accessories@.len() != 4 && error == EquipError::CaptureFailed(
                (worn.accessories@.len() + 10) as usize,
            ),
        },
{
    let items: Vec<BagItem> = capture_bag(table, bag);
    match capture_loadout(bag, worn) {
        Ok(loadout) => Ok(
            BuildSnapshot {
                version: SNAPSHOT_VERSION,
                bag: items,
                loadout,
                magic: capture_magic(wheel),
                arm_style: capture_arm_style(style),
                stats: Some(stats),
            },
        ),
        Err(error) => Err(error),
    }
}

/// Whether a saved item is given: its id has a category, and is neither the fist nor
/// ammunition.
pub open spec fn is_given(table: Option<Map<u32, WeaponRow>>, item: BagItem) -> bool {
    category_of(item.id) is Some && item.id != FIST && !is_ammo_id(table, item.id)
}

/// Copy `k` of saved item number `i`: one piece, with an order number made up where none was
/// recorded.
pub open spec fn copy_of(item: BagItem, i: int, k: int) -> BagItem {
    let made_up = (i + 1) * 1000 + k;
    BagItem {
        qty: 1,
        sort_id: if item.sort_id != 0 {
            item.sort_id
        } else if made_up <= u32::MAX {
            made_up as u32
        } else {
            u32::MAX
        },
        ..item
    }
}

/// The copies of the first `n` saved items.
pub open spec fn expanded(table: Option<Map<u32, WeaponRow>>, bag: Seq<BagItem>, n: int) -> Seq<BagItem>
    decreases n,
{
    if n <= 0 {
        seq![]
    } else {
        let rest = expanded(table, bag, n - 1);
        if is_given(table, bag[n - 1]) {
            rest + Seq::new(copies(bag[n - 1].qty) as nat, |k: int| copy_of(bag[n - 1], n - 1, k))
        } else {
            rest
        }
    }
}

/// The saved items as they are given: one by one, each copy apart.
pub fn expand_copies(table: &WeaponTable, bag: &[BagItem]) -> (items: Vec<BagItem>)
    requires
        forall|i: int|
            0 <= i < bag@.len() && (#[trigger] bag@[i]).sort_id == 0 && is_given(table@, bag@[i])
                ==> (i + 1) * 1000 <= u32::MAX,
    ensures
        items@ == expanded(table@, bag@, bag@.len() as int),
{
    let mut items: Vec<BagItem> = Vec::new();
    let count: usize = bag.len();
    let mut at: usize = 0;
    while at < count
        invariant
            at <= count,
            count == bag@.len(),
            forall|i: int|
                0 <= i < bag@.len() && (#[trigger] bag@[i]).sort_id == 0 && is_given(
                    table@,
                    bag@[i],
                ) ==> (i + 1) * 1000 <= u32::MAX,
            items@ == expanded(table@, bag@, at as int),
        decreases count - at,
    {
        let item: BagItem = bag[at];
        let known = category(item.id).is_some();
        if known && item.id != FIST && !is_ammo(table, item.id) {
            let ghost so_far = items@;
            let wanted: u32 = if item.qty < 1 {
                1
            } else {
                item.qty
            };
            let mut made: u32 = 0;
            while made < wanted
                invariant
                    made <= wanted,
                    at < count,
                    item.sort_id == 0 ==> (at + 1) * 1000 <= u32::MAX,
                    items@ == so_far + Seq::new(made as nat, |k: int| copy_of(item, at as int, k)),
                decreases wanted - made,
            {
                let sort_id: u32 = if item.sort_id == 0 {
                    ((at as u32 + 1) * 1000).saturating_add(made)
                } else {
                    item.sort_id
                };
                items.push(
                    BagItem {
                        id: item.id,
                        qty: 1,
                        reinforce: item.reinforce,
                        upgrade: item.upgrade,
                        gem: item.gem,
                        sort_id,
                    },
                );
                assert(items@.last() == copy_of(item, at as int, made as int));
                made = made + 1;
                assert(items@ =~= so_far + Seq::new(
                    made as nat,
                    |k: int| copy_of(item, at as int, k),
                ));
            }
            assert(items@ =~= so_far + Seq::new(
                copies(item.qty) as nat,
                |k: int| copy_of(bag@[at as int], at as int, k),
            ));
        }
        at = at + 1;
    }
    items
}

/// Every expanded item is one piece of something that is given, with an order number.
pub proof fn expanded_items_are_single(
    table: Option<Map<u32, WeaponRow>>,
    bag: Seq<BagItem>,
    n: int,
)
    requires
        0 <= n <= bag.len(),
    ensures
        forall|j: int|
            0 <= j < expanded(table, bag, n).len() ==> {
                let item = #[trigger] expanded(table, bag, n)[j];
                item.qty == 1 && item.sort_id != 0 && is_given(table, item)
            },
    decreases n,
{
    if n > 0 {
        expanded_items_are_single(table, bag, n - 1);
        let rest = expanded(table, bag, n - 1);
        assert forall|j: int| 0 <= j < expanded(table, bag, n).len() implies {
            let item = #[trigger] expanded(table, bag, n)[j];
            item.qty == 1 && item.sort_id != 0 && is_given(table, item)
        } by {
            if j < rest.len() {
                assert(expanded(table, bag, n)[j] == rest[j]);
            } else {
                let k = j - rest.len();
                assert(expanded(table, bag, n)[j] == copy_of(bag[n - 1], n - 1, k));
            }
        }
    }
}

/// Single items with an order number are given as they are.
proof fn single_items_stay(table: Option<Map<u32, WeaponRow>>, bag: Seq<BagItem>, n: int)
    requires
        0 <= n <= bag.len(),
        forall|j: int|
            0 <= j < bag.len() ==> (#[trigger] bag[j]).qty == 1 && bag[j].sort_id != 0 && is_given(
                table,
                bag[j],
            ),
    ensures
        expanded(table, bag, n) == bag.take(n),
    decreases n,
{
    if n > 0 {
        single_items_stay(table, bag, n - 1);
        assert(bag[n - 1].qty == 1);
        assert(expanded(table, bag, n) =~= bag.take(n));
    } else {
        assert(bag.take(0) =~= seq![]);
    }
}

/// Expanding what was expanded changes nothing.
pub proof fn expanding_again_changes_nothing(
    table: Option<Map<u32, WeaponRow>>,
    bag: Seq<BagItem>,
)
    ensures
        ({
            let once = expanded(table, bag, bag.len() as int);
            expanded(table, once, once.len() as int) == once
        }),
{
    let once = expanded(table, bag, bag.len() as int);
    expanded_items_are_single(table, bag, bag.len() as int);
    single_items_stay(table, once, once.len() as int);
    assert(once.take(once.len() as int) =~= once);
}

/// Whether a place takes the order number of a given item.
pub open spec fn takes(entry: Option<BagEntry>, item: (u32, i64, u32)) -> bool {
    entry is Some && entry->0.item_id == item.0 && (item.1 >= 0 ==> entry->0.gem == item.1)
}

/// The first place below `limit` from `from` on that takes a given item and is not used yet;
/// `limit` where there is none.
pub open spec fn first_taking(
    normal: Seq<Option<BagEntry>>,
    used: Set<int>,
    limit: int,
    item: (u32, i64, u32),
    from: int,
) -> int
    decreases limit - from,
{
    if from >= limit || (!used.contains(from) && takes(normal[from], item)) {
        from
    } else {
        first_taking(normal, used, limit, item, from + 1)
    }
}

/// A place with another order number.
pub open spec fn renumbered(entry: Option<BagEntry>, sort_id: u32) -> Option<BagEntry> {
    match entry {
        Some(entry) => Some(BagEntry { sort_id, ..entry }),
        None => None,
    }
}

/// The normal places and the used ones after some given items have passed their order numbers
/// on, in turn, each to the first place that takes it.
pub open spec fn stamped(
    normal: Seq<Option<BagEntry>>,
    limit: int,
    given: Seq<(u32, i64, u32)>,
) -> (Seq<Option<BagEntry>>, Set<int>)
    decreases given.len(),
{
    if given.len() == 0 {
        (normal, Set::empty())
    } else {
        let (places, used) = stamped(normal, limit, given.drop_last());
        let item = given.last();
        let at = first_taking(places, used, limit, item, 0);
        if at < limit {
            (places.update(at, renumbered(places[at], item.2)), used.insert(at))
        } else {
            (places, used)
        }
    }
}

/// The largest order number but the one that stands for none; 0 where there is none.
pub open spec fn largest_number(normal: Seq<Option<BagEntry>>) -> u32
    decreases normal.len(),
{
    if normal.len() == 0 {
        0
    } else {
        let rest = largest_number(normal.drop_last());
        match normal.last() {
            Some(entry) if entry.sort_id != u32::MAX && entry.sort_id > rest => entry.sort_id,
            _ => rest,
        }
    }
}

/// How many places take order numbers.
pub open spec fn stamp_limit(bag: Bag) -> int {
    if bag.normal_len < bag.normal@.len() {
        bag.normal_len as int
    } else {
        bag.normal@.len() as int
    }
}

/// Gives the bag's items the order numbers that they were saved with, and sets the number that
/// the next item gets beyond them all.
pub fn stamp_sort_ids(bag: &mut Bag, given: &[(u32, i64, u32)])
    ensures
        final(bag).normal@ == stamped(old(bag).normal@, stamp_limit(*old(bag)), given@).0,
        final(bag).next_sort_id == largest_number(final(bag).normal@) + 1,
        final(bag).key_capacity == old(bag).key_capacity,
        final(bag).keys@ == old(bag).keys@,
        final(bag).normal_len == old(bag).normal_len,
{
    let ghost start = bag.normal@;
    let ghost limited = stamp_limit(*bag);
    let places: usize = bag.normal.len();
    let limit: usize = if (bag.normal_len as usize) < places {
        bag.normal_len as usize
    } else {
        places
    };
    let mut used: Vec<bool> = Vec::new();
    let mut made: usize = 0;
    while made < limit
        invariant
            made <= limit,
            used@.len() == made,
            forall|i: int| 0 <= i < made ==> !(#[trigger] used@[i]),
        decreases limit - made,
    {
        used.push(false);
        made = made + 1;
    }
    let count: usize = given.len();
    let mut at: usize = 0;
    assert(given@.take(0) =~= seq![]);
    while at < count
        invariant
            at <= count,
            count == given@.len(),
            limit == limited,
            limit <= bag.normal@.len(),
            bag.normal@.len() == start.len(),
            used@.len() == limit,
            bag.normal@ == stamped(start, limited, given@.take(at as int)).0,
            forall|i: int|
                #![trigger used@[i]]
                0 <= i < limit ==> used@[i] == stamped(
                    start,
                    limited,
                    given@.take(at as int),
                ).1.contains(i),
            bag.key_capacity == old(bag).key_capacity,
            bag.keys@ == old(bag).keys@,
            bag.normal_len == old(bag).normal_len,
        decreases count - at,
    {
        let item: (u32, i64, u32) = given[at];
        let ghost now = stamped(start, limited, given@.take(at as int));
        assert(given@.take(at + 1).drop_last() =~= given@.take(at as int));
        let mut place: usize = 0;
        let mut found = false;
        while place < limit && !found
            invariant
                place <= limit,
                limit == limited,
                limit <= bag.normal@.len(),
                used@.len() == limit,
                bag.normal@ == now.0,
                forall|i: int|
                    #![trigger used@[i]]
                    0 <= i < limit ==> used@[i] == now.1.contains(i),
                first_taking(now.0, now.1, limited, item, 0) == first_taking(
                    now.0,
                    now.1,
                    limited,
                    item,
                    place as int,
                ),
                found ==> place < limit && first_taking(now.0, now.1, limited, item, 0) == place
                    && takes(now.0[place as int], item),
            decreases
                if found {
                    0
                } else {
                    limit - place + 1
                },
        {
            let takes_it = match bag.normal[place] {
                Some(entry) => entry.item_id == item.0 && (item.1 < 0 || entry.gem == item.1),
                None => false,
            };
            if !used[place] && takes_it {
                found = true;
            } else {
                place = place + 1;
            }
        }
        if found {
            match bag.normal[place] {
                Some(entry) => {
                    bag.normal.set(
                        place,
                        Some(
                            BagEntry {
                                item_id: entry.item_id,
                                handle: entry.handle,
                                quantity: entry.quantity,
                                sort_id: item.2,
                                gem: entry.gem,
                            },
                        ),
                    );
                    used.set(place, true);
                },
                None => {},
            }
        }
        at = at + 1;
    }
    assert(given@.take(count as int) =~= given@);
    let mut largest: u32 = 0;
    let mut seen: usize = 0;
    assert(bag.normal@.take(0) =~= seq![]);
    while seen < bag.normal.len()
        invariant
            seen <= bag.normal@.len(),
            largest == largest_number(bag.normal@.take(seen as int)),
            largest < u32::MAX,
        decreases bag.normal@.len() - seen,
    {
        assert(bag.normal@.take(seen + 1).drop_last() =~= bag.normal@.take(seen as int));
        match bag.normal[seen] {
            Some(entry) => {
                if entry.sort_id != u32::MAX && entry.sort_id > largest {
                    largest = entry.sort_id;
                }
            },
            None => {},
        }
        seen = seen + 1;
    }
    assert(bag.normal@.take(bag.normal@.len() as int) =~= bag.normal@);
    bag.next_sort_id = largest.saturating_add(1);
}

/// Passing order numbers on changes nothing but the order numbers of the places that take them.
pub proof fn stamping_only_renumbers(
    normal: Seq<Option<BagEntry>>,
    limit: int,
    given: Seq<(u32, i64, u32)>,
)
    requires
        0 <= limit <= normal.len(),
    ensures
        stamped(normal, limit, given).0.len() == normal.len(),
        forall|i: int|
            0 <= i < normal.len() ==> match normal[i] {
                Some(entry) => (#[trigger] stamped(normal, limit, given).0[i]) is Some
                    && BagEntry {
                    sort_id: entry.sort_id,
                    ..stamped(normal, limit, given).0[i]->0
                } == entry,
                None => stamped(normal, limit, given).0[i] is None,
            },
        forall|i: int|
            0 <= i < normal.len() && !stamped(normal, limit, given).1.contains(i) ==> (
            #[trigger] stamped(normal, limit, given).0[i]) == normal[i],
    decreases given.len(),
{
    if given.len() > 0 {
        stamping_only_renumbers(normal, limit, given.drop_last());
        let (places, used) = stamped(normal, limit, given.drop_last());
        taking_place(places, used, limit, given.last(), 0);
    }
}

/// A place that took an order number keeps it.
pub proof fn stamped_places_stay(
    normal: Seq<Option<BagEntry>>,
    limit: int,
    given: Seq<(u32, i64, u32)>,
    more: (u32, i64, u32),
    i: int,
)
    requires
        0 <= limit <= normal.len(),
        0 <= i < normal.len(),
        stamped(normal, limit, given).1.contains(i),
    ensures
        stamped(normal, limit, given.push(more)).0[i] == stamped(normal, limit, given).0[i],
        stamped(normal, limit, given.push(more)).1.contains(i),
{
    assert(given.push(more).drop_last() =~= given);
    stamping_only_renumbers(normal, limit, given);
    let (places, used) = stamped(normal, limit, given);
    taking_place(places, used, limit, more, 0);
}

proof fn taking_place(
    normal: Seq<Option<BagEntry>>,
    used: Set<int>,
    limit: int,
    item: (u32, i64, u32),
    from: int,
)
    requires
        0 <= from <= limit <= normal.len(),
    ensures
        from <= first_taking(normal, used, limit, item, from) <= limit,
        first_taking(normal, used, limit, item, from) < limit ==> !used.contains(
            first_taking(normal, used, limit, item, from),
        ) && takes(normal[first_taking(normal, used, limit, item, from)], item),
    decreases limit - from,
{
    if from < limit && !(!used.contains(from) && takes(normal[from], item)) {
        taking_place(normal, used, limit, item, from + 1);
    }
}

/// A new item comes after all others: the next order number is greater than every order number
/// of the bag but the one that stands for none.
pub proof fn next_number_is_new(normal: Seq<Option<BagEntry>>, i: int)
    requires
        0 <= i < normal.len(),
        normal[i] is Some,
        normal[i]->0.sort_id != u32::MAX,
    ensures
        normal[i]->0.sort_id < largest_number(normal) + 1 <= u32::MAX,
    decreases normal.len(),
{
    largest_fits(normal);
    if i < normal.len() - 1 {
        assert(normal.drop_last()[i] == normal[i]);
        next_number_is_new(normal.drop_last(), i);
    }
}

proof fn largest_fits(normal: Seq<Option<BagEntry>>)
    ensures
        largest_number(normal) < u32::MAX,
    decreases normal.len(),
{
    if normal.len() > 0 {
        largest_fits(normal.drop_last());
    }
}

/// A saved bag is in the order of acquisition, and holds exactly the items of the places.
pub proof fn saved_bag_is_in_order(table: Option<Map<u32, WeaponRow>>, bag: Bag)
    requires
        items_below(table, bag.normal@, bag.normal@.len() as int).len() <= usize::MAX,
    ensures
        saved_bag(table, bag).to_multiset() == items_below(
            table,
            bag.normal@,
            bag.normal@.len() as int,
        ).to_multiset(),
        forall|i: int, j: int|
            0 <= i < j < saved_bag(table, bag).len() ==> (#[trigger] saved_bag(
                table,
                bag,
            )[i]).sort_id <= (#[trigger] saved_bag(table, bag)[j]).sort_id,
{
    let items = items_below(table, bag.normal@, bag.normal@.len() as int);
    let keys = order_numbers(items);
    stable_exists(keys);
    sorting_rearranges(items, keys);
    let order = stable(keys);
    let list = saved_bag(table, bag);
    assert forall|i: int, j: int| 0 <= i < j < list.len() implies (#[trigger] list[i]).sort_id <= (
    #[trigger] list[j]).sort_id by {
        assert(before(keys, order[i] as int, order[j] as int));
        assert(list[i] == items[order[i] as int]);
        assert(list[j] == items[order[j] as int]);
    }
}

/// What is handed to the game to get one copy of a place back.
pub open spec fn held_item(entry: BagEntry) -> (u32, u32, u32) {
    (
        entry.item_id,
        1,
        if category_of(entry.item_id) == Some(ItemCategory::Weapon) {
            gem_word(entry.gem)
        } else {
            NO_GEM
        },
    )
}

/// The same for all copies of a place that is saved.
pub open spec fn held_items(table: Option<Map<u32, WeaponRow>>, entry: Option<BagEntry>) -> Seq<
    (u32, u32, u32),
> {
    match entry {
        Some(entry) if is_managed_id(table, entry.item_id) && entry.item_id != FIST => Seq::new(
            copies(entry.quantity) as nat,
            |i: int| held_item(entry),
        ),
        _ => seq![],
    }
}

/// The same for the first `n` places.
pub open spec fn held_below(
    table: Option<Map<u32, WeaponRow>>,
    normal: Seq<Option<BagEntry>>,
    n: int,
) -> Seq<(u32, u32, u32)>
    decreases n,
{
    if n <= 0 {
        seq![]
    } else {
        held_below(table, normal, n - 1) + held_items(table, normal[n - 1])
    }
}

/// Whether the item that a place is saved as is given again, and as the same.
pub open spec fn comes_back(table: Option<Map<u32, WeaponRow>>, level: u8, entry: BagEntry) -> bool {
    is_given(table, saved_item(table, entry)) && resolved(table, level, saved_item(table, entry))
        == Some(held_item(entry))
}

/// Whether nothing of what a place holds is lost when it is saved: armor and talismans lose
/// nothing, and a weapon does not either unless its base id is never given, or it is reinforced
/// and the row of its base id says that it cannot be.
pub open spec fn keeps_all(table: Option<Map<u32, WeaponRow>>, entry: BagEntry) -> bool {
    let item = saved_item(table, entry);
    category_of(entry.item_id) != Some(ItemCategory::Weapon) || (is_given(table, item) && (
    item.reinforce == 0 || takes_levels(table, item)))
}

/// What is saved whole comes back the same, at every level of the player, and nothing else does.
pub proof fn what_comes_back(table: Option<Map<u32, WeaponRow>>, level: u8, entry: BagEntry)
    requires
        is_managed_id(table, entry.item_id),
    ensures
        comes_back(table, level, entry) <==> keeps_all(table, entry),
{
    let item = saved_item(table, entry);
    if category_of(entry.item_id) == Some(ItemCategory::Weapon) {
        let made = decoded(table, entry.item_id, entry.gem);
        assert(resolved(table, level, item) == resolved(table, level, made)) by {
            assert(item.id == made.id && item.reinforce == made.reinforce);
            assert(item.upgrade == made.upgrade && item.gem == made.gem);
            decoded_parts_add_up(table, entry.item_id, entry.gem);
        }
        if row_of(table, param_of(entry.item_id)) is Some {
            decode_then_resolve(table, level, entry.item_id, entry.gem);
        } else {
            assert(item.reinforce == 0 && item.upgrade == 0 && item.id == entry.item_id);
        }
    }
}

proof fn items_match(
    table: Option<Map<u32, WeaponRow>>,
    level: u8,
    normal: Seq<Option<BagEntry>>,
    n: int,
)
    requires
        0 <= n <= normal.len(),
        forall|i: int|
            0 <= i < n ==> match #[trigger] normal[i] {
                Some(entry) => is_managed_id(table, entry.item_id) && entry.item_id != FIST
                    ==> comes_back(table, level, entry),
                None => true,
            },
    ensures
        items_below(table, normal, n).len() == held_below(table, normal, n).len(),
        forall|k: int|
            0 <= k < items_below(table, normal, n).len() ==> {
                let item = #[trigger] items_below(table, normal, n)[k];
                &&& item.qty == 1
                &&& is_given(table, item)
                &&& resolved(table, level, item) == Some(held_below(table, normal, n)[k])
            },
    decreases n,
{
    if n > 0 {
        items_match(table, level, normal, n - 1);
        let before = items_below(table, normal, n - 1);
        let items = items_below(table, normal, n);
        let held = held_below(table, normal, n);
        assert(items == before + saved_items(table, normal[n - 1]));
        assert forall|k: int| 0 <= k < items.len() implies {
            let item = #[trigger] items[k];
            &&& item.qty == 1
            &&& is_given(table, item)
            &&& resolved(table, level, item) == Some(held[k])
        } by {
            if k < before.len() {
                assert(items[k] == before[k]);
                assert(held[k] == held_below(table, normal, n - 1)[k]);
            } else {
                let entry = normal[n - 1]->0;
                assert(items[k] == saved_item(table, entry));
                assert(held[k] == held_item(entry));
                assert(comes_back(table, level, entry));
            }
        }
    }
}

proof fn single_items_expand(table: Option<Map<u32, WeaponRow>>, bag: Seq<BagItem>, n: int)
    requires
        0 <= n <= bag.len(),
        forall|j: int| 0 <= j < bag.len() ==> (#[trigger] bag[j]).qty == 1 && is_given(table, bag[j]),
    ensures
        expanded(table, bag, n) == Seq::new(n as nat, |j: int| copy_of(bag[j], j, 0)),
    decreases n,
{
    if n > 0 {
        single_items_expand(table, bag, n - 1);
        assert(bag[n - 1].qty == 1);
    }
    assert(expanded(table, bag, n) =~= Seq::new(n as nat, |j: int| copy_of(bag[j], j, 0)));
}

/// Saving a bag and giving what was saved brings the same items back, each copy of them with its
/// ash of war, in the order of acquisition.
pub proof fn what_was_saved_is_given_again(
    table: Option<Map<u32, WeaponRow>>,
    level: u8,
    bag: Bag,
)
    requires
        items_below(table, bag.normal@, bag.normal@.len() as int).len() <= usize::MAX,
        forall|i: int|
            0 <= i < bag.normal@.len() ==> match #[trigger] bag.normal@[i] {
                Some(entry) => is_managed_id(table, entry.item_id) && entry.item_id != FIST
                    ==> keeps_all(table, entry),
                None => true,
            },
    ensures
        ({
            let saved = saved_bag(table, bag);
            let given = expanded(table, saved, saved.len() as int);
            let items = items_below(table, bag.normal@, bag.normal@.len() as int);
            let held = sorted(
                held_below(table, bag.normal@, bag.normal@.len() as int),
                order_numbers(items),
            );
            &&& given.len() == held.len()
            &&& forall|i: int|
                0 <= i < given.len() ==> resolved(table, level, #[trigger] given[i]) == Some(held[i])
        }),
{
    let places = bag.normal@.len() as int;
    let items = items_below(table, bag.normal@, places);
    let held = held_below(table, bag.normal@, places);
    let keys = order_numbers(items);
    let order = stable(keys);
    let saved = saved_bag(table, bag);
    stable_exists(keys);
    assert forall|i: int| 0 <= i < places implies match #[trigger] bag.normal@[i] {
        Some(entry) => is_managed_id(table, entry.item_id) && entry.item_id != FIST ==> comes_back(
            table,
            level,
            entry,
        ),
        None => true,
    } by {
        match bag.normal@[i] {
            Some(entry) => {
                if is_managed_id(table, entry.item_id) {
                    what_comes_back(table, level, entry);
                }
            },
            None => {},
        }
    }
    items_match(table, level, bag.normal@, places);
    assert forall|j: int| 0 <= j < saved.len() implies (#[trigger] saved[j]).qty == 1 && is_given(
        table,
        saved[j],
    ) by {
        assert(saved[j] == items[order[j] as int]);
    }
    single_items_expand(table, saved, saved.len() as int);
    let given = expanded(table, saved, saved.len() as int);
    assert forall|i: int| 0 <= i < given.len() implies resolved(table, level, #[trigger] given[i])
        == Some(sorted(held, keys)[i]) by {
        let item = items[order[i] as int];
        assert(saved[i] == item);
        assert(given[i] == copy_of(item, i, 0));
        assert(sorted(held, keys)[i] == held[order[i] as int]);
        assert(resolved(table, level, given[i]) == resolved(table, level, item));
    }
}

/// How many pieces of each kind there are.
#[derive(Clone, Copy, Debug, PartialEq, Eq, Structural)]
pub struct BagCounts {
    pub weapons: u32,
    pub armor: u32,
    pub talismans: u32,
}

impl BagCounts {
    /// Says the counts.
    pub fn describe(&self) -> (text: String)
        ensures
            text@ == "武器 "@ + decimal(self.weapons as int) + " / 护甲 "@ + decimal(
                self.armor as int,
            ) + " / 护符 "@ + decimal(self.talismans as int),
    {
        let mut text = "武器 ".to_owned();
        push_decimal(&mut text, self.weapons as u64);
        text.append(" / 护甲 ");
        push_decimal(&mut text, self.armor as u64);
        text.append(" / 护符 ");
        push_decimal(&mut text, self.talismans as u64);
        text
    }
}

/// Counts without a bound.
pub struct Tallies {
    pub weapons: int,
    pub armor: int,
    pub talismans: int,
}

impl Tallies {
    /// Whether the counts fit.
    pub open spec fn fit(self) -> bool {
        self.weapons <= u32::MAX && self.armor <= u32::MAX && self.talismans <= u32::MAX
    }

    /// With `n` more of a category.
    pub open spec fn with(self, category: Option<ItemCategory>, n: int) -> Tallies {
        match category {
            Some(ItemCategory::Weapon) => Tallies { weapons: self.weapons + n, ..self },
            Some(ItemCategory::Protector) => Tallies { armor: self.armor + n, ..self },
            Some(ItemCategory::Accessory) => Tallies { talismans: self.talismans + n, ..self },
            _ => self,
        }
    }
}

/// The same counts without a bound.
pub open spec fn tallies(counts: BagCounts) -> Tallies {
    Tallies {
        weapons: counts.weapons as int,
        armor: counts.armor as int,
        talismans: counts.talismans as int,
    }
}

fn count_more(counts: &mut BagCounts, kind: Option<ItemCategory>, n: u32)
    requires
        tallies(*old(counts)).with(kind, n as int).fit(),
    ensures
        tallies(*final(counts)) == tallies(*old(counts)).with(kind, n as int),
{
    match kind {
        Some(ItemCategory::Weapon) => {
            counts.weapons = counts.weapons + n;
        },
        Some(ItemCategory::Protector) => {
            counts.armor = counts.armor + n;
        },
        Some(ItemCategory::Accessory) => {
            counts.talismans = counts.talismans + n;
        },
        _ => {},
    }
}

/// How many pieces of each kind a saved bag holds; ammunition does not count.
pub open spec fn bag_tallies(table: Option<Map<u32, WeaponRow>>, bag: Seq<BagItem>) -> Tallies
    decreases bag.len(),
{
    if bag.len() == 0 {
        Tallies { weapons: 0, armor: 0, talismans: 0 }
    } else {
        let rest = bag_tallies(table, bag.drop_last());
        let item = bag.last();
        if is_ammo_id(table, item.id) {
            rest
        } else {
            rest.with(category_of(item.id), copies(item.qty) as int)
        }
    }
}

proof fn bag_tallies_grow(table: Option<Map<u32, WeaponRow>>, bag: Seq<BagItem>, n: int)
    requires
        0 <= n <= bag.len(),
    ensures
        bag_tallies(table, bag.take(n)).weapons <= bag_tallies(table, bag).weapons,
        bag_tallies(table, bag.take(n)).armor <= bag_tallies(table, bag).armor,
        bag_tallies(table, bag.take(n)).talismans <= bag_tallies(table, bag).talismans,
    decreases bag.len(),
{
    if n < bag.len() {
        bag_tallies_grow(table, bag.drop_last(), n);
        assert(bag.drop_last().take(n) =~= bag.take(n));
    } else {
        assert(bag.take(n) =~= bag);
    }
}

/// Counts the pieces of a saved bag.
pub fn count_bag(table: &WeaponTable, bag: &Vec<BagItem>) -> (counts: BagCounts)
    requires
        bag_tallies(table@, bag@).fit(),
    ensures
        tallies(counts) == bag_tallies(table@, bag@),
{
    let mut counts = BagCounts { weapons: 0, armor: 0, talismans: 0 };
    let mut at: usize = 0;
    while at < bag.len()
        invariant
            at <= bag@.len(),
            bag_tallies(table@, bag@).fit(),
            tallies(counts) == bag_tallies(table@, bag@.take(at as int)),
        decreases bag@.len() - at,
    {
        let item: BagItem = bag[at];
        proof {
            assert(bag@.take(at + 1).drop_last() =~= bag@.take(at as int));
            bag_tallies_grow(table@, bag@, at + 1);
        }
        if !is_ammo(table, item.id) {
            let n: u32 = if item.qty < 1 {
                1
            } else {
                item.qty
            };
            count_more(&mut counts, category(item.id), n);
        }
        at = at + 1;
    }
    assert(bag@.take(bag@.len() as int) =~= bag@);
    counts
}

/// Counts the pieces of a saved build.
pub fn snap_counts(table: &WeaponTable, build: &BuildSnapshot) -> (counts: BagCounts)
    requires
        bag_tallies(table@, build.bag@).fit(),
    ensures
        tallies(counts) == bag_tallies(table@, build.bag@),
{
    count_bag(table, &build.bag)
}

/// The counts with one more filled place: a weapon is one piece, whatever its quantity.
pub open spec fn with_entry(
    table: Option<Map<u32, WeaponRow>>,
    counts: Tallies,
    entry: Option<BagEntry>,
) -> Tallies {
    match entry {
        Some(entry) if is_managed_id(table, entry.item_id) => if category_of(entry.item_id)
            == Some(ItemCategory::Weapon) {
            counts.with(Some(ItemCategory::Weapon), 1)
        } else {
            counts.with(category_of(entry.item_id), copies(entry.quantity) as int)
        },
        _ => counts,
    }
}

/// The counts of some places.
pub open spec fn place_tallies(table: Option<Map<u32, WeaponRow>>, places: Seq<Option<BagEntry>>) -> Tallies
    decreases places.len(),
{
    if places.len() == 0 {
        Tallies { weapons: 0, armor: 0, talismans: 0 }
    } else {
        with_entry(table, place_tallies(table, places.drop_last()), places.last())
    }
}

/// All filled places of a bag: the key items, then the normal places.
pub open spec fn all_places(bag: Bag) -> Seq<Option<BagEntry>> {
    bag.keys@.map_values(|entry: BagEntry| Some(entry)) + bag.normal@
}

proof fn place_tallies_grow(
    table: Option<Map<u32, WeaponRow>>,
    places: Seq<Option<BagEntry>>,
    n: int,
)
    requires
        0 <= n <= places.len(),
    ensures
        place_tallies(table, places.take(n)).weapons <= place_tallies(table, places).weapons,
        place_tallies(table, places.take(n)).armor <= place_tallies(table, places).armor,
        place_tallies(table, places.take(n)).talismans <= place_tallies(table, places).talismans,
    decreases places.len(),
{
    if n < places.len() {
        place_tallies_grow(table, places.drop_last(), n);
        assert(places.drop_last().take(n) =~= places.take(n));
    } else {
        assert(places.take(n) =~= places);
    }
}

fn count_entry(table: &WeaponTable, counts: &mut BagCounts, entry: &BagEntry)
    requires
        with_entry(table@, tallies(*old(counts)), Some(*entry)).fit(),
    ensures
        tallies(*final(counts)) == with_entry(table@, tallies(*old(counts)), Some(*entry)),
{
    if is_managed(table, entry.item_id) {
        let kind = category(entry.item_id);
        let n: u32 = match kind {
            Some(ItemCategory::Weapon) => 1,
            _ => if entry.quantity < 1 {
                1
            } else {
                entry.quantity
            },
        };
        count_more(counts, kind, n);
    }
}

/// Counts the pieces of the bag itself.
pub fn live_counts(table: &WeaponTable, bag: &Bag) -> (counts: BagCounts)
    requires
        place_tallies(table@, all_places(*bag)).fit(),
    ensures
        tallies(counts) == place_tallies(table@, all_places(*bag)),
{
    let ghost all = all_places(*bag);
    let mut counts = BagCounts { weapons: 0, armor: 0, talismans: 0 };
    let mut at: usize = 0;
    while at < bag.keys.len()
        invariant
            at <= bag.keys@.len(),
            all == all_places(*bag),
            place_tallies(table@, all).fit(),
            tallies(counts) == place_tallies(table@, all.take(at as int)),
        decreases bag.keys@.len() - at,
    {
        proof {
            assert(all.take(at + 1).drop_last() =~= all.take(at as int));
            place_tallies_grow(table@, all, at + 1);
        }
        count_entry(table, &mut counts, &bag.keys[at]);
        at = at + 1;
    }
    let ghost keys = bag.keys@.len() as int;
    let mut place: usize = 0;
    while place < bag.normal.len()
        invariant
            place <= bag.normal@.len(),
            keys == bag.keys@.len(),
            all == all_places(*bag),
            place_tallies(table@, all).fit(),
            tallies(counts) == place_tallies(table@, all.take(keys + place)),
        decreases bag.normal@.len() - place,
    {
        proof {
            assert(all.take(keys + place + 1).drop_last() =~= all.take(keys + place));
            assert(all[keys + place] == bag.normal@[place as int]);
            place_tallies_grow(table@, all, keys + place + 1);
        }
        match &bag.normal[place] {
            Some(entry) => {
                count_entry(table, &mut counts, entry);
            },
            None => {},
        }
        place = place + 1;
    }
    assert(all.take(all.len() as int) =~= all);
    counts
}

/// How the list of the bag says what is done with an item.
pub open spec fn treatment(table: Option<Map<u32, WeaponRow>>, id: u32) -> Seq<char> {
    if is_managed_id(table, id) {
        "同步"@
    } else if is_ammo_id(table, id) {
        "弹药-跳过"@
    } else {
        "跳过"@
    }
}

/// The line of one filled place.
pub open spec fn place_line(
    table: Option<Map<u32, WeaponRow>>,
    key_capacity: u32,
    i: int,
    entry: BagEntry,
) -> Seq<char> {
    decimal(i) + "\t"@ + decimal(key_capacity + i) + "\t"@ + id_text(entry.item_id) + "\t"@
        + match category_of(entry.item_id) {
        Some(category) => category_text(category),
        None => "-"@,
    } + "\t"@ + decimal(entry.quantity as int) + "\t"@ + if entry.gem < 0 {
        "-"@
    } else {
        id_text(entry.gem as u32)
    } + "\t"@ + treatment(table, entry.item_id) + "\n"@
}

/// The lines of the first `n` places.
pub open spec fn place_lines(table: Option<Map<u32, WeaponRow>>, bag: Bag, n: int) -> Seq<char>
    decreases n,
{
    if n <= 0 {
        seq![]
    } else {
        let rest = place_lines(table, bag, n - 1);
        match bag.normal@[n - 1] {
            Some(entry) => rest + place_line(table, bag.key_capacity, n - 1, entry),
            None => rest,
        }
    }
}

/// The head of the list of the bag.
pub open spec fn dump_head(bag: Bag) -> Seq<char> {
    "普通格容量 "@ + decimal(bag.normal@.len() as int) + " 已用 "@ + decimal(
        bag.normal_len as int,
    ) + " / 钥匙格容量 "@ + decimal(bag.key_capacity as int)
        + "\n\n普通格\t绝对索引\titem_id\t\t类别\t数量\t灰烬\t处理\n"@
}

fn gem_text(gem: i64) -> (text: String)
    requires
        gem <= u32::MAX,
    ensures
        text@ == if gem < 0 {
            "-"@
        } else {
            id_text(gem as u32)
        },
{
    if gem < 0 {
        return "-".to_owned();
    }
    let mut text = String::new();
    push_id(&mut text, gem as u32);
    assert(text@ =~= id_text(gem as u32));
    text
}

fn treatment_of(table: &WeaponTable, id: u32) -> (text: &'static str)
    ensures
        text@ == treatment(table@, id),
{
    if is_managed(table, id) {
        "同步"
    } else if is_ammo(table, id) {
        "弹药-跳过"
    } else {
        "跳过"
    }
}

fn line_of(table: &WeaponTable, key_capacity: u32, at: usize, entry: &BagEntry) -> (line: String)
    requires
        key_capacity + at <= u32::MAX,
        entry.gem <= u32::MAX,
    ensures
        line@ == place_line(table@, key_capacity, at as int, *entry),
{
    let kind = match category(entry.item_id) {
        Some(category) => category_name(category),
        None => "-",
    };
    let gem = gem_text(entry.gem);
    let mut line = decimal_text(at as u64);
    line.append("\t");
    push_decimal(&mut line, (key_capacity + at as u32) as u64);
    line.append("\t");
    push_id(&mut line, entry.item_id);
    line.append("\t");
    line.append(kind);
    line.append("\t");
    push_decimal(&mut line, entry.quantity as u64);
    line.append("\t");
    line.append(gem.as_str());
    line.append("\t");
    line.append(treatment_of(table, entry.item_id));
    line.append("\n");
    line
}

/// Lists the normal places of the bag, for looking at.
pub fn dump_inventory(table: &WeaponTable, bag: &Bag) -> (text: String)
    requires
        bag.wf(),
        forall|i: int|
            0 <= i < bag.normal@.len() && (#[trigger] bag.normal@[i]) is Some
                ==> bag.normal@[i]->0.gem <= u32::MAX,
    ensures
        text@ == dump_head(*bag) + place_lines(table@, *bag, bag.normal@.len() as int),
{
    let mut text = "普通格容量 ".to_owned();
    push_decimal(&mut text, bag.normal.len() as u64);
    text.append(" 已用 ");
    push_decimal(&mut text, bag.normal_len as u64);
    text.append(" / 钥匙格容量 ");
    push_decimal(&mut text, bag.key_capacity as u64);
    text.append("\n\n普通格\t绝对索引\titem_id\t\t类别\t数量\t灰烬\t处理\n");
    let mut at: usize = 0;
    assert(dump_head(*bag) + place_lines(table@, *bag, 0) =~= dump_head(*bag));
    while at < bag.normal.len()
        invariant
            bag.wf(),
            forall|i: int|
                0 <= i < bag.normal@.len() && (#[trigger] bag.normal@[i]) is Some
                    ==> bag.normal@[i]->0.gem <= u32::MAX,
            at <= bag.normal@.len(),
            text@ == dump_head(*bag) + place_lines(table@, *bag, at as int),
        decreases bag.normal@.len() - at,
    {
        match &bag.normal[at] {
            Some(entry) => {
                assert(bag.normal@[at as int] == Some(*entry));
                text.append(line_of(table, bag.key_capacity, at, entry).as_str());
            },
            None => {},
        }
        assert(text@ =~= dump_head(*bag) + place_lines(table@, *bag, at + 1));
        at = at + 1;
    }
    text
}

/// Why a numbered slot was not saved or loaded.
#[derive(Clone, Copy, Debug, PartialEq, Eq, Structural)]
pub enum SlotError {
    /// There is no such slot.
    Invalid,
    /// Nothing was saved in it.
    Empty(usize),
}

impl SlotError {
    /// The characters of the message.
    pub open spec fn text(&self) -> Seq<char> {
        match self {
            SlotError::Invalid => "槽位无效"@,
            SlotError::Empty(slot) => "槽 "@ + decimal(*slot + 1) + " 还没有存档"@,
        }
    }

    /// The message for the player.
    pub fn message(&self) -> (text: String)
        requires
            self matches SlotError::Empty(slot) ==> slot < SLOT_COUNT,
        ensures
            text@ == self.text(),
    {
        match self {
            SlotError::Invalid => "槽位无效".to_owned(),
            SlotError::Empty(slot) => {
                let mut text = "槽 ".to_owned();
                push_decimal(&mut text, *slot as u64 + 1);
                text.append(" 还没有存档");
                text
            },
        }
    }
}

/// The name of the file of a numbered slot.
pub open spec fn slot_file(slot: usize) -> Seq<char> {
    "bd"@ + decimal(slot + 1) + ".json"@
}

/// The name of the file that a numbered slot is saved to.
pub fn save_slot(slot: usize) -> (file: Result<String, SlotError>)
    ensures
        match file {
            Ok(name) => slot < SLOT_COUNT && name@ == slot_file(slot),
            Err(error) => slot >= SLOT_COUNT && error == SlotError::Invalid,
        },
        file is Ok <==> slot < 3,
{
    if slot >= SLOT_COUNT {
        return Err(SlotError::Invalid);
    }
    let mut name = "bd".to_owned();
    push_decimal(&mut name, slot as u64 + 1);
    name.append(".json");
    Ok(name)
}

/// The text of a numbered slot, given what reading its file brought.
pub fn load_slot(slot: usize, content: Option<String>) -> (text: Result<String, SlotError>)
    ensures
        match text {
            Ok(text) => slot < SLOT_COUNT && content == Some(text),
            Err(error) => if slot >= SLOT_COUNT {
                error == SlotError::Invalid
            } else {
                content is None && error == SlotError::Empty(slot)
            },
        },
        text is Ok <==> slot < 3 && content is Some,
{
    if slot >= SLOT_COUNT {
        return Err(SlotError::Invalid);
    }
    match content {
        Some(text) => Ok(text),
        None => Err(SlotError::Empty(slot)),
    }
}

/// Builds hold armor, talismans and weapons with a row, but no ammunition: a weapon is ammunition
/// by the type of its hundred's row, or by a row from fifty million on where the table lacks it.
pub proof fn what_builds_hold(table: Option<Map<u32, WeaponRow>>, id: u32)
    ensures
        0x1000_0000 < id < 0x2000_0000 ==> is_managed_id(table, id),
        0x2000_0000 < id < 0x3000_0000 ==> is_managed_id(table, id),
        id == 0 || id == 0x1000_0000 || id == 0x2000_0000 || id >= 0x3000_0000 ==> !is_managed_id(
            table,
            id,
        ),
        0 < id < 0x1000_0000 ==> {
            let hundred = (id - id % 100) as u32;
            if table is Some && table->0.contains_key(hundred) {
                is_managed_id(table, id) == !(81 <= table->0[hundred].wep_type <= 86)
            } else {
                is_managed_id(table, id) == (id < 50_000_000)
            }
        },
{
    assert(id as int / 100 * 100 == id - id % 100);
}

proof fn equal_items_count(item: BagItem, n: nat)
    ensures
        Seq::new(n, |i: int| item).to_multiset().count(item) == n,
    decreases n,
{
    let all = Seq::new(n, |i: int| item);
    broadcast use vstd::seq_lib::group_to_multiset_ensures;

    if n > 0 {
        let rest = Seq::new((n - 1) as nat, |i: int| item);
        equal_items_count(item, (n - 1) as nat);
        assert(all =~= rest.push(item));
    }
}

proof fn place_counts(
    table: Option<Map<u32, WeaponRow>>,
    normal: Seq<Option<BagEntry>>,
    n: int,
    i: int,
)
    requires
        0 <= i < n <= normal.len(),
        normal[i] is Some,
        is_managed_id(table, normal[i]->0.item_id),
        normal[i]->0.item_id != 110_000,
    ensures
        items_below(table, normal, n).to_multiset().count(saved_item(table, normal[i]->0)) >= (
        if normal[i]->0.quantity == 0 { 1 } else { normal[i]->0.quantity as nat }),
    decreases n,
{
    let item = saved_item(table, normal[i]->0);
    let before = items_below(table, normal, n - 1);
    let these = saved_items(table, normal[n - 1]);
    vstd::seq_lib::lemma_multiset_commutative(before, these);
    if i < n - 1 {
        place_counts(table, normal, n - 1, i);
    } else {
        let count: nat = if normal[i]->0.quantity == 0 {
            1
        } else {
            normal[i]->0.quantity as nat
        };
        equal_items_count(item, count);
        assert(these =~= Seq::new(count, |k: int| item));
    }
}

/// Everything in the bag that builds hold is saved, each copy of it, with its order number: armor
/// and talismans under their own id, weapons taken apart and with their ash of war. The fist is
/// not saved.
pub proof fn every_copy_is_saved(table: Option<Map<u32, WeaponRow>>, bag: Bag, i: int)
    requires
        items_below(table, bag.normal@, bag.normal@.len() as int).len() <= usize::MAX,
        0 <= i < bag.normal@.len(),
        bag.normal@[i] is Some,
        is_managed_id(table, bag.normal@[i]->0.item_id),
        bag.normal@[i]->0.item_id != 110_000,
    ensures
        exists|item: BagItem| #[trigger]
            saved_bag(table, bag).to_multiset().count(item) >= (if bag.normal@[i]->0.quantity == 0 {
                1
            } else {
                bag.normal@[i]->0.quantity as nat
            }) && item.qty == 1 && item.sort_id == bag.normal@[i]->0.sort_id && (
            if bag.normal@[i]->0.item_id < 0x1000_0000 {
                item.id + item.reinforce + item.upgrade == bag.normal@[i]->0.item_id && item.gem
                    == bag.normal@[i]->0.gem
            } else {
                item.id == bag.normal@[i]->0.item_id && item.gem == -1
            }),
{
    let entry = bag.normal@[i]->0;
    let item = saved_item(table, entry);
    saved_bag_is_in_order(table, bag);
    place_counts(table, bag.normal@, bag.normal@.len() as int, i);
    if entry.item_id < 0x1000_0000 {
        decoded_parts_add_up(table, entry.item_id, entry.gem);
        let param = param_of(entry.item_id);
        if row_of(table, param) is Some {
            crate::tga::weapons_come_apart_at_their_origin(table->0, entry.item_id, entry.gem);
        }
    }
    assert(saved_bag(table, bag).to_multiset().count(item) >= (if entry.quantity == 0 {
        1
    } else {
        entry.quantity as nat
    }));
}

/// Every copy of a saved item is given: an item of a known kind that is neither the fist nor
/// ammunition comes out as often as it was saved, and at least once, with the same id, level,
/// affinity and ash of war. The order number is the saved one, or one in the thousand of the
/// item's place where none was saved.
pub proof fn every_copy_is_given(
    table: Option<Map<u32, WeaponRow>>,
    bag: Seq<BagItem>,
    n: int,
    i: int,
    k: int,
)
    requires
        0 <= i < n <= bag.len(),
        0 <= k < (if bag[i].qty == 0 { 1 } else { bag[i].qty as int }),
        category_of(bag[i].id) is Some,
        bag[i].id != 110_000,
        !is_ammo_id(table, bag[i].id),
        bag[i].sort_id == 0 ==> (i + 1) * 1000 + k <= u32::MAX,
    ensures
        exists|j: int|
            0 <= j < expanded(table, bag, n).len() && {
                let item = #[trigger] expanded(table, bag, n)[j];
                &&& item.id == bag[i].id
                &&& item.qty == 1
                &&& item.reinforce == bag[i].reinforce
                &&& item.upgrade == bag[i].upgrade
                &&& item.gem == bag[i].gem
                &&& bag[i].sort_id != 0 ==> item.sort_id == bag[i].sort_id
                &&& bag[i].sort_id == 0 ==> item.sort_id == 1000 * (i + 1) + k
            },
    decreases n,
{
    let rest = expanded(table, bag, n - 1);
    let now = expanded(table, bag, n);
    if i < n - 1 {
        every_copy_is_given(table, bag, n - 1, i, k);
        let j = choose|j: int|
            0 <= j < rest.len() && {
                let item = #[trigger] rest[j];
                &&& item.id == bag[i].id
                &&& item.qty == 1
                &&& item.reinforce == bag[i].reinforce
                &&& item.upgrade == bag[i].upgrade
                &&& item.gem == bag[i].gem
                &&& bag[i].sort_id != 0 ==> item.sort_id == bag[i].sort_id
                &&& bag[i].sort_id == 0 ==> item.sort_id == 1000 * (i + 1) + k
            };
        assert(now[j] == rest[j]);
    } else {
        let j = rest.len() + k;
        assert(now[j] == copy_of(bag[i], i, k));
    }
}

/// A given item that a free place of the bag holds gets its order number into such a place: one
/// within the limit that holds the item with the same ash of war and was not taken.
pub proof fn given_items_get_their_number(
    normal: Seq<Option<BagEntry>>,
    limit: int,
    given: Seq<(u32, i64, u32)>,
    item: (u32, i64, u32),
    p: int,
)
    requires
        0 <= p < limit <= normal.len(),
        !stamped(normal, limit, given).1.contains(p),
        normal[p] is Some,
        normal[p]->0.item_id == item.0,
        item.1 < 0 || normal[p]->0.gem == item.1,
    ensures
        ({
            let before = stamped(normal, limit, given).0;
            let (after, used) = stamped(normal, limit, given.push(item));
            exists|q: int| #![trigger after[q]]
                {
                    &&& 0 <= q < limit
                    &&& !stamped(normal, limit, given).1.contains(q)
                    &&& used.contains(q)
                    &&& before[q] is Some && before[q]->0.item_id == item.0
                    &&& after[q] is Some && after[q]->0.item_id == item.0
                    &&& item.1 >= 0 ==> after[q]->0.gem == item.1
                    &&& after[q]->0.sort_id == item.2
                }
        }),
{
    assert(given.push(item).drop_last() =~= given);
    stamping_only_renumbers(normal, limit, given);
    let (before, used) = stamped(normal, limit, given);
    assert(before[p] == normal[p]);
    taking_is_found(before, used, limit, item, 0, p);
    let q = first_taking(before, used, limit, item, 0);
    taking_place(before, used, limit, item, 0);
    let after = stamped(normal, limit, given.push(item)).0;
    assert(after[q]->0.sort_id == item.2);
}

proof fn taking_is_found(
    normal: Seq<Option<BagEntry>>,
    used: Set<int>,
    limit: int,
    item: (u32, i64, u32),
    from: int,
    p: int,
)
    requires
        0 <= from <= p < limit <= normal.len(),
        !used.contains(p),
        takes(normal[p], item),
    ensures
        first_taking(normal, used, limit, item, from) <= p,
    decreases p - from,
{
    if from < p && !(!used.contains(from) && takes(normal[from], item)) {
        taking_is_found(normal, used, limit, item, from + 1, p);
    }
}

/// The ash of war on an instance is the item of the instance that it names in its first slot; there
/// is none where it names none, or one that is not there.
pub proof fn ashes_are_found_by_handle(instances: Map<u32, Gaitem>, handle: u32, gem: u32)
    ensures
        instances.contains_key(handle) && instances[handle].gem_handle == Some(gem) && gem != 0
            && instances.contains_key(gem) && instances[gem].item_id is Some ==> gem_on(
            Some(instances),
            handle,
        ) == instances[gem].item_id->0,
        !instances.contains_key(handle) ==> gem_on(Some(instances), handle) == -1,
        instances.contains_key(handle) && instances[handle].gem_handle is None ==> gem_on(
            Some(instances),
            handle,
        ) == -1,
        instances.contains_key(handle) && instances[handle].gem_handle == Some(0u32) ==> gem_on(
            Some(instances),
            handle,
        ) == -1,
        gem_on(None, handle) == -1,
{
}

/// Every saved item counts once for each copy, at least once, among the weapons, the armor or the
/// talismans, by the kind that its id names; ammunition and all else count nowhere.
pub proof fn saved_items_count_by_kind(table: Option<Map<u32, WeaponRow>>, bag: Seq<BagItem>, item: BagItem)
    ensures
        ({
            let before = bag_tallies(table, bag);
            let after = bag_tallies(table, bag.push(item));
            let more = if item.qty == 0 {
                1
            } else {
                item.qty as int
            };
            &&& after.weapons == before.weapons + (if item.id < 0x1000_0000 && !is_ammo_id(
                table,
                item.id,
            ) {
                more
            } else {
                0
            })
            &&& after.armor == before.armor + (if 0x1000_0000 <= item.id < 0x2000_0000 {
                more
            } else {
                0
            })
            &&& after.talismans == before.talismans + (if 0x2000_0000 <= item.id < 0x3000_0000 {
                more
            } else {
                0
            })
        }),
{
    assert(bag.push(item).drop_last() =~= bag);
}

/// Every filled place of the bag with something that builds hold counts: a weapon as one piece,
/// armor and talismans with all their copies.
pub proof fn places_count_by_kind(
    table: Option<Map<u32, WeaponRow>>,
    places: Seq<Option<BagEntry>>,
    entry: BagEntry,
)
    ensures
        ({
            let before = place_tallies(table, places);
            let after = place_tallies(table, places.push(Some(entry)));
            let id = entry.item_id;
            let more = if entry.quantity == 0 {
                1
            } else {
                entry.quantity as int
            };
            &&& place_tallies(table, places.push(None)) == before
            &&& !is_managed_id(table, id) ==> after == before
            &&& is_managed_id(table, id) ==> {
                &&& after.weapons == before.weapons + (if id < 0x1000_0000 {
                    1int
                } else {
                    0int
                })
                &&& after.armor == before.armor + (if 0x1000_0000 <= id < 0x2000_0000 {
                    more
                } else {
                    0
                })
                &&& after.talismans == before.talismans + (if 0x2000_0000 <= id < 0x3000_0000 {
                    more
                } else {
                    0
                })
            }
        }),
{
    assert(places.push(Some(entry)).drop_last() =~= places);
    assert(places.push(None).drop_last() =~= places);
}

/// Order numbers are passed on to the places in use, and to no place beyond them.
pub proof fn only_places_in_use_are_numbered(bag: Bag, given: Seq<(u32, i64, u32)>, i: int)
    requires
        0 <= i < bag.normal@.len(),
        bag.normal_len <= i,
    ensures
        stamped(bag.normal@, stamp_limit(bag), given).0.len() == bag.normal@.len(),
        stamped(bag.normal@, stamp_limit(bag), given).0[i] == bag.normal@[i],
        stamp_limit(bag) == bag.normal_len,
    decreases given.len(),
{
    if given.len() > 0 {
        only_places_in_use_are_numbered(bag, given.drop_last(), i);
        let limit = stamp_limit(bag);
        let (places, used) = stamped(bag.normal@, limit, given.drop_last());
        taking_place(places, used, limit, given.last(), 0);
    }
}

/// The list of the bag says of every item that builds hold that it is kept in step, and of no
/// other; ammunition is told apart among the rest.
pub proof fn treatments_tell_items_apart(table: Option<Map<u32, WeaponRow>>, id: u32)
    ensures
        is_managed_id(table, id) <==> treatment(table, id) == "同步"@,
        is_ammo_id(table, id) <==> treatment(table, id) == "弹药-跳过"@,
{
    reveal_strlit("同步");
    reveal_strlit("弹药-跳过");
    reveal_strlit("跳过");
    assert("同步"@.len() == 2 && "弹药-跳过"@.len() == 5 && "跳过"@.len() == 2);
    assert("同步"@[0] != "跳过"@[0]);
}

/// Of the saved items all are given that have a kind, but for the fist and ammunition: armor,
/// talismans, goods and ashes of war in any case.
pub proof fn which_items_are_given(table: Option<Map<u32, WeaponRow>>, item: BagItem)
    ensures
        0x1000_0000 <= item.id < 0x3000_0000 ==> is_given(table, item),
        0x4000_0000 <= item.id < 0x5000_0000 ==> is_given(table, item),
        0x8000_0000 <= item.id < 0x9000_0000 ==> is_given(table, item),
        item.id < 0x1000_0000 && item.id != 110_000 ==> (is_given(table, item) <==> !is_ammo_id(
            table,
            item.id,
        )),
        item.id == 110_000 ==> !is_given(table, item),
        item.id < 0x1000_0000 && is_managed_id(table, item.id) && item.id != 110_000 ==> is_given(
            table,
            item,
        ),
{
}

/// The key items are counted with the normal places.
pub proof fn all_places_are_counted(bag: Bag, i: int)
    ensures
        all_places(bag).len() == bag.keys@.len() + bag.normal@.len(),
        0 <= i < bag.keys@.len() ==> all_places(bag)[i] == Some(bag.keys@[i]),
        0 <= i < bag.normal@.len() ==> all_places(bag)[bag.keys@.len() + i] == bag.normal@[i],
{
}

} // verus!
