//! The spell wheel: fourteen places, each with the row of a spell or empty.

use std::collections::{HashMap, HashSet};

use vstd::prelude::*;

use crate::item::{Bag, WeaponRow, WeaponTable};
use crate::snap::{exact_item, BagItem};
use crate::text::{decimal, push_decimal};
use crate::tga::{resolve_one, resolved};

verus! {

broadcast use vstd::std_specs::hash::group_hash_axioms;

/// How many places the wheel has.
pub const MAGIC_SLOTS: usize = 14;

/// What a place holds, as it is saved: -1 for an empty one.
pub open spec fn saved_spell(id: i32) -> i32 {
    if id <= 0 {
        -1i32
    } else {
        id
    }
}

/// The wheel as it is saved.
pub open spec fn captured_wheel(wheel: Seq<i32>) -> Seq<i32> {
    wheel.map_values(|id: i32| saved_spell(id))
}

/// Saves the wheel: the row of each place, -1 for an empty one.
pub fn capture(wheel: &Vec<i32>) -> (slots: Vec<i32>)
    ensures
        slots@ == captured_wheel(wheel@),
{
    let mut slots: Vec<i32> = Vec::new();
    let mut at: usize = 0;
    while at < wheel.len()
        invariant
            at <= wheel@.len(),
            slots@.len() == at,
            forall|i: int| 0 <= i < at ==> #[trigger] slots@[i] == saved_spell(wheel@[i]),
        decreases wheel@.len() - at,
    {
        let id: i32 = wheel[at];
        slots.push(
            if id <= 0 {
                -1
            } else {
                id
            },
        );
        at = at + 1;
    }
    assert(slots@ =~= captured_wheel(wheel@));
    slots
}

/// How many places hold a spell.
pub open spec fn spell_count(slots: Seq<i32>) -> nat
    decreases slots.len(),
{
    if slots.len() == 0 {
        0
    } else {
        spell_count(slots.drop_last()) + if slots.last() > 0 {
            1nat
        } else {
            0nat
        }
    }
}

/// Says how many spells the wheel holds.
pub fn describe(slots: &[i32]) -> (text: String)
    ensures
        text@ == if slots@.len() == 0 {
            "法术：无（请重新保存）"@
        } else {
            "法术 "@ + decimal(spell_count(slots@) as int) + "/"@ + decimal(MAGIC_SLOTS as int)
        },
{
    let count: usize = slots.len();
    if count == 0 {
        return "法术：无（请重新保存）".to_owned();
    }
    let mut spells: usize = 0;
    let mut at: usize = 0;
    while at < count
        invariant
            at <= count,
            count == slots@.len(),
            spells <= at,
            spells == spell_count(slots@.take(at as int)),
        decreases count - at,
    {
        assert(slots@.take(at + 1).drop_last() =~= slots@.take(at as int));
        if slots[at] > 0 {
            spells = spells + 1;
        }
        at = at + 1;
    }
    assert(slots@.take(count as int) =~= slots@);
    let mut text = "法术 ".to_owned();
    push_decimal(&mut text, spells as u64);
    text.append("/");
    push_decimal(&mut text, MAGIC_SLOTS as u64);
    text
}

/// The goods that unlock a spell.
pub open spec fn goods_of(spell: i32) -> u32 {
    ((0x4000_0000 + spell) % 0x1_0000_0000) as u32
}

/// The goods that unlock a spell: the row, counted from the first of the goods, round the end.
pub fn goods_id(spell: i32) -> (id: u32)
    ensures
        id == goods_of(spell),
{
    let row: u32 = if spell >= 0 {
        spell as u32
    } else {
        (0x1_0000_0000i64 + spell as i64) as u32
    };
    0x4000_0000u32.wrapping_add(row)
}

/// Whether the bag holds an item, among the key items or in a normal place.
pub open spec fn holds(bag: Bag, id: u32) -> bool {
    ||| exists|i: int| 0 <= i < bag.keys@.len() && (#[trigger] bag.keys@[i]).item_id == id
    ||| exists|i: int|
        0 <= i < bag.normal@.len() && (#[trigger] bag.normal@[i]) is Some
            && bag.normal@[i]->0.item_id == id
}

/// Whether the bag holds an item, among the key items or in a normal place.
pub fn owns_goods(bag: &Bag, id: u32) -> (held: bool)
    ensures
        held == holds(*bag, id),
{
    let mut at: usize = 0;
    while at < bag.keys.len()
        invariant
            at <= bag.keys@.len(),
            forall|i: int| 0 <= i < at ==> (#[trigger] bag.keys@[i]).item_id != id,
        decreases bag.keys@.len() - at,
    {
        if bag.keys[at].item_id == id {
            return true;
        }
        at = at + 1;
    }
    let mut place: usize = 0;
    while place < bag.normal.len()
        invariant
            place <= bag.normal@.len(),
            forall|i: int|
                0 <= i < place && (#[trigger] bag.normal@[i]) is Some
                    ==> bag.normal@[i]->0.item_id != id,
        decreases bag.normal@.len() - place,
    {
        match bag.normal[place] {
            Some(entry) => {
                if entry.item_id == id {
                    return true;
                }
            },
            None => {},
        }
        place = place + 1;
    }
    false
}

/// The spells of the wheel whose goods the bag lacks, each once, as items to give.
pub open spec fn missing(bag: Bag, slots: Seq<i32>) -> Seq<BagItem>
    decreases slots.len(),
{
    if slots.len() == 0 {
        seq![]
    } else {
        let rest = missing(bag, slots.drop_last());
        let id = slots.last();
        if id > 0 && !slots.drop_last().contains(id) && !holds(bag, goods_of(id)) {
            rest.push(exact_item(goods_of(id), 1, -1i64))
        } else {
            rest
        }
    }
}

/// The goods of the wheel's spells that the bag lacks, each once, as items to give.
pub fn missing_goods(bag: &Bag, slots: &[i32]) -> (items: Vec<BagItem>)
    ensures
        items@ == missing(*bag, slots@),
{
    let mut seen: HashSet<i32> = HashSet::new();
    let mut items: Vec<BagItem> = Vec::new();
    let count: usize = slots.len();
    let mut at: usize = 0;
    while at < count
        invariant
            at <= count,
            count == slots@.len(),
            forall|id: i32|
                #![trigger seen@.contains(id)]
                seen@.contains(id) == (id > 0 && slots@.take(at as int).contains(id)),
            items@ == missing(*bag, slots@.take(at as int)),
        decreases count - at,
    {
        let id: i32 = slots[at];
        let ghost before = slots@.take(at as int);
        let ghost known = seen@;
        assert(slots@.take(at + 1).drop_last() =~= before);
        if id > 0 && seen.insert(id) {
            let goods: u32 = goods_id(id);
            if !owns_goods(bag, goods) {
                items.push(BagItem::exact(goods, 1, -1));
            }
        }
        proof {
            assert(slots@.take(at + 1) =~= before.push(id));
            assert forall|x: i32| #![trigger seen@.contains(x)]
                seen@.contains(x) == (x > 0 && slots@.take(at + 1).contains(x)) by {
                assert(known.contains(x) == (x > 0 && before.contains(x)));
                if before.contains(x) {
                    let i = choose|i: int| 0 <= i < before.len() && before[i] == x;
                    assert(slots@.take(at + 1)[i] == x);
                }
                if x == id {
                    assert(slots@.take(at + 1)[at as int] == x);
                }
            }
        }
        at = at + 1;
    }
    assert(slots@.take(count as int) =~= slots@);
    items
}

/// What is given for some missing goods: an entry for each up to the first that cannot be
/// given, and whether that was all of them.
pub open spec fn gifts(table: Option<Map<u32, WeaponRow>>, level: u8, items: Seq<BagItem>) -> (
    Seq<(u32, u32, u32)>,
    bool,
)
    decreases items.len(),
{
    if items.len() == 0 {
        (seq![], true)
    } else {
        let (entries, all) = gifts(table, level, items.drop_last());
        if !all {
            (entries, false)
        } else {
            match resolved(table, level, items.last()) {
                Some(entry) => (entries.push(entry), true),
                None => (entries, false),
            }
        }
    }
}

/// What is given before the wheel is written: an entry for each of the missing goods, up to the
/// first whose id is no item; `false` where there was such a one, and the wheel stays as it is.
pub fn spell_gifts(table: &WeaponTable, level: u8, bag: &Bag, slots: &[i32]) -> (plan: (
    Vec<(u32, u32, u32)>,
    bool,
))
    ensures
        (plan.0@, plan.1) == gifts(table@, level, missing(*bag, slots@)),
{
    let items: Vec<BagItem> = missing_goods(bag, slots);
    let mut entries: Vec<(u32, u32, u32)> = Vec::new();
    let mut all = true;
    let mut at: usize = 0;
    assert(items@.take(0) =~= seq![]);
    while at < items.len()
        invariant
            at <= items@.len(),
            (entries@, all) == gifts(table@, level, items@.take(at as int)),
        decreases items@.len() - at,
    {
        assert(items@.take(at + 1).drop_last() =~= items@.take(at as int));
        if all {
            match resolve_one(table, level, &items[at]) {
                Some(entry) => {
                    entries.push(entry);
                },
                None => {
                    all = false;
                },
            }
        }
        at = at + 1;
    }
    assert(items@.take(items@.len() as int) =~= items@);
    (entries, all)
}

/// How often each spell can be cast, by row; `None` while the game has not loaded the table.
pub struct SpellTable {
    pub quantities: Option<HashMap<u32, i16>>,
}

impl View for SpellTable {
    type V = Option<Map<u32, i16>>;

    open spec fn view(&self) -> Option<Map<u32, i16>> {
        match self.quantities {
            Some(quantities) => Some(quantities@),
            None => None,
        }
    }
}

/// The charges of a spell: what the table says, at least one.
pub open spec fn charges(table: Option<Map<u32, i16>>, spell: i32) -> i32 {
    match table {
        Some(quantities) if quantities.contains_key(spell as u32) && quantities[spell as u32] > 1
            => quantities[spell as u32] as i32,
        _ => 1,
    }
}

/// The charges of a spell: what the table says, at least one.
pub fn charges_of(table: &SpellTable, spell: i32) -> (count: i32)
    ensures
        count == charges(table@, spell),
{
    match &table.quantities {
        Some(quantities) => match quantities.get(&(spell as u32)) {
            Some(quantity) => if *quantity > 1 {
                *quantity as i32
            } else {
                1
            },
            None => 1,
        },
        None => 1,
    }
}

/// One place of the wheel.
#[derive(Clone, Copy, Debug, PartialEq, Eq, Structural)]
pub struct WheelEntry {
    pub param_id: i32,
    pub charges: i32,
}

/// The wheel, as the game holds it.
pub struct Wheel {
    pub entries: Vec<WheelEntry>,
    pub selected_slot: i32,
    /// How many places are unlocked.
    pub unlocked: u8,
}

/// Place `i` of the wheel after some slots were written.
pub open spec fn written(table: Option<Map<u32, i16>>, slots: Seq<i32>, i: int) -> WheelEntry {
    if i < slots.len() && slots[i] > 0 {
        WheelEntry { param_id: slots[i], charges: charges(table, slots[i]) }
    } else {
        WheelEntry { param_id: -1i32, charges: 0 }
    }
}

/// How many places are needed for the spells of the first `n` slots.
pub open spec fn needed(slots: Seq<i32>, n: int) -> int
    decreases n,
{
    if n <= 0 {
        0
    } else if n <= slots.len() && slots[n - 1] > 0 {
        n
    } else {
        needed(slots, n - 1)
    }
}

/// How many of the first `n` slots hold a spell.
pub open spec fn filled(slots: Seq<i32>, n: int) -> int
    decreases n,
{
    if n <= 0 {
        0
    } else {
        filled(slots, n - 1) + if n <= slots.len() && slots[n - 1] > 0 {
            1int
        } else {
            0int
        }
    }
}

/// Writes the wheel: each place with its charges, at least the needed places unlocked, and a
/// selection that is on the wheel. Returns how many spells were written. No slots change nothing.
pub fn apply(wheel: &mut Wheel, table: &SpellTable, slots: &[i32]) -> (wrote: u32)
    requires
        old(wheel).entries@.len() == MAGIC_SLOTS,
    ensures
        slots@.len() == 0 ==> *final(wheel) == *old(wheel) && wrote == 0,
        slots@.len() > 0 ==> {
            &&& final(wheel).entries@ == Seq::new(
                MAGIC_SLOTS as nat,
                |i: int| written(table@, slots@, i),
            )
            &&& final(wheel).unlocked == if needed(slots@, MAGIC_SLOTS as int) > old(wheel).unlocked {
                needed(slots@, MAGIC_SLOTS as int)
            } else {
                old(wheel).unlocked as int
            }
            &&& final(wheel).selected_slot == if 0 <= old(wheel).selected_slot < MAGIC_SLOTS {
                old(wheel).selected_slot
            } else {
                0
            }
            &&& wrote == filled(slots@, MAGIC_SLOTS as int)
            &&& final(wheel).entries@.len() == 14
        },
{
    let count: usize = slots.len();
    if count == 0 {
        return 0;
    }
    let mut need: u8 = 0;
    let mut wrote: u32 = 0;
    let mut at: usize = 0;
    while at < MAGIC_SLOTS
        invariant
            at <= MAGIC_SLOTS,
            count == slots@.len(),
            wheel.entries@.len() == MAGIC_SLOTS,
            wheel.unlocked == old(wheel).unlocked,
            wheel.selected_slot == old(wheel).selected_slot,
            need == needed(slots@, at as int),
            wrote == filled(slots@, at as int),
            wrote <= at,
            forall|i: int|
                0 <= i < at ==> #[trigger] wheel.entries@[i] == written(table@, slots@, i),
        decreases MAGIC_SLOTS - at,
    {
        let id: i32 = if at < count {
            slots[at]
        } else {
            -1
        };
        if id > 0 {
            need = at as u8 + 1;
            wrote = wrote + 1;
            wheel.entries.set(at, WheelEntry { param_id: id, charges: charges_of(table, id) });
        } else {
            wheel.entries.set(at, WheelEntry { param_id: -1, charges: 0 });
        }
        at = at + 1;
    }
    if wheel.unlocked < need {
        wheel.unlocked = need;
    }
    if wheel.selected_slot < 0 || wheel.selected_slot as usize >= MAGIC_SLOTS {
        wheel.selected_slot = 0;
    }
    assert(wheel.entries@ =~= Seq::new(MAGIC_SLOTS as nat, |i: int| written(table@, slots@, i)));
    wrote
}

/// Saving the wheel after a saved one was written gives the same spells back.
pub proof fn written_wheel_is_saved_again(table: Option<Map<u32, i16>>, slots: Seq<i32>)
    requires
        slots.len() == MAGIC_SLOTS,
    ensures
        captured_wheel(
            Seq::new(MAGIC_SLOTS as nat, |i: int| written(table, slots, i)).map_values(
                |entry: WheelEntry| entry.param_id,
            ),
        ) == captured_wheel(slots),
{
    assert(captured_wheel(
        Seq::new(MAGIC_SLOTS as nat, |i: int| written(table, slots, i)).map_values(
            |entry: WheelEntry| entry.param_id,
        ),
    ) =~= captured_wheel(slots));
}

/// Whether some goods unlock a spell of the wheel.
pub open spec fn is_wanted(slots: Seq<i32>, goods: u32) -> bool {
    exists|k: int| 0 <= k < slots.len() && #[trigger] slots[k] > 0 && goods == goods_of(slots[k])
}

/// Each of the missing goods unlocks a spell of the wheel; of them none is held, and none is given twice.
pub proof fn missing_goods_are_missing(bag: Bag, slots: Seq<i32>)
    ensures
        forall|i: int|
            0 <= i < missing(bag, slots).len() ==> !holds(
                bag,
                (#[trigger] missing(bag, slots)[i]).id,
            ),
        forall|i: int, j: int|
            0 <= i < j < missing(bag, slots).len() ==> (#[trigger] missing(bag, slots)[i]).id != (
            #[trigger] missing(bag, slots)[j]).id,
        forall|i: int|
            0 <= i < missing(bag, slots).len() ==> is_wanted(
                slots,
                (#[trigger] missing(bag, slots)[i]).id,
            ),
    decreases slots.len(),
{
    if slots.len() > 0 {
        let rest = slots.drop_last();
        missing_goods_are_missing(bag, rest);
        let before = missing(bag, rest);
        let now = missing(bag, slots);
        assert forall|i: int| 0 <= i < now.len() implies is_wanted(slots, (#[trigger] now[i]).id) by {
            if i < before.len() {
                assert(now[i] == before[i]);
                let k = choose|k: int|
                    0 <= k < rest.len() && #[trigger] rest[k] > 0 && before[i].id == goods_of(
                        rest[k],
                    );
                assert(slots[k] == rest[k]);
            } else {
                assert(slots[slots.len() - 1] > 0);
            }
        }
        assert forall|i: int, j: int| 0 <= i < j < now.len() implies (#[trigger] now[i]).id != (
        #[trigger] now[j]).id by {
            assert(now[i] == before[i]);
            if j < before.len() {
                assert(now[j] == before[j]);
            } else {
                let k = choose|k: int|
                    0 <= k < rest.len() && #[trigger] rest[k] > 0 && before[i].id == goods_of(
                        rest[k],
                    );
                assert(rest.contains(rest[k]));
            }
        }
    }
}

/// Nothing that is needed is left out: for every spell of the wheel whose goods are neither among
/// the key items nor in a normal place, one piece of these goods is to be given.
pub proof fn every_missing_spell_is_given(bag: Bag, slots: Seq<i32>, k: int)
    requires
        0 <= k < slots.len(),
        slots[k] > 0,
        forall|i: int|
            0 <= i < bag.keys@.len() ==> (#[trigger] bag.keys@[i]).item_id != 0x4000_0000
                + slots[k],
        forall|i: int|
            0 <= i < bag.normal@.len() && (#[trigger] bag.normal@[i]) is Some
                ==> bag.normal@[i]->0.item_id != 0x4000_0000 + slots[k],
    ensures
        exists|j: int|
            0 <= j < missing(bag, slots).len() && (#[trigger] missing(bag, slots)[j]).id
                == 0x4000_0000 + slots[k] && missing(bag, slots)[j].qty == 1 && missing(
                bag,
                slots,
            )[j].gem == -1,
    decreases slots.len(),
{
    let rest = slots.drop_last();
    let before = missing(bag, rest);
    let now = missing(bag, slots);
    if rest.contains(slots[k]) {
        let m = choose|m: int| 0 <= m < rest.len() && rest[m] == slots[k];
        every_missing_spell_is_given(bag, rest, m);
        let j = choose|j: int|
            0 <= j < before.len() && (#[trigger] before[j]).id == 0x4000_0000 + slots[k]
                && before[j].qty == 1 && before[j].gem == -1;
        assert(now[j] == before[j]);
    } else {
        if k < rest.len() {
            assert(rest[k] == slots[k]);
        }
        assert(now[before.len() as int].id == 0x4000_0000 + slots[k]);
    }
}

/// Nothing is given that is not needed: each item to give is one piece of the goods of a spell of
/// the wheel, and the bag holds none of them.
pub proof fn only_missing_spells_are_given(bag: Bag, slots: Seq<i32>, j: int)
    requires
        0 <= j < missing(bag, slots).len(),
    ensures
        ({
            let item = missing(bag, slots)[j];
            &&& item.qty == 1 && item.gem == -1
            &&& exists|k: int|
                0 <= k < slots.len() && #[trigger] slots[k] > 0 && item.id == 0x4000_0000 + slots[k]
            &&& forall|i: int|
                0 <= i < bag.keys@.len() ==> (#[trigger] bag.keys@[i]).item_id != item.id
            &&& forall|i: int|
                0 <= i < bag.normal@.len() && (#[trigger] bag.normal@[i]) is Some
                    ==> bag.normal@[i]->0.item_id != item.id
        }),
    decreases slots.len(),
{
    let rest = slots.drop_last();
    let before = missing(bag, rest);
    if j < before.len() {
        only_missing_spells_are_given(bag, rest, j);
        assert(missing(bag, slots)[j] == before[j]);
        let k = choose|k: int|
            0 <= k < rest.len() && #[trigger] rest[k] > 0 && before[j].id == 0x4000_0000 + rest[k];
        assert(slots[k] == rest[k]);
    } else {
        assert(slots[slots.len() - 1] > 0);
    }
}

/// The written wheel holds the saved spells in their very places, and nothing in the others. A
/// spell can be cast as often as its table says, and at least once.
pub proof fn spells_are_written_in_their_places(
    table: Option<Map<u32, i16>>,
    slots: Seq<i32>,
    i: int,
)
    requires
        0 <= i < 14,
    ensures
        ({
            let entry = written(table, slots, i);
            if i < slots.len() && slots[i] > 0 {
                &&& entry.param_id == slots[i]
                &&& entry.charges >= 1
                &&& table is Some && table->0.contains_key(slots[i] as u32) && table->0[slots[i] as u32]
                    >= 1 ==> entry.charges == table->0[slots[i] as u32]
                &&& table is None || !table->0.contains_key(slots[i] as u32) ==> entry.charges == 1
            } else {
                entry.param_id == -1 && entry.charges == 0
            }
        }),
{
}

/// Every written spell is in an unlocked place, and no more places are unlocked than the last one
/// needs.
pub proof fn written_spells_are_unlocked(slots: Seq<i32>, n: int)
    requires
        0 <= n,
    ensures
        0 <= needed(slots, n) <= n,
        forall|i: int|
            0 <= i < slots.len() && i < n && #[trigger] slots[i] > 0 ==> i < needed(slots, n),
        needed(slots, n) > 0 ==> needed(slots, n) <= slots.len() && slots[needed(slots, n) - 1] > 0,
    decreases n,
{
    if n > 0 {
        written_spells_are_unlocked(slots, n - 1);
    }
}

/// The wheel is saved place by place: a spell under its row, an empty place as -1.
pub proof fn wheel_is_saved_in_place(wheel: Seq<i32>, i: int)
    requires
        0 <= i < wheel.len(),
    ensures
        captured_wheel(wheel).len() == wheel.len(),
        wheel[i] > 0 ==> captured_wheel(wheel)[i] == wheel[i],
        wheel[i] <= 0 ==> captured_wheel(wheel)[i] == -1,
{
}

/// The missing goods are given in their order, each as an entry of its own, up to the first that
/// cannot be given; that was all of them just where each can.
pub proof fn goods_are_given_in_order(
    table: Option<Map<u32, WeaponRow>>,
    level: u8,
    items: Seq<BagItem>,
)
    ensures
        ({
            let (entries, all) = gifts(table, level, items);
            &&& entries.len() <= items.len()
            &&& forall|i: int|
                0 <= i < entries.len() ==> resolved(table, level, #[trigger] items[i]) == Some(
                    entries[i],
                )
            &&& all ==> entries.len() == items.len()
            &&& !all ==> entries.len() < items.len() && resolved(
                table,
                level,
                items[entries.len() as int],
            ) is None
        }),
    decreases items.len(),
{
    if items.len() > 0 {
        let rest = items.drop_last();
        goods_are_given_in_order(table, level, rest);
        let (entries, all) = gifts(table, level, items);
        let (before, so_far) = gifts(table, level, rest);
        assert forall|i: int| 0 <= i < entries.len() implies resolved(
            table,
            level,
            #[trigger] items[i],
        ) == Some(entries[i]) by {
            if i < before.len() {
                assert(rest[i] == items[i]);
            }
        }
        if !so_far {
            assert(rest[before.len() as int] == items[before.len() as int]);
        }
    }
}

/// Spells are counted one by one, empty places do not count, and as many are written as the saved
/// wheel has in the places that there are.
pub proof fn spells_are_counted(slots: Seq<i32>, id: i32, n: int)
    ensures
        spell_count(seq![]) == 0,
        id > 0 ==> spell_count(slots.push(id)) == spell_count(slots) + 1,
        id <= 0 ==> spell_count(slots.push(id)) == spell_count(slots),
        0 <= n <= slots.len() ==> filled(slots, n) == spell_count(slots.take(n)),
        n >= slots.len() ==> filled(slots, n) == spell_count(slots),
    decreases n,
{
    assert(slots.push(id).drop_last() =~= slots);
    if n > 0 {
        spells_are_counted(slots, id, n - 1);
        if n <= slots.len() {
            assert(slots.take(n).drop_last() =~= slots.take(n - 1));
            assert(slots.take(n).last() == slots[n - 1]);
        }
    }
    if n == slots.len() {
        assert(slots.take(n) =~= slots);
    }
    if n == 0 {
        assert(slots.take(0) =~= seq![]);
    }
}

} // verus!
