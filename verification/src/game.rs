//! Giving and removing items, and keeping the game quiet about it.

use vstd::prelude::*;

use crate::equip::copies;
use crate::item::{Bag, BagEntry, WeaponRow, WeaponTable};
use crate::offsets::{
    is_callable, item_give_address, may_call, read_bytes, relative, remove_item_address,
    resolve_item_give, resolve_remove_item, to_rva, Image,
};
use crate::snap::{is_managed, is_managed_id};
use crate::text::{
    decimal, digit_value, hex, numeral, padded_hex, push_decimal, push_numeral, zero_padded,
};
use crate::tga::BATCH_LIMIT;

verus! {

/// Whether items can be given.
pub fn item_give_ready(image: Option<&Image>) -> (ready: bool)
    requires
        image matches Some(image) ==> image.wf(),
    ensures
        ready == match image {
            Some(image) => may_call(*image, item_give_address(*image)),
            None => false,
        },
{
    match image {
        Some(image) => is_callable(image, resolve_item_give(image)),
        None => false,
    }
}

/// Whether items can be removed.
pub fn remove_item_ready(image: Option<&Image>) -> (ready: bool)
    requires
        image matches Some(image) ==> image.wf(),
    ensures
        ready == match image {
            Some(image) => may_call(*image, remove_item_address(*image)),
            None => false,
        },
{
    match image {
        Some(image) => is_callable(image, resolve_remove_item(image)),
        None => false,
    }
}

/// Bytes as pairs of digits with spaces between them.
pub open spec fn bytes_text(bytes: Seq<u8>) -> Seq<char>
    decreases bytes.len(),
{
    if bytes.len() == 0 {
        seq![]
    } else {
        let last = zero_padded(numeral(bytes.last() as nat, 16, false), 2);
        if bytes.len() == 1 {
            last
        } else {
            bytes_text(bytes.drop_last()) + " "@ + last
        }
    }
}

/// Bytes as pairs of digits with spaces between them.
pub fn spaced_bytes(bytes: &Vec<u8>) -> (text: String)
    ensures
        text@ == bytes_text(bytes@),
{
    let mut text = String::new();
    assert(text@ =~= bytes_text(bytes@.take(0)));
    let mut at: usize = 0;
    while at < bytes.len()
        invariant
            at <= bytes@.len(),
            text@ == bytes_text(bytes@.take(at as int)),
        decreases bytes@.len() - at,
    {
        assert(bytes@.take(at + 1).drop_last() =~= bytes@.take(at as int));
        let pair = padded_hex(bytes[at] as u64, false, 2);
        if at == 0 {
            text = pair;
        } else {
            text.append(" ");
            text.append(pair.as_str());
        }
        at = at + 1;
    }
    assert(bytes@.take(bytes@.len() as int) =~= bytes@);
    text
}

/// What the report on removing says of a found function.
pub open spec fn remove_report_text(image: Image, address: usize) -> Seq<char> {
    let prologue = if image.base <= address && address + 16 <= image.base + image.bytes@.len() {
        image.bytes@.subrange(address - image.base, address - image.base + 16)
    } else {
        seq![]
    };
    "RemoveItem：RVA 0x"@ + hex(relative(Some(image.base), address) as nat) + "\n序言 "@
        + bytes_text(prologue) + "\n序言校验 "@ + if may_call(image, Some(address)) {
        "通过"@
    } else {
        "未通过"@
    }
}

/// Says what was found of the function that removes items, without calling it.
pub fn remove_item_report(image: Option<&Image>) -> (text: String)
    requires
        image matches Some(image) ==> image.wf(),
    ensures
        text@ == match image {
            Some(image) => match remove_item_address(*image) {
                Some(address) => remove_report_text(*image, address),
                None => "RemoveItem：解析失败（AOB 非唯一命中或序言不符），已拒绝调用"@,
            },
            None => "RemoveItem：解析失败（AOB 非唯一命中或序言不符），已拒绝调用"@,
        },
{
    let image = match image {
        Some(image) => image,
        None => {
            return "RemoveItem：解析失败（AOB 非唯一命中或序言不符），已拒绝调用".to_owned();
        },
    };
    let address: usize = match resolve_remove_item(image) {
        Some(address) => address,
        None => {
            return "RemoveItem：解析失败（AOB 非唯一命中或序言不符），已拒绝调用".to_owned();
        },
    };
    let prologue: Vec<u8> = read_bytes(image, address, 16);
    let verdict = if is_callable(image, Some(address)) {
        "通过"
    } else {
        "未通过"
    };
    let mut text = "RemoveItem：RVA 0x".to_owned();
    push_numeral(&mut text, to_rva(Some(image.base), address) as u128, 16, false);
    text.append("\n序言 ");
    text.append(spaced_bytes(&prologue).as_str());
    text.append("\n序言校验 ");
    text.append(verdict);
    text
}

/// The instruction that returns at once.
pub const RETURN: u8 = 0xC3;

/// A byte that was written over.
#[derive(Clone, Copy, Debug, PartialEq, Eq, Structural)]
pub struct PatchedFn {
    pub address: usize,
    /// What was there before.
    pub orig: u8,
}

/// Keeping the game from telling about items: how many layers ask for it, and the bytes that
/// were written over.
pub struct Suppression {
    pub depth: u32,
    pub patches: Vec<PatchedFn>,
}

/// The byte to write over the first one of a function, so that it returns at once; `None` where
/// it does so already.
pub fn patch_for(current: u8) -> (byte: Option<u8>)
    ensures
        byte == if current == RETURN {
            None::<u8>
        } else {
            Some(RETURN)
        },
{
    if current == RETURN {
        None
    } else {
        Some(RETURN)
    }
}

fn take_back(patches: &mut Vec<PatchedFn>) -> (restore: Vec<PatchedFn>)
    ensures
        restore@ == old(patches)@.reverse(),
        final(patches)@.len() == 0,
{
    let ghost all = patches@;
    let mut restore: Vec<PatchedFn> = Vec::new();
    while patches.len() > 0
        invariant
            restore@.len() + patches@.len() == all.len(),
            patches@ == all.take(patches@.len() as int),
            forall|i: int|
                0 <= i < restore@.len() ==> #[trigger] restore@[i] == all[all.len() - 1 - i],
        decreases patches@.len(),
    {
        match patches.pop() {
            Some(patch) => {
                restore.push(patch);
            },
            None => {},
        }
        assert(patches@ =~= all.take(patches@.len() as int));
    }
    assert(restore@ =~= all.reverse());
    restore
}

impl Suppression {
    /// Nothing is kept quiet.
    pub fn new() -> (state: Self)
        ensures
            state.depth == 0,
            state.patches@.len() == 0,
    {
        Suppression { depth: 0, patches: Vec::new() }
    }

    /// Notes that a byte was written over.
    pub fn note_patch(&mut self, address: usize, orig: u8)
        ensures
            final(self).depth == old(self).depth,
            final(self).patches@ == old(self).patches@.push(PatchedFn { address, orig }),
    {
        self.patches.push(PatchedFn { address, orig });
    }
}

/// One layer more. Tells whether the functions are to be written over now: with the first
/// layer, unless they are.
pub fn suppress_push(state: &mut Suppression) -> (patch: bool)
    ensures
        final(state).depth == if old(state).depth == u32::MAX {
            0
        } else {
            old(state).depth + 1
        },
        final(state).patches@ == old(state).patches@,
        patch == (old(state).depth == 0 && old(state).patches@.len() == 0),
{
    let first = state.depth == 0;
    state.depth = state.depth.wrapping_add(1);
    first && state.patches.len() == 0
}

/// One layer less, down to none. Gives back the bytes to restore, the last one first: all
/// of them with the last layer, none before.
pub fn suppress_pop(state: &mut Suppression) -> (restore: Vec<PatchedFn>)
    ensures
        final(state).depth == if old(state).depth == 0 {
            0
        } else {
            old(state).depth - 1
        },
        old(state).depth == 1 ==> restore@ == old(state).patches@.reverse() && final(state).patches@.len() == 0,
        old(state).depth != 1 ==> restore@.len() == 0 && final(state).patches@ == old(state).patches@,
{
    if state.depth == 0 {
        return Vec::new();
    }
    state.depth = state.depth - 1;
    if state.depth == 0 {
        take_back(&mut state.patches)
    } else {
        Vec::new()
    }
}

/// Asks for at least one layer, or ends them all. Tells whether the functions are to be
/// written over now, and gives back the bytes to restore, the last one first.
pub fn set_item_popup_suppressed(state: &mut Suppression, suppressed: bool) -> (work: (bool, Vec<PatchedFn>))
    ensures
        suppressed ==> {
            &&& final(state).depth == if old(state).depth == 0 {
                1
            } else {
                old(state).depth
            }
            &&& final(state).patches@ == old(state).patches@
            &&& work.0 == (old(state).depth == 0 && old(state).patches@.len() == 0)
            &&& work.1@.len() == 0
        },
        !suppressed ==> {
            &&& final(state).depth == 0
            &&& final(state).patches@.len() == 0
            &&& !work.0
            &&& work.1@ == old(state).patches@.reverse()
        },
{
    if suppressed {
        let patch = if state.depth == 0 {
            suppress_push(state)
        } else {
            false
        };
        (patch, Vec::new())
    } else {
        state.depth = 0;
        (false, take_back(&mut state.patches))
    }
}

/// Memory and the noted patches after the functions at some addresses were written over, each
/// unless it returns at once already.
pub open spec fn written_over(memory: Map<usize, u8>, targets: Seq<usize>) -> (
    Map<usize, u8>,
    Seq<PatchedFn>,
)
    decreases targets.len(),
{
    if targets.len() == 0 {
        (memory, seq![])
    } else {
        let (now, patches) = written_over(memory, targets.drop_last());
        let address = targets.last();
        if now[address] == RETURN {
            (now, patches)
        } else {
            (now.insert(address, RETURN), patches.push(PatchedFn { address, orig: now[address] }))
        }
    }
}

/// Memory after some bytes were restored, one after another.
pub open spec fn restored(memory: Map<usize, u8>, restore: Seq<PatchedFn>) -> Map<usize, u8>
    decreases restore.len(),
{
    if restore.len() == 0 {
        memory
    } else {
        restored(memory.insert(restore[0].address, restore[0].orig), restore.drop_first())
    }
}

/// Restoring in the reverse order leaves memory as it was before the functions were written
/// over.
pub proof fn restoring_undoes_the_patches(memory: Map<usize, u8>, targets: Seq<usize>)
    requires
        forall|i: int| 0 <= i < targets.len() ==> memory.contains_key(#[trigger] targets[i]),
    ensures
        restored(
            written_over(memory, targets).0,
            written_over(memory, targets).1.reverse(),
        ) == memory,
    decreases targets.len(),
{
    let (after, patches) = written_over(memory, targets);
    if targets.len() > 0 {
        let rest = targets.drop_last();
        assert forall|i: int| 0 <= i < rest.len() implies memory.contains_key(
            #[trigger] rest[i],
        ) by {
            assert(rest[i] == targets[i]);
        }
        restoring_undoes_the_patches(memory, rest);
        let (now, before) = written_over(memory, rest);
        patching_keeps_domain(memory, rest);
        let address = targets.last();
        if now[address] != RETURN {
            let restore = patches.reverse();
            assert(restore[0] == (PatchedFn { address, orig: now[address] }));
            assert(restore.drop_first() =~= before.reverse());
            assert(memory.contains_key(targets[targets.len() - 1]));
            assert(after.insert(address, now[address]) =~= now);
        }
    } else {
        assert(patches.reverse() =~= seq![]);
    }
}

proof fn patching_keeps_domain(memory: Map<usize, u8>, targets: Seq<usize>)
    requires
        forall|i: int| 0 <= i < targets.len() ==> memory.contains_key(#[trigger] targets[i]),
    ensures
        written_over(memory, targets).0.dom() == memory.dom(),
    decreases targets.len(),
{
    if targets.len() > 0 {
        let rest = targets.drop_last();
        assert forall|i: int| 0 <= i < rest.len() implies memory.contains_key(
            #[trigger] rest[i],
        ) by {
            assert(rest[i] == targets[i]);
        }
        patching_keeps_domain(memory, rest);
        assert(memory.contains_key(targets[targets.len() - 1]));
        assert(written_over(memory, targets).0.dom() =~= memory.dom());
    }
}

/// The table of items to give: their count, then four words for each.
pub open spec fn packet_words(entries: Seq<(u32, u32, u32)>) -> Seq<u32> {
    Seq::new(
        1 + 4 * entries.len(),
        |i: int|
            if i == 0 {
                entries.len() as u32
            } else if (i - 1) % 4 == 0 {
                entries[(i - 1) / 4].0
            } else if (i - 1) % 4 == 1 {
                copies(entries[(i - 1) / 4].1)
            } else if (i - 1) % 4 == 2 {
                0xFFFF_FFFF
            } else {
                entries[(i - 1) / 4].2
            },
    )
}

/// What is said of a packet that is empty or too long.
pub open spec fn packet_refusal(count: int) -> Seq<char> {
    "TGA 批次长度必须 1..=10，收到 "@ + decimal(count)
}

/// The table of items to give, for one to ten entries of id, quantity and ash of war.
pub fn give_tga_packet(entries: &[(u32, u32, u32)]) -> (words: Result<Vec<u32>, String>)
    ensures
        match words {
            Ok(words) => 1 <= entries@.len() <= BATCH_LIMIT && words@ == packet_words(entries@),
            Err(text) => !(1 <= entries@.len() <= BATCH_LIMIT) && text@ == packet_refusal(
                entries@.len() as int,
            ),
        },
        words is Ok <==> 1 <= entries@.len() <= 10,
{
    let count: usize = entries.len();
    if count == 0 || count > BATCH_LIMIT {
        let mut text = "TGA 批次长度必须 1..=10，收到 ".to_owned();
        push_decimal(&mut text, count as u64);
        return Err(text);
    }
    let mut words: Vec<u32> = Vec::new();
    words.push(count as u32);
    let mut at: usize = 0;
    while at < count
        invariant
            at <= count,
            count == entries@.len(),
            count <= BATCH_LIMIT,
            words@.len() == 1 + 4 * at,
            forall|i: int|
                0 <= i < words@.len() ==> #[trigger] words@[i] == packet_words(entries@)[i],
        decreases count - at,
    {
        let (id, quantity, gem) = entries[at];
        let ghost so_far = words@;
        words.push(id);
        words.push(
            if quantity < 1 {
                1
            } else {
                quantity
            },
        );
        words.push(0xFFFF_FFFF);
        words.push(gem);
        proof {
            let base = 1 + 4 * at;
            assert((base - 1) / 4 == at && (base + 1 - 1) / 4 == at && (base + 2 - 1) / 4 == at && (
            base + 3 - 1) / 4 == at);
            assert((base - 1) % 4 == 0 && (base + 1 - 1) % 4 == 1 && (base + 2 - 1) % 4 == 2 && (
            base + 3 - 1) % 4 == 3);
        }
        at = at + 1;
    }
    assert(words@ =~= packet_words(entries@));
    Ok(words)
}

/// The table of a single item to give, one piece at least.
pub fn give_tga_one(id: u32, quantity: u32, gem: u32) -> (words: Vec<u32>)
    ensures
        words@ == packet_words(seq![(id, quantity, gem)]),
{
    let mut words: Vec<u32> = Vec::new();
    words.push(1);
    words.push(id);
    words.push(
        if quantity < 1 {
            1
        } else {
            quantity
        },
    );
    words.push(0xFFFF_FFFF);
    words.push(gem);
    assert(words@ =~= packet_words(seq![(id, quantity, gem)]));
    words
}

/// The absolute index of a normal place: the key items come before.
pub fn abs_index(bag: &Bag, place: usize) -> (index: u32)
    requires
        bag.wf(),
        place < bag.normal@.len(),
    ensures
        index == bag.absolute(place as int),
{
    bag.key_capacity + place as u32
}

/// Whether a place holds an item that builds hold.
pub open spec fn holds_managed(table: Option<Map<u32, WeaponRow>>, entry: Option<BagEntry>) -> bool {
    entry is Some && is_managed_id(table, entry->0.item_id)
}

/// How many of some places hold an item that builds hold.
pub open spec fn managed_count(table: Option<Map<u32, WeaponRow>>, places: Seq<Option<BagEntry>>) -> nat
    decreases places.len(),
{
    if places.len() == 0 {
        0
    } else {
        managed_count(table, places.drop_last()) + if holds_managed(table, places.last()) {
            1nat
        } else {
            0nat
        }
    }
}

/// The first place from `from` on with an item that builds hold.
pub open spec fn managed_from(
    table: Option<Map<u32, WeaponRow>>,
    places: Seq<Option<BagEntry>>,
    from: int,
) -> int
    decreases places.len() - from,
{
    if from < 0 || from >= places.len() || holds_managed(table, places[from]) {
        from
    } else {
        managed_from(table, places, from + 1)
    }
}

/// The first item that builds hold, as it is removed: absolute index, id and quantity.
pub open spec fn managed_target(table: Option<Map<u32, WeaponRow>>, bag: Bag) -> Option<
    (u32, u32, u32),
> {
    let at = managed_from(table, bag.normal@, 0);
    if at < bag.normal@.len() {
        let entry = bag.normal@[at]->0;
        Some((bag.absolute(at) as u32, entry.item_id, copies(entry.quantity)))
    } else {
        None
    }
}

/// The first item of the normal places that builds hold: absolute index, id and quantity.
pub fn first_managed(table: &WeaponTable, bag: &Bag) -> (target: Option<(u32, u32, u32)>)
    requires
        bag.wf(),
    ensures
        target == managed_target(table@, *bag),
{
    let mut at: usize = 0;
    while at < bag.normal.len()
        invariant
            bag.wf(),
            at <= bag.normal@.len(),
            managed_from(table@, bag.normal@, 0) == managed_from(table@, bag.normal@, at as int),
        decreases bag.normal@.len() - at,
    {
        match bag.normal[at] {
            Some(entry) => {
                if is_managed(table, entry.item_id) {
                    let quantity: u32 = if entry.quantity < 1 {
                        1
                    } else {
                        entry.quantity
                    };
                    return Some((abs_index(bag, at), entry.item_id, quantity));
                }
            },
            None => {},
        }
        at = at + 1;
    }
    None
}

/// How many normal places hold an item that builds hold.
pub fn managed_entry_count(table: &WeaponTable, bag: &Bag) -> (count: u32)
    requires
        bag.wf(),
    ensures
        count == managed_count(table@, bag.normal@),
        count <= bag.normal@.len(),
{
    let mut count: u32 = 0;
    let mut at: usize = 0;
    assert(bag.normal@.take(0) =~= seq![]);
    while at < bag.normal.len()
        invariant
            bag.wf(),
            at <= bag.normal@.len(),
            count <= at,
            count == managed_count(table@, bag.normal@.take(at as int)),
        decreases bag.normal@.len() - at,
    {
        assert(bag.normal@.take(at + 1).drop_last() =~= bag.normal@.take(at as int));
        match bag.normal[at] {
            Some(entry) => {
                if is_managed(table, entry.item_id) {
                    count = count + 1;
                }
            },
            None => {},
        }
        at = at + 1;
    }
    assert(bag.normal@.take(bag.normal@.len() as int) =~= bag.normal@);
    count
}

/// There is something to remove just where the count says so, and it is an item that builds
/// hold.
pub proof fn target_exists_while_some_remain(table: Option<Map<u32, WeaponRow>>, bag: Bag)
    requires
        bag.wf(),
    ensures
        managed_target(table, bag) is Some <==> managed_count(table, bag.normal@) > 0,
        managed_target(table, bag) matches Some(target) ==> {
            let place = target.0 - bag.key_capacity;
            &&& 0 <= place < bag.normal@.len()
            &&& holds_managed(table, bag.normal@[place])
            &&& bag.normal@[place]->0.item_id == target.1
            &&& copies(bag.normal@[place]->0.quantity) == target.2
        },
{
    managed_from_is_first(table, bag.normal@, 0);
    count_is_positive(table, bag.normal@);
}

proof fn managed_from_is_first(
    table: Option<Map<u32, WeaponRow>>,
    places: Seq<Option<BagEntry>>,
    from: int,
)
    requires
        0 <= from <= places.len(),
    ensures
        from <= managed_from(table, places, from) <= places.len(),
        managed_from(table, places, from) < places.len() ==> holds_managed(
            table,
            places[managed_from(table, places, from)],
        ),
        forall|i: int|
            from <= i < managed_from(table, places, from) ==> !holds_managed(
                table,
                #[trigger] places[i],
            ),
    decreases places.len() - from,
{
    if from < places.len() && !holds_managed(table, places[from]) {
        managed_from_is_first(table, places, from + 1);
    }
}

proof fn count_is_positive(table: Option<Map<u32, WeaponRow>>, places: Seq<Option<BagEntry>>)
    ensures
        managed_count(table, places) > 0 <==> exists|i: int|
            0 <= i < places.len() && holds_managed(table, #[trigger] places[i]),
    decreases places.len(),
{
    if places.len() > 0 {
        let rest = places.drop_last();
        count_is_positive(table, rest);
        if managed_count(table, rest) > 0 {
            let i = choose|i: int| 0 <= i < rest.len() && holds_managed(table, #[trigger] rest[i]);
            assert(holds_managed(table, places[i]));
        }
        if exists|i: int| 0 <= i < places.len() && holds_managed(table, #[trigger] places[i]) {
            let i = choose|i: int|
                0 <= i < places.len() && holds_managed(table, #[trigger] places[i]);
            if i < rest.len() {
                assert(rest[i] == places[i]);
            }
        }
    }
}

/// The arguments of one removal: absolute index, and one piece at least.
pub fn remove_at(index: u32, count: u32) -> (call: (u32, u32))
    ensures
        call == (index, copies(count)),
{
    (
        index,
        if count < 1 {
            1
        } else {
            count
        },
    )
}

/// A table of items starts with their number; each item then takes four words: its id, how many
/// of it, at least one, a word of ones, and its ash of war.
pub proof fn every_item_takes_four_words(entries: Seq<(u32, u32, u32)>, k: int)
    requires
        entries.len() <= 10,
        0 <= k < entries.len(),
    ensures
        ({
            let words = packet_words(entries);
            let (id, quantity, gem) = entries[k];
            &&& words.len() == 1 + 4 * entries.len()
            &&& words[0] == entries.len()
            &&& words[1 + 4 * k] == id
            &&& words[2 + 4 * k] == (if quantity == 0 {
                1
            } else {
                quantity
            })
            &&& words[3 + 4 * k] == 0xFFFF_FFFF
            &&& words[4 + 4 * k] == gem
        }),
{
}

/// The item that is removed next lies before all others that builds hold.
pub proof fn the_first_managed_item_goes_next(table: Option<Map<u32, WeaponRow>>, bag: Bag, other: int)
    requires
        bag.wf(),
        0 <= other < bag.normal@.len(),
        holds_managed(table, bag.normal@[other]),
    ensures
        managed_target(table, bag) matches Some((index, id, quantity)) && {
            let place = index - bag.key_capacity;
            &&& 0 <= place <= other
            &&& id == bag.normal@[place]->0.item_id
            &&& is_managed_id(table, id)
            &&& quantity == (if bag.normal@[place]->0.quantity == 0 {
                1
            } else {
                bag.normal@[place]->0.quantity
            })
        },
{
    managed_from_is_first(table, bag.normal@, 0);
}

/// Writing over functions leaves a return at the start of each, and every other byte as it was;
/// what is kept of each is the byte that was there.
pub proof fn functions_return_at_once(memory: Map<usize, u8>, targets: Seq<usize>)
    requires
        forall|i: int| 0 <= i < targets.len() ==> memory.contains_key(#[trigger] targets[i]),
    ensures
        forall|i: int|
            0 <= i < targets.len() ==> written_over(memory, targets).0[#[trigger] targets[i]]
                == 0xC3,
        forall|a: usize|
            memory.contains_key(a) && !targets.contains(a) ==> #[trigger] written_over(
                memory,
                targets,
            ).0[a] == memory[a],
        forall|k: int|
            0 <= k < written_over(memory, targets).1.len() ==> {
                let patch = #[trigger] written_over(memory, targets).1[k];
                targets.contains(patch.address) && patch.orig == memory[patch.address]
                    && patch.orig != 0xC3
            },
    decreases targets.len(),
{
    if targets.len() > 0 {
        let rest = targets.drop_last();
        assert forall|i: int| 0 <= i < rest.len() implies memory.contains_key(
            #[trigger] rest[i],
        ) by {
            assert(rest[i] == targets[i]);
        }
        functions_return_at_once(memory, rest);
        let (now, patches) = written_over(memory, rest);
        let address = targets.last();
        assert(targets[targets.len() - 1] == address);
        assert forall|i: int| 0 <= i < targets.len() implies written_over(
            memory,
            targets,
        ).0[#[trigger] targets[i]] == 0xC3 by {
            if i < rest.len() {
                assert(rest[i] == targets[i]);
            }
        }
        assert forall|a: usize| rest.contains(a) implies targets.contains(a) by {
            let i = choose|i: int| 0 <= i < rest.len() && rest[i] == a;
            assert(targets[i] == a);
        }
        if rest.contains(address) {
            let i = choose|i: int| 0 <= i < rest.len() && rest[i] == address;
            assert(now[rest[i]] == 0xC3);
        } else {
            assert(now[address] == memory[address]);
        }
    }
}

/// The bytes of a report can be read off: two digits for each, with a space between them.
pub proof fn reported_bytes_can_be_read_off(bytes: Seq<u8>, i: int)
    ensures
        bytes.len() > 0 ==> bytes_text(bytes).len() == 3 * bytes.len() - 1,
        0 <= i < bytes.len() ==> digit_value(bytes_text(bytes)[3 * i]) * 16 + digit_value(
            bytes_text(bytes)[3 * i + 1],
        ) == bytes[i],
        0 <= i < bytes.len() - 1 ==> bytes_text(bytes)[3 * i + 2] == ' ',
    decreases bytes.len(),
{
    if bytes.len() > 0 {
        let rest = bytes.drop_last();
        reported_bytes_can_be_read_off(rest, i);
        crate::text::bytes_have_two_digits(bytes.last(), false);
        reveal_strlit(" ");
        let last = zero_padded(numeral(bytes.last() as nat, 16, false), 2);
        let before = bytes_text(rest);
        let all = bytes_text(bytes);
        if rest.len() == 0 {
            assert(all == last);
        } else {
            assert(all =~= before + " "@ + last);
            if 0 <= i < rest.len() {
                assert(all[3 * i] == before[3 * i] && all[3 * i + 1] == before[3 * i + 1]);
                assert(rest[i] == bytes[i]);
                if i == rest.len() - 1 {
                    assert(all[3 * i + 2] == " "@[0]);
                } else {
                    assert(all[3 * i + 2] == before[3 * i + 2]);
                }
            } else if i == rest.len() {
                assert(all[3 * i] == last[0] && all[3 * i + 1] == last[1]);
            }
        }
    }
}

} // verus!
