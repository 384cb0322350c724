use erdueltools::game::{
    abs_index, first_managed, give_tga_one, give_tga_packet, item_give_ready, managed_entry_count,
    patch_for, remove_at, remove_item_ready, remove_item_report, set_item_popup_suppressed,
    spaced_bytes, suppress_pop, suppress_push, PatchedFn, Suppression,
};
use erdueltools::item::{Bag, BagEntry, WeaponTable};

fn entry(item_id: u32, quantity: u32) -> Option<BagEntry> {
    Some(BagEntry { item_id, handle: 1, quantity, sort_id: 0, gem: -1 })
}

fn bag(normal: Vec<Option<BagEntry>>) -> Bag {
    let normal_len = normal.len() as u32;
    Bag { key_capacity: 384, keys: Vec::new(), normal, normal_len, next_sort_id: 0 }
}

#[test]
fn packets_hold_four_words_for_each_entry() {
    let words = give_tga_packet(&[(7, 3, 0xFFFF_FFFF), (8, 0, 5)]).unwrap();
    assert_eq!(words, vec![2, 7, 3, 0xFFFF_FFFF, 0xFFFF_FFFF, 8, 1, 0xFFFF_FFFF, 5]);
    assert_eq!(give_tga_one(7, 3, 5), vec![1, 7, 3, 0xFFFF_FFFF, 5]);
    assert_eq!(give_tga_packet(&[]), Err("TGA 批次长度必须 1..=10，收到 0".to_owned()));
    let many = vec![(1, 1, 1); 11];
    assert_eq!(give_tga_packet(&many), Err("TGA 批次长度必须 1..=10，收到 11".to_owned()));
}

#[test]
fn what_is_managed_is_found() {
    let table = WeaponTable { rows: None };
    let bag = bag(vec![
        None,
        entry(0x4000_1A90, 5),
        entry(1_000_000, 1),
        entry(50_000_000, 99),
        entry(0x2000_03E8, 0),
    ]);
    assert_eq!(first_managed(&table, &bag), Some((386, 1_000_000, 1)));
    assert_eq!(managed_entry_count(&table, &bag), 2);
    assert_eq!(abs_index(&bag, 4), 388);
    assert_eq!(remove_at(388, 0), (388, 1));
    assert_eq!(remove_at(388, 5), (388, 5));
}

#[test]
fn nothing_is_ready_without_an_image() {
    assert!(!item_give_ready(None));
    assert!(!remove_item_ready(None));
    assert_eq!(
        remove_item_report(None),
        "RemoveItem：解析失败（AOB 非唯一命中或序言不符），已拒绝调用",
    );
}

#[test]
fn bytes_are_spaced() {
    assert_eq!(spaced_bytes(&vec![]), "");
    assert_eq!(spaced_bytes(&vec![0x48]), "48");
    assert_eq!(spaced_bytes(&vec![0x48, 0x8b, 0x05]), "48 8b 05");
}

#[test]
fn patches_are_undone_when_the_last_layer_ends() {
    let mut memory = vec![0x48u8, 0x40, 0xC3];
    let before = memory.clone();
    let mut state = Suppression::new();
    assert!(suppress_push(&mut state));
    for address in 0..3usize {
        if let Some(byte) = patch_for(memory[address]) {
            state.note_patch(address, memory[address]);
            memory[address] = byte;
        }
    }
    assert_eq!(memory, vec![0xC3, 0xC3, 0xC3]);
    assert_eq!(state.patches.len(), 2);
    assert!(!suppress_push(&mut state));
    assert!(suppress_pop(&mut state).is_empty());
    for patch in suppress_pop(&mut state) {
        memory[patch.address] = patch.orig;
    }
    assert_eq!(memory, before);
    assert!(suppress_pop(&mut state).is_empty());
}

#[test]
fn suppression_can_be_set_at_once() {
    let mut state = Suppression::new();
    let (patch, restore) = set_item_popup_suppressed(&mut state, true);
    assert!(patch && restore.is_empty());
    assert_eq!(state.depth, 1);
    state.note_patch(4, 0x48);
    state.note_patch(5, 0x40);
    let (patch, restore) = set_item_popup_suppressed(&mut state, false);
    assert!(!patch);
    assert_eq!(
        restore,
        vec![PatchedFn { address: 5, orig: 0x40 }, PatchedFn { address: 4, orig: 0x48 }],
    );
    assert_eq!(state.depth, 0);
}
