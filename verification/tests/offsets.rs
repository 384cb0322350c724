use erdueltools::equip::{equip_gear_ready, equip_gear_report};
use erdueltools::game::{remove_item_ready, remove_item_report};
use erdueltools::offsets::{
    find_aob_unique, is_at, is_callable, looks_like_fn, module_base, module_image, read_bytes,
    resolve_broadcast, resolve_equip_gear, resolve_item_get_ui, resolve_item_give,
    resolve_item_popup, resolve_open_blood_message_top, resolve_open_pause,
    resolve_packet24_owner_outer_loop, resolve_packet24_owner_outer_once, resolve_remove_item,
    resolve_send_equipment_snapshot, resolve_server_message, resolve_try_dequeue, to_rva, Image,
};

const BASE: usize = 0x1_4000_0000;

const REMOVE_PROLOGUE: [u8; 16] = [
    0x48, 0x89, 0x5C, 0x24, 0x20, 0x89, 0x54, 0x24, 0x10, 0x55, 0x56, 0x57, 0x41, 0x56, 0x41, 0x57,
];

const REMOVE_NEEDLE: [u8; 13] =
    [0x11, 0x83, 0xEC, 0x22, 0x8B, 0xF2, 0x33, 0x8B, 0xE9, 0x44, 0x85, 0xC0, 0x74];

const POPUP_PROLOGUE: [u8; 4] = [
    0x40, 0x57, 0x48, 0x83,
];

const POPUP_INNER: [u8; 13] = [
    0x48, 0x8B, 0xFA, 0x48, 0x8B, 0xD9, 0x48, 0x8B, 0x81, 0xA8, 0x00, 0x00, 0x00,
];

const GET_UI_PROLOGUE: [u8; 8] = [
    0x48, 0x8B, 0xC4, 0x55, 0x56, 0x57, 0x41, 0x54,
];

const EQUIP_PROLOGUE: [u8; 16] = [
    0x40, 0x53, 0x55, 0x56, 0x57, 0x41, 0x56, 0x48, 0x81, 0xEC, 0x90, 0x00, 0x00, 0x00, 0x48,
    0xC7,
];

const EQUIP_NEEDLE: [u8; 12] = [
    0x00, 0x8B, 0xF1, 0x00, 0x8B, 0xD8, 0x00, 0x63, 0xEA, 0x00, 0x8B, 0xF9,
];

const BROADCAST: [u8; 31] = [
    0x48, 0x89, 0x5C, 0x24, 0x08, 0x48, 0x89, 0x6C, 0x24, 0x10, 0x48, 0x89, 0x74, 0x24, 0x18,
    0x57, 0x41, 0x56, 0x41, 0x57, 0x48, 0x83, 0xEC, 0x30, 0x48, 0x8B, 0xB9, 0x80, 0x00, 0x00,
    0x00,
];

const DEQUEUE: [u8; 26] = [
    0x48, 0x89, 0x6C, 0x24, 0x10, 0x48, 0x89, 0x74, 0x24, 0x18, 0x48, 0x89, 0x7C, 0x24, 0x20,
    0x41, 0x56, 0x48, 0x83, 0xEC, 0x40, 0x80, 0x7C, 0x24, 0x78, 0x00,
];

const LOOP: [u8; 32] = [
    0x48, 0x8B, 0xC4, 0x57, 0x41, 0x54, 0x41, 0x55, 0x41, 0x56, 0x41, 0x57, 0x48, 0x83, 0xEC,
    0x70, 0x48, 0xC7, 0x40, 0xA0, 0xFE, 0xFF, 0xFF, 0xFF, 0x48, 0x89, 0x58, 0x10, 0x48, 0x89,
    0x68, 0x18,
];

const ONCE: [u8; 32] = [
    0x48, 0x8B, 0xC4, 0x56, 0x57, 0x41, 0x54, 0x41, 0x56, 0x41, 0x57, 0x48, 0x83, 0xEC, 0x70,
    0x48, 0xC7, 0x40, 0xA8, 0xFE, 0xFF, 0xFF, 0xFF, 0x48, 0x89, 0x58, 0x10, 0x48, 0x89, 0x68,
    0x18, 0x48,
];

const SNAPSHOT: [u8; 18] = [
    0x40, 0x53, 0x48, 0x81, 0xEC, 0x00, 0x01, 0x00, 0x00, 0x48, 0xC7, 0x44, 0x24, 0x20, 0xFE,
    0xFF, 0xFF, 0xFF,
];

const MESSAGE_PROLOGUE: [u8; 14] = [
    0x48, 0x8B, 0xC4, 0x56, 0x57, 0x41, 0x56, 0x48, 0x81, 0xEC, 0xA0, 0x00, 0x00, 0x00,
];

const MESSAGE_INNER: [u8; 5] = [
    0xB9, 0x68, 0x15, 0x00, 0x00,
];

const PAUSE_PROLOGUE: [u8; 6] = [
    0x40, 0x57, 0x48, 0x83, 0xEC, 0x30,
];

const PAUSE_INNER: [u8; 10] = [
    0x48, 0x83, 0xBB, 0x80, 0x00, 0x00, 0x00, 0x00, 0x75, 0x4C,
];

const SERVER_MESSAGE: [u8; 20] = [
    0x48, 0x89, 0x54, 0x24, 0x10, 0x48, 0x83, 0xEC, 0x28, 0x48, 0x8B, 0x41, 0x38, 0x48, 0xFF,
    0xC0, 0x48, 0x83, 0xF8, 0x0A,
];

fn put(bytes: &mut [u8], at: usize, part: &[u8]) {
    bytes[at..at + part.len()].copy_from_slice(part);
}

#[test]
fn a_header_tells_the_size() {
    let mut head = vec![0u8; 0x200];
    put(&mut head, 0, b"MZ");
    put(&mut head, 0x3C, &0x80u32.to_le_bytes());
    put(&mut head, 0x80, b"PE\0\0");
    put(&mut head, 0x80 + 0x50, &0x123_4567u32.to_le_bytes());
    assert_eq!(module_image(BASE, &head), Some((BASE, 0x123_4567)));
    assert_eq!(module_base(Some((BASE, 5))), Some(BASE));
    assert_eq!(module_base(None), None);
    head[1] = b'X';
    assert_eq!(module_image(BASE, &head), None);
    head[1] = b'Z';
    head[0x81] = b'X';
    assert_eq!(module_image(BASE, &head), None);
    assert_eq!(module_image(BASE, &head[..0x20]), None);
}

#[test]
fn addresses_are_relative_to_the_base() {
    assert_eq!(to_rva(Some(BASE), BASE + 0x1234), 0x1234);
    let bytes = [1u8, 2, 3, 4];
    let image = Image { base: BASE, bytes: &bytes };
    assert_eq!(read_bytes(&image, BASE + 1, 2), vec![2, 3]);
    assert!(read_bytes(&image, BASE + 3, 2).is_empty());
    assert!(read_bytes(&image, BASE - 1, 2).is_empty());
}

#[test]
fn only_a_single_hit_counts() {
    let bytes = [9u8, 1, 2, 9, 1, 3, 9];
    assert_eq!(find_aob_unique(&bytes, &[1, 2], &[0xFF, 0xFF]), Some(1));
    assert_eq!(find_aob_unique(&bytes, &[1, 0], &[0xFF, 0]), None);
    assert_eq!(find_aob_unique(&bytes, &[7], &[0xFF]), None);
    assert_eq!(find_aob_unique(&bytes, &[1, 0, 9], &[0xFF, 0, 0xFF]), None);
    assert_eq!(find_aob_unique(&bytes, &[2, 0, 1], &[0xFF, 0, 0xFF]), Some(2));
    assert!(is_at(&bytes, 3, &[9, 1]));
    assert!(!is_at(&bytes, 6, &[9, 1]));
}

#[test]
fn the_give_function_is_found_by_its_only_hit() {
    let mut bytes = vec![0u8; 0x1000];
    put(&mut bytes, 0x300, &[0x8B, 0x02, 0x83, 0xF8, 0x0A]);
    let image = Image { base: BASE, bytes: &bytes };
    assert_eq!(resolve_item_give(&image), Some(BASE + 0x300 - 0x52));
    let mut twice = bytes.clone();
    put(&mut twice, 0x500, &[0x8B, 0x02, 0x83, 0xF8, 0x0A]);
    assert_eq!(resolve_item_give(&Image { base: BASE, bytes: &twice }), None);
}

#[test]
fn the_remove_function_needs_its_prologue() {
    let mut bytes = vec![0u8; 0x1000];
    put(&mut bytes, 0x410, &REMOVE_NEEDLE);
    let bare = bytes.clone();
    assert_eq!(resolve_remove_item(&Image { base: BASE, bytes: &bare }), None);
    put(&mut bytes, 0x400, &REMOVE_PROLOGUE);
    let image = Image { base: BASE, bytes: &bytes };
    assert_eq!(resolve_remove_item(&image), Some(BASE + 0x400));
    assert!(is_callable(&image, Some(BASE + 0x400)));
    assert!(!is_callable(&image, Some(BASE + 0x300)));
    assert!(!is_callable(&image, Some(BASE + 0x1000)));
    assert!(!is_callable(&image, None));
    assert!(remove_item_ready(Some(&image)));
    assert_eq!(
        remove_item_report(Some(&image)),
        "RemoveItem：RVA 0x400\n序言 48 89 5c 24 20 89 54 24 10 55 56 57 41 56 41 57\n序言校验 通过",
    );
    assert!(!equip_gear_ready(Some(&image)));
    assert_eq!(equip_gear_report(Some(&image)), "EquipGear：解析失败");
    assert_eq!(resolve_equip_gear(&image), None);
}

#[test]
fn known_places_come_first() {
    let mut bytes = vec![0u8; 0x24_E000];
    put(&mut bytes, 0x24_D1E0, &REMOVE_PROLOGUE);
    let image = Image { base: BASE, bytes: &bytes };
    assert_eq!(resolve_remove_item(&image), Some(BASE + 0x24_D1E0));
    assert_eq!(resolve_item_get_ui(&image), None);
    assert_eq!(resolve_server_message(&image), None);
    assert_eq!(resolve_broadcast(&image), None);
}

#[test]
fn functions_begin_with_known_bytes() {
    assert!(looks_like_fn(BASE, 0x48));
    assert!(looks_like_fn(0x1_0000, 0x57));
    assert!(!looks_like_fn(0xFFFF, 0x48));
    assert!(!looks_like_fn(BASE, 0xC3));
}

#[test]
fn functions_are_found_by_their_only_prologue() {
    let cases: [(&[u8], fn(&Image) -> Option<usize>); 5] = [
        (&BROADCAST, resolve_broadcast),
        (&DEQUEUE, resolve_try_dequeue),
        (&LOOP, resolve_packet24_owner_outer_loop),
        (&ONCE, resolve_packet24_owner_outer_once),
        (&SNAPSHOT, resolve_send_equipment_snapshot),
    ];
    for (prologue, resolve) in cases {
        let mut bytes = vec![0u8; 0x1000];
        assert_eq!(resolve(&Image { base: BASE, bytes: &bytes }), None);
        put(&mut bytes, 0x500, prologue);
        assert_eq!(resolve(&Image { base: BASE, bytes: &bytes }), Some(BASE + 0x500));
        put(&mut bytes, 0x800, prologue);
        assert_eq!(resolve(&Image { base: BASE, bytes: &bytes }), None);
    }
}

#[test]
fn functions_are_found_around_their_only_code() {
    let cases: [(&[u8], &[u8], usize, fn(&Image) -> Option<usize>); 4] = [
        (&POPUP_PROLOGUE, &POPUP_INNER, 0x14, resolve_item_popup),
        (&EQUIP_PROLOGUE, &EQUIP_NEEDLE, 0x17, resolve_equip_gear),
        (&MESSAGE_PROLOGUE, &MESSAGE_INNER, 0x3D, resolve_open_blood_message_top),
        (&PAUSE_PROLOGUE, &PAUSE_INNER, 0x80, resolve_open_pause),
    ];
    for (prologue, inner, offset, resolve) in cases {
        let mut bytes = vec![0u8; 0x1000];
        put(&mut bytes, 0x500 + offset, inner);
        assert_eq!(resolve(&Image { base: BASE, bytes: &bytes }), None);
        put(&mut bytes, 0x500, prologue);
        put(&mut bytes, 0x500 + offset, inner);
        assert_eq!(resolve(&Image { base: BASE, bytes: &bytes }), Some(BASE + 0x500));
        put(&mut bytes, 0x900 + offset, inner);
        assert_eq!(resolve(&Image { base: BASE, bytes: &bytes }), None);
    }
}

#[test]
fn known_places_are_looked_at() {
    let cases: [(usize, &[u8], fn(&Image) -> Option<usize>); 2] = [
        (0x55_AC70, &GET_UI_PROLOGUE, resolve_item_get_ui),
        (0x84_1B60, &SERVER_MESSAGE, resolve_server_message),
    ];
    for (place, prologue, resolve) in cases {
        let mut bytes = vec![0u8; place + 0x100];
        assert_eq!(resolve(&Image { base: BASE, bytes: &bytes }), None);
        put(&mut bytes, place, prologue);
        assert_eq!(resolve(&Image { base: BASE, bytes: &bytes }), Some(BASE + place));
    }
}
