//! Finding the game's functions in the image of its executable, by what their code looks like.
//!
//! Each function is first looked for where it is known to be. Where the code there differs, the
//! whole image is searched, and a search that has more than one hit finds nothing.

use vstd::prelude::*;

verus! {

/// The executable in memory: where it lies, and its bytes.
pub struct Image<'a> {
    pub base: usize,
    pub bytes: &'a [u8],
}

impl<'a> Image<'a> {
    /// Every byte has an address.
    pub open spec fn wf(&self) -> bool {
        self.base + self.bytes@.len() <= usize::MAX
    }
}

/// Two bytes, the lower one first.
pub open spec fn word16(bytes: Seq<u8>, at: int) -> int {
    bytes[at] + bytes[at + 1] * 0x100
}

/// Four bytes, the lowest one first.
pub open spec fn word32(bytes: Seq<u8>, at: int) -> int {
    word16(bytes, at) + word16(bytes, at + 2) * 0x1_0000
}

fn read_u16(bytes: &[u8], at: usize) -> (word: u16)
    requires
        at + 2 <= bytes@.len(),
    ensures
        word == word16(bytes@, at as int),
{
    bytes[at] as u16 + bytes[at + 1] as u16 * 0x100
}

fn read_u32(bytes: &[u8], at: usize) -> (word: u32)
    requires
        at + 4 <= bytes@.len(),
        at + 4 <= usize::MAX,
    ensures
        word == word32(bytes@, at as int),
{
    read_u16(bytes, at) as u32 + read_u16(bytes, at + 2) as u32 * 0x1_0000
}

/// The size of the image that a header tells; `None` for bytes that are no such header.
///
/// The header begins with `MZ`. Its word at 0x3C is the place of a second header, which begins
/// with `PE` and two zeros and has the size at 0x50.
pub open spec fn header_size(head: Seq<u8>) -> Option<u32> {
    let second = word32(head, 0x3C);
    if head.len() >= 0x40 && word16(head, 0) == 0x5A4D && second < 0x8000_0000 && second + 0x54
        <= head.len() && word32(head, second) == 0x4550 {
        Some(word32(head, second + 0x50) as u32)
    } else {
        None
    }
}

/// The place and the size of the image that begins with this header.
pub fn module_image(base: usize, head: &[u8]) -> (image: Option<(usize, usize)>)
    ensures
        image == match header_size(head@) {
            Some(size) => Some((base, size as usize)),
            None => None,
        },
{
    let length: usize = head.len();
    if length < 0x40 || read_u16(head, 0) != 0x5A4D {
        return None;
    }
    let second: u32 = read_u32(head, 0x3C);
    if second >= 0x8000_0000 || length < 0x54 || second as usize > length - 0x54 {
        return None;
    }
    if read_u32(head, second as usize) != 0x4550 {
        return None;
    }
    let size: u32 = read_u32(head, second as usize + 0x50);
    Some((base, size as usize))
}

/// Where the image lies.
pub fn module_base(image: Option<(usize, usize)>) -> (base: Option<usize>)
    ensures
        base == match image {
            Some((base, _)) => Some(base),
            None => None,
        },
{
    match image {
        Some((base, _size)) => Some(base),
        None => None,
    }
}

/// The address relative to the image; 0 where there is no image.
pub open spec fn relative(base: Option<usize>, address: usize) -> usize {
    match base {
        Some(base) => if address >= base {
            (address - base) as usize
        } else {
            (address - base + usize::MAX + 1) as usize
        },
        None => 0,
    }
}

/// The address relative to the image, round the end of the address space; 0 without an image.
pub fn to_rva(base: Option<usize>, address: usize) -> (rva: usize)
    ensures
        rva == relative(base, address),
{
    match base {
        Some(base) => address.wrapping_sub(base),
        None => 0,
    }
}

/// The bytes at an address; none where they are not all in the image.
pub fn read_bytes(image: &Image, address: usize, length: usize) -> (bytes: Vec<u8>)
    requires
        image.wf(),
    ensures
        bytes@ == if image.base <= address && address + length <= image.base
            + image.bytes@.len() {
            image.bytes@.subrange(address - image.base, address - image.base + length)
        } else {
            seq![]
        },
{
    let mut bytes: Vec<u8> = Vec::new();
    let size: usize = image.bytes.len();
    if address < image.base || address - image.base > size || length > size - (address
        - image.base) {
        return bytes;
    }
    let start: usize = address - image.base;
    let mut at: usize = 0;
    while at < length
        invariant
            at <= length,
            size == image.bytes@.len(),
            start + length <= size,
            bytes@ == image.bytes@.subrange(start as int, start + at),
        decreases length - at,
    {
        bytes.push(image.bytes[start + at]);
        at = at + 1;
        assert(bytes@ =~= image.bytes@.subrange(start as int, start + at));
    }
    bytes
}

/// Whether the bytes from `at` on are these.
pub open spec fn stands_at(bytes: Seq<u8>, at: int, pattern: Seq<u8>) -> bool {
    0 <= at && at + pattern.len() <= bytes.len() && bytes.subrange(at, at + pattern.len())
        == pattern
}

/// Whether the bytes from `at` on are these, where the mask is not zero.
pub open spec fn fits_at(bytes: Seq<u8>, at: int, pattern: Seq<u8>, mask: Seq<u8>) -> bool {
    &&& 0 <= at && at + pattern.len() <= bytes.len()
    &&& forall|k: int|
        0 <= k < pattern.len() ==> mask[k] == 0 || #[trigger] bytes[at + k] == pattern[k]
}

/// Whether the pattern fits at `at` and nowhere else.
pub open spec fn is_only_hit(bytes: Seq<u8>, pattern: Seq<u8>, mask: Seq<u8>, at: int) -> bool {
    &&& fits_at(bytes, at, pattern, mask)
    &&& forall|other: int| #[trigger] fits_at(bytes, other, pattern, mask) ==> other == at
}

/// The only place where the pattern fits, where there is just one.
pub open spec fn only_hit(bytes: Seq<u8>, pattern: Seq<u8>, mask: Seq<u8>) -> Option<int> {
    if exists|at: int| is_only_hit(bytes, pattern, mask, at) {
        Some(choose|at: int| is_only_hit(bytes, pattern, mask, at))
    } else {
        None
    }
}

/// A mask under which every byte counts.
pub open spec fn whole(length: nat) -> Seq<u8> {
    Seq::new(length, |k: int| 0xFFu8)
}

fn whole_mask(length: usize) -> (mask: Vec<u8>)
    ensures
        mask@ == whole(length as nat),
{
    let mut mask: Vec<u8> = Vec::new();
    let mut at: usize = 0;
    while at < length
        invariant
            at <= length,
            mask@ == whole(at as nat),
        decreases length - at,
    {
        mask.push(0xFF);
        at = at + 1;
        assert(mask@ =~= whole(at as nat));
    }
    mask
}

fn matches_here(bytes: &[u8], at: usize, pattern: &[u8], mask: &[u8]) -> (fits: bool)
    requires
        at + pattern@.len() <= bytes@.len(),
        pattern@.len() == mask@.len(),
    ensures
        fits == fits_at(bytes@, at as int, pattern@, mask@),
{
    let size: usize = bytes.len();
    let length: usize = pattern.len();
    let mut k: usize = 0;
    while k < length
        invariant
            k <= length,
            size == bytes@.len(),
            length == pattern@.len(),
            length == mask@.len(),
            at + length <= size,
            forall|j: int|
                0 <= j < k ==> mask@[j] == 0 || #[trigger] bytes@[at + j] == pattern@[j],
        decreases length - k,
    {
        if mask[k] != 0 && bytes[at + k] != pattern[k] {
            assert(bytes@[at + k as int] != pattern@[k as int]);
            return false;
        }
        k = k + 1;
    }
    true
}

/// The only place where the pattern fits; `None` where it fits nowhere or more than once.
pub fn find_aob_unique(bytes: &[u8], pattern: &[u8], mask: &[u8]) -> (hit: Option<usize>)
    requires
        pattern@.len() == mask@.len(),
    ensures
        match only_hit(bytes@, pattern@, mask@) {
            Some(at) => hit == Some(at as usize) && fits_at(bytes@, at, pattern@, mask@),
            None => hit is None,
        },
{
    let size: usize = bytes.len();
    let length: usize = pattern.len();
    if size < length {
        assert(forall|at: int| !fits_at(bytes@, at, pattern@, mask@));
        return None;
    }
    let mut found: Option<usize> = None;
    let last: usize = size - length;
    let mut at: usize = 0;
    let mut more = true;
    while more
        invariant
            size == bytes@.len(),
            length == pattern@.len(),
            length == mask@.len(),
            last == size - length,
            at <= last,
            match found {
                Some(hit) => hit <= at && (more ==> hit < at) && fits_at(
                    bytes@,
                    hit as int,
                    pattern@,
                    mask@,
                ),
                None => true,
            },
            forall|other: int|
                0 <= other && (other < at || (!more && other == at)) && #[trigger] fits_at(
                    bytes@,
                    other,
                    pattern@,
                    mask@,
                ) ==> found == Some(other as usize),
            !more ==> at == last,
        decreases
                last - at + if more {
                    1int
                } else {
                    0int
                },
    {
        if matches_here(bytes, at, pattern, mask) {
            match found {
                Some(hit) => {
                    proof {
                        assert(fits_at(bytes@, hit as int, pattern@, mask@));
                        assert(fits_at(bytes@, at as int, pattern@, mask@));
                        assert(hit != at);
                        assert(only_hit(bytes@, pattern@, mask@) is None);
                    }
                    return None;
                },
                None => {},
            }
            found = Some(at);
        }
        if at < last {
            at = at + 1;
        } else {
            more = false;
        }
    }
    proof {
        assert forall|other: int| #[trigger] fits_at(bytes@, other, pattern@, mask@) implies found
            == Some(other as usize) by {
            assert(0 <= other <= last);
        }
        match found {
            Some(hit) => {
                assert(is_only_hit(bytes@, pattern@, mask@, hit as int));
                let chosen = choose|a: int| is_only_hit(bytes@, pattern@, mask@, a);
                assert(is_only_hit(bytes@, pattern@, mask@, chosen));
                assert(fits_at(bytes@, hit as int, pattern@, mask@));
            },
            None => {},
        }
    }
    found
}

/// Whether the bytes from `at` on are these.
pub fn is_at(bytes: &[u8], at: usize, pattern: &[u8]) -> (here: bool)
    ensures
        here == stands_at(bytes@, at as int, pattern@),
{
    let size: usize = bytes.len();
    let length: usize = pattern.len();
    if length > size || at > size - length {
        return false;
    }
    let mut k: usize = 0;
    while k < length
        invariant
            k <= length,
            size == bytes@.len(),
            length == pattern@.len(),
            at + length <= size,
            forall|j: int| 0 <= j < k ==> #[trigger] bytes@[at + j] == pattern@[j],
        decreases length - k,
    {
        if bytes[at + k] != pattern[k] {
            assert(bytes@.subrange(at as int, at + length)[k as int] != pattern@[k as int]);
            return false;
        }
        k = k + 1;
    }
    assert(bytes@.subrange(at as int, at + length) =~= pattern@) by {
        assert forall|j: int| 0 <= j < length implies #[trigger] bytes@.subrange(
            at as int,
            at + length,
        )[j] == pattern@[j] by {
            assert(bytes@[at + j] == pattern@[j]);
        }
    }
    true
}

/// Whether the pattern stands at `at` and some bytes follow it.
pub open spec fn stands_before_end(bytes: Seq<u8>, at: int, pattern: Seq<u8>) -> bool {
    stands_at(bytes, at, pattern) && at + pattern.len() < bytes.len()
}

fn is_before_end(bytes: &[u8], at: usize, pattern: &[u8]) -> (here: bool)
    ensures
        here == stands_before_end(bytes@, at as int, pattern@),
{
    is_at(bytes, at, pattern) && at < bytes.len() - pattern.len()
}

/// The address of the function with a hit `back` bytes in, where it begins as it should.
pub open spec fn behind(image: Image, hit: Option<int>, back: int, prologue: Seq<u8>) -> Option<usize> {
    match hit {
        Some(at) if at >= back && stands_at(image.bytes@, at - back, prologue) => Some(
            (image.base + at - back) as usize,
        ),
        _ => None,
    }
}

fn step_back(image: &Image, hit: Option<usize>, back: usize, prologue: &[u8]) -> (address: Option<usize>)
    requires
        image.wf(),
        hit matches Some(at) ==> at <= image.bytes@.len(),
    ensures
        address == behind(
            *image,
            match hit {
                Some(at) => Some(at as int),
                None => None,
            },
            back as int,
            prologue@,
        ),
{
    match hit {
        Some(at) => if at >= back && is_at(image.bytes, at - back, prologue) {
            Some(image.base + (at - back))
        } else {
            None
        },
        None => None,
    }
}

/// The address of code that begins like this: at its known place, or else at the only place.
pub open spec fn known_or_only(image: Image, rva: int, prologue: Seq<u8>) -> Option<usize> {
    if stands_before_end(image.bytes@, rva, prologue) {
        Some((image.base + rva) as usize)
    } else {
        match only_hit(image.bytes@, prologue, whole(prologue.len())) {
            Some(at) => Some((image.base + at) as usize),
            None => None,
        }
    }
}

fn find_known_or_only(image: &Image, rva: usize, prologue: &[u8]) -> (address: Option<usize>)
    requires
        image.wf(),
    ensures
        address == known_or_only(*image, rva as int, prologue@),
{
    if is_before_end(image.bytes, rva, prologue) {
        return Some(image.base + rva);
    }
    let mask: Vec<u8> = whole_mask(prologue.len());
    match find_aob_unique(image.bytes, prologue, mask.as_slice()) {
        Some(at) => Some(image.base + at),
        None => None,
    }
}

/// A comparison inside the function that gives items, 0x52 bytes in.
pub open spec fn item_give_inner_seq() -> Seq<u8> {
    seq![
        0x8B, 0x02, 0x83, 0xF8, 0x0A,
    ]
}

fn item_give_inner() -> (bytes: [u8; 5])
    ensures
        bytes@ == item_give_inner_seq(),
{
    let bytes: [u8; 5] = [
        0x8B, 0x02, 0x83, 0xF8, 0x0A,
    ];
    assert(bytes@ =~= item_give_inner_seq());
    bytes
}

/// How the function that removes an item begins.
pub open spec fn remove_item_prologue_seq() -> Seq<u8> {
    seq![
        0x48, 0x89, 0x5C, 0x24, 0x20, 0x89, 0x54, 0x24, 0x10, 0x55, 0x56, 0x57, 0x41, 0x56,
        0x41, 0x57,
    ]
}

fn remove_item_prologue() -> (bytes: [u8; 16])
    ensures
        bytes@ == remove_item_prologue_seq(),
{
    let bytes: [u8; 16] = [
        0x48, 0x89, 0x5C, 0x24, 0x20, 0x89, 0x54, 0x24, 0x10, 0x55, 0x56, 0x57, 0x41, 0x56,
        0x41, 0x57,
    ];
    assert(bytes@ =~= remove_item_prologue_seq());
    bytes
}

/// Code of that function, 0x10 bytes in, with 0 where it may vary.
pub open spec fn remove_item_needle_seq() -> Seq<u8> {
    seq![
        0x00, 0x83, 0xEC, 0x00, 0x8B, 0xF2, 0x00, 0x8B, 0xE9, 0x00, 0x85, 0xC0, 0x74,
    ]
}

fn remove_item_needle() -> (bytes: [u8; 13])
    ensures
        bytes@ == remove_item_needle_seq(),
{
    let bytes: [u8; 13] = [
        0x00, 0x83, 0xEC, 0x00, 0x8B, 0xF2, 0x00, 0x8B, 0xE9, 0x00, 0x85, 0xC0, 0x74,
    ];
    assert(bytes@ =~= remove_item_needle_seq());
    bytes
}

/// Which bytes of that code count.
pub open spec fn remove_item_mask_seq() -> Seq<u8> {
    seq![
        0x00, 0xFF, 0xFF, 0x00, 0xFF, 0xFF, 0x00, 0xFF, 0xFF, 0x00, 0xFF, 0xFF, 0xFF,
    ]
}

fn remove_item_mask() -> (bytes: [u8; 13])
    ensures
        bytes@ == remove_item_mask_seq(),
{
    let bytes: [u8; 13] = [
        0x00, 0xFF, 0xFF, 0x00, 0xFF, 0xFF, 0x00, 0xFF, 0xFF, 0x00, 0xFF, 0xFF, 0xFF,
    ];
    assert(bytes@ =~= remove_item_mask_seq());
    bytes
}

/// Code inside the function that queues the notice of an item, 0x14 bytes in.
pub open spec fn item_popup_inner_seq() -> Seq<u8> {
    seq![
        0x48, 0x8B, 0xFA, 0x48, 0x8B, 0xD9, 0x48, 0x8B, 0x81, 0xA8, 0x00, 0x00, 0x00,
    ]
}

fn item_popup_inner() -> (bytes: [u8; 13])
    ensures
        bytes@ == item_popup_inner_seq(),
{
    let bytes: [u8; 13] = [
        0x48, 0x8B, 0xFA, 0x48, 0x8B, 0xD9, 0x48, 0x8B, 0x81, 0xA8, 0x00, 0x00, 0x00,
    ];
    assert(bytes@ =~= item_popup_inner_seq());
    bytes
}

/// How that function begins.
pub open spec fn item_popup_prologue_seq() -> Seq<u8> {
    seq![
        0x40, 0x57, 0x48, 0x83,
    ]
}

fn item_popup_prologue() -> (bytes: [u8; 4])
    ensures
        bytes@ == item_popup_prologue_seq(),
{
    let bytes: [u8; 4] = [
        0x40, 0x57, 0x48, 0x83,
    ];
    assert(bytes@ =~= item_popup_prologue_seq());
    bytes
}

/// How the function that shows an item begins.
pub open spec fn item_get_ui_prologue_seq() -> Seq<u8> {
    seq![
        0x48, 0x8B, 0xC4, 0x55, 0x56, 0x57, 0x41, 0x54,
    ]
}

fn item_get_ui_prologue() -> (bytes: [u8; 8])
    ensures
        bytes@ == item_get_ui_prologue_seq(),
{
    let bytes: [u8; 8] = [
        0x48, 0x8B, 0xC4, 0x55, 0x56, 0x57, 0x41, 0x54,
    ];
    assert(bytes@ =~= item_get_ui_prologue_seq());
    bytes
}

/// How the function that equips an item begins.
pub open spec fn equip_gear_prologue_seq() -> Seq<u8> {
    seq![
        0x40, 0x53, 0x55, 0x56, 0x57, 0x41, 0x56, 0x48, 0x81, 0xEC, 0x90, 0x00, 0x00, 0x00,
        0x48, 0xC7,
    ]
}

fn equip_gear_prologue() -> (bytes: [u8; 16])
    ensures
        bytes@ == equip_gear_prologue_seq(),
{
    let bytes: [u8; 16] = [
        0x40, 0x53, 0x55, 0x56, 0x57, 0x41, 0x56, 0x48, 0x81, 0xEC, 0x90, 0x00, 0x00, 0x00,
        0x48, 0xC7,
    ];
    assert(bytes@ =~= equip_gear_prologue_seq());
    bytes
}

/// Code of that function, 0x17 bytes in, with 0 where it may vary.
pub open spec fn equip_gear_needle_seq() -> Seq<u8> {
    seq![
        0x00, 0x8B, 0xF1, 0x00, 0x8B, 0xD8, 0x00, 0x63, 0xEA, 0x00, 0x8B, 0xF9,
    ]
}

fn equip_gear_needle() -> (bytes: [u8; 12])
    ensures
        bytes@ == equip_gear_needle_seq(),
{
    let bytes: [u8; 12] = [
        0x00, 0x8B, 0xF1, 0x00, 0x8B, 0xD8, 0x00, 0x63, 0xEA, 0x00, 0x8B, 0xF9,
    ];
    assert(bytes@ =~= equip_gear_needle_seq());
    bytes
}

/// Which bytes of that code count.
pub open spec fn equip_gear_mask_seq() -> Seq<u8> {
    seq![
        0x00, 0xFF, 0xFF, 0x00, 0xFF, 0xFF, 0x00, 0xFF, 0xFF, 0x00, 0xFF, 0xFF,
    ]
}

fn equip_gear_mask() -> (bytes: [u8; 12])
    ensures
        bytes@ == equip_gear_mask_seq(),
{
    let bytes: [u8; 12] = [
        0x00, 0xFF, 0xFF, 0x00, 0xFF, 0xFF, 0x00, 0xFF, 0xFF, 0x00, 0xFF, 0xFF,
    ];
    assert(bytes@ =~= equip_gear_mask_seq());
    bytes
}

/// How the function that sends a packet to the session begins.
pub open spec fn broadcast_prologue_seq() -> Seq<u8> {
    seq![
        0x48, 0x89, 0x5C, 0x24, 0x08, 0x48, 0x89, 0x6C, 0x24, 0x10, 0x48, 0x89, 0x74, 0x24,
        0x18, 0x57, 0x41, 0x56, 0x41, 0x57, 0x48, 0x83, 0xEC, 0x30, 0x48, 0x8B, 0xB9, 0x80,
        0x00, 0x00, 0x00,
    ]
}

fn broadcast_prologue() -> (bytes: [u8; 31])
    ensures
        bytes@ == broadcast_prologue_seq(),
{
    let bytes: [u8; 31] = [
        0x48, 0x89, 0x5C, 0x24, 0x08, 0x48, 0x89, 0x6C, 0x24, 0x10, 0x48, 0x89, 0x74, 0x24,
        0x18, 0x57, 0x41, 0x56, 0x41, 0x57, 0x48, 0x83, 0xEC, 0x30, 0x48, 0x8B, 0xB9, 0x80,
        0x00, 0x00, 0x00,
    ];
    assert(bytes@ =~= broadcast_prologue_seq());
    bytes
}

/// How the function that takes a received packet begins.
pub open spec fn try_dequeue_prologue_seq() -> Seq<u8> {
    seq![
        0x48, 0x89, 0x6C, 0x24, 0x10, 0x48, 0x89, 0x74, 0x24, 0x18, 0x48, 0x89, 0x7C, 0x24,
        0x20, 0x41, 0x56, 0x48, 0x83, 0xEC, 0x40, 0x80, 0x7C, 0x24, 0x78, 0x00,
    ]
}

fn try_dequeue_prologue() -> (bytes: [u8; 26])
    ensures
        bytes@ == try_dequeue_prologue_seq(),
{
    let bytes: [u8; 26] = [
        0x48, 0x89, 0x6C, 0x24, 0x10, 0x48, 0x89, 0x74, 0x24, 0x18, 0x48, 0x89, 0x7C, 0x24,
        0x20, 0x41, 0x56, 0x48, 0x83, 0xEC, 0x40, 0x80, 0x7C, 0x24, 0x78, 0x00,
    ];
    assert(bytes@ =~= try_dequeue_prologue_seq());
    bytes
}

/// How the loop that applies the packets of an owner begins.
pub open spec fn packet24_loop_prologue_seq() -> Seq<u8> {
    seq![
        0x48, 0x8B, 0xC4, 0x57, 0x41, 0x54, 0x41, 0x55, 0x41, 0x56, 0x41, 0x57, 0x48, 0x83,
        0xEC, 0x70, 0x48, 0xC7, 0x40, 0xA0, 0xFE, 0xFF, 0xFF, 0xFF, 0x48, 0x89, 0x58, 0x10,
        0x48, 0x89, 0x68, 0x18,
    ]
}

fn packet24_loop_prologue() -> (bytes: [u8; 32])
    ensures
        bytes@ == packet24_loop_prologue_seq(),
{
    let bytes: [u8; 32] = [
        0x48, 0x8B, 0xC4, 0x57, 0x41, 0x54, 0x41, 0x55, 0x41, 0x56, 0x41, 0x57, 0x48, 0x83,
        0xEC, 0x70, 0x48, 0xC7, 0x40, 0xA0, 0xFE, 0xFF, 0xFF, 0xFF, 0x48, 0x89, 0x58, 0x10,
        0x48, 0x89, 0x68, 0x18,
    ];
    assert(bytes@ =~= packet24_loop_prologue_seq());
    bytes
}

/// How the function that applies one packet of an owner begins.
pub open spec fn packet24_once_prologue_seq() -> Seq<u8> {
    seq![
        0x48, 0x8B, 0xC4, 0x56, 0x57, 0x41, 0x54, 0x41, 0x56, 0x41, 0x57, 0x48, 0x83, 0xEC,
        0x70, 0x48, 0xC7, 0x40, 0xA8, 0xFE, 0xFF, 0xFF, 0xFF, 0x48, 0x89, 0x58, 0x10, 0x48,
        0x89, 0x68, 0x18, 0x48,
    ]
}

fn packet24_once_prologue() -> (bytes: [u8; 32])
    ensures
        bytes@ == packet24_once_prologue_seq(),
{
    let bytes: [u8; 32] = [
        0x48, 0x8B, 0xC4, 0x56, 0x57, 0x41, 0x54, 0x41, 0x56, 0x41, 0x57, 0x48, 0x83, 0xEC,
        0x70, 0x48, 0xC7, 0x40, 0xA8, 0xFE, 0xFF, 0xFF, 0xFF, 0x48, 0x89, 0x58, 0x10, 0x48,
        0x89, 0x68, 0x18, 0x48,
    ];
    assert(bytes@ =~= packet24_once_prologue_seq());
    bytes
}

/// How the function that opens the messages begins.
pub open spec fn blood_message_prologue_seq() -> Seq<u8> {
    seq![
        0x48, 0x8B, 0xC4, 0x56, 0x57, 0x41, 0x56, 0x48, 0x81, 0xEC, 0xA0, 0x00, 0x00, 0x00,
    ]
}

fn blood_message_prologue() -> (bytes: [u8; 14])
    ensures
        bytes@ == blood_message_prologue_seq(),
{
    let bytes: [u8; 14] = [
        0x48, 0x8B, 0xC4, 0x56, 0x57, 0x41, 0x56, 0x48, 0x81, 0xEC, 0xA0, 0x00, 0x00, 0x00,
    ];
    assert(bytes@ =~= blood_message_prologue_seq());
    bytes
}

/// An allocation inside that function, 0x3D bytes in.
pub open spec fn blood_message_inner_seq() -> Seq<u8> {
    seq![
        0xB9, 0x68, 0x15, 0x00, 0x00,
    ]
}

fn blood_message_inner() -> (bytes: [u8; 5])
    ensures
        bytes@ == blood_message_inner_seq(),
{
    let bytes: [u8; 5] = [
        0xB9, 0x68, 0x15, 0x00, 0x00,
    ];
    assert(bytes@ =~= blood_message_inner_seq());
    bytes
}

/// How the function that opens the pause menu begins.
pub open spec fn open_pause_prologue_seq() -> Seq<u8> {
    seq![
        0x40, 0x57, 0x48, 0x83, 0xEC, 0x30,
    ]
}

fn open_pause_prologue() -> (bytes: [u8; 6])
    ensures
        bytes@ == open_pause_prologue_seq(),
{
    let bytes: [u8; 6] = [
        0x40, 0x57, 0x48, 0x83, 0xEC, 0x30,
    ];
    assert(bytes@ =~= open_pause_prologue_seq());
    bytes
}

/// A comparison inside that function, 0x80 bytes in.
pub open spec fn open_pause_inner_seq() -> Seq<u8> {
    seq![
        0x48, 0x83, 0xBB, 0x80, 0x00, 0x00, 0x00, 0x00, 0x75, 0x4C,
    ]
}

fn open_pause_inner() -> (bytes: [u8; 10])
    ensures
        bytes@ == open_pause_inner_seq(),
{
    let bytes: [u8; 10] = [
        0x48, 0x83, 0xBB, 0x80, 0x00, 0x00, 0x00, 0x00, 0x75, 0x4C,
    ];
    assert(bytes@ =~= open_pause_inner_seq());
    bytes
}

/// How the function that shows a system message begins.
pub open spec fn server_message_prologue_seq() -> Seq<u8> {
    seq![
        0x48, 0x89, 0x54, 0x24, 0x10, 0x48, 0x83, 0xEC, 0x28, 0x48, 0x8B, 0x41, 0x38, 0x48,
        0xFF, 0xC0, 0x48, 0x83, 0xF8, 0x0A,
    ]
}

fn server_message_prologue() -> (bytes: [u8; 20])
    ensures
        bytes@ == server_message_prologue_seq(),
{
    let bytes: [u8; 20] = [
        0x48, 0x89, 0x54, 0x24, 0x10, 0x48, 0x83, 0xEC, 0x28, 0x48, 0x8B, 0x41, 0x38, 0x48,
        0xFF, 0xC0, 0x48, 0x83, 0xF8, 0x0A,
    ];
    assert(bytes@ =~= server_message_prologue_seq());
    bytes
}

/// How the function that sends what is worn begins.
pub open spec fn equipment_snapshot_prologue_seq() -> Seq<u8> {
    seq![
        0x40, 0x53, 0x48, 0x81, 0xEC, 0x00, 0x01, 0x00, 0x00, 0x48, 0xC7, 0x44, 0x24, 0x20,
        0xFE, 0xFF, 0xFF, 0xFF,
    ]
}

fn equipment_snapshot_prologue() -> (bytes: [u8; 18])
    ensures
        bytes@ == equipment_snapshot_prologue_seq(),
{
    let bytes: [u8; 18] = [
        0x40, 0x53, 0x48, 0x81, 0xEC, 0x00, 0x01, 0x00, 0x00, 0x48, 0xC7, 0x44, 0x24, 0x20,
        0xFE, 0xFF, 0xFF, 0xFF,
    ];
    assert(bytes@ =~= equipment_snapshot_prologue_seq());
    bytes
}

/// Where the function that gives items is.
pub open spec fn item_give_address(image: Image) -> Option<usize> {
    if stands_before_end(image.bytes@, 0x5605B0int + 0x52, item_give_inner_seq()) {
        Some((image.base + 0x5605B0) as usize)
    } else {
        match only_hit(image.bytes@, item_give_inner_seq(), whole(5)) {
            Some(at) if image.base + at >= 0x52 => Some((image.base + at - 0x52) as usize),
            _ => None,
        }
    }
}

/// The function that gives items.
pub fn resolve_item_give(image: &Image) -> (address: Option<usize>)
    requires
        image.wf(),
    ensures
        address == item_give_address(*image),
{
    let inner = item_give_inner();
    if is_before_end(image.bytes, 0x5605B0 + 0x52, inner.as_slice()) {
        return Some(image.base + 0x5605B0);
    }
    let mask: Vec<u8> = whole_mask(5);
    match find_aob_unique(image.bytes, inner.as_slice(), mask.as_slice()) {
        Some(at) => (image.base + at).checked_sub(0x52),
        None => None,
    }
}

/// Where the function that removes an item is.
pub open spec fn remove_item_address(image: Image) -> Option<usize> {
    if stands_before_end(image.bytes@, 0x24D1E0, remove_item_prologue_seq()) {
        Some((image.base + 0x24D1E0) as usize)
    } else {
        behind(
            image,
            only_hit(image.bytes@, remove_item_needle_seq(), remove_item_mask_seq()),
            0x10,
            remove_item_prologue_seq(),
        )
    }
}

/// The function that removes an item.
pub fn resolve_remove_item(image: &Image) -> (address: Option<usize>)
    requires
        image.wf(),
    ensures
        address == remove_item_address(*image),
{
    let prologue = remove_item_prologue();
    if is_before_end(image.bytes, 0x24D1E0, prologue.as_slice()) {
        return Some(image.base + 0x24D1E0);
    }
    let needle = remove_item_needle();
    let mask = remove_item_mask();
    let hit = find_aob_unique(image.bytes, needle.as_slice(), mask.as_slice());
    step_back(image, hit, 0x10, prologue.as_slice())
}

/// Where the function that queues the notice of an item is.
pub open spec fn item_popup_address(image: Image) -> Option<usize> {
    if stands_before_end(image.bytes@, 0x5640F0int + 0x14, item_popup_inner_seq())
        && stands_at(image.bytes@, 0x5640F0, item_popup_prologue_seq()) {
        Some((image.base + 0x5640F0) as usize)
    } else {
        behind(
            image,
            only_hit(image.bytes@, item_popup_inner_seq(), whole(13)),
            0x14,
            item_popup_prologue_seq(),
        )
    }
}

/// The function that queues the notice of an item.
pub fn resolve_item_popup(image: &Image) -> (address: Option<usize>)
    requires
        image.wf(),
    ensures
        address == item_popup_address(*image),
{
    let inner = item_popup_inner();
    let prologue = item_popup_prologue();
    if is_before_end(image.bytes, 0x5640F0 + 0x14, inner.as_slice()) && is_at(
        image.bytes,
        0x5640F0,
        prologue.as_slice(),
    ) {
        return Some(image.base + 0x5640F0);
    }
    let mask: Vec<u8> = whole_mask(13);
    let hit = find_aob_unique(image.bytes, inner.as_slice(), mask.as_slice());
    step_back(image, hit, 0x14, prologue.as_slice())
}

/// Where the function that shows an item is.
pub open spec fn item_get_ui_address(image: Image) -> Option<usize> {
    if stands_before_end(image.bytes@, 0x55AC70, item_get_ui_prologue_seq()) {
        Some((image.base + 0x55AC70) as usize)
    } else {
        None::<usize>
    }
}

/// The function that shows an item; it is only looked for where it is known to be.
pub fn resolve_item_get_ui(image: &Image) -> (address: Option<usize>)
    requires
        image.wf(),
    ensures
        address == item_get_ui_address(*image),
{
    let prologue = item_get_ui_prologue();
    if is_before_end(image.bytes, 0x55AC70, prologue.as_slice()) {
        Some(image.base + 0x55AC70)
    } else {
        None
    }
}

/// Where the function that equips an item is.
pub open spec fn equip_gear_address(image: Image) -> Option<usize> {
    if stands_before_end(image.bytes@, 0x249160, equip_gear_prologue_seq()) {
        Some((image.base + 0x249160) as usize)
    } else {
        behind(
            image,
            only_hit(image.bytes@, equip_gear_needle_seq(), equip_gear_mask_seq()),
            0x17,
            equip_gear_prologue_seq(),
        )
    }
}

/// The function that equips an item.
pub fn resolve_equip_gear(image: &Image) -> (address: Option<usize>)
    requires
        image.wf(),
    ensures
        address == equip_gear_address(*image),
{
    let prologue = equip_gear_prologue();
    if is_before_end(image.bytes, 0x249160, prologue.as_slice()) {
        return Some(image.base + 0x249160);
    }
    let needle = equip_gear_needle();
    let mask = equip_gear_mask();
    let hit = find_aob_unique(image.bytes, needle.as_slice(), mask.as_slice());
    step_back(image, hit, 0x17, prologue.as_slice())
}

/// The function that sends a packet to the session.
pub fn resolve_broadcast(image: &Image) -> (address: Option<usize>)
    requires
        image.wf(),
    ensures
        address == known_or_only(*image, 0xCAF620, broadcast_prologue_seq()),
{
    find_known_or_only(image, 0xCAF620, broadcast_prologue().as_slice())
}

/// The function that takes a received packet.
pub fn resolve_try_dequeue(image: &Image) -> (address: Option<usize>)
    requires
        image.wf(),
    ensures
        address == known_or_only(*image, 0xCB49F0, try_dequeue_prologue_seq()),
{
    find_known_or_only(image, 0xCB49F0, try_dequeue_prologue().as_slice())
}

/// The loop that applies the packets of an owner.
pub fn resolve_packet24_owner_outer_loop(image: &Image) -> (address: Option<usize>)
    requires
        image.wf(),
    ensures
        address == known_or_only(*image, 0x3D6930, packet24_loop_prologue_seq()),
{
    find_known_or_only(image, 0x3D6930, packet24_loop_prologue().as_slice())
}

/// The function that applies one packet of an owner.
pub fn resolve_packet24_owner_outer_once(image: &Image) -> (address: Option<usize>)
    requires
        image.wf(),
    ensures
        address == known_or_only(*image, 0x3D6DB0, packet24_once_prologue_seq()),
{
    find_known_or_only(image, 0x3D6DB0, packet24_once_prologue().as_slice())
}

/// The function that sends what is worn.
pub fn resolve_send_equipment_snapshot(image: &Image) -> (address: Option<usize>)
    requires
        image.wf(),
    ensures
        address == known_or_only(*image, 0xCA11C0, equipment_snapshot_prologue_seq()),
{
    find_known_or_only(image, 0xCA11C0, equipment_snapshot_prologue().as_slice())
}

/// The function that shows a system message; it is only looked for where it is known to be.
pub fn resolve_server_message(image: &Image) -> (address: Option<usize>)
    requires
        image.wf(),
    ensures
        address == if stands_at(image.bytes@, 0x841B60, server_message_prologue_seq()) {
            Some((image.base + 0x841B60) as usize)
        } else {
            None::<usize>
        },
{
    if is_at(image.bytes, 0x841B60, server_message_prologue().as_slice()) {
        Some(image.base + 0x841B60)
    } else {
        None
    }
}

/// The address of a function with a prologue and code inside it: at its known place, or else
/// around the only place with that code.
pub open spec fn known_or_around(
    image: Image,
    rva: int,
    prologue: Seq<u8>,
    inner: Seq<u8>,
    offset: int,
) -> Option<usize> {
    if stands_at(image.bytes@, rva, prologue) && stands_at(image.bytes@, rva + offset, inner) {
        Some((image.base + rva) as usize)
    } else {
        behind(image, only_hit(image.bytes@, inner, whole(inner.len())), offset, prologue)
    }
}

fn find_known_or_around(
    image: &Image,
    rva: usize,
    prologue: &[u8],
    inner: &[u8],
    offset: usize,
) -> (address: Option<usize>)
    requires
        image.wf(),
        rva + offset <= usize::MAX,
    ensures
        address == known_or_around(*image, rva as int, prologue@, inner@, offset as int),
{
    if is_at(image.bytes, rva, prologue) && is_at(image.bytes, rva + offset, inner) {
        return Some(image.base + rva);
    }
    let mask: Vec<u8> = whole_mask(inner.len());
    let hit = find_aob_unique(image.bytes, inner, mask.as_slice());
    step_back(image, hit, offset, prologue)
}

/// The function that opens the messages.
pub fn resolve_open_blood_message_top(image: &Image) -> (address: Option<usize>)
    requires
        image.wf(),
    ensures
        address == known_or_around(
            *image,
            0x898D00,
            blood_message_prologue_seq(),
            blood_message_inner_seq(),
            0x3D,
        ),
{
    find_known_or_around(
        image,
        0x898D00,
        blood_message_prologue().as_slice(),
        blood_message_inner().as_slice(),
        0x3D,
    )
}

/// The function that opens the pause menu.
pub fn resolve_open_pause(image: &Image) -> (address: Option<usize>)
    requires
        image.wf(),
    ensures
        address == known_or_around(
            *image,
            0x7660F0,
            open_pause_prologue_seq(),
            open_pause_inner_seq(),
            0x80,
        ),
{
    find_known_or_around(
        image,
        0x7660F0,
        open_pause_prologue().as_slice(),
        open_pause_inner().as_slice(),
        0x80,
    )
}

/// The bytes that a function begins with.
pub open spec fn begins_function(first: u8) -> bool {
    first == 0x40 || first == 0x41 || first == 0x44 || first == 0x45 || first == 0x48 || first
        == 0x4C || first == 0x50 || first == 0x51 || first == 0x53 || first == 0x55 || first
        == 0x56 || first == 0x57
}

/// Whether what lies at an address looks like a function.
pub open spec fn looks_callable(address: usize, first: u8) -> bool {
    address >= 0x1_0000 && begins_function(first)
}

/// Whether what lies at an address looks like a function: `first` is the byte there.
pub fn looks_like_fn(address: usize, first: u8) -> (callable: bool)
    ensures
        callable == looks_callable(address, first),
{
    address >= 0x1_0000 && (first == 0x40 || first == 0x41 || first == 0x44 || first == 0x45
        || first == 0x48 || first == 0x4C || first == 0x50 || first == 0x51 || first == 0x53
        || first == 0x55 || first == 0x56 || first == 0x57)
}

/// Whether a resolved address may be called: it is in the image and looks like a function.
pub open spec fn may_call(image: Image, address: Option<usize>) -> bool {
    match address {
        Some(address) => image.base <= address < image.base + image.bytes@.len()
            && looks_callable(address, image.bytes@[address - image.base]),
        None => false,
    }
}

/// Whether a resolved address may be called.
pub fn is_callable(image: &Image, address: Option<usize>) -> (callable: bool)
    requires
        image.wf(),
    ensures
        callable == may_call(*image, address),
{
    match address {
        Some(address) => address >= image.base && address - image.base < image.bytes.len()
            && looks_like_fn(address, image.bytes[address - image.base]),
        None => false,
    }
}

/// A pattern that occurs twice is not found.
pub proof fn ambiguous_patterns_are_refused(
    bytes: Seq<u8>,
    pattern: Seq<u8>,
    mask: Seq<u8>,
    a: int,
    b: int,
)
    requires
        fits_at(bytes, a, pattern, mask),
        fits_at(bytes, b, pattern, mask),
        a != b,
    ensures
        only_hit(bytes, pattern, mask) is None,
{
}

/// A pattern that occurs once is found where it occurs.
pub proof fn unique_patterns_are_found(bytes: Seq<u8>, pattern: Seq<u8>, mask: Seq<u8>, at: int)
    requires
        is_only_hit(bytes, pattern, mask, at),
    ensures
        only_hit(bytes, pattern, mask) == Some(at),
{
}

/// Words are read with the lowest byte first, and an image is told by its two headers: `MZ` in
/// front, and `PE` with two zeros where the first header says.
pub proof fn headers_tell_the_size(head: Seq<u8>, second: int)
    requires
        head.len() >= 0x40,
        second == head[0x3C] + 0x100 * head[0x3D] + 0x1_0000 * head[0x3E] + 0x100_0000
            * head[0x3F],
        second < 0x8000_0000,
        second + 0x54 <= head.len(),
    ensures
        head[0] == 0x4D && head[1] == 0x5A && head[second] == 0x50 && head[second + 1] == 0x45
            && head[second + 2] == 0 && head[second + 3] == 0 ==> header_size(head) == Some(
            (head[second + 0x50] + 0x100 * head[second + 0x51] + 0x1_0000 * head[second + 0x52]
                + 0x100_0000 * head[second + 0x53]) as u32,
        ),
        header_size(head) is Some ==> head[0] == 0x4D && head[1] == 0x5A && head[second] == 0x50
            && head[second + 1] == 0x45 && head[second + 2] == 0 && head[second + 3] == 0,
{
    assert(word16(head, 0x3C) == head[0x3C] + 0x100 * head[0x3D]);
    assert(word16(head, 0x3E) == head[0x3E] + 0x100 * head[0x3F]);
    assert(word32(head, 0x3C) == second);
}

/// An address relative to the image leads back to the address.
pub proof fn relative_addresses_lead_back(base: usize, address: usize)
    ensures
        address >= base ==> base + relative(Some(base), address) == address,
        address < base ==> base + relative(Some(base), address) == address + usize::MAX + 1,
        relative(None, address) == 0,
{
}

/// A function that was found begins as it should: what removes items, what equips them and what
/// shows them with their prologue, and what gives them with its comparison 0x52 bytes in.
pub proof fn found_functions_begin_as_they_should(image: Image)
    requires
        image.wf(),
        image.base >= 0x1_0000,
    ensures
        remove_item_address(image) matches Some(address) ==> stands_at(
            image.bytes@,
            address - image.base,
            remove_item_prologue_seq(),
        ) && may_call(image, Some(address)),
        equip_gear_address(image) matches Some(address) ==> stands_at(
            image.bytes@,
            address - image.base,
            equip_gear_prologue_seq(),
        ) && may_call(image, Some(address)),
        item_popup_address(image) matches Some(address) ==> stands_at(
            image.bytes@,
            address - image.base,
            item_popup_prologue_seq(),
        ) && may_call(image, Some(address)),
        item_get_ui_address(image) matches Some(address) ==> stands_at(
            image.bytes@,
            address - image.base,
            item_get_ui_prologue_seq(),
        ) && may_call(image, Some(address)),
        item_give_address(image) matches Some(address) ==> stands_at(
            image.bytes@,
            address - image.base + 0x52,
            item_give_inner_seq(),
        ),
{
    if let Some(at) = only_hit(image.bytes@, item_give_inner_seq(), whole(5)) {
        whole_fits_stand(image.bytes@, at, item_give_inner_seq());
    }
    stands_at_its_first_byte(image, remove_item_address(image), remove_item_prologue_seq());
    stands_at_its_first_byte(image, equip_gear_address(image), equip_gear_prologue_seq());
    stands_at_its_first_byte(image, item_popup_address(image), item_popup_prologue_seq());
    stands_at_its_first_byte(image, item_get_ui_address(image), item_get_ui_prologue_seq());
}

/// What stands at an address has its first byte there.
proof fn stands_at_its_first_byte(image: Image, address: Option<usize>, prologue: Seq<u8>)
    requires
        prologue.len() > 0,
    ensures
        address matches Some(a) ==> (stands_at(image.bytes@, a - image.base, prologue)
            ==> image.base <= a < image.base + image.bytes@.len() && image.bytes@[a - image.base]
            == prologue[0]),
{
    if let Some(a) = address {
        if stands_at(image.bytes@, a - image.base, prologue) {
            let at = a - image.base;
            assert(image.bytes@.subrange(at, at + prologue.len())[0] == image.bytes@[at]);
        }
    }
}

/// What fits where every byte counts stands there.
proof fn whole_fits_stand(bytes: Seq<u8>, at: int, pattern: Seq<u8>)
    ensures
        fits_at(bytes, at, pattern, whole(pattern.len())) <==> stands_at(bytes, at, pattern),
{
    let mask = whole(pattern.len());
    if fits_at(bytes, at, pattern, mask) {
        assert forall|k: int| 0 <= k < pattern.len() implies bytes.subrange(
            at,
            at + pattern.len(),
        )[k] == pattern[k] by {
            assert(mask[k] != 0);
            assert(bytes[at + k] == pattern[k]);
        }
        assert(bytes.subrange(at, at + pattern.len()) =~= pattern);
    }
    if stands_at(bytes, at, pattern) {
        assert forall|k: int| 0 <= k < pattern.len() implies mask[k] == 0 || #[trigger] bytes[at
            + k] == pattern[k] by {
            assert(bytes.subrange(at, at + pattern.len())[k] == bytes[at + k]);
        }
    }
}

/// Code that begins in a known way is found at its known place, or else at the only place where it
/// stands; and what is found begins in that way.
pub proof fn known_code_is_found(image: Image, rva: int, prologue: Seq<u8>)
    requires
        image.wf(),
        0 <= rva,
    ensures
        stands_at(image.bytes@, rva, prologue) && rva + prologue.len() < image.bytes@.len()
            ==> known_or_only(image, rva, prologue) == Some((image.base + rva) as usize),
        known_or_only(image, rva, prologue) matches Some(address) ==> stands_at(
            image.bytes@,
            address - image.base,
            prologue,
        ),
        forall|at: int|
            #[trigger] is_only_hit(image.bytes@, prologue, whole(prologue.len()), at)
                ==> known_or_only(image, rva, prologue) is Some,
{
    if let Some(at) = only_hit(image.bytes@, prologue, whole(prologue.len())) {
        whole_fits_stand(image.bytes@, at, prologue);
    }
}

/// A function that stands where it is known to be is found there.
pub proof fn functions_are_found_where_they_are_known(image: Image)
    requires
        image.wf(),
    ensures
        ({
            let bytes = image.bytes@;
            let room = |at: int, pattern: Seq<u8>|
                stands_at(bytes, at, pattern) && at + pattern.len() < bytes.len();
            &&& room(0x5605B0int + 0x52, item_give_inner_seq()) ==> item_give_address(image) == Some(
                (image.base + 0x5605B0) as usize,
            )
            &&& room(0x24D1E0, remove_item_prologue_seq()) ==> remove_item_address(image) == Some(
                (image.base + 0x24D1E0) as usize,
            )
            &&& room(0x249160, equip_gear_prologue_seq()) ==> equip_gear_address(image) == Some(
                (image.base + 0x249160) as usize,
            )
            &&& room(0x5640F0int + 0x14, item_popup_inner_seq()) && stands_at(
                bytes,
                0x5640F0,
                item_popup_prologue_seq(),
            ) ==> item_popup_address(image) == Some((image.base + 0x5640F0) as usize)
            &&& room(0x55AC70, item_get_ui_prologue_seq()) <==> item_get_ui_address(image) is Some
        }),
{
}

/// A function that was moved is found by the only place with its inner code, as far back from it
/// as it was before: 0x52 bytes for what gives items, 0x10 for what removes them, 0x17 for what
/// equips them.
pub proof fn moved_functions_are_found(image: Image, at: int)
    requires
        image.wf(),
    ensures
        is_only_hit(image.bytes@, item_give_inner_seq(), whole(5), at) && at >= 0x52 ==> {
            let address = item_give_address(image);
            address == Some((image.base + at - 0x52) as usize) || address == Some(
                (image.base + 0x5605B0) as usize,
            )
        },
        is_only_hit(image.bytes@, remove_item_needle_seq(), remove_item_mask_seq(), at) && at >= 0x10
            && stands_at(image.bytes@, at - 0x10, remove_item_prologue_seq()) ==> {
            let address = remove_item_address(image);
            address == Some((image.base + at - 0x10) as usize) || address == Some(
                (image.base + 0x24D1E0) as usize,
            )
        },
        is_only_hit(image.bytes@, equip_gear_needle_seq(), equip_gear_mask_seq(), at) && at >= 0x17
            && stands_at(image.bytes@, at - 0x17, equip_gear_prologue_seq()) ==> {
            let address = equip_gear_address(image);
            address == Some((image.base + at - 0x17) as usize) || address == Some(
                (image.base + 0x249160) as usize,
            )
        },
{
}

/// What returns at once, only fills, or jumps on does not look like a function, and nothing does in
/// the lowest addresses.
pub proof fn other_code_is_not_called(image: Image, address: usize)
    requires
        image.base <= address < image.base + image.bytes@.len(),
    ensures
        address < 0x1_0000 ==> !may_call(image, Some(address)),
        ({
            let first = image.bytes@[address - image.base];
            first < 0x40 || first > 0x57 ==> !may_call(image, Some(address))
        }),
        ({
            let first = image.bytes@[address - image.base];
            address >= 0x1_0000 && (first == 0x40 || first == 0x48 || first == 0x53) ==> may_call(
                image,
                Some(address),
            )
        }),
        !may_call(image, None),
{
}

} // verus!
