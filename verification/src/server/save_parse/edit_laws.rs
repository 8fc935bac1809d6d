//! What editing a SaveBlock1 promises, told by its bytes.

use super::edit;
use super::edit::SlotSearch;
use super::parse_laws::{law_numbers_are_little_endian, num, pocket_of_slot};
use super::state;
use crate::bytes;
use vstd::prelude::*;

verus! {

// ---------------------------------------------------------------------------------------------
// Items
// ---------------------------------------------------------------------------------------------

/// Slot `k`, of the 186 in the bag, is the first one of its pocket with this item in it.
pub open spec fn first_with(block: Seq<u8>, pocket: u8, item: u16, k: int) -> bool {
    &&& 0 <= k < 186
    &&& pocket_of_slot(k) == pocket
    &&& num(block, 0x560 + 4 * k, 2) == item
    &&& forall|j: int|
        0 <= j < k && #[trigger] pocket_of_slot(j) == pocket ==> num(block, 0x560 + 4 * j, 2)
            != item
}

/// No slot of the pocket has this item in it.
pub open spec fn none_with(block: Seq<u8>, pocket: u8, item: u16) -> bool {
    forall|j: int|
        0 <= j < 186 && #[trigger] pocket_of_slot(j) == pocket ==> num(block, 0x560 + 4 * j, 2)
            != item
}

/// The block is as it was but for slot `k`, which holds this item and, the key taken off, so many of
/// it.
pub open spec fn only_slot(
    old: Seq<u8>,
    new: Seq<u8>,
    k: int,
    item: u16,
    quantity: u16,
    key: u32,
) -> bool {
    &&& new.len() == old.len()
    &&& forall|p: int|
        0 <= p < old.len() && !(0x560 + 4 * k <= p < 0x564 + 4 * k) ==> #[trigger] new[p] == old[p]
    &&& num(new, 0x560 + 4 * k, 2) == item
    &&& (num(new, 0x562 + 4 * k, 2) as u16) ^ ((key % 0x1_0000) as u16) == quantity
}

/// Where the slots of a pocket begin among all slots.
spec fn begin(pocket: int) -> int {
    if pocket == 0 {
        0
    } else if pocket == 1 {
        30
    } else if pocket == 2 {
        60
    } else if pocket == 3 {
        76
    } else {
        140
    }
}

proof fn lemma_slot(pocket: int, i: int)
    requires
        0 <= pocket < 5,
    ensures
        state::slot_at(pocket, i) == 0x560 + 4 * (begin(pocket) + i),
        0 <= i < state::BAG_POCKETS@[pocket].1 <==> 0 <= begin(pocket) + i < 186 && pocket_of_slot(
            begin(pocket) + i,
        ) == pocket,
        begin(pocket) + state::BAG_POCKETS@[pocket].1 <= 186,
{
}

proof fn lemma_find(block: Seq<u8>, pocket: u8, item: u16, i: int)
    requires
        block.len() == 0x3E00,
        0 <= pocket < 5,
        0 <= i <= state::BAG_POCKETS@[pocket as int].1,
        forall|j: int|
            0 <= j < begin(pocket as int) + i && #[trigger] pocket_of_slot(j) == pocket ==> num(
                block,
                0x560 + 4 * j,
                2,
            ) != item,
    ensures
        match edit::find_slot(block, pocket as int, item, i) {
            SlotSearch::Found(k) => first_with(block, pocket, item, begin(pocket as int) + k) && 0
                <= k,
            SlotSearch::Absent => none_with(block, pocket, item),
            SlotSearch::Short => false,
        },
    decreases state::BAG_POCKETS@[pocket as int].1 - i,
{
    let p = pocket as int;
    lemma_slot(p, i);
    law_numbers_are_little_endian(block, state::slot_at(p, i));
    if i < state::BAG_POCKETS@[p].1 {
        if state::slot_item(block, p, i) != item {
            lemma_find(block, pocket, item, i + 1);
        }
    } else {
        assert forall|j: int| 0 <= j < 186 && #[trigger] pocket_of_slot(j) == pocket implies num(
            block,
            0x560 + 4 * j,
            2,
        ) != item by {
            lemma_slot(p, j - begin(p));
        }
    }
}

proof fn lemma_empty(block: Seq<u8>, pocket: u8, n: nat)
    requires
        block.len() == 0x3E00,
        0 <= pocket < 5,
        n <= state::BAG_POCKETS@[pocket as int].1,
    ensures
        match edit::empty_slot(block, pocket as int, n) {
            Some(k) => first_with(block, pocket, 0, begin(pocket as int) + k) && 0 <= k < n,
            None => forall|j: int|
                0 <= j < begin(pocket as int) + n && #[trigger] pocket_of_slot(j) == pocket ==> num(
                    block,
                    0x560 + 4 * j,
                    2,
                ) != 0,
        },
    decreases n,
{
    let p = pocket as int;
    if n > 0 {
        lemma_empty(block, pocket, (n - 1) as nat);
        lemma_slot(p, n - 1);
        law_numbers_are_little_endian(block, state::slot_at(p, n - 1));
    }
}

proof fn lemma_filled(block: Seq<u8>, pocket: u8, i: int, item: u16, quantity: u16, key: u32)
    requires
        block.len() == 0x3E00,
        0 <= pocket < 5,
        0 <= i < state::BAG_POCKETS@[pocket as int].1,
    ensures
        only_slot(
            block,
            edit::slot_set(block, state::slot_at(pocket as int, i), item, quantity, key),
            begin(pocket as int) + i,
            if quantity == 0 {
                0
            } else {
                item
            },
            quantity,
            key,
        ),
{
    let p = pocket as int;
    let at = state::slot_at(p, i);
    lemma_slot(p, i);
    let low = key as u16;
    let what = if quantity == 0 {
        0
    } else {
        item
    };
    let out = edit::slot_set(block, at, item, quantity, key);
    bytes::lemma_bytes16(block, at, what);
    bytes::lemma_bytes16(bytes::overlay(block, at, bytes::bytes16(what)), at + 2, quantity ^ low);
    law_numbers_are_little_endian(out, at);
    law_numbers_are_little_endian(out, at + 2);
    assert((quantity ^ low) ^ low == quantity) by (bit_vector);
    assert(low == (key % 0x1_0000) as u16) by (bit_vector)
        requires
            low == key as u16,
    ;
    let first = bytes::overlay(block, at, bytes::bytes16(what));
    assert(out[at] == first[at] && out[at + 1] == first[at + 1]);
    bytes::lemma_le_agree(out, at, first, at, 2);
}

/// An item that its pocket has is set in the first slot that has it, which is cleared where there
/// are none left of it; nothing else of the block changes.
pub proof fn law_an_item_is_set_where_it_is(
    block: Seq<u8>,
    key: u32,
    pocket: u8,
    item: u16,
    quantity: u16,
    k: int,
)
    requires
        block.len() == 0x3E00,
        first_with(block, pocket, item, k),
    ensures
        edit::item_set(block, key, pocket as int, item, quantity) matches Some(out) && only_slot(
            block,
            out,
            k,
            if quantity == 0 {
                0
            } else {
                item
            },
            quantity,
            key,
        ),
{
    lemma_before(block, pocket, item);
    lemma_find(block, pocket, item, 0);
    match edit::find_slot(block, pocket as int, item, 0) {
        SlotSearch::Found(i) => {
            let found = begin(pocket as int) + i;
            assert(found == k) by {
                if found < k {
                    assert(pocket_of_slot(found) == pocket);
                }
                if k < found {
                    assert(pocket_of_slot(k) == pocket);
                }
            }
            lemma_slot(pocket as int, i);
            lemma_filled(block, pocket, i, item, quantity, key);
        },
        _ => {
            assert(pocket_of_slot(k) == pocket);
        },
    }
}

/// No slot before the first one of a pocket is of that pocket.
proof fn lemma_before(block: Seq<u8>, pocket: u8, item: u16)
    ensures
        forall|j: int|
            0 <= j < begin(pocket as int) && #[trigger] pocket_of_slot(j) == pocket ==> num(
                block,
                0x560 + 4 * j,
                2,
            ) != item,
{
}

/// An item that its pocket does not have is set in the first empty slot of the pocket; nothing else
/// of the block changes. Where there is no such slot there is no such block, and none of an item is
/// no change.
pub proof fn law_a_new_item_takes_the_first_empty_slot(
    block: Seq<u8>,
    key: u32,
    pocket: u8,
    item: u16,
    quantity: u16,
    k: int,
)
    requires
        block.len() == 0x3E00,
        pocket < 5,
        none_with(block, pocket, item),
    ensures
        ({
            let r = edit::item_set(block, key, pocket as int, item, quantity);
            &&& quantity == 0 ==> r == Some(block)
            &&& quantity > 0 && first_with(block, pocket, 0, k) ==> (r matches Some(out)
                && only_slot(block, out, k, item, quantity, key))
            &&& quantity > 0 && none_with(block, pocket, 0) ==> r is None
        }),
{
    let p = pocket as int;
    lemma_before(block, pocket, item);
    lemma_find(block, pocket, item, 0);
    match edit::find_slot(block, p, item, 0) {
        SlotSearch::Found(i) => {
            assert(pocket_of_slot(begin(p) + i) == pocket);
        },
        _ => {},
    }
    let size = state::BAG_POCKETS@[p].1 as nat;
    lemma_empty(block, pocket, size);
    if first_with(block, pocket, 0, k) {
        lemma_slot(p, k - begin(p));
        match edit::empty_slot(block, p, size) {
            Some(i) => {
                let found = begin(p) + i;
                assert(found == k) by {
                    if found < k {
                        assert(pocket_of_slot(found) == pocket);
                    }
                    if k < found {
                        assert(pocket_of_slot(k) == pocket);
                    }
                }
                lemma_filled(block, pocket, i, item, quantity, key);
            },
            None => {
                assert(pocket_of_slot(k) == pocket);
            },
        }
    }
    if none_with(block, pocket, 0) {
        match edit::empty_slot(block, p, size) {
            Some(i) => {
                assert(pocket_of_slot(begin(p) + i) == pocket);
            },
            None => {},
        }
    }
}

/// There are five pockets.
pub proof fn law_no_sixth_pocket(block: Seq<u8>, key: u32, pocket: u8, item: u16, quantity: u16)
    requires
        pocket >= 5,
    ensures
        edit::item_set(block, key, pocket as int, item, quantity) is None,
{
}

// ---------------------------------------------------------------------------------------------
// Regions, party, money
// ---------------------------------------------------------------------------------------------

/// A region may be set if and only if it is the span before the party, a kibibyte out of the span
/// after the bag, counted from its start, or what is left at the end; and it is laid where it says.
pub proof fn law_regions_are_laid_where_they_belong(block: Seq<u8>, offset: int, data: Seq<u8>)
    requires
        block.len() == 0x3E00,
    ensures
        ({
            let r = edit::region_set(block, offset, data);
            &&& r is Some <==> {
                ||| offset == 0 && data.len() == 0x234
                ||| 0x848 <= offset < 0x3C48 && (offset - 0x848) % 0x400 == 0 && data.len()
                    == 0x400
                ||| offset == 0x3C48 && data.len() == 0x3E00 - 0x3C48
            }
            &&& r matches Some(out) ==> {
                &&& out.len() == block.len()
                &&& out.subrange(offset, offset + data.len()) == data
                &&& out.subrange(0, offset) == block.subrange(0, offset)
                &&& out.subrange(offset + data.len(), 0x3E00) == block.subrange(
                    offset + data.len(),
                    0x3E00,
                )
            }
        }),
{
    let n = data.len() as int;
    if offset == 0 && n == 0x234 {
        assert(edit::REPORTABLE@[0].0 == offset && edit::REPORTABLE@[0].1 == n);
    }
    if offset == 0x3C48 && n == 0x3E00 - 0x3C48 {
        assert(edit::REPORTABLE@[14].0 == offset && edit::REPORTABLE@[14].1 == n);
    }
    if 0x848 <= offset < 0x3C48 && (offset - 0x848) % 0x400 == 0 && n == 0x400 {
        let k = 1 + (offset - 0x848) / 0x400;
        assert(1 <= k <= 13);
        assert(edit::REPORTABLE@[k].0 == offset && edit::REPORTABLE@[k].1 == n);
    }
    match edit::region_set(block, offset, data) {
        Some(out) => {
            edit::lemma_reportable(offset, n);
            assert(out.subrange(offset, offset + n) =~= data);
            assert(out.subrange(0, offset) =~= block.subrange(0, offset));
            assert(out.subrange(offset + n, 0x3E00) =~= block.subrange(offset + n, 0x3E00));
        },
        None => {},
    }
}

/// A party may be set if and only if it is of six whole records, no more of which count than there
/// are; the count stands before the records, and nothing else of the block changes.
pub proof fn law_parties_are_laid_where_they_belong(block: Seq<u8>, count: u8, mons: Seq<u8>)
    requires
        block.len() == 0x3E00,
    ensures
        ({
            let r = edit::party_set(block, count, mons);
            &&& r is Some <==> count <= 6 && mons.len() == 6 * 100
            &&& r matches Some(out) ==> {
                &&& out.len() == block.len()
                &&& num(out, 0x234, 4) == count
                &&& out.subrange(0x238, 0x490) == mons
                &&& out.subrange(0, 0x234) == block.subrange(0, 0x234)
                &&& out.subrange(0x490, 0x3E00) == block.subrange(0x490, 0x3E00)
            }
        }),
{
    match edit::party_set(block, count, mons) {
        Some(out) => {
            bytes::lemma_bytes32(bytes::overlay(block, 0x238, mons), 0x234, count as u32);
            law_numbers_are_little_endian(out, 0x234);
            assert(out.subrange(0x238, 0x490) =~= mons);
            assert(out.subrange(0, 0x234) =~= block.subrange(0, 0x234));
            assert(out.subrange(0x490, 0x3E00) =~= block.subrange(0x490, 0x3E00));
        },
        None => {},
    }
}

/// Money is set under the key, in the four bytes after the party, and nothing else of the block
/// changes.
pub proof fn law_money_is_laid_under_the_key(block: Seq<u8>, key: u32, amount: u32)
    requires
        block.len() == 0x3E00,
    ensures
        ({
            let out = edit::money_set(block, key, amount);
            &&& out.len() == block.len()
            &&& (num(out, 0x490, 4) as u32) ^ key == amount
            &&& out.subrange(0, 0x490) == block.subrange(0, 0x490)
            &&& out.subrange(0x494, 0x3E00) == block.subrange(0x494, 0x3E00)
        }),
{
    let out = edit::money_set(block, key, amount);
    bytes::lemma_bytes32(block, 0x490, amount ^ key);
    law_numbers_are_little_endian(out, 0x490);
    assert((amount ^ key) ^ key == amount) by (bit_vector);
    assert(out.subrange(0, 0x490) =~= block.subrange(0, 0x490));
    assert(out.subrange(0x494, 0x3E00) =~= block.subrange(0x494, 0x3E00));
}

} // verus!
