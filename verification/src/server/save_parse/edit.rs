//! Copies of a save's SaveBlock1 with one thing changed, for the caller to author into the image.

use super::image;
use super::image::SAVEBLOCK1_SECTORS;
use super::image_laws;
use super::mon::MON_SIZE;
use super::state;
use super::state::{SaveState, SaveView, BAG_POCKETS, OFFSET_MONEY, OFFSET_PARTY, PARTY_SIZE};
use crate::bytes;
use vstd::prelude::*;

verus! {

/// Where the game keeps how many Pokemon are in the party, immediately before the party.
pub const OFFSET_PARTY_COUNT: usize = 0x234;

/// The parts of SaveBlock1 a client may report directly, as (offset, length).
///
/// This is all of SaveBlock1 in kilobyte chunks, except one protected span (0x234..0x848) holding
/// the party count, the party, money, coins and the bag. Those have their own messages carrying
/// caps, rate ceilings and level consistency checks that a raw region write would skip.
pub const REPORTABLE: [(usize, usize); 15] = [
    (0x0, 0x234),
    (0x848, 0x400),
    (0xC48, 0x400),
    (0x1048, 0x400),
    (0x1448, 0x400),
    (0x1848, 0x400),
    (0x1C48, 0x400),
    (0x2048, 0x400),
    (0x2448, 0x400),
    (0x2848, 0x400),
    (0x2C48, 0x400),
    (0x3048, 0x400),
    (0x3448, 0x400),
    (0x3848, 0x400),
    (0x3C48, 0x1B8),
];

// ---------------------------------------------------------------------------------------------
// Money
// ---------------------------------------------------------------------------------------------

/// A SaveBlock1 with the money set; one that is too short to hold money is left as it is.
pub open spec fn money_set(block: Seq<u8>, key: u32, amount: u32) -> Seq<u8> {
    if block.len() >= 0x494 {
        bytes::overlay(block, 0x490, bytes::bytes32(amount ^ key))
    } else {
        block
    }
}

/// A copy of this save's SaveBlock1 with money set to `amount`, encoded the way the game would.
pub fn with_money(state: &SaveState, amount: u32) -> (r: Vec<u8>)
    ensures
        r@ == money_set(state@.block1, state@.encryption_key, amount),
{
    let mut block1: Vec<u8> = vstd::slice::slice_to_vec(&state.block1);
    if block1.len() >= OFFSET_MONEY + 4 {
        bytes::put32(&mut block1, OFFSET_MONEY, amount ^ state.encryption_key);
    }
    block1
}

// ---------------------------------------------------------------------------------------------
// Items
// ---------------------------------------------------------------------------------------------

/// How a search of a pocket ends.
pub enum SlotSearch {
    /// The block ends before the pocket does.
    Short,
    Found(int),
    Absent,
}

/// The first slot with this item, from slot `i` of a pocket on.
pub open spec fn find_slot(block: Seq<u8>, pocket: int, item: u16, i: int) -> SlotSearch
    decreases BAG_POCKETS@[pocket].1 - i,
{
    if i >= BAG_POCKETS@[pocket].1 {
        SlotSearch::Absent
    } else if state::slot_at(pocket, i) + 4 > block.len() {
        SlotSearch::Short
    } else if state::slot_item(block, pocket, i) == item {
        SlotSearch::Found(i)
    } else {
        find_slot(block, pocket, item, i + 1)
    }
}

/// The first empty slot among the first `n` of a pocket.
pub open spec fn empty_slot(block: Seq<u8>, pocket: int, n: nat) -> Option<int>
    decreases n,
{
    if n == 0 {
        None
    } else if empty_slot(block, pocket, (n - 1) as nat) is Some {
        empty_slot(block, pocket, (n - 1) as nat)
    } else if state::slot_item(block, pocket, n - 1) == 0 {
        Some(n - 1)
    } else {
        None
    }
}

/// A SaveBlock1 with one slot of the bag filled. A quantity of zero clears it, which is how the
/// game empties one.
pub open spec fn slot_set(block: Seq<u8>, at: int, item: u16, quantity: u16, key: u32) -> Seq<u8> {
    let what = if quantity == 0 { 0 } else { item };
    bytes::overlay(
        bytes::overlay(block, at, bytes::bytes16(what)),
        at + 2,
        bytes::bytes16(quantity ^ (key as u16)),
    )
}

/// A SaveBlock1 with one item set to a quantity in a pocket: in the slot that has it, else, unless
/// there is nothing to add, in the first empty one. Nothing where the pocket does not exist or is
/// full.
pub open spec fn item_set(
    block: Seq<u8>,
    key: u32,
    pocket: int,
    item: u16,
    quantity: u16,
) -> Option<Seq<u8>> {
    if !(0 <= pocket < 5) {
        None
    } else {
        match find_slot(block, pocket, item, 0) {
            SlotSearch::Short => None,
            SlotSearch::Found(i) => Some(
                slot_set(block, state::slot_at(pocket, i), item, quantity, key),
            ),
            SlotSearch::Absent => if quantity == 0 {
                Some(block)
            } else {
                match empty_slot(block, pocket, BAG_POCKETS@[pocket].1 as nat) {
                    Some(i) => Some(
                        slot_set(block, state::slot_at(pocket, i), item, quantity, key),
                    ),
                    None => None,
                }
            },
        }
    }
}

fn write_slot(block1: &mut Vec<u8>, off: usize, item: u16, quantity: u16, key: u32)
    requires
        off + 4 <= old(block1)@.len(),
    ensures
        final(block1)@ == slot_set(old(block1)@, off as int, item, quantity, key),
{
    assert(block1.len() == block1@.len());
    let what: u16 = if quantity == 0 {
        0
    } else {
        item
    };
    bytes::put16(block1, off, what);
    // Quantities carry the low half of the same key as money.
    bytes::put16(block1, off + 2, quantity ^ (key as u16));
}

/// A copy of this save's SaveBlock1 with one item set to `quantity` in `pocket`.
///
/// Returns None when the pocket does not exist or is full, rather than dropping the change
/// silently.
pub fn with_item(state: &SaveState, pocket: u8, item: u16, quantity: u16) -> (r: Option<Vec<u8>>)
    ensures
        match r {
            Some(block) => item_set(
                state@.block1,
                state@.encryption_key,
                pocket as int,
                item,
                quantity,
            ) == Some(block@),
            None => item_set(
                state@.block1,
                state@.encryption_key,
                pocket as int,
                item,
                quantity,
            ) is None,
        },
{
    if pocket >= 5 {
        return None;
    }
    let ghost p = pocket as int;
    let (at, slots): (usize, usize) = BAG_POCKETS[pocket as usize];
    let mut block1: Vec<u8> = vstd::slice::slice_to_vec(&state.block1);
    let mut empty: Option<usize> = None;
    let mut slot: usize = 0;
    while slot < slots
        invariant
            p == pocket,
            pocket < 5,
            slot <= slots,
            at == BAG_POCKETS@[p].0,
            slots == BAG_POCKETS@[p].1,
            block1@ == state.block1@,
            find_slot(block1@, p, item, 0) == find_slot(block1@, p, item, slot as int),
            slot > 0 ==> state::slot_at(p, slot - 1) + 4 <= block1@.len(),
            match empty {
                Some(off) => {
                    &&& off + 4 <= block1@.len()
                    &&& empty_slot(block1@, p, slot as nat) is Some
                    &&& off == state::slot_at(p, empty_slot(block1@, p, slot as nat)->0)
                },
                None => empty_slot(block1@, p, slot as nat) is None,
            },
        decreases slots - slot,
    {
        proof {
            state::lemma_pockets(p, slot as int);
        }
        let off: usize = at + slot * 4;
        if block1.len() < off + 4 {
            return None;
        }
        let here: u16 = bytes::get16(&block1, off);
        if here == item {
            write_slot(&mut block1, off, item, quantity, state.encryption_key);
            return Some(block1);
        }
        if here == 0 && empty.is_none() {
            empty = Some(off);
        }
        slot = slot + 1;
    }
    // Nothing to do: removing an item that is not there is already the state asked for.
    if quantity == 0 {
        return Some(block1);
    }
    match empty {
        Some(off) => {
            write_slot(&mut block1, off, item, quantity, state.encryption_key);
            Some(block1)
        },
        None => None,
    }
}

// ---------------------------------------------------------------------------------------------
// The party
// ---------------------------------------------------------------------------------------------

/// A SaveBlock1 with the party replaced.
pub open spec fn party_set(block: Seq<u8>, count: u8, mons: Seq<u8>) -> Option<Seq<u8>> {
    if count > 6 || mons.len() != 600 || block.len() < 0x490 {
        None
    } else {
        Some(
            bytes::overlay(
                bytes::overlay(block, 0x238, mons),
                0x234,
                bytes::bytes32(count as u32),
            ),
        )
    }
}

/// A copy of this save's SaveBlock1 with the party replaced.
///
/// The party arrives as the game's own bytes rather than as fields: carrying the bytes cannot get
/// the encryption and the order of the substructs wrong. It faces the same level, experience and
/// effort checks that an uploaded party does.
pub fn with_party(state: &SaveState, count: u8, mons: &[u8]) -> (r: Option<Vec<u8>>)
    ensures
        match r {
            Some(block) => party_set(state@.block1, count, mons@) == Some(block@),
            None => party_set(state@.block1, count, mons@) is None,
        },
{
    if count as usize > PARTY_SIZE || mons.len() != PARTY_SIZE * MON_SIZE {
        return None;
    }
    let mut block1: Vec<u8> = vstd::slice::slice_to_vec(&state.block1);
    if block1.len() < OFFSET_PARTY + PARTY_SIZE * MON_SIZE {
        return None;
    }
    bytes::put_all(&mut block1, OFFSET_PARTY, mons);
    bytes::put32(&mut block1, OFFSET_PARTY_COUNT, count as u32);
    Some(block1)
}

// ---------------------------------------------------------------------------------------------
// Regions
// ---------------------------------------------------------------------------------------------

/// The region is on the list, exactly as it stands there.
pub open spec fn reportable(offset: int, len: int) -> bool {
    exists|k: int|
        0 <= k < 15 && (#[trigger] REPORTABLE@[k]).0 == offset && REPORTABLE@[k].1 == len
}

/// A SaveBlock1 with one listed region replaced.
pub open spec fn region_set(block: Seq<u8>, offset: int, data: Seq<u8>) -> Option<Seq<u8>> {
    if !reportable(offset, data.len() as int) || block.len() < offset + data.len() {
        None
    } else {
        Some(bytes::overlay(block, offset, data))
    }
}

fn is_reportable(offset: usize, len: usize) -> (r: bool)
    ensures
        r == reportable(offset as int, len as int),
{
    let mut k: usize = 0;
    while k < 15
        invariant
            k <= 15,
            forall|j: int|
                0 <= j < k ==> !((#[trigger] REPORTABLE@[j]).0 == offset && REPORTABLE@[j].1
                    == len),
        decreases 15 - k,
    {
        let (at, n): (usize, usize) = REPORTABLE[k];
        if at == offset && n == len {
            assert(REPORTABLE@[k as int].0 == offset);
            return true;
        }
        k = k + 1;
    }
    false
}

/// A copy of this save's SaveBlock1 with one allowlisted region replaced.
///
/// Refuses any (offset, length) not on the list exactly: accepting a subrange would let a caller
/// write one byte at a time at an offset of its choosing.
pub fn with_region(state: &SaveState, offset: usize, data: &[u8]) -> (r: Option<Vec<u8>>)
    ensures
        match r {
            Some(block) => region_set(state@.block1, offset as int, data@) == Some(block@),
            None => region_set(state@.block1, offset as int, data@) is None,
        },
{
    if !is_reportable(offset, data.len()) {
        return None;
    }
    let mut block1: Vec<u8> = vstd::slice::slice_to_vec(&state.block1);
    proof {
        lemma_reportable(offset as int, data@.len() as int);
    }
    if block1.len() < offset + data.len() {
        return None;
    }
    bytes::put_all(&mut block1, offset, data);
    Some(block1)
}

/// A listed region ends within SaveBlock1 and stays clear of the protected span.
pub proof fn lemma_reportable(offset: int, len: int)
    requires
        reportable(offset, len),
    ensures
        0 <= offset,
        0 < len,
        offset + len <= 0x3E00,
        offset + len <= 0x234 || 0x848 <= offset,
{
}

// ---------------------------------------------------------------------------------------------
// Laws
// ---------------------------------------------------------------------------------------------

/// The regions cover every byte of SaveBlock1 but the protected span, and each byte once.
pub proof fn law_regions_cover_all_but_the_protected_span(p: int)
    requires
        0 <= p < 0x3E00,
    ensures
        (exists|k: int|
            0 <= k < 15 && (#[trigger] REPORTABLE@[k]).0 <= p < REPORTABLE@[k].0 + REPORTABLE@[k].1)
            <==> !(0x234 <= p < 0x848),
        forall|a: int, b: int|
            0 <= a < b < 15 ==> (#[trigger] REPORTABLE@[a]).0 + REPORTABLE@[a].1 <= (
            #[trigger] REPORTABLE@[b]).0,
{
    if p < 0x234 {
        assert(REPORTABLE@[0].0 <= p < REPORTABLE@[0].0 + REPORTABLE@[0].1);
    } else if p >= 0x3C48 {
        assert(REPORTABLE@[14].0 <= p < REPORTABLE@[14].0 + REPORTABLE@[14].1);
    } else if p >= 0x848 {
        let k = 1 + (p - 0x848) / 0x400;
        assert(1 <= k <= 13);
        assert(REPORTABLE@[k].0 == 0x848 + (k - 1) * 0x400);
        assert(REPORTABLE@[k].0 <= p < REPORTABLE@[k].0 + REPORTABLE@[k].1);
    }
}

/// The two blocks are the same but for bytes `lo .. hi`.
pub open spec fn same_but(a: Seq<u8>, b: Seq<u8>, lo: int, hi: int) -> bool {
    &&& a.len() == b.len()
    &&& forall|p: int| 0 <= p < a.len() && !(lo <= p < hi) ==> #[trigger] a[p] == b[p]
}

proof fn lemma_same_party(a: Seq<u8>, b: Seq<u8>, lo: int, hi: int, n: nat)
    requires
        a.len() == 0x3E00,
        same_but(a, b, lo, hi),
        hi <= 0x238 || 0x490 <= lo,
        n <= 6,
    ensures
        state::party_of(b, n) == state::party_of(a, n),
    decreases n,
{
    if n > 0 {
        lemma_same_party(a, b, lo, hi, (n - 1) as nat);
        assert(state::mon_bytes(b, n - 1) =~= state::mon_bytes(a, n - 1));
    }
}

proof fn lemma_same_pocket(a: Seq<u8>, b: Seq<u8>, key: u32, lo: int, hi: int, pocket: int, n: nat)
    requires
        a.len() == 0x3E00,
        same_but(a, b, lo, hi),
        0 <= pocket < 5,
        n <= BAG_POCKETS@[pocket].1,
        hi <= BAG_POCKETS@[pocket].0 || BAG_POCKETS@[pocket].0 + 4 * BAG_POCKETS@[pocket].1 <= lo,
    ensures
        state::pocket_of(b, key, pocket, n) == state::pocket_of(a, key, pocket, n),
    decreases n,
{
    if n > 0 {
        lemma_same_pocket(a, b, key, lo, hi, pocket, (n - 1) as nat);
        state::lemma_pockets(pocket, n - 1);
    }
}

proof fn lemma_same_bag(a: Seq<u8>, b: Seq<u8>, key: u32, lo: int, hi: int, n: nat)
    requires
        a.len() == 0x3E00,
        same_but(a, b, lo, hi),
        hi <= 0x560 || 0x848 <= lo,
        n <= 5,
    ensures
        state::bag_of(b, key, n) == state::bag_of(a, key, n),
    decreases n,
{
    if n > 0 {
        lemma_same_bag(a, b, key, lo, hi, (n - 1) as nat);
        lemma_same_pocket(a, b, key, lo, hi, n - 1, BAG_POCKETS@[n - 1].1 as nat);
    }
}

/// What a change to bytes `lo .. hi` of SaveBlock1 leaves as it was.
pub proof fn lemma_state_frame(a: Seq<u8>, b: Seq<u8>, key: u32, lo: int, hi: int)
    requires
        a.len() == 0x3E00,
        same_but(a, b, lo, hi),
    ensures
        ({
            let s = state::state_of(a, key);
            let t = state::state_of(b, key);
            &&& hi <= 0x238 || 0x490 <= lo ==> t.party == s.party
            &&& hi <= 0x490 || 0x494 <= lo ==> t.money() == s.money()
            &&& hi <= 0x494 || 0x496 <= lo ==> t.coins() == s.coins()
            &&& hi <= 0x560 || 0x848 <= lo ==> t.bag == s.bag
            &&& hi <= 0x988 || 0x9BC <= lo ==> t.seen == s.seen
            &&& hi <= 0x9C8 || 0xA2E <= lo ==> t.rematches == s.rematches
            &&& hi <= 0x1270 || 0x139C <= lo ==> t.flags == s.flags
            &&& hi <= 0x139C || 0x159C <= lo ==> t.vars == s.vars
            &&& hi <= 0x159C || 0x169C <= lo ==> t.game_stats == s.game_stats
            &&& hi <= 0x169C || 0x1A9C <= lo ==> t.berry_trees == s.berry_trees
        }),
{
    let s = state::state_of(a, key);
    let t = state::state_of(b, key);
    if hi <= 0x238 || 0x490 <= lo {
        lemma_same_party(a, b, lo, hi, 6);
    }
    if hi <= 0x560 || 0x848 <= lo {
        lemma_same_bag(a, b, key, lo, hi, 5);
    }
    if hi <= 0x988 || 0x9BC <= lo {
        assert(t.seen =~= s.seen);
    }
    if hi <= 0x9C8 || 0xA2E <= lo {
        assert(t.rematches =~= s.rematches);
    }
    if hi <= 0x1270 || 0x139C <= lo {
        assert(t.flags =~= s.flags);
    }
    if hi <= 0x139C || 0x159C <= lo {
        assert(t.vars =~= s.vars);
    }
    if hi <= 0x159C || 0x169C <= lo {
        assert(t.game_stats =~= s.game_stats);
    }
    if hi <= 0x169C || 0x1A9C <= lo {
        assert(t.berry_trees =~= s.berry_trees);
    }
}

/// After a SaveBlock1 was authored into an image, the image reads as that block, under the same
/// key as before.
pub proof fn law_authored_block_is_what_is_parsed(
    im: Seq<u8>,
    before: SaveView,
    block: Seq<u8>,
    out: Seq<u8>,
)
    requires
        state::parsed(im) == Some(before),
        image::reauthored(im, SAVEBLOCK1_SECTORS@, block) == Some(out),
    ensures
        state::parsed(out) == Some(state::state_of(block, before.encryption_key)),
        before == state::state_of(before.block1, before.encryption_key),
        before.block1.len() == 0x3E00,
        block.len() == 0x3E00,
{
    let sectors = SAVEBLOCK1_SECTORS@;
    image_laws::law_authoring_is_faithful(im, sectors, block);
    image_laws::law_block_sectors_are_apart();
    image_laws::law_read_gives_back_what_was_written(im, sectors, block, out);
    let slot = image::newest(im)->0;
    assert(image::all_held(im, slot, sectors));
    image_laws::lemma_held_bytes(im, slot, sectors);
    image_laws::lemma_written(im, slot, sectors, block, 4);
    image_laws::lemma_same_footers(im, out);
    image_laws::lemma_same_holder(im, out, slot * 14, slot * 14 + 14, 0);
    image::lemma_holder(im, slot * 14, slot * 14 + 14, 0);
    match image::sector_of(im, slot, 0) {
        Some(at) => {
            assert forall|k: int| 0 <= k < 4 implies #[trigger] image::sector_of(
                im,
                slot,
                sectors[k],
            ) != Some(at) by {
                image::lemma_holder(im, slot * 14, slot * 14 + 14, sectors[k]);
            }
            assert(image_laws::same_sector(im, out, at));
            assert(state::key_of(out, slot) == state::key_of(im, slot));
        },
        None => {},
    }
}

/// Setting the money sets it to the amount, and changes nothing else that the server reads.
pub proof fn law_money_is_set_and_nothing_else(block: Seq<u8>, key: u32, amount: u32)
    requires
        block.len() == 0x3E00,
    ensures
        ({
            let s = state::state_of(block, key);
            let t = state::state_of(money_set(block, key, amount), key);
            &&& t.money() == amount
            &&& t.block1.len() == 0x3E00
            &&& t.coins() == s.coins()
            &&& t.party == s.party
            &&& t.bag == s.bag
            &&& t.flags == s.flags
            &&& t.vars == s.vars
            &&& t.seen == s.seen
            &&& t.game_stats == s.game_stats
            &&& t.berry_trees == s.berry_trees
            &&& t.rematches == s.rematches
        }),
{
    bytes::lemma_bytes32(block, 0x490, amount ^ key);
    assert((amount ^ key) ^ key == amount) by (bit_vector);
    lemma_state_frame(block, money_set(block, key, amount), key, 0x490, 0x494);
}

/// A region that a client may report moves neither money nor coins, neither the bag nor the
/// party.
pub proof fn law_regions_cannot_move_what_is_protected(
    block: Seq<u8>,
    key: u32,
    offset: int,
    data: Seq<u8>,
)
    requires
        block.len() == 0x3E00,
        region_set(block, offset, data) is Some,
    ensures
        ({
            let s = state::state_of(block, key);
            let t = state::state_of(region_set(block, offset, data)->0, key);
            &&& t.money() == s.money()
            &&& t.coins() == s.coins()
            &&& t.bag == s.bag
            &&& t.party == s.party
            &&& t.block1.subrange(0x234, 0x848) == s.block1.subrange(0x234, 0x848)
        }),
{
    lemma_reportable(offset, data.len() as int);
    let out = region_set(block, offset, data)->0;
    lemma_state_frame(block, out, key, offset, offset + data.len());
    assert(out.subrange(0x234, 0x848) =~= block.subrange(0x234, 0x848));
}

/// Replacing the party puts each record where it was sent, and leaves money, coins, the bag and
/// the story as they were.
pub proof fn law_party_is_set_and_nothing_else(
    block: Seq<u8>,
    key: u32,
    count: u8,
    mons: Seq<u8>,
    i: int,
)
    requires
        block.len() == 0x3E00,
        party_set(block, count, mons) is Some,
        0 <= i < 6,
    ensures
        ({
            let s = state::state_of(block, key);
            let t = state::state_of(party_set(block, count, mons)->0, key);
            &&& state::mon_bytes(t.block1, i) == mons.subrange(i * 100, i * 100 + 100)
            &&& bytes::le32(t.block1, 0x234) == count
            &&& t.money() == s.money()
            &&& t.coins() == s.coins()
            &&& t.bag == s.bag
            &&& t.flags == s.flags
            &&& t.vars == s.vars
            &&& t.seen == s.seen
            &&& t.game_stats == s.game_stats
            &&& t.berry_trees == s.berry_trees
            &&& t.rematches == s.rematches
        }),
{
    let out = party_set(block, count, mons)->0;
    bytes::lemma_bytes32(bytes::overlay(block, 0x238, mons), 0x234, count as u32);
    assert(state::mon_bytes(out, i) =~= mons.subrange(i * 100, i * 100 + 100));
    lemma_state_frame(block, out, key, 0x234, 0x490);
}

proof fn lemma_find_slot(block: Seq<u8>, pocket: int, item: u16, i: int)
    requires
        0 <= pocket < 5,
        0 <= i,
    ensures
        match find_slot(block, pocket, item, i) {
            SlotSearch::Found(k) => {
                &&& i <= k < BAG_POCKETS@[pocket].1
                &&& state::slot_at(pocket, k) + 4 <= block.len()
                &&& state::slot_item(block, pocket, k) == item
            },
            SlotSearch::Short => true,
            SlotSearch::Absent => forall|k: int|
                i <= k < BAG_POCKETS@[pocket].1 ==> #[trigger] state::slot_item(block, pocket, k)
                    != item,
        },
    decreases BAG_POCKETS@[pocket].1 - i,
{
    if i < BAG_POCKETS@[pocket].1 {
        lemma_find_slot(block, pocket, item, i + 1);
    }
}

proof fn lemma_empty_slot(block: Seq<u8>, pocket: int, n: nat)
    ensures
        match empty_slot(block, pocket, n) {
            Some(k) => 0 <= k < n && state::slot_item(block, pocket, k) == 0,
            None => forall|k: int|
                0 <= k < n ==> #[trigger] state::slot_item(block, pocket, k) != 0,
        },
    decreases n,
{
    if n > 0 {
        lemma_empty_slot(block, pocket, (n - 1) as nat);
    }
}

/// Setting an item to a quantity leaves one slot of its pocket with that item and quantity, and
/// changes no other slot and nothing outside the pocket.
pub proof fn law_item_is_set_and_nothing_else(
    block: Seq<u8>,
    key: u32,
    pocket: int,
    item: u16,
    quantity: u16,
)
    requires
        block.len() == 0x3E00,
        quantity > 0,
        item_set(block, key, pocket, item, quantity) is Some,
    ensures
        ({
            let out = item_set(block, key, pocket, item, quantity)->0;
            exists|k: int|
                {
                    &&& 0 <= k < BAG_POCKETS@[pocket].1
                    &&& #[trigger] state::slot_item(out, pocket, k) == item
                    &&& state::slot_quantity(out, key, pocket, k) == quantity
                    &&& state::slot_item(block, pocket, k) == item || state::slot_item(
                        block,
                        pocket,
                        k,
                    ) == 0
                    &&& same_but(
                        block,
                        out,
                        state::slot_at(pocket, k),
                        state::slot_at(pocket, k) + 4,
                    )
                }
        }),
{
    lemma_find_slot(block, pocket, item, 0);
    lemma_empty_slot(block, pocket, BAG_POCKETS@[pocket].1 as nat);
    let out = item_set(block, key, pocket, item, quantity)->0;
    let k = match find_slot(block, pocket, item, 0) {
        SlotSearch::Found(k) => k,
        _ => empty_slot(block, pocket, BAG_POCKETS@[pocket].1 as nat)->0,
    };
    state::lemma_pockets(pocket, k);
    let at = state::slot_at(pocket, k);
    let low = key as u16;
    bytes::lemma_bytes16(block, at, item);
    bytes::lemma_bytes16(
        bytes::overlay(block, at, bytes::bytes16(item)),
        at + 2,
        quantity ^ low,
    );
    assert((quantity ^ low) ^ low == quantity) by (bit_vector);
    assert(state::slot_item(out, pocket, k) == item);
    assert(state::slot_quantity(out, key, pocket, k) == quantity);
    assert(same_but(block, out, at, at + 4));
}

/// Setting an item to zero clears the first slot that has it, or, where none has it, changes
/// nothing.
pub proof fn law_zero_clears_the_slot(block: Seq<u8>, key: u32, pocket: int, item: u16)
    requires
        block.len() == 0x3E00,
        0 <= pocket < 5,
    ensures
        ({
            let out = item_set(block, key, pocket, item, 0);
            match find_slot(block, pocket, item, 0) {
                SlotSearch::Found(k) => {
                    &&& out is Some
                    &&& state::slot_item(out->0, pocket, k) == 0
                    &&& state::slot_quantity(out->0, key, pocket, k) == 0
                    &&& same_but(
                        block,
                        out->0,
                        state::slot_at(pocket, k),
                        state::slot_at(pocket, k) + 4,
                    )
                },
                _ => out == Some(block),
            }
        }),
{
    lemma_find_slot(block, pocket, item, 0);
    lemma_never_short(block, pocket, item, 0);
    match find_slot(block, pocket, item, 0) {
        SlotSearch::Found(k) => {
            state::lemma_pockets(pocket, k);
            let at = state::slot_at(pocket, k);
            let low = key as u16;
            bytes::lemma_bytes16(block, at, 0);
            bytes::lemma_bytes16(bytes::overlay(block, at, bytes::bytes16(0)), at + 2, 0 ^ low);
            assert((0u16 ^ low) ^ low == 0) by (bit_vector);
        },
        _ => {},
    }
}

/// Setting an item moves neither money nor coins, neither the party nor the story.
pub proof fn lemma_item_frame(block: Seq<u8>, key: u32, pocket: int, item: u16, quantity: u16)
    requires
        block.len() == 0x3E00,
        item_set(block, key, pocket, item, quantity) is Some,
    ensures
        ({
            let s = state::state_of(block, key);
            let t = state::state_of(item_set(block, key, pocket, item, quantity)->0, key);
            &&& t.money() == s.money()
            &&& t.coins() == s.coins()
            &&& t.party == s.party
            &&& t.flags == s.flags
            &&& t.vars == s.vars
        }),
{
    let out = item_set(block, key, pocket, item, quantity)->0;
    if quantity == 0 {
        law_zero_clears_the_slot(block, key, pocket, item);
        match find_slot(block, pocket, item, 0) {
            SlotSearch::Found(k) => {
                lemma_find_slot(block, pocket, item, 0);
                state::lemma_pockets(pocket, k);
                let at = state::slot_at(pocket, k);
                lemma_state_frame(block, out, key, at, at + 4);
            },
            _ => {},
        }
    } else {
        law_item_is_set_and_nothing_else(block, key, pocket, item, quantity);
        let k = choose|k: int|
            {
                &&& 0 <= k < BAG_POCKETS@[pocket].1
                &&& #[trigger] state::slot_item(out, pocket, k) == item
                &&& same_but(
                    block,
                    out,
                    state::slot_at(pocket, k),
                    state::slot_at(pocket, k) + 4,
                )
            };
        state::lemma_pockets(pocket, k);
        let at = state::slot_at(pocket, k);
        lemma_state_frame(block, out, key, at, at + 4);
    }
}

proof fn lemma_slot_in_pocket(block: Seq<u8>, key: u32, pocket: int, k: int, n: nat)
    requires
        0 <= k < n,
        state::slot_item(block, pocket, k) != 0,
    ensures
        state::pocket_of(block, key, pocket, n).contains(
            (
                pocket as u8,
                state::slot_item(block, pocket, k),
                state::slot_quantity(block, key, pocket, k),
            ),
        ),
    decreases n,
{
    let entry = (
        pocket as u8,
        state::slot_item(block, pocket, k),
        state::slot_quantity(block, key, pocket, k),
    );
    let all = state::pocket_of(block, key, pocket, n);
    let rest = state::pocket_of(block, key, pocket, (n - 1) as nat);
    if k == n - 1 {
        assert(all == rest.push(entry));
        assert(all[rest.len() as int] == entry);
    } else {
        lemma_slot_in_pocket(block, key, pocket, k, (n - 1) as nat);
        let j = choose|j: int| 0 <= j < rest.len() && rest[j] == entry;
        assert(all[j] == entry);
    }
}

proof fn lemma_pocket_in_bag(
    block: Seq<u8>,
    key: u32,
    pocket: int,
    n: nat,
    entry: (u8, u16, u16),
)
    requires
        0 <= pocket < n,
        state::pocket_of(block, key, pocket, BAG_POCKETS@[pocket].1 as nat).contains(entry),
    ensures
        state::bag_of(block, key, n).contains(entry),
    decreases n,
{
    let all = state::bag_of(block, key, n);
    let rest = state::bag_of(block, key, (n - 1) as nat);
    let here = state::pocket_of(block, key, n - 1, BAG_POCKETS@[n - 1].1 as nat);
    if pocket == n - 1 {
        let j = choose|j: int| 0 <= j < here.len() && here[j] == entry;
        assert(all[rest.len() + j] == entry);
    } else {
        lemma_pocket_in_bag(block, key, pocket, (n - 1) as nat, entry);
        let j = choose|j: int| 0 <= j < rest.len() && rest[j] == entry;
        assert(all[j] == entry);
    }
}

/// What a slot holds is in the bag.
pub proof fn lemma_slot_in_bag(block: Seq<u8>, key: u32, pocket: int, k: int)
    requires
        0 <= pocket < 5,
        0 <= k < BAG_POCKETS@[pocket].1,
        state::slot_item(block, pocket, k) != 0,
    ensures
        state::bag_of(block, key, 5).contains(
            (
                pocket as u8,
                state::slot_item(block, pocket, k),
                state::slot_quantity(block, key, pocket, k),
            ),
        ),
{
    lemma_slot_in_pocket(block, key, pocket, k, BAG_POCKETS@[pocket].1 as nat);
    lemma_pocket_in_bag(
        block,
        key,
        pocket,
        5,
        (
            pocket as u8,
            state::slot_item(block, pocket, k),
            state::slot_quantity(block, key, pocket, k),
        ),
    );
}

/// A whole SaveBlock1 reaches past every pocket.
proof fn lemma_never_short(block: Seq<u8>, pocket: int, item: u16, i: int)
    requires
        block.len() == 0x3E00,
        0 <= pocket < 5,
        0 <= i,
    ensures
        !(find_slot(block, pocket, item, i) is Short),
    decreases BAG_POCKETS@[pocket].1 - i,
{
    if i < BAG_POCKETS@[pocket].1 {
        state::lemma_pockets(pocket, i);
        lemma_never_short(block, pocket, item, i + 1);
    }
}

} // verus!
