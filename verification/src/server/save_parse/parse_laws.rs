//! What is read out of a save, told by its bytes.

use super::image;
use super::mon;
use super::mon::SUBSTRUCT_ORDER;
use super::state;
use crate::bytes;
use vstd::prelude::*;

verus! {

/// The number that `n` bytes make up, the least significant first.
pub open spec fn num(b: Seq<u8>, at: int, n: nat) -> int
    decreases n,
{
    if n == 0 {
        0
    } else {
        b[at] + 256 * num(b, at + 1, (n - 1) as nat)
    }
}

/// Two and four bytes are read as the numbers they make up.
pub proof fn law_numbers_are_little_endian(b: Seq<u8>, at: int)
    ensures
        bytes::le16(b, at) as int == num(b, at, 2),
        bytes::le32(b, at) as int == num(b, at, 4),
{
    reveal_with_fuel(num, 5);
}

// ---------------------------------------------------------------------------------------------
// One Pokemon
// ---------------------------------------------------------------------------------------------

/// Which substruct stands in a slot, by the row of the table.
pub open spec fn stands_in(row: int, slot: int) -> int {
    if SUBSTRUCT_ORDER@[row]@[0] == slot {
        0
    } else if SUBSTRUCT_ORDER@[row]@[1] == slot {
        1
    } else if SUBSTRUCT_ORDER@[row]@[2] == slot {
        2
    } else {
        3
    }
}

/// The order of the substructs in a row, written as a number with a digit for each slot.
pub open spec fn order_number(row: int) -> int {
    ((stands_in(row, 0) * 4 + stands_in(row, 1)) * 4 + stands_in(row, 2)) * 4 + stands_in(row, 3)
}

/// The rows of the table are the orders of the four substructs, each once, in the order of a
/// dictionary. With `law_substructs_are_shuffled` this leaves one table.
pub proof fn law_orders_stand_as_in_a_dictionary(row: int)
    requires
        0 <= row < 23,
    ensures
        order_number(row) < order_number(row + 1),
{
}

/// A byte of the substructs, its obfuscation undone: the bytes of personality and trainer id are laid
/// over them again and again.
pub open spec fn plain_byte(m: Seq<u8>, i: int) -> u8 {
    m[32 + i] ^ (m[i % 4] ^ m[4 + i % 4])
}

/// The number in two bytes of the substructs.
pub open spec fn plain_pair(m: Seq<u8>, i: int) -> int {
    plain_byte(m, i) + 256 * plain_byte(m, i + 1)
}

proof fn lemma_xor_bytes(x: u32, y: u32, z: u32)
    ensures
        (x ^ (y ^ z)) % 0x100 == (x % 0x100) ^ ((y % 0x100) ^ (z % 0x100)),
        (x ^ (y ^ z)) / 0x100 % 0x100 == (x / 0x100 % 0x100) ^ ((y / 0x100 % 0x100) ^ (z / 0x100
            % 0x100)),
        (x ^ (y ^ z)) / 0x1_0000 % 0x100 == (x / 0x1_0000 % 0x100) ^ ((y / 0x1_0000 % 0x100) ^ (z
            / 0x1_0000 % 0x100)),
        (x ^ (y ^ z)) / 0x100_0000 == (x / 0x100_0000) ^ ((y / 0x100_0000) ^ (z / 0x100_0000)),
{
    assert((x ^ (y ^ z)) % 0x100 == (x % 0x100) ^ ((y % 0x100) ^ (z % 0x100))) by (bit_vector);
    assert((x ^ (y ^ z)) / 0x100 % 0x100 == (x / 0x100 % 0x100) ^ ((y / 0x100 % 0x100) ^ (z / 0x100
        % 0x100))) by (bit_vector);
    assert((x ^ (y ^ z)) / 0x1_0000 % 0x100 == (x / 0x1_0000 % 0x100) ^ ((y / 0x1_0000 % 0x100) ^ (z
        / 0x1_0000 % 0x100))) by (bit_vector);
    assert((x ^ (y ^ z)) / 0x100_0000 == (x / 0x100_0000) ^ ((y / 0x100_0000) ^ (z / 0x100_0000)))
        by (bit_vector);
}

proof fn lemma_xor_small(a: u8, b: u8, c: u8)
    ensures
        (a as u32) ^ ((b as u32) ^ (c as u32)) == (a ^ (b ^ c)) as u32,
{
    assert((a as u32) ^ ((b as u32) ^ (c as u32)) == (a ^ (b ^ c)) as u32) by (bit_vector);
}

/// The bytes of a number are those it was read from.
proof fn lemma_digits(b: Seq<u8>, at: int)
    ensures
        bytes::le32(b, at) % 0x100 == b[at] as u32,
        bytes::le32(b, at) / 0x100 % 0x100 == b[at + 1] as u32,
        bytes::le32(b, at) / 0x1_0000 % 0x100 == b[at + 2] as u32,
        bytes::le32(b, at) / 0x100_0000 == b[at + 3] as u32,
{
}

proof fn lemma_plain_word(m: Seq<u8>, k: int)
    ensures
        ({
            let w = bytes::bytes32(mon::plain_word(m, k));
            let at = 32 + 4 * k;
            &&& w[0] == m[at] ^ (m[0] ^ m[4])
            &&& w[1] == m[at + 1] ^ (m[1] ^ m[5])
            &&& w[2] == m[at + 2] ^ (m[2] ^ m[6])
            &&& w[3] == m[at + 3] ^ (m[3] ^ m[7])
        }),
{
    let at = 32 + 4 * k;
    lemma_digits(m, at);
    lemma_digits(m, 0);
    lemma_digits(m, 4);
    lemma_xor_bytes(bytes::le32(m, at), bytes::le32(m, 0), bytes::le32(m, 4));
    lemma_xor_small(m[at], m[0], m[4]);
    lemma_xor_small(m[at + 1], m[1], m[5]);
    lemma_xor_small(m[at + 2], m[2], m[6]);
    lemma_xor_small(m[at + 3], m[3], m[7]);
}

proof fn lemma_plain(m: Seq<u8>, i: int)
    requires
        m.len() > 0x54,
        0 <= i < 48,
    ensures
        mon::plain(m)[i] == plain_byte(m, i),
{
    lemma_plain_word(m, i / 4);
    let r = i % 4;
    assert(i == 4 * (i / 4) + r);
    assert(r == 0 || r == 1 || r == 2 || r == 3);
}

proof fn lemma_half_sum(m: Seq<u8>, n: nat)
    requires
        m.len() > 0x54,
        n <= 24,
    ensures
        mon::half_sum(mon::plain(m), n) as int == Seq::new(
            n,
            |k: int| plain_pair(m, 2 * k),
        ).fold_left(0int, |sum: int, pair: int| sum + pair),
    decreases n,
{
    let all = Seq::new(n, |k: int| plain_pair(m, 2 * k));
    if n > 0 {
        lemma_half_sum(m, (n - 1) as nat);
        assert(all.drop_last() =~= Seq::new((n - 1) as nat, |k: int| plain_pair(m, 2 * k)));
        lemma_plain(m, 2 * (n - 1));
        lemma_plain(m, 2 * (n - 1) + 1);
        assert(all.last() == plain_pair(m, 2 * (n - 1)));
    }
}

/// A record is a Pokemon if and only if its species is not zero, and every field comes from the
/// bytes that the game keeps it in: species and experience from the growth substruct, the six effort
/// values from the effort substruct, in order, and the record counts as decoded if and only if the
/// pairs of its substructs add up to the checksum beside them.
pub proof fn law_records_are_read_by_the_byte(m: Seq<u8>)
    requires
        m.len() > 0x54,
    ensures
        ({
            let row = num(m, 0, 4) % 24;
            let growth = 12 * SUBSTRUCT_ORDER@[row]@[0];
            let effort = 12 * SUBSTRUCT_ORDER@[row]@[2];
            match mon::mon_of(m) {
                None => plain_pair(m, growth) == 0,
                Some(v) => {
                    &&& plain_pair(m, growth) != 0
                    &&& v.species as int == plain_pair(m, growth)
                    &&& v.experience as int == plain_pair(m, growth + 4) + 0x1_0000 * plain_pair(
                        m,
                        growth + 6,
                    )
                    &&& v.personality as int == num(m, 0, 4)
                    &&& v.ot_id as int == num(m, 4, 4)
                    &&& v.level == m[84]
                    &&& v.evs.len() == 6
                    &&& forall|j: int|
                        0 <= j < 6 ==> #[trigger] v.evs[j] == plain_byte(m, effort + j)
                    &&& v.checksum_ok == (Seq::new(
                        24,
                        |k: int| plain_pair(m, 2 * k),
                    ).fold_left(0int, |sum: int, pair: int| sum + pair) % 0x1_0000 == num(
                        m,
                        28,
                        2,
                    ))
                },
            }
        }),
{
    law_numbers_are_little_endian(m, 0);
    law_numbers_are_little_endian(m, 4);
    law_numbers_are_little_endian(m, 28);
    let row = num(m, 0, 4) % 24;
    mon::law_substructs_are_shuffled(row);
    assert(SUBSTRUCT_ORDER@[row]@[0] < 4 && SUBSTRUCT_ORDER@[row]@[2] < 4);
    let growth = 12 * SUBSTRUCT_ORDER@[row]@[0];
    let effort = 12 * SUBSTRUCT_ORDER@[row]@[2];
    let p = mon::plain(m);
    assert forall|i: int| 0 <= i < 48 implies #[trigger] p[i] == plain_byte(m, i) by {
        lemma_plain(m, i);
    }
    assert(p[growth] == plain_byte(m, growth) && p[growth + 1] == plain_byte(m, growth + 1));
    assert(p[growth + 4] == plain_byte(m, growth + 4) && p[growth + 5] == plain_byte(
        m,
        growth + 5,
    ));
    assert(p[growth + 6] == plain_byte(m, growth + 6) && p[growth + 7] == plain_byte(
        m,
        growth + 7,
    ));
    assert forall|j: int| 0 <= j < 6 implies #[trigger] p.subrange(effort, effort + 6)[j]
        == plain_byte(m, effort + j) by {
        assert(p[effort + j] == plain_byte(m, effort + j));
    }
    lemma_half_sum(m, 24);
}

// ---------------------------------------------------------------------------------------------
// The party
// ---------------------------------------------------------------------------------------------

/// The record in a place of the party.
pub open spec fn record(block: Seq<u8>, place: int) -> Seq<u8> {
    block.subrange(0x238 + 100 * place, 0x238 + 100 * (place + 1))
}

/// How many of the places before this one hold a Pokemon.
pub open spec fn filled_before(block: Seq<u8>, place: int) -> nat {
    Set::new(|i: int| 0 <= i < place && mon::mon_of(record(block, i)) is Some).len()
}

proof fn lemma_filled(block: Seq<u8>, n: nat)
    ensures
        Set::new(|i: int| 0 <= i < n && mon::mon_of(record(block, i)) is Some).finite(),
        filled_before(block, 0) == 0,
        n > 0 ==> filled_before(block, n as int) == filled_before(block, n - 1)
            + if mon::mon_of(record(block, n - 1)) is Some {
            1nat
        } else {
            0nat
        },
    decreases n,
{
    let empty = Set::new(|i: int| 0 <= i < 0 && mon::mon_of(record(block, i)) is Some);
    assert(empty =~= Set::empty());
    let now = Set::new(|i: int| 0 <= i < n && mon::mon_of(record(block, i)) is Some);
    if n > 0 {
        lemma_filled(block, (n - 1) as nat);
        let before = Set::new(
            |i: int| 0 <= i < n - 1 && mon::mon_of(record(block, i)) is Some,
        );
        if mon::mon_of(record(block, n - 1)) is Some {
            assert(now =~= before.insert(n - 1));
        } else {
            assert(now =~= before);
        }
    } else {
        assert(now =~= Set::empty());
    }
}

proof fn lemma_party(block: Seq<u8>, n: nat)
    requires
        n <= 6,
    ensures
        state::party_of(block, n).len() == filled_before(block, n as int),
        forall|i: int|
            0 <= i < n && (#[trigger] mon::mon_of(record(block, i))) is Some ==> {
                &&& filled_before(block, i) < filled_before(block, n as int)
                &&& state::party_of(block, n)[filled_before(block, i) as int] == mon::mon_of(
                    record(block, i),
                )->0
            },
    decreases n,
{
    lemma_filled(block, n);
    if n > 0 {
        lemma_party(block, (n - 1) as nat);
        assert(state::mon_bytes(block, n - 1) =~= record(block, n - 1));
    }
}

/// The party that is read has an entry for each of the six places whose record is a Pokemon, and no
/// other, in the order of the places.
pub proof fn law_the_whole_party_is_read(im: Seq<u8>)
    requires
        state::parsed(im) is Some,
    ensures
        ({
            let s = state::parsed(im)->0;
            &&& s.party.len() == filled_before(s.block1, 6)
            &&& forall|i: int|
                0 <= i < 6 && (#[trigger] mon::mon_of(record(s.block1, i))) is Some ==> {
                    &&& filled_before(s.block1, i) < s.party.len()
                    &&& s.party[filled_before(s.block1, i) as int] == mon::mon_of(
                        record(s.block1, i),
                    )->0
                }
        }),
{
    lemma_party(state::parsed(im)->0.block1, 6);
}

// ---------------------------------------------------------------------------------------------
// The bag
// ---------------------------------------------------------------------------------------------

/// The pocket that a slot is in, the slots of all pockets counted through.
pub open spec fn pocket_of_slot(k: int) -> u8 {
    if k < 30 {
        0
    } else if k < 60 {
        1
    } else if k < 76 {
        2
    } else if k < 140 {
        3
    } else {
        4
    }
}

/// What a slot of the bag holds: pocket, item and quantity, the quantity hidden by the lower half of
/// the key. The slots stand one after another.
pub open spec fn slot_entry(block: Seq<u8>, key: u32, k: int) -> (u8, u16, u16) {
    (
        pocket_of_slot(k),
        bytes::le16(block, 0x560 + 4 * k),
        bytes::le16(block, 0x562 + 4 * k) ^ (key as u16),
    )
}

/// How many of the slots before this one hold an item.
pub open spec fn items_before(block: Seq<u8>, k: int) -> nat {
    Set::new(|i: int| 0 <= i < k && bytes::le16(block, 0x560 + 4 * i) != 0).len()
}

proof fn lemma_items(block: Seq<u8>, n: nat)
    ensures
        Set::new(|i: int| 0 <= i < n && bytes::le16(block, 0x560 + 4 * i) != 0).finite(),
        items_before(block, 0) == 0,
        n > 0 ==> items_before(block, n as int) == items_before(block, n - 1)
            + if bytes::le16(block, 0x560 + 4 * (n - 1)) != 0 {
            1nat
        } else {
            0nat
        },
    decreases n,
{
    let empty = Set::new(|i: int| 0 <= i < 0 && bytes::le16(block, 0x560 + 4 * i) != 0);
    assert(empty =~= Set::empty());
    let now = Set::new(|i: int| 0 <= i < n && bytes::le16(block, 0x560 + 4 * i) != 0);
    if n > 0 {
        lemma_items(block, (n - 1) as nat);
        let before = Set::new(|i: int| 0 <= i < n - 1 && bytes::le16(block, 0x560 + 4 * i) != 0);
        if bytes::le16(block, 0x560 + 4 * (n - 1)) != 0 {
            assert(now =~= before.insert(n - 1));
        } else {
            assert(now =~= before);
        }
    } else {
        assert(now =~= Set::empty());
    }
}

/// The list holds what the first slots do.
spec fn holds_slots(block: Seq<u8>, key: u32, list: Seq<(u8, u16, u16)>, n: int) -> bool {
    &&& list.len() == items_before(block, n)
    &&& forall|k: int|
        0 <= k < n && #[trigger] bytes::le16(block, 0x560 + 4 * k) != 0 ==> {
            &&& items_before(block, k) < list.len()
            &&& list[items_before(block, k) as int] == slot_entry(block, key, k)
        }
}

/// How many slots the pockets before this one have.
spec fn first_slot(pocket: int) -> int {
    if pocket <= 0 {
        0
    } else if pocket == 1 {
        30
    } else if pocket == 2 {
        60
    } else if pocket == 3 {
        76
    } else if pocket == 4 {
        140
    } else {
        186
    }
}

proof fn lemma_pocket(block: Seq<u8>, key: u32, pocket: int, n: nat)
    requires
        0 <= pocket < 5,
        n <= state::BAG_POCKETS@[pocket].1,
        holds_slots(block, key, state::bag_of(block, key, pocket as nat), first_slot(pocket)),
    ensures
        holds_slots(
            block,
            key,
            state::bag_of(block, key, pocket as nat) + state::pocket_of(block, key, pocket, n),
            first_slot(pocket) + n,
        ),
    decreases n,
{
    let before = state::bag_of(block, key, pocket as nat);
    let k = first_slot(pocket) + n;
    if n > 0 {
        lemma_pocket(block, key, pocket, (n - 1) as nat);
        lemma_items(block, k as nat);
        let was = before + state::pocket_of(block, key, pocket, (n - 1) as nat);
        let now = before + state::pocket_of(block, key, pocket, n);
        assert(state::slot_at(pocket, n - 1) == 0x560 + 4 * (k - 1));
        if bytes::le16(block, 0x560 + 4 * (k - 1)) != 0 {
            assert(now =~= was.push(slot_entry(block, key, k - 1)));
        } else {
            assert(now =~= was);
        }
    } else {
        assert(before + state::pocket_of(block, key, pocket, n) =~= before);
    }
}

proof fn lemma_bag(block: Seq<u8>, key: u32, pockets: nat)
    requires
        pockets <= 5,
    ensures
        holds_slots(block, key, state::bag_of(block, key, pockets), first_slot(pockets as int)),
    decreases pockets,
{
    lemma_items(block, 0);
    if pockets > 0 {
        lemma_bag(block, key, (pockets - 1) as nat);
        lemma_pocket(
            block,
            key,
            pockets - 1,
            state::BAG_POCKETS@[pockets - 1].1 as nat,
        );
    }
}

/// The bag that is read has an entry for each of the 186 slots with an item in it, and no other, in
/// the order of the slots, with its pocket, its item and its quantity, the key taken off.
pub proof fn law_the_whole_bag_is_read(im: Seq<u8>)
    requires
        state::parsed(im) is Some,
    ensures
        ({
            let s = state::parsed(im)->0;
            &&& s.bag.len() == items_before(s.block1, 186)
            &&& forall|k: int|
                0 <= k < 186 && #[trigger] bytes::le16(s.block1, 0x560 + 4 * k) != 0 ==> {
                    &&& items_before(s.block1, k) < s.bag.len()
                    &&& s.bag[items_before(s.block1, k) as int] == slot_entry(
                        s.block1,
                        s.encryption_key,
                        k,
                    )
                }
        }),
{
    let s = state::parsed(im)->0;
    lemma_bag(s.block1, s.encryption_key, 5);
}

// ---------------------------------------------------------------------------------------------
// The rest of SaveBlock1
// ---------------------------------------------------------------------------------------------

/// Money and coins are what stands in the block with the key taken off, and putting the key on again
/// gives what stands in the block.
pub proof fn law_money_is_hidden_by_the_key(im: Seq<u8>)
    requires
        state::parsed(im) is Some,
    ensures
        ({
            let s = state::parsed(im)->0;
            &&& s.money() ^ s.encryption_key == bytes::le32(s.block1, 0x490)
            &&& s.coins() ^ ((s.encryption_key % 0x1_0000) as u16) == bytes::le16(s.block1, 0x494)
        }),
{
    let s = state::parsed(im)->0;
    let (a, k) = (s.money_raw, s.encryption_key);
    assert((a ^ k) ^ k == a) by (bit_vector);
    let c = s.coins_raw;
    assert((c ^ (k as u16)) ^ ((k % 0x1_0000) as u16) == c) by (bit_vector);
}

/// Each field that is kept as the game's own bytes is the part of the block it names, whole; and the
/// variables and the counters are all there, in order, the counters with the key taken off.
pub proof fn law_fields_are_parts_of_the_block(im: Seq<u8>)
    requires
        state::parsed(im) is Some,
    ensures
        ({
            let s = state::parsed(im)->0;
            let b = s.block1;
            &&& b.len() == 15872
            &&& s.flags == b.subrange(4720, 5020)
            &&& s.seen == b.subrange(2440, 2492)
            &&& s.rematches == b.subrange(2504, 2606)
            &&& s.berry_trees == b.subrange(5788, 6812)
            &&& s.vars.len() == 256
            &&& forall|i: int|
                0 <= i < 256 ==> #[trigger] s.vars[i] as int == num(b, 5020 + 2 * i, 2)
            &&& s.game_stats.len() == 64
            &&& forall|i: int|
                0 <= i < 64 ==> #[trigger] s.game_stats[i] ^ s.encryption_key == bytes::le32(
                    b,
                    5532 + 4 * i,
                )
        }),
{
    let s = state::parsed(im)->0;
    let slot = image::newest(im)->0;
    super::image_laws::lemma_held_bytes(im, slot, image::SAVEBLOCK1_SECTORS@);
    assert forall|i: int| 0 <= i < 256 implies #[trigger] s.vars[i] as int == num(
        s.block1,
        5020 + 2 * i,
        2,
    ) by {
        law_numbers_are_little_endian(s.block1, 5020 + 2 * i);
    }
    assert forall|i: int| 0 <= i < 64 implies #[trigger] s.game_stats[i] ^ s.encryption_key
        == bytes::le32(s.block1, 5532 + 4 * i) by {
        let (a, k) = (bytes::le32(s.block1, 0x159C + 4 * i), s.encryption_key);
        assert((a ^ k) ^ k == a) by (bit_vector);
    }
}

// ---------------------------------------------------------------------------------------------
// The slot and its sectors
// ---------------------------------------------------------------------------------------------

/// The sector is signed by the game.
pub open spec fn is_signed(im: Seq<u8>, sector: int) -> bool {
    num(im, sector * 4096 + 4088, 4) == 0x0801_2025
}

/// Every sector of the slot is signed.
pub open spec fn is_whole(im: Seq<u8>, slot: int) -> bool {
    forall|i: int| 0 <= i < 14 ==> #[trigger] is_signed(im, slot * 14 + i)
}

/// The id of a sector, out of its footer.
pub open spec fn id_of(im: Seq<u8>, sector: int) -> int {
    num(im, sector * 4096 + 4084, 2)
}

/// The counter of a sector, out of its footer.
pub open spec fn counter_of(im: Seq<u8>, sector: int) -> int {
    num(im, sector * 4096 + 4092, 4)
}

proof fn lemma_whole(im: Seq<u8>, slot: int)
    requires
        im.len() == 131072,
        0 <= slot < 2,
    ensures
        image::complete(im, slot) == is_whole(im, slot),
{
    assert forall|i: int| 0 <= i < 32 implies #[trigger] image::live(im, i) == is_signed(im, i) by {
        law_numbers_are_little_endian(im, i * 4096 + 4088);
    }
    if image::complete(im, slot) {
        assert forall|i: int| 0 <= i < 14 implies #[trigger] is_signed(im, slot * 14 + i) by {
            assert(image::live(im, slot * 14 + i));
        }
    }
    if is_whole(im, slot) {
        assert forall|j: int| slot * 14 <= j < slot * 14 + 14 implies #[trigger] image::live(
            im,
            j,
        ) by {
            assert(is_signed(im, slot * 14 + (j - slot * 14)));
        }
    }
}

/// The slot that is loaded is whole, and the other one is not newer: it is not whole, or its counter
/// is lower, or the same and it is the second.
pub proof fn law_the_newest_whole_slot_is_loaded(im: Seq<u8>)
    requires
        im.len() == 131072,
    ensures
        match image::newest(im) {
            None => !is_whole(im, 0) && !is_whole(im, 1),
            Some(slot) => {
                let other = 1 - slot;
                &&& slot == 0 || slot == 1
                &&& is_whole(im, slot)
                &&& is_whole(im, other) ==> counter_of(im, other * 14) < counter_of(im, slot * 14)
                    || (counter_of(im, other * 14) == counter_of(im, slot * 14) && other == 1)
            },
        },
{
    lemma_whole(im, 0);
    lemma_whole(im, 1);
    law_numbers_are_little_endian(im, 4092);
    law_numbers_are_little_endian(im, 61436);
}

/// The sector is the first of a slot with this id.
pub open spec fn carries(im: Seq<u8>, slot: int, sector: int, id: int) -> bool {
    &&& slot * 14 <= sector < slot * 14 + 14
    &&& id_of(im, sector) == id
    &&& forall|j: int| slot * 14 <= j < sector ==> #[trigger] id_of(im, j) != id
}

proof fn lemma_carries(im: Seq<u8>, slot: int, id: u16)
    requires
        im.len() == 131072,
        0 <= slot < 2,
        is_whole(im, slot),
    ensures
        match image::sector_of(im, slot, id) {
            Some(at) => carries(im, slot, at, id as int),
            None => forall|j: int|
                slot * 14 <= j < slot * 14 + 14 ==> #[trigger] id_of(im, j) != id,
        },
{
    lemma_whole(im, slot);
    image::lemma_holder(im, slot * 14, slot * 14 + 14, id);
    assert forall|j: int| slot * 14 <= j < slot * 14 + 14 implies #[trigger] id_of(im, j)
        == image::sector_id(im, j) && image::live(im, j) by {
        law_numbers_are_little_endian(im, j * 4096 + 4084);
    }
}

/// A sector of the slot has this id.
pub open spec fn has_sector(im: Seq<u8>, slot: int, id: int) -> bool {
    exists|at: int| slot * 14 <= at < slot * 14 + 14 && #[trigger] id_of(im, at) == id
}

proof fn lemma_has_sector(im: Seq<u8>, slot: int, id: u16)
    requires
        im.len() == 131072,
        0 <= slot < 2,
        is_whole(im, slot),
    ensures
        has_sector(im, slot, id as int) == (image::sector_of(im, slot, id) is Some),
{
    lemma_carries(im, slot, id);
    match image::sector_of(im, slot, id) {
        Some(at) => {
            assert(id_of(im, at) == id);
        },
        None => {
            assert forall|j: int| slot * 14 <= j < slot * 14 + 14 implies #[trigger] id_of(im, j)
                != id as int by {}
        },
    }
}

/// An image is read if and only if it has the size of the flash, a slot of it is whole, and the one
/// that is loaded has a sector for each of the ids 1 to 4.
pub proof fn law_what_can_be_read(im: Seq<u8>)
    ensures
        state::parsed(im) is Some <==> {
            &&& im.len() == 131072
            &&& image::newest(im) is Some
            &&& has_sector(im, image::newest(im)->0, 1)
            &&& has_sector(im, image::newest(im)->0, 2)
            &&& has_sector(im, image::newest(im)->0, 3)
            &&& has_sector(im, image::newest(im)->0, 4)
        },
{
    if im.len() == 131072 && image::newest(im) is Some {
        let slot = image::newest(im)->0;
        let ids = image::SAVEBLOCK1_SECTORS@;
        law_the_newest_whole_slot_is_loaded(im);
        lemma_has_sector(im, slot, 1);
        lemma_has_sector(im, slot, 2);
        lemma_has_sector(im, slot, 3);
        lemma_has_sector(im, slot, 4);
        assert(ids[0] == 1 && ids[1] == 2 && ids[2] == 3 && ids[3] == 4 && ids.len() == 4);
        if image::all_held(im, slot, ids) {
            assert(image::sector_of(im, slot, ids[0]) is Some);
            assert(image::sector_of(im, slot, ids[1]) is Some);
            assert(image::sector_of(im, slot, ids[2]) is Some);
            assert(image::sector_of(im, slot, ids[3]) is Some);
        } else {
            let n = choose|n: int|
                0 <= n < ids.len() && !((#[trigger] image::sector_of(im, slot, ids[n])) is Some);
            assert(n == 0 || n == 1 || n == 2 || n == 3);
        }
    }
}

/// The block that is read is made of what the sectors with the ids 1 to 4 hold, in the order of the
/// ids, 3968 bytes of each; and the key is the one in the sector with the id 0, or zero where there
/// is none.
pub proof fn law_the_block_is_put_together_by_id(im: Seq<u8>, id: int, at: int)
    requires
        state::parsed(im) is Some,
        carries(im, image::newest(im)->0, at, id),
        0 <= id <= 4,
    ensures
        ({
            let s = state::parsed(im)->0;
            &&& id > 0 ==> s.block1.subrange(3968 * (id - 1), 3968 * id) == im.subrange(
                4096 * at,
                4096 * at + 3968,
            )
            &&& id == 0 ==> s.encryption_key as int == num(im, 4096 * at + 172, 4)
        }),
{
    let s = state::parsed(im)->0;
    let slot = image::newest(im)->0;
    let ids = image::SAVEBLOCK1_SECTORS@;
    law_the_newest_whole_slot_is_loaded(im);
    lemma_carries(im, slot, id as u16);
    match image::sector_of(im, slot, id as u16) {
        Some(found) => {
            if found < at {
                assert(id_of(im, found) != id);
            }
            if at < found {
                assert(id_of(im, at) != id);
            }
        },
        None => {
            assert(id_of(im, at) != id);
        },
    }
    if id > 0 {
        super::image_laws::lemma_held_bytes(im, slot, ids);
        assert(ids[id - 1] == id as u16);
        assert(image::chunk_of(s.block1, id - 1) == image::sector_data(im, at));
        assert(s.block1.subrange(3968 * (id - 1), 3968 * id) =~= image::chunk_of(
            s.block1,
            id - 1,
        ));
        assert(im.subrange(4096 * at, 4096 * at + 3968) =~= image::sector_data(im, at));
    } else {
        law_numbers_are_little_endian(im, 4096 * at + 172);
    }
}

/// Without a sector of the id 0 there is no key to take off.
pub proof fn law_no_sector_no_key(im: Seq<u8>)
    requires
        state::parsed(im) is Some,
        forall|j: int|
            image::newest(im)->0 * 14 <= j < image::newest(im)->0 * 14 + 14 ==> #[trigger] id_of(
                im,
                j,
            ) != 0,
    ensures
        state::parsed(im)->0.encryption_key == 0,
{
    let slot = image::newest(im)->0;
    law_the_newest_whole_slot_is_loaded(im);
    lemma_carries(im, slot, 0);
}

// ---------------------------------------------------------------------------------------------
// Checksums
// ---------------------------------------------------------------------------------------------

proof fn lemma_word_sum(data: Seq<u8>, words: nat)
    ensures
        image::word_sum(data, words) as int == Seq::new(
            words,
            |k: int| num(data, 4 * k, 4),
        ).fold_left(0int, |sum: int, word: int| sum + word),
    decreases words,
{
    let all = Seq::new(words, |k: int| num(data, 4 * k, 4));
    if words > 0 {
        lemma_word_sum(data, (words - 1) as nat);
        law_numbers_are_little_endian(data, 4 * (words - 1));
        assert(all.drop_last() =~= Seq::new((words - 1) as nat, |k: int| num(data, 4 * k, 4)));
        assert(all.last() == num(data, 4 * (words - 1), 4));
    }
}

/// The checksum of a sector: the words are added up, the sum is kept to thirty-two bits, and its two
/// halves are added and kept to sixteen.
pub proof fn law_checksums_add_words_and_halves(data: Seq<u8>, words: nat)
    ensures
        ({
            let sum = Seq::new(words, |k: int| num(data, 4 * k, 4)).fold_left(
                0int,
                |sum: int, word: int| sum + word,
            );
            let kept = sum % 0x1_0000_0000;
            let (high, low) = (kept / 0x1_0000, kept % 0x1_0000);
            image::checksum_of(data, 4 * words as int) as int == (high + low) % 0x1_0000
        }),
{
    lemma_word_sum(data, words);
    let sum = image::word_sum(data, words);
    assert(sum % 0x1_0000_0000 % 0x1_0000 == sum % 0x1_0000);
}

} // verus!
