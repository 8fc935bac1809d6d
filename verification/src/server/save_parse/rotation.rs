//! Sectors are found by the id in their footer, never by their position.
//!
//! The game moves the sectors of a slot around on every write, to spread the wear of the flash. What
//! an image says does not depend on where they came to stand.

use super::image;
use super::image::SAVEBLOCK1_SECTORS;
use super::state;
use crate::bytes;
use vstd::prelude::*;

verus! {

/// An order of the fourteen sectors of a slot: each place is named once.
pub open spec fn is_order(p: Seq<int>) -> bool {
    &&& p.len() == 14
    &&& p.no_duplicates()
    &&& forall|i: int| 0 <= i < 14 ==> 0 <= #[trigger] p[i] < 14
}

/// Which sector of the old image stands at a place of the new one.
pub open spec fn source(slot: int, p: Seq<int>, i: int) -> int {
    if slot * 14 <= i < slot * 14 + 14 {
        slot * 14 + p[i - slot * 14]
    } else {
        i
    }
}

/// An image with the whole sectors of a slot, footers and all, put into another order.
pub open spec fn permuted(im: Seq<u8>, slot: int, p: Seq<int>) -> Seq<u8> {
    Seq::new(im.len(), |b: int| im[source(slot, p, b / 4096) * 4096 + b % 4096])
}

/// No two sectors of a slot carry the same id.
pub open spec fn ids_once(im: Seq<u8>, slot: int) -> bool {
    forall|i: int, j: int|
        slot * 14 <= i < slot * 14 + 14 && slot * 14 <= j < slot * 14 + 14 && i != j
            ==> #[trigger] image::sector_id(im, i) != #[trigger] image::sector_id(im, j)
}

/// All sectors of a slot carry the same counter, as those of one write do.
pub open spec fn one_counter(im: Seq<u8>, slot: int) -> bool {
    forall|i: int|
        slot * 14 <= i < slot * 14 + 14 ==> #[trigger] image::sector_counter(im, i)
            == image::sector_counter(im, slot * 14)
}

/// Every sector of a slot stands somewhere in the new order.
proof fn lemma_placed(p: Seq<int>, j: int) -> (i: int)
    requires
        is_order(p),
        0 <= j < 14,
    ensures
        0 <= i < 14,
        p[i] == j,
{
    let all = vstd::set_lib::set_int_range(0, 14);
    vstd::set_lib::lemma_int_range(0, 14);
    p.unique_seq_to_set();
    assert(p.to_set().subset_of(all));
    vstd::set_lib::lemma_subset_equality(p.to_set(), all);
    assert(all.contains(j));
    assert(p.to_set().contains(j));
    assert(p.contains(j));
    choose|i: int| 0 <= i < 14 && p[i] == j
}

/// A sector says the same wherever it stands.
proof fn lemma_sector_moves(im: Seq<u8>, slot: int, p: Seq<int>, i: int)
    requires
        im.len() == 32 * 4096,
        0 <= slot < 2,
        is_order(p),
        0 <= i < 32,
    ensures
        ({
            let out = permuted(im, slot, p);
            let from = source(slot, p, i);
            &&& 0 <= from < 32
            &&& slot * 14 <= i < slot * 14 + 14 <==> slot * 14 <= from < slot * 14 + 14
            &&& image::live(out, i) == image::live(im, from)
            &&& image::sector_id(out, i) == image::sector_id(im, from)
            &&& image::sector_counter(out, i) == image::sector_counter(im, from)
            &&& image::sector_data(out, i) == image::sector_data(im, from)
            &&& bytes::le32(out, i * 4096 + 0xAC) == bytes::le32(im, from * 4096 + 0xAC)
        }),
{
    let out = permuted(im, slot, p);
    let from = source(slot, p, i);
    if slot * 14 <= i < slot * 14 + 14 {
        assert(0 <= p[i - slot * 14] < 14);
    }
    assert forall|k: int| 0 <= k < 4096 implies #[trigger] out[i * 4096 + k] == im[from * 4096
        + k] by {
        assert((i * 4096 + k) / 4096 == i);
        assert((i * 4096 + k) % 4096 == k);
    }
    let (a, b) = (i * 4096, from * 4096);
    assert forall|k: int| 0 <= k < 2 implies #[trigger] out[a + 4084 + k] == im[b + 4084 + k] by {
        assert(out[a + (4084 + k)] == im[b + (4084 + k)]);
    }
    bytes::lemma_le_agree(out, a + 4084, im, b + 4084, 2);
    assert forall|k: int| 0 <= k < 4 implies #[trigger] out[a + 4088 + k] == im[b + 4088 + k] by {
        assert(out[a + (4088 + k)] == im[b + (4088 + k)]);
    }
    bytes::lemma_le_agree(out, a + 4088, im, b + 4088, 4);
    assert forall|k: int| 0 <= k < 4 implies #[trigger] out[a + 4092 + k] == im[b + 4092 + k] by {
        assert(out[a + (4092 + k)] == im[b + (4092 + k)]);
    }
    bytes::lemma_le_agree(out, a + 4092, im, b + 4092, 4);
    assert forall|k: int| 0 <= k < 4 implies #[trigger] out[a + 0xAC + k] == im[b + 0xAC + k] by {
        assert(out[a + (0xAC + k)] == im[b + (0xAC + k)]);
    }
    bytes::lemma_le_agree(out, a + 0xAC, im, b + 0xAC, 4);
    assert(image::sector_data(out, i) =~= image::sector_data(im, from)) by {
        assert forall|k: int| 0 <= k < 3968 implies image::sector_data(out, i)[k]
            == image::sector_data(im, from)[k] by {
            assert(out[i * 4096 + k] == im[from * 4096 + k]);
        }
    }
}

/// A slot is as complete as it was.
proof fn lemma_complete(im: Seq<u8>, slot: int, p: Seq<int>, s: int)
    requires
        im.len() == 32 * 4096,
        0 <= slot < 2,
        0 <= s < 2,
        is_order(p),
    ensures
        image::complete(permuted(im, slot, p), s) == image::complete(im, s),
{
    let out = permuted(im, slot, p);
    if image::complete(im, s) {
        assert forall|i: int| s * 14 <= i < s * 14 + 14 implies #[trigger] image::live(out, i) by {
            lemma_sector_moves(im, slot, p, i);
            assert(image::live(im, source(slot, p, i)));
        }
    }
    if image::complete(out, s) {
        assert forall|j: int| s * 14 <= j < s * 14 + 14 implies #[trigger] image::live(im, j) by {
            let i = lemma_where(slot, p, j);
            lemma_sector_moves(im, slot, p, i);
            assert(image::live(out, i));
        }
    }
}

/// Where a sector of the old image stands in the new one.
proof fn lemma_where(slot: int, p: Seq<int>, j: int) -> (i: int)
    requires
        0 <= slot < 2,
        is_order(p),
        0 <= j < 28,
    ensures
        0 <= i < 28,
        source(slot, p, i) == j,
        forall|s: int| #![trigger s * 14]
            s * 14 <= j < s * 14 + 14 && 0 <= s < 2 ==> s * 14 <= i < s * 14 + 14,
{
    if slot * 14 <= j < slot * 14 + 14 {
        slot * 14 + lemma_placed(p, j - slot * 14)
    } else {
        j
    }
}

/// A slot is chosen as it was.
proof fn lemma_newest(im: Seq<u8>, slot: int, p: Seq<int>)
    requires
        im.len() == 32 * 4096,
        0 <= slot < 2,
        is_order(p),
        one_counter(im, slot),
    ensures
        image::newest(permuted(im, slot, p)) == image::newest(im),
{
    lemma_complete(im, slot, p, 0);
    lemma_complete(im, slot, p, 1);
    lemma_sector_moves(im, slot, p, 0);
    lemma_sector_moves(im, slot, p, 14);
    let from = source(slot, p, slot * 14);
    assert(image::sector_counter(im, from) == image::sector_counter(im, slot * 14));
}

/// The sector with an id is the one it was, at its new place.
proof fn lemma_sector_of(im: Seq<u8>, slot: int, p: Seq<int>, s: int, want: u16)
    requires
        im.len() == 32 * 4096,
        0 <= slot < 2,
        0 <= s < 2,
        is_order(p),
        ids_once(im, slot),
    ensures
        match (
            image::sector_of(permuted(im, slot, p), s, want),
            image::sector_of(im, s, want),
        ) {
            (Some(i), Some(j)) => 0 <= i < 28 && source(slot, p, i) == j,
            (None, None) => true,
            _ => false,
        },
{
    let out = permuted(im, slot, p);
    image::lemma_holder(out, s * 14, s * 14 + 14, want);
    image::lemma_holder(im, s * 14, s * 14 + 14, want);
    match image::sector_of(im, s, want) {
        Some(j) => {
            let i = lemma_where(slot, p, j);
            lemma_sector_moves(im, slot, p, i);
            assert(image::live(out, i));
            let found = image::sector_of(out, s, want)->0;
            lemma_sector_moves(im, slot, p, found);
            let from = source(slot, p, found);
            assert(image::live(im, from) && image::sector_id(im, from) == want);
            if s == slot {
                assert(from == j);
            } else {
                assert(found == from && i == j);
                if found < j {
                    assert(image::live(im, found));
                } else if j < found {
                    assert(image::live(out, j));
                }
            }
        },
        None => {
            match image::sector_of(out, s, want) {
                Some(i) => {
                    lemma_sector_moves(im, slot, p, i);
                    assert(image::live(im, source(slot, p, i)));
                },
                None => {},
            }
        },
    }
}

proof fn lemma_blocks(im: Seq<u8>, slot: int, p: Seq<int>, s: int, sectors: Seq<u16>)
    requires
        im.len() == 32 * 4096,
        0 <= slot < 2,
        0 <= s < 2,
        is_order(p),
        ids_once(im, slot),
    ensures
        image::all_held(permuted(im, slot, p), s, sectors) == image::all_held(im, s, sectors),
        image::all_held(im, s, sectors) ==> image::held_bytes(permuted(im, slot, p), s, sectors)
            == image::held_bytes(im, s, sectors),
    decreases sectors.len(),
{
    let out = permuted(im, slot, p);
    assert forall|n: int| 0 <= n < sectors.len() implies (#[trigger] image::sector_of(
        out,
        s,
        sectors[n],
    ) is Some) == (image::sector_of(im, s, sectors[n]) is Some) by {
        lemma_sector_of(im, slot, p, s, sectors[n]);
    }
    if image::all_held(out, s, sectors) {
        assert forall|n: int| 0 <= n < sectors.len() implies (#[trigger] image::sector_of(
            im,
            s,
            sectors[n],
        )) is Some by {
            assert(image::sector_of(out, s, sectors[n]) is Some);
        }
    }
    if image::all_held(im, s, sectors) && sectors.len() > 0 {
        let init = sectors.drop_last();
        assert forall|n: int| 0 <= n < init.len() implies (#[trigger] image::sector_of(
            im,
            s,
            init[n],
        )) is Some by {
            assert(init[n] == sectors[n]);
        }
        lemma_blocks(im, slot, p, s, init);
        let last = sectors.last();
        assert(sectors[sectors.len() - 1] == last);
        assert(image::sector_of(im, s, last) is Some);
        lemma_sector_of(im, slot, p, s, last);
        lemma_sector_moves(im, slot, p, image::sector_of(out, s, last)->0);
    }
}

/// Moving the whole sectors of a slot around leaves what the image says as it was, where each id
/// stands once in that slot and its sectors carry one counter: sectors are found by their id, never
/// by their position.
pub proof fn law_position_of_sectors_does_not_matter(im: Seq<u8>, slot: int, p: Seq<int>)
    requires
        0 <= slot < 2,
        is_order(p),
        ids_once(im, slot),
        one_counter(im, slot),
    ensures
        state::parsed(permuted(im, slot, p)) == state::parsed(im),
{
    if im.len() == 32 * 4096 {
        let out = permuted(im, slot, p);
        lemma_newest(im, slot, p);
        match image::newest(im) {
            Some(s) => {
                lemma_blocks(im, slot, p, s, SAVEBLOCK1_SECTORS@);
                lemma_sector_of(im, slot, p, s, state::SAVEBLOCK2_SECTOR);
                match image::sector_of(out, s, state::SAVEBLOCK2_SECTOR) {
                    Some(i) => {
                        lemma_sector_moves(im, slot, p, i);
                    },
                    None => {},
                }
                assert(state::key_of(out, s) == state::key_of(im, s));
                assert(image::block_of(out, SAVEBLOCK1_SECTORS@) == image::block_of(
                    im,
                    SAVEBLOCK1_SECTORS@,
                ));
            },
            None => {},
        }
    }
}

} // verus!
