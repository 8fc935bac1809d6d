//! What writing a block does to the rest of an image, and what reading finds afterwards.

use super::image;
use super::image::SAVEBLOCK1_SECTORS;
use crate::bytes;
use vstd::prelude::*;

verus! {

/// A size that was recovered is at most the bound and reproduces the checksum.
pub proof fn lemma_size_within(data: Seq<u8>, stored: u16, words: nat)
    ensures
        match image::size_within(data, stored, words) {
            Some(size) => 0 <= size <= 4 * words && image::checksum_of(data, size) == stored,
            None => true,
        },
    decreases words,
{
    if words > 0 {
        lemma_size_within(data, stored, (words - 1) as nat);
    }
}

/// The size under a sector's checksum is the largest whole number of words that reproduces it,
/// and none is recovered only where no size does.
pub proof fn law_declared_size_is_the_largest(data: Seq<u8>, stored: u16, words: nat, k: nat)
    requires
        k <= words,
        image::checksum_of(data, 4 * k as int) == stored,
    ensures
        image::size_within(data, stored, words) matches Some(size) && size >= 4 * k,
    decreases words,
{
    if words > k {
        law_declared_size_is_the_largest(data, stored, (words - 1) as nat, k);
    }
}

/// A block is as long as its sectors together, and holds each of them in its place.
pub proof fn lemma_held_bytes(im: Seq<u8>, slot: int, sectors: Seq<u16>)
    requires
        0 <= slot < 2,
        image::all_held(im, slot, sectors),
    ensures
        image::held_bytes(im, slot, sectors).len() == sectors.len() * 3968,
        forall|n: int|
            0 <= n < sectors.len() ==> #[trigger] image::chunk_of(
                image::held_bytes(im, slot, sectors),
                n,
            ) == image::sector_data(im, image::sector_of(im, slot, sectors[n])->0),
    decreases sectors.len(),
{
    if sectors.len() > 0 {
        let init = sectors.drop_last();
        assert forall|n: int| 0 <= n < init.len() implies (#[trigger] image::sector_of(
            im,
            slot,
            init[n],
        )) is Some by {
            assert(init[n] == sectors[n]);
        }
        lemma_held_bytes(im, slot, init);
        let all = image::held_bytes(im, slot, sectors);
        let part = image::held_bytes(im, slot, init);
        let m = sectors.len() - 1;
        assert(sectors[m] == sectors.last());
        assert(image::sector_of(im, slot, sectors[m]) is Some);
        image::lemma_holder(im, slot * 14, slot * 14 + 14, sectors[m]);
        let last = image::sector_data(im, image::sector_of(im, slot, sectors.last())->0);
        assert(last.len() == 3968);
        assert forall|n: int| 0 <= n < sectors.len() implies #[trigger] image::chunk_of(all, n)
            == image::sector_data(im, image::sector_of(im, slot, sectors[n])->0) by {
            if n < m {
                assert(init[n] == sectors[n]);
                assert(image::chunk_of(all, n) =~= image::chunk_of(part, n));
            } else {
                assert(image::chunk_of(all, n) =~= last);
            }
        }
    }
}

/// Two byte sequences that are made of the same chunks are the same.
proof fn lemma_same_chunks(a: Seq<u8>, b: Seq<u8>, n: nat)
    requires
        a.len() == n * 3968,
        b.len() == n * 3968,
        forall|k: int| 0 <= k < n ==> #[trigger] image::chunk_of(a, k) == image::chunk_of(b, k),
    ensures
        a == b,
{
    assert forall|p: int| 0 <= p < a.len() implies a[p] == b[p] by {
        let k = p / 3968;
        let q = p % 3968;
        assert(0 <= k < n);
        assert(image::chunk_of(a, k) == image::chunk_of(b, k));
        assert(image::chunk_of(a, k)[q] == a[p]);
        assert(image::chunk_of(b, k)[q] == b[p]);
    }
    assert(a =~= b);
}

/// Writing a sector what it already holds changes nothing.
proof fn lemma_same_sector(im: Seq<u8>, index: int)
    requires
        0 <= index < 32,
        im.len() == 32 * 4096,
        image::size_of_sector(im, index) is Some,
    ensures
        image::with_sector(im, im, index, image::sector_data(im, index)) == im,
{
    let data = image::sector_data(im, index);
    let stored = image::sector_checksum(im, index);
    lemma_size_within(data, stored, 992);
    assert(bytes::overlay(im, index * 4096, data) =~= im);
    bytes::lemma_le16_restores(im, index * 4096 + 4086);
}

proof fn lemma_rewritten(im: Seq<u8>, slot: int, sectors: Seq<u16>, n: nat)
    requires
        0 <= slot < 2,
        im.len() == 32 * 4096,
        n <= sectors.len(),
        image::all_held(im, slot, sectors),
        forall|k: int| 0 <= k < sectors.len() ==> #[trigger] image::writable(im, slot, sectors[k]),
    ensures
        image::written(im, slot, sectors, image::held_bytes(im, slot, sectors), n) == im,
    decreases n,
{
    if n > 0 {
        lemma_rewritten(im, slot, sectors, (n - 1) as nat);
        lemma_held_bytes(im, slot, sectors);
        assert(image::writable(im, slot, sectors[n - 1]));
        image::lemma_holder(im, slot * 14, slot * 14 + 14, sectors[n - 1]);
        lemma_same_sector(im, image::sector_of(im, slot, sectors[n - 1])->0);
    }
}

/// Whatever can be written can be read first.
proof fn lemma_writable_is_held(im: Seq<u8>, slot: int, sectors: Seq<u16>)
    requires
        forall|k: int| 0 <= k < sectors.len() ==> #[trigger] image::writable(im, slot, sectors[k]),
    ensures
        image::all_held(im, slot, sectors),
{
    assert forall|n: int| 0 <= n < sectors.len() implies (#[trigger] image::sector_of(
        im,
        slot,
        sectors[n],
    )) is Some by {
        assert(image::writable(im, slot, sectors[n]));
    }
}

/// Writing back the block that an image holds gives the image, byte for byte.
pub proof fn law_rewriting_changes_nothing(im: Seq<u8>, sectors: Seq<u16>, data: Seq<u8>)
    requires
        image::block_of(im, sectors) == Some(data),
        image::with_block(im, sectors, data) is Some,
    ensures
        image::with_block(im, sectors, data) == Some(im),
{
    lemma_rewritten(im, image::newest(im)->0, sectors, sectors.len());
}

/// Comparing the image with itself rewritten refuses nothing that could have been written: the
/// rewritten image never differs.
pub proof fn law_authoring_is_faithful(im: Seq<u8>, sectors: Seq<u16>, data: Seq<u8>)
    ensures
        image::reauthored(im, sectors, data) == image::with_block(im, sectors, data),
{
    if image::with_block(im, sectors, data) is Some {
        let slot = image::newest(im)->0;
        lemma_writable_is_held(im, slot, sectors);
        lemma_held_bytes(im, slot, sectors);
        law_rewriting_changes_nothing(im, sectors, image::held_bytes(im, slot, sectors));
    }
}

/// No two of the ids are the same.
pub open spec fn distinct(sectors: Seq<u16>) -> bool {
    forall|a: int, b: int|
        0 <= a < b < sectors.len() ==> #[trigger] sectors[a] != #[trigger] sectors[b]
}

/// The two images agree on everything but what the sectors hold and the checksums over it.
pub open spec fn same_footers(a: Seq<u8>, b: Seq<u8>) -> bool {
    &&& a.len() == b.len()
    &&& forall|index: int, off: int|
        0 <= index < 32 && (3968 <= off < 4086 || 4088 <= off < 4096) ==> #[trigger] a[index * 4096
            + off] == b[index * 4096 + off]
}

/// The two images agree on the whole of this sector.
pub open spec fn same_sector(a: Seq<u8>, b: Seq<u8>, index: int) -> bool {
    forall|p: int| index * 4096 <= p < index * 4096 + 4096 ==> #[trigger] a[p] == b[p]
}

/// Where the same sectors are signed, the same slots are complete.
proof fn lemma_same_complete(a: Seq<u8>, b: Seq<u8>)
    requires
        forall|i: int| 0 <= i < 28 ==> #[trigger] image::live(b, i) == image::live(a, i),
    ensures
        image::complete(b, 0) == image::complete(a, 0),
        image::complete(b, 1) == image::complete(a, 1),
{
    assert forall|i: int| 0 <= i < 28 implies #[trigger] image::live(a, i) == image::live(
        b,
        i,
    ) by {
        assert(image::live(b, i) == image::live(a, i));
    }
}

/// Images with the same footers have the same slots, and the same sectors in them.
pub proof fn lemma_same_footers(a: Seq<u8>, b: Seq<u8>)
    requires
        a.len() == 32 * 4096,
        same_footers(a, b),
    ensures
        forall|i: int| 0 <= i < 32 ==> #[trigger] image::live(b, i) == image::live(a, i),
        forall|i: int| 0 <= i < 32 ==> #[trigger] image::sector_id(b, i) == image::sector_id(a, i),
        image::newest(b) == image::newest(a),
{
    assert forall|i: int| 0 <= i < 32 implies {
        &&& #[trigger] image::sector_id(b, i) == image::sector_id(a, i)
        &&& image::sector_signature(b, i) == image::sector_signature(a, i)
        &&& image::sector_counter(b, i) == image::sector_counter(a, i)
    } by {
        assert(a[i * 4096 + 4084] == b[i * 4096 + 4084]);
        assert(a[i * 4096 + 4085] == b[i * 4096 + 4085]);
        assert(a[i * 4096 + 4088] == b[i * 4096 + 4088]);
        assert(a[i * 4096 + 4089] == b[i * 4096 + 4089]);
        assert(a[i * 4096 + 4090] == b[i * 4096 + 4090]);
        assert(a[i * 4096 + 4091] == b[i * 4096 + 4091]);
        assert(a[i * 4096 + 4092] == b[i * 4096 + 4092]);
        assert(a[i * 4096 + 4093] == b[i * 4096 + 4093]);
        assert(a[i * 4096 + 4094] == b[i * 4096 + 4094]);
        assert(a[i * 4096 + 4095] == b[i * 4096 + 4095]);
    }
    assert forall|i: int| 0 <= i < 32 implies #[trigger] image::live(b, i) == image::live(a, i) by {
        assert(image::sector_id(b, i) == image::sector_id(a, i));
    }
    assert(image::sector_id(b, 0) == image::sector_id(a, 0));
    assert(image::sector_id(b, 14) == image::sector_id(a, 14));
    lemma_same_complete(a, b);
}

/// Where the footers agree, the same sector carries an id.
pub proof fn lemma_same_holder(a: Seq<u8>, b: Seq<u8>, from: int, end: int, want: u16)
    requires
        a.len() == 32 * 4096,
        same_footers(a, b),
        0 <= from,
        end <= 32,
    ensures
        image::holder(b, from, end, want) == image::holder(a, from, end, want),
    decreases end - from,
{
    lemma_same_footers(a, b);
    if from < end {
        assert(image::live(b, from) == image::live(a, from));
        assert(image::sector_id(b, from) == image::sector_id(a, from));
        lemma_same_holder(a, b, from + 1, end, want);
    }
}

/// Writing a sector keeps every footer and every other sector.
proof fn lemma_with_sector(im: Seq<u8>, out: Seq<u8>, index: int, chunk: Seq<u8>)
    requires
        im.len() == 32 * 4096,
        out.len() == im.len(),
        0 <= index < 32,
        chunk.len() == 3968,
    ensures
        same_footers(out, image::with_sector(im, out, index, chunk)),
        forall|i: int|
            0 <= i < 32 && i != index ==> #[trigger] same_sector(
                out,
                image::with_sector(im, out, index, chunk),
                i,
            ),
        image::sector_data(image::with_sector(im, out, index, chunk), index) == chunk,
{
    let next = image::with_sector(im, out, index, chunk);
    assert(image::sector_data(next, index) =~= chunk);
}

/// What writing the first `n` sectors of a block does to an image.
pub proof fn lemma_written(im: Seq<u8>, slot: int, sectors: Seq<u16>, data: Seq<u8>, n: nat)
    requires
        0 <= slot < 2,
        im.len() == 32 * 4096,
        data.len() == sectors.len() * 3968,
        n <= sectors.len(),
        image::all_held(im, slot, sectors),
    ensures
        same_footers(im, image::written(im, slot, sectors, data, n)),
        forall|i: int|
            0 <= i < 32 && (forall|k: int|
                0 <= k < n ==> #[trigger] image::sector_of(im, slot, sectors[k]) != Some(i))
                ==> #[trigger] same_sector(im, image::written(im, slot, sectors, data, n), i),
        distinct(sectors) ==> forall|k: int|
            0 <= k < n ==> #[trigger] image::sector_data(
                image::written(im, slot, sectors, data, n),
                image::sector_of(im, slot, sectors[k])->0,
            ) == image::chunk_of(data, k),
    decreases n,
{
    if n > 0 {
        let m = (n - 1) as nat;
        lemma_written(im, slot, sectors, data, m);
        let prev = image::written(im, slot, sectors, data, m);
        let next = image::written(im, slot, sectors, data, n);
        let chunk = image::chunk_of(data, m as int);
        assert(image::sector_of(im, slot, sectors[m as int]) is Some);
        let index = image::sector_of(im, slot, sectors[m as int])->0;
        image::lemma_holder(im, slot * 14, slot * 14 + 14, sectors[m as int]);
        lemma_with_sector(im, prev, index, chunk);
        assert forall|i: int|
            0 <= i < 32 && (forall|k: int|
                0 <= k < n ==> #[trigger] image::sector_of(im, slot, sectors[k]) != Some(
                    i,
                )) implies #[trigger] same_sector(im, next, i) by {
            assert(image::sector_of(im, slot, sectors[m as int]) != Some(i));
            assert(same_sector(im, prev, i));
            assert(same_sector(prev, next, i));
        }
        if distinct(sectors) {
            assert forall|k: int| 0 <= k < n implies #[trigger] image::sector_data(
                next,
                image::sector_of(im, slot, sectors[k])->0,
            ) == image::chunk_of(data, k) by {
                if k < m {
                    assert(sectors[k] != sectors[m as int]);
                    assert(image::sector_of(im, slot, sectors[k]) is Some);
                    image::lemma_holder(im, slot * 14, slot * 14 + 14, sectors[k]);
                    let at = image::sector_of(im, slot, sectors[k])->0;
                    assert(at != index);
                    assert(same_sector(prev, next, at));
                    assert(image::sector_data(prev, at) == image::chunk_of(data, k));
                    assert(image::sector_data(next, at) =~= image::sector_data(prev, at));
                }
            }
        }
    }
}

/// What was written is what is read: after a block has been replaced, reading it gives the
/// replacement.
pub proof fn law_read_gives_back_what_was_written(
    im: Seq<u8>,
    sectors: Seq<u16>,
    data: Seq<u8>,
    out: Seq<u8>,
)
    requires
        distinct(sectors),
        image::with_block(im, sectors, data) == Some(out),
    ensures
        image::block_of(out, sectors) == Some(data),
{
    let slot = image::newest(im)->0;
    lemma_writable_is_held(im, slot, sectors);
    lemma_written(im, slot, sectors, data, sectors.len());
    lemma_same_footers(im, out);
    assert forall|n: int| 0 <= n < sectors.len() implies (#[trigger] image::sector_of(
        out,
        slot,
        sectors[n],
    )) == image::sector_of(im, slot, sectors[n]) && image::sector_of(
        im,
        slot,
        sectors[n],
    ) is Some by {
        assert(image::sector_of(im, slot, sectors[n]) is Some);
        lemma_same_holder(im, out, slot * 14, slot * 14 + 14, sectors[n]);
    }
    assert(image::all_held(out, slot, sectors));
    lemma_held_bytes(out, slot, sectors);
    let got = image::held_bytes(out, slot, sectors);
    assert forall|k: int| 0 <= k < sectors.len() implies #[trigger] image::chunk_of(got, k)
        == image::chunk_of(data, k) by {
        assert(image::sector_of(out, slot, sectors[k]) == image::sector_of(im, slot, sectors[k]));
        assert(image::sector_data(out, image::sector_of(im, slot, sectors[k])->0)
            == image::chunk_of(data, k));
    }
    lemma_same_chunks(got, data, sectors.len());
}

/// Replacing one block leaves every other block as it was.
pub proof fn law_other_blocks_are_untouched(
    im: Seq<u8>,
    sectors: Seq<u16>,
    data: Seq<u8>,
    out: Seq<u8>,
    others: Seq<u16>,
)
    requires
        image::with_block(im, sectors, data) == Some(out),
        forall|a: int, b: int|
            0 <= a < sectors.len() && 0 <= b < others.len() ==> #[trigger] sectors[a]
                != #[trigger] others[b],
    ensures
        image::block_of(out, others) == image::block_of(im, others),
{
    let slot = image::newest(im)->0;
    lemma_writable_is_held(im, slot, sectors);
    lemma_written(im, slot, sectors, data, sectors.len());
    lemma_same_footers(im, out);
    assert forall|n: int| 0 <= n < others.len() implies (#[trigger] image::sector_of(
        out,
        slot,
        others[n],
    )) == image::sector_of(im, slot, others[n]) by {
        lemma_same_holder(im, out, slot * 14, slot * 14 + 14, others[n]);
    }
    if image::all_held(im, slot, others) {
        assert forall|n: int| 0 <= n < others.len() implies (#[trigger] image::sector_of(
            out,
            slot,
            others[n],
        )) is Some by {
            assert(image::sector_of(im, slot, others[n]) is Some);
        }
        lemma_held_bytes(im, slot, others);
        lemma_held_bytes(out, slot, others);
        let got = image::held_bytes(out, slot, others);
        let had = image::held_bytes(im, slot, others);
        assert forall|k: int| 0 <= k < others.len() implies #[trigger] image::chunk_of(got, k)
            == image::chunk_of(had, k) by {
            assert(image::sector_of(out, slot, others[k]) == image::sector_of(im, slot, others[k]));
            assert(image::sector_of(im, slot, others[k]) is Some);
            image::lemma_holder(im, slot * 14, slot * 14 + 14, others[k]);
            let at = image::sector_of(im, slot, others[k])->0;
            assert forall|j: int| 0 <= j < sectors.len() implies #[trigger] image::sector_of(
                im,
                slot,
                sectors[j],
            ) != Some(at) by {
                assert(sectors[j] != others[k]);
                image::lemma_holder(im, slot * 14, slot * 14 + 14, sectors[j]);
            }
            assert(same_sector(im, out, at));
            assert(image::sector_data(out, at) =~= image::sector_data(im, at));
        }
        lemma_same_chunks(got, had, others.len());
    } else {
        let n = choose|n: int|
            0 <= n < others.len() && !((#[trigger] image::sector_of(im, slot, others[n])) is Some);
        assert(image::sector_of(out, slot, others[n]) is None);
    }
}

/// Replacing the tail leaves every block as it was: the slots and what they hold are elsewhere.
pub proof fn law_tail_leaves_blocks_untouched(
    im: Seq<u8>,
    tail: Seq<u8>,
    out: Seq<u8>,
    sectors: Seq<u16>,
)
    requires
        image::tail_replaced(im, tail) == Some(out),
    ensures
        image::block_of(out, sectors) == image::block_of(im, sectors),
        out.subrange(0x1_C000, 0x2_0000) == tail,
{
    assert(out.subrange(0x1_C000, 0x2_0000) =~= tail);
    lemma_same_slots(im, out, sectors);
}

/// Replacing the tail leaves the slots, and the sector that carries each id in them.
pub proof fn lemma_tail_keeps_slots(im: Seq<u8>, tail: Seq<u8>, out: Seq<u8>)
    requires
        image::tail_replaced(im, tail) == Some(out),
    ensures
        image::newest(out) == image::newest(im),
        forall|slot: int, want: u16|
            0 <= slot < 2 ==> #[trigger] image::sector_of(out, slot, want) == image::sector_of(
                im,
                slot,
                want,
            ),
{
    lemma_same_slots(im, out, Seq::empty());
    assert forall|slot: int, want: u16| 0 <= slot < 2 implies #[trigger] image::sector_of(
        out,
        slot,
        want,
    ) == image::sector_of(im, slot, want) by {
        lemma_same_slot_holder(im, out, slot * 14, slot * 14 + 14, want);
    }
}

/// Two images that agree on the sectors of both slots hold the same blocks.
proof fn lemma_same_slots(a: Seq<u8>, b: Seq<u8>, sectors: Seq<u16>)
    requires
        a.len() == 32 * 4096,
        b.len() == a.len(),
        forall|p: int| 0 <= p < 28 * 4096 ==> #[trigger] a[p] == b[p],
    ensures
        image::block_of(b, sectors) == image::block_of(a, sectors),
        image::newest(b) == image::newest(a),
{
    assert forall|i: int| 0 <= i < 28 implies #[trigger] image::live(b, i) == image::live(a, i)
        && image::sector_id(b, i) == image::sector_id(a, i) && image::sector_counter(b, i)
        == image::sector_counter(a, i) && image::sector_data(b, i) == image::sector_data(a, i) by {
        assert(image::sector_data(b, i) =~= image::sector_data(a, i));
    }
    assert(image::live(b, 0) == image::live(a, 0));
    assert(image::live(b, 14) == image::live(a, 14));
    lemma_same_complete(a, b);
    match image::newest(a) {
        Some(slot) => {
            lemma_same_slot_bytes(a, b, slot, sectors);
            assert forall|n: int| 0 <= n < sectors.len() implies #[trigger] image::sector_of(
                b,
                slot,
                sectors[n],
            ) == image::sector_of(a, slot, sectors[n]) by {
                lemma_same_slot_holder(a, b, slot * 14, slot * 14 + 14, sectors[n]);
            }
            if image::all_held(b, slot, sectors) {
                assert forall|n: int| 0 <= n < sectors.len() implies (#[trigger] image::sector_of(
                    a,
                    slot,
                    sectors[n],
                )) is Some by {
                    assert(image::sector_of(b, slot, sectors[n]) is Some);
                }
            }
        },
        None => {},
    }
}

proof fn lemma_same_slot_holder(a: Seq<u8>, b: Seq<u8>, from: int, end: int, want: u16)
    requires
        a.len() == 32 * 4096,
        b.len() == a.len(),
        0 <= from,
        end <= 28,
        forall|p: int| 0 <= p < 28 * 4096 ==> #[trigger] a[p] == b[p],
    ensures
        image::holder(b, from, end, want) == image::holder(a, from, end, want),
    decreases end - from,
{
    if from < end {
        lemma_same_slot_holder(a, b, from + 1, end, want);
    }
}

proof fn lemma_same_slot_bytes(a: Seq<u8>, b: Seq<u8>, slot: int, sectors: Seq<u16>)
    requires
        0 <= slot < 2,
        a.len() == 32 * 4096,
        b.len() == a.len(),
        forall|p: int| 0 <= p < 28 * 4096 ==> #[trigger] a[p] == b[p],
    ensures
        image::all_held(a, slot, sectors) ==> image::held_bytes(b, slot, sectors)
            == image::held_bytes(a, slot, sectors),
    decreases sectors.len(),
{
    if sectors.len() > 0 && image::all_held(a, slot, sectors) {
        let init = sectors.drop_last();
        assert forall|n: int| 0 <= n < init.len() implies (#[trigger] image::sector_of(
            a,
            slot,
            init[n],
        )) is Some by {
            assert(init[n] == sectors[n]);
        }
        lemma_same_slot_bytes(a, b, slot, init);
        assert(sectors.last() == sectors[sectors.len() - 1]);
        assert(image::sector_of(a, slot, sectors[sectors.len() - 1]) is Some);
        lemma_same_slot_holder(a, b, slot * 14, slot * 14 + 14, sectors.last());
        image::lemma_holder(a, slot * 14, slot * 14 + 14, sectors.last());
        let at = image::sector_of(a, slot, sectors.last())->0;
        assert(image::sector_data(b, at) =~= image::sector_data(a, at));
    }
}

/// The ids of SaveBlock1, of SaveBlock2 and of the boxes are all different, so each of these
/// blocks can be replaced and read back, and replacing one leaves the others.
pub proof fn law_block_sectors_are_apart()
    ensures
        distinct(SAVEBLOCK1_SECTORS@),
        distinct(image::SAVEBLOCK2_SECTORS@),
        distinct(image::STORAGE_SECTORS@),
        forall|a: int, b: int|
            0 <= a < 4 && 0 <= b < 9 ==> #[trigger] SAVEBLOCK1_SECTORS@[a]
                != #[trigger] image::STORAGE_SECTORS@[b],
        forall|a: int, b: int|
            0 <= a < 4 && 0 <= b < 1 ==> #[trigger] SAVEBLOCK1_SECTORS@[a]
                != #[trigger] image::SAVEBLOCK2_SECTORS@[b],
        forall|a: int, b: int|
            0 <= a < 9 && 0 <= b < 1 ==> #[trigger] image::STORAGE_SECTORS@[a]
                != #[trigger] image::SAVEBLOCK2_SECTORS@[b],
{
}

} // verus!
