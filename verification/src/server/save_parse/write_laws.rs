//! What stands in an image that was written.

use super::super::quic::reports;
use super::image;
use super::image_laws;
use super::parse_laws::{law_numbers_are_little_endian, num};
use super::state;
use crate::bytes;
use vstd::prelude::*;

verus! {

proof fn lemma_checksums(
    im: Seq<u8>,
    slot: int,
    sectors: Seq<u16>,
    data: Seq<u8>,
    n: nat,
    k: int,
)
    requires
        0 <= slot < 2,
        im.len() == 32 * 4096,
        data.len() == sectors.len() * 3968,
        0 <= k < n <= sectors.len(),
        image::all_held(im, slot, sectors),
        image_laws::distinct(sectors),
    ensures
        ({
            let at = image::sector_of(im, slot, sectors[k])->0;
            bytes::le16(image::written(im, slot, sectors, data, n), at * 4096 + 4086)
                == image::checksum_of(
                image::chunk_of(data, k),
                image::size_of_sector(im, at)->0,
            )
        }),
    decreases n,
{
    let m = n - 1;
    let prev = image::written(im, slot, sectors, data, m as nat);
    let next = image::written(im, slot, sectors, data, n);
    image_laws::lemma_written(im, slot, sectors, data, m as nat);
    assert(image::sector_of(im, slot, sectors[m]) is Some);
    assert(image::sector_of(im, slot, sectors[k]) is Some);
    image::lemma_holder(im, slot * 14, slot * 14 + 14, sectors[m]);
    image::lemma_holder(im, slot * 14, slot * 14 + 14, sectors[k]);
    let last = image::sector_of(im, slot, sectors[m])->0;
    let at = image::sector_of(im, slot, sectors[k])->0;
    let chunk = image::chunk_of(data, m);
    let fresh = image::checksum_of(chunk, image::size_of_sector(im, last)->0);
    let laid = bytes::overlay(prev, last * 4096, chunk);
    bytes::lemma_bytes16(laid, last * 4096 + 4086, fresh);
    if k < m {
        lemma_checksums(im, slot, sectors, data, m as nat, k);
        assert(sectors[k] != sectors[m]);
        assert(at != last);
        let p = at * 4096 + 4086;
        assert(next[p] == prev[p] && next[p + 1] == prev[p + 1]);
        assert forall|i: int| 0 <= i < 2 implies #[trigger] next[p + i] == prev[p + i] by {}
        bytes::lemma_le_agree(next, p, prev, p, 2);
    }
}

/// Every sector that was written carries the checksum of what it now holds, over as many bytes as
/// its checksum was taken over before, so that the game takes it for its own.
pub proof fn law_written_sectors_carry_their_checksum(
    im: Seq<u8>,
    sectors: Seq<u16>,
    data: Seq<u8>,
    out: Seq<u8>,
    k: int,
)
    requires
        image_laws::distinct(sectors),
        image::with_block(im, sectors, data) == Some(out),
        0 <= k < sectors.len(),
    ensures
        ({
            let at = image::sector_of(im, image::newest(im)->0, sectors[k])->0;
            let size = image::size_of_sector(im, at)->0;
            &&& image::sector_of(im, image::newest(im)->0, sectors[k]) is Some
            &&& image::size_of_sector(im, at) is Some
            &&& out.subrange(at * 4096, at * 4096 + 3968) == data.subrange(
                3968 * k,
                3968 * k + 3968,
            )
            &&& num(out, at * 4096 + 4086, 2) == image::checksum_of(
                data.subrange(3968 * k, 3968 * k + 3968),
                size,
            )
        }),
{
    let slot = image::newest(im)->0;
    assert(image::writable(im, slot, sectors[k]));
    assert(image::all_held(im, slot, sectors)) by {
        assert forall|n: int| 0 <= n < sectors.len() implies (#[trigger] image::sector_of(
            im,
            slot,
            sectors[n],
        )) is Some by {
            assert(image::writable(im, slot, sectors[n]));
        }
    }
    let at = image::sector_of(im, slot, sectors[k])->0;
    image::lemma_holder(im, slot * 14, slot * 14 + 14, sectors[k]);
    lemma_checksums(im, slot, sectors, data, sectors.len(), k);
    image_laws::lemma_written(im, slot, sectors, data, sectors.len());
    law_numbers_are_little_endian(out, at * 4096 + 4086);
    assert(image::sector_data(out, at) == image::chunk_of(data, k));
    assert(out.subrange(at * 4096, at * 4096 + 3968) =~= image::sector_data(out, at));
    assert(data.subrange(3968 * k, 3968 * k + 3968) =~= image::chunk_of(data, k));
}

/// A recovered size is a whole number of words.
proof fn lemma_whole_words(data: Seq<u8>, stored: u16, words: nat)
    ensures
        image::size_within(data, stored, words) matches Some(size) ==> 0 <= size <= 4 * words
            && size % 4 == 0,
    decreases words,
{
    if words > 0 {
        lemma_whole_words(data, stored, (words - 1) as nat);
    }
}

proof fn lemma_still_writable(
    im: Seq<u8>,
    slot: int,
    sectors: Seq<u16>,
    data: Seq<u8>,
    out: Seq<u8>,
    k: int,
)
    requires
        0 <= slot < 2,
        im.len() == 32 * 4096,
        data.len() == sectors.len() * 3968,
        image_laws::distinct(sectors),
        image::all_held(im, slot, sectors),
        out == image::written(im, slot, sectors, data, sectors.len()),
        0 <= k < sectors.len(),
        image::writable(im, slot, sectors[k]),
        image_laws::same_footers(im, out),
        image::sector_data(out, image::sector_of(im, slot, sectors[k])->0) == image::chunk_of(
            data,
            k,
        ),
    ensures
        image::writable(out, slot, sectors[k]),
{
    image_laws::lemma_same_holder(im, out, slot * 14, slot * 14 + 14, sectors[k]);
    let at = image::sector_of(im, slot, sectors[k])->0;
    let size = image::size_of_sector(im, at)->0;
    lemma_whole_words(image::sector_data(im, at), image::sector_checksum(im, at), 992);
    lemma_checksums(im, slot, sectors, data, sectors.len(), k);
    let words = (size / 4) as nat;
    image_laws::law_declared_size_is_the_largest(
        image::sector_data(out, at),
        image::sector_checksum(out, at),
        992,
        words,
    );
}

/// An image that was written can be written again, and as often as that: the size under each checksum
/// can still be recovered.
pub proof fn law_written_images_can_be_written_again(
    im: Seq<u8>,
    sectors: Seq<u16>,
    data: Seq<u8>,
    out: Seq<u8>,
    next: Seq<u8>,
)
    requires
        image_laws::distinct(sectors),
        image::with_block(im, sectors, data) == Some(out),
        next.len() == data.len(),
    ensures
        image::with_block(out, sectors, next) is Some,
{
    let slot = image::newest(im)->0;
    assert forall|n: int| 0 <= n < sectors.len() implies (#[trigger] image::sector_of(
        im,
        slot,
        sectors[n],
    )) is Some by {
        assert(image::writable(im, slot, sectors[n]));
    }
    image_laws::lemma_written(im, slot, sectors, data, sectors.len());
    image_laws::lemma_same_footers(im, out);
    assert forall|k: int| 0 <= k < sectors.len() implies #[trigger] image::writable(
        out,
        slot,
        sectors[k],
    ) by {
        assert(image::writable(im, slot, sectors[k]));
        assert(image::sector_data(out, image::sector_of(im, slot, sectors[k])->0)
            == image::chunk_of(data, k));
        lemma_still_writable(im, slot, sectors, data, out, k);
    }
}

/// A tail of four sectors is laid behind the two slots of an image, and every byte before it stays.
/// Nothing else is a tail.
pub proof fn law_tails_are_laid_behind_the_slots(im: Seq<u8>, tail: Seq<u8>)
    ensures
        image::tail_replaced(im, tail) is Some <==> im.len() == 131072 && tail.len() == 16384,
        image::tail_replaced(im, tail) matches Some(out) ==> out == im.subrange(0, 114688)
            + tail,
{
    match image::tail_replaced(im, tail) {
        Some(out) => {
            assert(out =~= im.subrange(0, 114688) + tail);
        },
        None => {},
    }
}

/// A tail is taken if and only if it is one and the save that it is for can be read.
pub proof fn law_tails_are_taken_for_saves_that_can_be_read(im: Seq<u8>, tail: Seq<u8>)
    ensures
        reports::tail_reported(im, tail) is Some <==> tail.len() == 16384 && state::parsed(im) is Some,
        reports::tail_reported(im, tail) matches Some(out) ==> out == im.subrange(0, 114688)
            + tail,
{
    law_tails_are_laid_behind_the_slots(im, tail);
    if image::tail_replaced(im, tail) is Some {
        reports::law_tails_change_nothing_that_is_read(im, tail);
    }
}

} // verus!
