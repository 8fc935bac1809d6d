//! Sectors, slots and blocks of a flash image.

use crate::bytes;
use vstd::prelude::*;

verus! {

pub const SECTOR_SIZE: usize = 4096;

pub const SECTOR_DATA_SIZE: usize = 3968;

pub const SECTORS_PER_SLOT: usize = 14;

pub const NUM_SECTORS: usize = 32;

pub const SECTOR_SIGNATURE: u32 = 0x0801_2025;

/// Where a sector's footer starts to say something, counted from the sector's start: 116 unused
/// bytes follow the data, then come the id, the checksum, the signature and the counter.
pub const FOOTER: usize = 4084;

/// Sector ids holding SaveBlock1, in order.
pub const SAVEBLOCK1_SECTORS: [u16; 4] = [1, 2, 3, 4];

/// The sectors holding SaveBlock2: the player's name, gender, playtime and encryption key.
pub const SAVEBLOCK2_SECTORS: [u16; 1] = [0];

/// The sectors holding PokemonStorage: the PC boxes.
pub const STORAGE_SECTORS: [u16; 9] = [5, 6, 7, 8, 9, 10, 11, 12, 13];

/// The first of the sectors after the two save slots: Hall of Fame (28, 29), Trainer Hill (30)
/// and the recorded battle (31). They stand outside the slot rotation.
pub const TAIL_FIRST: usize = 28;

// ---------------------------------------------------------------------------------------------
// What an image says
// ---------------------------------------------------------------------------------------------

/// The id in the footer of a sector.
pub open spec fn sector_id(image: Seq<u8>, index: int) -> u16 {
    bytes::le16(image, index * 4096 + 4084)
}

/// The checksum in the footer of a sector.
pub open spec fn sector_checksum(image: Seq<u8>, index: int) -> u16 {
    bytes::le16(image, index * 4096 + 4086)
}

/// The signature in the footer of a sector.
pub open spec fn sector_signature(image: Seq<u8>, index: int) -> u32 {
    bytes::le32(image, index * 4096 + 4088)
}

/// The counter in the footer of a sector.
pub open spec fn sector_counter(image: Seq<u8>, index: int) -> u32 {
    bytes::le32(image, index * 4096 + 4092)
}

/// What a sector holds.
pub open spec fn sector_data(image: Seq<u8>, index: int) -> Seq<u8> {
    image.subrange(index * 4096, index * 4096 + 3968)
}

/// The image reaches to the end of this sector, and the sector carries the game's signature.
pub open spec fn live(image: Seq<u8>, index: int) -> bool {
    &&& index * 4096 + 4096 <= image.len()
    &&& sector_signature(image, index) == SECTOR_SIGNATURE
}

/// The game finished writing this slot: every sector of it is signed.
pub open spec fn complete(image: Seq<u8>, slot: int) -> bool {
    forall|i: int| slot * 14 <= i < slot * 14 + 14 ==> #[trigger] live(image, i)
}

/// The slot that the game would load: of the complete ones, the one with the higher counter,
/// and the first where the counters agree.
pub open spec fn newest(image: Seq<u8>) -> Option<int> {
    if complete(image, 0) {
        if complete(image, 1) && sector_counter(image, 14) > sector_counter(image, 0) {
            Some(1int)
        } else {
            Some(0int)
        }
    } else if complete(image, 1) {
        Some(1int)
    } else {
        None
    }
}

/// The first sector of `from .. end` that is signed and carries the id `want`.
pub open spec fn holder(image: Seq<u8>, from: int, end: int, want: u16) -> Option<int>
    decreases end - from,
{
    if from >= end {
        None
    } else if live(image, from) && sector_id(image, from) == want {
        Some(from)
    } else {
        holder(image, from + 1, end, want)
    }
}

/// The sector of a slot that carries the id `want`.
pub open spec fn sector_of(image: Seq<u8>, slot: int, want: u16) -> Option<int> {
    holder(image, slot * 14, slot * 14 + 14, want)
}

/// Every one of these ids is carried by a sector of the slot.
pub open spec fn all_held(image: Seq<u8>, slot: int, sectors: Seq<u16>) -> bool {
    forall|n: int|
        0 <= n < sectors.len() ==> (#[trigger] sector_of(image, slot, sectors[n])) is Some
}

/// What the sectors with these ids hold, one after the other.
pub open spec fn held_bytes(image: Seq<u8>, slot: int, sectors: Seq<u16>) -> Seq<u8>
    decreases sectors.len(),
{
    if sectors.len() == 0 {
        Seq::empty()
    } else {
        held_bytes(image, slot, sectors.drop_last()) + sector_data(
            image,
            sector_of(image, slot, sectors.last())->0,
        )
    }
}

/// The block that the sectors with these ids make up in the slot that the game would load.
pub open spec fn block_of(image: Seq<u8>, sectors: Seq<u16>) -> Option<Seq<u8>> {
    match newest(image) {
        Some(slot) => if all_held(image, slot, sectors) {
            Some(held_bytes(image, slot, sectors))
        } else {
            None
        },
        None => None,
    }
}

/// The sum of the first `words` little-endian words of `data`.
pub open spec fn word_sum(data: Seq<u8>, words: nat) -> nat
    decreases words,
{
    if words == 0 {
        0
    } else {
        word_sum(data, (words - 1) as nat) + bytes::le32(data, 4 * (words - 1)) as nat
    }
}

/// A sum of words kept to thirty-two bits and folded to sixteen.
pub open spec fn fold_sum(sum: nat) -> u16 {
    (((sum % 0x1_0000_0000) / 0x1_0000 + (sum % 0x1_0000)) % 0x1_0000) as u16
}

/// The game's checksum over the first `size` bytes of `data`.
pub open spec fn checksum_of(data: Seq<u8>, size: int) -> u16 {
    fold_sum(word_sum(data, (size / 4) as nat))
}

/// The largest number of whole words, at most `words`, whose checksum is `stored`; in bytes.
pub open spec fn size_within(data: Seq<u8>, stored: u16, words: nat) -> Option<int>
    decreases words,
{
    if checksum_of(data, 4 * words as int) == stored {
        Some(4 * words as int)
    } else if words == 0 {
        None
    } else {
        size_within(data, stored, (words - 1) as nat)
    }
}

/// How many bytes of a sector its checksum was taken over: the largest size that reproduces it.
pub open spec fn size_of_sector(image: Seq<u8>, index: int) -> Option<int> {
    size_within(sector_data(image, index), sector_checksum(image, index), 992)
}

/// The sector can be found and the size under its checksum recovered.
pub open spec fn writable(image: Seq<u8>, slot: int, want: u16) -> bool {
    match sector_of(image, slot, want) {
        Some(index) => size_of_sector(image, index) is Some,
        None => false,
    }
}

/// `out` with the data of a sector replaced and its checksum made to match, over as many bytes
/// as the sector of `image` had it over.
pub open spec fn with_sector(image: Seq<u8>, out: Seq<u8>, index: int, chunk: Seq<u8>) -> Seq<u8> {
    let fresh = checksum_of(chunk, size_of_sector(image, index)->0);
    bytes::overlay(
        bytes::overlay(out, index * 4096, chunk),
        index * 4096 + 4086,
        bytes::bytes16(fresh),
    )
}

/// The part of a block that goes into its `n`th sector.
pub open spec fn chunk_of(data: Seq<u8>, n: int) -> Seq<u8> {
    data.subrange(n * 3968, n * 3968 + 3968)
}

/// `image` with the first `n` of these sectors of a slot replaced out of `data`.
pub open spec fn written(
    image: Seq<u8>,
    slot: int,
    sectors: Seq<u16>,
    data: Seq<u8>,
    n: nat,
) -> Seq<u8>
    decreases n,
{
    if n == 0 {
        image
    } else {
        with_sector(
            image,
            written(image, slot, sectors, data, (n - 1) as nat),
            sector_of(image, slot, sectors[n - 1])->0,
            chunk_of(data, n - 1),
        )
    }
}

/// `image` with the block in these sectors replaced by `data`.
pub open spec fn with_block(image: Seq<u8>, sectors: Seq<u16>, data: Seq<u8>) -> Option<Seq<u8>> {
    if image.len() != 32 * 4096 || data.len() != sectors.len() * 3968 {
        None
    } else {
        match newest(image) {
            Some(slot) => if forall|n: int|
                0 <= n < sectors.len() ==> #[trigger] writable(image, slot, sectors[n]) {
                Some(written(image, slot, sectors, data, sectors.len()))
            } else {
                None
            },
            None => None,
        }
    }
}

/// `image` with the block in these sectors replaced by `data`, where writing back the block that
/// is there was first shown to change nothing.
pub open spec fn reauthored(image: Seq<u8>, sectors: Seq<u16>, data: Seq<u8>) -> Option<Seq<u8>> {
    match block_of(image, sectors) {
        Some(original) => if with_block(image, sectors, original) == Some(image) {
            with_block(image, sectors, data)
        } else {
            None
        },
        None => None,
    }
}

/// `image` with the sectors after the save slots replaced.
pub open spec fn tail_replaced(image: Seq<u8>, tail: Seq<u8>) -> Option<Seq<u8>> {
    if image.len() != 32 * 4096 || tail.len() != 4 * 4096 {
        None
    } else {
        Some(bytes::overlay(image, 0x1_C000, tail))
    }
}

// ---------------------------------------------------------------------------------------------
// Reading
// ---------------------------------------------------------------------------------------------

/// Whether the image reaches to the end of this sector and the sector is signed.
fn is_live(image: &[u8], index: usize) -> (r: bool)
    requires
        index < 32,
    ensures
        r == live(image@, index as int),
{
    let start: usize = index * SECTOR_SIZE;
    if image.len() < start + SECTOR_SIZE {
        return false;
    }
    bytes::get32(image, start + FOOTER + 4) == SECTOR_SIGNATURE
}

/// Whether every sector of a slot is signed.
fn is_complete(image: &[u8], slot: usize) -> (r: bool)
    requires
        slot < 2,
    ensures
        r == complete(image@, slot as int),
{
    let mut i: usize = 0;
    while i < SECTORS_PER_SLOT
        invariant
            i <= 14,
            slot < 2,
            forall|j: int| slot * 14 <= j < slot * 14 + i ==> #[trigger] live(image@, j),
        decreases 14 - i,
    {
        if !is_live(image, slot * SECTORS_PER_SLOT + i) {
            return false;
        }
        i = i + 1;
    }
    true
}

/// The save slot the game would load: the one whose sectors carry the higher counter.
pub(crate) fn newest_slot(image: &[u8]) -> (r: Option<usize>)
    ensures
        match r {
            Some(slot) => slot < 2 && newest(image@) == Some(slot as int) && complete(
                image@,
                slot as int,
            ),
            None => newest(image@) is None,
        },
{
    let first = is_complete(image, 0);
    let second = is_complete(image, 1);
    if first {
        assert(live(image@, 0));
        if second {
            assert(live(image@, 14));
            let a: u32 = bytes::get32(image, FOOTER + 8);
            let b: u32 = bytes::get32(image, 14 * SECTOR_SIZE + FOOTER + 8);
            if b > a {
                return Some(1);
            }
        }
        Some(0)
    } else if second {
        Some(1)
    } else {
        None
    }
}

/// A sector found in a slot is one of its own, is signed, and carries the id asked for.
pub proof fn lemma_holder(image: Seq<u8>, from: int, end: int, want: u16)
    ensures
        match holder(image, from, end, want) {
            Some(i) => {
                &&& from <= i < end
                &&& live(image, i)
                &&& sector_id(image, i) == want
                &&& forall|j: int|
                    from <= j < i && #[trigger] live(image, j) ==> sector_id(image, j) != want
            },
            None => forall|j: int|
                from <= j < end && #[trigger] live(image, j) ==> sector_id(image, j) != want,
        },
    decreases end - from,
{
    if from < end && !(live(image, from) && sector_id(image, from) == want) {
        lemma_holder(image, from + 1, end, want);
    }
}

/// The sector of a slot that carries the id `want`.
pub(crate) fn find_sector(image: &[u8], slot: usize, want: u16) -> (r: Option<usize>)
    requires
        slot < 2,
    ensures
        match r {
            Some(index) => {
                &&& sector_of(image@, slot as int, want) == Some(index as int)
                &&& slot * 14 <= index < slot * 14 + 14
                &&& index * 4096 + 4096 <= image@.len()
            },
            None => sector_of(image@, slot as int, want) is None,
        },
{
    let end: usize = slot * SECTORS_PER_SLOT + SECTORS_PER_SLOT;
    let mut i: usize = slot * SECTORS_PER_SLOT;
    while i < end
        invariant
            slot < 2,
            end == slot * 14 + 14,
            slot * 14 <= i <= end,
            sector_of(image@, slot as int, want) == holder(image@, i as int, end as int, want),
        decreases end - i,
    {
        if is_live(image, i) && bytes::get16(image, i * SECTOR_SIZE + FOOTER) == want {
            return Some(i);
        }
        i = i + 1;
    }
    None
}

/// Reassembles a block from the sectors of a slot that hold it, indexed by footer id.
pub(crate) fn read_slot(image: &[u8], slot: usize, sectors: &[u16]) -> (r: Option<Vec<u8>>)
    requires
        slot < 2,
    ensures
        match r {
            Some(data) => all_held(image@, slot as int, sectors@) && data@ == held_bytes(
                image@,
                slot as int,
                sectors@,
            ),
            None => !all_held(image@, slot as int, sectors@),
        },
{
    let mut out: Vec<u8> = Vec::new();
    let mut n: usize = 0;
    while n < sectors.len()
        invariant
            slot < 2,
            n <= sectors@.len(),
            forall|k: int|
                0 <= k < n ==> (#[trigger] sector_of(image@, slot as int, sectors@[k])) is Some,
            out@ == held_bytes(image@, slot as int, sectors@.subrange(0, n as int)),
        decreases sectors@.len() - n,
    {
        match find_sector(image, slot, sectors[n]) {
            Some(index) => {
                let start: usize = index * SECTOR_SIZE;
                let data = vstd::slice::slice_subrange(image, start, start + SECTOR_DATA_SIZE);
                bytes::push_all(&mut out, data);
                proof {
                    let upto = sectors@.subrange(0, n + 1);
                    assert(upto.drop_last() =~= sectors@.subrange(0, n as int));
                    assert(upto.last() == sectors@[n as int]);
                }
            },
            None => {
                assert(sector_of(image@, slot as int, sectors@[n as int]) is None);
                return None;
            },
        }
        n = n + 1;
    }
    assert(sectors@.subrange(0, n as int) =~= sectors@);
    Some(out)
}

/// Reassembles any block from the sectors that hold it, indexed by footer id.
pub fn read_block(image: &[u8], sectors: &[u16]) -> (r: Option<Vec<u8>>)
    ensures
        match r {
            Some(data) => block_of(image@, sectors@) == Some(data@),
            None => block_of(image@, sectors@) is None,
        },
{
    match newest_slot(image) {
        Some(slot) => read_slot(image, slot, sectors),
        None => None,
    }
}

// ---------------------------------------------------------------------------------------------
// Writing
// ---------------------------------------------------------------------------------------------

/// The game's own checksum: the sum of the data as little-endian words, folded to sixteen bits.
pub fn checksum(data: &[u8], size: usize) -> (r: u16)
    requires
        size <= data@.len(),
    ensures
        r == checksum_of(data@, size as int),
{
    let words: usize = size / 4;
    let mut sum: u32 = 0;
    let mut i: usize = 0;
    while i < words
        invariant
            i <= words,
            words * 4 <= data@.len(),
            sum == word_sum(data@, i as nat) % 0x1_0000_0000,
        decreases words - i,
    {
        assert(data.len() == data@.len());
        let word: u32 = bytes::get32(data, 4 * i);
        sum = sum.wrapping_add(word);
        i = i + 1;
    }
    let high: u32 = sum / 0x1_0000;
    let low: u32 = sum % 0x1_0000;
    ((high + low) % 0x1_0000) as u16
}

/// Works out how many bytes of a sector the checksum was taken over, by finding the size that
/// reproduces the checksum already stored in it. The size comes from the build of the game that
/// wrote the save, so it is recovered from the image instead of assumed about it; the largest is
/// tried first because a full sector is by far the common one.
fn declared_size(data: &[u8], stored: u16) -> (r: Option<usize>)
    requires
        data@.len() == 3968,
    ensures
        match r {
            Some(n) => n <= 3968 && size_within(data@, stored, 992) == Some(n as int),
            None => size_within(data@, stored, 992) is None,
        },
{
    let mut words: usize = 992;
    loop
        invariant
            words <= 992,
            data@.len() == 3968,
            size_within(data@, stored, 992) == size_within(data@, stored, words as nat),
        decreases words,
    {
        if checksum(data, 4 * words) == stored {
            return Some(4 * words);
        }
        if words == 0 {
            return None;
        }
        words = words - 1;
    }
}

/// Writes any run of sectors back into an image, returning the new image.
///
/// Returns None rather than a wrong image whenever anything does not line up: a save that fails
/// to rebuild leaves the player exactly where they were.
pub fn write_block(image: &[u8], sectors: &[u16], data: &[u8]) -> (r: Option<Vec<u8>>)
    ensures
        match r {
            Some(out) => with_block(image@, sectors@, data@) == Some(out@),
            None => with_block(image@, sectors@, data@) is None,
        },
{
    if image.len() != NUM_SECTORS * SECTOR_SIZE {
        return None;
    }
    if data.len() / SECTOR_DATA_SIZE != sectors.len() || data.len() % SECTOR_DATA_SIZE != 0 {
        return None;
    }
    let slot: usize = match newest_slot(image) {
        Some(slot) => slot,
        None => {
            return None;
        },
    };
    let mut out: Vec<u8> = vstd::slice::slice_to_vec(image);
    let mut n: usize = 0;
    while n < sectors.len()
        invariant
            slot < 2,
            n <= sectors@.len(),
            image@.len() == 32 * 4096,
            out@.len() == image@.len(),
            data@.len() == sectors@.len() * 3968,
            newest(image@) == Some(slot as int),
            forall|k: int|
                0 <= k < n ==> #[trigger] writable(image@, slot as int, sectors@[k]),
            out@ == written(image@, slot as int, sectors@, data@, n as nat),
        decreases sectors@.len() - n,
    {
        let ghost prev = out@;
        let want: u16 = sectors[n];
        let index: usize = match find_sector(image, slot, want) {
            Some(index) => index,
            None => {
                assert(!writable(image@, slot as int, sectors@[n as int]));
                return None;
            },
        };
        let start: usize = index * SECTOR_SIZE;
        let stored: u16 = bytes::get16(image, start + FOOTER + 2);
        let held = vstd::slice::slice_subrange(image, start, start + SECTOR_DATA_SIZE);
        // Recovered from the sector as it stands, before anything is changed in it.
        let size: usize = match declared_size(held, stored) {
            Some(size) => size,
            None => {
                assert(!writable(image@, slot as int, sectors@[n as int]));
                return None;
            },
        };
        assert(data.len() == data@.len());
        let from: usize = n * SECTOR_DATA_SIZE;
        let chunk = vstd::slice::slice_subrange(data, from, from + SECTOR_DATA_SIZE);
        bytes::put_all(&mut out, start, chunk);
        let fresh: u16 = checksum(chunk, size);
        bytes::put16(&mut out, start + FOOTER + 2, fresh);
        assert(out@ == with_sector(image@, prev, index as int, chunk_of(data@, n as int)));
        n = n + 1;
    }
    Some(out)
}

/// Writes a modified SaveBlock1 back into an image, returning the new image.
pub fn write_block1(image: &[u8], block1: &[u8]) -> (r: Option<Vec<u8>>)
    ensures
        match r {
            Some(out) => with_block(image@, SAVEBLOCK1_SECTORS@, block1@) == Some(out@),
            None => with_block(image@, SAVEBLOCK1_SECTORS@, block1@) is None,
        },
{
    write_block(image, &SAVEBLOCK1_SECTORS, block1)
}

/// Rebuilds an image with a replacement for any block. Nothing where the image or the replacement
/// is not of its size, no slot can be loaded, or a sector of the block is missing or carries a
/// checksum that no size explains.
///
/// The block is first written back unchanged and the image compared. That it then never differs is
/// what `law_authoring_is_faithful` says: nothing is refused for this comparison.
pub fn reauthor_block(image: &[u8], sectors: &[u16], data: &[u8]) -> (r: Option<Vec<u8>>)
    ensures
        match r {
            Some(out) => reauthored(image@, sectors@, data@) == Some(out@),
            None => reauthored(image@, sectors@, data@) is None,
        },
{
    let original: Vec<u8> = match read_block(image, sectors) {
        Some(original) => original,
        None => {
            return None;
        },
    };
    match write_block(image, sectors, &original) {
        Some(identity) => {
            if !bytes::same_bytes(&identity, image) {
                return None;
            }
        },
        None => {
            return None;
        },
    }
    write_block(image, sectors, data)
}

/// Rebuilds an image with the server's own SaveBlock1, on the same terms as any block.
pub fn reauthor(image: &[u8], block1: &[u8]) -> (r: Option<Vec<u8>>)
    ensures
        match r {
            Some(out) => reauthored(image@, SAVEBLOCK1_SECTORS@, block1@) == Some(out@),
            None => reauthored(image@, SAVEBLOCK1_SECTORS@, block1@) is None,
        },
{
    reauthor_block(image, &SAVEBLOCK1_SECTORS, block1)
}

/// Replaces the sectors after the save slots with what the client reported, verbatim and
/// footers included: there is no field in them that the server could check.
pub fn with_tail(image: &[u8], tail: &[u8]) -> (r: Option<Vec<u8>>)
    ensures
        match r {
            Some(out) => tail_replaced(image@, tail@) == Some(out@),
            None => tail_replaced(image@, tail@) is None,
        },
{
    if image.len() != NUM_SECTORS * SECTOR_SIZE || tail.len() != 4 * SECTOR_SIZE {
        return None;
    }
    let mut out: Vec<u8> = vstd::slice::slice_to_vec(image);
    bytes::put_all(&mut out, TAIL_FIRST * SECTOR_SIZE, tail);
    Some(out)
}

/// The sectors of the block that a client may report wholesale under this id.
pub open spec fn reportable_sectors(id: u8) -> Option<Seq<u16>> {
    if id == 0 {
        Some(SAVEBLOCK2_SECTORS@)
    } else if id == 1 {
        Some(STORAGE_SECTORS@)
    } else {
        None
    }
}

/// The blocks a client may report wholesale, by id. SaveBlock1 is absent: it holds money, the
/// bag and the party, which have their own messages carrying caps and rate ceilings.
pub fn reportable_block(id: u8) -> (r: Option<Vec<u16>>)
    ensures
        match r {
            Some(sectors) => reportable_sectors(id) == Some(sectors@),
            None => reportable_sectors(id) is None,
        },
{
    match id {
        0 => {
            let sectors: Vec<u16> = vec![0];
            assert(sectors@ =~= SAVEBLOCK2_SECTORS@);
            Some(sectors)
        },
        1 => {
            let sectors: Vec<u16> = vec![5, 6, 7, 8, 9, 10, 11, 12, 13];
            assert(sectors@ =~= STORAGE_SECTORS@);
            Some(sectors)
        },
        _ => None,
    }
}

} // verus!
