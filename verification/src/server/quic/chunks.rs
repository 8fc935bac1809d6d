//! Putting images and blocks back together out of the slices they arrive in, and cutting them.

use super::super::save_parse::image;
use super::super::save_parse::image::{SECTOR_DATA_SIZE, SECTOR_SIZE};
use crate::bytes;
use vstd::prelude::*;

verus! {

/// The game's flash image, and therefore the largest save that can be genuine.
pub const MAX_SAVE_BYTES: usize = 128 * 1024;

/// The largest chunk of a block.
pub const MAX_CHUNK: usize = 0x400;

/// The block that stands for the sectors after the save slots: Hall of Fame, Trainer Hill,
/// recorded battle. Whole sectors including footers.
pub const TAIL_BLOCK: u8 = 2;

/// The length of the sectors after the save slots.
pub const TAIL_LEN: usize = 4 * 4096;

/// The buffer that a chunk is appended to: what was collected so far where the chunk continues
/// it, else nothing. A chunk that starts at zero starts anew.
pub open spec fn continued(buf: Seq<u8>, offset: int) -> Seq<u8> {
    if offset == 0 || buf.len() != offset {
        Seq::empty()
    } else {
        buf
    }
}

/// The buffer after a chunk.
pub open spec fn collected(buf: Seq<u8>, offset: int, chunk: Seq<u8>) -> Seq<u8> {
    if continued(buf, offset).len() == offset {
        continued(buf, offset) + chunk
    } else {
        continued(buf, offset)
    }
}

/// The chunk was appended, and with it everything is there.
pub open spec fn completes(buf: Seq<u8>, offset: int, chunk: Seq<u8>, total: int) -> bool {
    continued(buf, offset).len() == offset && offset + chunk.len() == total
}

/// Appends a chunk to what it continues. Out of order, or a restart part way through: begins
/// again. Returns whether everything is there.
fn collect(buf: &mut Vec<u8>, offset: u32, chunk: &[u8], total: u32) -> (r: bool)
    ensures
        final(buf)@ == collected(old(buf)@, offset as int, chunk@),
        r == completes(old(buf)@, offset as int, chunk@, total as int),
{
    if offset == 0 || buf.len() as u64 != offset as u64 {
        buf.clear();
    }
    if buf.len() as u64 != offset as u64 {
        return false;
    }
    bytes::push_all(buf, chunk);
    assert(buf.len() == buf@.len());
    buf.len() as u64 == total as u64
}

// ---------------------------------------------------------------------------------------------
// Whole saves
// ---------------------------------------------------------------------------------------------

/// What a slice of an uploaded save amounts to.
pub enum Upload {
    /// A save is never larger than the flash image; the connection is to end.
    Oversized,
    /// The slice runs past the end it declares; the connection is to end.
    Malformed,
    More,
    Complete(Vec<u8>),
}

/// Takes in one slice of an uploaded save.
pub fn take_save_slice(buf: &mut Vec<u8>, offset: u32, total: u32, slice: &[u8]) -> (r: Upload)
    ensures
        r is Oversized <==> total > MAX_SAVE_BYTES,
        r is Malformed <==> total <= MAX_SAVE_BYTES && offset + slice@.len() > total,
        r is Oversized || r is Malformed ==> final(buf)@ == old(buf)@,
        total <= MAX_SAVE_BYTES && offset + slice@.len() <= total ==> (match r {
            Upload::Complete(image) => {
                &&& completes(old(buf)@, offset as int, slice@, total as int)
                &&& image@ == collected(old(buf)@, offset as int, slice@)
                &&& final(buf)@ == Seq::<u8>::empty()
            },
            Upload::More => {
                &&& !completes(old(buf)@, offset as int, slice@, total as int)
                &&& final(buf)@ == collected(old(buf)@, offset as int, slice@)
            },
            _ => false,
        }),
{
    if total as usize > MAX_SAVE_BYTES {
        return Upload::Oversized;
    }
    if slice.len() > total as usize || offset as usize > total as usize - slice.len() {
        return Upload::Malformed;
    }
    if collect(buf, offset, slice, total) {
        let mut image: Vec<u8> = Vec::new();
        image.append(buf);
        Upload::Complete(image)
    } else {
        Upload::More
    }
}

/// Takes in one slice of a save on its way from the game, which has been checked to lie within
/// its total. Returns the save when it is whole.
pub fn take_game_slice(buf: &mut Vec<u8>, offset: u32, total: u32, slice: &[u8]) -> (r: Option<
    Vec<u8>,
>)
    ensures
        match r {
            Some(image) => {
                &&& completes(old(buf)@, offset as int, slice@, total as int)
                &&& image@ == collected(old(buf)@, offset as int, slice@)
                &&& final(buf)@ == Seq::<u8>::empty()
            },
            None => {
                &&& !completes(old(buf)@, offset as int, slice@, total as int)
                &&& final(buf)@ == collected(old(buf)@, offset as int, slice@)
            },
        },
{
    if collect(buf, offset, slice, total) {
        let mut image: Vec<u8> = Vec::new();
        image.append(buf);
        Some(image)
    } else {
        None
    }
}

// ---------------------------------------------------------------------------------------------
// Blocks
// ---------------------------------------------------------------------------------------------

/// A block on its way in: which one, and what of it has arrived.
pub struct BlockBuffer {
    pub block: Option<u8>,
    pub data: Vec<u8>,
}

/// What a chunk of a block amounts to.
pub enum BlockStep {
    /// There is no such block, or a client may not report it.
    Unknown,
    Malformed,
    More,
    Complete(Vec<u8>),
}

/// The most that a block may be reported with: the size of its sectors; nothing for a block that
/// may not be reported.
pub open spec fn block_room(block: u8) -> Option<int> {
    if block == TAIL_BLOCK {
        Some(0x4000)
    } else {
        match image::reportable_sectors(block) {
            Some(sectors) => Some(sectors.len() as int * 3968),
            None => None,
        }
    }
}

/// The chunk is one that a client can honestly send. The tail is reported whole; of the other
/// blocks no more than their sectors hold, since the game's structs are smaller than those.
pub open spec fn sound_chunk(block: u8, offset: int, total: int, len: int) -> bool {
    &&& block_room(block) is Some
    &&& block == TAIL_BLOCK ==> total == 0x4000
    &&& total <= block_room(block)->0
    &&& offset + len <= total
    &&& len <= MAX_CHUNK
}

/// What was collected of this block; nothing where it was another.
pub open spec fn block_so_far(block: Option<u8>, data: Seq<u8>, want: u8) -> Seq<u8> {
    if block == Some(want) {
        data
    } else {
        Seq::empty()
    }
}

fn room_of(block: u8) -> (r: Option<usize>)
    ensures
        match r {
            Some(n) => block_room(block) == Some(n as int),
            None => block_room(block) is None,
        },
{
    if block == TAIL_BLOCK {
        return Some(4 * SECTOR_SIZE);
    }
    match image::reportable_block(block) {
        Some(sectors) => {
            assert(sectors@.len() <= 9);
            Some(sectors.len() * SECTOR_DATA_SIZE)
        },
        None => None,
    }
}

/// Takes in one chunk of a block. Restarting part way through, or arriving out of order, begins
/// again rather than stitching together pieces of two different versions of the block.
pub fn take_block_chunk(buf: &mut BlockBuffer, block: u8, offset: u32, total: u32, chunk: &[u8]) -> (r:
    BlockStep)
    ensures
        r is Unknown <==> block_room(block) is None,
        r is Unknown ==> *final(buf) == *old(buf),
        r is Malformed <==> block_room(block) is Some && !sound_chunk(
            block,
            offset as int,
            total as int,
            chunk@.len() as int,
        ),
        r is Malformed ==> final(buf).data@ == Seq::<u8>::empty() && final(buf).block == old(
            buf,
        ).block,
        sound_chunk(block, offset as int, total as int, chunk@.len() as int) ==> ({
            let had = block_so_far(old(buf).block, old(buf).data@, block);
            match r {
                BlockStep::Complete(data) => {
                    &&& completes(had, offset as int, chunk@, total as int)
                    &&& data@ == collected(had, offset as int, chunk@)
                    &&& final(buf).data@ == Seq::<u8>::empty()
                    &&& final(buf).block is None
                },
                BlockStep::More => {
                    &&& !completes(had, offset as int, chunk@, total as int)
                    &&& final(buf).data@ == collected(had, offset as int, chunk@)
                    &&& final(buf).block == Some(block)
                },
                _ => false,
            }
        }),
{
    let room: usize = match room_of(block) {
        Some(room) => room,
        None => {
            return BlockStep::Unknown;
        },
    };
    if total as usize > room || (block == TAIL_BLOCK && total as usize != TAIL_LEN) || chunk.len()
        > MAX_CHUNK || chunk.len() > total as usize || offset as usize > total as usize
        - chunk.len() {
        buf.data.clear();
        return BlockStep::Malformed;
    }
    let same: bool = match buf.block {
        Some(b) => b == block,
        None => false,
    };
    if !same {
        buf.data.clear();
    }
    buf.block = Some(block);
    if collect(&mut buf.data, offset, chunk, total) {
        let mut data: Vec<u8> = Vec::new();
        data.append(&mut buf.data);
        buf.block = None;
        BlockStep::Complete(data)
    } else {
        BlockStep::More
    }
}

// ---------------------------------------------------------------------------------------------
// Cutting
// ---------------------------------------------------------------------------------------------

/// One slice of an image, and where it belongs.
pub struct Slice {
    pub offset: u32,
    pub bytes: Vec<u8>,
}

/// Where slice `k` of an image ends.
pub open spec fn slice_end(image: Seq<u8>, size: int, k: int) -> int {
    if k * size + size <= image.len() {
        k * size + size
    } else {
        image.len() as int
    }
}

/// The slices are those of an image, all of this size but the last, which may be shorter.
pub open spec fn are_slices(slices: Seq<Slice>, image: Seq<u8>, size: int) -> bool {
    &&& slices.len() * size >= image.len()
    &&& (slices.len() - 1) * size < image.len() || slices.len() == 0
    &&& forall|k: int|
        0 <= k < slices.len() ==> {
            &&& (#[trigger] slices[k]).offset == k * size
            &&& slices[k].bytes@ == image.subrange(k * size, slice_end(image, size, k))
        }
}

/// Cuts an image into slices of `size` bytes, the last of which may be shorter.
pub fn cut(image: &[u8], size: usize) -> (r: Vec<Slice>)
    requires
        size > 0,
        image@.len() <= u32::MAX,
    ensures
        are_slices(r@, image@, size as int),
{
    assert(image.len() == image@.len());
    let mut out: Vec<Slice> = Vec::new();
    let mut at: usize = 0;
    assert(0 * size == 0) by (nonlinear_arith);
    while at < image.len()
        invariant
            size > 0,
            at <= image@.len() <= u32::MAX,
            at == out@.len() * size || at == image@.len() < out@.len() * size,
            (out@.len() - 1) * size < image@.len() || out@.len() == 0,
            forall|k: int|
                0 <= k < out@.len() ==> {
                    &&& (#[trigger] out@[k]).offset == k * size
                    &&& out@[k].bytes@ == image@.subrange(
                        k * size,
                        slice_end(image@, size as int, k),
                    )
                },
        decreases image@.len() - at,
    {
        let len: usize = if image.len() - at < size {
            image.len() - at
        } else {
            size
        };
        let slice = Slice { offset: at as u32, bytes: bytes::copy_range(image, at, len) };
        proof {
            let n = out@.len() as int;
            assert((n + 1) * size == n * size + size) by (nonlinear_arith);
            assert((n + 1 - 1) * size == n * size) by (nonlinear_arith);
        }
        out.push(slice);
        at = at + len;
    }
    out
}

// ---------------------------------------------------------------------------------------------
// Laws
// ---------------------------------------------------------------------------------------------

/// A slice that continues what was collected extends it, and the last one completes it.
pub proof fn law_slices_in_order_add_up(image: Seq<u8>, from: int, to: int)
    requires
        0 <= from <= to <= image.len(),
    ensures
        ({
            let had = image.subrange(0, from);
            let slice = image.subrange(from, to);
            &&& collected(had, from, slice) == image.subrange(0, to)
            &&& completes(had, from, slice, image.len() as int) <==> to == image.len()
        }),
{
    let had = image.subrange(0, from);
    let slice = image.subrange(from, to);
    if from == 0 {
        assert(Seq::<u8>::empty() + slice =~= image.subrange(0, to));
    } else {
        assert(had + slice =~= image.subrange(0, to));
    }
}

/// What is collected after the first `n` slices of an image.
pub open spec fn after_slices(slices: Seq<Slice>, n: nat) -> Seq<u8>
    decreases n,
{
    if n == 0 {
        Seq::empty()
    } else {
        collected(
            after_slices(slices, (n - 1) as nat),
            slices[n - 1].offset as int,
            slices[n - 1].bytes@,
        )
    }
}

/// An image that is cut into slices and put back together is the image, and it is complete with
/// the last slice and not before.
pub proof fn law_cut_images_are_put_back_together(
    slices: Seq<Slice>,
    image: Seq<u8>,
    size: int,
    n: nat,
)
    requires
        size > 0,
        are_slices(slices, image, size),
        0 < n <= slices.len(),
    ensures
        after_slices(slices, n) == image.subrange(0, slice_end(image, size, n - 1)),
        completes(
            after_slices(slices, (n - 1) as nat),
            slices[n - 1].offset as int,
            slices[n - 1].bytes@,
            image.len() as int,
        ) <==> n == slices.len(),
        n == slices.len() ==> after_slices(slices, n) == image,
    decreases n,
{
    let k = n - 1;
    let from = k * size;
    let to = slice_end(image, size, k);
    assert(slices[k].offset == from);
    assert(k * size <= (slices.len() - 1) * size) by (nonlinear_arith)
        requires
            k <= slices.len() - 1,
            size > 0,
    ;
    assert(0 <= k * size) by (nonlinear_arith)
        requires
            0 <= k,
            size > 0,
    ;
    if n > 1 {
        law_cut_images_are_put_back_together(slices, image, size, (n - 1) as nat);
        assert((k - 1) * size + size == k * size) by (nonlinear_arith);
    } else {
        assert(0 * size == 0) by (nonlinear_arith);
        assert(Seq::<u8>::empty() =~= image.subrange(0, 0));
    }
    law_slices_in_order_add_up(image, from, to);
    assert(k * size + size == (k + 1) * size) by (nonlinear_arith);
    if n < slices.len() {
        assert((k + 1) * size <= (slices.len() - 1) * size) by (nonlinear_arith)
            requires
                k + 1 <= slices.len() - 1,
                size > 0,
        ;
    } else {
        assert(image.subrange(0, image.len() as int) =~= image);
    }
}

} // verus!
