//! Little-endian integers inside byte buffers.

use vstd::prelude::*;

verus! {

/// The `u16` stored little-endian at `at`.
pub open spec fn le16(b: Seq<u8>, at: int) -> u16 {
    (b[at] + 0x100 * b[at + 1]) as u16
}

/// The `u32` stored little-endian at `at`.
pub open spec fn le32(b: Seq<u8>, at: int) -> u32 {
    (b[at] + 0x100 * b[at + 1] + 0x1_0000 * b[at + 2] + 0x100_0000 * b[at + 3]) as u32
}

/// The two bytes of `x`, least significant first.
pub open spec fn bytes16(x: u16) -> Seq<u8> {
    seq![(x % 0x100) as u8, (x / 0x100) as u8]
}

/// The four bytes of `x`, least significant first.
pub open spec fn bytes32(x: u32) -> Seq<u8> {
    seq![
        (x % 0x100) as u8,
        (x / 0x100 % 0x100) as u8,
        (x / 0x1_0000 % 0x100) as u8,
        (x / 0x100_0000) as u8,
    ]
}

/// `b` with the bytes of `w` laid over it from `at` on.
pub open spec fn overlay(b: Seq<u8>, at: int, w: Seq<u8>) -> Seq<u8> {
    Seq::new(
        b.len(),
        |i: int| if at <= i < at + w.len() { w[i - at] } else { b[i] },
    )
}

/// `b` is read back at `at` as the same bytes from any buffer that agrees with it there.
pub proof fn lemma_le_agree(a: Seq<u8>, at: int, b: Seq<u8>, bt: int, len: int)
    requires
        0 <= at,
        0 <= bt,
        at + len <= a.len(),
        bt + len <= b.len(),
        forall|i: int| 0 <= i < len ==> #[trigger] a[at + i] == b[bt + i],
    ensures
        len >= 2 ==> le16(a, at) == le16(b, bt),
        len >= 4 ==> le32(a, at) == le32(b, bt),
{
    if len >= 2 {
        assert(a[at + 0] == b[bt + 0]);
        assert(a[at + 1] == b[bt + 1]);
    }
    if len >= 4 {
        assert(a[at + 2] == b[bt + 2]);
        assert(a[at + 3] == b[bt + 3]);
    }
}

/// Writing a `u16` and reading it back gives the same number.
pub proof fn lemma_bytes16(b: Seq<u8>, at: int, x: u16)
    requires
        0 <= at,
        at + 2 <= b.len(),
    ensures
        le16(overlay(b, at, bytes16(x)), at) == x,
        le16(bytes16(x), 0) == x,
{
}

/// Writing a `u32` and reading it back gives the same number.
pub proof fn lemma_bytes32(b: Seq<u8>, at: int, x: u32)
    requires
        0 <= at,
        at + 4 <= b.len(),
    ensures
        le32(overlay(b, at, bytes32(x)), at) == x,
        le32(bytes32(x), 0) == x,
{
}

/// Reading a `u16` and writing it back leaves the buffer as it was.
pub proof fn lemma_le16_restores(b: Seq<u8>, at: int)
    requires
        0 <= at,
        at + 2 <= b.len(),
    ensures
        overlay(b, at, bytes16(le16(b, at))) == b,
{
    assert(overlay(b, at, bytes16(le16(b, at))) =~= b);
}

/// Reads the `u16` stored little-endian at `at`.
pub fn get16(b: &[u8], at: usize) -> (r: u16)
    requires
        at + 2 <= b@.len(),
    ensures
        r == le16(b@, at as int),
{
    b[at] as u16 + 0x100 * (b[at + 1] as u16)
}

/// Reads the `u32` stored little-endian at `at`.
pub fn get32(b: &[u8], at: usize) -> (r: u32)
    requires
        at + 4 <= b@.len(),
    ensures
        r == le32(b@, at as int),
{
    b[at] as u32 + 0x100 * (b[at + 1] as u32) + 0x1_0000 * (b[at + 2] as u32) + 0x100_0000 * (
    b[at + 3] as u32)
}

/// Stores `x` little-endian at `at`.
pub fn put16(b: &mut Vec<u8>, at: usize, x: u16)
    requires
        at + 2 <= old(b)@.len(),
    ensures
        final(b)@ == overlay(old(b)@, at as int, bytes16(x)),
{
    assert(b.len() == b@.len());
    b[at] = (x % 0x100) as u8;
    b[at + 1] = (x / 0x100) as u8;
    assert(b@ =~= overlay(old(b)@, at as int, bytes16(x)));
}

/// Stores `x` little-endian at `at`.
pub fn put32(b: &mut Vec<u8>, at: usize, x: u32)
    requires
        at + 4 <= old(b)@.len(),
    ensures
        final(b)@ == overlay(old(b)@, at as int, bytes32(x)),
{
    assert(b.len() == b@.len());
    b[at] = (x % 0x100) as u8;
    b[at + 1] = (x / 0x100 % 0x100) as u8;
    b[at + 2] = (x / 0x1_0000 % 0x100) as u8;
    b[at + 3] = (x / 0x100_0000) as u8;
    assert(b@ =~= overlay(old(b)@, at as int, bytes32(x)));
}

/// Lays the bytes of `w` over `b` from `at` on.
pub fn put_all(b: &mut Vec<u8>, at: usize, w: &[u8])
    requires
        at + w@.len() <= old(b)@.len(),
    ensures
        final(b)@ == overlay(old(b)@, at as int, w@),
{
    let ghost before = b@;
    assert(b.len() == b@.len());
    let n: usize = w.len();
    let mut i: usize = 0;
    while i < n
        invariant
            i <= n,
            n == w@.len(),
            at + n <= before.len() <= usize::MAX,
            b@ =~= overlay(before, at as int, w@.subrange(0, i as int)),
        decreases n - i,
    {
        b[at + i] = w[i];
        i = i + 1;
    }
    assert(w@.subrange(0, n as int) =~= w@);
}

/// The `len` bytes of `b` from `at` on.
pub fn copy_range(b: &[u8], at: usize, len: usize) -> (r: Vec<u8>)
    requires
        at + len <= b@.len(),
    ensures
        r@ == b@.subrange(at as int, at + len),
{
    assert(b.len() == b@.len());
    let mut r: Vec<u8> = Vec::new();
    push_all(&mut r, vstd::slice::slice_subrange(b, at, at + len));
    assert(r@ =~= b@.subrange(at as int, at + len));
    r
}

/// Appends the bytes of `w`.
pub fn push_all(b: &mut Vec<u8>, w: &[u8])
    ensures
        final(b)@ == old(b)@ + w@,
{
    b.extend_from_slice(w);
    assert(b@ =~= old(b)@ + w@);
}

/// Appends `x` little-endian.
pub fn push16(b: &mut Vec<u8>, x: u16)
    ensures
        final(b)@ == old(b)@ + bytes16(x),
{
    b.push((x % 0x100) as u8);
    b.push((x / 0x100) as u8);
    assert(b@ =~= old(b)@ + bytes16(x));
}

/// Appends `x` little-endian.
pub fn push32(b: &mut Vec<u8>, x: u32)
    ensures
        final(b)@ == old(b)@ + bytes32(x),
{
    b.push((x % 0x100) as u8);
    b.push((x / 0x100 % 0x100) as u8);
    b.push((x / 0x1_0000 % 0x100) as u8);
    b.push((x / 0x100_0000) as u8);
    assert(b@ =~= old(b)@ + bytes32(x));
}

/// Whether two buffers hold the same bytes.
pub fn same_bytes(a: &[u8], b: &[u8]) -> (r: bool)
    ensures
        r == (a@ == b@),
{
    if a.len() != b.len() {
        return false;
    }
    let mut i: usize = 0;
    while i < a.len()
        invariant
            a@.len() == b@.len(),
            i <= a@.len(),
            forall|j: int| 0 <= j < i ==> a@[j] == b@[j],
        decreases a@.len() - i,
    {
        if a[i] != b[i] {
            return false;
        }
        i = i + 1;
    }
    assert(a@ =~= b@);
    true
}

} // verus!
