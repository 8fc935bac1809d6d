//! One Pokemon of the party, as the game stores it.

use crate::bytes;
use vstd::prelude::*;

verus! {

/// The size of a `struct Pokemon`.
pub const MON_SIZE: usize = 100;

/// Within a `struct Pokemon`: the box data, then status, then the level.
pub const MON_OFFSET_LEVEL: usize = 0x54;

/// Within a `struct BoxPokemon`: where the four obfuscated substructs begin.
pub const BOX_OFFSET_SECURE: usize = 32;

/// And where the checksum over those substructs is stored.
pub const BOX_OFFSET_CHECKSUM: usize = 28;

/// Which physical slot each substruct type occupies, chosen by personality % 24: row[type] is the
/// slot that type sits in.
pub const SUBSTRUCT_ORDER: [[usize; 4]; 24] = [
    [0, 1, 2, 3],
    [0, 1, 3, 2],
    [0, 2, 1, 3],
    [0, 3, 1, 2],
    [0, 2, 3, 1],
    [0, 3, 2, 1],
    [1, 0, 2, 3],
    [1, 0, 3, 2],
    [2, 0, 1, 3],
    [3, 0, 1, 2],
    [2, 0, 3, 1],
    [3, 0, 2, 1],
    [1, 2, 0, 3],
    [1, 3, 0, 2],
    [2, 1, 0, 3],
    [3, 1, 0, 2],
    [2, 3, 0, 1],
    [3, 2, 0, 1],
    [1, 2, 3, 0],
    [1, 3, 2, 0],
    [2, 1, 3, 0],
    [3, 1, 2, 0],
    [2, 3, 1, 0],
    [3, 2, 1, 0],
];

/// One Pokemon, as much of it as validation needs.
#[derive(Debug, Clone, PartialEq, Eq)]
pub struct PartyMon {
    /// Immutable for the life of a Pokemon, and effectively unique, so it is what identifies
    /// the same Pokemon across two saves even after the party has been reordered.
    pub personality: u32,
    pub ot_id: u32,
    pub species: u16,
    pub level: u8,
    pub experience: u32,
    /// HP, Attack, Defence, Speed, Sp. Attack, Sp. Defence.
    pub evs: [u8; 6],
    /// Whether the decrypted substructs add up to the checksum stored alongside them, which is
    /// what says the decode worked.
    pub checksum_ok: bool,
}

/// A `PartyMon` as a value of the specification.
#[verifier::ext_equal]
pub struct MonView {
    pub personality: u32,
    pub ot_id: u32,
    pub species: u16,
    pub level: u8,
    pub experience: u32,
    pub evs: Seq<u8>,
    pub checksum_ok: bool,
}

impl View for PartyMon {
    type V = MonView;

    open spec fn view(&self) -> MonView {
        MonView {
            personality: self.personality,
            ot_id: self.ot_id,
            species: self.species,
            level: self.level,
            experience: self.experience,
            evs: self.evs@,
            checksum_ok: self.checksum_ok,
        }
    }
}

/// The `k`th word of the substructs, its obfuscation undone.
pub open spec fn plain_word(mon: Seq<u8>, k: int) -> u32 {
    bytes::le32(mon, 32 + 4 * k) ^ (bytes::le32(mon, 0) ^ bytes::le32(mon, 4))
}

/// The four substructs, their obfuscation undone.
pub open spec fn plain(mon: Seq<u8>) -> Seq<u8> {
    Seq::new(48, |i: int| bytes::bytes32(plain_word(mon, i / 4))[i % 4])
}

/// The sum of the first `n` little-endian 16-bit words.
pub open spec fn half_sum(data: Seq<u8>, n: nat) -> nat
    decreases n,
{
    if n == 0 {
        0
    } else {
        half_sum(data, (n - 1) as nat) + bytes::le16(data, 2 * (n - 1)) as nat
    }
}

/// Where the substruct of this type begins among the plain substructs.
pub open spec fn substruct_at(personality: u32, kind: int) -> int {
    SUBSTRUCT_ORDER@[(personality % 24) as int]@[kind] * 12
}

/// What the bytes of a `struct Pokemon` say; nothing for an empty slot.
pub open spec fn mon_of(mon: Seq<u8>) -> Option<MonView> {
    let personality = bytes::le32(mon, 0);
    let growth = substruct_at(personality, 0);
    let effort = substruct_at(personality, 2);
    let p = plain(mon);
    if mon.len() <= 0x54 || bytes::le16(p, growth) == 0 {
        None
    } else {
        Some(
            MonView {
                personality,
                ot_id: bytes::le32(mon, 4),
                species: bytes::le16(p, growth),
                level: mon[0x54],
                experience: bytes::le32(p, growth + 4),
                evs: p.subrange(effort, effort + 6),
                checksum_ok: half_sum(p, 24) % 0x1_0000 == bytes::le16(mon, 28),
            },
        )
    }
}

/// Every row of the table puts the four substructs into four different slots.
pub proof fn law_substructs_are_shuffled(row: int)
    requires
        0 <= row < 24,
    ensures
        forall|kind: int| 0 <= kind < 4 ==> #[trigger] SUBSTRUCT_ORDER@[row]@[kind] < 4,
        forall|a: int, b: int|
            0 <= a < b < 4 ==> #[trigger] SUBSTRUCT_ORDER@[row]@[a]
                != #[trigger] SUBSTRUCT_ORDER@[row]@[b],
{
}

/// Undoes the obfuscation of the four substructs: each word is exclusive-ored with
/// personality ^ otId.
fn decrypt(mon: &[u8]) -> (r: Vec<u8>)
    requires
        mon@.len() > 0x54,
    ensures
        r@ == plain(mon@),
{
    let key: u32 = bytes::get32(mon, 0) ^ bytes::get32(mon, 4);
    let mut out: Vec<u8> = Vec::new();
    let mut k: usize = 0;
    while k < 12
        invariant
            k <= 12,
            mon@.len() > 0x54,
            key == bytes::le32(mon@, 0) ^ bytes::le32(mon@, 4),
            out@ =~= plain(mon@).subrange(0, 4 * k),
        decreases 12 - k,
    {
        let word: u32 = bytes::get32(mon, BOX_OFFSET_SECURE + 4 * k) ^ key;
        bytes::push32(&mut out, word);
        proof {
            assert(word == plain_word(mon@, k as int));
            assert forall|i: int| 0 <= i < 4 * (k + 1) implies out@[i] == plain(mon@)[i] by {
                if i >= 4 * k {
                    assert(i / 4 == k);
                    assert(i % 4 == i - 4 * k);
                }
            }
        }
        k = k + 1;
    }
    assert(plain(mon@).subrange(0, 48) =~= plain(mon@));
    out
}

/// The game's own sum over the plain substructs, as 16-bit words.
fn substruct_sum(p: &[u8]) -> (r: u16)
    requires
        p@.len() == 48,
    ensures
        r == half_sum(p@, 24) % 0x1_0000,
{
    let mut sum: u16 = 0;
    let mut n: usize = 0;
    while n < 24
        invariant
            n <= 24,
            p@.len() == 48,
            sum == half_sum(p@, n as nat) % 0x1_0000,
        decreases 24 - n,
    {
        sum = sum.wrapping_add(bytes::get16(p, 2 * n));
        n = n + 1;
    }
    sum
}

/// Pulls one `struct Pokemon` apart. Returns None for an empty slot.
pub fn read_mon(mon: &[u8]) -> (r: Option<PartyMon>)
    ensures
        match r {
            Some(m) => mon_of(mon@) == Some(m@),
            None => mon_of(mon@) is None,
        },
{
    if mon.len() <= MON_OFFSET_LEVEL {
        return None;
    }
    let personality: u32 = bytes::get32(mon, 0);
    let ot_id: u32 = bytes::get32(mon, 4);
    let p: Vec<u8> = decrypt(mon);
    let stored: u16 = bytes::get16(mon, BOX_OFFSET_CHECKSUM);
    let row: usize = (personality % 24) as usize;
    proof {
        law_substructs_are_shuffled(row as int);
        assert(SUBSTRUCT_ORDER@[row as int]@[0] < 4);
        assert(SUBSTRUCT_ORDER@[row as int]@[2] < 4);
    }
    let growth: usize = SUBSTRUCT_ORDER[row][0] * 12;
    let effort: usize = SUBSTRUCT_ORDER[row][2] * 12;
    let species: u16 = bytes::get16(&p, growth);
    if species == 0 {
        return None;
    }
    let experience: u32 = bytes::get32(&p, growth + 4);
    let evs: [u8; 6] = [
        p[effort],
        p[effort + 1],
        p[effort + 2],
        p[effort + 3],
        p[effort + 4],
        p[effort + 5],
    ];
    let checksum_ok = substruct_sum(&p) == stored;
    assert(evs@ =~= plain(mon@).subrange(effort as int, effort + 6));
    Some(
        PartyMon {
            personality,
            ot_id,
            species,
            level: mon[MON_OFFSET_LEVEL],
            experience,
            evs,
            checksum_ok,
        },
    )
}

} // verus!
