//! What the server takes from a save image.

use super::image;
use super::image::{NUM_SECTORS, SAVEBLOCK1_SECTORS, SECTOR_SIZE};
use super::mon;
use super::mon::{MonView, PartyMon, MON_SIZE};
use crate::bytes;
use vstd::prelude::*;

verus! {

/// Sector id holding SaveBlock2, which carries the key the rest is obfuscated with.
pub const SAVEBLOCK2_SECTOR: u16 = 0;

/// Offset of the obfuscation key within SaveBlock2.
pub const OFFSET_ENCRYPTION_KEY: usize = 0xAC;

/// Offsets within SaveBlock1.
pub const OFFSET_PARTY: usize = 0x238;

pub const PARTY_SIZE: usize = 6;

pub const OFFSET_MONEY: usize = 0x490;

pub const OFFSET_COINS: usize = 0x494;

/// The bag, pocket by pocket: offset and slot count. Each pocket's offset plus four bytes a slot
/// lands exactly on the next. Items, Key Items, Poke Balls, TMs and HMs, Berries.
pub const BAG_POCKETS: [(usize, usize); 5] = [
    (0x560, 30),
    (0x5D8, 30),
    (0x650, 16),
    (0x690, 64),
    (0x790, 46),
];

pub const OFFSET_FLAGS: usize = 0x1270;

/// Which species this character has seen. A bitfield, one bit per species.
pub const OFFSET_SEEN: usize = 0x988;

/// Sixty-four counters: steps taken, battles won, Pokemon caught, and so on.
pub const OFFSET_GAME_STATS: usize = 0x159C;

pub const GAME_STAT_COUNT: usize = 64;

/// Berry trees: what is planted where and how far along it is. 0x169C to 0x1A9C.
pub const OFFSET_BERRY_TREES: usize = 0x169C;

pub const BERRY_TREE_BYTES: usize = 0x400;

/// Trainer rematch state and the step counter that drives it. 0x9C8 to 0xA2E.
pub const OFFSET_REMATCHES: usize = 0x9C8;

pub const REMATCH_BYTES: usize = 0x66;

pub const DEX_FLAG_BYTES: usize = 52;

pub const OFFSET_VARS: usize = 0x139C;

pub const FLAG_BYTES: usize = OFFSET_VARS - OFFSET_FLAGS;

pub const VAR_COUNT: usize = 256;

/// What the server takes from a save image.
///
/// Flags and vars are kept as the game's own bitfield and array rather than interpreted.
#[derive(Debug, Clone, PartialEq, Eq)]
pub struct SaveState {
    pub flags: Vec<u8>,
    pub vars: Vec<u16>,
    /// Still obfuscated. See `money`.
    pub money_raw: u32,
    /// Still obfuscated. See `coins`.
    pub coins_raw: u16,
    /// The key the save was written with, from SaveBlock2.
    pub encryption_key: u32,
    /// The party, empty slots omitted.
    pub party: Vec<PartyMon>,
    /// The bag: (pocket, item id, quantity), empty slots omitted.
    pub bag: Vec<(u8, u16, u16)>,
    /// Which species have been seen, as the game's own bitfield.
    pub seen: Vec<u8>,
    /// The whole of SaveBlock1, exactly as the game wrote it, so that nothing is lost of the
    /// parts that no other field interprets.
    pub block1: Vec<u8>,
    /// Berry trees and trainer rematch state, kept as the game's own bytes.
    pub berry_trees: Vec<u8>,
    pub rematches: Vec<u8>,
    /// The sixty-four game counters, in the game's own order.
    pub game_stats: Vec<u32>,
}

/// A `SaveState` as a value of the specification.
#[verifier::ext_equal]
pub struct SaveView {
    pub flags: Seq<u8>,
    pub vars: Seq<u16>,
    pub money_raw: u32,
    pub coins_raw: u16,
    pub encryption_key: u32,
    pub party: Seq<MonView>,
    pub bag: Seq<(u8, u16, u16)>,
    pub seen: Seq<u8>,
    pub block1: Seq<u8>,
    pub berry_trees: Seq<u8>,
    pub rematches: Seq<u8>,
    pub game_stats: Seq<u32>,
}

/// The party as values of the specification.
pub open spec fn party_view(party: Seq<PartyMon>) -> Seq<MonView> {
    Seq::new(party.len(), |i: int| party[i]@)
}

impl View for SaveState {
    type V = SaveView;

    open spec fn view(&self) -> SaveView {
        SaveView {
            flags: self.flags@,
            vars: self.vars@,
            money_raw: self.money_raw,
            coins_raw: self.coins_raw,
            encryption_key: self.encryption_key,
            party: party_view(self.party@),
            bag: self.bag@,
            seen: self.seen@,
            block1: self.block1@,
            berry_trees: self.berry_trees@,
            rematches: self.rematches@,
            game_stats: self.game_stats@,
        }
    }
}

impl SaveView {
    /// The player's money, its obfuscation undone.
    pub open spec fn money(self) -> u32 {
        self.money_raw ^ self.encryption_key
    }

    /// Game Corner coins, their obfuscation undone.
    pub open spec fn coins(self) -> u16 {
        self.coins_raw ^ (self.encryption_key as u16)
    }
}

// ---------------------------------------------------------------------------------------------
// What a block says
// ---------------------------------------------------------------------------------------------

/// Where a slot of a pocket stands in SaveBlock1.
pub open spec fn slot_at(pocket: int, slot: int) -> int {
    BAG_POCKETS@[pocket].0 + slot * 4
}

/// The item in a slot of a pocket; 0 where the slot is empty.
pub open spec fn slot_item(block: Seq<u8>, pocket: int, slot: int) -> u16 {
    bytes::le16(block, slot_at(pocket, slot))
}

/// How many of the item a slot holds. Quantities are obfuscated with the low half of the key.
pub open spec fn slot_quantity(block: Seq<u8>, key: u32, pocket: int, slot: int) -> u16 {
    bytes::le16(block, slot_at(pocket, slot) + 2) ^ (key as u16)
}

/// What the first `n` slots of a pocket hold, empty slots omitted.
pub open spec fn pocket_of(block: Seq<u8>, key: u32, pocket: int, n: nat) -> Seq<(u8, u16, u16)>
    decreases n,
{
    if n == 0 {
        Seq::empty()
    } else {
        let rest = pocket_of(block, key, pocket, (n - 1) as nat);
        let item = slot_item(block, pocket, n - 1);
        if item == 0 {
            rest
        } else {
            rest.push((pocket as u8, item, slot_quantity(block, key, pocket, n - 1)))
        }
    }
}

/// What the first `n` pockets hold.
pub open spec fn bag_of(block: Seq<u8>, key: u32, n: nat) -> Seq<(u8, u16, u16)>
    decreases n,
{
    if n == 0 {
        Seq::empty()
    } else {
        bag_of(block, key, (n - 1) as nat) + pocket_of(
            block,
            key,
            n - 1,
            BAG_POCKETS@[n - 1].1 as nat,
        )
    }
}

/// The bytes of a place in the party.
pub open spec fn mon_bytes(block: Seq<u8>, i: int) -> Seq<u8> {
    block.subrange(0x238 + i * 100, 0x238 + i * 100 + 100)
}

/// Who stands in the first `n` places of the party, empty ones omitted.
pub open spec fn party_of(block: Seq<u8>, n: nat) -> Seq<MonView>
    decreases n,
{
    if n == 0 {
        Seq::empty()
    } else {
        let rest = party_of(block, (n - 1) as nat);
        match mon::mon_of(mon_bytes(block, n - 1)) {
            Some(m) => rest.push(m),
            None => rest,
        }
    }
}

/// What a SaveBlock1 says under this key.
pub open spec fn state_of(block: Seq<u8>, key: u32) -> SaveView {
    SaveView {
        flags: block.subrange(0x1270, 0x139C),
        vars: Seq::new(256, |i: int| bytes::le16(block, 0x139C + 2 * i)),
        money_raw: bytes::le32(block, 0x490),
        coins_raw: bytes::le16(block, 0x494),
        encryption_key: key,
        party: party_of(block, 6),
        bag: bag_of(block, key, 5),
        seen: block.subrange(0x988, 0x9BC),
        block1: block,
        berry_trees: block.subrange(0x169C, 0x1A9C),
        rematches: block.subrange(0x9C8, 0xA2E),
        game_stats: Seq::new(64, |i: int| bytes::le32(block, 0x159C + 4 * i) ^ key),
    }
}

/// The key in a slot's SaveBlock2; zero where the slot has none.
pub open spec fn key_of(im: Seq<u8>, slot: int) -> u32 {
    match image::sector_of(im, slot, SAVEBLOCK2_SECTOR) {
        Some(index) => bytes::le32(im, index * 4096 + 0xAC),
        None => 0,
    }
}

/// What a whole flash image says; nothing for an image that is not a save at all: of the wrong size,
/// or with no slot the game would load.
pub open spec fn parsed(im: Seq<u8>) -> Option<SaveView> {
    if im.len() != 32 * 4096 {
        None
    } else {
        match (image::newest(im), image::block_of(im, SAVEBLOCK1_SECTORS@)) {
            (Some(slot), Some(block)) => Some(state_of(block, key_of(im, slot))),
            _ => None,
        }
    }
}

// ---------------------------------------------------------------------------------------------
// Reading it
// ---------------------------------------------------------------------------------------------

impl SaveState {
    /// The player's money.
    ///
    /// Stored exclusive-ored with a key held in SaveBlock2, which the game re-rolls on every
    /// battle, so only the decoded value is comparable between two saves.
    pub fn money(&self) -> (r: u32)
        ensures
            r == self@.money(),
    {
        self.money_raw ^ self.encryption_key
    }

    /// Game Corner coins, obfuscated with the low half of the same key.
    pub fn coins(&self) -> (r: u16)
        ensures
            r == self@.coins(),
    {
        self.coins_raw ^ (self.encryption_key as u16)
    }
}

fn read_words16(block: &[u8], at: usize, count: usize) -> (r: Vec<u16>)
    requires
        at + 2 * count <= block@.len(),
    ensures
        r@ == Seq::new(count as nat, |i: int| bytes::le16(block@, at + 2 * i)),
{
    assert(block.len() == block@.len());
    let mut out: Vec<u16> = Vec::new();
    let mut i: usize = 0;
    while i < count
        invariant
            i <= count,
            at + 2 * count <= block@.len() <= usize::MAX,
            out@ =~= Seq::new(i as nat, |j: int| bytes::le16(block@, at + 2 * j)),
        decreases count - i,
    {
        out.push(bytes::get16(block, at + 2 * i));
        i = i + 1;
    }
    out
}

fn read_stats(block: &[u8], key: u32) -> (r: Vec<u32>)
    requires
        block@.len() >= 0x169C,
    ensures
        r@ == Seq::new(64, |i: int| bytes::le32(block@, 0x159C + 4 * i) ^ key),
{
    let mut out: Vec<u32> = Vec::new();
    let mut i: usize = 0;
    while i < GAME_STAT_COUNT
        invariant
            i <= 64,
            block@.len() >= 0x169C,
            out@ =~= Seq::new(i as nat, |j: int| bytes::le32(block@, 0x159C + 4 * j) ^ key),
        decreases 64 - i,
    {
        out.push(bytes::get32(block, OFFSET_GAME_STATS + 4 * i) ^ key);
        i = i + 1;
    }
    out
}

/// Every pocket ends within SaveBlock1.
pub proof fn lemma_pockets(pocket: int, slot: int)
    requires
        0 <= pocket < 5,
        0 <= slot < BAG_POCKETS@[pocket].1,
    ensures
        0x560 <= slot_at(pocket, slot) <= 0x844,
{
}

fn read_bag(block: &[u8], key: u32) -> (r: Vec<(u8, u16, u16)>)
    requires
        block@.len() >= 0x848,
    ensures
        r@ == bag_of(block@, key, 5),
{
    let mut bag: Vec<(u8, u16, u16)> = Vec::new();
    let mut pocket: usize = 0;
    while pocket < 5
        invariant
            pocket <= 5,
            block@.len() >= 0x848,
            bag@ == bag_of(block@, key, pocket as nat),
        decreases 5 - pocket,
    {
        let ghost before = bag@;
        let (at, slots): (usize, usize) = BAG_POCKETS[pocket];
        let mut slot: usize = 0;
        while slot < slots
            invariant
                slot <= slots,
                pocket < 5,
                block@.len() >= 0x848,
                at == BAG_POCKETS@[pocket as int].0,
                slots == BAG_POCKETS@[pocket as int].1,
                bag@ =~= before + pocket_of(block@, key, pocket as int, slot as nat),
            decreases slots - slot,
        {
            proof {
                lemma_pockets(pocket as int, slot as int);
            }
            let off: usize = at + slot * 4;
            let item: u16 = bytes::get16(block, off);
            if item != 0 {
                let quantity: u16 = bytes::get16(block, off + 2) ^ (key as u16);
                bag.push((pocket as u8, item, quantity));
            }
            slot = slot + 1;
        }
        pocket = pocket + 1;
    }
    bag
}

fn read_party(block: &[u8]) -> (r: Vec<PartyMon>)
    requires
        block@.len() >= 0x490,
    ensures
        party_view(r@) == party_of(block@, 6),
{
    let mut party: Vec<PartyMon> = Vec::new();
    let mut i: usize = 0;
    while i < PARTY_SIZE
        invariant
            i <= 6,
            block@.len() >= 0x490,
            party_view(party@) =~= party_of(block@, i as nat),
        decreases 6 - i,
    {
        let at: usize = OFFSET_PARTY + i * MON_SIZE;
        match mon::read_mon(vstd::slice::slice_subrange(block, at, at + MON_SIZE)) {
            Some(m) => {
                party.push(m);
            },
            None => {},
        }
        i = i + 1;
    }
    party
}

/// Reads what the server cares about out of a SaveBlock1.
fn read_state(block: Vec<u8>, key: u32) -> (r: SaveState)
    requires
        block@.len() == 4 * 3968,
    ensures
        r@ == state_of(block@, key),
{
    let vars: Vec<u16> = read_words16(&block, OFFSET_VARS, VAR_COUNT);
    let game_stats: Vec<u32> = read_stats(&block, key);
    let r = SaveState {
        flags: bytes::copy_range(&block, OFFSET_FLAGS, FLAG_BYTES),
        vars,
        money_raw: bytes::get32(&block, OFFSET_MONEY),
        coins_raw: bytes::get16(&block, OFFSET_COINS),
        encryption_key: key,
        party: read_party(&block),
        bag: read_bag(&block, key),
        seen: bytes::copy_range(&block, OFFSET_SEEN, DEX_FLAG_BYTES),
        berry_trees: bytes::copy_range(&block, OFFSET_BERRY_TREES, BERRY_TREE_BYTES),
        rematches: bytes::copy_range(&block, OFFSET_REMATCHES, REMATCH_BYTES),
        game_stats,
        block1: block,
    };
    assert(r@ =~= state_of(r.block1@, key));
    r
}

/// Reads what the server cares about out of a whole flash image.
///
/// Returns None for an image that is not a save at all: of the wrong size, or with no slot the
/// game would load. A save that parses is not thereby trusted; it is merely legible.
pub fn parse(im: &[u8]) -> (r: Option<SaveState>)
    ensures
        match r {
            Some(state) => parsed(im@) == Some(state@),
            None => parsed(im@) is None,
        },
{
    if im.len() != NUM_SECTORS * SECTOR_SIZE {
        return None;
    }
    let slot: usize = match image::newest_slot(im) {
        Some(slot) => slot,
        None => {
            return None;
        },
    };
    let block: Vec<u8> = match image::read_slot(im, slot, &SAVEBLOCK1_SECTORS) {
        Some(block) => block,
        None => {
            return None;
        },
    };
    let key: u32 = match image::find_sector(im, slot, SAVEBLOCK2_SECTOR) {
        Some(index) => bytes::get32(im, index * SECTOR_SIZE + OFFSET_ENCRYPTION_KEY),
        None => 0,
    };
    proof {
        super::image_laws::lemma_held_bytes(im@, slot as int, SAVEBLOCK1_SECTORS@);
    }
    Some(read_state(block, key))
}

} // verus!
