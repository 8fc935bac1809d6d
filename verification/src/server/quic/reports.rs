//! Reports of progress: the save that a report implies, and the rules it has to meet.
//!
//! A reported value is trusted no further than an uploaded one. The save it implies is built out
//! of the stored one, and then judged by the same rules that an uploaded save would meet.

use super::super::deadman;
use super::super::economy;
use super::super::quest_flags;
use super::super::quest_flags::BADGE_FLAGS;
use super::super::save_parse::edit;
use super::super::save_parse::image;
use super::super::save_parse::image::SAVEBLOCK1_SECTORS;
use super::super::save_parse::image_laws;
use super::super::save_parse::judge;
use super::super::save_parse::mon::MonView;
use super::super::save_parse::state;
use super::super::save_parse::state::{SaveState, SaveView};
use super::chunks::MAX_CHUNK;
use crate::bytes;
use crate::text;
use vstd::prelude::*;

verus! {

/// The block that stands for SaveBlock2.
pub const SAVEBLOCK2_BLOCK: u8 = 0;

/// The block that stands for the PC boxes.
pub const STORAGE_BLOCK: u8 = 1;

/// A save that a report implies, and what it and the stored one say.
pub struct Candidate {
    pub image: Vec<u8>,
    pub before: SaveState,
    pub after: SaveState,
}

/// Why a report comes to nothing.
pub enum Refusal {
    /// The report is not of a shape that the game could send.
    Malformed,
    /// The stored save cannot be read.
    Unreadable,
    /// The report does not fit into the save: an unlisted region, a full pocket.
    NoPlace,
    /// The save cannot be authored.
    Unbuildable,
    /// The save that was built cannot be read.
    Illegible,
    /// The key or the money moved where neither may.
    KeyMoved,
    /// The save breaks a rule, which is the message.
    Rule(String),
}

/// A `Refusal` as a value of the specification.
pub enum RefusalView {
    Malformed,
    Unreadable,
    NoPlace,
    Unbuildable,
    Illegible,
    KeyMoved,
    Rule(Seq<char>),
}

impl View for Refusal {
    type V = RefusalView;

    open spec fn view(&self) -> RefusalView {
        match *self {
            Refusal::Malformed => RefusalView::Malformed,
            Refusal::Unreadable => RefusalView::Unreadable,
            Refusal::NoPlace => RefusalView::NoPlace,
            Refusal::Unbuildable => RefusalView::Unbuildable,
            Refusal::Illegible => RefusalView::Illegible,
            Refusal::KeyMoved => RefusalView::KeyMoved,
            Refusal::Rule(message) => RefusalView::Rule(message@),
        }
    }
}

/// A `Candidate` as a value of the specification.
pub struct CandidateView {
    pub image: Seq<u8>,
    pub before: SaveView,
    pub after: SaveView,
}

impl View for Candidate {
    type V = CandidateView;

    open spec fn view(&self) -> CandidateView {
        CandidateView { image: self.image@, before: self.before@, after: self.after@ }
    }
}

/// The outcome of a report, taken by its views.
pub open spec fn outcome(r: Result<Candidate, Refusal>) -> Result<CandidateView, RefusalView> {
    match r {
        Ok(c) => Ok(c@),
        Err(e) => Err(e@),
    }
}

// ---------------------------------------------------------------------------------------------
// The rules
// ---------------------------------------------------------------------------------------------

/// Which rules a report has to meet.
#[derive(Debug, Clone, Copy, PartialEq, Eq, Structural)]
pub enum Rules {
    /// Nothing impossible, and no Pokemon going backwards.
    Progress,
    /// These, and no badge lost: for reports that carry the story's flags.
    ProgressAndBadges,
}

/// What is said of a badge that was lost.
pub open spec fn badge_loss(before: SaveView, after: SaveView) -> Option<Seq<char>> {
    match quest_flags::first_lost(before.flags, after.flags, BADGE_FLAGS@, 0) {
        Some(id) => Some(
            "a badge already earned was cleared (flag "@ + text::dec(id as nat) + ")"@,
        ),
        None => None,
    }
}

/// The first rule that a save breaks as the successor of another.
pub open spec fn broken(before: SaveView, after: SaveView, rules: Rules) -> Option<Seq<char>> {
    if judge::fault(after) is Some {
        judge::fault(after)
    } else if judge::party_loss(before.party, after.party, 0) is Some {
        judge::party_loss(before.party, after.party, 0)
    } else if rules is ProgressAndBadges {
        badge_loss(before, after)
    } else {
        None
    }
}

/// The first rule that a save breaks as the successor of another.
pub fn broken_rule(before: &SaveState, after: &SaveState, rules: Rules) -> (r: Option<String>)
    ensures
        judge::says(r, broken(before@, after@, rules)),
{
    let impossible = after.impossible();
    if impossible.is_some() {
        return impossible;
    }
    let regressed = judge::regressed(before, after);
    if regressed.is_some() {
        return regressed;
    }
    match rules {
        Rules::ProgressAndBadges => quest_flags::badge_regressed(before, after),
        Rules::Progress => None,
    }
}

// ---------------------------------------------------------------------------------------------
// Reports on SaveBlock1
// ---------------------------------------------------------------------------------------------

/// What becomes of a stored save when its SaveBlock1 is replaced and the rules are applied.
pub open spec fn authored(
    stored: Seq<u8>,
    before: SaveView,
    block1: Seq<u8>,
    rules: Rules,
) -> Result<CandidateView, RefusalView> {
    match image::reauthored(stored, SAVEBLOCK1_SECTORS@, block1) {
        None => Err(RefusalView::Unbuildable),
        Some(out) => match state::parsed(out) {
            None => Err(RefusalView::Illegible),
            Some(after) => match broken(before, after, rules) {
                Some(message) => Err(RefusalView::Rule(message)),
                None => Ok(CandidateView { image: out, before, after }),
            },
        },
    }
}

fn author(stored: &[u8], before: SaveState, block1: Vec<u8>, rules: Rules) -> (r: Result<
    Candidate,
    Refusal,
>)
    ensures
        outcome(r) == authored(stored@, before@, block1@, rules),
{
    let image: Vec<u8> = match image::reauthor(stored, &block1) {
        Some(image) => image,
        None => {
            return Err(Refusal::Unbuildable);
        },
    };
    let after: SaveState = match state::parse(&image) {
        Some(after) => after,
        None => {
            return Err(Refusal::Illegible);
        },
    };
    match broken_rule(&before, &after, rules) {
        Some(message) => Err(Refusal::Rule(message)),
        None => Ok(Candidate { image, before, after }),
    }
}

/// What a report of money comes to.
pub open spec fn money_reported(stored: Seq<u8>, amount: u32) -> Result<
    CandidateView,
    RefusalView,
> {
    match state::parsed(stored) {
        None => Err(RefusalView::Unreadable),
        Some(before) => authored(
            stored,
            before,
            edit::money_set(before.block1, before.encryption_key, amount),
            Rules::Progress,
        ),
    }
}

/// This character's money is now this.
pub fn report_money(stored: &[u8], amount: u32) -> (r: Result<Candidate, Refusal>)
    ensures
        outcome(r) == money_reported(stored@, amount),
{
    match state::parse(stored) {
        None => Err(Refusal::Unreadable),
        Some(before) => {
            let block1: Vec<u8> = edit::with_money(&before, amount);
            author(stored, before, block1, Rules::Progress)
        },
    }
}

/// What a report of an item comes to.
pub open spec fn item_reported(stored: Seq<u8>, pocket: u8, item: u16, quantity: u16) -> Result<
    CandidateView,
    RefusalView,
> {
    match state::parsed(stored) {
        None => Err(RefusalView::Unreadable),
        Some(before) => match edit::item_set(
            before.block1,
            before.encryption_key,
            pocket as int,
            item,
            quantity,
        ) {
            None => Err(RefusalView::NoPlace),
            Some(block1) => authored(stored, before, block1, Rules::Progress),
        },
    }
}

/// This character now holds `quantity` of `item`, in `pocket`.
pub fn report_item(stored: &[u8], pocket: u8, item: u16, quantity: u16) -> (r: Result<
    Candidate,
    Refusal,
>)
    ensures
        outcome(r) == item_reported(stored@, pocket, item, quantity),
{
    match state::parse(stored) {
        None => Err(Refusal::Unreadable),
        Some(before) => match edit::with_item(&before, pocket, item, quantity) {
            None => Err(Refusal::NoPlace),
            Some(block1) => author(stored, before, block1, Rules::Progress),
        },
    }
}

/// What a report of the party comes to.
pub open spec fn party_reported(stored: Seq<u8>, count: u8, mons: Seq<u8>) -> Result<
    CandidateView,
    RefusalView,
> {
    if mons.len() != 600 || count > 6 {
        Err(RefusalView::Malformed)
    } else {
        match state::parsed(stored) {
            None => Err(RefusalView::Unreadable),
            Some(before) => match edit::party_set(before.block1, count, mons) {
                None => Err(RefusalView::NoPlace),
                Some(block1) => authored(stored, before, block1, Rules::Progress),
            },
        }
    }
}

/// The whole party, as the game's own bytes.
pub fn report_party(stored: &[u8], count: u8, mons: &[u8]) -> (r: Result<Candidate, Refusal>)
    ensures
        outcome(r) == party_reported(stored@, count, mons@),
{
    if mons.len() != 600 || count > 6 {
        return Err(Refusal::Malformed);
    }
    match state::parse(stored) {
        None => Err(Refusal::Unreadable),
        Some(before) => match edit::with_party(&before, count, mons) {
            None => Err(Refusal::NoPlace),
            Some(block1) => author(stored, before, block1, Rules::Progress),
        },
    }
}

/// What a report of a region comes to.
pub open spec fn region_reported(stored: Seq<u8>, offset: u32, data: Seq<u8>) -> Result<
    CandidateView,
    RefusalView,
> {
    if data.len() > MAX_CHUNK {
        Err(RefusalView::Malformed)
    } else {
        match state::parsed(stored) {
            None => Err(RefusalView::Unreadable),
            Some(before) => match edit::region_set(before.block1, offset as int, data) {
                None => Err(RefusalView::NoPlace),
                Some(block1) => authored(stored, before, block1, Rules::ProgressAndBadges),
            },
        }
    }
}

/// One allowlisted region of SaveBlock1.
pub fn report_region(stored: &[u8], offset: u32, data: &[u8]) -> (r: Result<Candidate, Refusal>)
    ensures
        outcome(r) == region_reported(stored@, offset, data@),
{
    if data.len() > MAX_CHUNK {
        return Err(Refusal::Malformed);
    }
    match state::parse(stored) {
        None => Err(Refusal::Unreadable),
        Some(before) => match edit::with_region(&before, offset as usize, data) {
            None => Err(Refusal::NoPlace),
            Some(block1) => author(stored, before, block1, Rules::ProgressAndBadges),
        },
    }
}

// ---------------------------------------------------------------------------------------------
// Whole blocks
// ---------------------------------------------------------------------------------------------

/// A SaveBlock2 that keeps the server's own key. The game re-rolls the key on every save, and
/// money, coins and quantities are decoded against it: with the key held, the rest of the block
/// can be taken over while none of the money-bearing values move.
pub fn pin_encryption_key(block2: &mut Vec<u8>, key: u32)
    requires
        old(block2)@.len() >= 0xB0,
    ensures
        final(block2)@ == bytes::overlay(old(block2)@, 0xAC, bytes::bytes32(key)),
{
    bytes::put32(block2, state::OFFSET_ENCRYPTION_KEY, key);
}

/// The block as it is to be written: what was reported laid over what is held, which keeps the
/// padding after it, and for SaveBlock2 with the key held.
pub open spec fn assembled(held: Seq<u8>, reported: Seq<u8>, block: u8, key: u32) -> Seq<u8> {
    let laid = bytes::overlay(held, 0, reported);
    if block == SAVEBLOCK2_BLOCK {
        bytes::overlay(laid, 0xAC, bytes::bytes32(key))
    } else {
        laid
    }
}

/// A save with a block replaced, before the rules are applied, and the block that went into it.
pub struct BlockCandidate {
    pub block: Vec<u8>,
    /// The block as it was held.
    pub held: Vec<u8>,
    pub candidate: Candidate,
}

/// What a report of a whole block comes to, before the rules are applied.
pub open spec fn block_reported(stored: Seq<u8>, block: u8, reported: Seq<u8>) -> Result<
    (Seq<u8>, Seq<u8>, CandidateView),
    RefusalView,
> {
    match image::reportable_sectors(block) {
        None => Err(RefusalView::Malformed),
        Some(sectors) => if reported.len() > sectors.len() * 3968 {
            Err(RefusalView::Malformed)
        } else {
            match (state::parsed(stored), image::block_of(stored, sectors)) {
                (Some(before), Some(held)) => {
                    let data = assembled(held, reported, block, before.encryption_key);
                    match image::reauthored(stored, sectors, data) {
                        None => Err(RefusalView::Unbuildable),
                        Some(out) => match state::parsed(out) {
                            None => Err(RefusalView::Illegible),
                            Some(after) => if block == SAVEBLOCK2_BLOCK && (after.encryption_key
                                != before.encryption_key || after.money() != before.money()) {
                                Err(RefusalView::KeyMoved)
                            } else {
                                Ok((data, held, CandidateView { image: out, before, after }))
                            },
                        },
                    }
                },
                _ => Err(RefusalView::Unreadable),
            }
        },
    }
}

/// The outcome of a report of a block, taken by its views.
pub open spec fn block_outcome(r: Result<BlockCandidate, Refusal>) -> Result<
    (Seq<u8>, Seq<u8>, CandidateView),
    RefusalView,
> {
    match r {
        Ok(c) => Ok((c.block@, c.held@, c.candidate@)),
        Err(e) => Err(e@),
    }
}

/// A whole block, reassembled: the save it implies. The rules of `ProgressAndBadges` are to be
/// applied to it, after what is to be said of the block itself.
pub fn report_block(stored: &[u8], block: u8, reported: &[u8]) -> (r: Result<
    BlockCandidate,
    Refusal,
>)
    ensures
        block_outcome(r) == block_reported(stored@, block, reported@),
{
    let sectors: Vec<u16> = match image::reportable_block(block) {
        Some(sectors) => sectors,
        None => {
            return Err(Refusal::Malformed);
        },
    };
    assert(sectors@.len() <= 9);
    if reported.len() > sectors.len() * 3968 {
        return Err(Refusal::Malformed);
    }
    let before: SaveState = match state::parse(stored) {
        Some(before) => before,
        None => {
            return Err(Refusal::Unreadable);
        },
    };
    let held: Vec<u8> = match image::read_block(stored, &sectors) {
        Some(held) => held,
        None => {
            return Err(Refusal::Unreadable);
        },
    };
    proof {
        image_laws::lemma_held_bytes(stored@, image::newest(stored@)->0, sectors@);
    }
    let mut data: Vec<u8> = held.clone();
    assert(data@ =~= held@);
    bytes::put_all(&mut data, 0, reported);
    if block == SAVEBLOCK2_BLOCK {
        pin_encryption_key(&mut data, before.encryption_key);
    }
    let image: Vec<u8> = match image::reauthor_block(stored, &sectors, &data) {
        Some(image) => image,
        None => {
            return Err(Refusal::Unbuildable);
        },
    };
    let after: SaveState = match state::parse(&image) {
        Some(after) => after,
        None => {
            return Err(Refusal::Illegible);
        },
    };
    if block == SAVEBLOCK2_BLOCK && (after.encryption_key != before.encryption_key || after.money()
        != before.money()) {
        return Err(Refusal::KeyMoved);
    }
    Ok(BlockCandidate { block: data, held, candidate: Candidate { image, before, after } })
}

/// What a report of the sectors after the save slots comes to. It must leave a save that can be
/// read.
pub open spec fn tail_reported(stored: Seq<u8>, tail: Seq<u8>) -> Option<Seq<u8>> {
    match image::tail_replaced(stored, tail) {
        Some(out) => if state::parsed(out) is Some {
            Some(out)
        } else {
            None
        },
        None => None,
    }
}

/// The sectors after the save slots, reassembled: the save with them in place.
pub fn report_tail(stored: &[u8], tail: &[u8]) -> (r: Option<Vec<u8>>)
    ensures
        match r {
            Some(out) => tail_reported(stored@, tail@) == Some(out@),
            None => tail_reported(stored@, tail@) is None,
        },
{
    match image::with_tail(stored, tail) {
        Some(out) => {
            if state::parse(&out).is_none() {
                return None;
            }
            Some(out)
        },
        None => None,
    }
}

// ---------------------------------------------------------------------------------------------
// First saves
// ---------------------------------------------------------------------------------------------

/// Judges the save that a character starts with. It has to be one that the server can read, since
/// every later report reads it first, and one that could have come from playing.
pub fn first_save(uploaded: &[u8]) -> (r: Result<SaveState, Refusal>)
    ensures
        match (r, state::parsed(uploaded@)) {
            (Err(e), None) => e@ == RefusalView::Unreadable,
            (Err(e), Some(s)) => judge::fault(s) is Some && e@ == RefusalView::Rule(
                judge::fault(s)->0,
            ),
            (Ok(state), Some(s)) => judge::fault(s) is None && state@ == s,
            (Ok(_), None) => false,
        },
{
    match state::parse(uploaded) {
        None => Err(Refusal::Unreadable),
        Some(s) => match s.impossible() {
            Some(message) => Err(Refusal::Rule(message)),
            None => Ok(s),
        },
    }
}

// ---------------------------------------------------------------------------------------------
// Deadman caps
// ---------------------------------------------------------------------------------------------

/// Why a party is too much for a Deadman character.
#[derive(Debug, Clone, Copy, PartialEq, Eq, Structural)]
pub enum CapRefusal {
    Level { level: u8, cap: u8 },
    Size { size: u8, cap: u8 },
}

/// The first Pokemon, from place `i` on, over the level cap.
pub open spec fn over_level(party: Seq<MonView>, cap: u8, i: int) -> Option<u8>
    decreases party.len() - i,
{
    if i >= party.len() {
        None
    } else if party[i].species != 0 && party[i].level > cap {
        Some(party[i].level)
    } else {
        over_level(party, cap, i + 1)
    }
}

/// How many of the first `n` places hold a Pokemon.
pub open spec fn living(party: Seq<MonView>, n: nat) -> nat
    decreases n,
{
    if n == 0 {
        0
    } else {
        living(party, (n - 1) as nat) + if party[n - 1].species != 0 {
            1nat
        } else {
            0nat
        }
    }
}

/// What stands against a Deadman party: no Pokemon may exceed the level cap that the badges in
/// the save set, and there may be no more of them than the size cap allows.
pub open spec fn cap_refusal(s: SaveView) -> Option<CapRefusal> {
    let row = deadman::badge_row(quest_flags::badges_held(s.flags, 8) as u8);
    let level_cap = deadman::LEVEL_CAP_BY_BADGES@[row];
    let size_cap = deadman::PARTY_CAP_BY_BADGES@[row];
    let size = living(s.party, s.party.len());
    match over_level(s.party, level_cap, 0) {
        Some(level) => Some(CapRefusal::Level { level, cap: level_cap }),
        None => if size % 256 > size_cap {
            Some(CapRefusal::Size { size: (size % 256) as u8, cap: size_cap })
        } else {
            None
        },
    }
}

/// What stands against a Deadman party, if anything.
pub fn over_caps(s: &SaveState) -> (r: Option<CapRefusal>)
    ensures
        r == cap_refusal(s@),
{
    let badges: u8 = quest_flags::badge_count(s);
    let level_cap: u8 = deadman::level_cap(badges);
    let size_cap: u8 = deadman::party_cap(badges);
    let mut i: usize = 0;
    while i < s.party.len()
        invariant
            i <= s.party@.len(),
            over_level(s@.party, level_cap, 0) == over_level(s@.party, level_cap, i as int),
            level_cap == deadman::LEVEL_CAP_BY_BADGES@[deadman::badge_row(
                quest_flags::badges_held(s@.flags, 8) as u8,
            )],
        decreases s.party@.len() - i,
    {
        if s.party[i].species != 0 && s.party[i].level > level_cap {
            return Some(CapRefusal::Level { level: s.party[i].level, cap: level_cap });
        }
        i = i + 1;
    }
    let mut size: usize = 0;
    let mut n: usize = 0;
    while n < s.party.len()
        invariant
            size <= n <= s.party@.len(),
            size == living(s@.party, n as nat),
        decreases s.party@.len() - n,
    {
        if s.party[n].species != 0 {
            size = size + 1;
        }
        n = n + 1;
    }
    let size: u8 = (size % 256) as u8;
    if size > size_cap {
        Some(CapRefusal::Size { size, cap: size_cap })
    } else {
        None
    }
}

// ---------------------------------------------------------------------------------------------
// The bank
// ---------------------------------------------------------------------------------------------

/// A move between wallet and bank: the save with the new wallet, and both balances.
pub struct BankMove {
    pub image: Vec<u8>,
    pub carried: u32,
    pub bank: u64,
}

/// Deposits the whole wallet, or withdraws up to the money cap. Nothing where the save cannot be
/// read or authored.
pub fn move_money(stored: &[u8], bank: u64, deposit: bool) -> (r: Option<BankMove>)
    requires
        deposit ==> bank + u32::MAX <= u64::MAX,
    ensures
        ({
            let carried = state::parsed(stored@)->0.money();
            let left = if deposit {
                0u32
            } else {
                (carried + economy::withdrawn(carried, bank)) as u32
            };
            match r {
                Some(m) => {
                    &&& economy::money_replaced(stored@, left) == Some(m.image@)
                    &&& m.carried == left
                    &&& m.bank == if deposit {
                        bank + carried
                    } else {
                        bank - economy::withdrawn(carried, bank)
                    }
                },
                None => state::parsed(stored@) is None || economy::money_replaced(stored@, left)
                    is None,
            }
        }),
{
    let carried: u32 = match economy::money(stored) {
        Some(carried) => carried,
        None => {
            return None;
        },
    };
    let (left, banked): (u32, u64) = if deposit {
        economy::deposit_all(carried, bank)
    } else {
        economy::withdraw_all(carried, bank)
    };
    match economy::image_with_money(stored, left) {
        Some(image) => Some(BankMove { image, carried: left, bank: banked }),
        None => None,
    }
}

// ---------------------------------------------------------------------------------------------
// Laws
// ---------------------------------------------------------------------------------------------

/// No report that is taken leaves a save that could not have come from playing, or in which a
/// Pokemon went backwards.
pub proof fn law_accepted_reports_break_no_rule(
    stored: Seq<u8>,
    before: SaveView,
    block1: Seq<u8>,
    rules: Rules,
)
    requires
        authored(stored, before, block1, rules) is Ok,
    ensures
        ({
            let c = authored(stored, before, block1, rules)->Ok_0;
            &&& judge::fault(c.after) is None
            &&& judge::party_loss(before.party, c.after.party, 0) is None
            &&& c.after.money() <= judge::MAX_MONEY
            &&& c.after.coins() <= judge::MAX_COINS
            &&& rules is ProgressAndBadges ==> badge_loss(before, c.after) is None
            &&& state::parsed(c.image) == Some(c.after)
        }),
{
}

/// A report of money that is taken sets the money to the amount, and nothing else that the server
/// reads.
pub proof fn law_reported_money_is_what_is_stored(stored: Seq<u8>, amount: u32)
    requires
        money_reported(stored, amount) is Ok,
    ensures
        ({
            let c = money_reported(stored, amount)->Ok_0;
            &&& c.after.money() == amount
            &&& amount <= judge::MAX_MONEY
            &&& c.after.party == c.before.party
            &&& c.after.bag == c.before.bag
            &&& c.after.flags == c.before.flags
        }),
{
    let s = state::parsed(stored)->0;
    let block = edit::money_set(s.block1, s.encryption_key, amount);
    let c = money_reported(stored, amount)->Ok_0;
    edit::law_authored_block_is_what_is_parsed(stored, s, block, c.image);
    edit::law_money_is_set_and_nothing_else(s.block1, s.encryption_key, amount);
}

/// A report of the party that is taken puts each record where it was sent, and moves neither money
/// nor coins, neither the bag nor the story.
pub proof fn law_reported_parties_are_what_is_stored(
    stored: Seq<u8>,
    count: u8,
    mons: Seq<u8>,
    i: int,
)
    requires
        party_reported(stored, count, mons) is Ok,
        0 <= i < 6,
    ensures
        ({
            let c = party_reported(stored, count, mons)->Ok_0;
            &&& state::mon_bytes(c.after.block1, i) == mons.subrange(i * 100, i * 100 + 100)
            &&& c.after.money() == c.before.money()
            &&& c.after.coins() == c.before.coins()
            &&& c.after.bag == c.before.bag
            &&& c.after.flags == c.before.flags
            &&& c.after.vars == c.before.vars
        }),
{
    let s = state::parsed(stored)->0;
    let block = edit::party_set(s.block1, count, mons)->0;
    let c = party_reported(stored, count, mons)->Ok_0;
    edit::law_authored_block_is_what_is_parsed(stored, s, block, c.image);
    edit::law_party_is_set_and_nothing_else(s.block1, s.encryption_key, count, mons, i);
}

/// A report of an item that is taken leaves the bag with that much of it, and moves neither money
/// nor coins, neither the party nor the story.
pub proof fn law_reported_items_are_what_is_stored(
    stored: Seq<u8>,
    pocket: u8,
    item: u16,
    quantity: u16,
)
    requires
        item_reported(stored, pocket, item, quantity) is Ok,
    ensures
        ({
            let c = item_reported(stored, pocket, item, quantity)->Ok_0;
            &&& item != 0 && quantity != 0 ==> c.after.bag.contains((pocket, item, quantity))
            &&& c.after.money() == c.before.money()
            &&& c.after.coins() == c.before.coins()
            &&& c.after.party == c.before.party
            &&& c.after.flags == c.before.flags
            &&& c.after.vars == c.before.vars
        }),
{
    let s = state::parsed(stored)->0;
    let p = pocket as int;
    let block = edit::item_set(s.block1, s.encryption_key, p, item, quantity)->0;
    let c = item_reported(stored, pocket, item, quantity)->Ok_0;
    edit::law_authored_block_is_what_is_parsed(stored, s, block, c.image);
    edit::lemma_item_frame(s.block1, s.encryption_key, p, item, quantity);
    if item != 0 && quantity != 0 {
        edit::law_item_is_set_and_nothing_else(s.block1, s.encryption_key, p, item, quantity);
        let k = choose|k: int|
            {
                &&& 0 <= k < state::BAG_POCKETS@[p].1
                &&& #[trigger] state::slot_item(block, p, k) == item
                &&& state::slot_quantity(block, s.encryption_key, p, k) == quantity
            };
        edit::lemma_slot_in_bag(block, s.encryption_key, p, k);
    }
}

/// A region that is taken moves neither money nor coins, neither the bag nor the party.
pub proof fn law_reported_regions_move_nothing_protected(
    stored: Seq<u8>,
    offset: u32,
    data: Seq<u8>,
)
    requires
        region_reported(stored, offset, data) is Ok,
    ensures
        ({
            let c = region_reported(stored, offset, data)->Ok_0;
            &&& c.after.money() == c.before.money()
            &&& c.after.coins() == c.before.coins()
            &&& c.after.bag == c.before.bag
            &&& c.after.party == c.before.party
        }),
{
    let s = state::parsed(stored)->0;
    let block = edit::region_set(s.block1, offset as int, data)->0;
    let c = region_reported(stored, offset, data)->Ok_0;
    edit::law_authored_block_is_what_is_parsed(stored, s, block, c.image);
    edit::law_regions_cannot_move_what_is_protected(
        s.block1,
        s.encryption_key,
        offset as int,
        data,
    );
}

/// Replacing the sectors after the save slots leaves everything that the server reads of a save
/// as it was.
pub proof fn law_tails_change_nothing_that_is_read(stored: Seq<u8>, tail: Seq<u8>)
    requires
        image::tail_replaced(stored, tail) is Some,
    ensures
        state::parsed(image::tail_replaced(stored, tail)->0) == state::parsed(stored),
{
    let out = image::tail_replaced(stored, tail)->0;
    image_laws::law_tail_leaves_blocks_untouched(stored, tail, out, SAVEBLOCK1_SECTORS@);
    image_laws::law_tail_leaves_blocks_untouched(stored, tail, out, seq![0u16]);
    image_laws::lemma_tail_keeps_slots(stored, tail, out);
    match image::newest(stored) {
        Some(slot) => {
            image::lemma_holder(stored, slot * 14, slot * 14 + 14, 0);
        },
        None => {},
    }
}

/// With the key held, a report of SaveBlock2 moves neither the key nor the money, the coins, the
/// bag or the party: it is never refused for that.
pub proof fn law_a_held_key_moves_no_money(stored: Seq<u8>, reported: Seq<u8>)
    ensures
        block_reported(stored, SAVEBLOCK2_BLOCK, reported) != Err::<
            (Seq<u8>, Seq<u8>, CandidateView),
            RefusalView,
        >(RefusalView::KeyMoved),
        block_reported(stored, SAVEBLOCK2_BLOCK, reported) matches Ok(t) ==> {
            &&& t.2.after.encryption_key == t.2.before.encryption_key
            &&& t.2.after.money() == t.2.before.money()
            &&& t.2.after.coins() == t.2.before.coins()
            &&& t.2.after.bag == t.2.before.bag
            &&& t.2.after.party == t.2.before.party
        },
{
    let sectors = image::SAVEBLOCK2_SECTORS@;
    if state::parsed(stored) is Some && image::block_of(stored, sectors) is Some
        && reported.len() <= sectors.len() * 3968 {
        let before = state::parsed(stored)->0;
        let held = image::block_of(stored, sectors)->0;
        let data = assembled(held, reported, SAVEBLOCK2_BLOCK, before.encryption_key);
        match image::reauthored(stored, sectors, data) {
            Some(out) => {
                let slot = image::newest(stored)->0;
                image_laws::law_authoring_is_faithful(stored, sectors, data);
                image_laws::law_block_sectors_are_apart();
                image_laws::law_read_gives_back_what_was_written(stored, sectors, data, out);
                image_laws::law_other_blocks_are_untouched(
                    stored,
                    sectors,
                    data,
                    out,
                    SAVEBLOCK1_SECTORS@,
                );
                assert(image::all_held(stored, slot, sectors));
                image_laws::lemma_held_bytes(stored, slot, sectors);
                image_laws::lemma_written(stored, slot, sectors, data, 1);
                image_laws::lemma_same_footers(stored, out);
                assert(image::all_held(out, slot, sectors));
                image_laws::lemma_held_bytes(out, slot, sectors);
                assert(sectors[0] == 0);
                assert(image::sector_of(out, slot, sectors[0]) is Some);
                image::lemma_holder(out, slot * 14, slot * 14 + 14, 0);
                let at = image::sector_of(out, slot, 0)->0;
                assert(image::chunk_of(data, 0) == image::sector_data(out, at));
                assert(image::chunk_of(data, 0) =~= data);
                bytes::lemma_bytes32(
                    bytes::overlay(held, 0, reported),
                    0xAC,
                    before.encryption_key,
                );
                assert forall|i: int| 0 <= i < 4 implies #[trigger] out[at * 4096 + 0xAC + i]
                    == data[0xAC + i] by {
                    assert(image::sector_data(out, at)[0xAC + i] == data[0xAC + i]);
                }
                bytes::lemma_le_agree(out, at * 4096 + 0xAC, data, 0xAC, 4);
                assert(state::key_of(out, slot) == before.encryption_key);
            },
            None => {},
        }
    }
}

} // verus!
