//! What is taken of what a client sends, told by sizes, offsets and numbers.

use super::super::db::Character;
use super::super::quest_flags;
use super::super::rule_laws::{badges, law_a_lost_badge_is_named};
use super::super::save_parse::edit;
use super::super::save_parse::image;
use super::super::save_parse::image_laws;
use super::super::save_parse::judge_laws::{
    cannot_be, law_only_going_backwards_is_a_regression, law_saves_are_judged_by_their_numbers,
    some_went_backwards,
};
use super::super::save_parse::parse_laws::{law_numbers_are_little_endian, num};
use super::super::save_parse::state;
use super::super::save_parse::state::SaveView;
use super::chunks;
use super::control;
use super::control::Ask;
use super::handshake;
use super::progress;
use super::progress::{Accepted, Report};
use super::reports;
use super::reports::{CandidateView, RefusalView, Rules};
use crate::bytes;
use crate::proto::quic::ClientControl;
use vstd::prelude::*;

verus! {

// ---------------------------------------------------------------------------------------------
// Slices
// ---------------------------------------------------------------------------------------------

/// A chunk of a block is taken if and only if it is of at most a kibibyte, lies within its total, and
/// the total is one that the block can have: at most one sector's data for the first block, nine for
/// the second, and exactly four whole sectors for the third. There is no other block.
pub proof fn law_chunks_lie_within_their_blocks(block: u8, offset: nat, total: nat, len: nat)
    ensures
        chunks::sound_chunk(block, offset as int, total as int, len as int) <==> {
            &&& block < 3
            &&& block == 0 ==> total <= 3968
            &&& block == 1 ==> total <= 9 * 3968
            &&& block == 2 ==> total == 4 * 4096
            &&& len <= 1024
            &&& offset + len <= total
        },
        chunks::block_room(block) is Some <==> block < 3,
{
    assert(image::SAVEBLOCK2_SECTORS@.len() == 1);
    assert(image::STORAGE_SECTORS@.len() == 9);
}

/// What is collected after a chunk is the chunk where it starts anew, what was there and the chunk
/// where it goes on right behind it, and nothing where there is a gap or an overlap. It is whole if
/// and only if it then has all its bytes and was not dropped.
pub proof fn law_chunks_go_on_where_the_last_one_ended(
    buf: Seq<u8>,
    offset: nat,
    chunk: Seq<u8>,
    total: nat,
)
    ensures
        ({
            let after = chunks::collected(buf, offset as int, chunk);
            &&& offset == 0 ==> after == chunk
            &&& offset > 0 && offset == buf.len() ==> after == buf + chunk
            &&& offset > 0 && offset != buf.len() ==> after.len() == 0
            &&& chunks::completes(buf, offset as int, chunk, total as int) <==> after.len() == total
                && (offset == 0 || offset == buf.len())
        }),
{
    assert(Seq::<u8>::empty() + chunk =~= chunk);
}

/// What was collected of one block is never put with a chunk of another.
pub proof fn law_blocks_are_never_mixed(held: u8, data: Seq<u8>, want: u8)
    ensures
        held != want ==> chunks::block_so_far(Some(held), data, want).len() == 0,
        held == want ==> chunks::block_so_far(Some(held), data, want) == data,
        chunks::block_so_far(None, data, want).len() == 0,
{
}

// ---------------------------------------------------------------------------------------------
// Rules
// ---------------------------------------------------------------------------------------------

/// A save is refused as the successor of another if and only if it holds what could not have come
/// from playing, a Pokemon in it went backwards, or, where badges are looked at, a badge was lost.
pub proof fn law_what_a_successor_is_refused_for(before: SaveView, after: SaveView, rules: Rules)
    requires
        forall|k: int| 0 <= k < after.party.len() ==> (#[trigger] after.party[k]).evs.len() == 6,
    ensures
        reports::broken(before, after, rules) is Some <==> {
            ||| after.money() > 999_999
            ||| after.coins() > 9_999
            ||| exists|k: int|
                0 <= k < after.bag.len() && ((#[trigger] after.bag[k]).2 == 0 || after.bag[k].2
                    > 99)
            ||| exists|k: int| 0 <= k < after.party.len() && cannot_be(#[trigger] after.party[k])
            ||| some_went_backwards(before.party, after.party, 0)
            ||| rules is ProgressAndBadges && exists|k: int|
                0 <= k < 8 && #[trigger] badges(before.flags)[k] && !badges(after.flags)[k]
        },
{
    law_saves_are_judged_by_their_numbers(after);
    law_only_going_backwards_is_a_regression(before.party, after.party);
    law_a_lost_badge_is_named(before.flags, after.flags);
    match quest_flags::first_lost(before.flags, after.flags, quest_flags::BADGE_FLAGS@, 0) {
        Some(id) => {
            assert(badges(before.flags)[id - 2151]);
        },
        None => {},
    }
}

/// Whether an amount of money is taken does not depend on what else a save holds: where one amount
/// is taken, so is every other that a wallet can hold.
pub proof fn law_one_amount_is_as_good_as_another(stored: Seq<u8>, taken: u32, other: u32)
    requires
        reports::money_reported(stored, taken) is Ok,
        other <= 999_999,
    ensures
        reports::money_reported(stored, other) matches Ok(c) && c.after.money() == other,
{
    let s = state::parsed(stored)->0;
    let (a, b) = (
        edit::money_set(s.block1, s.encryption_key, taken),
        edit::money_set(s.block1, s.encryption_key, other),
    );
    let sectors = image::SAVEBLOCK1_SECTORS@;
    image_laws::law_authoring_is_faithful(stored, sectors, a);
    image_laws::law_authoring_is_faithful(stored, sectors, b);
    let out = image::reauthored(stored, sectors, b)->0;
    edit::law_authored_block_is_what_is_parsed(stored, s, b, out);
    edit::law_authored_block_is_what_is_parsed(
        stored,
        s,
        a,
        image::reauthored(stored, sectors, a)->0,
    );
    edit::law_money_is_set_and_nothing_else(s.block1, s.encryption_key, taken);
    edit::law_money_is_set_and_nothing_else(s.block1, s.encryption_key, other);
}

/// A report of a party is malformed if and only if it is not of six records or counts more than six,
/// and a report of a region if and only if it is of more than a kibibyte; what is not malformed is
/// unreadable if and only if the stored save is.
pub proof fn law_malformed_reports_are_told_apart(
    stored: Seq<u8>,
    count: u8,
    mons: Seq<u8>,
    offset: u32,
    data: Seq<u8>,
)
    ensures
        reports::party_reported(stored, count, mons) == Err::<CandidateView, RefusalView>(
            RefusalView::Malformed,
        ) <==> count > 6 || mons.len() != 600,
        count <= 6 && mons.len() == 600 ==> (reports::party_reported(stored, count, mons) == Err::<
            CandidateView,
            RefusalView,
        >(RefusalView::Unreadable) <==> state::parsed(stored) is None),
        reports::region_reported(stored, offset, data) == Err::<CandidateView, RefusalView>(
            RefusalView::Malformed,
        ) <==> data.len() > 1024,
        data.len() <= 1024 ==> (reports::region_reported(stored, offset, data) == Err::<
            CandidateView,
            RefusalView,
        >(RefusalView::Unreadable) <==> state::parsed(stored) is None),
{
}

// ---------------------------------------------------------------------------------------------
// Whole blocks
// ---------------------------------------------------------------------------------------------

/// A block is put together out of what was reported, as far as that goes, and what is held behind
/// it; only of the first block the four bytes of the key are those of the key that is held.
pub proof fn law_blocks_are_laid_over_what_is_held(
    held: Seq<u8>,
    reported: Seq<u8>,
    block: u8,
    key: u32,
    i: int,
)
    requires
        held.len() >= 0xB0,
        reported.len() <= held.len(),
        0 <= i < held.len(),
    ensures
        ({
            let data = reports::assembled(held, reported, block, key);
            &&& data.len() == held.len()
            &&& block == 0 ==> num(data, 0xAC, 4) == key
            &&& block != 0 || !(0xAC <= i < 0xB0) ==> data[i] == if i < reported.len() {
                reported[i]
            } else {
                held[i]
            }
        }),
{
    let laid = bytes::overlay(held, 0, reported);
    let data = reports::assembled(held, reported, block, key);
    bytes::lemma_bytes32(laid, 0xAC, key);
    law_numbers_are_little_endian(data, 0xAC);
}

/// What is stored of a block that is taken is what was put together, and reads as that.
pub proof fn law_reported_blocks_are_what_is_stored(stored: Seq<u8>, block: u8, reported: Seq<u8>)
    requires
        reports::block_reported(stored, block, reported) is Ok,
    ensures
        ({
            let (data, held, c) = reports::block_reported(stored, block, reported)->Ok_0;
            let sectors = image::reportable_sectors(block)->0;
            &&& block == 0 || block == 1
            &&& sectors == (if block == 0 {
                seq![0u16]
            } else {
                seq![5u16, 6, 7, 8, 9, 10, 11, 12, 13]
            })
            &&& image::block_of(stored, sectors) == Some(held)
            &&& image::block_of(c.image, sectors) == Some(data)
            &&& data.len() == held.len() && reported.len() <= held.len()
            &&& forall|i: int|
                0 <= i < held.len() && (block == 1 || !(0xAC <= i < 0xB0)) ==> #[trigger] data[i]
                    == if i < reported.len() {
                    reported[i]
                } else {
                    held[i]
                }
        }),
{
    let (data, held, c) = reports::block_reported(stored, block, reported)->Ok_0;
    let sectors = image::reportable_sectors(block)->0;
    assert(image::SAVEBLOCK2_SECTORS@ =~= seq![0u16]);
    assert(image::STORAGE_SECTORS@ =~= seq![5u16, 6, 7, 8, 9, 10, 11, 12, 13]);
    image_laws::law_block_sectors_are_apart();
    image_laws::law_authoring_is_faithful(stored, sectors, data);
    image_laws::law_read_gives_back_what_was_written(stored, sectors, data, c.image);
    image_laws::lemma_held_bytes(stored, image::newest(stored)->0, sectors);
    assert forall|i: int|
        0 <= i < held.len() && (block == 1 || !(0xAC <= i < 0xB0)) implies #[trigger] data[i]
        == if i < reported.len() {
        reported[i]
    } else {
        held[i]
    } by {
        law_blocks_are_laid_over_what_is_held(
            held,
            reported,
            block,
            c.before.encryption_key,
            i,
        );
    }
}

/// A report that can be authored is taken if and only if what it leaves breaks no rule, and then it
/// leaves exactly that.
pub proof fn law_reports_are_taken_unless_a_rule_is_broken(
    stored: Seq<u8>,
    before: SaveView,
    block1: Seq<u8>,
    rules: Rules,
)
    requires
        state::parsed(stored) == Some(before),
        image::reauthored(stored, image::SAVEBLOCK1_SECTORS@, before.block1) is Some,
        block1.len() == before.block1.len(),
    ensures
        ({
            let after = state::state_of(block1, before.encryption_key);
            match reports::authored(stored, before, block1, rules) {
                Ok(c) => {
                    &&& reports::broken(before, after, rules) is None
                    &&& c.before == before
                    &&& c.after == after
                    &&& state::parsed(c.image) == Some(after)
                },
                Err(e) => reports::broken(before, after, rules) matches Some(why) && e
                    == RefusalView::Rule(why),
            }
        }),
{
    let sectors = image::SAVEBLOCK1_SECTORS@;
    image_laws::law_authoring_is_faithful(stored, sectors, block1);
    image_laws::law_authoring_is_faithful(stored, sectors, before.block1);
    let out = image::reauthored(stored, sectors, block1)->0;
    edit::law_authored_block_is_what_is_parsed(stored, before, block1, out);
}

/// A report of the boxes changes nothing else that is read: neither the party nor the bag, neither
/// money nor the story.
pub proof fn law_boxes_change_nothing_else(stored: Seq<u8>, reported: Seq<u8>)
    ensures
        reports::block_reported(stored, 1, reported) matches Ok(t) ==> t.2.after == t.2.before,
{
    if reports::block_reported(stored, 1, reported) is Ok {
        let (data, held, c) = reports::block_reported(stored, 1, reported)->Ok_0;
        let out = c.image;
        let sectors = image::STORAGE_SECTORS@;
        let slot = image::newest(stored)->0;
        image_laws::law_block_sectors_are_apart();
        image_laws::law_authoring_is_faithful(stored, sectors, data);
        image_laws::law_other_blocks_are_untouched(
            stored,
            sectors,
            data,
            out,
            image::SAVEBLOCK1_SECTORS@,
        );
        assert(image::all_held(stored, slot, sectors));
        image_laws::lemma_held_bytes(stored, slot, sectors);
        image_laws::lemma_written(stored, slot, sectors, data, 9);
        image_laws::lemma_same_footers(stored, out);
        image_laws::lemma_same_holder(stored, out, slot * 14, slot * 14 + 14, 0);
        image::lemma_holder(stored, slot * 14, slot * 14 + 14, 0);
        match image::sector_of(stored, slot, 0) {
            Some(at) => {
                assert forall|k: int| 0 <= k < 9 implies #[trigger] image::sector_of(
                    stored,
                    slot,
                    sectors[k],
                ) != Some(at) by {
                    image::lemma_holder(stored, slot * 14, slot * 14 + 14, sectors[k]);
                }
                assert(image_laws::same_sector(stored, out, at));
                assert(state::key_of(out, slot) == state::key_of(stored, slot));
            },
            None => {},
        }
    }
}

// ---------------------------------------------------------------------------------------------
// What is kept of a report
// ---------------------------------------------------------------------------------------------

/// Only a report of an item escapes the allowance: each of the others can carry a gain.
pub proof fn law_all_but_items_are_paced(report: Report)
    ensures
        progress::is_paced(report) <==> match report {
            Report::Money { .. } => true,
            Report::Party { .. } => true,
            Report::Region { .. } => true,
            Report::Block { .. } => true,
            Report::Item { .. } => false,
        },
{
}

/// What is stored beside a save is what the save says: the badges are as many as it holds, the
/// party as large as it is. A bag is stored anew where a report can change it, and the story too.
pub proof fn law_what_is_kept_beside_a_save(report: Report, c: CandidateView, a: Accepted)
    requires
        progress::keeps(report, c, a),
        c.after.party.len() <= 6,
    ensures
        a.image@ == c.image,
        a.after@ == c.after,
        a.badges matches Some(n) ==> n == super::super::rule_laws::count(badges(c.after.flags)),
        a.party_count matches Some(n) ==> n == c.after.party.len(),
        report is Region ==> a.story && a.badges is Some,
        report is Item ==> a.bag,
        report is Party ==> a.bag && a.party_count is Some && a.badges is Some,
        report is Block ==> a.badges is Some,
        report is Money ==> !a.bag && !a.story && a.party_count is None && a.badges is None,
{
    super::super::rule_laws::law_every_badge_is_counted(c.after.flags);
    super::super::rule_laws::lemma_count(badges(c.after.flags));
}

// ---------------------------------------------------------------------------------------------
// What a message asks for
// ---------------------------------------------------------------------------------------------

/// The bank and the hard reset are there for those who play the permadeath world, and for nobody
/// else.
pub proof fn law_only_deadman_has_a_bank(mode: Seq<char>, r: Ask)
    ensures
        control::asks(ClientControl::BankDeposit, mode, r) <==> (if mode == "deadman"@ {
            r matches Ask::Bank { deposit } && deposit
        } else {
            r is Ignore
        }),
        control::asks(ClientControl::BankWithdraw, mode, r) <==> (if mode == "deadman"@ {
            r matches Ask::Bank { deposit } && !deposit
        } else {
            r is Ignore
        }),
        control::asks(ClientControl::HardReset, mode, r) <==> (if mode == "deadman"@ {
            r is Wipe
        } else {
            r is Ignore
        }),
        handshake::world_of(mode) == (if mode == "deadman"@ {
            mode
        } else {
            "normal"@
        }),
{
}

/// What is larger than a game could have sent is not passed on: keys of more than ten seconds, a
/// region of more than a kibibyte, a party of other than six records, a block of more than 256 bytes
/// for the opponent. What is not larger is passed on as it came.
pub proof fn law_oversized_messages_are_not_passed_on(msg: ClientControl, mode: Seq<char>, r: Ask)
    requires
        control::asks(msg, mode, r),
    ensures
        match msg {
            ClientControl::Keys { frames } => if frames@.len() > 10 * 60 {
                r is Refused
            } else {
                r == (Ask::Replay { frames })
            },
            ClientControl::RegionChanged { offset, bytes } => if bytes@.len() > 1024 {
                r is Refused
            } else {
                r == (Ask::Region { offset, bytes })
            },
            ClientControl::PartyChanged { count, mons } => if mons@.len() == 6 * 100 && count <= 6 {
                r == (Ask::Party { count, mons })
            } else {
                r is Refused
            },
            ClientControl::LinkBlock { bytes } => if bytes@.len() > 256 {
                r is Stop
            } else {
                r == (Ask::Forward { bytes })
            },
            ClientControl::MoneyChanged { amount } => r == (Ask::Money { amount }),
            ClientControl::ItemChanged { pocket, item, quantity } => r == (Ask::Item {
                pocket,
                item,
                quantity,
            }),
            ClientControl::RequestBattle { target } => r == (Ask::Invite { target }),
            ClientControl::RespondToBattle { from, accepted } => r == (Ask::Answer {
                from,
                accepted,
            }),
            ClientControl::EnterMap { map } => r == (Ask::Enter { map }),
            _ => true,
        },
{
}

/// A message is counted as heavy if and only if what it asks for reads or writes the stored save.
pub proof fn law_heavy_messages_touch_the_save(msg: ClientControl, r: Ask)
    requires
        control::asks(msg, "deadman"@, r),
        !(r is Refused),
    ensures
        control::is_heavy(msg) <==> {
            ||| r is Upload
            ||| r is Resync
            ||| r is Money
            ||| r is Item
            ||| r is Party
            ||| r is Region
            ||| r is Block
            ||| r is Wipe
            ||| r is Bank
        },
{
}

// ---------------------------------------------------------------------------------------------
// Entering
// ---------------------------------------------------------------------------------------------

/// A poll reaches the database if and only if it is the first one or at least a second after the
/// last one that did.
pub proof fn law_a_patient_poll_is_answered(last: u64, now: u64)
    ensures
        !handshake::too_soon(None, now),
        handshake::too_soon(Some(last), now) <==> now - last < 1000,
{
}

/// A character enters the world where it was left, on the same map and tile, facing the same way,
/// and standing still.
pub proof fn law_characters_enter_where_they_were_left(c: Character)
    ensures
        ({
            let pose = handshake::start_of(c);
            &&& (pose.map.group, pose.map.num) == (c.map_group, c.map_num)
            &&& (pose.x, pose.y) == (c.x, c.y)
            &&& (pose.facing, pose.elevation) == (c.facing, c.elevation)
            &&& !pose.moving
        }),
{
}

} // verus!
