//! What could not have come from playing the game.

use super::mon::{MonView, PartyMon};
use super::state;
use super::state::{SaveState, SaveView};
use crate::text;
use vstd::multiset::Multiset;
use vstd::prelude::*;

verus! {

/// Caps the game itself enforces. No amount of ordinary play can exceed them, so a rule on them
/// cannot accuse an honest player.
pub const MAX_MONEY: u32 = 999_999;

pub const MAX_COINS: u16 = 9_999;

/// Caps the game enforces on a Pokemon.
pub const MAX_LEVEL: u8 = 100;

/// Effort in one stat is stored in a byte, and this is the largest byte: no record exceeds it.
pub const MAX_EV_PER_STAT: u16 = 255;

pub const MAX_EV_TOTAL: u16 = 510;

/// Experience bounds over the six growth rates: no species can pass the highest, and none can
/// reach level 100 below the lowest.
pub const MAX_EXPERIENCE: u32 = 1_640_000;

pub const MIN_EXPERIENCE_AT_MAX_LEVEL: u32 = 600_000;

/// What one slot of the bag can hold.
pub const MAX_ITEM_QUANTITY: u16 = 99;

// ---------------------------------------------------------------------------------------------
// One save by itself
// ---------------------------------------------------------------------------------------------

/// The effort points of a Pokemon over all its stats.
pub open spec fn effort_total(evs: Seq<u8>) -> int {
    evs[0] + evs[1] + evs[2] + evs[3] + evs[4] + evs[5]
}

/// What is said of money above the cap.
pub open spec fn money_fault(money: u32) -> Option<Seq<char>> {
    if money > MAX_MONEY {
        Some(
            "money is "@ + text::dec(money as nat) + ", above the "@ + text::dec(MAX_MONEY as nat)
                + " the game clamps to"@,
        )
    } else {
        None
    }
}

/// What is said of coins above the cap.
pub open spec fn coins_fault(coins: u16) -> Option<Seq<char>> {
    if coins > MAX_COINS {
        Some(
            "coins are "@ + text::dec(coins as nat) + ", above the "@ + text::dec(MAX_COINS as nat)
                + " the game clamps to"@,
        )
    } else {
        None
    }
}

/// What is said of a slot of the bag that holds none or more than the game stores in one.
pub open spec fn slot_fault(entry: (u8, u16, u16)) -> Option<Seq<char>> {
    if entry.2 == 0 || entry.2 > MAX_ITEM_QUANTITY {
        Some(
            "bag pocket "@ + text::dec((entry.0 + 1) as nat) + " holds "@ + text::dec(
                entry.2 as nat,
            ) + " of item "@ + text::dec(entry.1 as nat) + ", which the game cannot store"@,
        )
    } else {
        None
    }
}

/// What is said of the first faulty slot of the bag from `i` on.
pub open spec fn bag_fault(bag: Seq<(u8, u16, u16)>, i: int) -> Option<Seq<char>>
    decreases bag.len() - i,
{
    if i >= bag.len() {
        None
    } else if slot_fault(bag[i]) is Some {
        slot_fault(bag[i])
    } else {
        bag_fault(bag, i + 1)
    }
}

/// What is said of the Pokemon in place `i` of the party. Everything but the level came through
/// the substruct decode and is only judged where the decode is known to have worked.
pub open spec fn mon_fault(m: MonView, i: int) -> Option<Seq<char>> {
    let who = "party slot "@ + text::dec((i + 1) as nat);
    if m.level > MAX_LEVEL {
        Some(
            who + " is level "@ + text::dec(m.level as nat) + ", above the maximum of "@
                + text::dec(MAX_LEVEL as nat),
        )
    } else if !m.checksum_ok {
        None
    } else if m.experience > MAX_EXPERIENCE {
        Some(
            who + " has "@ + text::dec(m.experience as nat) + " experience, above the "@
                + text::dec(MAX_EXPERIENCE as nat) + " any species can hold"@,
        )
    } else if m.level == MAX_LEVEL && m.experience < MIN_EXPERIENCE_AT_MAX_LEVEL {
        Some(
            who + " is level "@ + text::dec(m.level as nat) + " on "@ + text::dec(
                m.experience as nat,
            ) + " experience, below the "@ + text::dec(MIN_EXPERIENCE_AT_MAX_LEVEL as nat)
                + " it would need"@,
        )
    } else if effort_total(m.evs) > MAX_EV_TOTAL {
        Some(
            who + " has "@ + text::dec(effort_total(m.evs) as nat)
                + " effort points, above the maximum of "@ + text::dec(MAX_EV_TOTAL as nat),
        )
    } else {
        None
    }
}

/// What is said of the first faulty Pokemon from place `i` on.
pub open spec fn party_fault(party: Seq<MonView>, i: int) -> Option<Seq<char>>
    decreases party.len() - i,
{
    if i >= party.len() {
        None
    } else if mon_fault(party[i], i) is Some {
        mon_fault(party[i], i)
    } else {
        party_fault(party, i + 1)
    }
}

/// The first thing in a save that could not have come from playing the game.
pub open spec fn fault(s: SaveView) -> Option<Seq<char>> {
    if money_fault(s.money()) is Some {
        money_fault(s.money())
    } else if coins_fault(s.coins()) is Some {
        coins_fault(s.coins())
    } else if bag_fault(s.bag, 0) is Some {
        bag_fault(s.bag, 0)
    } else {
        party_fault(s.party, 0)
    }
}

/// What a function that may have something to say returns.
pub open spec fn says(r: Option<String>, what: Option<Seq<char>>) -> bool {
    match r {
        Some(message) => what == Some(message@),
        None => what is None,
    }
}

/// `head`, a number, `middle`, a number, `end`.
fn say2(head: &str, a: u64, middle: &str, b: u64, end: &str) -> (r: String)
    ensures
        r@ == head@ + text::dec(a as nat) + middle@ + text::dec(b as nat) + end@,
{
    let mut s = head.to_owned();
    text::push_dec(&mut s, a);
    text::push_text(&mut s, middle);
    text::push_dec(&mut s, b);
    text::push_text(&mut s, end);
    s
}

/// `head`, a number, `first`, a number, `second`, a number.
fn say3(head: &str, a: u64, first: &str, b: u64, second: &str, c: u64) -> (r: String)
    ensures
        r@ == head@ + text::dec(a as nat) + first@ + text::dec(b as nat) + second@ + text::dec(
            c as nat,
        ),
{
    let mut s = head.to_owned();
    text::push_dec(&mut s, a);
    text::push_text(&mut s, first);
    text::push_dec(&mut s, b);
    text::push_text(&mut s, second);
    text::push_dec(&mut s, c);
    s
}

fn judge_slot(entry: (u8, u16, u16)) -> (r: Option<String>)
    ensures
        says(r, slot_fault(entry)),
{
    if entry.2 == 0 || entry.2 > MAX_ITEM_QUANTITY {
        let mut s = say3(
            "bag pocket ",
            entry.0 as u64 + 1,
            " holds ",
            entry.2 as u64,
            " of item ",
            entry.1 as u64,
        );
        text::push_text(&mut s, ", which the game cannot store");
        Some(s)
    } else {
        None
    }
}

fn judge_mon(m: &PartyMon, i: usize) -> (r: Option<String>)
    requires
        i < usize::MAX,
    ensures
        says(r, mon_fault(m@, i as int)),
{
    let place: u64 = i as u64 + 1;
    if m.level > MAX_LEVEL {
        let mut s = say2("party slot ", place, " is level ", m.level as u64, ", above the maximum of ");
        text::push_dec(&mut s, MAX_LEVEL as u64);
        return Some(s);
    }
    if !m.checksum_ok {
        return None;
    }
    if m.experience > MAX_EXPERIENCE {
        let mut s = say3(
            "party slot ",
            place,
            " has ",
            m.experience as u64,
            " experience, above the ",
            MAX_EXPERIENCE as u64,
        );
        text::push_text(&mut s, " any species can hold");
        return Some(s);
    }
    if m.level == MAX_LEVEL && m.experience < MIN_EXPERIENCE_AT_MAX_LEVEL {
        let mut s = say3(
            "party slot ",
            place,
            " is level ",
            m.level as u64,
            " on ",
            m.experience as u64,
        );
        text::push_text(&mut s, " experience, below the ");
        text::push_dec(&mut s, MIN_EXPERIENCE_AT_MAX_LEVEL as u64);
        text::push_text(&mut s, " it would need");
        return Some(s);
    }
    let total: u16 = m.evs[0] as u16 + m.evs[1] as u16 + m.evs[2] as u16 + m.evs[3] as u16
        + m.evs[4] as u16 + m.evs[5] as u16;
    if total > MAX_EV_TOTAL {
        return Some(
            say3(
                "party slot ",
                place,
                " has ",
                total as u64,
                " effort points, above the maximum of ",
                MAX_EV_TOTAL as u64,
            ),
        );
    }
    None
}

impl SaveState {
    /// What in this save could not have come from playing the game.
    ///
    /// None means only that nothing here is provably impossible; it is not a statement that the
    /// save is honest.
    pub fn impossible(&self) -> (r: Option<String>)
        ensures
            says(r, fault(self@)),
    {
        let money: u32 = self.money();
        if money > MAX_MONEY {
            return Some(
                say2(
                    "money is ",
                    money as u64,
                    ", above the ",
                    MAX_MONEY as u64,
                    " the game clamps to",
                ),
            );
        }
        let coins: u16 = self.coins();
        if coins > MAX_COINS {
            return Some(
                say2(
                    "coins are ",
                    coins as u64,
                    ", above the ",
                    MAX_COINS as u64,
                    " the game clamps to",
                ),
            );
        }
        let mut i: usize = 0;
        while i < self.bag.len()
            invariant
                i <= self.bag@.len(),
                bag_fault(self.bag@, 0) == bag_fault(self.bag@, i as int),
                money_fault(self@.money()) is None,
                coins_fault(self@.coins()) is None,
            decreases self.bag@.len() - i,
        {
            let bad = judge_slot(self.bag[i]);
            if bad.is_some() {
                return bad;
            }
            i = i + 1;
        }
        let mut j: usize = 0;
        while j < self.party.len()
            invariant
                j <= self.party@.len(),
                party_fault(self@.party, 0) == party_fault(self@.party, j as int),
                money_fault(self@.money()) is None,
                coins_fault(self@.coins()) is None,
                bag_fault(self.bag@, 0) is None,
            decreases self.party@.len() - j,
        {
            let bad = judge_mon(&self.party[j], j);
            if bad.is_some() {
                return bad;
            }
            j = j + 1;
        }
        None
    }
}

// ---------------------------------------------------------------------------------------------
// Two saves of one character
// ---------------------------------------------------------------------------------------------

/// The first Pokemon of a party, from place `i` on, with this identity.
pub open spec fn same_mon(party: Seq<MonView>, personality: u32, ot_id: u32, i: int) -> Option<
    MonView,
>
    decreases party.len() - i,
{
    if i >= party.len() {
        None
    } else if party[i].personality == personality && party[i].ot_id == ot_id {
        Some(party[i])
    } else {
        same_mon(party, personality, ot_id, i + 1)
    }
}

/// What one Pokemon lost between two saves. One that is in only one of them is not compared, nor
/// is a record that either side could not decode.
pub open spec fn mon_loss(old: MonView, after: Seq<MonView>) -> Option<Seq<char>> {
    match same_mon(after, old.personality, old.ot_id, 0) {
        Some(new) => if !old.checksum_ok || !new.checksum_ok {
            None
        } else if new.experience < old.experience {
            Some(
                "a Pokemon lost experience, going from "@ + text::dec(old.experience as nat)
                    + " to "@ + text::dec(new.experience as nat),
            )
        } else if new.level < old.level {
            Some(
                "a Pokemon lost levels, going from "@ + text::dec(old.level as nat) + " to "@
                    + text::dec(new.level as nat),
            )
        } else {
            None
        },
        None => None,
    }
}

/// The first loss between two parties, from place `i` on.
pub open spec fn party_loss(before: Seq<MonView>, after: Seq<MonView>, i: int) -> Option<Seq<char>>
    decreases before.len() - i,
{
    if i >= before.len() {
        None
    } else if mon_loss(before[i], after) is Some {
        mon_loss(before[i], after)
    } else {
        party_loss(before, after, i + 1)
    }
}

/// Where the Pokemon with this identity stands in a party.
pub(crate) fn find_mon(party: &Vec<PartyMon>, personality: u32, ot_id: u32) -> (r: Option<usize>)
    ensures
        match r {
            Some(i) => i < party@.len() && same_mon(
                state::party_view(party@),
                personality,
                ot_id,
                0,
            ) == Some(party@[i as int]@),
            None => same_mon(state::party_view(party@), personality, ot_id, 0) is None,
        },
{
    let mut i: usize = 0;
    while i < party.len()
        invariant
            i <= party@.len(),
            same_mon(state::party_view(party@), personality, ot_id, 0) == same_mon(
                state::party_view(party@),
                personality,
                ot_id,
                i as int,
            ),
        decreases party@.len() - i,
    {
        if party[i].personality == personality && party[i].ot_id == ot_id {
            return Some(i);
        }
        i = i + 1;
    }
    None
}

/// `head`, a number, ` to `, a number.
fn say_change(head: &str, from: u64, to: u64) -> (r: String)
    ensures
        r@ == head@ + text::dec(from as nat) + " to "@ + text::dec(to as nat),
{
    let mut s = head.to_owned();
    text::push_dec(&mut s, from);
    text::push_text(&mut s, " to ");
    text::push_dec(&mut s, to);
    s
}

/// What could not have happened between two saves of the same character: in this game experience
/// is never taken away, so a Pokemon that has gone backwards is not a Pokemon that was played.
///
/// Matched by personality and trainer id rather than by party position, because reordering,
/// depositing and withdrawing all move Pokemon between slots quite legitimately.
pub fn regressed(before: &SaveState, after: &SaveState) -> (r: Option<String>)
    ensures
        says(r, party_loss(before@.party, after@.party, 0)),
{
    let mut i: usize = 0;
    while i < before.party.len()
        invariant
            i <= before.party@.len(),
            party_loss(before@.party, after@.party, 0) == party_loss(
                before@.party,
                after@.party,
                i as int,
            ),
        decreases before.party@.len() - i,
    {
        let old_mon = &before.party[i];
        assert(before@.party[i as int] == old_mon@);
        match find_mon(&after.party, old_mon.personality, old_mon.ot_id) {
            Some(at) => {
                let new = &after.party[at];
                if old_mon.checksum_ok && new.checksum_ok {
                    if new.experience < old_mon.experience {
                        return Some(
                            say_change(
                                "a Pokemon lost experience, going from ",
                                old_mon.experience as u64,
                                new.experience as u64,
                            ),
                        );
                    }
                    if new.level < old_mon.level {
                        return Some(
                            say_change(
                                "a Pokemon lost levels, going from ",
                                old_mon.level as u64,
                                new.level as u64,
                            ),
                        );
                    }
                }
            },
            None => {},
        }
        i = i + 1;
    }
    None
}

// ---------------------------------------------------------------------------------------------
// What the client says against what the server's own run of the game produced
// ---------------------------------------------------------------------------------------------

/// What is said where the two accounts of a number differ.
pub open spec fn disagreement(head: Seq<char>, claimed: nat, computed: nat) -> Seq<char> {
    head + text::dec(claimed) + ", the server's own run produced "@ + text::dec(computed)
}

/// The record is one of this Pokemon.
pub open spec fn is_of(m: MonView, personality: u32, ot_id: u32) -> bool {
    m.personality == personality && m.ot_id == ot_id
}

/// What the first `n` places of a party say of one Pokemon: the level and the experience of each
/// record of it.
pub open spec fn records(party: Seq<MonView>, personality: u32, ot_id: u32, n: nat) -> Multiset<
    (u8, u32),
>
    decreases n,
{
    if n == 0 {
        Multiset::empty()
    } else {
        let rest = records(party, personality, ot_id, (n - 1) as nat);
        let m = party[n - 1];
        if is_of(m, personality, ot_id) {
            rest.insert((m.level, m.experience))
        } else {
            rest
        }
    }
}

/// What a party says of one Pokemon.
pub open spec fn account(party: Seq<MonView>, personality: u32, ot_id: u32) -> Multiset<(u8, u32)> {
    records(party, personality, ot_id, party.len())
}

/// Every record of a Pokemon, from place `i` of a party on, was decoded.
pub open spec fn legible(party: Seq<MonView>, personality: u32, ot_id: u32, i: int) -> bool {
    forall|j: int|
        i <= j < party.len() && is_of(#[trigger] party[j], personality, ot_id)
            ==> party[j].checksum_ok
}

/// Two parties agree on one Pokemon: they hold as many records of it, and, where all of those were
/// decoded, the same ones.
pub open spec fn same_pokemon(
    claimed: Seq<MonView>,
    computed: Seq<MonView>,
    personality: u32,
    ot_id: u32,
) -> bool {
    let a = account(claimed, personality, ot_id);
    let b = account(computed, personality, ot_id);
    &&& a.len() == b.len()
    &&& legible(claimed, personality, ot_id, 0) && legible(computed, personality, ot_id, 0) ==> a
        == b
}

/// Two parties agree, whatever the order.
pub open spec fn same_party(claimed: Seq<MonView>, computed: Seq<MonView>) -> bool {
    forall|personality: u32, ot_id: u32| #[trigger]
        same_pokemon(claimed, computed, personality, ot_id)
}

/// How many of an item the first `n` slots of a bag hold together.
pub open spec fn total_of(bag: Seq<(u8, u16, u16)>, pocket: u8, item: u16, n: nat) -> nat
    decreases n,
{
    if n == 0 {
        0
    } else {
        let rest = total_of(bag, pocket, item, (n - 1) as nat);
        if bag[n - 1].0 == pocket && bag[n - 1].1 == item {
            rest + bag[n - 1].2 as nat
        } else {
            rest
        }
    }
}

/// How many of an item a bag holds in a pocket.
pub open spec fn held(bag: Seq<(u8, u16, u16)>, pocket: u8, item: u16) -> nat {
    total_of(bag, pocket, item, bag.len())
}

/// Two bags agree: each pocket holds as many of each item, in whatever stacks.
pub open spec fn same_bag(claimed: Seq<(u8, u16, u16)>, computed: Seq<(u8, u16, u16)>) -> bool {
    forall|pocket: u8, item: u16| #[trigger]
        held(claimed, pocket, item) == held(computed, pocket, item)
}

/// Two accounts of a session agree in money, party and bag.
pub open spec fn accounts_agree(claimed: SaveView, computed: SaveView) -> bool {
    &&& claimed.money() == computed.money()
    &&& same_party(claimed.party, computed.party)
    &&& same_bag(claimed.bag, computed.bag)
}

/// The first record of a Pokemon, from place `i` of a party on, that says something else than this
/// one.
pub open spec fn odd_one(party: Seq<MonView>, want: MonView, i: int) -> Option<MonView>
    decreases party.len() - i,
{
    if i >= party.len() {
        None
    } else if is_of(party[i], want.personality, want.ot_id) && (party[i].level != want.level
        || party[i].experience != want.experience) {
        Some(party[i])
    } else {
        odd_one(party, want, i + 1)
    }
}

/// What is said of a Pokemon that the server's run has and the client does not.
pub open spec fn missing_there(personality: u32) -> Seq<char> {
    "a Pokemon the server's run has (personality "@ + text::dec(personality as nat)
        + ") is missing from the client's"@
}

/// What is said of a Pokemon that the client has and the server's run does not.
pub open spec fn missing_here(personality: u32) -> Seq<char> {
    "a Pokemon the client has (personality "@ + text::dec(personality as nat)
        + ") is missing from the server's run"@
}

/// The disagreement over how many records of a Pokemon there are.
pub open spec fn number_disagreement(
    claimed: Seq<MonView>,
    computed: Seq<MonView>,
    m: MonView,
) -> Option<Seq<char>> {
    let a = account(claimed, m.personality, m.ot_id).len();
    let b = account(computed, m.personality, m.ot_id).len();
    if a < b {
        Some(missing_there(m.personality))
    } else if b < a {
        Some(missing_here(m.personality))
    } else {
        None
    }
}

/// The disagreement over one Pokemon that the server's run has. Nothing is held against a Pokemon
/// of which either side could not decode a record: the numbers in it were invented by the decode.
pub open spec fn mon_disagreement(
    claimed: Seq<MonView>,
    computed: Seq<MonView>,
    want: MonView,
) -> Option<Seq<char>> {
    let a = account(claimed, want.personality, want.ot_id);
    let b = account(computed, want.personality, want.ot_id);
    let record = (want.level, want.experience);
    if number_disagreement(claimed, computed, want) is Some {
        number_disagreement(claimed, computed, want)
    } else if !legible(claimed, want.personality, want.ot_id, 0) || !legible(
        computed,
        want.personality,
        want.ot_id,
        0,
    ) || a.count(record) >= b.count(record) {
        None
    } else {
        match odd_one(claimed, want, 0) {
            None => None,
            Some(got) => if got.level != want.level {
                Some(disagreement("level: client says "@, got.level as nat, want.level as nat))
            } else {
                Some(
                    disagreement(
                        "experience: client says "@,
                        got.experience as nat,
                        want.experience as nat,
                    ),
                )
            },
        }
    }
}

/// The first disagreement over the party, from place `i` of the server's on.
pub open spec fn party_disagreement(
    claimed: Seq<MonView>,
    computed: Seq<MonView>,
    i: int,
) -> Option<Seq<char>>
    decreases computed.len() - i,
{
    if i >= computed.len() {
        None
    } else if mon_disagreement(claimed, computed, computed[i]) is Some {
        mon_disagreement(claimed, computed, computed[i])
    } else {
        party_disagreement(claimed, computed, i + 1)
    }
}

/// The first Pokemon, from place `i` of the client's on, that the server's run does not have.
pub open spec fn party_surplus(
    claimed: Seq<MonView>,
    computed: Seq<MonView>,
    i: int,
) -> Option<Seq<char>>
    decreases claimed.len() - i,
{
    if i >= claimed.len() {
        None
    } else if number_disagreement(claimed, computed, claimed[i]) is Some {
        number_disagreement(claimed, computed, claimed[i])
    } else {
        party_surplus(claimed, computed, i + 1)
    }
}

/// The disagreement over one item.
pub open spec fn item_disagreement(
    claimed: Seq<(u8, u16, u16)>,
    computed: Seq<(u8, u16, u16)>,
    pocket: u8,
    item: u16,
) -> Option<Seq<char>> {
    let got = held(claimed, pocket, item);
    let want = held(computed, pocket, item);
    if got != want {
        Some(
            disagreement("item "@ + text::dec(item as nat) + ": client says "@, got, want),
        )
    } else {
        None
    }
}

/// The first disagreement over the items of a bag, from place `i` of it on.
pub open spec fn bag_disagreement(
    claimed: Seq<(u8, u16, u16)>,
    computed: Seq<(u8, u16, u16)>,
    listed: Seq<(u8, u16, u16)>,
    i: int,
) -> Option<Seq<char>>
    decreases listed.len() - i,
{
    if i >= listed.len() {
        None
    } else if item_disagreement(claimed, computed, listed[i].0, listed[i].1) is Some {
        item_disagreement(claimed, computed, listed[i].0, listed[i].1)
    } else {
        bag_disagreement(claimed, computed, listed, i + 1)
    }
}

/// The first material disagreement between two accounts of a session: over the money, over the
/// party, over the bag; of each, first over what the server's run has, then over what only the
/// client has.
pub open spec fn divergence(claimed: SaveView, computed: SaveView) -> Option<Seq<char>> {
    if claimed.money() != computed.money() {
        Some(
            disagreement(
                "money: client says "@,
                claimed.money() as nat,
                computed.money() as nat,
            ),
        )
    } else if party_disagreement(claimed.party, computed.party, 0) is Some {
        party_disagreement(claimed.party, computed.party, 0)
    } else if party_surplus(claimed.party, computed.party, 0) is Some {
        party_surplus(claimed.party, computed.party, 0)
    } else if bag_disagreement(claimed.bag, computed.bag, computed.bag, 0) is Some {
        bag_disagreement(claimed.bag, computed.bag, computed.bag, 0)
    } else {
        bag_disagreement(claimed.bag, computed.bag, claimed.bag, 0)
    }
}

fn say_disagreement(head: String, claimed: u128, computed: u128) -> (r: String)
    ensures
        r@ == disagreement(head@, claimed as nat, computed as nat),
{
    let mut s = head;
    text::push_wide(&mut s, claimed);
    text::push_text(&mut s, ", the server's own run produced ");
    text::push_wide(&mut s, computed);
    s
}

/// How many records of a Pokemon a party holds.
fn count_records(party: &Vec<PartyMon>, personality: u32, ot_id: u32) -> (r: usize)
    ensures
        r == account(state::party_view(party@), personality, ot_id).len(),
{
    let mut n: usize = 0;
    let mut i: usize = 0;
    while i < party.len()
        invariant
            n <= i <= party@.len(),
            n == records(state::party_view(party@), personality, ot_id, i as nat).len(),
        decreases party@.len() - i,
    {
        if party[i].personality == personality && party[i].ot_id == ot_id {
            n = n + 1;
        }
        i = i + 1;
    }
    n
}

/// How many records of a Pokemon in a party say the same as this one.
fn count_same(party: &Vec<PartyMon>, want: &PartyMon) -> (r: usize)
    ensures
        r == account(state::party_view(party@), want@.personality, want@.ot_id).count(
            (want@.level, want@.experience),
        ),
{
    let mut n: usize = 0;
    let mut i: usize = 0;
    while i < party.len()
        invariant
            n <= i <= party@.len(),
            n == records(
                state::party_view(party@),
                want@.personality,
                want@.ot_id,
                i as nat,
            ).count((want@.level, want@.experience)),
        decreases party@.len() - i,
    {
        let m = &party[i];
        if m.personality == want.personality && m.ot_id == want.ot_id && m.level == want.level
            && m.experience == want.experience {
            n = n + 1;
        }
        i = i + 1;
    }
    n
}

/// Whether every record of a Pokemon in a party was decoded.
fn all_decoded(party: &Vec<PartyMon>, personality: u32, ot_id: u32) -> (r: bool)
    ensures
        r == legible(state::party_view(party@), personality, ot_id, 0),
{
    let ghost view = state::party_view(party@);
    let mut i: usize = 0;
    while i < party.len()
        invariant
            view == state::party_view(party@),
            i <= party@.len(),
            legible(view, personality, ot_id, 0) == legible(view, personality, ot_id, i as int),
        decreases party@.len() - i,
    {
        if party[i].personality == personality && party[i].ot_id == ot_id && !party[i].checksum_ok {
            assert(is_of(view[i as int], personality, ot_id));
            return false;
        }
        proof {
            assert(view[i as int] == party@[i as int]@);
            assert(legible(view, personality, ot_id, i as int) == legible(
                view,
                personality,
                ot_id,
                i + 1,
            ));
        }
        i = i + 1;
    }
    true
}

/// Where the first record of a Pokemon stands that says something else than this one.
fn find_odd(party: &Vec<PartyMon>, want: &PartyMon) -> (r: Option<usize>)
    ensures
        match r {
            Some(i) => i < party@.len() && odd_one(state::party_view(party@), want@, 0) == Some(
                party@[i as int]@,
            ),
            None => odd_one(state::party_view(party@), want@, 0) is None,
        },
{
    let mut i: usize = 0;
    while i < party.len()
        invariant
            i <= party@.len(),
            odd_one(state::party_view(party@), want@, 0) == odd_one(
                state::party_view(party@),
                want@,
                i as int,
            ),
        decreases party@.len() - i,
    {
        let m = &party[i];
        assert(state::party_view(party@)[i as int] == m@);
        if m.personality == want.personality && m.ot_id == want.ot_id && (m.level != want.level
            || m.experience != want.experience) {
            return Some(i);
        }
        i = i + 1;
    }
    None
}

/// How many of an item a bag holds in a pocket.
fn count_item(bag: &Vec<(u8, u16, u16)>, pocket: u8, item: u16) -> (r: u128)
    ensures
        r == held(bag@, pocket, item),
{
    assert(bag.len() == bag@.len());
    let mut total: u128 = 0;
    let mut i: usize = 0;
    while i < bag.len()
        invariant
            i <= bag@.len() <= usize::MAX,
            total == total_of(bag@, pocket, item, i as nat),
            total <= i * 65535,
        decreases bag@.len() - i,
    {
        if bag[i].0 == pocket && bag[i].1 == item {
            total = total + bag[i].2 as u128;
        }
        i = i + 1;
    }
    total
}

fn compare_number(claimed: &Vec<PartyMon>, computed: &Vec<PartyMon>, m: &PartyMon) -> (r: Option<
    String,
>)
    ensures
        says(
            r,
            number_disagreement(
                state::party_view(claimed@),
                state::party_view(computed@),
                m@,
            ),
        ),
{
    let a: usize = count_records(claimed, m.personality, m.ot_id);
    let b: usize = count_records(computed, m.personality, m.ot_id);
    if a < b {
        let mut s = "a Pokemon the server's run has (personality ".to_owned();
        text::push_dec(&mut s, m.personality as u64);
        text::push_text(&mut s, ") is missing from the client's");
        Some(s)
    } else if b < a {
        let mut s = "a Pokemon the client has (personality ".to_owned();
        text::push_dec(&mut s, m.personality as u64);
        text::push_text(&mut s, ") is missing from the server's run");
        Some(s)
    } else {
        None
    }
}

fn compare_mon(claimed: &Vec<PartyMon>, computed: &Vec<PartyMon>, want: &PartyMon) -> (r: Option<
    String,
>)
    ensures
        says(
            r,
            mon_disagreement(
                state::party_view(claimed@),
                state::party_view(computed@),
                want@,
            ),
        ),
{
    let number = compare_number(claimed, computed, want);
    if number.is_some() {
        return number;
    }
    if !all_decoded(claimed, want.personality, want.ot_id) || !all_decoded(
        computed,
        want.personality,
        want.ot_id,
    ) || count_same(claimed, want) >= count_same(computed, want) {
        return None;
    }
    match find_odd(claimed, want) {
        None => None,
        Some(at) => {
            let got = &claimed[at];
            if got.level != want.level {
                Some(
                    say_disagreement(
                        "level: client says ".to_owned(),
                        got.level as u128,
                        want.level as u128,
                    ),
                )
            } else {
                Some(
                    say_disagreement(
                        "experience: client says ".to_owned(),
                        got.experience as u128,
                        want.experience as u128,
                    ),
                )
            }
        },
    }
}

fn compare_items(
    claimed: &Vec<(u8, u16, u16)>,
    computed: &Vec<(u8, u16, u16)>,
    listed: &Vec<(u8, u16, u16)>,
) -> (r: Option<String>)
    ensures
        says(r, bag_disagreement(claimed@, computed@, listed@, 0)),
{
    let mut i: usize = 0;
    while i < listed.len()
        invariant
            i <= listed@.len(),
            bag_disagreement(claimed@, computed@, listed@, 0) == bag_disagreement(
                claimed@,
                computed@,
                listed@,
                i as int,
            ),
        decreases listed@.len() - i,
    {
        let (pocket, item, _): (u8, u16, u16) = listed[i];
        let got: u128 = count_item(claimed, pocket, item);
        let want: u128 = count_item(computed, pocket, item);
        if got != want {
            let mut head = "item ".to_owned();
            text::push_dec(&mut head, item as u64);
            text::push_text(&mut head, ": client says ");
            return Some(say_disagreement(head, got, want));
        }
        i = i + 1;
    }
    None
}

/// What the client says, against what the server's own run of the game produced: the first
/// material disagreement, or None when the two accounts match.
///
/// Only what a player cares about and cannot honestly disagree on is compared: money, the party
/// and the bag. Pokemon are matched by identity, not by slot, and items by how many there are, not
/// by stack. Whatever turns on wall-clock timing differs between two honest runs.
pub fn diverged(claimed: &SaveState, computed: &SaveState) -> (r: Option<String>)
    ensures
        says(r, divergence(claimed@, computed@)),
        r is None <==> accounts_agree(claimed@, computed@),
{
    proof {
        law_only_accounts_that_agree_match(claimed@, computed@);
    }
    let a: u32 = claimed.money();
    let b: u32 = computed.money();
    if a != b {
        return Some(say_disagreement("money: client says ".to_owned(), a as u128, b as u128));
    }
    let mut i: usize = 0;
    while i < computed.party.len()
        invariant
            i <= computed.party@.len(),
            claimed@.money() == computed@.money(),
            divergence(claimed@, computed@) is None <==> accounts_agree(claimed@, computed@),
            party_disagreement(claimed@.party, computed@.party, 0) == party_disagreement(
                claimed@.party,
                computed@.party,
                i as int,
            ),
        decreases computed.party@.len() - i,
    {
        let bad = compare_mon(&claimed.party, &computed.party, &computed.party[i]);
        if bad.is_some() {
            return bad;
        }
        i = i + 1;
    }
    let mut j: usize = 0;
    while j < claimed.party.len()
        invariant
            j <= claimed.party@.len(),
            claimed@.money() == computed@.money(),
            divergence(claimed@, computed@) is None <==> accounts_agree(claimed@, computed@),
            party_disagreement(claimed@.party, computed@.party, 0) is None,
            party_surplus(claimed@.party, computed@.party, 0) == party_surplus(
                claimed@.party,
                computed@.party,
                j as int,
            ),
        decreases claimed.party@.len() - j,
    {
        let bad = compare_number(&claimed.party, &computed.party, &claimed.party[j]);
        if bad.is_some() {
            return bad;
        }
        j = j + 1;
    }
    let bad = compare_items(&claimed.bag, &computed.bag, &computed.bag);
    if bad.is_some() {
        return bad;
    }
    compare_items(&claimed.bag, &computed.bag, &claimed.bag)
}

// ---------------------------------------------------------------------------------------------
// Laws
// ---------------------------------------------------------------------------------------------

/// Two records of one Pokemon.
pub open spec fn same_identity(a: MonView, b: MonView) -> bool {
    a.personality == b.personality && a.ot_id == b.ot_id
}

/// No two Pokemon of a party share an identity.
pub open spec fn distinct_identities(party: Seq<MonView>) -> bool {
    forall|i: int, j: int|
        0 <= i < party.len() && 0 <= j < party.len() && i != j ==> !same_identity(
            #[trigger] party[i],
            #[trigger] party[j],
        )
}

/// The Pokemon that is found by an identity has it, and stands first of those that do.
proof fn lemma_same_mon(party: Seq<MonView>, personality: u32, ot_id: u32, i: int)
    requires
        0 <= i,
    ensures
        match same_mon(party, personality, ot_id, i) {
            Some(m) => exists|j: int|
                i <= j < party.len() && #[trigger] party[j] == m && m.personality == personality
                    && m.ot_id == ot_id,
            None => forall|j: int|
                i <= j < party.len() ==> (#[trigger] party[j]).personality != personality
                    || party[j].ot_id != ot_id,
        },
    decreases party.len() - i,
{
    if i < party.len() && !(party[i].personality == personality && party[i].ot_id == ot_id) {
        lemma_same_mon(party, personality, ot_id, i + 1);
    }
}

/// In a party of distinct identities, a Pokemon is found by its own.
proof fn lemma_found_by_identity(party: Seq<MonView>, k: int)
    requires
        distinct_identities(party),
        0 <= k < party.len(),
    ensures
        same_mon(party, party[k].personality, party[k].ot_id, 0) == Some(party[k]),
{
    lemma_same_mon(party, party[k].personality, party[k].ot_id, 0);
    match same_mon(party, party[k].personality, party[k].ot_id, 0) {
        Some(m) => {
            let j = choose|j: int|
                0 <= j < party.len() && #[trigger] party[j] == m && same_identity(m, party[k]);
            assert(same_identity(party[j], party[k]));
            assert(j == k);
        },
        None => {
            assert(party[k].personality != party[k].personality || party[k].ot_id
                != party[k].ot_id);
        },
    }
}

proof fn lemma_no_party_loss(before: Seq<MonView>, after: Seq<MonView>, i: int)
    requires
        0 <= i,
        forall|k: int| 0 <= k < before.len() ==> mon_loss(#[trigger] before[k], after) is None,
    ensures
        party_loss(before, after, i) is None,
    decreases before.len() - i,
{
    if i < before.len() {
        assert(mon_loss(before[i], after) is None);
        lemma_no_party_loss(before, after, i + 1);
    }
}

/// Reordering a party, depositing and withdrawing are no regression, and neither is getting
/// stronger: where every Pokemon that both saves hold has at least the experience and the level it
/// had, nothing is said, whatever places they stand in.
pub proof fn law_moving_pokemon_is_no_regression(before: Seq<MonView>, after: Seq<MonView>)
    requires
        forall|i: int, j: int|
            0 <= i < before.len() && 0 <= j < after.len() && same_identity(
                #[trigger] before[i],
                #[trigger] after[j],
            ) ==> before[i].experience <= after[j].experience && before[i].level <= after[j].level,
    ensures
        party_loss(before, after, 0) is None,
{
    assert forall|k: int| 0 <= k < before.len() implies mon_loss(
        #[trigger] before[k],
        after,
    ) is None by {
        let m = before[k];
        lemma_same_mon(after, m.personality, m.ot_id, 0);
        match same_mon(after, m.personality, m.ot_id, 0) {
            Some(new) => {
                let j = choose|j: int|
                    0 <= j < after.len() && #[trigger] after[j] == new && same_identity(new, m);
                assert(same_identity(before[k], after[j]));
            },
            None => {},
        }
    }
    lemma_no_party_loss(before, after, 0);
}

/// A Pokemon that both saves hold, that both decode, and that has less experience or a lower level
/// than it had is never passed over.
pub proof fn law_lost_experience_is_seen(
    before: Seq<MonView>,
    after: Seq<MonView>,
    i: int,
    j: int,
)
    requires
        distinct_identities(after),
        0 <= i < before.len(),
        0 <= j < after.len(),
        same_identity(before[i], after[j]),
        before[i].checksum_ok,
        after[j].checksum_ok,
        after[j].experience < before[i].experience || after[j].level < before[i].level,
    ensures
        party_loss(before, after, 0) is Some,
{
    lemma_found_by_identity(after, j);
    assert(mon_loss(before[i], after) is Some);
    lemma_loss_is_reported(before, after, i, 0);
}

proof fn lemma_loss_is_reported(before: Seq<MonView>, after: Seq<MonView>, i: int, from: int)
    requires
        0 <= from <= i < before.len(),
        mon_loss(before[i], after) is Some,
    ensures
        party_loss(before, after, from) is Some,
    decreases i - from,
{
    if from < i {
        lemma_loss_is_reported(before, after, i, from + 1);
    }
}

/// A Pokemon of which a party holds a record stands in it.
proof fn lemma_recorded(
    party: Seq<MonView>,
    personality: u32,
    ot_id: u32,
    n: nat,
    record: (u8, u32),
) -> (i: int)
    requires
        n <= party.len(),
        records(party, personality, ot_id, n).count(record) > 0,
    ensures
        0 <= i < n,
        is_of(party[i], personality, ot_id),
        party[i].level == record.0,
        party[i].experience == record.1,
    decreases n,
{
    let m = party[n - 1];
    if is_of(m, personality, ot_id) && (m.level, m.experience) == record {
        n - 1
    } else {
        lemma_recorded(party, personality, ot_id, (n - 1) as nat, record)
    }
}

/// A party with a record of a Pokemon is asked about it.
proof fn lemma_some_record(party: Seq<MonView>, personality: u32, ot_id: u32) -> (i: int)
    requires
        account(party, personality, ot_id).len() > 0,
    ensures
        0 <= i < party.len(),
        is_of(party[i], personality, ot_id),
{
    let all = account(party, personality, ot_id);
    vstd::multiset::lemma_multiset_empty_len(all);
    let record = choose|record: (u8, u32)| 0 < all.count(record);
    lemma_recorded(party, personality, ot_id, party.len(), record)
}

proof fn lemma_no_odd_one(party: Seq<MonView>, want: MonView, n: nat)
    requires
        n <= party.len(),
        forall|i: int|
            0 <= i < party.len() && is_of(#[trigger] party[i], want.personality, want.ot_id)
                ==> party[i].level == want.level && party[i].experience == want.experience,
    ensures
        records(party, want.personality, want.ot_id, n).count((want.level, want.experience))
            == records(party, want.personality, want.ot_id, n).len(),
    decreases n,
{
    if n > 0 {
        lemma_no_odd_one(party, want, (n - 1) as nat);
        let m = party[n - 1];
        if is_of(m, want.personality, want.ot_id) {
            assert(m.level == want.level);
        }
    }
}

proof fn lemma_odd_one(party: Seq<MonView>, want: MonView, i: int, j: int)
    requires
        0 <= i <= j < party.len(),
        is_of(party[j], want.personality, want.ot_id),
        party[j].level != want.level || party[j].experience != want.experience,
    ensures
        odd_one(party, want, i) is Some,
    decreases j - i,
{
    if i < j {
        lemma_odd_one(party, want, i + 1, j);
    }
}

/// A Pokemon that is told of too rarely is told of otherwise.
proof fn lemma_missing_record_is_said(
    claimed: Seq<MonView>,
    computed: Seq<MonView>,
    want: MonView,
)
    requires
        account(claimed, want.personality, want.ot_id).len() == account(
            computed,
            want.personality,
            want.ot_id,
        ).len(),
        account(claimed, want.personality, want.ot_id).count((want.level, want.experience))
            < account(computed, want.personality, want.ot_id).count(
            (want.level, want.experience),
        ),
    ensures
        odd_one(claimed, want, 0) is Some,
{
    if forall|i: int|
        0 <= i < claimed.len() && is_of(#[trigger] claimed[i], want.personality, want.ot_id)
            ==> claimed[i].level == want.level && claimed[i].experience == want.experience {
        lemma_no_odd_one(claimed, want, claimed.len());
        assert(account(computed, want.personality, want.ot_id).count(
            (want.level, want.experience),
        ) <= account(computed, want.personality, want.ot_id).len());
    } else {
        let j = choose|j: int|
            0 <= j < claimed.len() && is_of(
                #[trigger] claimed[j],
                want.personality,
                want.ot_id,
            ) && !(claimed[j].level == want.level && claimed[j].experience == want.experience);
        lemma_odd_one(claimed, want, 0, j);
    }
}

proof fn lemma_party_disagreement(claimed: Seq<MonView>, computed: Seq<MonView>, i: int)
    requires
        0 <= i,
    ensures
        party_disagreement(claimed, computed, i) is None <==> forall|k: int|
            i <= k < computed.len() ==> mon_disagreement(
                claimed,
                computed,
                #[trigger] computed[k],
            ) is None,
    decreases computed.len() - i,
{
    if i < computed.len() {
        lemma_party_disagreement(claimed, computed, i + 1);
        assert(mon_disagreement(claimed, computed, computed[i]) is None
            || party_disagreement(claimed, computed, i) is Some);
    }
}

proof fn lemma_party_surplus(claimed: Seq<MonView>, computed: Seq<MonView>, i: int)
    requires
        0 <= i,
    ensures
        party_surplus(claimed, computed, i) is None <==> forall|k: int|
            i <= k < claimed.len() ==> number_disagreement(
                claimed,
                computed,
                #[trigger] claimed[k],
            ) is None,
    decreases claimed.len() - i,
{
    if i < claimed.len() {
        lemma_party_surplus(claimed, computed, i + 1);
        assert(number_disagreement(claimed, computed, claimed[i]) is None
            || party_surplus(claimed, computed, i) is Some);
    }
}

proof fn lemma_bag_disagreement(
    claimed: Seq<(u8, u16, u16)>,
    computed: Seq<(u8, u16, u16)>,
    listed: Seq<(u8, u16, u16)>,
    i: int,
)
    requires
        0 <= i,
    ensures
        bag_disagreement(claimed, computed, listed, i) is None <==> forall|k: int|
            i <= k < listed.len() ==> held(claimed, (#[trigger] listed[k]).0, listed[k].1) == held(
                computed,
                listed[k].0,
                listed[k].1,
            ),
    decreases listed.len() - i,
{
    if i < listed.len() {
        lemma_bag_disagreement(claimed, computed, listed, i + 1);
        assert(held(claimed, listed[i].0, listed[i].1) == held(
            computed,
            listed[i].0,
            listed[i].1,
        ) || bag_disagreement(claimed, computed, listed, i) is Some);
    }
}

/// What a bag holds of an item stands in it.
proof fn lemma_held_is_listed(bag: Seq<(u8, u16, u16)>, pocket: u8, item: u16, n: nat) -> (i: int)
    requires
        n <= bag.len(),
        total_of(bag, pocket, item, n) > 0,
    ensures
        0 <= i < n,
        bag[i].0 == pocket,
        bag[i].1 == item,
    decreases n,
{
    if bag[n - 1].0 == pocket && bag[n - 1].1 == item {
        n - 1
    } else {
        lemma_held_is_listed(bag, pocket, item, (n - 1) as nat)
    }
}

/// Parties over which nothing is said agree.
proof fn lemma_silence_is_agreement(
    claimed: Seq<MonView>,
    computed: Seq<MonView>,
    personality: u32,
    ot_id: u32,
)
    requires
        party_disagreement(claimed, computed, 0) is None,
        party_surplus(claimed, computed, 0) is None,
    ensures
        same_pokemon(claimed, computed, personality, ot_id),
{
    lemma_party_disagreement(claimed, computed, 0);
    lemma_party_surplus(claimed, computed, 0);
    let a = account(claimed, personality, ot_id);
    let b = account(computed, personality, ot_id);
    if a.len() < b.len() {
        let i = lemma_some_record(computed, personality, ot_id);
        assert(mon_disagreement(claimed, computed, computed[i]) is None);
    }
    if b.len() < a.len() {
        let i = lemma_some_record(claimed, personality, ot_id);
        assert(number_disagreement(claimed, computed, claimed[i]) is None);
    }
    if legible(claimed, personality, ot_id, 0) && legible(computed, personality, ot_id, 0) {
        assert forall|record: (u8, u32)| b.count(record) <= a.count(record) by {
            if a.count(record) < b.count(record) {
                let i = lemma_recorded(
                    computed,
                    personality,
                    ot_id,
                    computed.len(),
                    record,
                );
                assert(mon_disagreement(claimed, computed, computed[i]) is None);
                assert((computed[i].level, computed[i].experience) == record);
                lemma_missing_record_is_said(claimed, computed, computed[i]);
            }
        }
        assert(b.subset_of(a));
        assert(a.sub(b).len() == 0);
        vstd::multiset::lemma_multiset_empty_len(a.sub(b));
        assert forall|record: (u8, u32)| a.count(record) == b.count(record) by {
            assert(a.sub(b).count(record) == 0);
        }
        assert(a =~= b);
    }
}

/// Nothing is said of two accounts if and only if they agree in money, party and bag, in both
/// directions.
pub proof fn law_only_accounts_that_agree_match(claimed: SaveView, computed: SaveView)
    ensures
        divergence(claimed, computed) is None <==> accounts_agree(claimed, computed),
{
    lemma_party_disagreement(claimed.party, computed.party, 0);
    lemma_party_surplus(claimed.party, computed.party, 0);
    lemma_bag_disagreement(claimed.bag, computed.bag, computed.bag, 0);
    lemma_bag_disagreement(claimed.bag, computed.bag, claimed.bag, 0);
    if divergence(claimed, computed) is None {
        assert forall|personality: u32, ot_id: u32| #[trigger]
            same_pokemon(claimed.party, computed.party, personality, ot_id) by {
            lemma_silence_is_agreement(claimed.party, computed.party, personality, ot_id);
        }
        assert forall|pocket: u8, item: u16| #[trigger]
            held(claimed.bag, pocket, item) == held(computed.bag, pocket, item) by {
            if held(claimed.bag, pocket, item) > 0 {
                let i = lemma_held_is_listed(claimed.bag, pocket, item, claimed.bag.len());
                assert(claimed.bag[i].0 == pocket);
            } else if held(computed.bag, pocket, item) > 0 {
                let i = lemma_held_is_listed(computed.bag, pocket, item, computed.bag.len());
                assert(computed.bag[i].0 == pocket);
            }
        }
    }
    if accounts_agree(claimed, computed) {
        assert forall|k: int| 0 <= k < computed.party.len() implies mon_disagreement(
            claimed.party,
            computed.party,
            #[trigger] computed.party[k],
        ) is None by {
            let m = computed.party[k];
            assert(same_pokemon(claimed.party, computed.party, m.personality, m.ot_id));
        }
        assert forall|k: int| 0 <= k < claimed.party.len() implies number_disagreement(
            claimed.party,
            computed.party,
            #[trigger] claimed.party[k],
        ) is None by {
            let m = claimed.party[k];
            assert(same_pokemon(claimed.party, computed.party, m.personality, m.ot_id));
        }
        assert forall|k: int| 0 <= k < computed.bag.len() implies held(
            claimed.bag,
            (#[trigger] computed.bag[k]).0,
            computed.bag[k].1,
        ) == held(computed.bag, computed.bag[k].0, computed.bag[k].1) by {}
        assert forall|k: int| 0 <= k < claimed.bag.len() implies held(
            claimed.bag,
            (#[trigger] claimed.bag[k]).0,
            claimed.bag[k].1,
        ) == held(computed.bag, claimed.bag[k].0, claimed.bag[k].1) by {}
    }
}

/// Every save matches itself.
pub proof fn law_a_save_matches_itself(s: SaveView)
    ensures
        divergence(s, s) is None,
{
    law_only_accounts_that_agree_match(s, s);
}

proof fn lemma_records_without(
    party: Seq<MonView>,
    j: int,
    personality: u32,
    ot_id: u32,
    n: nat,
)
    requires
        0 <= j < party.len(),
        n <= party.len(),
    ensures
        ({
            let all = records(party, personality, ot_id, n);
            let m = party[j];
            if n <= j {
                all == records(party.remove(j), personality, ot_id, n)
            } else {
                let rest = records(party.remove(j), personality, ot_id, (n - 1) as nat);
                all == if is_of(m, personality, ot_id) {
                    rest.insert((m.level, m.experience))
                } else {
                    rest
                }
            }
        }),
    decreases n,
{
    let without = party.remove(j);
    if n > 0 {
        lemma_records_without(party, j, personality, ot_id, (n - 1) as nat);
        if n <= j {
            assert(without[n - 1] == party[n - 1]);
        } else if n > j + 1 {
            assert(without[n - 2] == party[n - 1]);
            let rest = records(without, personality, ot_id, (n - 2) as nat);
            let (x, y) = (
                (party[j].level, party[j].experience),
                (party[n - 1].level, party[n - 1].experience),
            );
            assert(rest.insert(x).insert(y) =~= rest.insert(y).insert(x));
        }
    }
}

proof fn lemma_total_without(
    bag: Seq<(u8, u16, u16)>,
    j: int,
    pocket: u8,
    item: u16,
    n: nat,
)
    requires
        0 <= j < bag.len(),
        n <= bag.len(),
    ensures
        ({
            let all = total_of(bag, pocket, item, n);
            if n <= j {
                all == total_of(bag.remove(j), pocket, item, n)
            } else {
                let rest = total_of(bag.remove(j), pocket, item, (n - 1) as nat);
                all == if bag[j].0 == pocket && bag[j].1 == item {
                    rest + bag[j].2
                } else {
                    rest as int
                }
            }
        }),
    decreases n,
{
    let without = bag.remove(j);
    if n > 0 {
        lemma_total_without(bag, j, pocket, item, (n - 1) as nat);
        if n <= j {
            assert(without[n - 1] == bag[n - 1]);
        } else if n > j + 1 {
            assert(without[n - 2] == bag[n - 1]);
        }
    }
}

/// Where the last of one list stands in another with the same members.
proof fn lemma_last_of_same<A>(a: Seq<A>, b: Seq<A>) -> (j: int)
    requires
        a.to_multiset() == b.to_multiset(),
        a.len() > 0,
    ensures
        0 <= j < b.len(),
        b[j] == a.last(),
        b.len() == a.len(),
        a.drop_last().to_multiset() == b.remove(j).to_multiset(),
{
    broadcast use vstd::seq_lib::group_to_multiset_ensures;

    assert(a.to_multiset().len() == a.len());
    assert(b.to_multiset().len() == b.len());
    assert(a.contains(a.last()));
    assert(a.to_multiset().contains(a.last()));
    assert(b.to_multiset().contains(a.last()));
    assert(b.contains(a.last()));
    let j = choose|j: int| 0 <= j < b.len() && b[j] == a.last();
    assert(a.drop_last() =~= a.remove(a.len() - 1));
    j
}

proof fn lemma_order_of_records(a: Seq<MonView>, b: Seq<MonView>, personality: u32, ot_id: u32)
    requires
        a.to_multiset() == b.to_multiset(),
    ensures
        account(a, personality, ot_id) == account(b, personality, ot_id),
        legible(a, personality, ot_id, 0) == legible(b, personality, ot_id, 0),
    decreases a.len(),
{
    broadcast use vstd::seq_lib::group_to_multiset_ensures;

    assert(a.to_multiset().len() == a.len());
    assert(b.to_multiset().len() == b.len());
    if a.len() > 0 {
        let j = lemma_last_of_same(a, b);
        let x = a.drop_last();
        let y = b.remove(j);
        lemma_order_of_records(x, y, personality, ot_id);
        lemma_records_without(b, j, personality, ot_id, b.len());
        lemma_records_without(a, a.len() - 1, personality, ot_id, a.len());
        assert(a.remove(a.len() - 1) =~= x);
        lemma_legible_without(a, a.len() - 1, personality, ot_id);
        lemma_legible_without(b, j, personality, ot_id);
    }
}

proof fn lemma_legible_without(party: Seq<MonView>, j: int, personality: u32, ot_id: u32)
    requires
        0 <= j < party.len(),
    ensures
        legible(party, personality, ot_id, 0) == (legible(
            party.remove(j),
            personality,
            ot_id,
            0,
        ) && (is_of(party[j], personality, ot_id) ==> party[j].checksum_ok)),
{
    let without = party.remove(j);
    if legible(party, personality, ot_id, 0) {
        assert forall|k: int|
            0 <= k < without.len() && is_of(#[trigger] without[k], personality, ot_id) implies
            without[k].checksum_ok by {
            if k < j {
                assert(without[k] == party[k]);
            } else {
                assert(without[k] == party[k + 1]);
            }
        }
    }
    if legible(without, personality, ot_id, 0) && (is_of(party[j], personality, ot_id)
        ==> party[j].checksum_ok) {
        assert forall|k: int|
            0 <= k < party.len() && is_of(#[trigger] party[k], personality, ot_id) implies
            party[k].checksum_ok by {
            if k < j {
                assert(without[k] == party[k]);
            } else if k > j {
                assert(without[k - 1] == party[k]);
            }
        }
    }
}

proof fn lemma_order_of_items(
    a: Seq<(u8, u16, u16)>,
    b: Seq<(u8, u16, u16)>,
    pocket: u8,
    item: u16,
)
    requires
        a.to_multiset() == b.to_multiset(),
    ensures
        held(a, pocket, item) == held(b, pocket, item),
    decreases a.len(),
{
    broadcast use vstd::seq_lib::group_to_multiset_ensures;

    assert(a.to_multiset().len() == a.len());
    assert(b.to_multiset().len() == b.len());
    if a.len() > 0 {
        let j = lemma_last_of_same(a, b);
        lemma_order_of_items(a.drop_last(), b.remove(j), pocket, item);
        lemma_total_without(b, j, pocket, item, b.len());
        lemma_total_without(a, a.len() - 1, pocket, item, a.len());
        assert(a.remove(a.len() - 1) =~= a.drop_last());
    }
}

/// Two accounts with the same money that hold the same Pokemon and the same stacks of items match,
/// in whatever order the party and the bag stand.
pub proof fn law_order_is_no_disagreement(claimed: SaveView, computed: SaveView)
    requires
        claimed.money() == computed.money(),
        claimed.party.to_multiset() == computed.party.to_multiset(),
        claimed.bag.to_multiset() == computed.bag.to_multiset(),
    ensures
        divergence(claimed, computed) is None,
{
    assert forall|personality: u32, ot_id: u32| #[trigger]
        same_pokemon(claimed.party, computed.party, personality, ot_id) by {
        lemma_order_of_records(claimed.party, computed.party, personality, ot_id);
    }
    assert forall|pocket: u8, item: u16| #[trigger]
        held(claimed.bag, pocket, item) == held(computed.bag, pocket, item) by {
        lemma_order_of_items(claimed.bag, computed.bag, pocket, item);
    }
    law_only_accounts_that_agree_match(claimed, computed);
}

/// A record that did not decode is never held against a party beyond its level: its experience and
/// effort were invented by the decode.
pub proof fn law_undecoded_records_accuse_nobody(m: MonView, i: int)
    requires
        !m.checksum_ok,
        m.level <= MAX_LEVEL,
    ensures
        mon_fault(m, i) is None,
{
}

} // verus!
