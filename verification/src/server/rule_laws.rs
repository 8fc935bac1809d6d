//! What the rules of the game promise, told by flags, levels, sums and the characters of a line.

use super::auth;
use super::chat;
use super::db;
use super::deadman;
use super::economy;
use super::instances;
use super::irc;
use super::quest_flags;
use super::quic::chunks;
use super::quic::reports;
use super::quic::reports::CapRefusal;
use super::rates;
use super::save_parse::judge;
use super::save_parse::mon::MonView;
use super::save_parse::state::SaveView;
use super::world_items;
use crate::text;
use crate::text_laws::{all_blank, is_bare, law_trimming_takes_the_blanks_around};
use vstd::prelude::*;

verus! {

// ---------------------------------------------------------------------------------------------
// Counting
// ---------------------------------------------------------------------------------------------

/// How many of these hold.
pub open spec fn count(list: Seq<bool>) -> nat {
    Set::new(|i: int| 0 <= i < list.len() && list[i]).len()
}

pub proof fn lemma_count(list: Seq<bool>)
    ensures
        Set::new(|i: int| 0 <= i < list.len() && list[i]).finite(),
        list.len() == 0 ==> count(list) == 0,
        list.len() > 0 ==> count(list) == count(list.drop_last()) + if list.last() {
            1nat
        } else {
            0nat
        },
        count(list) <= list.len(),
    decreases list.len(),
{
    let all = Set::new(|i: int| 0 <= i < list.len() && list[i]);
    if list.len() == 0 {
        assert(all =~= Set::empty());
    } else {
        let less = list.drop_last();
        lemma_count(less);
        let rest = Set::new(|i: int| 0 <= i < less.len() && less[i]);
        if list.last() {
            assert(all =~= rest.insert(list.len() - 1));
        } else {
            assert(all =~= rest);
        }
    }
}

// ---------------------------------------------------------------------------------------------
// Flags
// ---------------------------------------------------------------------------------------------

/// The bit of a flag, counted from the lowest bit of the first byte, is set.
pub open spec fn bit_set(flags: Seq<u8>, id: int) -> bool {
    id < 8 * flags.len() && flags[id / 8] & (1u8 << ((id % 8) as u8)) != 0
}

proof fn lemma_flag(flags: Seq<u8>, id: u16)
    ensures
        quest_flags::has_flag(flags, id) == bit_set(flags, id as int),
{
    let b = flags[(id / 8) as int];
    let k = (id % 8) as u8;
    assert(((b >> k) & 1 == 1) == (b & (1u8 << k) != 0)) by (bit_vector)
        requires
            k < 8,
    ;
}

/// A flag is a bit of its own: setting the bit of one flag, whatever it was, sets that flag and no
/// other.
pub proof fn law_each_flag_has_its_own_bit(flags: Seq<u8>, id: u16, other: u16)
    requires
        id < 8 * flags.len(),
    ensures
        ({
            let at = id as int / 8;
            let set = flags.update(at, flags[at] | (1u8 << ((id % 8) as u8)));
            &&& quest_flags::has_flag(set, id)
            &&& other != id ==> quest_flags::has_flag(set, other) == quest_flags::has_flag(
                flags,
                other,
            )
        }),
{
    let at = id as int / 8;
    let b = flags[at];
    let k = (id % 8) as u8;
    let j = (other % 8) as u8;
    assert(((b | (1u8 << k)) >> k) & 1 == 1) by (bit_vector)
        requires
            k < 8,
    ;
    if other != id && other / 8 == id / 8 {
        assert(j != k);
        assert(((b | (1u8 << k)) >> j) & 1 == (b >> j) & 1) by (bit_vector)
            requires
                k < 8,
                j < 8,
                j != k,
        ;
    }
}

/// Which of the eight badges, from the first to the last, a save holds.
pub open spec fn badges(flags: Seq<u8>) -> Seq<bool> {
    Seq::new(8, |k: int| bit_set(flags, 2151 + k))
}

proof fn lemma_badges(flags: Seq<u8>, n: nat)
    requires
        n <= 8,
    ensures
        quest_flags::badges_held(flags, n) == count(badges(flags).subrange(0, n as int)),
    decreases n,
{
    let part = badges(flags).subrange(0, n as int);
    lemma_count(part);
    if n > 0 {
        assert(part.drop_last() =~= badges(flags).subrange(0, n - 1));
        lemma_badges(flags, (n - 1) as nat);
        lemma_flag(flags, quest_flags::BADGE_FLAGS@[n - 1]);
        assert(quest_flags::BADGE_FLAGS@[n - 1] == 2151 + (n - 1));
    }
}

/// The badges of a save are counted each once: as many as bits are set of the eight that stand for
/// them.
pub proof fn law_every_badge_is_counted(flags: Seq<u8>)
    ensures
        quest_flags::badges_held(flags, 8) == count(badges(flags)),
{
    lemma_badges(flags, 8);
    assert(badges(flags).subrange(0, 8) =~= badges(flags));
}

/// A badge is said to be lost if and only if some badge was held and is not any more, and it is the
/// first such badge that is named.
pub proof fn law_a_lost_badge_is_named(before: Seq<u8>, after: Seq<u8>)
    ensures
        match quest_flags::first_lost(before, after, quest_flags::BADGE_FLAGS@, 0) {
            Some(id) => {
                &&& 2151 <= id <= 2158
                &&& badges(before)[id - 2151] && !badges(after)[id - 2151]
                &&& forall|k: int|
                    0 <= k < id - 2151 && #[trigger] badges(before)[k] ==> badges(after)[k]
            },
            None => forall|k: int| 0 <= k < 8 && #[trigger] badges(before)[k] ==> badges(after)[k],
        },
{
    lemma_lost(before, after, 0);
}

proof fn lemma_lost(before: Seq<u8>, after: Seq<u8>, i: int)
    requires
        0 <= i <= 8,
        forall|k: int| 0 <= k < i && #[trigger] badges(before)[k] ==> badges(after)[k],
    ensures
        match quest_flags::first_lost(before, after, quest_flags::BADGE_FLAGS@, i) {
            Some(id) => {
                &&& 2151 <= id <= 2158
                &&& badges(before)[id - 2151] && !badges(after)[id - 2151]
                &&& forall|k: int|
                    0 <= k < id - 2151 && #[trigger] badges(before)[k] ==> badges(after)[k]
            },
            None => forall|k: int| 0 <= k < 8 && #[trigger] badges(before)[k] ==> badges(after)[k],
        },
    decreases 8 - i,
{
    if i < 8 {
        let id = quest_flags::BADGE_FLAGS@[i];
        assert(id == 2151 + i);
        lemma_flag(before, id);
        lemma_flag(after, id);
        assert(badges(before)[i] == bit_set(before, 2151 + i));
        if !quest_flags::lost_flag(before, after, id) {
            lemma_lost(before, after, i + 1);
        }
    }
}

// ---------------------------------------------------------------------------------------------
// Deadman
// ---------------------------------------------------------------------------------------------

/// The caps are those of the leader who comes next: they rise from fifteen levels and two Pokemon to
/// fifty-eight and six, and no count of badges lifts them further.
pub proof fn law_caps_go_by_the_next_leader(n: u8)
    ensures
        ({
            let level = deadman::LEVEL_CAP_BY_BADGES@[deadman::badge_row(n)];
            let size = deadman::PARTY_CAP_BY_BADGES@[deadman::badge_row(n)];
            &&& n >= 8 ==> level == 58 && size == 6
            &&& n < 8 ==> size == 2 + n / 2
            &&& n < 8 ==> level == seq![15u8, 19, 24, 29, 31, 33, 42, 46][n as int]
        }),
{
}

/// Which places of a party hold a Pokemon.
pub open spec fn filled(party: Seq<MonView>) -> Seq<bool> {
    Seq::new(party.len(), |i: int| party[i].species != 0)
}

proof fn lemma_living(party: Seq<MonView>, n: nat)
    requires
        n <= party.len(),
    ensures
        reports::living(party, n) == count(filled(party).subrange(0, n as int)),
    decreases n,
{
    let part = filled(party).subrange(0, n as int);
    lemma_count(part);
    if n > 0 {
        assert(part.drop_last() =~= filled(party).subrange(0, n - 1));
        lemma_living(party, (n - 1) as nat);
    }
}

proof fn lemma_over(party: Seq<MonView>, cap: u8, i: int)
    requires
        0 <= i <= party.len(),
        forall|k: int| 0 <= k < i && (#[trigger] party[k]).species != 0 ==> party[k].level <= cap,
    ensures
        match reports::over_level(party, cap, i) {
            Some(level) => exists|k: int|
                {
                    &&& 0 <= k < party.len()
                    &&& (#[trigger] party[k]).species != 0
                    &&& party[k].level == level
                    &&& level > cap
                },
            None => forall|k: int|
                0 <= k < party.len() && (#[trigger] party[k]).species != 0 ==> party[k].level <= cap,
        },
    decreases party.len() - i,
{
    if i < party.len() && !(party[i].species != 0 && party[i].level > cap) {
        lemma_over(party, cap, i + 1);
    }
}

/// A Deadman party is refused if and only if one of its Pokemon is over the level that the badges in
/// the save allow, or it has more Pokemon than they allow. A party is never of more than six, so the
/// size that is judged is the number of places that hold a Pokemon.
pub proof fn law_parties_are_held_to_the_caps(s: SaveView)
    requires
        s.party.len() <= 6,
    ensures
        ({
            let n = count(badges(s.flags));
            let level_cap = seq![15u8, 19, 24, 29, 31, 33, 42, 46, 58][n as int];
            let size_cap = if n == 8 {
                6int
            } else {
                2 + n as int / 2
            };
            &&& n <= 8
            &&& reports::cap_refusal(s) is None <==> {
                &&& forall|i: int|
                    0 <= i < s.party.len() && (#[trigger] s.party[i]).species != 0
                        ==> s.party[i].level <= level_cap
                &&& count(filled(s.party)) <= size_cap
            }
            &&& reports::cap_refusal(s) matches Some(CapRefusal::Level { level, cap }) ==> {
                &&& cap == level_cap && level > cap
                &&& exists|i: int|
                    0 <= i < s.party.len() && (#[trigger] s.party[i]).species != 0
                        && s.party[i].level == level
            }
            &&& reports::cap_refusal(s) matches Some(CapRefusal::Size { size, cap }) ==> {
                &&& cap == size_cap && size > cap
                &&& size == count(filled(s.party))
            }
        }),
{
    law_every_badge_is_counted(s.flags);
    lemma_count(badges(s.flags));
    let n = count(badges(s.flags));
    law_caps_go_by_the_next_leader(n as u8);
    lemma_living(s.party, s.party.len());
    assert(filled(s.party).subrange(0, s.party.len() as int) =~= filled(s.party));
    lemma_count(filled(s.party));
    lemma_over(s.party, deadman::LEVEL_CAP_BY_BADGES@[deadman::badge_row(n as u8)], 0);
}

// ---------------------------------------------------------------------------------------------
// Gains
// ---------------------------------------------------------------------------------------------

/// What a save holds in the end is what it held and what it gained, unless it holds less; then it
/// gained nothing.
pub proof fn law_a_gain_is_what_was_added(before: SaveView, after: SaveView)
    ensures
        ({
            let gain = rates::money_gain(before, after);
            if after.money() < before.money() {
                gain == 0
            } else {
                before.money() + gain == after.money()
            }
        }),
{
}

/// The Pokemon in place `i` before and the first like it after, in place `j`, were both decoded, and
/// it has so much more experience than it had.
pub open spec fn gained(
    before: Seq<MonView>,
    after: Seq<MonView>,
    i: int,
    j: int,
    more: u32,
) -> bool {
    &&& 0 <= i < before.len()
    &&& 0 <= j < after.len()
    &&& after[j].personality == before[i].personality && after[j].ot_id == before[i].ot_id
    &&& forall|k: int|
        0 <= k < j ==> (#[trigger] after[k]).personality != before[i].personality || after[k].ot_id
            != before[i].ot_id
    &&& before[i].checksum_ok && after[j].checksum_ok
    &&& more > 0 && before[i].experience + more == after[j].experience
}

/// Which Pokemon gained something.
pub open spec fn gainers(before: Seq<MonView>, after: Seq<MonView>) -> Seq<bool> {
    Seq::new(
        before.len(),
        |i: int| exists|j: int, more: u32| #[trigger] gained(before, after, i, j, more),
    )
}

proof fn lemma_gain(before: Seq<MonView>, after: Seq<MonView>, i: int)
    requires
        0 <= i < before.len(),
    ensures
        match rates::mon_gain(before[i], after) {
            Some(more) => exists|j: int| #[trigger] gained(before, after, i, j, more),
            None => forall|j: int, more: u32| !(#[trigger] gained(before, after, i, j, more)),
        },
        forall|j: int, more: u32| #[trigger]
            gained(before, after, i, j, more) ==> rates::mon_gain(before[i], after) == Some(more),
{
    lemma_same(after, before[i].personality, before[i].ot_id, 0);
    let m = judge::same_mon(after, before[i].personality, before[i].ot_id, 0);
    if m is Some {
        let j = choose|j: int|
            {
                &&& 0 <= j < after.len()
                &&& #[trigger] after[j] == m->0
                &&& after[j].personality == before[i].personality && after[j].ot_id
                    == before[i].ot_id
                &&& forall|k: int|
                    0 <= k < j ==> (#[trigger] after[k]).personality != before[i].personality
                        || after[k].ot_id != before[i].ot_id
            };
        match rates::mon_gain(before[i], after) {
            Some(more) => {
                assert(gained(before, after, i, j, more));
            },
            None => {},
        }
        assert forall|l: int, more: u32| #[trigger] gained(before, after, i, l, more) implies l
            == j && rates::mon_gain(before[i], after) == Some(more) by {
            if l < j {
                assert(after[l].personality == before[i].personality);
            }
            if j < l {
                assert(after[j].personality == before[i].personality);
            }
        }
    } else {
        assert forall|l: int, more: u32| #[trigger] gained(before, after, i, l, more) implies false by {
            assert(after[l].personality == before[i].personality);
        }
    }
}

proof fn lemma_same(party: Seq<MonView>, personality: u32, ot_id: u32, from: int)
    requires
        0 <= from <= party.len(),
        forall|k: int|
            0 <= k < from ==> (#[trigger] party[k]).personality != personality || party[k].ot_id
                != ot_id,
    ensures
        match judge::same_mon(party, personality, ot_id, from) {
            Some(m) => exists|j: int|
                {
                    &&& 0 <= j < party.len()
                    &&& #[trigger] party[j] == m
                    &&& party[j].personality == personality && party[j].ot_id == ot_id
                    &&& forall|k: int|
                        0 <= k < j ==> (#[trigger] party[k]).personality != personality
                            || party[k].ot_id != ot_id
                },
            None => forall|k: int|
                0 <= k < party.len() ==> (#[trigger] party[k]).personality != personality
                    || party[k].ot_id != ot_id,
        },
    decreases party.len() - from,
{
    if from < party.len() {
        if !(party[from].personality == personality && party[from].ot_id == ot_id) {
            lemma_same(party, personality, ot_id, from + 1);
        }
    }
}

/// Every Pokemon that gained experience is among the gains, with what it gained, in the order of the
/// party, and there are no other gains: the gain of a Pokemon stands behind those of all gainers
/// before it.
pub proof fn law_every_gain_is_counted(
    before: Seq<MonView>,
    after: Seq<MonView>,
    i: int,
    j: int,
    more: u32,
)
    requires
        gained(before, after, i, j, more),
    ensures
        ({
            let gains = rates::party_gains(before, after, before.len());
            let at = count(gainers(before, after).subrange(0, i));
            &&& gains.len() == count(gainers(before, after))
            &&& at < gains.len() && gains[at as int] == more
        }),
{
    lemma_gains(before, after, before.len(), i, j, more);
    assert(gainers(before, after).subrange(0, before.len() as int) =~= gainers(before, after));
}

proof fn lemma_gains(
    before: Seq<MonView>,
    after: Seq<MonView>,
    n: nat,
    i: int,
    j: int,
    more: u32,
)
    requires
        n <= before.len(),
    ensures
        ({
            let gains = rates::party_gains(before, after, n);
            let at = count(gainers(before, after).subrange(0, i));
            &&& gains.len() == count(gainers(before, after).subrange(0, n as int))
            &&& gained(before, after, i, j, more) && i < n ==> at < gains.len() && gains[at as int]
                == more
        }),
    decreases n,
{
    let part = gainers(before, after).subrange(0, n as int);
    lemma_count(part);
    if n > 0 {
        assert(part.drop_last() =~= gainers(before, after).subrange(0, n - 1));
        lemma_gains(before, after, (n - 1) as nat, i, j, more);
        lemma_gain(before, after, n - 1);
        assert(part.last() == exists|l: int, m: u32| #[trigger] gained(before, after, n - 1, l, m));
    }
}

/// There are as many gains as Pokemon that gained experience: none where nobody did.
pub proof fn law_only_gainers_are_counted(before: Seq<MonView>, after: Seq<MonView>)
    ensures
        rates::party_gains(before, after, before.len()).len() == count(gainers(before, after)),
{
    lemma_gains(before, after, before.len(), 0, 0, 0);
    assert(gainers(before, after).subrange(0, before.len() as int) =~= gainers(before, after));
}

// ---------------------------------------------------------------------------------------------
// Money
// ---------------------------------------------------------------------------------------------

/// A transfer moves as much as it can: no larger part of what was asked for is both in the sender's
/// wallet and within the room that the receiver has below a million.
pub proof fn law_transfers_move_all_they_can(from: u32, to: u32, amount: u32, more: int)
    requires
        0 <= more <= amount,
        more <= from,
        to + more < 1_000_000,
    ensures
        more <= economy::movable_amount(from, to, amount),
{
}

/// A withdrawal moves as much as it can: no larger part of what is banked fits into the wallet.
pub proof fn law_withdrawals_move_all_they_can(carried: u32, bank: u64, more: int)
    requires
        0 <= more <= bank,
        carried + more < 1_000_000,
    ensures
        more <= economy::withdrawn(carried, bank),
        economy::withdrawn(carried, bank) > 0 ==> carried + economy::withdrawn(carried, bank)
            < 1_000_000,
{
}

/// What is paid into a wallet arrives, up to one short of a million.
pub proof fn law_credit_stops_short_of_a_million(current: u32, amount: u32)
    ensures
        current + amount < 1_000_000 ==> economy::credited_balance(current, amount) == current
            + amount,
        current + amount >= 1_000_000 ==> economy::credited_balance(current, amount) == 999_999,
{
}

// ---------------------------------------------------------------------------------------------
// Chat
// ---------------------------------------------------------------------------------------------

/// The character cannot be shown: one of the thirty-two before the space, the delete code or one of
/// the thirty-two after it.
pub open spec fn unshowable(c: char) -> bool {
    (c as u32) < 32 || 127 <= c as u32 <= 127 + 32
}

/// Every character of the text can be shown.
pub open spec fn all_showable(s: Seq<char>) -> bool {
    forall|i: int| 0 <= i < s.len() ==> !unshowable(#[trigger] s[i])
}

proof fn lemma_printable_parts(a: Seq<char>, b: Seq<char>)
    ensures
        chat::printable(a + b) == chat::printable(a) + chat::printable(b),
    decreases b.len(),
{
    if b.len() == 0 {
        assert(a + b =~= a);
        assert(chat::printable(a) + chat::printable(b) =~= chat::printable(a));
    } else {
        assert((a + b).drop_last() =~= a + b.drop_last());
        lemma_printable_parts(a, b.drop_last());
        assert(chat::printable(a + b) =~= chat::printable(a) + chat::printable(b));
    }
}

pub proof fn lemma_all_showable(s: Seq<char>)
    requires
        all_showable(s),
    ensures
        chat::printable(s) == s,
    decreases s.len(),
{
    if s.len() > 0 {
        assert(!unshowable(s[s.len() - 1]));
        assert forall|i: int| 0 <= i < s.drop_last().len() implies !unshowable(
            #[trigger] s.drop_last()[i],
        ) by {
            assert(!unshowable(s[i]));
        }
        lemma_all_showable(s.drop_last());
        assert(s.drop_last().push(s.last()) =~= s);
    }
}

/// A character that cannot be shown makes no difference, wherever in a line it stands.
pub proof fn law_control_codes_make_no_difference(a: Seq<char>, c: char, b: Seq<char>)
    requires
        unshowable(c),
    ensures
        chat::clean(a + seq![c] + b) == chat::clean(a + b),
{
    lemma_printable_parts(a + seq![c], b);
    lemma_printable_parts(a, seq![c]);
    lemma_printable_parts(a, b);
    assert(seq![c].drop_last() =~= Seq::<char>::empty());
    assert(chat::printable(Seq::<char>::empty()) =~= Seq::<char>::empty());
    assert(chat::printable(seq![c]) =~= Seq::<char>::empty());
    assert(chat::printable(a) + Seq::<char>::empty() =~= chat::printable(a));
}

/// Of a line that can be shown, what is past a hundred and ninety-nine characters is dropped, the
/// blanks around the rest too, and everything else arrives as it was.
pub proof fn law_what_can_be_shown_arrives(
    a: Seq<char>,
    s: Seq<char>,
    b: Seq<char>,
    rest: Seq<char>,
)
    requires
        all_showable(a + s + b + rest),
        all_blank(a),
        all_blank(b),
        is_bare(s),
        a.len() + s.len() + b.len() <= 199,
        rest.len() > 0 ==> a.len() + s.len() + b.len() == 199,
    ensures
        chat::clean(a + s + b + rest) == s,
{
    let line = a + s + b + rest;
    lemma_all_showable(line);
    assert(chat::first_chars(line, 199) =~= a + s + b);
    law_trimming_takes_the_blanks_around(a, s, b);
}

// ---------------------------------------------------------------------------------------------
// Times and numbers
// ---------------------------------------------------------------------------------------------

/// A drop is its owner's for the first third of the time that it lies, which is three minutes.
pub proof fn law_a_drop_is_reserved_for_a_third_of_its_time()
    ensures
        world_items::EXPIRE_S == 3 * 60,
        world_items::OWNER_WINDOW_S * 3 == world_items::EXPIRE_S,
{
}

/// A name is tried a thousand times, twenty instances may run, a connection to the other chat has
/// half a minute to register, and a save is as large as the flash.
pub proof fn law_limits()
    ensures
        db::NAME_ATTEMPTS == 1000,
        instances::DEFAULT_MAX == 20,
        irc::REGISTER_DEADLINE_S * 2 == 60,
        chunks::MAX_SAVE_BYTES == 2 * 14 * 4096 + 4 * 4096,
        auth::TOKEN_LEN == 40,
        auth::PLAYER_SPRITES@ == seq![0u8, 89u8],
{
    assert(auth::PLAYER_SPRITES@ =~= seq![0u8, 89u8]);
}

} // verus!
