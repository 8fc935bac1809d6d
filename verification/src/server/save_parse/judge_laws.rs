//! What is held against a save, told by its numbers.

use super::judge;
use super::mon::MonView;
use super::state::SaveView;
use vstd::prelude::*;

verus! {

// ---------------------------------------------------------------------------------------------
// Effort
// ---------------------------------------------------------------------------------------------

/// The numbers of a list, added up.
pub open spec fn sum(list: Seq<int>) -> int {
    list.fold_left(0int, |total: int, x: int| total + x)
}

/// All effort values of a Pokemon, added up, however many there are.
pub open spec fn all_effort(m: MonView) -> int {
    sum(Seq::new(m.evs.len(), |i: int| m.evs[i] as int))
}

proof fn lemma_effort(m: MonView)
    requires
        m.evs.len() == 6,
    ensures
        judge::effort_total(m.evs) == all_effort(m),
{
    let list = Seq::new(6, |i: int| m.evs[i] as int);
    let add = |total: int, x: int| total + x;
    let (a, b, c, d, e) = (
        list.drop_last(),
        list.drop_last().drop_last(),
        list.drop_last().drop_last().drop_last(),
        list.drop_last().drop_last().drop_last().drop_last(),
        list.drop_last().drop_last().drop_last().drop_last().drop_last(),
    );
    reveal_with_fuel(Seq::fold_left, 7);
    assert(list.fold_left(0int, add) == a.fold_left(0int, add) + m.evs[5]);
    assert(a.fold_left(0int, add) == b.fold_left(0int, add) + m.evs[4]);
    assert(b.fold_left(0int, add) == c.fold_left(0int, add) + m.evs[3]);
    assert(c.fold_left(0int, add) == d.fold_left(0int, add) + m.evs[2]);
    assert(d.fold_left(0int, add) == e.fold_left(0int, add) + m.evs[1]);
    assert(e.fold_left(0int, add) == m.evs[0]);
}

/// Exchanging two effort values leaves the total that is judged as it was, and raising one of them
/// by one raises it by one: each of the six counts once.
pub proof fn law_each_effort_value_counts_once(evs: Seq<u8>, i: int, j: int)
    requires
        evs.len() == 6,
        0 <= i < 6,
        0 <= j < 6,
    ensures
        judge::effort_total(evs.update(i, evs[j]).update(j, evs[i])) == judge::effort_total(evs),
        evs[i] < 255 ==> judge::effort_total(evs.update(i, (evs[i] + 1) as u8))
            == judge::effort_total(evs) + 1,
        judge::effort_total(seq![0u8, 0, 0, 0, 0, 0]) == 0,
{
    let swapped = evs.update(i, evs[j]).update(j, evs[i]);
    let raised = evs.update(i, (evs[i] + 1) as u8);
    assert(i == 0 || i == 1 || i == 2 || i == 3 || i == 4 || i == 5);
    assert(j == 0 || j == 1 || j == 2 || j == 3 || j == 4 || j == 5);
    assert forall|k: int| 0 <= k < 6 implies #[trigger] swapped[k] == if k == j {
        evs[i]
    } else if k == i {
        evs[j]
    } else {
        evs[k]
    } by {}
    assert forall|k: int| 0 <= k < 6 && k != i implies #[trigger] raised[k] == evs[k] by {}
}

// ---------------------------------------------------------------------------------------------
// One save by itself
// ---------------------------------------------------------------------------------------------

/// A Pokemon could not have come from playing: it is above level 100; or it was decoded and holds
/// more experience than any species can, or too little for level 100, or more than 510 points of
/// effort over all its values.
pub open spec fn cannot_be(m: MonView) -> bool {
    ||| m.level > 100
    ||| m.checksum_ok && m.experience > 1_640_000
    ||| m.checksum_ok && m.level == 100 && m.experience < 600_000
    ||| m.checksum_ok && all_effort(m) > 510
}

/// Something is said of a Pokemon if and only if it could not have come from playing.
pub proof fn law_pokemon_are_judged_by_their_numbers(m: MonView, i: int)
    requires
        m.evs.len() == 6,
    ensures
        judge::mon_fault(m, i) is Some <==> cannot_be(m),
{
    lemma_effort(m);
}

/// A decoded Pokemon that is otherwise in order is refused exactly if its six effort values add up
/// to more than 510, and what is said names its place and that sum.
pub proof fn law_effort_is_capped(m: MonView, i: int)
    requires
        m.evs.len() == 6,
        m.checksum_ok,
        m.level < 100,
        m.experience <= 1_640_000,
        0 <= i,
    ensures
        judge::mon_fault(m, i) == if all_effort(m) > 510 {
            Some(
                "party slot "@ + crate::text::dec((i + 1) as nat) + " has "@ + crate::text::dec(
                    all_effort(m) as nat,
                ) + " effort points, above the maximum of "@ + crate::text::dec(510),
            )
        } else {
            None
        },
{
    lemma_effort(m);
}

proof fn lemma_bag_fault(bag: Seq<(u8, u16, u16)>, i: int)
    requires
        0 <= i,
    ensures
        judge::bag_fault(bag, i) is Some <==> exists|k: int|
            i <= k < bag.len() && ((#[trigger] bag[k]).2 == 0 || bag[k].2 > 99),
    decreases bag.len() - i,
{
    if i < bag.len() {
        lemma_bag_fault(bag, i + 1);
        if judge::bag_fault(bag, i) is Some && judge::slot_fault(bag[i]) is Some {
            assert(bag[i].2 == 0 || bag[i].2 > 99);
        }
        if exists|k: int| i <= k < bag.len() && ((#[trigger] bag[k]).2 == 0 || bag[k].2 > 99) {
            let k = choose|k: int|
                i <= k < bag.len() && ((#[trigger] bag[k]).2 == 0 || bag[k].2 > 99);
            if k != i {
                assert(i + 1 <= k);
            }
        }
    }
}

proof fn lemma_party_fault(party: Seq<MonView>, i: int)
    requires
        0 <= i,
        forall|k: int| 0 <= k < party.len() ==> (#[trigger] party[k]).evs.len() == 6,
    ensures
        judge::party_fault(party, i) is Some <==> exists|k: int|
            i <= k < party.len() && cannot_be(#[trigger] party[k]),
    decreases party.len() - i,
{
    if i < party.len() {
        lemma_party_fault(party, i + 1);
        law_pokemon_are_judged_by_their_numbers(party[i], i);
        if exists|k: int| i <= k < party.len() && cannot_be(#[trigger] party[k]) {
            let k = choose|k: int| i <= k < party.len() && cannot_be(#[trigger] party[k]);
            if k != i {
                assert(i + 1 <= k);
            }
        }
    }
}

/// A save is refused if and only if it holds more money than 999999, more coins than 9999, a slot of
/// the bag with none or more than 99 in it, or a Pokemon that could not have come from playing.
pub proof fn law_saves_are_judged_by_their_numbers(s: SaveView)
    requires
        forall|k: int| 0 <= k < s.party.len() ==> (#[trigger] s.party[k]).evs.len() == 6,
    ensures
        judge::fault(s) is Some <==> {
            ||| s.money() > 999_999
            ||| s.coins() > 9_999
            ||| exists|k: int|
                0 <= k < s.bag.len() && ((#[trigger] s.bag[k]).2 == 0 || s.bag[k].2 > 99)
            ||| exists|k: int| 0 <= k < s.party.len() && cannot_be(#[trigger] s.party[k])
        },
{
    lemma_bag_fault(s.bag, 0);
    lemma_party_fault(s.party, 0);
}

/// A slot of the bag holds as many as one can.
pub open spec fn fits(bag: Seq<(u8, u16, u16)>, i: int) -> bool {
    1 <= bag[i].2 <= 99
}

/// What is said of a save is said of the first thing that is wrong with it: its money, its coins, the
/// first slot of its bag, the first Pokemon of its party; and it names the numbers.
pub proof fn law_the_first_fault_is_named(s: SaveView, k: int)
    ensures
        ({
            let said = judge::fault(s);
            let money = s.money() > 999_999;
            let coins = s.coins() > 9_999;
            &&& money ==> said == Some(
                "money is "@ + crate::text::dec(s.money() as nat) + ", above the "@
                    + crate::text::dec(999_999) + " the game clamps to"@,
            )
            &&& !money && coins ==> said == Some(
                "coins are "@ + crate::text::dec(s.coins() as nat) + ", above the "@
                    + crate::text::dec(9_999) + " the game clamps to"@,
            )
            &&& !money && !coins && 0 <= k < s.bag.len() && !fits(s.bag, k) && (forall|i: int|
                0 <= i < k ==> #[trigger] fits(s.bag, i)) ==> said == Some(
                "bag pocket "@ + crate::text::dec((s.bag[k].0 + 1) as nat) + " holds "@
                    + crate::text::dec(s.bag[k].2 as nat) + " of item "@ + crate::text::dec(
                    s.bag[k].1 as nat,
                ) + ", which the game cannot store"@,
            )
            &&& !money && !coins && (forall|i: int| 0 <= i < s.bag.len() ==> #[trigger] fits(s.bag, i))
                && 0 <= k < s.party.len() && judge::mon_fault(s.party[k], k) is Some && (forall|
                i: int,
            |
                0 <= i < k ==> (#[trigger] judge::mon_fault(s.party[i], i)) is None) ==> said
                == judge::mon_fault(s.party[k], k)
        }),
{
    if 0 <= k < s.bag.len() && !fits(s.bag, k) && (forall|i: int| 0 <= i < k ==> #[trigger] fits(s.bag, i)) {
        assert forall|j: int| 0 <= j < k implies judge::slot_fault(#[trigger] s.bag[j]) is None by {
            assert(fits(s.bag, j));
        }
        lemma_first_slot(s.bag, k, 0);
    }
    if forall|i: int| 0 <= i < s.bag.len() ==> #[trigger] fits(s.bag, i) {
        assert forall|i: int| 0 <= i < s.bag.len() implies 1 <= (#[trigger] s.bag[i]).2 <= 99 by {
            assert(fits(s.bag, i));
        }
        lemma_bag_fault(s.bag, 0);
    }
    if 0 <= k < s.party.len() && judge::mon_fault(s.party[k], k) is Some && (forall|i: int|
        0 <= i < k ==> (#[trigger] judge::mon_fault(s.party[i], i)) is None) {
        lemma_first_mon(s.party, k, 0);
    }
}

proof fn lemma_first_slot(bag: Seq<(u8, u16, u16)>, k: int, i: int)
    requires
        0 <= i <= k < bag.len(),
        judge::slot_fault(bag[k]) is Some,
        forall|j: int| 0 <= j < k ==> judge::slot_fault(#[trigger] bag[j]) is None,
    ensures
        judge::bag_fault(bag, i) == judge::slot_fault(bag[k]),
    decreases k - i,
{
    if i < k {
        assert(judge::slot_fault(bag[i]) is None);
        lemma_first_slot(bag, k, i + 1);
    }
}

proof fn lemma_first_mon(party: Seq<MonView>, k: int, i: int)
    requires
        0 <= i <= k < party.len(),
        judge::mon_fault(party[k], k) is Some,
        forall|j: int| 0 <= j < k ==> (#[trigger] judge::mon_fault(party[j], j)) is None,
    ensures
        judge::party_fault(party, i) == judge::mon_fault(party[k], k),
    decreases k - i,
{
    if i < k {
        assert(judge::mon_fault(party[i], i) is None);
        lemma_first_mon(party, k, i + 1);
    }
}

// ---------------------------------------------------------------------------------------------
// Two saves of one character
// ---------------------------------------------------------------------------------------------

/// The first place of a party with a Pokemon of this personality and trainer id.
pub open spec fn first_of(party: Seq<MonView>, personality: u32, ot_id: u32, j: int) -> bool {
    &&& 0 <= j < party.len()
    &&& party[j].personality == personality && party[j].ot_id == ot_id
    &&& forall|k: int|
        0 <= k < j ==> (#[trigger] party[k]).personality != personality || party[k].ot_id != ot_id
}

/// The Pokemon in place `i` before and in place `j` after are the same, both were decoded, and it
/// has less experience, or a lower level, than it had.
pub open spec fn went_backwards(
    before: Seq<MonView>,
    after: Seq<MonView>,
    i: int,
    j: int,
) -> bool {
    &&& 0 <= i < before.len()
    &&& first_of(after, before[i].personality, before[i].ot_id, j)
    &&& before[i].checksum_ok && after[j].checksum_ok
    &&& after[j].experience < before[i].experience || after[j].level < before[i].level
}

proof fn lemma_first_of(party: Seq<MonView>, personality: u32, ot_id: u32, from: int)
    requires
        0 <= from <= party.len(),
        forall|k: int|
            0 <= k < from ==> (#[trigger] party[k]).personality != personality || party[k].ot_id
                != ot_id,
    ensures
        match judge::same_mon(party, personality, ot_id, from) {
            Some(m) => exists|j: int| #[trigger]
                first_of(party, personality, ot_id, j) && party[j] == m,
            None => forall|j: int| !(#[trigger] first_of(party, personality, ot_id, j)),
        },
    decreases party.len() - from,
{
    if from < party.len() {
        if party[from].personality == personality && party[from].ot_id == ot_id {
            assert(first_of(party, personality, ot_id, from));
        } else {
            lemma_first_of(party, personality, ot_id, from + 1);
        }
    } else {
        assert forall|j: int| !(#[trigger] first_of(party, personality, ot_id, j)) by {
            if first_of(party, personality, ot_id, j) {
                assert(party[j].personality != personality || party[j].ot_id != ot_id);
            }
        }
    }
}

proof fn lemma_first_is_one(party: Seq<MonView>, personality: u32, ot_id: u32, a: int, b: int)
    requires
        first_of(party, personality, ot_id, a),
        first_of(party, personality, ot_id, b),
    ensures
        a == b,
{
    if a < b {
        assert(party[a].personality != personality || party[a].ot_id != ot_id);
    }
    if b < a {
        assert(party[b].personality != personality || party[b].ot_id != ot_id);
    }
}

proof fn lemma_loss(before: Seq<MonView>, after: Seq<MonView>, i: int)
    requires
        0 <= i < before.len(),
    ensures
        judge::mon_loss(before[i], after) is Some <==> exists|j: int| #[trigger]
            went_backwards(before, after, i, j),
{
    let m = before[i];
    lemma_first_of(after, m.personality, m.ot_id, 0);
    match judge::same_mon(after, m.personality, m.ot_id, 0) {
        Some(new) => {
            let j = choose|j: int| #[trigger]
                first_of(after, m.personality, m.ot_id, j) && after[j] == new;
            if judge::mon_loss(m, after) is Some {
                assert(went_backwards(before, after, i, j));
            }
            if exists|k: int| #[trigger] went_backwards(before, after, i, k) {
                let k = choose|k: int| #[trigger] went_backwards(before, after, i, k);
                lemma_first_is_one(after, m.personality, m.ot_id, j, k);
            }
        },
        None => {
            assert forall|j: int| !(#[trigger] went_backwards(before, after, i, j)) by {
                assert(!first_of(after, m.personality, m.ot_id, j));
            }
        },
    }
}

/// Some Pokemon, from place `from` on, went backwards.
pub open spec fn some_went_backwards(
    before: Seq<MonView>,
    after: Seq<MonView>,
    from: int,
) -> bool {
    exists|i: int, j: int| from <= i && #[trigger] went_backwards(before, after, i, j)
}

proof fn lemma_party_loss(before: Seq<MonView>, after: Seq<MonView>, i: int)
    requires
        0 <= i,
    ensures
        judge::party_loss(before, after, i) is Some <==> some_went_backwards(before, after, i),
    decreases before.len() - i,
{
    if i < before.len() {
        lemma_party_loss(before, after, i + 1);
        lemma_loss(before, after, i);
        if judge::mon_loss(before[i], after) is Some {
            let j = choose|j: int| #[trigger] went_backwards(before, after, i, j);
            assert(went_backwards(before, after, i, j));
        } else if some_went_backwards(before, after, i) {
            let (a, b) = choose|a: int, b: int|
                i <= a && #[trigger] went_backwards(before, after, a, b);
            assert(a != i);
            assert(went_backwards(before, after, a, b));
        }
    }
}

/// Two saves of a character are held against each other if and only if a Pokemon that both hold,
/// found by personality and trainer id and decoded on both sides, has less experience or a lower
/// level than it had.
pub proof fn law_only_going_backwards_is_a_regression(before: Seq<MonView>, after: Seq<MonView>)
    ensures
        judge::party_loss(before, after, 0) is Some <==> some_went_backwards(before, after, 0),
{
    lemma_party_loss(before, after, 0);
}

// ---------------------------------------------------------------------------------------------
// What the client says against what the server's own run produced
// ---------------------------------------------------------------------------------------------

/// The places of a party with a record of this Pokemon, among the first `n`.
pub open spec fn places(party: Seq<MonView>, personality: u32, ot_id: u32, n: int) -> Set<int> {
    Set::new(
        |i: int|
            0 <= i < n && party[i].personality == personality && party[i].ot_id == ot_id,
    )
}

/// Those of them whose record gives this level and this experience.
pub open spec fn places_with(
    party: Seq<MonView>,
    personality: u32,
    ot_id: u32,
    level: u8,
    experience: u32,
    n: int,
) -> Set<int> {
    Set::new(
        |i: int|
            0 <= i < n && party[i].personality == personality && party[i].ot_id == ot_id
                && party[i].level == level && party[i].experience == experience,
    )
}

proof fn lemma_places(
    party: Seq<MonView>,
    personality: u32,
    ot_id: u32,
    level: u8,
    experience: u32,
    n: nat,
)
    requires
        n <= party.len(),
    ensures
        places(party, personality, ot_id, n as int).finite(),
        places_with(party, personality, ot_id, level, experience, n as int).finite(),
        judge::records(party, personality, ot_id, n).len() == places(
            party,
            personality,
            ot_id,
            n as int,
        ).len(),
        judge::records(party, personality, ot_id, n).count((level, experience)) == places_with(
            party,
            personality,
            ot_id,
            level,
            experience,
            n as int,
        ).len(),
    decreases n,
{
    let now = places(party, personality, ot_id, n as int);
    let with = places_with(party, personality, ot_id, level, experience, n as int);
    if n == 0 {
        assert(now =~= Set::empty());
        assert(with =~= Set::empty());
    } else {
        lemma_places(party, personality, ot_id, level, experience, (n - 1) as nat);
        let was = places(party, personality, ot_id, n - 1);
        let had = places_with(party, personality, ot_id, level, experience, n - 1);
        let m = party[n - 1];
        if m.personality == personality && m.ot_id == ot_id {
            assert(now =~= was.insert(n - 1));
            if m.level == level && m.experience == experience {
                assert(with =~= had.insert(n - 1));
            } else {
                assert(with =~= had);
            }
        } else {
            assert(now =~= was);
            assert(with =~= had);
        }
    }
}

/// A record of this Pokemon in the party was not decoded.
pub open spec fn damaged(party: Seq<MonView>, personality: u32, ot_id: u32) -> bool {
    exists|i: int|
        0 <= i < party.len() && (#[trigger] party[i]).personality == personality && party[i].ot_id
            == ot_id && !party[i].checksum_ok
}

/// What each of the first `n` slots of a bag holds of an item in a pocket.
pub open spec fn shares(bag: Seq<(u8, u16, u16)>, pocket: u8, item: u16, n: nat) -> Seq<int> {
    Seq::new(
        n,
        |i: int|
            if bag[i].0 == pocket && bag[i].1 == item {
                bag[i].2 as int
            } else {
                0
            },
    )
}

/// How many of an item a bag holds in a pocket, all its slots added up.
pub open spec fn all_of(bag: Seq<(u8, u16, u16)>, pocket: u8, item: u16, n: nat) -> int {
    sum(shares(bag, pocket, item, n))
}

proof fn lemma_sum(list: Seq<int>)
    ensures
        list.len() == 0 ==> sum(list) == 0,
        list.len() > 0 ==> sum(list) == sum(list.drop_last()) + list.last(),
{
}

proof fn lemma_all_of(bag: Seq<(u8, u16, u16)>, pocket: u8, item: u16, n: nat)
    requires
        n <= bag.len(),
    ensures
        judge::total_of(bag, pocket, item, n) as int == all_of(bag, pocket, item, n),
    decreases n,
{
    lemma_sum(shares(bag, pocket, item, n));
    if n > 0 {
        lemma_all_of(bag, pocket, item, (n - 1) as nat);
        assert(shares(bag, pocket, item, n).drop_last() =~= shares(
            bag,
            pocket,
            item,
            (n - 1) as nat,
        ));
    }
}

/// Two accounts that match have the same money; of every Pokemon as many records, and, where all of
/// those were decoded, as many with each level and experience; and in each pocket as many of each
/// item.
pub proof fn law_matching_accounts_hold_the_same(
    claimed: SaveView,
    computed: SaveView,
    personality: u32,
    ot_id: u32,
    level: u8,
    experience: u32,
    pocket: u8,
    item: u16,
)
    requires
        judge::divergence(claimed, computed) is None,
    ensures
        ({
            let (a, b) = (claimed.party, computed.party);
            let (p, o) = (personality, ot_id);
            &&& claimed.money() == computed.money()
            &&& places(a, p, o, a.len() as int).len() == places(b, p, o, b.len() as int).len()
            &&& !damaged(a, p, o) && !damaged(b, p, o) ==> places_with(
                a,
                p,
                o,
                level,
                experience,
                a.len() as int,
            ).len() == places_with(b, p, o, level, experience, b.len() as int).len()
            &&& all_of(claimed.bag, pocket, item, claimed.bag.len()) == all_of(
                computed.bag,
                pocket,
                item,
                computed.bag.len(),
            )
        }),
{
    judge::law_only_accounts_that_agree_match(claimed, computed);
    let (a, b) = (claimed.party, computed.party);
    assert(judge::same_pokemon(a, b, personality, ot_id));
    lemma_places(a, personality, ot_id, level, experience, a.len());
    lemma_places(b, personality, ot_id, level, experience, b.len());
    lemma_all_of(claimed.bag, pocket, item, claimed.bag.len());
    lemma_all_of(computed.bag, pocket, item, computed.bag.len());
    assert(judge::held(claimed.bag, pocket, item) == judge::held(computed.bag, pocket, item));
    if !damaged(a, personality, ot_id) && !damaged(b, personality, ot_id) {
        assert(judge::legible(a, personality, ot_id, 0));
        assert(judge::legible(b, personality, ot_id, 0));
    }
}

/// Two accounts for which all of this holds match: nothing else is ever held against a client.
pub proof fn law_nothing_else_is_a_disagreement(claimed: SaveView, computed: SaveView)
    requires
        claimed.money() == computed.money(),
        forall|p: u32, o: u32|
            #![trigger places(claimed.party, p, o, claimed.party.len() as int)]
            places(claimed.party, p, o, claimed.party.len() as int).len() == places(
                computed.party,
                p,
                o,
                computed.party.len() as int,
            ).len(),
        forall|p: u32, o: u32, level: u8, experience: u32|
            #![trigger places_with(claimed.party, p, o, level, experience, claimed.party.len() as int)]
            !damaged(claimed.party, p, o) && !damaged(computed.party, p, o) ==> places_with(
                claimed.party,
                p,
                o,
                level,
                experience,
                claimed.party.len() as int,
            ).len() == places_with(
                computed.party,
                p,
                o,
                level,
                experience,
                computed.party.len() as int,
            ).len(),
        forall|pocket: u8, item: u16|
            #![trigger all_of(claimed.bag, pocket, item, claimed.bag.len())]
            all_of(claimed.bag, pocket, item, claimed.bag.len()) == all_of(
                computed.bag,
                pocket,
                item,
                computed.bag.len(),
            ),
    ensures
        judge::divergence(claimed, computed) is None,
{
    let (a, b) = (claimed.party, computed.party);
    assert forall|p: u32, o: u32| #[trigger] judge::same_pokemon(a, b, p, o) by {
        lemma_places(a, p, o, 0, 0, a.len());
        lemma_places(b, p, o, 0, 0, b.len());
        assert(places(a, p, o, a.len() as int).len() == places(b, p, o, b.len() as int).len());
        if judge::legible(a, p, o, 0) && judge::legible(b, p, o, 0) {
            assert(!damaged(a, p, o));
            assert(!damaged(b, p, o));
            let (x, y) = (judge::account(a, p, o), judge::account(b, p, o));
            assert forall|record: (u8, u32)| x.count(record) == y.count(record) by {
                lemma_places(a, p, o, record.0, record.1, a.len());
                lemma_places(b, p, o, record.0, record.1, b.len());
                assert(places_with(a, p, o, record.0, record.1, a.len() as int).len()
                    == places_with(b, p, o, record.0, record.1, b.len() as int).len());
                assert((record.0, record.1) == record);
            }
            assert(x =~= y);
        }
    }
    assert forall|pocket: u8, item: u16| #[trigger]
        judge::held(claimed.bag, pocket, item) == judge::held(computed.bag, pocket, item) by {
        lemma_all_of(claimed.bag, pocket, item, claimed.bag.len());
        lemma_all_of(computed.bag, pocket, item, computed.bag.len());
        assert(all_of(claimed.bag, pocket, item, claimed.bag.len()) == all_of(
            computed.bag,
            pocket,
            item,
            computed.bag.len(),
        ));
    }
    judge::law_only_accounts_that_agree_match(claimed, computed);
}

} // verus!
