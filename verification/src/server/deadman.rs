//! The rules that define a Deadman character's world.
//!
//! Deadman Mode is a separate, permadeath world: a fainted Pokemon dies forever, progression is
//! capped to the next gym leader, and players can only fight others near their own badge count.
//! The client enforces them as the player leans on the caps, and the server validates every
//! report against the same functions.

use crate::single;
use vstd::arithmetic::power2::{lemma2_to64, pow2};
use vstd::prelude::*;

verus! {

/// Level cap by badges earned: the level of the next gym leader the player has to face.
pub const LEVEL_CAP_BY_BADGES: [u8; 9] = [15, 19, 24, 29, 31, 33, 42, 46, 58];

/// Party size by badges earned: it grows toward a full six as gyms fall.
pub const PARTY_CAP_BY_BADGES: [u8; 9] = [2, 2, 3, 3, 4, 4, 5, 5, 6];

/// The row of a table by badges: the last one holds for every count past it.
pub open spec fn badge_row(badges: u8) -> int {
    if badges <= 8 {
        badges as int
    } else {
        8
    }
}

fn row_of(badges: u8) -> (r: usize)
    ensures
        r == badge_row(badges),
{
    if badges <= 8 {
        badges as usize
    } else {
        8
    }
}

/// The highest level any Deadman party mon may reach with `badges` badges earned.
pub fn level_cap(badges: u8) -> (r: u8)
    ensures
        r == LEVEL_CAP_BY_BADGES@[badge_row(badges)],
{
    LEVEL_CAP_BY_BADGES[row_of(badges)]
}

/// How many Pokemon a Deadman character may carry with `badges` badges earned.
pub fn party_cap(badges: u8) -> (r: u8)
    ensures
        r == PARTY_CAP_BY_BADGES@[badge_row(badges)],
{
    PARTY_CAP_BY_BADGES[row_of(badges)]
}

// ---------------------------------------------------------------------------------------------
// Combat level
// ---------------------------------------------------------------------------------------------

/// The shares that the highest and the average level have in the combat level, nine and four
/// tenths, as the nearest singles: this many 2^-24 and 2^-25.
pub const TOP_SHARE: u128 = 15_099_494;

pub const AVERAGE_SHARE: u128 = 13_421_773;

/// The average is held in units of 2^-88: fine enough for a party as large as memory.
pub const AVERAGE_UNITS: u128 = 0x100_0000_0000_0000_0000_0000;

/// The sum of the shares is held in units of 2^-113, and the share of the highest level, in units
/// of 2^-24, is brought to it.
pub const SUM_UNITS: u128 = 0x2_0000_0000_0000_0000_0000_0000_0000;

pub const TOP_TO_SUM: u128 = 0x200_0000_0000_0000_0000_0000;

/// The highest of the first `n` levels.
pub open spec fn top_level(levels: Seq<u8>, n: nat) -> nat
    decreases n,
{
    if n == 0 {
        0
    } else if levels[n - 1] > top_level(levels, (n - 1) as nat) {
        levels[n - 1] as nat
    } else {
        top_level(levels, (n - 1) as nat)
    }
}

/// The sum of the first `n` levels, added up one by one in single precision.
pub open spec fn level_sum(levels: Seq<u8>, n: nat) -> nat
    decreases n,
{
    if n == 0 {
        0
    } else {
        single::nearest(level_sum(levels, (n - 1) as nat) + levels[n - 1] as nat, 1)
    }
}

/// What the highest and the average level amount to, each rounded, and their rounded sum.
pub open spec fn party_strength(levels: Seq<u8>) -> nat {
    let average = single::nearest(
        level_sum(levels, levels.len()) * AVERAGE_UNITS as nat,
        single::nearest(levels.len(), 1),
    );
    let top = single::nearest(top_level(levels, levels.len()) * TOP_SHARE as nat, 1);
    single::nearest(
        top * TOP_TO_SUM as nat + single::nearest(average * AVERAGE_SHARE as nat, 1),
        1,
    )
}

/// The combat level: nine tenths of the highest level, four tenths of the average and four for
/// each badge, computed in single precision, rounded half up and kept within 3 and 126. An empty
/// party is the floor.
pub open spec fn combat(levels: Seq<u8>, badges: u8) -> nat {
    if levels.len() == 0 {
        3
    } else {
        let all = single::nearest(party_strength(levels) + badges as nat * 4 * SUM_UNITS as nat, 1);
        let whole = (2 * all + SUM_UNITS as nat) / (2 * SUM_UNITS as nat);
        if whole < 3 {
            3
        } else if whole > 126 {
            126
        } else {
            whole
        }
    }
}

/// Adding a level to a sum that fits keeps it within what single precision can reach: past two to
/// the thirty-third, a level is too small to change the sum.
proof fn lemma_sum_step(sum: nat, level: nat)
    requires
        sum <= 0x2_0000_0000,
        level <= 255,
    ensures
        single::nearest(sum + level, 1) <= 0x2_0000_0000,
        single::nearest(sum + level, 1) <= sum + 1024,
{
    let n = sum + level;
    lemma2_to64();
    if n < 0x2_0000_0000 {
        assert(pow2(9) == 512);
        let c = single::lemma_spacing_divides(n, 9);
        let gap = single::spacing(n);
        single::lemma_spacing(n);
        single::lemma_nearest(n, 1);
        assert(gap <= 512) by (nonlinear_arith)
            requires
                c * gap == 512,
                c >= 1,
                gap >= 1,
        ;
        let k = n / gap;
        vstd::arithmetic::div_mod::lemma_fundamental_div_mod(n as int, gap as int);
        vstd::arithmetic::div_mod::lemma_mod_bound(n as int, gap as int);
        assert(k < 0x100_0000 * c) by (nonlinear_arith)
            requires
                gap * k <= n,
                n < 0x100_0000 * (c * gap),
                gap >= 1,
        ;
        assert((k + 1) * gap <= 0x100_0000 * (c * gap)) by (nonlinear_arith)
            requires
                k + 1 <= 0x100_0000 * c,
                gap >= 1,
        ;
        assert(k * gap <= (k + 1) * gap) by (nonlinear_arith);
        assert(1 * gap == gap);
        assert(n / 1 == n);
    } else {
        reveal_with_fuel(single::spacing, 11);
        assert(single::spacing(n) == 1024);
        assert(n / 1 == n);
        assert(1 * single::spacing(n) == 1024);
        assert(n / 1024 == 0x80_0000);
    }
}

/// A count is at most twice the single nearest to it.
proof fn lemma_count(n: nat)
    requires
        1 <= n <= u64::MAX,
    ensures
        1 <= single::nearest(n, 1) <= 2 * n,
        n <= 2 * single::nearest(n, 1),
{
    assert(n / 1 == n);
    single::lemma_spacing(n);
    single::lemma_nearest(n, 1);
    if single::spacing(n) == 1 {
        assert(1 * 1nat == 1);
        assert(n % 1 == 0);
    }
}

fn top_of(levels: &[u8]) -> (r: u8)
    ensures
        r == top_level(levels@, levels@.len()),
{
    let mut top: u8 = 0;
    let mut i: usize = 0;
    while i < levels.len()
        invariant
            i <= levels@.len(),
            top == top_level(levels@, i as nat),
        decreases levels@.len() - i,
    {
        if levels[i] > top {
            top = levels[i];
        }
        i = i + 1;
    }
    top
}

fn sum_of(levels: &[u8]) -> (r: u128)
    ensures
        r == level_sum(levels@, levels@.len()),
        r <= 0x2_0000_0000,
        r <= 1024 * levels@.len(),
{
    let mut sum: u128 = 0;
    let mut i: usize = 0;
    while i < levels.len()
        invariant
            i <= levels@.len(),
            sum == level_sum(levels@, i as nat),
            sum <= 0x2_0000_0000,
            sum <= 1024 * i,
        decreases levels@.len() - i,
    {
        proof {
            lemma_sum_step(sum as nat, levels@[i as int] as nat);
        }
        sum = single::round(sum + levels[i] as u128, 1);
        i = i + 1;
    }
    sum
}

/// What the highest and the average level amount to.
fn strength_of(levels: &[u8]) -> (r: u128)
    requires
        levels@.len() > 0,
    ensures
        r == party_strength(levels@),
        r <= 0x2000_0000_0000_0000_0000_0000_0000_0000,
{
    assert(levels.len() == levels@.len());
    let sum: u128 = sum_of(levels);
    let top: u8 = top_of(levels);
    proof {
        lemma_count(levels@.len());
    }
    let count: u128 = single::round(levels.len() as u128, 1);
    let scaled: u128 = sum * AVERAGE_UNITS;
    let average: u128 = single::round(scaled, count);
    proof {
        let q = (scaled / count) as nat;
        assert(q <= 2048 * AVERAGE_UNITS) by (nonlinear_arith)
            requires
                q == scaled / count,
                scaled == sum * AVERAGE_UNITS,
                sum <= 2048 * count,
                count >= 1,
                AVERAGE_UNITS >= 0,
        ;
        single::lemma_nearest(scaled as nat, count as nat);
        single::lemma_spacing(q);
        assert(average <= 0x1000 * AVERAGE_UNITS + 1);
    }
    let share: u128 = average * AVERAGE_SHARE;
    let top_share: u128 = top as u128 * TOP_SHARE;
    let rounded_top: u128 = single::round(top_share, 1);
    let rounded_share: u128 = single::round(share, 1);
    proof {
        single::lemma_nearest(top_share as nat, 1);
        single::lemma_spacing(top_share as nat);
        single::lemma_nearest(share as nat, 1);
        single::lemma_spacing(share as nat);
        assert(top_share / 1 == top_share);
        assert(share / 1 == share);
    }
    let both: u128 = rounded_top * TOP_TO_SUM + rounded_share;
    let strength: u128 = single::round(both, 1);
    proof {
        single::lemma_nearest(both as nat, 1);
        single::lemma_spacing(both as nat);
        assert(both / 1 == both);
    }
    strength
}

/// The combat level (3..=126) shown next to a Deadman character and used to rank the ladder.
///
/// A single number summarising how dangerous an account is, from its party's levels and its
/// badges. Not a gate on its own, but the headline figure players compare.
pub fn combat_level(party_levels: &[u8], badges: u8) -> (r: u16)
    ensures
        r == combat(party_levels@, badges),
        3 <= r <= 126,
{
    if party_levels.len() == 0 {
        return 3;
    }
    let both: u128 = strength_of(party_levels) + badges as u128 * 4 * SUM_UNITS;
    let all: u128 = single::round(both, 1);
    proof {
        single::lemma_nearest(both as nat, 1);
        single::lemma_spacing(both as nat);
        assert(both / 1 == both);
    }
    let whole: u128 = (2 * all + SUM_UNITS) / (2 * SUM_UNITS);
    if whole < 3 {
        3
    } else if whole > 126 {
        126
    } else {
        whole as u16
    }
}

// ---------------------------------------------------------------------------------------------
// Battles
// ---------------------------------------------------------------------------------------------

/// The two badge counts are within two of each other.
pub open spec fn in_badge_range(a: u8, b: u8) -> bool {
    -2 <= a - b <= 2
}

/// Whether two Deadman players may fight: within two badges of each other.
pub fn pvp_in_badge_range(a: u8, b: u8) -> (r: bool)
    ensures
        r == in_badge_range(a, b),
{
    if a >= b {
        a - b <= 2
    } else {
        b - a <= 2
    }
}

/// More badges never lower a cap; no cap is under two Pokemon or over six, nor over the level of
/// the Elite Four.
pub proof fn law_caps_rise_with_badges(fewer: u8, more: u8)
    requires
        fewer <= more,
    ensures
        LEVEL_CAP_BY_BADGES@[badge_row(fewer)] <= LEVEL_CAP_BY_BADGES@[badge_row(more)] <= 58,
        2 <= PARTY_CAP_BY_BADGES@[badge_row(fewer)] <= PARTY_CAP_BY_BADGES@[badge_row(more)] <= 6,
{
}

/// Every place of one party holds at least the level that it holds in the other.
pub open spec fn at_least(weaker: Seq<u8>, stronger: Seq<u8>) -> bool {
    &&& weaker.len() == stronger.len()
    &&& forall|i: int| 0 <= i < weaker.len() ==> #[trigger] weaker[i] <= stronger[i]
}

proof fn lemma_levels_are_ordered(weaker: Seq<u8>, stronger: Seq<u8>, n: nat)
    requires
        at_least(weaker, stronger),
        n <= weaker.len(),
    ensures
        top_level(weaker, n) <= top_level(stronger, n),
        level_sum(weaker, n) <= level_sum(stronger, n),
    decreases n,
{
    if n > 0 {
        lemma_levels_are_ordered(weaker, stronger, (n - 1) as nat);
        assert(weaker[n - 1] <= stronger[n - 1]);
        single::lemma_nearest_is_ordered(
            level_sum(weaker, (n - 1) as nat) + weaker[n - 1] as nat,
            level_sum(stronger, (n - 1) as nat) + stronger[n - 1] as nat,
            1,
        );
    }
}

/// A stronger team of the same size, further along, never ranks lower.
pub proof fn law_stronger_teams_rank_no_lower(
    weaker: Seq<u8>,
    fewer: u8,
    stronger: Seq<u8>,
    more: u8,
)
    requires
        at_least(weaker, stronger),
        weaker.len() <= u64::MAX,
        fewer <= more,
    ensures
        combat(weaker, fewer) <= combat(stronger, more),
{
    let n = weaker.len();
    if n > 0 {
        lemma_levels_are_ordered(weaker, stronger, n);
        lemma_count(n);
        let count = single::nearest(n, 1);
        let (sa, sb) = (level_sum(weaker, n), level_sum(stronger, n));
        single::lemma_nearest_is_ordered(
            sa * AVERAGE_UNITS as nat,
            sb * AVERAGE_UNITS as nat,
            count,
        );
        let (ma, mb) = (
            single::nearest(sa * AVERAGE_UNITS as nat, count),
            single::nearest(sb * AVERAGE_UNITS as nat, count),
        );
        let (ta, tb) = (top_level(weaker, n), top_level(stronger, n));
        single::lemma_nearest_is_ordered(ta * TOP_SHARE as nat, tb * TOP_SHARE as nat, 1);
        single::lemma_nearest_is_ordered(ma * AVERAGE_SHARE as nat, mb * AVERAGE_SHARE as nat, 1);
        single::lemma_nearest_is_ordered(
            single::nearest(ta * TOP_SHARE as nat, 1) * TOP_TO_SUM as nat + single::nearest(
                ma * AVERAGE_SHARE as nat,
                1,
            ),
            single::nearest(tb * TOP_SHARE as nat, 1) * TOP_TO_SUM as nat + single::nearest(
                mb * AVERAGE_SHARE as nat,
                1,
            ),
            1,
        );
        single::lemma_nearest_is_ordered(
            party_strength(weaker) + fewer as nat * 4 * SUM_UNITS as nat,
            party_strength(stronger) + more as nat * 4 * SUM_UNITS as nat,
            1,
        );
    }
}

/// Whoever may be fought may fight back.
pub proof fn law_badge_range_is_mutual(a: u8, b: u8)
    ensures
        in_badge_range(a, b) == in_badge_range(b, a),
        in_badge_range(a, a),
{
}

} // verus!
