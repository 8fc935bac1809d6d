//! What a combat level is made of.

use super::deadman;
use super::deadman::{AVERAGE_SHARE, AVERAGE_UNITS, SUM_UNITS, TOP_SHARE, TOP_TO_SUM};
use super::save_parse::judge_laws::sum;
use crate::single;
use vstd::arithmetic::div_mod::{lemma_fundamental_div_mod, lemma_mod_bound};
use vstd::prelude::*;

verus! {

/// The levels of a party as numbers.
pub open spec fn numbers(levels: Seq<u8>) -> Seq<int> {
    Seq::new(levels.len(), |i: int| levels[i] as int)
}

/// The level is the highest of the party.
pub open spec fn is_top(levels: Seq<u8>, top: u8) -> bool {
    &&& levels.contains(top)
    &&& forall|i: int| 0 <= i < levels.len() ==> #[trigger] levels[i] <= top
}

proof fn lemma_top(levels: Seq<u8>, top: u8, n: nat)
    requires
        n <= levels.len(),
        is_top(levels, top),
    ensures
        deadman::top_level(levels, n) <= top,
        forall|i: int| 0 <= i < n ==> #[trigger] levels[i] <= deadman::top_level(levels, n),
    decreases n,
{
    if n > 0 {
        lemma_top(levels, top, (n - 1) as nat);
    }
}

proof fn lemma_sum(levels: Seq<u8>, n: nat)
    requires
        n <= levels.len() <= 6,
    ensures
        deadman::level_sum(levels, n) == sum(numbers(levels).subrange(0, n as int)),
        deadman::level_sum(levels, n) <= 255 * n,
    decreases n,
{
    let part = numbers(levels).subrange(0, n as int);
    if n > 0 {
        let less = numbers(levels).subrange(0, n - 1);
        lemma_sum(levels, (n - 1) as nat);
        assert(part.drop_last() =~= less);
        assert(part.last() == levels[n - 1]);
        reveal_with_fuel(Seq::fold_left, 2);
        assert(sum(part) == sum(less) + levels[n - 1]);
        lemma_whole(deadman::level_sum(levels, (n - 1) as nat) + levels[n - 1] as nat);
    }
}

proof fn lemma_whole(n: nat)
    requires
        n < 0x100_0000,
    ensures
        single::nearest(n, 1) == n,
{
    assert(single::spacing(n) == 1);
    assert(1 * 1nat == 1);
    assert(n / 1 == n);
    assert(n % 1 == 0);
    assert(n * 1nat == n);
}

/// Rounding moves a number by no more than its eight-millionth part, or one.
proof fn lemma_near(n: nat)
    ensures
        0x80_0000 * single::nearest(n, 1) <= 0x80_0001 * n + 0x80_0000,
        0x80_0000 * single::nearest(n, 1) >= 0x7F_FFFF * n - 0x80_0000,
{
    assert(n / 1 == n);
    single::lemma_nearest(n, 1);
    single::lemma_spacing(n);
}

proof fn lemma_average(n: nat, d: nat)
    requires
        d >= 1,
    ensures
        0x80_0000 * single::nearest(n, d) <= 0x80_0001 * (n / d) + 0x80_0000,
        0x80_0000 * single::nearest(n, d) >= 0x7F_FFFF * (n / d) - 0x80_0000,
        d * (n / d) <= n < d * (n / d) + d,
{
    single::lemma_nearest(n, d);
    single::lemma_spacing(n / d);
    lemma_fundamental_div_mod(n as int, d as int);
    lemma_mod_bound(n as int, d as int);
}

/// The combat level of a party is within a hundredth more than a half of nine tenths of its highest
/// level, four tenths of its average level and four for each badge, taken together, wherever that is
/// within what a combat level can be.
pub proof fn law_combat_goes_by_top_average_and_badges(levels: Seq<u8>, top: u8, badges: u8)
    requires
        1 <= levels.len() <= 6,
        is_top(levels, top),
    ensures
        ({
            let n = levels.len();
            let tenths = 9 * top * n + 4 * sum(numbers(levels)) + 40 * badges * n;
            let c = deadman::combat(levels, badges);
            &&& c < 126 ==> 100 * tenths <= 1000 * n * c + 510 * n
            &&& c > 3 ==> 100 * tenths >= 1000 * n * c - 510 * n
        }),
{
    let n = levels.len();
    lemma_top(levels, top, n);
    let at = choose|i: int| 0 <= i < levels.len() && levels[i] == top;
    assert(levels[at] <= deadman::top_level(levels, n));
    lemma_sum(levels, n);
    assert(numbers(levels).subrange(0, n as int) =~= numbers(levels));
    lemma_whole(n);
    let s = deadman::level_sum(levels, n);
    let a = single::nearest(s * AVERAGE_UNITS as nat, n);
    lemma_average(s * AVERAGE_UNITS as nat, n);
    lemma_near(a * AVERAGE_SHARE as nat);
    lemma_near(top as nat * TOP_SHARE as nat);
    let share = single::nearest(a * AVERAGE_SHARE as nat, 1);
    let high = single::nearest(top as nat * TOP_SHARE as nat, 1);
    let both = high * TOP_TO_SUM as nat + share;
    lemma_near(both);
    let strength = single::nearest(both, 1);
    assert(strength == deadman::party_strength(levels));
    lemma_near(strength + badges as nat * 4 * SUM_UNITS as nat);
    let all = single::nearest(strength + badges as nat * 4 * SUM_UNITS as nat, 1);
    let whole = (2 * all + SUM_UNITS as nat) / (2 * SUM_UNITS as nat);
    assert(whole * (2 * SUM_UNITS) <= 2 * all + SUM_UNITS < (whole + 1) * (2 * SUM_UNITS));
    let q = s * AVERAGE_UNITS as nat / n;
    assert(q <= 255 * AVERAGE_UNITS) by (nonlinear_arith)
        requires
            n >= 1,
            n * q <= s * AVERAGE_UNITS,
            s <= 255 * n,
            AVERAGE_UNITS >= 0,
    ;
    lemma_shares(
        q as int,
        a as int,
        share as int,
        top as int,
        high as int,
        strength as int,
        badges as int,
        all as int,
        whole as int,
    );
    lemma_tenths(n as int, s as int, q as int, top as int, badges as int, whole as int);
    let c = deadman::combat(levels, badges);
    let tenths = 9 * top * n + 4 * s + 40 * badges * n;
    if c < 126 && whole < 3 {
        assert(1000 * n * whole <= 1000 * n * c) by (nonlinear_arith)
            requires
                whole <= c,
                n >= 1,
        ;
    }
    if c > 3 && whole > 126 {
        assert(1000 * n * whole >= 1000 * n * c) by (nonlinear_arith)
            requires
                whole >= c,
                n >= 1,
        ;
    }
}

/// The same without the size of the party: over the average `q` in its units.
proof fn lemma_shares(
    q: int,
    a: int,
    share: int,
    top: int,
    high: int,
    strength: int,
    badges: int,
    all: int,
    whole: int,
)
    requires
        0 <= q <= 255 * 0x100_0000_0000_0000_0000_0000,
        0 <= top <= 255,
        0 <= badges <= 255,
        a >= 0 && share >= 0 && high >= 0 && strength >= 0 && all >= 0,
        0x7F_FFFF * q - 0x80_0000 <= 0x80_0000 * a <= 0x80_0001 * q + 0x80_0000,
        0x7F_FFFF * (a * 13_421_773) - 0x80_0000 <= 0x80_0000 * share <= 0x80_0001 * (a
            * 13_421_773) + 0x80_0000,
        0x7F_FFFF * (top * 15_099_494) - 0x80_0000 <= 0x80_0000 * high <= 0x80_0001 * (top
            * 15_099_494) + 0x80_0000,
        0x7F_FFFF * (high * 0x200_0000_0000_0000_0000_0000 + share) - 0x80_0000 <= 0x80_0000
            * strength <= 0x80_0001 * (high * 0x200_0000_0000_0000_0000_0000 + share) + 0x80_0000,
        0x7F_FFFF * (strength + badges * 4 * 0x2_0000_0000_0000_0000_0000_0000_0000) - 0x80_0000
            <= 0x80_0000 * all <= 0x80_0001 * (strength + badges * 4
            * 0x2_0000_0000_0000_0000_0000_0000_0000) + 0x80_0000,
        whole * 0x4_0000_0000_0000_0000_0000_0000_0000 <= 2 * all
            + 0x2_0000_0000_0000_0000_0000_0000_0000 < (whole + 1)
            * 0x4_0000_0000_0000_0000_0000_0000_0000,
    ensures
        ({
            let unit = 0x100_0000_0000_0000_0000_0000int;
            let tenths = 9 * top * unit + 4 * q + 40 * badges * unit;
            &&& 100 * tenths <= 1000 * unit * whole + 509 * unit
            &&& 100 * tenths >= 1000 * unit * whole - 509 * unit
        }),
{
}

proof fn lemma_tenths(n: int, s: int, q: int, top: int, badges: int, whole: int)
    requires
        1 <= n,
        n * q <= s * 0x100_0000_0000_0000_0000_0000 < n * q + n,
        ({
            let unit = 0x100_0000_0000_0000_0000_0000int;
            let tenths = 9 * top * unit + 4 * q + 40 * badges * unit;
            &&& 100 * tenths <= 1000 * unit * whole + 509 * unit
            &&& 100 * tenths >= 1000 * unit * whole - 509 * unit
        }),
    ensures
        100 * (9 * top * n + 4 * s + 40 * badges * n) <= 1000 * n * whole + 510 * n,
        100 * (9 * top * n + 4 * s + 40 * badges * n) >= 1000 * n * whole - 510 * n,
{
    let unit = 0x100_0000_0000_0000_0000_0000int;
    let (tn, nq, bn, wn) = (top * n, n * q, badges * n, whole * n);
    let tenths = 9 * top * unit + 4 * q + 40 * badges * unit;
    assert(100 * (9 * tn * unit + 4 * nq + 40 * bn * unit) <= 1000 * unit * wn + 509 * unit * n)
        by (nonlinear_arith)
        requires
            100 * (9 * top * unit + 4 * q + 40 * badges * unit) <= 1000 * unit * whole + 509 * unit,
            1 <= n,
            tn == top * n,
            nq == n * q,
            bn == badges * n,
            wn == whole * n,
    ;
    assert(100 * (9 * tn * unit + 4 * nq + 40 * bn * unit) >= 1000 * unit * wn - 509 * unit * n)
        by (nonlinear_arith)
        requires
            100 * (9 * top * unit + 4 * q + 40 * badges * unit) >= 1000 * unit * whole - 509 * unit,
            1 <= n,
            tn == top * n,
            nq == n * q,
            bn == badges * n,
            wn == whole * n,
    ;
    assert(9 * top * n == 9 * tn) by (nonlinear_arith)
        requires
            tn == top * n,
    ;
    assert(40 * badges * n == 40 * bn) by (nonlinear_arith)
        requires
            bn == badges * n,
    ;
    assert(1000 * n * whole == 1000 * wn) by (nonlinear_arith)
        requires
            wn == whole * n,
    ;
}

} // verus!
