//! Non-negative numbers of single precision: twenty-four significant bits, rounded to nearest with
//! ties to even.
//!
//! A number is held as a whole multiple of a unit that the caller keeps track of, so that sums and
//! products are exact and only the rounding after them is left to do.

use vstd::arithmetic::div_mod::{
    lemma_div_denominator, lemma_div_is_ordered, lemma_fundamental_div_mod, lemma_mod_bound,
};
use vstd::arithmetic::power2::{lemma2_to64, lemma_pow2_pos, lemma_pow2_unfold, pow2};
use vstd::prelude::*;

verus! {

/// The first number that needs more than twenty-four bits.
pub const LIMIT: u128 = 0x100_0000;

/// The largest number that is rounded here.
pub const MOST: u128 = 0x7FFF_FFFF_FFFF_FFFF_FFFF_FFFF_FFFF_FFFF;

/// The distance between two neighbouring singles around a number of units.
pub open spec fn spacing(n: nat) -> nat
    decreases n,
{
    if n < 0x100_0000 {
        1
    } else {
        2 * spacing(n / 2)
    }
}

/// The single nearest to the quotient of two numbers, and of two that are equally near the one
/// with the even significand. The quotient has at least twenty-four bits, or the divisor is one.
pub open spec fn nearest(n: nat, d: nat) -> nat {
    let gap = spacing(n / d);
    let k = n / (d * gap);
    let r = n % (d * gap);
    if 2 * r > d * gap || (2 * r == d * gap && k % 2 == 1) {
        (k + 1) * gap
    } else {
        k * gap
    }
}

/// The spacing is one, or the number has at least twenty-three bits more than it.
pub proof fn lemma_spacing(n: nat)
    ensures
        spacing(n) >= 1,
        spacing(n) == 1 || spacing(n) * 0x80_0000 <= n,
        spacing(n) <= n || n == 0,
    decreases n,
{
    if n >= 0x100_0000 {
        lemma_spacing(n / 2);
    }
}

/// The spacing of a number of at most `24 + j` bits divides two to the `j`.
pub proof fn lemma_spacing_divides(n: nat, j: nat) -> (c: nat)
    requires
        n < 0x100_0000 * pow2(j),
    ensures
        c >= 1,
        c * spacing(n) == pow2(j),
    decreases j,
{
    lemma_pow2_pos(j);
    if n < 0x100_0000 {
        assert(pow2(j) * 1 == pow2(j)) by (nonlinear_arith);
        pow2(j)
    } else if j == 0 {
        lemma2_to64();
        1
    } else {
        lemma_pow2_unfold(j);
        let c = lemma_spacing_divides(n / 2, (j - 1) as nat);
        assert(c * (2 * spacing(n / 2)) == 2 * (c * spacing(n / 2))) by (nonlinear_arith);
        c
    }
}

/// The rounded quotient is less than one spacing away.
pub proof fn lemma_nearest(n: nat, d: nat)
    requires
        d >= 1,
    ensures
        nearest(n, d) <= n / d + spacing(n / d),
        nearest(n, d) + spacing(n / d) > n / d,
{
    let q = n / d;
    let gap = spacing(q);
    lemma_spacing(q);
    let w = d * gap;
    assert(w >= 1) by (nonlinear_arith)
        requires
            d >= 1,
            gap >= 1,
            w == d * gap,
    ;
    let k = n / w;
    lemma_div_denominator(n as int, d as int, gap as int);
    assert(k == q / gap);
    lemma_fundamental_div_mod(q as int, gap as int);
    lemma_mod_bound(q as int, gap as int);
    assert(gap * k == k * gap) by (nonlinear_arith);
    assert((k + 1) * gap == k * gap + gap) by (nonlinear_arith);
}

/// A number has at most twenty-four bits more than its spacing.
proof fn lemma_bits(n: nat)
    ensures
        n < 0x100_0000 * spacing(n),
    decreases n,
{
    if n >= 0x100_0000 {
        lemma_bits(n / 2);
    }
}

/// The spacing of a larger number is the same or at least twice as large.
proof fn lemma_spacing_is_ordered(a: nat, b: nat)
    requires
        a <= b,
    ensures
        spacing(a) == spacing(b) || 2 * spacing(a) <= spacing(b),
    decreases b,
{
    if b >= 0x100_0000 {
        if a < 0x100_0000 {
            lemma_spacing(b / 2);
        } else {
            lemma_spacing_is_ordered(a / 2, b / 2);
        }
    }
}

/// Rounding keeps the order of quotients by one divisor.
pub proof fn lemma_nearest_is_ordered(a: nat, b: nat, d: nat)
    requires
        a <= b,
        d >= 1,
    ensures
        nearest(a, d) <= nearest(b, d),
{
    lemma_div_is_ordered(a as int, b as int, d as int);
    let (qa, qb) = (a / d, b / d);
    let (ga, gb) = (spacing(qa), spacing(qb));
    lemma_spacing(qa);
    lemma_spacing(qb);
    lemma_spacing_is_ordered(qa, qb);
    let (wa, wb) = (d * ga, d * gb);
    assert(wa >= 1 && wb >= 1) by (nonlinear_arith)
        requires
            d >= 1,
            ga >= 1,
            gb >= 1,
            wa == d * ga,
            wb == d * gb,
    ;
    let (ka, kb) = (a / wa, b / wb);
    lemma_fundamental_div_mod(a as int, wa as int);
    lemma_fundamental_div_mod(b as int, wb as int);
    assert((ka + 1) * ga == ka * ga + ga) by (nonlinear_arith);
    assert((kb + 1) * gb == kb * gb + gb) by (nonlinear_arith);
    if ga == gb {
        lemma_div_is_ordered(a as int, b as int, wa as int);
        if ka < kb {
            assert((ka + 1) * ga <= kb * gb) by (nonlinear_arith)
                requires
                    ka + 1 <= kb,
                    ga == gb,
            ;
        }
    } else {
        lemma_bits(qa);
        lemma_div_denominator(a as int, d as int, ga as int);
        lemma_div_denominator(b as int, d as int, gb as int);
        lemma_fundamental_div_mod(qa as int, ga as int);
        lemma_mod_bound(qa as int, ga as int);
        lemma_fundamental_div_mod(qb as int, gb as int);
        lemma_mod_bound(qb as int, gb as int);
        assert(ka == qa / ga);
        assert(kb == qb / gb);
        // Up to the bound below which the smaller spacing holds.
        assert(ka < 0x100_0000) by (nonlinear_arith)
            requires
                ga * ka <= qa,
                qa < 0x100_0000 * ga,
                ga >= 1,
        ;
        assert((ka + 1) * ga <= 0x100_0000 * ga) by (nonlinear_arith)
            requires
                ka + 1 <= 0x100_0000,
        ;
        // From the bound at which the larger one starts.
        assert(kb >= 0x80_0000) by (nonlinear_arith)
            requires
                qb < gb * kb + gb,
                gb * 0x80_0000 <= qb,
                gb >= 1,
        ;
        assert(0x80_0000 * gb <= kb * gb) by (nonlinear_arith)
            requires
                kb >= 0x80_0000,
        ;
    }
}

/// Rounds a quotient.
pub fn round(n: u128, d: u128) -> (r: u128)
    requires
        d >= 1,
        n < MOST,
        d < LIMIT * LIMIT * LIMIT,
    ensures
        r == nearest(n as nat, d as nat),
{
    let ghost q0 = (n / d) as nat;
    let mut q: u128 = n / d;
    let mut gap: u128 = 1;
    proof {
        lemma_spacing(q0);
        assert(n / d <= n) by (nonlinear_arith)
            requires
                d >= 1,
                n >= 0,
        ;
    }
    while q >= LIMIT
        invariant
            gap * spacing(q as nat) == spacing(q0),
            gap >= 1,
            gap * q <= q0,
            q0 < MOST,
        decreases q,
    {
        proof {
            let half = (q / 2) as nat;
            assert(spacing(q as nat) == 2 * spacing(half));
            assert((gap * 2) * spacing(half) == gap * (2 * spacing(half))) by (nonlinear_arith);
            assert((gap * 2) * half <= gap * q) by (nonlinear_arith)
                requires
                    2 * half <= q,
                    gap >= 1,
            ;
            assert(gap * 2 <= gap * q) by (nonlinear_arith)
                requires
                    q >= 2,
                    gap >= 1,
            ;
        }
        q = q / 2;
        gap = gap * 2;
    }
    proof {
        assert(gap * 1 == gap);
        assert(gap == spacing(q0));
        lemma_nearest(n as nat, d as nat);
        // The divisor times the spacing fits: the spacing is one, or the product is far below n.
        lemma_fundamental_div_mod(n as int, d as int);
        lemma_mod_bound(n as int, d as int);
        if gap > 1 {
            assert(d * gap <= n) by (nonlinear_arith)
                requires
                    gap <= q0,
                    d * q0 <= n,
                    d >= 1,
            ;
        } else {
            assert(d * gap == d);
        }
        assert(d * gap >= 1) by (nonlinear_arith)
            requires
                d >= 1,
                gap >= 1,
        ;
    }
    let w: u128 = d * gap;
    let k: u128 = n / w;
    let rest: u128 = n % w;
    let up: bool = rest > w - rest || (rest == w - rest && k % 2 == 1);
    proof {
        assert(k * gap + gap == (k + 1) * gap) by (nonlinear_arith);
        assert(k * gap <= q0) by {
            lemma_div_denominator(n as int, d as int, gap as int);
            lemma_fundamental_div_mod(q0 as int, gap as int);
            lemma_mod_bound(q0 as int, gap as int);
            assert(gap * k == k * gap) by (nonlinear_arith);
        }
        assert(q0 + gap < 2 * MOST);
    }
    if up {
        k * gap + gap
    } else {
        k * gap
    }
}

} // verus!
