//! What rounding to single precision promises.

use crate::single;
use vstd::arithmetic::div_mod::{lemma_fundamental_div_mod, lemma_mod_bound};
use vstd::arithmetic::power2::{lemma2_to64, lemma_pow2_unfold, pow2};
use vstd::prelude::*;

verus! {

/// Singles around a number are a power of two apart, and of the numbers between two such powers there
/// are as many as twenty-four bits, the highest of them set, can tell apart.
pub proof fn law_singles_have_twenty_four_bits(n: nat) -> (j: nat)
    ensures
        single::spacing(n) == pow2(j),
        n < 0x100_0000 * pow2(j),
        j > 0 ==> 0x80_0000 * pow2(j) <= n,
    decreases n,
{
    lemma2_to64();
    if n < 0x100_0000 {
        0
    } else {
        let k = law_singles_have_twenty_four_bits(n / 2);
        lemma_pow2_unfold(k + 1);
        k + 1
    }
}

/// A quotient is rounded to a single that is no farther from it than half the way between two of
/// them, and, where it is just half the way, to the one whose last bit is not set.
pub proof fn law_rounding_is_to_the_nearest(n: nat, d: nat) -> (k: nat)
    requires
        d >= 1,
    ensures
        ({
            let gap = single::spacing(n / d);
            let r = single::nearest(n, d);
            &&& r == k * gap
            &&& -(d * gap) <= 2 * (d * r - n) <= d * gap
            &&& 2 * (d * r - n) == d * gap || 2 * (d * r - n) == -(d * gap) ==> k % 2 == 0
        }),
{
    let gap = single::spacing(n / d);
    single::lemma_spacing(n / d);
    let w = d * gap;
    assert(w >= 1) by (nonlinear_arith)
        requires
            d >= 1,
            gap >= 1,
            w == d * gap,
    ;
    let q = n / w;
    let r = n % w;
    lemma_fundamental_div_mod(n as int, w as int);
    lemma_mod_bound(n as int, w as int);
    let k: nat = if 2 * r > w || (2 * r == w && q % 2 == 1) {
        q + 1
    } else {
        q
    };
    assert(single::nearest(n, d) == k * gap);
    assert(d * (k * gap) == w * k) by (nonlinear_arith)
        requires
            w == d * gap,
    ;
    assert(w * (q + 1) == w * q + w) by (nonlinear_arith);
    k
}

} // verus!
