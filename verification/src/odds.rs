//! The acceptance odds of stochastic acceptance.
//!
//! A candidate with fitness `f` is accepted with probability `f / peak`, where
//! `peak` is the largest fitness of the population. The library hands that
//! probability to the random source as a ratio of two 32-bit integers. The
//! denominator is the significand of the peak scaled by 256, which lies
//! between 2^31 and 2^32 for every normal peak; the numerator is the largest
//! integer whose ratio to the denominator does not exceed `f / peak`. The
//! ratio is exactly `f / peak` whenever the candidate lies within eight
//! binades of the peak, and otherwise falls short of it by less than one
//! step of the denominator.

use crate::fitness::{
    is_fitness, lemma_magnitude_order, lemma_magnitude_zero, magnitude, scale, scale_of,
    significand, significand_of,
};
use vstd::arithmetic::div_mod::*;
use vstd::arithmetic::mul::*;
use vstd::arithmetic::power2::*;
use vstd::bits::*;
use vstd::prelude::*;

verus! {

/// The factor by which the peak's significand is scaled into the denominator.
pub const DENOMINATOR_SCALE: u32 = 256;

/// A probability as a ratio: `numerator` chances in `denominator`.
#[derive(Clone, Copy, Debug, PartialEq, Eq, Structural)]
pub struct Odds {
    pub numerator: u32,
    pub denominator: u32,
}

/// A pattern that can be the peak of a population worth selecting from: a
/// finite number above zero, sign bit clear.
pub open spec fn is_positive_finite(peak: u32) -> bool {
    0 < peak < 0x7f80_0000
}

/// A fitness that a selector with the given peak can weigh: a valid score
/// that does not exceed the peak.
pub open spec fn is_within(fitness: u32, peak: u32) -> bool {
    is_fitness(fitness) && magnitude(fitness) <= magnitude(peak)
}

/// The denominator of every acceptance ratio under the given peak.
pub open spec fn acceptance_denominator(peak: u32) -> nat {
    significand(peak) * 256
}

/// The numerator of the acceptance ratio: the denominator times
/// `fitness / peak`, rounded down.
pub open spec fn acceptance_numerator(fitness: u32, peak: u32) -> nat {
    (magnitude(fitness) * acceptance_denominator(peak)) / magnitude(peak)
}

/// The number of binades by which the peak lies above the candidate.
pub open spec fn binade_gap(fitness: u32, peak: u32) -> nat {
    (scale(peak) - scale(fitness)) as nat
}

/// A peak has a magnitude above zero and a denominator that fits 32 bits.
pub proof fn lemma_peak_is_positive(peak: u32)
    requires
        is_positive_finite(peak),
    ensures
        magnitude(peak) > 0,
        0 < acceptance_denominator(peak) < 0x1_0000_0000,
        is_fitness(peak),
{
    lemma_magnitude_zero(peak);
}

/// A candidate that does not exceed the peak has no larger a scale.
pub proof fn lemma_scale_within(fitness: u32, peak: u32)
    requires
        magnitude(fitness) <= magnitude(peak),
    ensures
        scale(fitness) <= scale(peak),
{
    lemma_magnitude_order(fitness, peak);
}

/// The numerator is the candidate's significand, scaled by 256 and divided
/// by two to the power of the binade gap.
pub proof fn lemma_numerator_by_shift(fitness: u32, peak: u32)
    requires
        is_positive_finite(peak),
        magnitude(fitness) <= magnitude(peak),
    ensures
        acceptance_numerator(fitness, peak) == (significand(fitness) * 256) / pow2(
            binade_gap(fitness, peak),
        ),
{
    lemma_scale_within(fitness, peak);
    lemma_peak_is_positive(peak);
    let sf = significand(fitness) as int;
    let sp = significand(peak) as int;
    let pf = pow2(scale(fitness)) as int;
    let pk = pow2(binade_gap(fitness, peak)) as int;
    let pp = pow2(scale(peak)) as int;
    lemma_pow2_pos(scale(fitness));
    lemma_pow2_pos(binade_gap(fitness, peak));
    assert(pp == pf * pk) by {
        lemma_pow2_adds(scale(fitness), binade_gap(fitness, peak));
    }
    let common = sp * pf;
    assert(common > 0) by (nonlinear_arith)
        requires
            common == sp * pf,
            sp > 0,
            pf > 0,
    ;
    assert(magnitude(fitness) * acceptance_denominator(peak) == common * (sf * 256))
        by (nonlinear_arith)
        requires
            magnitude(fitness) == sf * pf,
            acceptance_denominator(peak) == sp * 256,
            common == sp * pf,
    ;
    assert(magnitude(peak) == common * pk) by (nonlinear_arith)
        requires
            magnitude(peak) == sp * pp,
            pp == pf * pk,
            common == sp * pf,
    ;
    lemma_div_multiples_vanish_quotient(common, sf * 256, pk);
}

/// The acceptance ratio is the floor of `fitness / peak` on the grid of the
/// denominator: it does not exceed the true quotient, and the next ratio up
/// does.
pub proof fn lemma_numerator_is_floor(fitness: u32, peak: u32)
    requires
        is_positive_finite(peak),
    ensures
        acceptance_numerator(fitness, peak) * magnitude(peak) <= magnitude(fitness)
            * acceptance_denominator(peak),
        magnitude(fitness) * acceptance_denominator(peak) < (acceptance_numerator(fitness, peak)
            + 1) * magnitude(peak),
{
    lemma_peak_is_positive(peak);
    let x = (magnitude(fitness) * acceptance_denominator(peak)) as int;
    let m = magnitude(peak) as int;
    lemma_fundamental_div_mod(x, m);
    lemma_mod_bound(x, m);
    assert((x / m) * m <= x && x < (x / m + 1) * m) by (nonlinear_arith)
        requires
            x == m * (x / m) + x % m,
            0 <= x % m < m,
    ;
}

/// A candidate that does not exceed the peak gets odds of at most one, and
/// odds of exactly one if and only if it equals the peak.
pub proof fn lemma_numerator_bound(fitness: u32, peak: u32)
    requires
        is_positive_finite(peak),
        magnitude(fitness) <= magnitude(peak),
    ensures
        acceptance_numerator(fitness, peak) <= acceptance_denominator(peak),
        acceptance_numerator(fitness, peak) == acceptance_denominator(peak) <==> magnitude(fitness)
            == magnitude(peak),
{
    lemma_peak_is_positive(peak);
    lemma_numerator_is_floor(fitness, peak);
    let n = acceptance_numerator(fitness, peak) as int;
    let d = acceptance_denominator(peak) as int;
    let f = magnitude(fitness) as int;
    let m = magnitude(peak) as int;
    if f == m {
        lemma_div_by_multiple(d, m);
        assert(f * d == d * m) by (nonlinear_arith)
            requires
                f == m,
        ;
    } else {
        assert(n < d) by (nonlinear_arith)
            requires
                n * m <= f * d,
                f < m,
                m > 0,
                d > 0,
                n >= 0,
        ;
    }
}

/// A candidate at zero is never accepted, and a candidate that is accepted
/// with some chance is above zero.
pub proof fn lemma_numerator_of_zero(fitness: u32, peak: u32)
    requires
        is_positive_finite(peak),
        magnitude(fitness) == 0,
    ensures
        acceptance_numerator(fitness, peak) == 0,
{
    lemma_peak_is_positive(peak);
    assert(magnitude(fitness) * acceptance_denominator(peak) == 0) by (nonlinear_arith)
        requires
            magnitude(fitness) == 0,
    ;
    lemma_basic_div(0, magnitude(peak) as int);
}

/// Rounding the acceptance ratio down loses nothing: the candidate's scaled
/// significand is a multiple of two to the power of the binade gap.
pub open spec fn loses_nothing(fitness: u32, peak: u32) -> bool {
    (significand(fitness) * 256) % pow2(binade_gap(fitness, peak)) == 0
}

/// Within eight binades of the peak nothing is lost, whatever the
/// significand.
pub proof fn lemma_near_peak_loses_nothing(fitness: u32, peak: u32)
    requires
        binade_gap(fitness, peak) <= 8,
    ensures
        loses_nothing(fitness, peak),
{
    let gap = binade_gap(fitness, peak);
    let sf = significand(fitness) as int;
    let pk = pow2(gap) as int;
    let rest = pow2((8 - gap) as nat) as int;
    lemma_pow2_pos(gap);
    assert(pk * rest == 256) by {
        lemma_pow2_adds(gap, (8 - gap) as nat);
        lemma2_to64();
    }
    assert(sf * 256 == pk * (sf * rest)) by (nonlinear_arith)
        requires
            pk * rest == 256,
    ;
    lemma_mod_multiples_basic(sf * rest, pk);
    assert((sf * rest) * pk == pk * (sf * rest)) by (nonlinear_arith);
}

/// The acceptance ratio is the quotient `fitness / peak` itself, with
/// nothing rounded away, exactly when rounding down loses nothing.
pub proof fn lemma_ratio_exact(fitness: u32, peak: u32)
    requires
        is_positive_finite(peak),
        magnitude(fitness) <= magnitude(peak),
    ensures
        loses_nothing(fitness, peak) <==> acceptance_numerator(fitness, peak) * magnitude(peak)
            == magnitude(fitness) * acceptance_denominator(peak),
{
    lemma_numerator_by_shift(fitness, peak);
    lemma_scale_within(fitness, peak);
    lemma_peak_is_positive(peak);
    let gap = binade_gap(fitness, peak);
    let sf = significand(fitness) as int;
    let sp = significand(peak) as int;
    let pf = pow2(scale(fitness)) as int;
    let pk = pow2(gap) as int;
    let pp = pow2(scale(peak)) as int;
    let n = acceptance_numerator(fitness, peak) as int;
    let x = sf * 256;
    lemma_pow2_pos(scale(fitness));
    lemma_pow2_pos(gap);
    assert(pp == pf * pk) by {
        lemma_pow2_adds(scale(fitness), gap);
    }
    assert(x == pk * n + x % pk) by {
        lemma_fundamental_div_mod(x, pk);
    }
    let common = sp * pf;
    assert(common > 0) by (nonlinear_arith)
        requires
            common == sp * pf,
            sp > 0,
            pf > 0,
    ;
    assert(n * (sp * pp) == common * (pk * n)) by (nonlinear_arith)
        requires
            pp == pf * pk,
            common == sp * pf,
    ;
    assert((sf * pf) * (sp * 256) == common * x) by (nonlinear_arith)
        requires
            common == sp * pf,
            x == sf * 256,
    ;
    if x % pk == 0 {
        assert(pk * n == x);
    } else {
        assert(pk * n != x);
        if common * (pk * n) == common * x {
            lemma_mul_equality_converse(common, pk * n, x);
        }
    }
}

/// Acceptance ratios stand to each other as the fitness scores do, wherever
/// rounding loses nothing: the chance of being picked is proportional to
/// fitness.
pub proof fn lemma_odds_proportional_to_fitness(first: u32, second: u32, peak: u32)
    requires
        is_positive_finite(peak),
        magnitude(first) <= magnitude(peak),
        magnitude(second) <= magnitude(peak),
        loses_nothing(first, peak),
        loses_nothing(second, peak),
    ensures
        acceptance_numerator(first, peak) * magnitude(second) == acceptance_numerator(
            second,
            peak,
        ) * magnitude(first),
{
    lemma_ratio_exact(first, peak);
    lemma_ratio_exact(second, peak);
    lemma_peak_is_positive(peak);
    let n1 = acceptance_numerator(first, peak) as int;
    let n2 = acceptance_numerator(second, peak) as int;
    let f1 = magnitude(first) as int;
    let f2 = magnitude(second) as int;
    let m = magnitude(peak) as int;
    let d = acceptance_denominator(peak) as int;
    assert((n1 * f2) * m == (n2 * f1) * m) by (nonlinear_arith)
        requires
            n1 * m == f1 * d,
            n2 * m == f2 * d,
    ;
    lemma_mul_equality_converse(m, n1 * f2, n2 * f1);
}

/// The acceptance odds of a candidate under a peak.
pub fn acceptance_odds(fitness: u32, peak: u32) -> (odds: Odds)
    requires
        is_positive_finite(peak),
        is_within(fitness, peak),
    ensures
        odds.numerator == acceptance_numerator(fitness, peak),
        odds.denominator == acceptance_denominator(peak),
        0 < odds.denominator,
        odds.numerator <= odds.denominator,
        odds.numerator == odds.denominator <==> magnitude(fitness) == magnitude(peak),
{
    proof {
        lemma_peak_is_positive(peak);
        lemma_scale_within(fitness, peak);
        lemma_numerator_by_shift(fitness, peak);
        lemma_numerator_bound(fitness, peak);
    }
    let gap: u32 = scale_of(peak) - scale_of(fitness);
    let scaled: u32 = significand_of(fitness) * DENOMINATOR_SCALE;
    let numerator: u32 = if gap < 32 {
        proof {
            lemma_u32_shr_is_div(scaled, gap);
        }
        scaled >> gap
    } else {
        proof {
            lemma2_to64();
            if gap > 32 {
                lemma_pow2_strictly_increases(32, gap as nat);
            }
            lemma_basic_div(scaled as int, pow2(gap as nat) as int);
        }
        0
    };
    Odds { numerator, denominator: significand_of(peak) * DENOMINATOR_SCALE }
}

} // verus!
