//! Fitness scores as single-precision bit patterns.
//!
//! A fitness score enters the library as the 32 bits of an IEEE 754
//! single-precision number: one sign bit, eight exponent bits, twenty-three
//! fraction bits. Everything the selection needs from such a number (whether
//! it is a number at all, whether it is below zero, how two of them compare,
//! the quotient of two of them) is read off the bit fields with integer
//! arithmetic. The exact size of a pattern is its `magnitude`: the absolute
//! value it encodes, counted in units of 2^-149, the smallest step of the
//! format.

use vstd::arithmetic::power2::*;
use vstd::prelude::*;

verus! {

/// Two to the 31st: the weight of the sign bit, and the modulus that strips it.
pub const SIGN_WEIGHT: u32 = 0x8000_0000;

/// Two to the 23rd: the weight of the lowest exponent bit, and of the leading
/// significand bit that a normal number leaves unwritten.
pub const HIDDEN_BIT: u32 = 0x0080_0000;

/// The exponent field that marks infinities and not-a-number patterns.
pub const EXPONENT_SPECIAL: u32 = 255;

/// The pattern without its sign bit.
pub open spec fn unsigned_bits(bits: u32) -> nat {
    (bits % 0x8000_0000) as nat
}

/// The sign bit: set for every pattern below zero, and for negative zero.
pub open spec fn sign_is_set(bits: u32) -> bool {
    bits >= 0x8000_0000
}

/// The eight exponent bits, as a number from 0 to 255.
pub open spec fn exponent_field(bits: u32) -> nat {
    unsigned_bits(bits) / 0x0080_0000
}

/// The twenty-three fraction bits.
pub open spec fn fraction_field(bits: u32) -> nat {
    (bits % 0x0080_0000) as nat
}

/// The significand as an integer: the fraction bits, with the hidden leading
/// bit put back for a normal number.
pub open spec fn significand(bits: u32) -> nat {
    if exponent_field(bits) == 0 {
        fraction_field(bits)
    } else {
        0x0080_0000 + fraction_field(bits)
    }
}

/// The power of two that the significand is multiplied by, above 2^-149.
/// Subnormal numbers and the lowest normal exponent share scale 0.
pub open spec fn scale(bits: u32) -> nat {
    if exponent_field(bits) == 0 {
        0
    } else {
        (exponent_field(bits) - 1) as nat
    }
}

/// The absolute value that a finite pattern encodes, in units of 2^-149.
pub open spec fn magnitude(bits: u32) -> nat {
    significand(bits) * pow2(scale(bits))
}

/// Neither an infinity nor a not-a-number pattern.
pub open spec fn is_finite(bits: u32) -> bool {
    exponent_field(bits) < 255
}

/// A not-a-number pattern: special exponent, fraction not zero.
pub open spec fn is_nan(bits: u32) -> bool {
    exponent_field(bits) == 255 && fraction_field(bits) != 0
}

/// A pattern below zero: the sign bit set on anything but a zero.
pub open spec fn is_negative(bits: u32) -> bool {
    sign_is_set(bits) && unsigned_bits(bits) != 0
}

/// A pattern that can serve as a fitness score: a finite number that is not
/// below zero. Negative zero is zero and passes.
pub open spec fn is_fitness(bits: u32) -> bool {
    is_finite(bits) && !is_negative(bits)
}

/// Every pattern in the sequence can serve as a fitness score.
pub open spec fn all_fitness(scores: Seq<u32>) -> bool {
    forall|i: int| 0 <= i < scores.len() ==> is_fitness(#[trigger] scores[i])
}

/// The magnitude is zero exactly for the two zero patterns.
pub proof fn lemma_magnitude_zero(bits: u32)
    ensures
        magnitude(bits) == 0 <==> unsigned_bits(bits) == 0,
{
    lemma_pow2_pos(scale(bits));
    if unsigned_bits(bits) == 0 {
        assert(significand(bits) == 0);
        assert(magnitude(bits) == 0) by (nonlinear_arith)
            requires
                significand(bits) == 0,
                magnitude(bits) == significand(bits) * pow2(scale(bits)),
        ;
    } else {
        assert(significand(bits) > 0);
        assert(magnitude(bits) > 0) by (nonlinear_arith)
            requires
                significand(bits) > 0,
                pow2(scale(bits)) > 0,
                magnitude(bits) == significand(bits) * pow2(scale(bits)),
        ;
    }
}

/// The format is monotone: with the sign bit set aside, patterns compare as
/// unsigned integers exactly as the magnitudes they encode compare.
pub proof fn lemma_magnitude_order(a: u32, b: u32)
    ensures
        magnitude(a) <= magnitude(b) <==> unsigned_bits(a) <= unsigned_bits(b),
{
    if unsigned_bits(a) <= unsigned_bits(b) {
        lemma_magnitude_monotone(a, b);
    } else {
        lemma_magnitude_strictly_monotone(b, a);
    }
}

/// A pattern that is no larger as an unsigned integer encodes no larger a
/// magnitude.
pub proof fn lemma_magnitude_monotone(a: u32, b: u32)
    requires
        unsigned_bits(a) <= unsigned_bits(b),
    ensures
        magnitude(a) <= magnitude(b),
{
    if unsigned_bits(a) < unsigned_bits(b) {
        lemma_magnitude_strictly_monotone(a, b);
    } else {
        assert(fraction_field(a) == fraction_field(b));
    }
}

/// A pattern that is smaller as an unsigned integer encodes a smaller
/// magnitude.
pub proof fn lemma_magnitude_strictly_monotone(a: u32, b: u32)
    requires
        unsigned_bits(a) < unsigned_bits(b),
    ensures
        magnitude(a) < magnitude(b),
{
    let sa = significand(a);
    let sb = significand(b);
    let pa = pow2(scale(a));
    let pb = pow2(scale(b));
    lemma_pow2_pos(scale(a));
    lemma_pow2_pos(scale(b));
    assert(exponent_field(a) <= exponent_field(b));
    if exponent_field(a) == exponent_field(b) {
        assert(sa < sb);
        assert(pa == pb);
        assert(sa * pa < sb * pb) by (nonlinear_arith)
            requires
                sa < sb,
                pa == pb,
                pa > 0,
        ;
    } else if exponent_field(a) == 0 {
        assert(sa < 0x0080_0000);
        assert(sb >= 0x0080_0000);
        assert(pa == 1) by {
            lemma2_to64();
        }
        assert(sa * pa < sb * pb) by (nonlinear_arith)
            requires
                sa < 0x0080_0000,
                sb >= 0x0080_0000,
                pa == 1,
                pb >= 1,
        ;
    } else {
        // Both normal, and `b` at least one binade above `a`.
        assert(scale(a) + 1 <= scale(b));
        assert(2 * pa <= pb) by {
            lemma_pow2_unfold(scale(a) + 1);
            if scale(a) + 1 < scale(b) {
                lemma_pow2_strictly_increases(scale(a) + 1, scale(b));
            }
        }
        assert(sa < 0x0100_0000);
        assert(sb >= 0x0080_0000);
        assert(sa * pa < sb * pb) by (nonlinear_arith)
            requires
                sa < 0x0100_0000,
                sb >= 0x0080_0000,
                2 * pa <= pb,
                pa > 0,
        ;
    }
}

/// Whether a pattern can serve as a fitness score.
pub fn is_valid_fitness(bits: u32) -> (valid: bool)
    ensures
        valid == is_fitness(bits),
{
    let unsigned: u32 = bits % SIGN_WEIGHT;
    let exponent: u32 = unsigned / HIDDEN_BIT;
    exponent < EXPONENT_SPECIAL && (bits < SIGN_WEIGHT || unsigned == 0)
}

/// The pattern with its sign bit cleared.
pub fn clear_sign(bits: u32) -> (unsigned: u32)
    ensures
        unsigned == unsigned_bits(bits),
        unsigned_bits(unsigned) == unsigned,
{
    bits % SIGN_WEIGHT
}

/// The integer significand of a pattern.
pub fn significand_of(bits: u32) -> (s: u32)
    ensures
        s == significand(bits),
        s < 0x0100_0000,
{
    let exponent: u32 = (bits % SIGN_WEIGHT) / HIDDEN_BIT;
    let fraction: u32 = bits % HIDDEN_BIT;
    if exponent == 0 {
        fraction
    } else {
        HIDDEN_BIT + fraction
    }
}

/// The scale of a pattern.
pub fn scale_of(bits: u32) -> (e: u32)
    ensures
        e == scale(bits),
        e <= 254,
{
    let exponent: u32 = (bits % SIGN_WEIGHT) / HIDDEN_BIT;
    if exponent == 0 {
        0
    } else {
        exponent - 1
    }
}

} // verus!
