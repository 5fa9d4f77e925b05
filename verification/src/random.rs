//! The random source: a ChaCha generator with eight rounds, from `rand_chacha`,
//! driven through the sampling methods of `rand`.
//!
//! Nothing in this file is proved. The generator is a stream cipher: the words
//! it will emit are fixed by its seed, stream and position, and every sampling
//! method reads some of those words and leaves the generator further along.
//! The contracts below say that much and, for each method, what its
//! documentation guarantees of the value returned.

use rand::seq::IteratorRandom;
use rand::Rng;
use rand_chacha::ChaCha8Rng;
use vstd::prelude::*;

verus! {

/// `rand_chacha::ChaCha8Rng`, carried through verified code as an opaque value.
#[verifier::external_type_specification]
#[verifier::external_body]
pub struct ExChaCha8Rng(ChaCha8Rng);

/// The words that a generator has yet to emit, the next one at position 0.
pub uninterp spec fn keystream(rng: ChaCha8Rng) -> Map<nat, u32>;

/// What `IteratorRandom::choose` makes of a keystream when asked for one of
/// `len` items, `len` above zero: the position it picks, and the keystream it
/// leaves behind.
pub uninterp spec fn index_draw(words: Map<nat, u32>, len: nat) -> (nat, Map<nat, u32>);

/// What `Rng::gen_ratio` makes of a keystream: the boolean it returns, and the
/// keystream it leaves behind.
pub uninterp spec fn ratio_draw(words: Map<nat, u32>, numerator: u32, denominator: u32) -> (
    bool,
    Map<nat, u32>,
);

/// Calls `rand::seq::IteratorRandom::choose` on the positions `0..len`.
///
/// Trusted: for an empty range the method returns `None` and leaves the
/// generator as it was; otherwise it returns a position below `len`, and
/// that position and the generator's new keystream are a function of the
/// keystream before and of `len`.
#[verifier::external_body]
pub(crate) fn choose_index(rng: &mut ChaCha8Rng, len: usize) -> (chosen: Option<usize>)
    ensures
        len == 0 ==> chosen.is_none() && keystream(*final(rng)) == keystream(*old(rng)),
        len > 0 ==> chosen.is_some() && chosen.unwrap() < len,
        len > 0 ==> chosen.unwrap() == index_draw(keystream(*old(rng)), len as nat).0,
        len > 0 ==> keystream(*final(rng)) == index_draw(keystream(*old(rng)), len as nat).1,
{
    (0..len).choose(rng)
}

/// Calls `rand::Rng::gen_ratio`.
///
/// Trusted: the method is certain to return `true` when numerator and
/// denominator are equal and `false` when the numerator is zero; the boolean
/// and the generator's new keystream are a function of the keystream before
/// and of the ratio. The method panics on a zero denominator and on a ratio
/// above one, which the precondition rules out.
#[verifier::external_body]
pub(crate) fn gen_ratio(rng: &mut ChaCha8Rng, numerator: u32, denominator: u32) -> (hit: bool)
    requires
        0 < denominator,
        numerator <= denominator,
    ensures
        hit == ratio_draw(keystream(*old(rng)), numerator, denominator).0,
        numerator == denominator ==> hit,
        numerator == 0 ==> !hit,
        keystream(*final(rng)) == ratio_draw(keystream(*old(rng)), numerator, denominator).1,
{
    rng.gen_ratio(numerator, denominator)
}

} // verus!
