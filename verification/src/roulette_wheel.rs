//! Roulette-wheel selection via stochastic acceptance.
//!
//! Once per generation the policy surveys the population for its peak, the
//! largest fitness in it, and hands out a selector that remembers the peak.
//! The selector then picks parents as often as asked: it chooses a candidate
//! uniformly at random and accepts it with probability `fitness / peak`,
//! trying again on a rejection. A candidate is thereby picked with a chance
//! proportional to its fitness, and the fitness scores are never summed.
//!
//! A population is a slice of fitness scores, each the bit pattern of a
//! single-precision number, and a selection is a position in that slice.

use crate::error::SelectionError;
use crate::fitness::{
    all_fitness, clear_sign, is_fitness, is_nan, is_negative, is_valid_fitness,
    lemma_magnitude_order, lemma_magnitude_zero, magnitude, unsigned_bits,
};
use crate::odds::{
    acceptance_denominator, acceptance_numerator, acceptance_odds, is_positive_finite, is_within,
    lemma_numerator_bound, lemma_numerator_of_zero, lemma_peak_is_positive, Odds,
};
use crate::random::{choose_index, gen_ratio, index_draw, keystream, ratio_draw};
use rand_chacha::ChaCha8Rng;
use vstd::prelude::*;

verus! {

/// Every score in the sequence is a zero.
pub open spec fn all_zero(scores: Seq<u32>) -> bool {
    forall|i: int| 0 <= i < scores.len() ==> magnitude(#[trigger] scores[i]) == 0
}

/// `peak` is the largest fitness of a population worth selecting from: every
/// score is a fitness, none exceeds the peak, one of them is the peak, and
/// the peak is above zero.
pub open spec fn is_peak_of(scores: Seq<u32>, peak: u32) -> bool {
    &&& all_fitness(scores)
    &&& is_positive_finite(peak)
    &&& exists|i: int| 0 <= i < scores.len() && unsigned_bits(#[trigger] scores[i]) == peak
    &&& forall|i: int| 0 <= i < scores.len() ==> magnitude(#[trigger] scores[i]) <= magnitude(peak)
}

/// The candidate that the random source chooses from a population that is
/// not empty.
pub open spec fn chosen(scores: Seq<u32>, words: Map<nat, u32>) -> nat {
    index_draw(words, scores.len()).0
}

/// The candidate is a fittest one: a fitness as large as the peak.
pub open spec fn is_fittest(scores: Seq<u32>, peak: u32, candidate: nat) -> bool {
    &&& candidate < scores.len()
    &&& is_fitness(scores[candidate as int])
    &&& magnitude(scores[candidate as int]) == magnitude(peak)
}

/// The odds at which a candidate of the given fitness is accepted under a
/// peak, or the refusal of a score that is no fitness or exceeds the peak.
pub open spec fn weigh(fitness: u32, peak: u32) -> Result<Odds, SelectionError> {
    if is_within(fitness, peak) {
        Ok(
            (Odds {
                numerator: acceptance_numerator(fitness, peak) as u32,
                denominator: acceptance_denominator(peak) as u32,
            }),
        )
    } else {
        Err(SelectionError::InvalidFitness)
    }
}

/// Whether the random source accepts at the given odds: always at odds of
/// one, never at odds of zero, and in between as its keystream decides.
pub open spec fn toss(words: Map<nat, u32>, odds: Odds) -> bool {
    odds.numerator == odds.denominator || (odds.numerator != 0 && ratio_draw(
        words,
        odds.numerator,
        odds.denominator,
    ).0)
}

/// What becomes of a candidate once it is chosen: it is refused if its score
/// cannot be weighed, picked if the toss at its odds accepts it, and passed
/// over otherwise. The second component is the keystream left behind.
pub open spec fn settle(scores: Seq<u32>, peak: u32, candidate: nat, words: Map<nat, u32>) -> (
    Result<Option<usize>, SelectionError>,
    Map<nat, u32>,
) {
    match weigh(scores[candidate as int], peak) {
        Err(refusal) => (Err(refusal), words),
        Ok(odds) => (
            Ok(
                if toss(words, odds) {
                    Some(candidate as usize)
                } else {
                    None
                },
            ),
            ratio_draw(words, odds.numerator, odds.denominator).1,
        ),
    }
}

/// One round of stochastic acceptance: choose a candidate, then settle it.
pub open spec fn attempt(scores: Seq<u32>, peak: u32, words: Map<nat, u32>) -> (
    Result<Option<usize>, SelectionError>,
    Map<nat, u32>,
) {
    if scores.len() == 0 {
        (Err(SelectionError::EmptyPopulation), words)
    } else {
        settle(scores, peak, chosen(scores, words), index_draw(words, scores.len()).1)
    }
}

/// Rounds of stochastic acceptance until one picks a candidate or is refused,
/// or until `max_draws` rounds have passed a candidate over.
pub open spec fn selection(scores: Seq<u32>, peak: u32, words: Map<nat, u32>, max_draws: nat) -> (
    Result<Option<usize>, SelectionError>,
    Map<nat, u32>,
)
    decreases max_draws,
{
    if scores.len() == 0 {
        (Err(SelectionError::EmptyPopulation), words)
    } else if max_draws == 0 {
        (Ok(None), words)
    } else {
        match attempt(scores, peak, words).0 {
            Ok(None) => selection(
                scores,
                peak,
                attempt(scores, peak, words).1,
                (max_draws - 1) as nat,
            ),
            _ => attempt(scores, peak, words),
        }
    }
}

/// The results of `count` selections in a row, each starting on the
/// keystream that the one before left behind.
pub open spec fn selections(
    scores: Seq<u32>,
    peak: u32,
    words: Map<nat, u32>,
    max_draws: nat,
    count: nat,
) -> Seq<Result<Option<usize>, SelectionError>>
    decreases count,
{
    if count == 0 {
        Seq::empty()
    } else {
        seq![selection(scores, peak, words, max_draws).0] + selections(
            scores,
            peak,
            selection(scores, peak, words, max_draws).1,
            max_draws,
            (count - 1) as nat,
        )
    }
}

/// What holds of every result of a selection, whatever the random source
/// emits: a position returned lies in the population and holds a fitness
/// above zero that the peak bounds; failure means an empty population or a
/// population with a score that cannot be weighed under the peak.
pub open spec fn is_sound(
    scores: Seq<u32>,
    peak: u32,
    picked: Result<Option<usize>, SelectionError>,
) -> bool {
    match picked {
        Ok(Some(position)) => position < scores.len() && is_within(scores[position as int], peak)
            && magnitude(scores[position as int]) > 0,
        Ok(None) => scores.len() > 0,
        Err(SelectionError::EmptyPopulation) => scores.len() == 0,
        Err(SelectionError::InvalidFitness) => exists|i: int|
            0 <= i < scores.len() && !is_within(#[trigger] scores[i], peak),
        Err(SelectionError::DegenerateFitness) => false,
    }
}

/// The selection policy: a factory of selectors that holds no state of its
/// own.
#[derive(Clone, Copy, Debug)]
pub struct RouletteWheelSelection;

/// The selector of one generation: a snapshot of the population's peak.
pub struct RouletteWheelSelector {
    max_fitness: u32,
}

impl RouletteWheelSelection {
    /// The policy.
    pub fn new() -> (policy: Self)
        ensures
            policy == RouletteWheelSelection,
    {
        RouletteWheelSelection
    }

    /// Surveys a population and builds its selector; see
    /// `RouletteWheelSelector::new`.
    pub fn init(&self, population: &[u32]) -> (built: Result<
        RouletteWheelSelector,
        SelectionError,
    >)
        ensures
            built matches Err(SelectionError::EmptyPopulation) <==> population@.len() == 0,
            built matches Err(SelectionError::InvalidFitness) <==> population@.len() > 0
                && !all_fitness(population@),
            built matches Err(SelectionError::DegenerateFitness) <==> population@.len() > 0
                && all_fitness(population@) && all_zero(population@),
            built matches Ok(selector) ==> is_peak_of(population@, selector.peak()),
    {
        RouletteWheelSelector::new(population)
    }
}

impl RouletteWheelSelector {
    #[verifier::type_invariant]
    spec fn holds_a_peak(&self) -> bool {
        is_positive_finite(self.max_fitness)
    }

    /// The peak that the selector was built with, as a bit pattern.
    pub closed spec fn peak(&self) -> u32 {
        self.max_fitness
    }

    /// Surveys a population for its peak.
    ///
    /// Fails on an empty population, on a population that holds a score which
    /// is no fitness, and on a population of zeros, in that order; on any
    /// other population the selector holds the largest score.
    pub fn new(population: &[u32]) -> (built: Result<RouletteWheelSelector, SelectionError>)
        ensures
            built matches Err(SelectionError::EmptyPopulation) <==> population@.len() == 0,
            built matches Err(SelectionError::InvalidFitness) <==> population@.len() > 0
                && !all_fitness(population@),
            built matches Err(SelectionError::DegenerateFitness) <==> population@.len() > 0
                && all_fitness(population@) && all_zero(population@),
            built matches Ok(selector) ==> is_peak_of(population@, selector.peak()),
    {
        let len: usize = population.len();
        if len == 0 {
            return Err(SelectionError::EmptyPopulation);
        }
        let mut max_fitness: u32 = 0;
        let ghost mut holder: int = 0;
        let mut i: usize = 0;
        while i < len
            invariant
                len == population@.len(),
                0 <= i <= len,
                max_fitness < 0x7f80_0000,
                forall|j: int| 0 <= j < i ==> is_fitness(#[trigger] population@[j]),
                forall|j: int| 0 <= j < i ==> unsigned_bits(#[trigger] population@[j]) <= max_fitness,
                i == 0 ==> max_fitness == 0,
                i > 0 ==> 0 <= holder < i && unsigned_bits(population@[holder]) == max_fitness,
            decreases len - i,
        {
            let score: u32 = population[i];
            if !is_valid_fitness(score) {
                return Err(SelectionError::InvalidFitness);
            }
            let unsigned: u32 = clear_sign(score);
            if i == 0 || unsigned > max_fitness {
                max_fitness = unsigned;
                proof {
                    holder = i as int;
                }
            }
            i += 1;
        }
        proof {
            assert forall|j: int| 0 <= j < population@.len() implies (magnitude(
                #[trigger] population@[j],
            ) <= magnitude(max_fitness) && (max_fitness == 0 ==> magnitude(population@[j]) == 0)) by {
                lemma_magnitude_order(population@[j], max_fitness);
                lemma_magnitude_zero(population@[j]);
            }
            lemma_magnitude_zero(population@[holder]);
        }
        if max_fitness == 0 {
            return Err(SelectionError::DegenerateFitness);
        }
        Ok(RouletteWheelSelector { max_fitness })
    }

    /// The peak that the selector was built with.
    pub fn max_fitness(&self) -> (bits: u32)
        ensures
            bits == self.peak(),
            is_positive_finite(bits),
    {
        proof {
            use_type_invariant(self);
        }
        self.max_fitness
    }

    /// The odds at which a candidate of the given fitness is accepted.
    ///
    /// Fails with `InvalidFitness` on a score that is no fitness and on one
    /// that exceeds the peak, for which no probability is defined.
    pub fn acceptance(&self, fitness: u32) -> (weighed: Result<Odds, SelectionError>)
        ensures
            weighed == weigh(fitness, self.peak()),
            weighed matches Ok(odds) ==> 0 < odds.denominator && odds.numerator
                <= odds.denominator,
    {
        proof {
            use_type_invariant(self);
            lemma_magnitude_order(fitness, self.max_fitness);
        }
        if is_valid_fitness(fitness) && clear_sign(fitness) <= self.max_fitness {
            Ok(acceptance_odds(fitness, self.max_fitness))
        } else {
            Err(SelectionError::InvalidFitness)
        }
    }

    /// One round of stochastic acceptance: chooses a candidate uniformly at
    /// random and accepts it at its odds. Returns the position of the
    /// candidate if it was accepted and `None` if it was passed over. The
    /// position counts into the slice passed in and means nothing elsewhere.
    /// The random source moves on whether the candidate is accepted or not.
    ///
    /// Fails with `EmptyPopulation` if there is no candidate, and with
    /// `InvalidFitness` if the candidate chosen cannot be weighed. A fittest
    /// candidate, once chosen, is always accepted.
    pub fn draw(&self, population: &[u32], rng: &mut ChaCha8Rng) -> (picked: Result<
        Option<usize>,
        SelectionError,
    >)
        ensures
            picked == attempt(population@, self.peak(), keystream(*old(rng))).0,
            keystream(*final(rng)) == attempt(population@, self.peak(), keystream(*old(rng))).1,
            is_sound(population@, self.peak(), picked),
            is_peak_of(population@, self.peak()) ==> picked is Ok,
            is_fittest(population@, self.peak(), chosen(population@, keystream(*old(rng))))
                ==> picked == Ok::<Option<usize>, SelectionError>(
                Some(chosen(population@, keystream(*old(rng))) as usize),
            ),
    {
        let candidate: usize = match choose_index(rng, population.len()) {
            None => {
                return Err(SelectionError::EmptyPopulation);
            },
            Some(position) => position,
        };
        let odds: Odds = match self.acceptance(population[candidate]) {
            Err(refusal) => {
                return Err(refusal);
            },
            Ok(odds) => odds,
        };
        proof {
            use_type_invariant(self);
            lemma_numerator_bound(population@[candidate as int], self.max_fitness);
        }
        if gen_ratio(rng, odds.numerator, odds.denominator) {
            proof {
                if magnitude(population@[candidate as int]) == 0 {
                    lemma_numerator_of_zero(population@[candidate as int], self.max_fitness);
                }
            }
            Ok(Some(candidate))
        } else {
            Ok(None)
        }
    }

    /// Selects a parent: rounds of stochastic acceptance until a candidate is
    /// accepted, but no more than `max_draws` of them. Returns the position
    /// of the parent in the slice passed in, or `None` if every round passed
    /// its candidate over. How many rounds it takes is a matter of chance: on
    /// average `peak / fitness` of them for the parent that ends up chosen.
    ///
    /// Fails with `EmptyPopulation` if there is no candidate, and with
    /// `InvalidFitness` as soon as a candidate is chosen that cannot be
    /// weighed; neither happens on the population that the selector was
    /// built from.
    pub fn select(&self, population: &[u32], rng: &mut ChaCha8Rng, max_draws: usize) -> (picked:
        Result<Option<usize>, SelectionError>)
        ensures
            picked == selection(
                population@,
                self.peak(),
                keystream(*old(rng)),
                max_draws as nat,
            ).0,
            keystream(*final(rng)) == selection(
                population@,
                self.peak(),
                keystream(*old(rng)),
                max_draws as nat,
            ).1,
            is_sound(population@, self.peak(), picked),
            is_peak_of(population@, self.peak()) ==> picked is Ok,
    {
        if population.len() == 0 {
            return Err(SelectionError::EmptyPopulation);
        }
        let mut remaining: usize = max_draws;
        while remaining > 0
            invariant
                population@.len() > 0,
                selection(population@, self.peak(), keystream(*old(rng)), max_draws as nat)
                    == selection(population@, self.peak(), keystream(*rng), remaining as nat),
            decreases remaining,
        {
            let outcome: Result<Option<usize>, SelectionError> = self.draw(population, rng);
            match outcome {
                Ok(None) => {
                    remaining -= 1;
                },
                _ => {
                    return outcome;
                },
            }
        }
        Ok(None)
    }
}

/// A score that is not a number spoils its population: no selector is built
/// from it, and the failure is `InvalidFitness`.
pub proof fn lemma_not_a_number_is_invalid(scores: Seq<u32>, position: int)
    requires
        0 <= position < scores.len(),
        is_nan(scores[position]),
    ensures
        scores.len() > 0,
        !all_fitness(scores),
{
}

/// So does a score below zero.
pub proof fn lemma_negative_is_invalid(scores: Seq<u32>, position: int)
    requires
        0 <= position < scores.len(),
        is_negative(scores[position]),
    ensures
        scores.len() > 0,
        !all_fitness(scores),
{
}

/// A population has one peak: two selectors built from the same population
/// hold the same one.
pub proof fn lemma_peak_is_unique(scores: Seq<u32>, first: u32, second: u32)
    requires
        is_peak_of(scores, first),
        is_peak_of(scores, second),
    ensures
        first == second,
{
    let i = choose|i: int| 0 <= i < scores.len() && unsigned_bits(#[trigger] scores[i]) == first;
    let j = choose|j: int| 0 <= j < scores.len() && unsigned_bits(#[trigger] scores[j]) == second;
    lemma_magnitude_order(scores[i], second);
    lemma_magnitude_order(scores[j], first);
}

/// On the population that a selector was built from, every score can be
/// weighed, so no selection there fails.
pub proof fn lemma_surveyed_population_never_fails(
    scores: Seq<u32>,
    peak: u32,
    picked: Result<Option<usize>, SelectionError>,
)
    requires
        is_peak_of(scores, peak),
        is_sound(scores, peak, picked),
    ensures
        forall|i: int| 0 <= i < scores.len() ==> is_within(#[trigger] scores[i], peak),
        picked is Ok,
{
}

/// The fittest candidate is never turned away: once chosen, a candidate
/// whose fitness equals the peak is picked, whatever the random source would
/// have emitted next.
pub proof fn lemma_fittest_is_accepted(
    scores: Seq<u32>,
    peak: u32,
    candidate: nat,
    words: Map<nat, u32>,
)
    requires
        is_positive_finite(peak),
        is_fittest(scores, peak, candidate),
        scores.len() <= usize::MAX,
    ensures
        settle(scores, peak, candidate, words).0 == Ok::<Option<usize>, SelectionError>(
            Some(candidate as usize),
        ),
{
    lemma_numerator_bound(scores[candidate as int], peak);
    lemma_peak_is_positive(peak);
}

/// A candidate at zero is never picked: once chosen, it is passed over.
pub proof fn lemma_zero_is_passed_over(
    scores: Seq<u32>,
    peak: u32,
    candidate: nat,
    words: Map<nat, u32>,
)
    requires
        is_positive_finite(peak),
        candidate < scores.len(),
        is_fitness(scores[candidate as int]),
        magnitude(scores[candidate as int]) == 0,
    ensures
        settle(scores, peak, candidate, words).0 == Ok::<Option<usize>, SelectionError>(None),
{
    lemma_numerator_of_zero(scores[candidate as int], peak);
    lemma_peak_is_positive(peak);
}

/// Selection is a function of the population and of the random source's
/// state: two selectors built from the same population, each driven by a
/// source with the same keystream ahead of it, make the same selections, one
/// after the other.
pub proof fn lemma_same_source_same_selections(
    scores: Seq<u32>,
    first: RouletteWheelSelector,
    second: RouletteWheelSelector,
    words: Map<nat, u32>,
    max_draws: nat,
    count: nat,
)
    requires
        is_peak_of(scores, first.peak()),
        is_peak_of(scores, second.peak()),
    ensures
        first.peak() == second.peak(),
        selections(scores, first.peak(), words, max_draws, count) == selections(
            scores,
            second.peak(),
            words,
            max_draws,
            count,
        ),
{
    lemma_peak_is_unique(scores, first.peak(), second.peak());
}

} // verus!
