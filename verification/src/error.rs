//! Why a population cannot be selected from.

use vstd::prelude::*;

verus! {

/// The three ways in which a population is unfit for selection. They exclude
/// each other: a population is empty, or holds a score that is no fitness, or
/// holds nothing but zeros, or can be selected from.
#[derive(Clone, Copy, Debug, PartialEq, Eq, Structural)]
pub enum SelectionError {
    /// There is no candidate to select from.
    EmptyPopulation,
    /// A score is not a number, is infinite, is below zero, or exceeds the
    /// peak that the selector was built with.
    InvalidFitness,
    /// Every score is zero, so no acceptance probability is defined.
    DegenerateFitness,
}

} // verus!
