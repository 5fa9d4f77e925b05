//! Fitness-proportional parent selection by stochastic acceptance.
//!
//! A population is a slice of fitness scores; each score is the bit pattern
//! of a single-precision number. `roulette_wheel` holds the policy and the
//! selector, `fitness` reads the bit patterns, `odds` turns a score and a
//! peak into an acceptance ratio, and `random` is the boundary to the
//! generator that the selector draws from.

pub mod error;
pub mod fitness;
pub mod odds;
pub mod random;
pub mod roulette_wheel;

pub use error::SelectionError;
pub use odds::Odds;
pub use roulette_wheel::{RouletteWheelSelection, RouletteWheelSelector};
