//! A sandbox for evolutionary agent experiments: the integer core.
//!
//! Deterministic seeded randomness, tournament selection over ranked
//! fitness keys, species census and extinction tracking, and the verdict
//! of a side-by-side comparison.

pub mod rng;
pub mod comparison;
pub mod conservation;
pub mod grid;
pub mod orbit;
pub mod outcome;
pub mod population;
pub mod selection;

pub use comparison::ComparisonWinner;
pub use rng::SeededRng;
