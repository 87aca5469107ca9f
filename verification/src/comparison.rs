//! The verdict of a side-by-side comparison of two experiments.
//!
//! Final best fitness decides; when the fitness difference is negligible the average
//! entropy breaks the tie.
use vstd::prelude::*;

verus! {

/// Which of two experiments did better.
#[derive(Debug, Clone, Copy, PartialEq, Eq, Structural)]
pub enum ComparisonWinner {
    A,
    B,
    Tie,
}

/// The sign of a difference `a - b`, with differences smaller in magnitude than the
/// comparison tolerance counted as negligible.
#[derive(Debug, Clone, Copy, PartialEq, Eq, Structural)]
pub enum Margin {
    Positive,
    Negative,
    Negligible,
}

/// The winner for a fitness margin and an entropy margin (both `a - b`).
pub open spec fn winner_of(fitness: Margin, entropy: Margin) -> ComparisonWinner {
    match fitness {
        Margin::Positive => ComparisonWinner::A,
        Margin::Negative => ComparisonWinner::B,
        Margin::Negligible => match entropy {
            Margin::Positive => ComparisonWinner::A,
            Margin::Negative => ComparisonWinner::B,
            Margin::Negligible => ComparisonWinner::Tie,
        },
    }
}

/// The margin of `b - a` given that of `a - b`.
pub open spec fn flip_margin(m: Margin) -> Margin {
    match m {
        Margin::Positive => Margin::Negative,
        Margin::Negative => Margin::Positive,
        Margin::Negligible => Margin::Negligible,
    }
}

/// The winner with the roles of the two experiments exchanged.
pub open spec fn swap_winner(w: ComparisonWinner) -> ComparisonWinner {
    match w {
        ComparisonWinner::A => ComparisonWinner::B,
        ComparisonWinner::B => ComparisonWinner::A,
        ComparisonWinner::Tie => ComparisonWinner::Tie,
    }
}

/// Decides the winner: fitness is primary, entropy is the tiebreaker.
pub fn decide_winner(fitness: Margin, entropy: Margin) -> (r: ComparisonWinner)
    ensures
        r == winner_of(fitness, entropy),
        fitness == Margin::Positive ==> r == ComparisonWinner::A,
        fitness == Margin::Negative ==> r == ComparisonWinner::B,
        fitness == Margin::Negligible ==> (r == ComparisonWinner::A <==> entropy
            == Margin::Positive) && (r == ComparisonWinner::B <==> entropy == Margin::Negative),
{
    match fitness {
        Margin::Negligible => match entropy {
            Margin::Negligible => ComparisonWinner::Tie,
            Margin::Positive => ComparisonWinner::A,
            Margin::Negative => ComparisonWinner::B,
        },
        Margin::Positive => ComparisonWinner::A,
        Margin::Negative => ComparisonWinner::B,
    }
}

/// Running time of A minus running time of B, in milliseconds (negative when A was
/// faster). Each duration is taken as an `i128` the way an `as` cast takes it.
pub fn faster_ms(duration_a: u128, duration_b: u128) -> (r: i128)
    requires
        i128::MIN <= (duration_a as i128) - (duration_b as i128) <= i128::MAX,
    ensures
        r == (duration_a as i128) - (duration_b as i128),
{
    duration_a as i128 - duration_b as i128
}

/// Comparing B against A gives the mirror verdict of comparing A against B.
pub proof fn lemma_winner_antisymmetric(fitness: Margin, entropy: Margin)
    ensures
        winner_of(flip_margin(fitness), flip_margin(entropy)) == swap_winner(
            winner_of(fitness, entropy),
        ),
{
}

/// Fitness is primary: a fitness margin that is not negligible decides the comparison
/// whatever the entropy margin, A for positive and B for negative.
pub proof fn lemma_fitness_decides(entropy: Margin)
    ensures
        winner_of(Margin::Positive, entropy) == ComparisonWinner::A,
        winner_of(Margin::Negative, entropy) == ComparisonWinner::B,
{
}

/// Entropy breaks ties: with a negligible fitness margin, the entropy margin decides just
/// as a fitness margin would, and two negligible margins tie.
pub proof fn lemma_entropy_breaks_ties(entropy: Margin)
    ensures
        winner_of(Margin::Negligible, entropy) == winner_of(entropy, Margin::Negligible),
        winner_of(Margin::Negligible, entropy) == ComparisonWinner::Tie <==> entropy
            == Margin::Negligible,
{
}

} // verus!
