//! Species of a population: drawing an agent's species and taking the census.
//!
//! The census conserves the population: its counts always sum to the number of agents,
//! so agents are only ever reassigned between species, never created or lost.
use vstd::prelude::*;

use crate::rng::{pick_index, SeededRng};

verus! {

/// How many entries of `s` equal `v`.
pub open spec fn occurrences(s: Seq<u8>, v: u8) -> nat
    decreases s.len(),
{
    if s.len() == 0 {
        0
    } else {
        occurrences(s.drop_last(), v) + if s.last() == v {
            1nat
        } else {
            0nat
        }
    }
}

/// The sum of a sequence of counts.
pub open spec fn total(s: Seq<usize>) -> int
    decreases s.len(),
{
    if s.len() == 0 {
        0
    } else {
        total(s.drop_last()) + s.last()
    }
}

/// Every species tag lies below `num_species`.
pub open spec fn species_in_range(s: Seq<u8>, num_species: u8) -> bool {
    forall|j: int| 0 <= j < s.len() ==> #[trigger] s[j] < num_species
}

proof fn lemma_total_update(s: Seq<usize>, k: int, x: usize)
    requires
        0 <= k < s.len(),
    ensures
        total(s.update(k, x)) == total(s) - s[k] + x,
    decreases s.len(),
{
    let u = s.update(k, x);
    if k == s.len() - 1 {
        assert(u.drop_last() =~= s.drop_last());
    } else {
        lemma_total_update(s.drop_last(), k, x);
        assert(u.drop_last() =~= s.drop_last().update(k, x));
    }
}

proof fn lemma_total_push_zero(s: Seq<usize>)
    ensures
        total(s.push(0)) == total(s),
{
    assert(s.push(0).drop_last() =~= s);
}

/// The count of a species is its multiplicity in the population taken as a multiset.
pub proof fn lemma_occurrences_is_multiplicity(s: Seq<u8>, v: u8)
    ensures
        occurrences(s, v) == s.to_multiset().count(v),
    decreases s.len(),
{
    if s.len() > 0 {
        let init = s.drop_last();
        lemma_occurrences_is_multiplicity(init, v);
        assert(init.push(s.last()) =~= s);
        vstd::seq_lib::to_multiset_build(init, s.last());
    } else {
        s.to_multiset_ensures();
        assert(!s.contains(v));
    }
}

/// Draws the species of a new agent uniformly among `num_species` species.
pub fn draw_species(rng: &mut SeededRng, num_species: u8) -> (r: u8)
    requires
        num_species >= 1,
    ensures
        (r as nat, final(rng)@) == pick_index(old(rng)@, num_species as nat),
        r < num_species,
{
    rng.next_int(0, (num_species - 1) as i64) as u8
}

/// Counts the agents of each species: entry `v` of the result is the number of agents
/// whose species is `v`.
pub fn count_species(species: &Vec<u8>, num_species: u8) -> (counts: Vec<usize>)
    requires
        species_in_range(species@, num_species),
    ensures
        counts.len() == num_species,
        forall|v: int|
            0 <= v < num_species ==> #[trigger] counts[v] == occurrences(species@, v as u8),
        forall|v: u8| v < num_species ==> #[trigger] counts@[v as int] == species@.to_multiset().count(v),
        total(counts@) == species.len(),
{
    let mut counts: Vec<usize> = Vec::new();
    let n: usize = num_species as usize;
    while counts.len() < n
        invariant
            n == num_species,
            counts.len() <= n,
            forall|v: int| 0 <= v < counts.len() ==> #[trigger] counts[v] == 0,
            total(counts@) == 0,
        decreases n - counts.len(),
    {
        proof {
            lemma_total_push_zero(counts@);
        }
        counts.push(0);
    }
    let mut i: usize = 0;
    while i < species.len()
        invariant
            n == num_species,
            counts.len() == n,
            i <= species.len(),
            species_in_range(species@, num_species),
            forall|v: int|
                0 <= v < n ==> #[trigger] counts[v] == occurrences(species@.take(i as int), v as u8),
            total(counts@) == i,
        decreases species.len() - i,
    {
        let s: usize = species[i] as usize;
        assert(species@.take(i + 1).drop_last() =~= species@.take(i as int));
        assert(counts[s as int] <= i) by {
            assert(occurrences(species@.take(i as int), s as u8) <= i) by {
                lemma_occurrences_bound(species@.take(i as int), s as u8);
            }
        }
        proof {
            lemma_total_update(counts@, s as int, (counts[s as int] + 1) as usize);
        }
        counts.set(s, counts[s] + 1);
        i = i + 1;
    }
    assert(species@.take(species.len() as int) =~= species@);
    assert forall|v: u8| v < num_species implies #[trigger] counts@[v as int]
        == species@.to_multiset().count(v) by {
        lemma_occurrences_is_multiplicity(species@, v);
    }
    counts
}

proof fn lemma_occurrences_bound(s: Seq<u8>, v: u8)
    ensures
        occurrences(s, v) <= s.len(),
    decreases s.len(),
{
    if s.len() > 0 {
        lemma_occurrences_bound(s.drop_last(), v);
    }
}

} // verus!
