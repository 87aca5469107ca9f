//! Extinction tracking over a run's species census.
use vstd::prelude::*;

verus! {

/// The species census of one generation.
pub struct SpeciesCensus {
    pub generation: usize,
    pub species_counts: Vec<usize>,
}

/// Whether one of the first `num_species` counts is zero.
pub open spec fn is_extinct(counts: Seq<usize>, num_species: nat) -> bool {
    exists|j: int| 0 <= j < counts.len() && j < num_species && #[trigger] counts[j] == 0
}

/// Reports whether any of the first `num_species` species has no agent left.
pub fn has_extinction(counts: &Vec<usize>, num_species: u8) -> (r: bool)
    ensures
        r == is_extinct(counts@, num_species as nat),
{
    let n: usize = num_species as usize;
    let mut j: usize = 0;
    while j < counts.len() && j < n
        invariant
            n == num_species,
            j <= counts.len(),
            forall|q: int| 0 <= q < j ==> #[trigger] counts@[q] != 0,
        decreases counts.len() - j,
    {
        if counts[j] == 0 {
            return true;
        }
        j = j + 1;
    }
    false
}

/// Scans the census generation by generation and returns the generation of the first
/// record in which a species is extinct, or `None` when no species ever dies out.
pub fn first_extinction(records: &Vec<SpeciesCensus>, num_species: u8) -> (r: Option<usize>)
    ensures
        match r {
            Some(g) => exists|p: int|
                0 <= p < records.len() && is_extinct(
                    #[trigger] records@[p].species_counts@,
                    num_species as nat,
                ) && records@[p].generation == g && forall|q: int|
                    0 <= q < p ==> !is_extinct(
                        #[trigger] records@[q].species_counts@,
                        num_species as nat,
                    ),
            None => forall|p: int|
                0 <= p < records.len() ==> !is_extinct(
                    #[trigger] records@[p].species_counts@,
                    num_species as nat,
                ),
        },
{
    let mut i: usize = 0;
    while i < records.len()
        invariant
            i <= records.len(),
            forall|q: int|
                0 <= q < i ==> !is_extinct(
                    #[trigger] records@[q].species_counts@,
                    num_species as nat,
                ),
        decreases records.len() - i,
    {
        if has_extinction(&records[i].species_counts, num_species) {
            return Some(records[i].generation);
        }
        i = i + 1;
    }
    None
}

} // verus!
