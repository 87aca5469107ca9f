//! Tournament selection over fitness keys.
//!
//! A fitness key is an integer that orders agents as their fitness does; a tournament
//! draws contestants uniformly by index and keeps the first one whose key no later
//! contestant exceeds.
use vstd::prelude::*;

use crate::rng::{pick_index, RngState, SeededRng};

verus! {

/// The outcome of `rounds` further draws, starting from the current best index `best`.
pub open spec fn tournament_rounds(s: RngState, keys: Seq<u64>, best: nat, rounds: nat) -> (
    nat,
    RngState,
)
    decreases rounds,
{
    if rounds == 0 {
        (best, s)
    } else {
        let (i, s2) = pick_index(s, keys.len());
        let next_best: nat = if keys[i as int] > keys[best as int] {
            i
        } else {
            best
        };
        tournament_rounds(s2, keys, next_best, (rounds - 1) as nat)
    }
}

/// The winner of a tournament of size `k` and the state after it: one first draw, then
/// `k - 1` more.
pub open spec fn tournament(s: RngState, keys: Seq<u64>, k: nat) -> (nat, RngState) {
    let (first, s1) = pick_index(s, keys.len());
    tournament_rounds(s1, keys, first, if k >= 1 {
        (k - 1) as nat
    } else {
        0
    })
}

/// The indices drawn by `count` consecutive picks among `n`.
pub open spec fn contestants(s: RngState, n: nat, count: nat) -> Seq<nat>
    decreases count,
{
    if count == 0 {
        Seq::empty()
    } else {
        let (i, s2) = pick_index(s, n);
        seq![i].add(contestants(s2, n, (count - 1) as nat))
    }
}

/// Whether `w` is the first entry of `cs` whose key no entry of `cs` exceeds.
pub open spec fn is_first_fittest(cs: Seq<nat>, keys: Seq<u64>, w: nat) -> bool {
    exists|p: int|
        0 <= p < cs.len() && cs[p] == w && (forall|j: int|
            0 <= j < p ==> keys[#[trigger] cs[j] as int] < keys[w as int]) && (forall|j: int|
            0 <= j < cs.len() ==> keys[#[trigger] cs[j] as int] <= keys[w as int])
}

proof fn lemma_pick_in_bounds(s: RngState, n: nat)
    requires
        n >= 1,
    ensures
        pick_index(s, n).0 < n,
{
}

proof fn lemma_rounds_first_fittest(s: RngState, keys: Seq<u64>, best: nat, rounds: nat)
    requires
        best < keys.len(),
    ensures
        tournament_rounds(s, keys, best, rounds).0 < keys.len(),
        is_first_fittest(
            seq![best].add(contestants(s, keys.len(), rounds)),
            keys,
            tournament_rounds(s, keys, best, rounds).0,
        ),
    decreases rounds,
{
    let n: nat = keys.len();
    let cs = seq![best].add(contestants(s, n, rounds));
    let w: nat = tournament_rounds(s, keys, best, rounds).0;
    if rounds == 0 {
        assert(cs.len() == 1 && cs[0] == best);
        assert(w == best);
        assert(is_first_fittest(cs, keys, w)) by {
            assert(cs[0] == w);
        }
    } else {
        let (i, s2) = pick_index(s, n);
        lemma_pick_in_bounds(s, n);
        let b: nat = if keys[i as int] > keys[best as int] {
            i
        } else {
            best
        };
        let r1 = (rounds - 1) as nat;
        lemma_rounds_first_fittest(s2, keys, b, r1);
        let rest = contestants(s2, n, r1);
        let cs2 = seq![b].add(rest);
        assert(contestants(s, n, rounds) == seq![i].add(rest));
        assert(cs.len() == rest.len() + 2);
        assert(cs[0] == best && cs[1] == i);
        assert forall|j: int| 2 <= j < cs.len() implies cs[j] == #[trigger] cs2[j - 1] by {}
        let p2 = choose|p: int|
            0 <= p < cs2.len() && cs2[p] == w && (forall|j: int|
                0 <= j < p ==> keys[#[trigger] cs2[j] as int] < keys[w as int]) && (forall|j: int|
                0 <= j < cs2.len() ==> keys[#[trigger] cs2[j] as int] <= keys[w as int]);
        assert(cs2[0] == b);
        assert(keys[b as int] <= keys[w as int]);
        let p: int = if p2 == 0 {
            if b == best {
                0
            } else {
                1
            }
        } else {
            p2 + 1
        };
        assert(cs[p] == w);
        assert forall|j: int| 0 <= j < p implies keys[#[trigger] cs[j] as int] < keys[w as int] by {
            if j >= 2 {
                assert(cs[j] == cs2[j - 1]);
            }
        }
        assert forall|j: int| 0 <= j < cs.len() implies keys[#[trigger] cs[j] as int] <= keys[
            w as int] by {
            if j >= 2 {
                assert(cs[j] == cs2[j - 1]);
            }
        }
    }
}

/// The winner of a tournament is a contestant, no contestant has a greater key, and every
/// contestant drawn before it has a smaller key: ties go to the earliest draw.
pub proof fn lemma_tournament_winner_is_first_fittest(s: RngState, keys: Seq<u64>, k: nat)
    requires
        keys.len() >= 1,
    ensures
        tournament(s, keys, k).0 < keys.len(),
        is_first_fittest(
            contestants(s, keys.len(), if k >= 1 {
                k
            } else {
                1
            }),
            keys,
            tournament(s, keys, k).0,
        ),
{
    let n: nat = keys.len();
    let (first, s1) = pick_index(s, n);
    lemma_pick_in_bounds(s, n);
    let rounds: nat = if k >= 1 {
        (k - 1) as nat
    } else {
        0
    };
    lemma_rounds_first_fittest(s1, keys, first, rounds);
    assert(contestants(s, n, rounds + 1) == seq![first].add(contestants(s1, n, rounds)));
}

/// Runs a tournament of size `k` among the agents whose fitness keys are `fitness_keys`
/// and returns the index of the winner.
pub fn tournament_select(rng: &mut SeededRng, fitness_keys: &Vec<u64>, k: usize) -> (r: usize)
    requires
        1 <= fitness_keys.len(),
        fitness_keys.len() - 1 <= i64::MAX,
    ensures
        (r as nat, final(rng)@) == tournament(old(rng)@, fitness_keys@, k as nat),
        r < fitness_keys.len(),
        is_first_fittest(
            contestants(old(rng)@, fitness_keys.len() as nat, if k >= 1 {
                k as nat
            } else {
                1
            }),
            fitness_keys@,
            r as nat,
        ),
{
    proof {
        lemma_tournament_winner_is_first_fittest(old(rng)@, fitness_keys@, k as nat);
    }
    let n: usize = fitness_keys.len();
    let ghost keys = fitness_keys@;
    let ghost target = tournament(old(rng)@, keys, k as nat);
    let mut best_idx: usize = rng.next_int(0, (n - 1) as i64) as usize;
    let mut round: usize = 1;
    while round < k
        invariant
            n == keys.len(),
            keys == fitness_keys@,
            1 <= n,
            n - 1 <= i64::MAX,
            best_idx < n,
            1 <= round,
            round <= k || k == 0,
            tournament_rounds(rng@, keys, best_idx as nat, if k >= 1 {
                (k - round) as nat
            } else {
                0
            }) == target,
        decreases k - round,
    {
        let idx: usize = rng.next_int(0, (n - 1) as i64) as usize;
        if fitness_keys[idx] > fitness_keys[best_idx] {
            best_idx = idx;
        }
        round = round + 1;
    }
    best_idx
}

} // verus!
