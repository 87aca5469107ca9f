//! Orbits of the generator's state transition.
//!
//! The transition is one-to-one and never leaves the live states, of which there are
//! `2^256 - 1`; so every live state comes back to itself after at most that many steps.
use vstd::prelude::*;

use crate::rng::{lemma_step_injective, lemma_step_keeps_live, state_is_live, step_state, RngState};

verus! {

/// The number of 256-bit states, `2^256`.
pub open spec fn state_space_size() -> int {
    0x1_0000_0000_0000_0000_0000_0000_0000_0000_0000_0000_0000_0000_0000_0000_0000_0000int
}

/// The state after `n` transitions from `s`: the state of a generator at `s` after `n`
/// calls of `next_u64`.
pub open spec fn advance(s: RngState, n: nat) -> RngState
    decreases n,
{
    if n == 0 {
        s
    } else {
        step_state(advance(s, (n - 1) as nat))
    }
}

/// A state read as one 256-bit number, first word least significant.
pub open spec fn state_number(s: RngState) -> int {
    s.0 + 0x1_0000_0000_0000_0000int * (s.1 + 0x1_0000_0000_0000_0000int * (s.2
        + 0x1_0000_0000_0000_0000int * s.3))
}

proof fn lemma_state_number_injective(s: RngState, t: RngState)
    requires
        state_number(s) == state_number(t),
    ensures
        s == t,
{
    let w: int = 0x1_0000_0000_0000_0000int;
    let q2s: int = s.2 + w * s.3;
    let q1s: int = s.1 + w * q2s;
    let q2t: int = t.2 + w * t.3;
    let q1t: int = t.1 + w * q2t;
    let e: int = state_number(s);
    vstd::arithmetic::div_mod::lemma_fundamental_div_mod_converse(e, w, q1s, s.0 as int);
    vstd::arithmetic::div_mod::lemma_fundamental_div_mod_converse(e, w, q1t, t.0 as int);
    vstd::arithmetic::div_mod::lemma_fundamental_div_mod_converse(q1s, w, q2s, s.1 as int);
    vstd::arithmetic::div_mod::lemma_fundamental_div_mod_converse(q1t, w, q2t, t.1 as int);
    vstd::arithmetic::div_mod::lemma_fundamental_div_mod_converse(q2s, w, s.3 as int, s.2 as int);
    vstd::arithmetic::div_mod::lemma_fundamental_div_mod_converse(q2t, w, t.3 as int, t.2 as int);
}

proof fn lemma_state_number_of_live(s: RngState)
    requires
        state_is_live(s),
    ensures
        1 <= state_number(s) < state_space_size(),
{
    if state_number(s) == 0 {
        assert(state_number((0u64, 0u64, 0u64, 0u64)) == 0);
        lemma_state_number_injective(s, (0u64, 0u64, 0u64, 0u64));
    }
}

proof fn lemma_advance_live(s: RngState, n: nat)
    requires
        state_is_live(s),
    ensures
        state_is_live(advance(s, n)),
    decreases n,
{
    if n > 0 {
        lemma_advance_live(s, (n - 1) as nat);
        lemma_step_keeps_live(advance(s, (n - 1) as nat));
    }
}

proof fn lemma_advance_cancel(s: RngState, i: nat, j: nat)
    requires
        i <= j,
        advance(s, i) == advance(s, j),
    ensures
        advance(s, (j - i) as nat) == s,
    decreases i,
{
    if i > 0 {
        lemma_step_injective(advance(s, (i - 1) as nat), advance(s, (j - 1) as nat));
        lemma_advance_cancel(s, (i - 1) as nat, (j - 1) as nat);
    }
}

/// Every live state recurs: some number of transitions between 1 and `2^256 - 1` brings
/// it back to itself, so the generator's stream from any seed is purely periodic with a
/// period of at most `2^256 - 1`.
pub proof fn lemma_live_state_recurs(s: RngState)
    requires
        state_is_live(s),
    ensures
        exists|p: nat| 1 <= p < state_space_size() && #[trigger] advance(s, p) == s,
{
    let n: int = state_space_size() - 1;
    if exists|i: int, j: int|
        0 <= i < j <= n && #[trigger] advance(s, i as nat) == #[trigger] advance(s, j as nat) {
        let (i, j) = choose|i: int, j: int|
            0 <= i < j <= n && #[trigger] advance(s, i as nat) == #[trigger] advance(
                s,
                j as nat,
            );
        lemma_advance_cancel(s, i as nat, j as nat);
        let p: nat = (j - i) as nat;
        assert(advance(s, p) == s);
    } else {
        let dom = vstd::set_lib::set_int_range(0, n + 1);
        let f = |i: int| state_number(advance(s, i as nat));
        let image = dom.map(f);
        vstd::set_lib::lemma_int_range(0, n + 1);
        assert(vstd::relations::injective_on(f, dom)) by {
            assert forall|x1: int, x2: int|
                dom.contains(x1) && dom.contains(x2) && #[trigger] f(x1) == #[trigger] f(
                    x2,
                ) implies x1 == x2 by {
                lemma_state_number_injective(advance(s, x1 as nat), advance(s, x2 as nat));
                if x1 < x2 {
                    assert(advance(s, x1 as nat) == advance(s, x2 as nat));
                } else if x2 < x1 {
                    assert(advance(s, x2 as nat) == advance(s, x1 as nat));
                }
            }
        }
        vstd::set_lib::lemma_map_size(dom, image, f);
        let bound = vstd::set_lib::set_int_range(1, state_space_size());
        vstd::set_lib::lemma_int_range(1, state_space_size());
        assert(image.subset_of(bound)) by {
            assert forall|v: int| image.contains(v) implies bound.contains(v) by {
                let x = choose|x: int| dom.contains(x) && f(x) == v;
                lemma_advance_live(s, x as nat);
                lemma_state_number_of_live(advance(s, x as nat));
            }
        }
        vstd::set_lib::lemma_len_subset(image, bound);
        assert(false);
    }
}

} // verus!
