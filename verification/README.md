# ternary_sandbox (verified core)

The integer core of an evolutionary-agent sandbox, specified and proved with Verus.

- `src/rng.rs` — xoshiro256++ seeded by SplitMix64. Draws are exact functions of the
  state; distinct seeds give distinct states; the state never reaches the all-zero
  fixed point and the transition is one-to-one.
- `src/orbit.rs` — every live state returns to itself within `2^256 - 1` transitions.
- `src/selection.rs` — tournament selection over integer fitness keys; the winner is the
  first of the drawn contestants whose key none exceeds.
- `src/population.rs` — species draws and the species census, whose counts always sum to
  the population.
- `src/conservation.rs` — extinction detection over a run's census.
- `src/comparison.rs` — the winner of a comparison: fitness first, entropy as tiebreaker.
- `src/grid.rs` — the lattice on which a landscape is sampled.
- `src/outcome.rs` — the failure messages of experiments and comparisons.

`app/` holds the floating-point layer (landscape, agents, sandbox loop, experiments,
entropy, comparisons) that drives the verified core.
