//! The seeded pseudo-random generator behind every random choice of an experiment.
use vstd::prelude::*;

verus! {

/// Step added to the seed for each word of the initial state.
pub const GOLDEN_GAMMA: u64 = 0x9e3779b97f4a7c15;

/// First multiplier of the SplitMix64 finaliser.
pub const MIX_MUL_1: u64 = 0xbf58476d1ce4e5b9;

/// Second multiplier of the SplitMix64 finaliser.
pub const MIX_MUL_2: u64 = 0x94d049bb133111eb;

/// The four 64-bit words of generator state.
pub type RngState = (u64, u64, u64, u64);

/// Left rotation of a 64-bit word by `k` bits, `0 < k < 64`.
pub open spec fn rotl64(x: u64, k: u32) -> u64 {
    (x << k) | (x >> ((64 - k) as u32))
}

/// The xoshiro256++ output for a state (computed before the state advances).
pub open spec fn draw_output(s: RngState) -> u64 {
    vstd::wrapping::u64_specs::wrapping_add(
        rotl64(vstd::wrapping::u64_specs::wrapping_add(s.0, s.3), 23),
        s.0,
    )
}

/// The xoshiro256 state transition.
pub open spec fn step_state(s: RngState) -> RngState {
    let t: u64 = s.1 << 17u32;
    let a2: u64 = s.2 ^ s.0;
    let a3: u64 = s.3 ^ s.1;
    let n1: u64 = s.1 ^ a2;
    let n0: u64 = s.0 ^ a3;
    let n2: u64 = a2 ^ t;
    let n3: u64 = rotl64(a3, 45);
    (n0, n1, n2, n3)
}

/// The SplitMix64 finaliser, a bijection of 64-bit words.
pub open spec fn mix64(z: u64) -> u64 {
    let z1: u64 = vstd::wrapping::u64_specs::wrapping_mul(z ^ (z >> 30u32), MIX_MUL_1);
    let z2: u64 = vstd::wrapping::u64_specs::wrapping_mul(z1 ^ (z1 >> 27u32), MIX_MUL_2);
    z2 ^ (z2 >> 31u32)
}

/// The `i`-th point of the seeding sequence: `seed + (i + 1) * GOLDEN_GAMMA`, wrapping.
pub open spec fn seed_point(seed: u64, i: nat) -> u64
    decreases i,
{
    if i == 0 {
        vstd::wrapping::u64_specs::wrapping_add(seed, GOLDEN_GAMMA)
    } else {
        vstd::wrapping::u64_specs::wrapping_add(seed_point(seed, (i - 1) as nat), GOLDEN_GAMMA)
    }
}

/// The state that a seed produces: each word is the finaliser applied to a seeding point.
pub open spec fn seed_state(seed: u64) -> RngState {
    (
        mix64(seed_point(seed, 0)),
        mix64(seed_point(seed, 1)),
        mix64(seed_point(seed, 2)),
        mix64(seed_point(seed, 3)),
    )
}

/// A deterministic xoshiro256++ generator whose state is seeded by SplitMix64: the same
/// seed always yields the same stream of draws.
#[derive(Debug)]
pub struct SeededRng {
    state: [u64; 4],
}

impl View for SeededRng {
    type V = RngState;

    closed spec fn view(&self) -> RngState {
        (self.state[0], self.state[1], self.state[2], self.state[3])
    }
}

impl Clone for SeededRng {
    /// A copy of the generator, which continues with the same draws.
    fn clone(&self) -> (r: Self)
        ensures
            r@ == self@,
    {
        proof {
            use_type_invariant(self);
        }
        SeededRng { state: self.state }
    }
}

impl SeededRng {
    #[verifier::type_invariant]
    spec fn live(self) -> bool {
        state_is_live(self@)
    }

    /// Creates a generator whose state is derived from `seed` by SplitMix64.
    pub fn new(seed: u64) -> (r: Self)
        ensures
            r@ == seed_state(seed),
            state_is_live(r@),
            r@.0 == mix64(((seed as int + 0x9e3779b97f4a7c15int) % 0x1_0000_0000_0000_0000) as u64),
            r@.1 == mix64(
                ((seed as int + 2 * 0x9e3779b97f4a7c15int) % 0x1_0000_0000_0000_0000) as u64,
            ),
            r@.2 == mix64(
                ((seed as int + 3 * 0x9e3779b97f4a7c15int) % 0x1_0000_0000_0000_0000) as u64,
            ),
            r@.3 == mix64(
                ((seed as int + 4 * 0x9e3779b97f4a7c15int) % 0x1_0000_0000_0000_0000) as u64,
            ),
    {
        proof {
            lemma_seed_words(seed);
        }
        let mut s: u64 = seed;
        let mut state: [u64; 4] = [0u64; 4];
        for i in 0..4
            invariant
                s == (if i == 0 { seed } else { seed_point(seed, (i - 1) as nat) }),
                forall|j: int| 0 <= j < i ==> state[j] == mix64(seed_point(seed, j as nat)),
        {
            s = s.wrapping_add(GOLDEN_GAMMA);
            let mut z: u64 = s;
            z = (z ^ (z >> 30)).wrapping_mul(MIX_MUL_1);
            z = (z ^ (z >> 27)).wrapping_mul(MIX_MUL_2);
            z = z ^ (z >> 31);
            state[i] = z;
        }
        proof {
            lemma_seed_state_is_live(seed);
        }
        Self { state }
    }

    /// Produces the next 64-bit draw and advances the state.
    pub fn next_u64(&mut self) -> (r: u64)
        ensures
            r == draw_output(old(self)@),
            final(self)@ == step_state(old(self)@),
            state_is_live(final(self)@),
            ({
                let s = old(self)@;
                let sum: u64 = ((s.0 as int + s.3 as int) % 0x1_0000_0000_0000_0000) as u64;
                r as int == (((sum << 23u32) | (sum >> 41u32)) as int + s.0 as int)
                    % 0x1_0000_0000_0000_0000
            }),
            final(self)@.0 == old(self)@.0 ^ old(self)@.1 ^ old(self)@.3,
            final(self)@.1 == old(self)@.0 ^ old(self)@.1 ^ old(self)@.2,
            final(self)@.2 == old(self)@.0 ^ old(self)@.2 ^ (old(self)@.1 << 17u32),
            final(self)@.3 == ((old(self)@.1 ^ old(self)@.3) << 45u32) | ((old(self)@.1
                ^ old(self)@.3) >> 19u32),
    {
        proof {
            use_type_invariant(&*self);
            lemma_step_keeps_live(self@);
            lemma_draw_is_scrambled_sum(self@);
            lemma_transition_words(self@);
        }
        let s0: u64 = self.state[0];
        let s1: u64 = self.state[1];
        let s2: u64 = self.state[2];
        let s3: u64 = self.state[3];
        let result: u64 = self.rotl(s0.wrapping_add(s3), 23).wrapping_add(s0);

        let t: u64 = s1.wrapping_shl(17);

        let a2: u64 = s2 ^ s0;
        let a3: u64 = s3 ^ s1;
        let n1: u64 = s1 ^ a2;
        let n0: u64 = s0 ^ a3;

        let n2: u64 = a2 ^ t;
        let n3: u64 = self.rotl(a3, 45);
        self.state = [n0, n1, n2, n3];
        result
    }

    /// Returns an integer in `[lo, hi]`; when `lo >= hi` returns `lo` and leaves the state
    /// as it was. The width `hi - lo + 1` is taken in 128 bits, so every range of `i64`
    /// values, the full one included, is accepted.
    pub fn next_int(&mut self, lo: i64, hi: i64) -> (r: i64)
        ensures
            lo >= hi ==> r == lo && final(self)@ == old(self)@,
            lo < hi ==> r == lo + (draw_output(old(self)@) as int) % (hi - lo + 1) && final(self)@
                == step_state(old(self)@),
            lo <= hi ==> lo <= r <= hi,
            state_is_live(final(self)@),
    {
        proof {
            use_type_invariant(&*self);
        }
        if lo >= hi {
            return lo;
        }
        let range: u128 = (hi as i128 - lo as i128 + 1) as u128;
        let offset: u128 = (self.next_u64() as u128) % range;
        (lo as i128 + offset as i128) as i64
    }

    /// Returns the top 53 bits of the next draw: the numerator of a uniform value in
    /// `[0, 1)` with denominator `2^53`.
    pub fn next_unit_numerator(&mut self) -> (r: u64)
        ensures
            r == draw_output(old(self)@) >> 11u64,
            r < 0x20_0000_0000_0000,
            final(self)@ == step_state(old(self)@),
            state_is_live(final(self)@),
    {
        let v: u64 = self.next_u64();
        let r: u64 = v >> 11;
        assert(v >> 11u64 < 0x20_0000_0000_0000) by (bit_vector);
        r
    }

    fn rotl(&self, x: u64, k: u32) -> (r: u64)
        requires
            0 < k < 64,
        ensures
            r == rotl64(x, k),
    {
        (x << k) | (x >> (64 - k))
    }
}

/// The index that a draw of `next_int(0, n - 1)` yields, and the state after it.
pub open spec fn pick_index(s: RngState, n: nat) -> (nat, RngState) {
    if n <= 1 {
        (0, s)
    } else {
        (((draw_output(s) as int) % (n as int)) as nat, step_state(s))
    }
}

/// Whether a state has at least one nonzero word; the all-zero state is the one
/// fixed point of the transition and is never reached from a seed.
pub open spec fn state_is_live(s: RngState) -> bool {
    !(s.0 == 0 && s.1 == 0 && s.2 == 0 && s.3 == 0)
}

proof fn lemma_xorshift_right_injective(x: u64, y: u64, k: u64)
    requires
        k == 27 || k == 30 || k == 31,
        x ^ (x >> k) == y ^ (y >> k),
    ensures
        x == y,
{
    if k == 27 {
        assert(x ^ (x >> 27u64) == y ^ (y >> 27u64) ==> x == y) by (bit_vector);
    } else if k == 30 {
        assert(x ^ (x >> 30u64) == y ^ (y >> 30u64) ==> x == y) by (bit_vector);
    } else {
        assert(x ^ (x >> 31u64) == y ^ (y >> 31u64) ==> x == y) by (bit_vector);
    }
}

proof fn lemma_mul_by_unit_injective(x: u64, y: u64, c: u64, c_inv: u64)
    requires
        (c as int * c_inv as int) % 0x1_0000_0000_0000_0000 == 1,
        vstd::wrapping::u64_specs::wrapping_mul(x, c) == vstd::wrapping::u64_specs::wrapping_mul(
            y,
            c,
        ),
    ensures
        x == y,
{
    lemma_mul_by_unit_cancels(x, c, c_inv);
    lemma_mul_by_unit_cancels(y, c, c_inv);
}

proof fn lemma_mul_by_unit_cancels(x: u64, c: u64, c_inv: u64)
    requires
        (c as int * c_inv as int) % 0x1_0000_0000_0000_0000 == 1,
    ensures
        ((((x as int * c as int) % 0x1_0000_0000_0000_0000) * c_inv as int)
            % 0x1_0000_0000_0000_0000) == x as int,
{
    let m: int = 0x1_0000_0000_0000_0000;
    vstd::arithmetic::div_mod::lemma_mul_mod_noop_left(x as int * c as int, c_inv as int, m);
    vstd::arithmetic::mul::lemma_mul_is_associative(x as int, c as int, c_inv as int);
    vstd::arithmetic::div_mod::lemma_mul_mod_noop_right(x as int, c as int * c_inv as int, m);
    vstd::arithmetic::div_mod::lemma_small_mod(x as nat, m as nat);
}

/// The SplitMix64 finaliser never maps two words to one.
pub proof fn lemma_mix64_injective(x: u64, y: u64)
    requires
        mix64(x) == mix64(y),
    ensures
        x == y,
{
    assert((MIX_MUL_1 as int * 0x96de1b173f119089int) % 0x1_0000_0000_0000_0000 == 1);
    assert((MIX_MUL_2 as int * 0x319642b2d24d8ec3int) % 0x1_0000_0000_0000_0000 == 1);
    let x1: u64 = vstd::wrapping::u64_specs::wrapping_mul(x ^ (x >> 30u32), MIX_MUL_1);
    let y1: u64 = vstd::wrapping::u64_specs::wrapping_mul(y ^ (y >> 30u32), MIX_MUL_1);
    let x2: u64 = vstd::wrapping::u64_specs::wrapping_mul(x1 ^ (x1 >> 27u32), MIX_MUL_2);
    let y2: u64 = vstd::wrapping::u64_specs::wrapping_mul(y1 ^ (y1 >> 27u32), MIX_MUL_2);
    lemma_xorshift_right_injective(x2, y2, 31);
    lemma_mul_by_unit_injective(x1 ^ (x1 >> 27u32), y1 ^ (y1 >> 27u32), MIX_MUL_2, 0x319642b2d24d8ec3);
    lemma_xorshift_right_injective(x1, y1, 27);
    lemma_mul_by_unit_injective(x ^ (x >> 30u32), y ^ (y >> 30u32), MIX_MUL_1, 0x96de1b173f119089);
    lemma_xorshift_right_injective(x, y, 30);
}

/// Distinct seeds give distinct initial states.
pub proof fn lemma_distinct_seeds_distinct_states(a: u64, b: u64)
    requires
        a != b,
    ensures
        seed_state(a) != seed_state(b),
{
    if seed_state(a).0 == seed_state(b).0 {
        lemma_mix64_injective(seed_point(a, 0), seed_point(b, 0));
    }
}

/// Every seed gives a live state: never the all-zero fixed point.
pub proof fn lemma_seed_state_is_live(seed: u64)
    ensures
        state_is_live(seed_state(seed)),
{
    assert(0u64 ^ (0u64 >> 30u32) == 0u64 && 0u64 ^ (0u64 >> 27u32) == 0u64 && 0u64 ^ (0u64
        >> 31u32) == 0u64) by (bit_vector);
    assert(mix64(0) == 0);
    if seed_state(seed).0 == 0 && seed_state(seed).1 == 0 {
        lemma_mix64_injective(seed_point(seed, 0), 0);
        lemma_mix64_injective(seed_point(seed, 1), 0);
        assert(seed_point(seed, 1) == GOLDEN_GAMMA);
    }
}

/// The transition never turns a live state into the all-zero state.
pub proof fn lemma_step_keeps_live(s: RngState)
    requires
        state_is_live(s),
    ensures
        state_is_live(step_state(s)),
{
    let (s0, s1, s2, s3) = s;
    assert(((s3 ^ s1) << 45u32) | ((s3 ^ s1) >> 19u32) == 0u64 ==> s3 ^ s1 == 0u64)
        by (bit_vector);
    assert(s3 ^ s1 == 0u64 && s0 ^ (s3 ^ s1) == 0u64 ==> s0 == 0u64 && s3 == s1) by (bit_vector);
    assert(s0 == 0u64 && s1 ^ (s2 ^ s0) == 0u64 ==> s1 == s2) by (bit_vector);
    assert(s0 == 0u64 && s1 == s2 && (s2 ^ s0) ^ (s1 << 17u32) == 0u64 ==> s2 == 0u64)
        by (bit_vector);
}

/// The transition is one-to-one: two distinct states never step to the same state, so
/// every state lies on a cycle.
pub proof fn lemma_step_injective(a: RngState, b: RngState)
    requires
        step_state(a) == step_state(b),
    ensures
        a == b,
{
    let (a0, a1, a2, a3) = a;
    let (b0, b1, b2, b3) = b;
    let d: RngState = (a0 ^ b0, a1 ^ b1, a2 ^ b2, a3 ^ b3);
    let (d0, d1, d2, d3) = d;
    assert((a0 ^ (a3 ^ a1)) ^ (b0 ^ (b3 ^ b1)) == d0 ^ (d3 ^ d1)) by (bit_vector)
        requires
            d0 == a0 ^ b0,
            d1 == a1 ^ b1,
            d3 == a3 ^ b3,
    ;
    assert((a1 ^ (a2 ^ a0)) ^ (b1 ^ (b2 ^ b0)) == d1 ^ (d2 ^ d0)) by (bit_vector)
        requires
            d0 == a0 ^ b0,
            d1 == a1 ^ b1,
            d2 == a2 ^ b2,
    ;
    assert(((a2 ^ a0) ^ (a1 << 17u32)) ^ ((b2 ^ b0) ^ (b1 << 17u32)) == (d2 ^ d0) ^ (d1
        << 17u32)) by (bit_vector)
        requires
            d0 == a0 ^ b0,
            d1 == a1 ^ b1,
            d2 == a2 ^ b2,
    ;
    assert((((a3 ^ a1) << 45u32) | ((a3 ^ a1) >> 19u32)) ^ (((b3 ^ b1) << 45u32) | ((b3 ^ b1)
        >> 19u32)) == ((d3 ^ d1) << 45u32) | ((d3 ^ d1) >> 19u32)) by (bit_vector)
        requires
            d1 == a1 ^ b1,
            d3 == a3 ^ b3,
    ;
    let (x0, x1, x2, x3) = step_state(a);
    assert(x0 ^ x0 == 0u64 && x1 ^ x1 == 0u64 && x2 ^ x2 == 0u64 && x3 ^ x3 == 0u64)
        by (bit_vector);
    assert(step_state(d) == (0u64, 0u64, 0u64, 0u64));
    if state_is_live(d) {
        lemma_step_keeps_live(d);
    }
    assert(a0 ^ b0 == 0u64 && a1 ^ b1 == 0u64 && a2 ^ b2 == 0u64 && a3 ^ b3 == 0u64 ==> a0 == b0
        && a1 == b1 && a2 == b2 && a3 == b3) by (bit_vector);
}

/// Each draw is the xoshiro256++ scrambler of the state: the wrapping sum of the first
/// and last words, rotated left by 23 bits, plus the first word, modulo `2^64`.
pub proof fn lemma_draw_is_scrambled_sum(s: RngState)
    ensures
        ({
            let sum: u64 = ((s.0 as int + s.3 as int) % 0x1_0000_0000_0000_0000) as u64;
            draw_output(s) as int == (((sum << 23u32) | (sum >> 41u32)) as int + s.0 as int)
                % 0x1_0000_0000_0000_0000
        }),
{
}

/// The draw gives back the sum it was made from: subtracting the first word and rotating
/// right by 23 bits recovers `s.0 + s.3` modulo `2^64`.
pub proof fn lemma_draw_recovers_sum(s: RngState)
    ensures
        ({
            let rotated: u64 = ((draw_output(s) as int - s.0 as int) % 0x1_0000_0000_0000_0000)
                as u64;
            ((rotated >> 23u32) | (rotated << 41u32)) as int == (s.0 as int + s.3 as int)
                % 0x1_0000_0000_0000_0000
        }),
{
    let sum: u64 = ((s.0 as int + s.3 as int) % 0x1_0000_0000_0000_0000) as u64;
    let r: u64 = (sum << 23u32) | (sum >> 41u32);
    assert(((r >> 23u32) | (r << 41u32)) == sum) by (bit_vector)
        requires
            r == (sum << 23u32) | (sum >> 41u32),
    ;
    assert(draw_output(s) as int == (r as int + s.0 as int) % 0x1_0000_0000_0000_0000);
    assert(((draw_output(s) as int - s.0 as int) % 0x1_0000_0000_0000_0000) == r as int) by {
        let m: int = 0x1_0000_0000_0000_0000;
        let t: int = r as int + s.0 as int;
        if t >= m {
            assert(draw_output(s) as int == t - m);
        } else {
            assert(draw_output(s) as int == t);
        }
    }
}

/// The xoshiro256 transition word by word: with `x = s.1 ^ s.3`, the new state is
/// `(s.0 ^ x, s.0 ^ s.1 ^ s.2, s.0 ^ s.2 ^ (s.1 << 17), x rotated left by 45)`.
pub proof fn lemma_transition_words(s: RngState)
    ensures
        step_state(s).0 == s.0 ^ s.1 ^ s.3,
        step_state(s).1 == s.0 ^ s.1 ^ s.2,
        step_state(s).2 == s.0 ^ s.2 ^ (s.1 << 17u32),
        step_state(s).3 == ((s.1 ^ s.3) << 45u32) | ((s.1 ^ s.3) >> 19u32),
{
    let (s0, s1, s2, s3) = s;
    assert(s0 ^ (s3 ^ s1) == s0 ^ s1 ^ s3) by (bit_vector);
    assert(s1 ^ (s2 ^ s0) == s0 ^ s1 ^ s2) by (bit_vector);
    assert((s2 ^ s0) ^ (s1 << 17u32) == s0 ^ s2 ^ (s1 << 17u32)) by (bit_vector);
    assert(((s3 ^ s1) << 45u32) | ((s3 ^ s1) >> 19u32) == ((s1 ^ s3) << 45u32) | ((s1 ^ s3)
        >> 19u32)) by (bit_vector);
}

/// The SplitMix64 finaliser: xor-shift by 30, multiply by `0xbf58476d1ce4e5b9`, xor-shift
/// by 27, multiply by `0x94d049bb133111eb`, xor-shift by 31, all modulo `2^64`.
pub proof fn lemma_mix64_steps(z: u64)
    ensures
        ({
            let a: u64 = z ^ (z >> 30u32);
            let b: u64 = ((a as int * 0xbf58476d1ce4e5b9int) % 0x1_0000_0000_0000_0000) as u64;
            let c: u64 = b ^ (b >> 27u32);
            let d: u64 = ((c as int * 0x94d049bb133111ebint) % 0x1_0000_0000_0000_0000) as u64;
            mix64(z) == d ^ (d >> 31u32)
        }),
{
}

/// Word `j` of a seeded state is the finaliser applied to `seed + (j + 1) * 0x9e3779b97f4a7c15`
/// modulo `2^64`.
pub proof fn lemma_seed_words(seed: u64)
    ensures
        seed_state(seed).0 == mix64(
            ((seed as int + 0x9e3779b97f4a7c15int) % 0x1_0000_0000_0000_0000) as u64,
        ),
        seed_state(seed).1 == mix64(
            ((seed as int + 2 * 0x9e3779b97f4a7c15int) % 0x1_0000_0000_0000_0000) as u64,
        ),
        seed_state(seed).2 == mix64(
            ((seed as int + 3 * 0x9e3779b97f4a7c15int) % 0x1_0000_0000_0000_0000) as u64,
        ),
        seed_state(seed).3 == mix64(
            ((seed as int + 4 * 0x9e3779b97f4a7c15int) % 0x1_0000_0000_0000_0000) as u64,
        ),
{
    lemma_seed_point_closed(seed, 0);
    lemma_seed_point_closed(seed, 1);
    lemma_seed_point_closed(seed, 2);
    lemma_seed_point_closed(seed, 3);
}

proof fn lemma_seed_point_closed(seed: u64, i: nat)
    ensures
        seed_point(seed, i) as int == (seed as int + (i + 1) * 0x9e3779b97f4a7c15int)
            % 0x1_0000_0000_0000_0000,
    decreases i,
{
    let m: int = 0x1_0000_0000_0000_0000;
    let g: int = 0x9e3779b97f4a7c15int;
    if i > 0 {
        lemma_seed_point_closed(seed, (i - 1) as nat);
        vstd::arithmetic::div_mod::lemma_add_mod_noop(seed as int + i * g, g, m);
        vstd::arithmetic::div_mod::lemma_mod_twice(g, m);
        vstd::arithmetic::div_mod::lemma_small_mod(g as nat, m as nat);
        assert(seed as int + i * g + g == seed as int + (i + 1) * g) by (nonlinear_arith);
    }
}

proof fn lemma_shifted_point(seed: u64, k: int)
    ensures
        ((((seed as int + 0x9e3779b97f4a7c15int) % 0x1_0000_0000_0000_0000) as u64) as int + k
            * 0x9e3779b97f4a7c15int) % 0x1_0000_0000_0000_0000 == (seed as int + (k + 1)
            * 0x9e3779b97f4a7c15int) % 0x1_0000_0000_0000_0000,
{
    let m: int = 0x1_0000_0000_0000_0000;
    let g: int = 0x9e3779b97f4a7c15int;
    let next: int = (seed as int + g) % m;
    vstd::arithmetic::div_mod::lemma_add_mod_noop(seed as int + g, k * g, m);
    vstd::arithmetic::div_mod::lemma_add_mod_noop(next, k * g, m);
    vstd::arithmetic::div_mod::lemma_mod_twice(seed as int + g, m);
    assert(seed as int + g + k * g == seed as int + (k + 1) * g) by (nonlinear_arith);
}

/// Seeding from `seed + 0x9e3779b97f4a7c15` shifts the state one word along: its first
/// three words are the last three words of the state seeded from `seed`.
pub proof fn lemma_seed_shift(seed: u64)
    ensures
        ({
            let next: u64 = ((seed as int + 0x9e3779b97f4a7c15int) % 0x1_0000_0000_0000_0000)
                as u64;
            seed_state(next).0 == seed_state(seed).1 && seed_state(next).1 == seed_state(seed).2
                && seed_state(next).2 == seed_state(seed).3
        }),
{
    let m: int = 0x1_0000_0000_0000_0000;
    let g: int = 0x9e3779b97f4a7c15int;
    let next: u64 = ((seed as int + g) % m) as u64;
    lemma_seed_words(seed);
    lemma_seed_words(next);
    lemma_shifted_point(seed, 1);
    lemma_shifted_point(seed, 2);
    lemma_shifted_point(seed, 3);
    assert((next as int + 1 * g) % m == (seed as int + 2 * g) % m);
    assert((next as int + 2 * g) % m == (seed as int + 3 * g) % m);
    assert((next as int + 3 * g) % m == (seed as int + 4 * g) % m);
}

} // verus!
