//! splitmix64: a tiny seeded generator so visual randomness is explicitly
//! seeded and reproducible.
use vstd::prelude::*;

verus! {

/// The splitmix64 state increment (the golden-ratio gamma).
pub const GOLDEN_GAMMA: u64 = 0x9E37_79B9_7F4A_7C15;

/// The splitmix64 output mix of a state.
pub open spec fn mix64(state: u64) -> u64 {
    let z1 = (state ^ (state >> 30u64)).wrapping_mul(0xBF58_476D_1CE4_E5B9u64);
    let z2 = (z1 ^ (z1 >> 27u64)).wrapping_mul(0x94D0_49BB_1331_11EBu64);
    z2 ^ (z2 >> 31u64)
}

/// The state after one step.
pub open spec fn next_state(state: u64) -> u64 {
    state.wrapping_add(GOLDEN_GAMMA)
}

/// The `k`-th output of a generator seeded with `seed` (counting from 1).
pub open spec fn nth_output(seed: u64, k: nat) -> u64
    recommends
        k >= 1,
{
    mix64(state_after(seed, k))
}

/// The state after `k` steps from `seed`.
pub open spec fn state_after(seed: u64, k: nat) -> u64
    decreases k,
{
    if k == 0 {
        seed
    } else {
        next_state(state_after(seed, (k - 1) as nat))
    }
}

/// One splitmix64 step: advance the state and return the mix of the new
/// state.
pub fn splitmix_step(state: &mut u64) -> (out: u64)
    ensures
        *final(state) == next_state(*old(state)),
        out == mix64(*final(state)),
{
    *state = state.wrapping_add(GOLDEN_GAMMA);
    let mut z = *state;
    z = (z ^ (z >> 30)).wrapping_mul(0xBF58_476D_1CE4_E5B9);
    z = (z ^ (z >> 27)).wrapping_mul(0x94D0_49BB_1331_11EB);
    z ^ (z >> 31)
}

/// Deterministic generator for seeded visual randomness.
pub struct SeededRng(u64);

impl SeededRng {
    /// The generator's state.
    pub closed spec fn state(&self) -> u64 {
        self.0
    }

    /// A generator seeded with `seed`.
    pub fn new(seed: u64) -> (r: Self)
        ensures
            r.state() == seed,
    {
        Self(seed)
    }

    /// The next 64 random bits.
    pub fn next_u64(&mut self) -> (out: u64)
        ensures
            final(self).state() == next_state(old(self).state()),
            out == mix64(final(self).state()),
    {
        splitmix_step(&mut self.0)
    }
}

/// Same seed, same stream: the generator's state after `k` draws is the seed
/// advanced by `k` golden gammas modulo 2^64 (a Weyl sequence), so the `k`-th
/// draw depends only on the seed and `k`.
pub proof fn law_stream_is_a_function_of_the_seed(seed: u64, k: nat)
    ensures
        state_after(seed, k) as int == (seed as int + k * (GOLDEN_GAMMA as int)) % 0x1_0000_0000_0000_0000,
        k >= 1 ==> nth_output(seed, k) == mix64(state_after(seed, k)),
    decreases k,
{
    let m: int = 0x1_0000_0000_0000_0000;
    if k == 0 {
        vstd::arithmetic::div_mod::lemma_small_mod(seed as nat, m as nat);
    } else {
        law_stream_is_a_function_of_the_seed(seed, (k - 1) as nat);
        let prev = state_after(seed, (k - 1) as nat);
        let base = seed as int + (k - 1) * (GOLDEN_GAMMA as int);
        assert(next_state(prev) as int == (prev as int + GOLDEN_GAMMA as int) % m) by {
            if prev as int + GOLDEN_GAMMA as int >= m {
                vstd::arithmetic::div_mod::lemma_mod_add_multiples_vanish(
                    prev as int + GOLDEN_GAMMA as int - m,
                    m,
                );
                vstd::arithmetic::div_mod::lemma_small_mod(
                    (prev as int + GOLDEN_GAMMA as int - m) as nat,
                    m as nat,
                );
            } else {
                vstd::arithmetic::div_mod::lemma_small_mod(
                    (prev as int + GOLDEN_GAMMA as int) as nat,
                    m as nat,
                );
            }
        }
        assert(base >= 0) by (nonlinear_arith)
            requires
                base == seed as int + (k - 1) * (GOLDEN_GAMMA as int),
                k >= 1,
        ;
        vstd::arithmetic::div_mod::lemma_add_mod_noop_right(GOLDEN_GAMMA as int, base, m);
        vstd::arithmetic::div_mod::lemma_small_mod(GOLDEN_GAMMA as nat, m as nat);
        assert(base + GOLDEN_GAMMA as int == seed as int + k * (GOLDEN_GAMMA as int)) by (nonlinear_arith)
            requires
                base == seed as int + (k - 1) * (GOLDEN_GAMMA as int),
        ;
    }
}

} // verus!
