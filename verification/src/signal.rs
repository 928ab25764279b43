//! Deterministic helpers of synthetic signal generation: channel
//! interleaving and the seeded generator the noise and click tracks draw
//! from.
use vstd::prelude::*;

use crate::rng::{mix64, next_state, nth_output, splitmix_step, state_after, SeededRng};

verus! {

/// Interleave a mono buffer up to `channels` (the same sample on every
/// channel); a channel count of 0 counts as 1.
pub fn interleave<T: Copy>(mono: &[T], channels: u16) -> (out: Vec<T>)
    requires
        mono@.len() * (if channels == 0 {
            1
        } else {
            channels as int
        }) <= usize::MAX,
    ensures
        ({
            let ch = if channels == 0 {
                1
            } else {
                channels as int
            };
            &&& out@.len() == mono@.len() * ch
            &&& forall|i: int| 0 <= i < out@.len() ==> #[trigger] out@[i] == mono@[i / ch]
        }),
{
    let ch: usize = if channels == 0 {
        1
    } else {
        channels as usize
    };
    let mut out: Vec<T> = Vec::new();
    let mut k: usize = 0;
    while k < mono.len()
        invariant
            k <= mono@.len(),
            ch >= 1,
            ch == (if channels == 0 {
                1
            } else {
                channels as int
            }),
            mono@.len() * ch <= usize::MAX,
            out@.len() == k * ch,
            forall|i: int| 0 <= i < out@.len() ==> #[trigger] out@[i] == mono@[i / (ch as int)],
        decreases mono.len() - k,
    {
        let s = mono[k];
        let mut c: usize = 0;
        assert((k + 1) * ch <= mono@.len() * ch) by (nonlinear_arith)
            requires
                k < mono@.len(),
                ch >= 1,
        ;
        while c < ch
            invariant
                c <= ch,
                ch >= 1,
                k < mono@.len(),
                s == mono@[k as int],
                (k + 1) * ch <= usize::MAX,
                out@.len() == k * ch + c,
                forall|i: int| 0 <= i < out@.len() ==> #[trigger] out@[i] == mono@[i / (ch as int)],
            decreases ch - c,
        {
            proof {
                let i = (k * ch + c) as int;
                assert(i / (ch as int) == k) by (nonlinear_arith)
                    requires
                        i == k * ch + c,
                        0 <= c < ch,
                ;
            }
            assert((k * ch + c) + 1 <= (k + 1) * ch) by (nonlinear_arith)
                requires
                    c < ch,
            ;
            out.push(s);
            c = c + 1;
        }
        assert(out@.len() == (k + 1) * ch) by (nonlinear_arith)
            requires
                out@.len() == k * ch + ch,
        ;
        k = k + 1;
    }
    out
}

/// splitmix64, the generator the noise and click tracks draw from.
pub struct SplitMix(u64);

impl SplitMix {
    /// The generator's state.
    pub closed spec fn state(&self) -> u64 {
        self.0
    }

    /// A generator seeded with `seed`.
    pub fn new(seed: u64) -> (r: Self)
        ensures
            r.state() == seed,
    {
        Self(seed)
    }

    /// The next 64 random bits.
    pub fn next_u64(&mut self) -> (out: u64)
        ensures
            final(self).state() == next_state(old(self).state()),
            out == mix64(final(self).state()),
    {
        splitmix_step(&mut self.0)
    }
}

/// The signal generator and the render side's seeded generator are the same
/// stream: seeded alike and drawn alike, both hold the state `state_after(seed,
/// k)` after `k` draws (each starts at its seed and each draw takes one
/// `next_state` step), so their next draws are equal, namely
/// `nth_output(seed, k + 1)`, and their states stay equal.
pub proof fn law_streams_agree(seed: u64, k: nat, a: SplitMix, b: SeededRng)
    requires
        a.state() == state_after(seed, k),
        b.state() == state_after(seed, k),
    ensures
        a.state() == b.state(),
        next_state(a.state()) == next_state(b.state()),
        next_state(a.state()) == state_after(seed, k + 1),
        mix64(next_state(a.state())) == mix64(next_state(b.state())),
        mix64(next_state(a.state())) == nth_output(seed, k + 1),
        state_after(seed, 0) == seed,
{
}

} // verus!
