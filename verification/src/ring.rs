use vstd::prelude::*;

use crate::audio::{AudioFormat, FormatError, channels_in_range, rate_in_range};

verus! {

/// `n` is a power of two.
pub open spec fn is_pow2(n: nat) -> bool
    decreases n,
{
    if n == 1 {
        true
    } else if n < 2 || n % 2 != 0 {
        false
    } else {
        is_pow2(n / 2)
    }
}

/// The smallest power of two that is at least `n` (and at least 1).
pub open spec fn next_pow2(n: nat) -> nat {
    choose|p: nat| is_pow2(p) && p >= n && (p == 1 || p / 2 < n)
}

/// Largest request the constructor accepts: one more and the power-of-two
/// rounding would not fit in a `usize`.
pub open spec fn max_ring_request() -> nat {
    (usize::MAX as nat) / 2 + 1
}

/// How many samples a push of `offered` samples into a ring with `free`
/// free slots writes: as many as fit, rounded down to whole frames of
/// `channels` samples so a push never splits a frame.
pub open spec fn accepted(offered: nat, free: nat, channels: nat) -> nat
    recommends
        channels > 0,
{
    let fit = if offered < free {
        offered
    } else {
        free
    };
    (fit / channels) * channels
}

/// A bounded FIFO of interleaved samples with a power-of-two capacity. A push
/// never blocks: what does not fit (in whole frames) is dropped and the count
/// of samples written is returned. A pop drains the oldest samples first.
pub struct SampleRing<T> {
    buf: Vec<T>,
    /// Slot of the oldest stored sample.
    read: usize,
    /// Samples currently stored.
    len: usize,
    /// Interleaving width a push rounds down to.
    channels: u16,
}

impl<T> SampleRing<T> {
    /// The representation invariant.
    pub closed spec fn wf(&self) -> bool {
        &&& is_pow2(self.buf@.len())
        &&& self.read < self.buf@.len()
        &&& self.len <= self.buf@.len()
        &&& self.channels >= 1
    }

    /// Number of sample slots.
    pub closed spec fn spec_capacity(&self) -> nat {
        self.buf@.len()
    }

    /// Interleaving width.
    pub closed spec fn spec_channels(&self) -> nat {
        self.channels as nat
    }

    /// The stored samples, oldest first.
    pub closed spec fn view(&self) -> Seq<T> {
        Seq::new(
            self.len as nat,
            |i: int| self.buf@[(self.read + i) % (self.buf@.len() as int)],
        )
    }

    /// Free slots.
    pub open spec fn spec_free(&self) -> nat {
        (self.spec_capacity() - self.view().len()) as nat
    }
}

/// Doubling a power of two gives a power of two.
proof fn lemma_pow2_double(n: nat)
    requires
        is_pow2(n),
    ensures
        is_pow2(n * 2),
{
    assert((n * 2) / 2 == n);
    assert((n * 2) % 2 == 0);
}

/// The power-of-two rounding of `n` is unique, so `next_pow2` names it.
proof fn lemma_next_pow2_unique(p: nat, n: nat)
    requires
        is_pow2(p),
        p >= n,
        p == 1 || p / 2 < n,
    ensures
        next_pow2(n) == p,
{
    let q = choose|q: nat| is_pow2(q) && q >= n && (q == 1 || q / 2 < n);
    assert(is_pow2(q) && q >= n && (q == 1 || q / 2 < n));
    lemma_pow2_order(p, q, n);
}

/// Two powers of two that both round `n` are equal.
proof fn lemma_pow2_order(p: nat, q: nat, n: nat)
    requires
        is_pow2(p),
        is_pow2(q),
        p >= n,
        q >= n,
        p == 1 || p / 2 < n,
        q == 1 || q / 2 < n,
    ensures
        p == q,
    decreases p + q,
{
    if p == 1 || q == 1 {
        if p != q {
            if p == 1 {
                assert(q >= 2);
                lemma_pow2_ge_half(q);
            } else {
                assert(p >= 2);
                lemma_pow2_ge_half(p);
            }
        }
    } else {
        assert(p >= 2 && q >= 2);
        if p / 2 >= 1 && q / 2 >= 1 {
            if p < q {
                lemma_pow2_le_half(p, q);
            } else if q < p {
                lemma_pow2_le_half(q, p);
            }
        }
    }
}

/// A power of two of at least 2 has half at least 1.
proof fn lemma_pow2_ge_half(q: nat)
    requires
        is_pow2(q),
        q >= 2,
    ensures
        q / 2 >= 1,
{
}

/// If `p < q` are powers of two then `p <= q / 2`.
proof fn lemma_pow2_le_half(p: nat, q: nat)
    requires
        is_pow2(p),
        is_pow2(q),
        p < q,
    ensures
        p <= q / 2,
    decreases q,
{
    if q >= 2 {
        if p == 1 {
        } else {
            assert(p % 2 == 0 && q % 2 == 0);
            if p / 2 < q / 2 {
                lemma_pow2_le_half(p / 2, q / 2);
            }
        }
    }
}

impl<T: Copy + Default> SampleRing<T> {
    /// A ring sized to hold at least `capacity_samples` interleaved samples,
    /// rounded up to a power of two; `channels` is the frame width that
    /// pushes are rounded down to. Every slot starts as `T::default()`.
    pub fn new(capacity_samples: usize, channels: u16) -> (ring: Self)
        requires
            capacity_samples <= max_ring_request(),
            channels >= 1,
        ensures
            ring.wf(),
            ring.view() == Seq::<T>::empty(),
            ring.spec_capacity() == next_pow2(capacity_samples as nat),
            ring.spec_channels() == channels,
            ring.view().len() <= ring.spec_capacity(),
    {
        let want = if capacity_samples == 0 {
            1
        } else {
            capacity_samples
        };
        let mut cap: usize = 1;
        while cap < want
            invariant
                1 <= cap,
                is_pow2(cap as nat),
                want <= max_ring_request(),
                want >= 1,
                cap == 1 || cap / 2 < want,
            decreases usize::MAX - cap,
        {
            proof {
                lemma_pow2_double(cap as nat);
            }
            cap = cap * 2;
        }
        proof {
            lemma_next_pow2_unique(cap as nat, capacity_samples as nat);
        }
        let mut buf: Vec<T> = Vec::new();
        while buf.len() < cap
            invariant
                buf.len() <= cap,
            decreases cap - buf.len(),
        {
            buf.push(T::default());
        }
        let ring = SampleRing { buf, read: 0, len: 0, channels };
        assert(ring.view() =~= Seq::<T>::empty());
        ring
    }
}

impl<T: Copy> SampleRing<T> {
    /// Slot count (a power of two).
    pub fn capacity(&self) -> (c: usize)
        requires
            self.wf(),
        ensures
            c == self.spec_capacity(),
    {
        self.buf.len()
    }

    /// Interleaved samples currently readable.
    pub fn available(&self) -> (n: usize)
        requires
            self.wf(),
        ensures
            n == self.view().len(),
    {
        self.len
    }

    /// Push interleaved samples; returns how many were written. As many whole
    /// frames as fit are appended; the rest are dropped (a full ring never
    /// blocks).
    pub fn push_samples(&mut self, samples: &[T]) -> (n: usize)
        requires
            old(self).wf(),
        ensures
            final(self).wf(),
            n == accepted(samples@.len(), old(self).spec_free(), old(self).spec_channels()),
            final(self).view() == old(self).view() + samples@.subrange(0, n as int),
            final(self).spec_capacity() == old(self).spec_capacity(),
            final(self).spec_channels() == old(self).spec_channels(),
            final(self).view().len() <= final(self).spec_capacity(),
    {
        let cap = self.buf.len();
        let free = cap - self.len;
        let fit = if samples.len() < free {
            samples.len()
        } else {
            free
        };
        let ch = self.channels as usize;
        let q = fit / ch;
        assert(q * ch <= fit) by (nonlinear_arith)
            requires
                q == fit / ch,
                ch >= 1,
        ;
        let n = q * ch;
        let ghost old_view = self.view();
        let ghost write = self.read + self.len;
        let ghost w = write as int;
        let ghost c = cap as int;
        let mut i: usize = 0;
        while i < n
            invariant
                self.wf(),
                self.buf@.len() == cap,
                c == cap,
                self.read == old(self).read,
                self.len == old(self).len,
                self.channels == old(self).channels,
                write == self.read + self.len,
                w == write,
                n <= fit,
                fit <= free,
                free == cap - self.len,
                i <= n,
                n <= samples@.len(),
                forall|j: int|
                    0 <= j < c ==> #[trigger] self.buf@[j] == if slot_offset(j, w, c) < i {
                        samples@[slot_offset(j, w, c)]
                    } else {
                        old(self).buf@[j]
                    },
            decreases n - i,
        {
            proof {
                lemma_offset_of_slot(w, i as int, c);
                lemma_mod_shift(self.read as int, self.len as int, i as int, c);
            }
            let idx = wrap_add(wrap_add(self.read, self.len, cap), i, cap);
            self.buf.set(idx, samples[i]);
            proof {
                assert forall|j: int| 0 <= j < c implies #[trigger] self.buf@[j] == if slot_offset(
                    j,
                    w,
                    c,
                ) < i + 1 {
                    samples@[slot_offset(j, w, c)]
                } else {
                    old(self).buf@[j]
                } by {
                    if j != idx as int {
                        lemma_offset_injective(j, idx as int, w, c);
                    }
                }
            }
            i = i + 1;
        }
        self.len = self.len + n;
        proof {
            let nv = self.view();
            let expect = old_view + samples@.subrange(0, n as int);
            assert forall|j: int| 0 <= j < nv.len() implies nv[j] == expect[j] by {
                let slot = (self.read + j) % c;
                lemma_offset_of_any(self.read as int, j, old(self).len as int, c);
                if j < old(self).len {
                    assert(slot_offset(slot, w, c) == c + j - old(self).len);
                } else {
                    assert(slot_offset(slot, w, c) == j - old(self).len);
                }
            }
            assert(nv =~= expect);
        }
        n
    }

    /// Pop up to `out.len()` samples, oldest first, into the front of `out`;
    /// returns how many were read. The rest of `out` is left untouched.
    pub fn pop_samples(&mut self, out: &mut [T]) -> (n: usize)
        requires
            old(self).wf(),
        ensures
            final(self).wf(),
            n == if old(out)@.len() < old(self).view().len() {
                old(out)@.len()
            } else {
                old(self).view().len()
            },
            final(out)@.len() == old(out)@.len(),
            final(out)@.subrange(0, n as int) == old(self).view().subrange(0, n as int),
            final(out)@.subrange(n as int, old(out)@.len() as int) == old(out)@.subrange(
                n as int,
                old(out)@.len() as int,
            ),
            final(self).view() == old(self).view().subrange(n as int, old(self).view().len() as int),
            final(self).spec_capacity() == old(self).spec_capacity(),
            final(self).spec_channels() == old(self).spec_channels(),
            final(self).view().len() <= final(self).spec_capacity(),
    {
        let cap = self.buf.len();
        let n = if out.len() < self.len {
            out.len()
        } else {
            self.len
        };
        let ghost old_view = self.view();
        let mut i: usize = 0;
        while i < n
            invariant
                self.wf(),
                self.buf@.len() == cap,
                *self == *old(self),
                n <= self.len,
                n <= out@.len(),
                out@.len() == old(out)@.len(),
                i <= n,
                old_view == old(self).view(),
                forall|k: int| 0 <= k < i ==> #[trigger] out@[k] == old_view[k],
                forall|k: int| i <= k < out@.len() ==> #[trigger] out@[k] == old(out)@[k],
            decreases n - i,
        {
            let idx = wrap_add(self.read, i, cap);
            out[i] = self.buf[idx];
            i = i + 1;
        }
        self.read = wrap_add(self.read, n, cap);
        self.len = self.len - n;
        proof {
            assert(out@.subrange(0, n as int) =~= old_view.subrange(0, n as int));
            assert(out@.subrange(n as int, out@.len() as int) =~= old(out)@.subrange(
                n as int,
                old(out)@.len() as int,
            ));
            let nv = self.view();
            assert forall|j: int| 0 <= j < nv.len() implies nv[j] == old_view[n + j] by {
                lemma_mod_shift(old(self).read as int, n as int, j, cap as int);
            }
            assert(nv =~= old_view.subrange(n as int, old_view.len() as int));
        }
        n
    }
}

/// How far slot `j` lies past position `base`, going around a ring of `cap`.
pub open spec fn slot_offset(j: int, base: int, cap: int) -> int {
    (j - base) % cap
}

/// The slot `k` past `base` is `k` past `base`.
proof fn lemma_offset_of_slot(base: int, k: int, cap: int)
    requires
        cap > 0,
        base >= 0,
        0 <= k < cap,
    ensures
        slot_offset((base + k) % cap, base, cap) == k,
{
    vstd::arithmetic::div_mod::lemma_sub_mod_noop(base + k, base, cap);
    vstd::arithmetic::div_mod::lemma_mod_twice(base + k, cap);
    vstd::arithmetic::div_mod::lemma_sub_mod_noop_right((base + k) % cap, base, cap);
    vstd::arithmetic::div_mod::lemma_small_mod(k as nat, cap as nat);
}

/// Distinct slots lie at distinct offsets.
proof fn lemma_offset_injective(a: int, b: int, base: int, cap: int)
    requires
        cap > 0,
        0 <= a < cap,
        0 <= b < cap,
        a != b,
    ensures
        slot_offset(a, base, cap) != slot_offset(b, base, cap),
{
    if slot_offset(a, base, cap) == slot_offset(b, base, cap) {
        vstd::arithmetic::div_mod::lemma_sub_mod_noop(a - base, b - base, cap);
        assert((a - base) - (b - base) == a - b);
        vstd::arithmetic::div_mod::lemma_mod_equivalence(a - base, b - base, cap);
        vstd::arithmetic::div_mod::lemma_mod_equivalence(a, b, cap);
        vstd::arithmetic::div_mod::lemma_small_mod(a as nat, cap as nat);
        vstd::arithmetic::div_mod::lemma_small_mod(b as nat, cap as nat);
    }
}

/// The slot `j` past `read` sits `j - len` (around the ring) past
/// `read + len`.
proof fn lemma_offset_of_any(read: int, j: int, len: int, cap: int)
    requires
        cap > 0,
        read >= 0,
        0 <= j < cap,
        0 <= len <= cap,
    ensures
        j < len ==> slot_offset((read + j) % cap, read + len, cap) == cap + j - len,
        j >= len ==> slot_offset((read + j) % cap, read + len, cap) == j - len,
{
    vstd::arithmetic::div_mod::lemma_sub_mod_noop_right(read + len, read + j, cap);
    vstd::arithmetic::div_mod::lemma_sub_mod_noop((read + j) % cap, read + len, cap);
    vstd::arithmetic::div_mod::lemma_mod_twice(read + j, cap);
    vstd::arithmetic::div_mod::lemma_sub_mod_noop(read + j, read + len, cap);
    assert((read + j) - (read + len) == j - len);
    if j < len {
        vstd::arithmetic::div_mod::lemma_mod_add_multiples_vanish(j - len, cap);
        vstd::arithmetic::div_mod::lemma_small_mod((cap + j - len) as nat, cap as nat);
    } else {
        vstd::arithmetic::div_mod::lemma_small_mod((j - len) as nat, cap as nat);
    }
}

/// `(a + b) % cap` for `a < cap` and `b <= cap`, computed without overflow.
fn wrap_add(a: usize, b: usize, cap: usize) -> (r: usize)
    requires
        a < cap,
        b <= cap,
    ensures
        r == (a + b) % (cap as int),
        r < cap,
{
    let room = cap - a;
    if b < room {
        proof {
            vstd::arithmetic::div_mod::lemma_small_mod((a + b) as nat, cap as nat);
        }
        a + b
    } else {
        proof {
            vstd::arithmetic::div_mod::lemma_mod_sub_multiples_vanish((a + b) as int, cap as int);
            vstd::arithmetic::div_mod::lemma_small_mod((b - room) as nat, cap as nat);
        }
        b - room
    }
}

/// Reading `j` past the new start is reading `n + j` past the old one.
proof fn lemma_mod_shift(read: int, n: int, j: int, cap: int)
    requires
        cap > 0,
        read >= 0,
        n >= 0,
        j >= 0,
    ensures
        ((read + n) % cap + j) % cap == (read + (n + j)) % cap,
{
    vstd::arithmetic::div_mod::lemma_add_mod_noop(read + n, j, cap);
    vstd::arithmetic::div_mod::lemma_mod_twice(j, cap);
    vstd::arithmetic::div_mod::lemma_add_mod_noop(read + n, j % cap, cap);
    assert((read + n) + j == read + (n + j));
    vstd::arithmetic::div_mod::lemma_add_mod_noop((read + n) % cap, j, cap);
    vstd::arithmetic::div_mod::lemma_mod_twice(read + n, cap);
}

/// A ring never holds more samples than it has slots.
pub proof fn law_ring_never_overfills<T>(ring: SampleRing<T>)
    requires
        ring.wf(),
    ensures
        ring.view().len() <= ring.spec_capacity(),
        ring.spec_free() + ring.view().len() == ring.spec_capacity(),
{
}

/// A power of two rounding every request exists: the capacity a ring is built
/// with is a power of two, at least the requested size, and less than twice
/// it.
pub proof fn law_capacity_rounding(n: nat)
    ensures
        is_pow2(next_pow2(n)),
        next_pow2(n) >= n,
        next_pow2(n) >= 1,
        n >= 1 ==> next_pow2(n) < 2 * n,
{
    let p = lemma_pow2_exists(n);
    lemma_next_pow2_unique(p, n);
}

/// Constructs the power of two that rounds `n`.
proof fn lemma_pow2_exists(n: nat) -> (p: nat)
    ensures
        is_pow2(p),
        p >= n,
        p == 1 || p / 2 < n,
    decreases n,
{
    if n <= 1 {
        1
    } else {
        let h = lemma_pow2_exists((n + 1) / 2);
        lemma_pow2_double(h);
        if h == 1 {
            assert(n == 2);
        }
        2 * h
    }
}

/// A push offers whole frames that fit: all of them are written. Whatever a
/// push writes fits in the free space, never exceeds what was offered, is a
/// whole number of frames, and leaves less than one frame of the fitting
/// samples behind (nothing is dropped that could have been written).
pub proof fn law_push_accepts_what_fits(offered: nat, free: nat, channels: nat)
    requires
        channels >= 1,
    ensures
        accepted(offered, free, channels) <= offered,
        accepted(offered, free, channels) <= free,
        accepted(offered, free, channels) % channels == 0,
        accepted(offered, free, channels) + channels > (if offered < free {
            offered
        } else {
            free
        }),
        offered <= free && offered % channels == 0 ==> accepted(offered, free, channels)
            == offered,
{
    let fit = if offered < free {
        offered
    } else {
        free
    };
    vstd::arithmetic::div_mod::lemma_fundamental_div_mod(fit as int, channels as int);
    vstd::arithmetic::mul::lemma_mul_is_commutative((fit / channels) as int, channels as int);
    vstd::arithmetic::div_mod::lemma_mod_multiples_basic((fit / channels) as int, channels as int);
}

/// First in, first out: popping `k` samples after a push returns the oldest
/// stored samples followed by the earliest pushed ones, in order; what stays
/// behind is the rest, still in order.
pub proof fn law_fifo_order<T>(stored: Seq<T>, pushed: Seq<T>, n: nat, k: nat)
    requires
        n <= pushed.len(),
        k <= stored.len() + n,
    ensures
        (stored + pushed.subrange(0, n as int)).subrange(0, k as int) == if k <= stored.len() {
            stored.subrange(0, k as int)
        } else {
            stored + pushed.subrange(0, k - stored.len())
        },
        (stored + pushed.subrange(0, n as int)).subrange(0, k as int) + (stored
            + pushed.subrange(0, n as int)).subrange(k as int, (stored.len() + n) as int) == stored
            + pushed.subrange(0, n as int),
{
    let all = stored + pushed.subrange(0, n as int);
    if k <= stored.len() {
        assert(all.subrange(0, k as int) =~= stored.subrange(0, k as int));
    } else {
        assert(all.subrange(0, k as int) =~= stored + pushed.subrange(0, k - stored.len()));
    }
    assert(all.subrange(0, k as int) + all.subrange(k as int, (stored.len() + n) as int) =~= all);
}

/// Create a validated intake ring sized for at least `capacity_frames` frames
/// of headroom (`capacity_frames` of 0 counts as 1), rounded up to a power of
/// two samples. The format is checked first; a bad format is the error.
pub fn intake<T: Copy + Default>(format: AudioFormat, capacity_frames: usize) -> (res: Result<
    SampleRing<T>,
    FormatError,
>)
    requires
        format.is_valid() ==> (if capacity_frames == 0 {
            1
        } else {
            capacity_frames as nat
        }) * (format.channels as nat) <= max_ring_request(),
    ensures
        !rate_in_range(format.sample_rate) ==> res == Err::<SampleRing<T>, FormatError>(
            FormatError::SampleRateOutOfRange(format.sample_rate),
        ),
        rate_in_range(format.sample_rate) && !channels_in_range(format.channels) ==> res == Err::<
            SampleRing<T>,
            FormatError,
        >(FormatError::ChannelsOutOfRange(format.channels)),
        format.is_valid() <==> res is Ok,
        res matches Ok(ring) ==> {
            &&& ring.wf()
            &&& ring.view() == Seq::<T>::empty()
            &&& ring.spec_channels() == format.channels
            &&& ring.view().len() <= ring.spec_capacity()
            &&& ring.spec_capacity() == next_pow2(
                (if capacity_frames == 0 {
                    1
                } else {
                    capacity_frames as nat
                }) * (format.channels as nat),
            )
        },
{
    let format = match format.validate() {
        Ok(f) => f,
        Err(e) => return Err(e),
    };
    let frames = if capacity_frames == 0 {
        1
    } else {
        capacity_frames
    };
    let samples = frames * (format.channels as usize);
    Ok(SampleRing::new(samples, format.channels))
}

} // verus!
