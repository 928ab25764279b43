//! Band-energy split bookkeeping: the linear FFT-bin ranges of the bass, mid
//! and treble bands for a sample rate.
use vstd::prelude::*;

verus! {

/// FFT window length in samples.
pub const WINDOW_SIZE: usize = 2048;
/// Linear magnitude bins available (one-sided spectrum).
pub const MAG_BINS: usize = 1024;
/// Lower edge of the bass band (Hz); bass starts above DC and rumble.
pub const BASS_LO_HZ: u64 = 20;
/// Bass/mid boundary (Hz).
pub const BASS_HI_HZ: u64 = 250;
/// Mid/treble boundary (Hz).
pub const MID_HI_HZ: u64 = 4_000;
/// Upper edge of the treble band (Hz), clamped to Nyquist on low rates.
pub const TREB_HI_HZ: u64 = 18_000;

/// The linear bin nearest `hz` at `sample_rate` (each bin is
/// `sample_rate / WINDOW_SIZE` Hz wide; halves round up), kept in
/// `1..=MAG_BINS` since bin 0 is DC. A zero rate puts every frequency past
/// the last bin.
pub open spec fn nearest_bin(hz: nat, sample_rate: nat) -> nat {
    if sample_rate == 0 {
        MAG_BINS as nat
    } else {
        let r = (2 * hz * (WINDOW_SIZE as nat) + sample_rate) / (2 * sample_rate);
        if r < 1 {
            1
        } else if r > MAG_BINS {
            MAG_BINS as nat
        } else {
            r
        }
    }
}

fn bin_for(hz: u64, sample_rate: u32) -> (b: usize)
    requires
        hz <= TREB_HI_HZ,
    ensures
        b == nearest_bin(hz as nat, sample_rate as nat),
        1 <= b <= MAG_BINS,
{
    if sample_rate == 0 {
        return MAG_BINS;
    }
    let sr = sample_rate as u64;
    let r = (2 * hz * 2048 + sr) / (2 * sr);
    if r < 1 {
        1
    } else if r > 1024 {
        MAG_BINS
    } else {
        r as usize
    }
}

/// Precomputed half-open `(lo, hi)` linear-bin ranges for the three bands.
pub struct BandSplitter {
    bass: (usize, usize),
    mid: (usize, usize),
    treb: (usize, usize),
}

impl BandSplitter {
    /// The bass range.
    pub closed spec fn spec_bass(&self) -> (usize, usize) {
        self.bass
    }

    /// The mid range.
    pub closed spec fn spec_mid(&self) -> (usize, usize) {
        self.mid
    }

    /// The treble range.
    pub closed spec fn spec_treb(&self) -> (usize, usize) {
        self.treb
    }

    /// Precompute the per-band bin ranges for `sample_rate`: bass from 20 Hz
    /// to 250 Hz, mid up to 4 kHz, treble up to 18 kHz, each edge at its
    /// nearest bin.
    pub fn new(sample_rate: u32) -> (s: Self)
        ensures
            s.spec_bass() == (
                nearest_bin(BASS_LO_HZ as nat, sample_rate as nat) as usize,
                nearest_bin(BASS_HI_HZ as nat, sample_rate as nat) as usize,
            ),
            s.spec_mid() == (
                nearest_bin(BASS_HI_HZ as nat, sample_rate as nat) as usize,
                nearest_bin(MID_HI_HZ as nat, sample_rate as nat) as usize,
            ),
            s.spec_treb() == (
                nearest_bin(MID_HI_HZ as nat, sample_rate as nat) as usize,
                nearest_bin(TREB_HI_HZ as nat, sample_rate as nat) as usize,
            ),
    {
        let bass_lo = bin_for(BASS_LO_HZ, sample_rate);
        let bass_hi = bin_for(BASS_HI_HZ, sample_rate);
        let mid_hi = bin_for(MID_HI_HZ, sample_rate);
        let treb_hi = bin_for(TREB_HI_HZ, sample_rate);
        BandSplitter { bass: (bass_lo, bass_hi), mid: (bass_hi, mid_hi), treb: (mid_hi, treb_hi) }
    }

    /// The bass band's half-open bin range.
    pub fn bass(&self) -> (r: (usize, usize))
        ensures
            r == self.spec_bass(),
    {
        self.bass
    }

    /// The mid band's half-open bin range.
    pub fn mid(&self) -> (r: (usize, usize))
        ensures
            r == self.spec_mid(),
    {
        self.mid
    }

    /// The treble band's half-open bin range.
    pub fn treb(&self) -> (r: (usize, usize))
        ensures
            r == self.spec_treb(),
    {
        self.treb
    }
}

/// The band edges never decrease with frequency, so the three bands tile
/// `[bass lo, treble hi)` without gaps or overlaps, inside `1..=MAG_BINS`.
pub proof fn law_bands_tile_the_spectrum(sample_rate: nat)
    ensures
        nearest_bin(BASS_LO_HZ as nat, sample_rate) <= nearest_bin(BASS_HI_HZ as nat, sample_rate),
        nearest_bin(BASS_HI_HZ as nat, sample_rate) <= nearest_bin(MID_HI_HZ as nat, sample_rate),
        nearest_bin(MID_HI_HZ as nat, sample_rate) <= nearest_bin(TREB_HI_HZ as nat, sample_rate),
        1 <= nearest_bin(BASS_LO_HZ as nat, sample_rate),
        nearest_bin(TREB_HI_HZ as nat, sample_rate) <= MAG_BINS,
{
    if sample_rate > 0 {
        lemma_bin_monotone(BASS_LO_HZ as nat, BASS_HI_HZ as nat, sample_rate);
        lemma_bin_monotone(BASS_HI_HZ as nat, MID_HI_HZ as nat, sample_rate);
        lemma_bin_monotone(MID_HI_HZ as nat, TREB_HI_HZ as nat, sample_rate);
    }
}

proof fn lemma_bin_monotone(a: nat, b: nat, sr: nat)
    requires
        a <= b,
        sr > 0,
    ensures
        nearest_bin(a, sr) <= nearest_bin(b, sr),
{
    let x = 2 * a * 2048 + sr;
    let y = 2 * b * 2048 + sr;
    assert(x <= y) by (nonlinear_arith)
        requires
            a <= b,
            x == 2 * a * 2048 + sr,
            y == 2 * b * 2048 + sr,
    ;
    vstd::arithmetic::div_mod::lemma_div_is_ordered(x as int, y as int, (2 * sr) as int);
}

/// The bin of a frequency is the nearest one: no bin in `1..=MAG_BINS`
/// lies closer to `hz` than the chosen one (distances measured as
/// `|bin * sample_rate - hz * WINDOW_SIZE|`, i.e. in units of
/// `1 / WINDOW_SIZE` Hz).
pub proof fn law_bin_is_nearest(hz: nat, sample_rate: nat, k: nat)
    requires
        sample_rate > 0,
        1 <= k <= MAG_BINS,
    ensures
        1 <= nearest_bin(hz, sample_rate) <= MAG_BINS,
        dist(nearest_bin(hz, sample_rate), hz, sample_rate) <= dist(k, hz, sample_rate),
{
    let target = hz * 2048;
    let sr = sample_rate;
    let r = (2 * hz * 2048 + sr) / (2 * sr);
    let num = (2 * hz * 2048 + sr) as int;
    let den = (2 * sr) as int;
    vstd::arithmetic::div_mod::lemma_fundamental_div_mod(num, den);
    vstd::arithmetic::div_mod::lemma_mod_bound(num, den);
    assert(r * (2 * sr) <= 2 * target + sr < (r + 1) * (2 * sr)) by (nonlinear_arith)
        requires
            r == num / den,
            num == den * (num / den) + num % den,
            0 <= num % den < den,
            num == 2 * target + sr,
            den == 2 * sr,
            target == hz * 2048,
            sr > 0,
    ;
    // Distances as integers: |r*sr - target| <= sr/2 <= |k*sr - target| for k != r.
    let n = nearest_bin(hz, sr);
    let ki = k as int;
    let ni = n as int;
    let si = sr as int;
    if ki < ni {
        vstd::arithmetic::mul::lemma_mul_inequality(ki, ni - 1, si);
        vstd::arithmetic::mul::lemma_mul_is_distributive_sub(si, ni, 1);
        assert(ki * si <= ni * si - si);
    } else if ki > ni {
        vstd::arithmetic::mul::lemma_mul_inequality(ni + 1, ki, si);
        vstd::arithmetic::mul::lemma_mul_is_distributive_add(si, ni, 1);
        assert(ki * si >= ni * si + si);
    }
    assert(dist(n, hz, sr) <= dist(k, hz, sr)) by (nonlinear_arith)
        requires
            r * (2 * sr) <= 2 * target + sr < (r + 1) * (2 * sr),
            target == hz * 2048,
            sr > 0,
            1 <= k <= 1024,
            k < n ==> k * sr <= n * sr - sr,
            k > n ==> k * sr >= n * sr + sr,
            n == (if r < 1 {
                1
            } else if r > 1024 {
                1024
            } else {
                r
            }),
            dist(n, hz, sr) == (if n * sr >= target {
                n * sr - target
            } else {
                target - n * sr
            }),
            dist(k, hz, sr) == (if k * sr >= target {
                k * sr - target
            } else {
                target - k * sr
            }),
    ;
}

/// `|bin * sample_rate - hz * WINDOW_SIZE|`.
pub open spec fn dist(bin: nat, hz: nat, sample_rate: nat) -> int {
    if bin * sample_rate >= hz * 2048 {
        bin * sample_rate - hz * 2048
    } else {
        hz * 2048 - bin * sample_rate
    }
}

} // verus!
