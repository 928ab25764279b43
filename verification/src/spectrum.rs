//! The integer side of the log-frequency band spectrum: settling the band
//! edges so every band owns at least one linear bin, and finding the band a
//! linear bin falls into.
use vstd::prelude::*;

use crate::bands::MAG_BINS;

verus! {

/// Log-frequency bands exposed to scenes.
pub const SPECTRUM_BINS: usize = 64;

/// The next settled edge after `prev`: `raw` if it lies above `prev`,
/// otherwise one past `prev`, never beyond the last bin.
pub open spec fn next_edge(prev: usize, raw: usize) -> usize {
    if raw <= prev {
        if prev + 1 <= MAG_BINS {
            (prev + 1) as usize
        } else {
            MAG_BINS
        }
    } else {
        raw
    }
}

/// The settled edges of `raw`: the first edge stays, and each later edge is
/// pushed past its predecessor (up to the last bin).
pub open spec fn settled(raw: Seq<usize>) -> Seq<usize>
    decreases raw.len(),
{
    if raw.len() <= 1 {
        raw
    } else {
        let s = settled(raw.drop_last());
        s.push(next_edge(s.last(), raw.last()))
    }
}

proof fn lemma_settled_len(raw: Seq<usize>)
    ensures
        settled(raw).len() == raw.len(),
        raw.len() > 0 ==> settled(raw)[0] == raw[0],
    decreases raw.len(),
{
    if raw.len() > 1 {
        lemma_settled_len(raw.drop_last());
    }
}

/// Settle band edges in place so that every band `k` (the bins
/// `edges[k]..edges[k + 1]`) holds at least one bin wherever the bins allow:
/// low bands collapse when the log curve is flatter than one linear bin.
pub fn settle_band_edges(edges: &mut [usize; 65])
    ensures
        final(edges)@ == settled(old(edges)@),
{
    let ghost raw = edges@;
    proof {
        lemma_settled_len(raw.take(1));
        assert(raw.take(1) =~= seq![raw[0]]);
    }
    let mut k: usize = 1;
    while k < 65
        invariant
            1 <= k <= 65,
            raw.len() == 65,
            edges@.len() == 65,
            edges@.take(k as int) == settled(raw.take(k as int)),
            edges@.skip(k as int) == raw.skip(k as int),
        decreases 65 - k,
    {
        proof {
            lemma_settled_len(raw.take(k as int));
            assert(raw.take(k + 1).drop_last() =~= raw.take(k as int));
            assert(edges@[k as int] == raw[k as int]) by {
                assert(edges@.skip(k as int)[0] == raw.skip(k as int)[0]);
            }
            assert(edges@[k - 1] == edges@.take(k as int).last());
        }
        let ghost before = edges@;
        let prev = edges[k - 1];
        if edges[k] <= prev {
            edges[k] = if prev < MAG_BINS {
                prev + 1
            } else {
                MAG_BINS
            };
        }
        assert(edges@.take(k + 1) =~= edges@.take(k as int).push(edges@[k as int]));
        assert(edges@.skip(k + 1) =~= before.skip(k + 1));
        assert forall|i: int| 0 <= i < 65 - (k + 1) implies #[trigger] before.skip(k + 1)[i] == raw.skip(
            k + 1,
        )[i] by {
            assert(before.skip(k + 1)[i] == before.skip(k as int)[i + 1]);
            assert(raw.skip(k + 1)[i] == raw.skip(k as int)[i + 1]);
        }
        assert(before.skip(k + 1) =~= raw.skip(k + 1));
        k = k + 1;
    }
    assert(edges@ =~= edges@.take(65));
    assert(raw =~= raw.take(65));
}

/// Settled edges within the bins climb: each edge is one past its
/// predecessor or more, unless the predecessor already sits on the last bin.
pub proof fn law_settled_bands_are_nonempty(raw: Seq<usize>)
    requires
        forall|i: int| 0 <= i < raw.len() ==> raw[i] <= MAG_BINS,
    ensures
        settled(raw).len() == raw.len(),
        forall|k: int|
            1 <= k < raw.len() ==> #[trigger] settled(raw)[k] > settled(raw)[k - 1] || (settled(
                raw,
            )[k] == MAG_BINS && settled(raw)[k - 1] == MAG_BINS),
        forall|k: int| 0 <= k < raw.len() ==> settled(raw)[k] <= MAG_BINS,
    decreases raw.len(),
{
    lemma_settled_len(raw);
    if raw.len() > 1 {
        let init = raw.drop_last();
        law_settled_bands_are_nonempty(init);
        let s = settled(init);
        assert(settled(raw) == s.push(next_edge(s.last(), raw.last())));
        assert forall|k: int| 1 <= k < raw.len() implies #[trigger] settled(raw)[k] > settled(raw)[k
            - 1] || (settled(raw)[k] == MAG_BINS && settled(raw)[k - 1] == MAG_BINS) by {
            if k < raw.len() - 1 {
                assert(settled(raw)[k] == s[k] && settled(raw)[k - 1] == s[k - 1]);
            }
        }
        assert forall|k: int| 0 <= k < raw.len() implies settled(raw)[k] <= MAG_BINS by {
            if k < raw.len() - 1 {
                assert(settled(raw)[k] == s[k]);
            }
        }
    }
}

/// The last band among the first `n` whose start is at or below `bin`, or
/// band 0 when none is.
pub open spec fn band_at(edges: Seq<usize>, bin: usize, n: int) -> usize
    decreases n,
{
    if n <= 0 {
        0
    } else if edges[n - 1] <= bin {
        (n - 1) as usize
    } else {
        band_at(edges, bin, n - 1)
    }
}

/// The band a linear bin falls into: the last band whose start edge is at or
/// below the bin (band 0 if the bin lies below every band).
pub fn band_of_bin(edges: &[usize; 65], bin: usize) -> (band: usize)
    ensures
        band == band_at(edges@, bin, SPECTRUM_BINS as int),
        band < SPECTRUM_BINS,
{
    let mut k: usize = SPECTRUM_BINS;
    while k > 0
        invariant
            k <= SPECTRUM_BINS,
            edges@.len() == 65,
            band_at(edges@, bin, SPECTRUM_BINS as int) == band_at(edges@, bin, k as int),
        decreases k,
    {
        if edges[k - 1] <= bin {
            return k - 1;
        }
        k = k - 1;
    }
    0
}

} // verus!
