use lmv_core::bands::{MAG_BINS, WINDOW_SIZE};
use lmv_core::spectrum::{band_of_bin, settle_band_edges, SPECTRUM_BINS};

const BAND_LO_HZ: f32 = 35.0;
const BAND_HI_HZ: f32 = 18_000.0;

/// The log-spaced raw edges, computed the floating-point way.
fn raw_edges(sample_rate: u32) -> [usize; SPECTRUM_BINS + 1] {
    let sr = sample_rate as f32;
    let hi = BAND_HI_HZ.min(sr * 0.45);
    let ratio = hi / BAND_LO_HZ;
    let bin_hz = sr / WINDOW_SIZE as f32;
    let mut edges = [0usize; SPECTRUM_BINS + 1];
    for (k, edge) in edges.iter_mut().enumerate() {
        let f = BAND_LO_HZ * ratio.powf(k as f32 / SPECTRUM_BINS as f32);
        *edge = ((f / bin_hz).round() as usize).clamp(1, MAG_BINS);
    }
    edges
}

#[test]
fn settled_edges_give_every_band_a_bin() {
    for sr in [8_000u32, 22_050, 44_100, 48_000, 96_000, 384_000] {
        let mut edges = raw_edges(sr);
        let raw = edges;
        settle_band_edges(&mut edges);
        assert_eq!(edges[0], raw[0]);
        for k in 1..edges.len() {
            assert!(
                edges[k] > edges[k - 1] || (edges[k] == MAG_BINS && edges[k - 1] == MAG_BINS),
                "rate {sr}, edge {k}"
            );
            let want = if raw[k] <= edges[k - 1] {
                (edges[k - 1] + 1).min(MAG_BINS)
            } else {
                raw[k]
            };
            assert_eq!(edges[k], want);
        }
    }
}

#[test]
fn collapsed_low_edges_are_pushed_apart() {
    let mut edges = [1usize; SPECTRUM_BINS + 1];
    edges[64] = 1024;
    settle_band_edges(&mut edges);
    for (k, e) in edges.iter().enumerate().take(64) {
        assert_eq!(*e, k + 1);
    }
    assert_eq!(edges[64], 1024);

    let mut full = [MAG_BINS; SPECTRUM_BINS + 1];
    settle_band_edges(&mut full);
    assert_eq!(full, [MAG_BINS; SPECTRUM_BINS + 1]);
}

#[test]
fn a_bin_falls_into_the_last_band_starting_at_or_below_it() {
    let mut edges = [0usize; SPECTRUM_BINS + 1];
    for (k, e) in edges.iter_mut().enumerate() {
        *e = 2 + 3 * k;
    }
    assert_eq!(band_of_bin(&edges, 0), 0);
    assert_eq!(band_of_bin(&edges, 2), 0);
    assert_eq!(band_of_bin(&edges, 4), 0);
    assert_eq!(band_of_bin(&edges, 5), 1);
    assert_eq!(band_of_bin(&edges, 1000), 63);
}
