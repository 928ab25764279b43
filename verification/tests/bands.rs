use lmv_core::bands::{BandSplitter, MAG_BINS, WINDOW_SIZE};

/// The bin nearest `hz`, computed the floating-point way.
fn float_bin(hz: f32, sample_rate: u32) -> usize {
    let bin_hz = sample_rate as f32 / WINDOW_SIZE as f32;
    ((hz / bin_hz).round() as usize).clamp(1, MAG_BINS)
}

#[test]
fn band_edges_at_48k() {
    let b = BandSplitter::new(48_000);
    assert_eq!(b.bass(), (1, 11));
    assert_eq!(b.mid(), (11, 171));
    assert_eq!(b.treb(), (171, 768));
}

#[test]
fn band_edges_match_the_float_formula_at_every_supported_rate() {
    for sr in 8_000u32..=384_000 {
        let b = BandSplitter::new(sr);
        assert_eq!(b.bass(), (float_bin(20.0, sr), float_bin(250.0, sr)), "rate {sr}");
        assert_eq!(b.mid(), (float_bin(250.0, sr), float_bin(4_000.0, sr)), "rate {sr}");
        assert_eq!(b.treb(), (float_bin(4_000.0, sr), float_bin(18_000.0, sr)), "rate {sr}");
    }
}

#[test]
fn bands_tile_without_gaps() {
    for sr in [8_000u32, 22_050, 44_100, 48_000, 96_000, 192_000, 384_000] {
        let b = BandSplitter::new(sr);
        assert_eq!(b.bass().1, b.mid().0);
        assert_eq!(b.mid().1, b.treb().0);
        assert!(1 <= b.bass().0 && b.bass().0 <= b.bass().1);
        assert!(b.mid().0 <= b.mid().1 && b.treb().0 <= b.treb().1);
        assert!(b.treb().1 <= MAG_BINS);
    }
}
