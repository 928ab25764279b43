use lmv_core::stats::{FrameStats, RING};

/// Mean of the retained durations, in milliseconds.
fn frame_ms_avg(stats: &FrameStats<f32>) -> f32 {
    let s = stats.samples();
    if s.is_empty() {
        return 0.0;
    }
    s.iter().sum::<f32>() / s.len() as f32 * 1000.0
}

/// Frames per second over the retained window.
fn fps(stats: &FrameStats<f32>) -> f32 {
    let total: f32 = stats.samples().iter().sum();
    if total <= 0.0 {
        return 0.0;
    }
    stats.len() as f32 / total
}

/// Nearest-rank 99th percentile of the retained durations, in milliseconds.
fn frame_ms_p99(stats: &FrameStats<f32>) -> f32 {
    let mut s = stats.samples();
    if s.is_empty() {
        return 0.0;
    }
    s.sort_by(f32::total_cmp);
    let idx = ((s.len() - 1) as f32 * 0.99).round() as usize;
    s[idx] * 1000.0
}

#[test]
fn frame_stats_computes_known_sequence() {
    let mut stats = FrameStats::new();
    // 100 frames of 1..=100 ms. Sum = 5050 ms = 5.05 s.
    for ms in 1..=100u32 {
        stats.record(ms as f32 / 1000.0);
    }
    assert_eq!(stats.frames_total(), 100);
    assert!((fps(&stats) - 19.801_98).abs() < 1e-2, "fps was {}", fps(&stats));
    assert!(
        (frame_ms_avg(&stats) - 50.5).abs() < 1e-3,
        "avg was {}",
        frame_ms_avg(&stats)
    );
    assert!(
        (frame_ms_p99(&stats) - 99.0).abs() < 1e-3,
        "p99 was {}",
        frame_ms_p99(&stats)
    );
}

#[test]
fn frame_stats_empty_is_zero() {
    let stats: FrameStats<f32> = FrameStats::new();
    assert_eq!(fps(&stats), 0.0);
    assert_eq!(frame_ms_avg(&stats), 0.0);
    assert_eq!(frame_ms_p99(&stats), 0.0);
}

#[test]
fn frame_stats_ring_wraps_to_recent() {
    let mut stats = FrameStats::new();
    // Fill with 5 ms, then overwrite the whole ring with 20 ms.
    for _ in 0..RING {
        stats.record(0.005f32);
    }
    for _ in 0..RING {
        stats.record(0.020f32);
    }
    assert_eq!(stats.frames_total(), (RING * 2) as u64);
    // Only the 20 ms samples remain -> avg 20 ms, fps 50.
    assert!((frame_ms_avg(&stats) - 20.0).abs() < 1e-3);
    assert!((fps(&stats) - 50.0).abs() < 1e-2);
}

#[test]
fn samples_are_chronological_after_wrap() {
    let mut stats = FrameStats::new();
    for i in 0..(RING + 10) {
        stats.record(i as f32);
    }
    let got: Vec<f32> = stats.samples();
    assert_eq!(got.len(), RING);
    // The oldest retained sample is (RING + 10) - RING = 10; last is RING+9.
    assert_eq!(got.first().copied(), Some(10.0));
    assert_eq!(got.last().copied(), Some((RING + 9) as f32));
}

#[test]
fn an_empty_window_has_no_samples() {
    let stats: FrameStats<f32> = FrameStats::new();
    assert_eq!(stats.len(), 0);
    assert!(stats.samples().is_empty());
    assert_eq!(stats.frames_total(), 0);
    assert_eq!(stats.frames_dropped(), 0);
}

#[test]
fn the_window_holds_the_last_ring_samples_in_order() {
    let mut stats = FrameStats::new();
    for i in 0..5u32 {
        stats.record(i);
    }
    assert_eq!(stats.samples(), vec![0, 1, 2, 3, 4]);
    for i in 5..1000u32 {
        stats.record(i);
    }
    let expect: Vec<u32> = (1000 - RING as u32..1000).collect();
    assert_eq!(stats.samples(), expect);
    assert_eq!(stats.len(), RING);
    assert_eq!(stats.frames_total(), 1000);
}

#[test]
fn dropped_frames_are_counted_apart() {
    let mut stats = FrameStats::new();
    stats.record(1u32);
    stats.record_dropped();
    stats.record_dropped();
    assert_eq!(stats.frames_total(), 1);
    assert_eq!(stats.frames_dropped(), 2);
    assert_eq!(stats.samples(), vec![1]);
}
