use lmv_core::analysis::{BeatGuard, BeatLatch, HopClock, HopEvent, HOP_SIZE, REFRACTORY_HOPS};
use lmv_core::bands::WINDOW_SIZE;

#[test]
fn the_first_analysis_waits_for_a_full_window() {
    let mut clock = HopClock::new();
    let mut events = Vec::new();
    for _ in 0..(WINDOW_SIZE + 2 * HOP_SIZE) {
        events.push(clock.push_frame());
    }
    for (i, e) in events.iter().enumerate() {
        let n = i + 1;
        let want = if n % HOP_SIZE != 0 {
            HopEvent::Filling
        } else if n < WINDOW_SIZE {
            HopEvent::Warming
        } else {
            HopEvent::Analyze
        };
        assert_eq!(*e, want, "frame {n}");
    }
    // Three warming hops, then an analysis every hop.
    let warming = events.iter().filter(|e| **e == HopEvent::Warming).count();
    let analyses = events.iter().filter(|e| **e == HopEvent::Analyze).count();
    assert_eq!(warming, 3);
    assert_eq!(analyses, 3);
}

#[test]
fn beats_are_held_off_by_the_refractory_period() {
    let mut guard = BeatGuard::new();
    // Over the threshold on every hop: one beat, then REFRACTORY_HOPS silent
    // hops, then the next beat.
    let beats: Vec<bool> = (0..25).map(|_| guard.step(true)).collect();
    let at: Vec<usize> = beats
        .iter()
        .enumerate()
        .filter(|(_, b)| **b)
        .map(|(i, _)| i)
        .collect();
    assert_eq!(at, vec![0, 10, 20]);
    assert_eq!(REFRACTORY_HOPS, 9);
}

#[test]
fn a_quiet_hop_is_never_a_beat_and_the_guard_clears() {
    let mut guard = BeatGuard::new();
    assert!(!guard.step(false));
    assert!(guard.step(true));
    for _ in 0..REFRACTORY_HOPS {
        assert!(!guard.step(true));
    }
    assert!(!guard.step(false));
    assert!(guard.step(true));
}

#[test]
fn a_beat_is_held_until_taken() {
    let mut latch = BeatLatch::new();
    assert!(!latch.take());
    latch.note(false);
    latch.note(true);
    latch.note(false);
    assert!(latch.take());
    assert!(!latch.take());
}

#[test]
fn a_take_reports_any_beat_since_the_last_take() {
    let mut latch = BeatLatch::new();
    for notes in [vec![false, false], vec![true], vec![false, true, false], vec![]] {
        let any = notes.iter().any(|b| *b);
        for b in notes {
            latch.note(b);
        }
        assert_eq!(latch.take(), any);
        assert!(!latch.take());
    }
}
