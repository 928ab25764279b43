use lmv_core::ring::SampleRing;

fn spsc(capacity: usize, channels: u16) -> SampleRing<f32> {
    SampleRing::new(capacity, channels)
}

#[test]
fn roundtrip_preserves_order() {
    let mut ring = spsc(8, 1);
    assert_eq!(ring.push_samples(&[1.0, 2.0, 3.0]), 3);
    let mut out = [0.0; 3];
    assert_eq!(ring.pop_samples(&mut out), 3);
    assert_eq!(out, [1.0, 2.0, 3.0]);
}

#[test]
fn wraparound_keeps_data_intact() {
    let mut ring = spsc(4, 1);
    let mut out = [0.0; 4];
    for round in 0..10 {
        let base = round as f32 * 4.0;
        assert_eq!(
            ring.push_samples(&[base, base + 1.0, base + 2.0, base + 3.0]),
            4
        );
        assert_eq!(ring.pop_samples(&mut out), 4);
        assert_eq!(out, [base, base + 1.0, base + 2.0, base + 3.0]);
    }
}

#[test]
fn full_ring_drops_excess_instead_of_blocking() {
    let mut ring = spsc(4, 1);
    assert_eq!(ring.push_samples(&[1.0, 2.0, 3.0, 4.0]), 4);
    assert_eq!(ring.push_samples(&[5.0]), 0);
    let mut out = [0.0; 4];
    assert_eq!(ring.pop_samples(&mut out), 4);
    assert_eq!(out, [1.0, 2.0, 3.0, 4.0]);
    assert_eq!(ring.push_samples(&[5.0]), 1);
    assert_eq!(ring.pop_samples(&mut out[..1]), 1);
    assert_eq!(out[0], 5.0);
}

#[test]
fn capacity_rounds_up_to_a_power_of_two() {
    assert_eq!(spsc(0, 1).capacity(), 1);
    assert_eq!(spsc(1, 1).capacity(), 1);
    assert_eq!(spsc(3, 1).capacity(), 4);
    assert_eq!(spsc(4, 1).capacity(), 4);
    assert_eq!(spsc(5, 1).capacity(), 8);
    assert_eq!(spsc(1000, 2).capacity(), 1024);
}

#[test]
fn pushes_are_rounded_down_to_whole_frames() {
    // Eight slots of three-channel frames: two whole frames fit.
    let mut ring = spsc(8, 3);
    assert_eq!(ring.push_samples(&[1.0, 2.0, 3.0, 4.0, 5.0, 6.0]), 6);
    assert_eq!(ring.available(), 6);
    // Two slots are free, less than a frame: nothing is written.
    assert_eq!(ring.push_samples(&[7.0, 8.0, 9.0]), 0);
    assert_eq!(ring.available(), 6);
    let mut out = [0.0; 6];
    assert_eq!(ring.pop_samples(&mut out), 6);
    assert_eq!(out, [1.0, 2.0, 3.0, 4.0, 5.0, 6.0]);
    // Nine offered into eight free slots: two frames are kept.
    assert_eq!(
        ring.push_samples(&[1.0, 2.0, 3.0, 4.0, 5.0, 6.0, 7.0, 8.0, 9.0]),
        6
    );
}

#[test]
fn pop_fills_only_the_front_and_leaves_the_rest() {
    let mut ring = spsc(8, 1);
    assert_eq!(ring.push_samples(&[1.0, 2.0]), 2);
    let mut out = [9.0; 4];
    assert_eq!(ring.pop_samples(&mut out), 2);
    assert_eq!(out, [1.0, 2.0, 9.0, 9.0]);
    assert_eq!(ring.available(), 0);
    assert_eq!(ring.pop_samples(&mut out), 0);
    assert_eq!(out, [1.0, 2.0, 9.0, 9.0]);
}

#[test]
fn the_stream_stays_in_order_across_many_partial_transfers() {
    let mut ring = spsc(16, 1);
    let mut next_in = 0u32;
    let mut next_out = 0u32;
    for step in 0..500u32 {
        let chunk: Vec<f32> = (0..(step % 7)).map(|k| (next_in + k) as f32).collect();
        let n = ring.push_samples(&chunk);
        next_in += n as u32;
        let mut out = vec![0.0f32; (step % 5) as usize];
        let m = ring.pop_samples(&mut out);
        for v in &out[..m] {
            assert_eq!(*v, next_out as f32);
            next_out += 1;
        }
    }
    assert_eq!(next_in - next_out, ring.available() as u32);
}
