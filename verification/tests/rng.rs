use lmv_core::rng::{splitmix_step, SeededRng, GOLDEN_GAMMA};
use lmv_core::signal::{interleave, SplitMix};

/// splitmix64 written out independently.
fn reference(state: &mut u64) -> u64 {
    *state = state.wrapping_add(0x9E37_79B9_7F4A_7C15);
    let mut z = *state;
    z = (z ^ (z >> 30)).wrapping_mul(0xBF58_476D_1CE4_E5B9);
    z = (z ^ (z >> 27)).wrapping_mul(0x94D0_49BB_1331_11EB);
    z ^ (z >> 31)
}

#[test]
fn splitmix_known_first_output() {
    let mut s = 0u64;
    assert_eq!(splitmix_step(&mut s), 0xE220_A839_7B1D_CDAF);
    assert_eq!(s, GOLDEN_GAMMA);
}

#[test]
fn generators_follow_splitmix64() {
    for seed in [0u64, 1, 42, 0xDEAD_BEEF, u64::MAX] {
        let mut a = SeededRng::new(seed);
        let mut b = SplitMix::new(seed);
        let mut r = seed;
        for _ in 0..100 {
            let want = reference(&mut r);
            assert_eq!(a.next_u64(), want);
            assert_eq!(b.next_u64(), want);
        }
    }
}

#[test]
fn the_same_seed_gives_the_same_stream() {
    let mut a = SeededRng::new(7);
    let mut b = SeededRng::new(7);
    let xs: Vec<u64> = (0..50).map(|_| a.next_u64()).collect();
    let ys: Vec<u64> = (0..50).map(|_| b.next_u64()).collect();
    assert_eq!(xs, ys);
    let mut c = SeededRng::new(8);
    assert_ne!(xs[0], c.next_u64());
}

#[test]
fn interleave_repeats_each_sample_per_channel() {
    assert_eq!(interleave(&[1.0f32, 2.0], 2), vec![1.0, 1.0, 2.0, 2.0]);
    assert_eq!(interleave(&[1, 2, 3], 1), vec![1, 2, 3]);
    assert_eq!(interleave(&[1, 2], 0), vec![1, 2]);
    assert_eq!(interleave::<u8>(&[], 4), Vec::<u8>::new());
    assert_eq!(interleave(&[5u8], 3), vec![5, 5, 5]);
}
