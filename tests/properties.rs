use lcg_rand::base::{self, RandError, Randomable};
use lcg_rand::{Random, Rng};

fn all_in_range<T: Randomable + PartialOrd + std::fmt::Debug + Copy>(seed: u128, min: T, max: T) {
    let mut rng = base::Rng::with_seed(seed);
    for _ in 0..1000 {
        let v = T::rand_range(&mut rng, min, max).unwrap();
        assert!(min <= v && v < max, "{:?} not in [{:?}, {:?})", v, min, max);
    }
}

#[test]
fn range_draws_stay_in_range_for_every_width() {
    all_in_range(3, 0u8, 255u8);
    all_in_range(3, 250u8, 251u8);
    all_in_range(3, 1000u16, 1003u16);
    all_in_range(3, 7u32, u32::MAX);
    all_in_range(3, 0u64, u64::MAX);
    all_in_range(3, 5u128, u128::MAX);
    all_in_range(3, 9usize, 10000usize);
    all_in_range(3, i8::MIN, i8::MAX);
    all_in_range(3, -100i16, 100i16);
    all_in_range(3, i32::MIN, -5i32);
    all_in_range(3, i64::MIN, i64::MAX);
    all_in_range(3, i128::MIN, i128::MAX);
    all_in_range(3, -1isize, 0isize);
}

#[test]
fn bounded_draws_stay_below_the_bound() {
    let mut rng = Rng::with_seed(11);
    for n in [1u128, 2, 3, 10, 64, 1000, 1 << 31, (1 << 31) + 1, 1 << 40, u128::MAX] {
        for _ in 0..1000 {
            let v = rng.randn(n).unwrap();
            assert!(v < n);
        }
    }
}

#[test]
fn power_of_two_bound_masks_the_raw_draw() {
    for n in [1u128, 2, 64, 1 << 20, 1 << 31, 1 << 100] {
        let mut a = Rng::with_seed(99);
        let mut b = Rng::with_seed(99);
        for _ in 0..100 {
            assert_eq!(a.randn(n).unwrap(), b.rand() & (n - 1));
            assert_eq!(a.get_seed(), b.get_seed());
        }
    }
}

#[test]
fn bound_above_the_modulus_gives_the_raw_draw() {
    let mut a = Rng::with_seed(5);
    let mut b = Rng::with_seed(5);
    assert_eq!(a.randn((1 << 31) + 1).unwrap(), b.rand());
    assert_eq!(a.randn(u128::MAX).unwrap(), b.rand());
}

#[test]
fn same_seed_gives_same_sequence() {
    let mut a = Rng::with_seed(2024);
    let mut b = Rng::new();
    b.set_seed(2024);
    for i in 0..500u128 {
        assert_eq!(a.rand(), b.rand());
        assert_eq!(a.randn(i + 1), b.randn(i + 1));
        assert_eq!(a.rand_range(i, 3 * i + 7), b.rand_range(i, 3 * i + 7));
    }
    let mut c = base::Rng::with_seed(8);
    let mut d = base::Rng::with_seed(8);
    for _ in 0..200 {
        assert_eq!(i16::rand_range(&mut c, -300, 300), i16::rand_range(&mut d, -300, 300));
        assert_eq!(u64::rand(&mut c), u64::rand(&mut d));
    }
}

fn chi_squared(n: usize) -> (f64, f64) {
    let mut rng = Rng::with_seed(12345);
    let samples = 100_000usize;
    let mut counts = vec![0usize; n];
    for _ in 0..samples {
        counts[rng.randn(n as u128).unwrap() as usize] += 1;
    }
    let expected = samples as f64 / n as f64;
    let chi: f64 = counts
        .iter()
        .map(|&c| (c as f64 - expected) * (c as f64 - expected) / expected)
        .sum();
    let df = (n - 1) as f64;
    (chi, df + 6.0 * (2.0 * df).sqrt())
}

#[test]
fn residues_are_drawn_uniformly() {
    for n in [10usize, 100, 1000] {
        let (chi, limit) = chi_squared(n);
        assert!(chi < limit, "n = {}: chi-squared {} over {}", n, chi, limit);
    }
}

#[test]
fn empty_bound_is_refused_for_every_type() {
    let mut rng = base::Rng::with_seed(1);
    assert_eq!(u8::randn(&mut rng, 0), Err(RandError::InvalidArgument));
    assert_eq!(u16::randn(&mut rng, 0), Err(RandError::InvalidArgument));
    assert_eq!(u32::randn(&mut rng, 0), Err(RandError::InvalidArgument));
    assert_eq!(u64::randn(&mut rng, 0), Err(RandError::InvalidArgument));
    assert_eq!(u128::randn(&mut rng, 0), Err(RandError::InvalidArgument));
    assert_eq!(usize::randn(&mut rng, 0), Err(RandError::InvalidArgument));
    assert_eq!(i8::randn(&mut rng, 0), Err(RandError::InvalidArgument));
    assert_eq!(i16::randn(&mut rng, 0), Err(RandError::InvalidArgument));
    assert_eq!(i32::randn(&mut rng, 0), Err(RandError::InvalidArgument));
    assert_eq!(i64::randn(&mut rng, 0), Err(RandError::InvalidArgument));
    assert_eq!(i128::randn(&mut rng, 0), Err(RandError::InvalidArgument));
    assert_eq!(isize::randn(&mut rng, 0), Err(RandError::InvalidArgument));
    assert_eq!(i32::randn(&mut rng, -4), Err(RandError::InvalidArgument));
    assert_eq!(rng.get_seed(), 1);
    let mut public = Rng::with_seed(1);
    assert_eq!(public.randn(0), Err(RandError::InvalidArgument));
    assert_eq!(Random::new(1).randn(0u64), Err(RandError::InvalidArgument));
}

#[test]
fn empty_range_is_refused() {
    let mut rng = Rng::with_seed(1);
    assert_eq!(rng.rand_range(5, 5), Err(RandError::InvalidArgument));
    assert_eq!(rng.rand_range(6, 5), Err(RandError::InvalidArgument));
    assert_eq!(rng.get_seed(), 1);
    let mut b = base::Rng::with_seed(1);
    assert_eq!(i8::rand_range(&mut b, 3, -3), Err(RandError::InvalidArgument));
    assert_eq!(u32::rand_range(&mut b, 9, 9), Err(RandError::InvalidArgument));
    assert_eq!(Random::new(1).rand_range(2i64, 1i64), Err(RandError::InvalidArgument));
}

#[test]
fn first_draw_from_seed_one() {
    let mut rng = Rng::with_seed(1);
    let expected = (1103515245u128 * 1 + 12345) % (1u128 << 31);
    assert_eq!(expected, 1103527590);
    assert_eq!(rng.rand(), expected);
    assert_eq!(rng.get_seed(), expected);
    assert_eq!(rng.rand(), (1103515245u128 * expected + 12345) % (1u128 << 31));
}

#[test]
fn oversized_seed_is_reduced_before_the_multiply() {
    let mut rng = Rng::with_seed(u128::MAX);
    let expected = (1103515245u128 * (u128::MAX % (1 << 31)) + 12345) % (1 << 31);
    assert_eq!(rng.rand(), expected);
}

#[test]
fn rejection_keeps_only_accepted_draws() {
    // For n = 3 the ceiling is 2^31 - 1 - (2^31 mod 3) = 2^31 - 3.
    let ceiling = (1u128 << 31) - 3;
    for seed in 0..2000u128 {
        let mut a = Rng::with_seed(seed);
        let mut b = Rng::with_seed(seed);
        let mut v = b.rand();
        while v > ceiling {
            v = b.rand();
        }
        assert_eq!(a.randn(3).unwrap(), v % 3);
        assert_eq!(a.get_seed(), b.get_seed());
    }
}

#[test]
fn signed_draws_are_shifted_by_min() {
    let mut a = base::Rng::with_seed(1);
    assert_eq!(i128::rand(&mut a), i128::MIN + 1103527590);
    let mut b = base::Rng::with_seed(1);
    assert_eq!(i8::rand_range(&mut b, -30, -6), Ok(-30 + (1103527590 % 24) as i8));
    let mut c = base::Rng::with_seed(1);
    assert_eq!(i64::rand(&mut c), i64::MIN + 1103527590);
    assert_eq!(7u8.into_randomable(), 7);
}

#[test]
fn unit_grid_takes_the_top_bits() {
    let mut a = base::Rng::with_seed(1);
    assert_eq!(a.unit_grid(24), 1103527590 >> 7);
    let mut b = base::Rng::with_seed(1);
    assert_eq!(b.unit_grid(31), 1103527590);
    for _ in 0..1000 {
        assert!(b.unit_grid(10) < 1024);
    }
}

#[test]
fn shared_callers_interleave_one_sequence() {
    let shared = Random::new(77);
    let mut solo = Rng::with_seed(77);
    let mut seen = std::collections::HashSet::new();
    for _ in 0..300 {
        // two callers take turns on the shared generator
        let first: u128 = shared.rand_range(0, u128::MAX).unwrap();
        let second: u128 = shared.rand_range(0, u128::MAX).unwrap();
        assert_eq!(first, solo.rand());
        assert_eq!(second, solo.rand());
        assert!(seen.insert(first));
        assert!(seen.insert(second));
    }
    shared.set_seed(77);
    let mut again = Rng::with_seed(77);
    assert_eq!(shared.rand::<u64>() as u128, again.rand());
}

#[test]
fn states_do_not_repeat_within_a_stretch() {
    let mut rng = Rng::with_seed(31337);
    let mut seen = std::collections::HashSet::new();
    for _ in 0..200_000 {
        let state = rng.rand();
        assert!(state < (1 << 31));
        assert!(seen.insert(state), "state {} came back", state);
    }
}
