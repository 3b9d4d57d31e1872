use lcg_rand::base::{Randomable, Rng};

fn check_range<T: Randomable + PartialOrd + std::fmt::Debug + Copy>(rng: &mut Rng, min: T, max: T) {
    for _ in 0..100 {
        let value = T::rand_range(rng, min, max).unwrap();
        assert!(
            value >= min && value < max,
            "Value {:?} not in range [{:?}, {:?})",
            value,
            min,
            max
        );
    }
}

fn check_randn<T: Randomable + PartialOrd + std::fmt::Debug + Copy>(rng: &mut Rng, n: T) {
    for _ in 0..100 {
        let value = T::randn(rng, n).unwrap();
        assert!(value < n, "Value {:?} is not less than {:?}", value, n);
    }
}

#[test]
fn test_u64_randomable() {
    let mut rng = Rng::new();
    rng.set_seed(1);
    let value = u64::rand(&mut rng);
    assert_eq!(value, 1103527590, "u64::rand() generated a negative value");

    check_range(&mut rng, 10u64, 100u64);
    check_randn(&mut rng, 50u64);
}

#[test]
fn test_u128_randomable() {
    let mut rng = Rng::new();
    rng.set_seed(1);
    let value = u128::rand(&mut rng);
    assert_eq!(value, 1103527590, "u128::rand() generated a negative value");

    check_range(&mut rng, 100u128, 1000u128);
    check_randn(&mut rng, 500u128);
}

#[test]
fn test_usize_randomable() {
    let mut rng = Rng::new();
    rng.set_seed(1);
    let value = usize::rand(&mut rng);
    assert_eq!(value, 1103527590, "usize::rand() generated a negative value");

    check_range(&mut rng, 5usize, 25usize);
    check_randn(&mut rng, 15usize);
}
