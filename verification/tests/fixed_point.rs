use rand::SeedableRng;
use rand_chacha::ChaCha8Rng;
use simulation::fixed::{
    difference, limit, product, quotient, sum, wrap_from, wrap_upto, FRAC_PI_2, FRAC_PI_4, PI,
    SCALE, TAU,
};
use simulation::random::{
    draw_rotation, draw_signed_unit, draw_unit, word_to_rotation, word_to_signed_unit,
    word_to_unit,
};

#[test]
fn constants_are_millionths() {
    assert_eq!(SCALE, 1_000_000);
    assert_eq!(PI, (std::f64::consts::PI * 1e6).round() as i64);
    assert_eq!(FRAC_PI_2, (std::f64::consts::FRAC_PI_2 * 1e6).round() as i64);
    assert_eq!(FRAC_PI_4, (std::f64::consts::FRAC_PI_4 * 1e6).round() as i64);
    assert_eq!(TAU, 2 * PI);
}

#[test]
fn sum_and_difference_saturate() {
    assert_eq!(sum(2, 3), 5);
    assert_eq!(sum(i64::MAX, 1), i64::MAX);
    assert_eq!(sum(i64::MIN, -1), i64::MIN);
    assert_eq!(difference(2, 3), -1);
    assert_eq!(difference(i64::MIN, 1), i64::MIN);
    assert_eq!(difference(i64::MAX, -1), i64::MAX);
    assert_eq!(difference(0, i64::MIN), i64::MAX);
}

#[test]
fn product_is_scaled_and_rounded_down() {
    assert_eq!(product(500_000, 500_000), 250_000);
    assert_eq!(product(-300_000, 500_000), -150_000);
    assert_eq!(product(1, 1), 0);
    assert_eq!(product(-1, 1), -1);
    assert_eq!(product(3, 500_000), 1);
    assert_eq!(product(-3, 500_000), -2);
    assert_eq!(product(i64::MAX, i64::MAX), i64::MAX);
    assert_eq!(product(i64::MAX, i64::MIN), i64::MIN);
    assert_eq!(product(i64::MIN, i64::MIN), i64::MAX);
}

#[test]
fn quotient_is_scaled_and_rounded_down() {
    assert_eq!(quotient(500_000, 1_000_000), 500_000);
    assert_eq!(quotient(1_000_000, 3_000_000), 333_333);
    assert_eq!(quotient(-1_000_000, 3_000_000), -333_334);
    assert_eq!(quotient(0, 5), 0);
    assert_eq!(quotient(i64::MAX, 1), i64::MAX);
    assert_eq!(quotient(i64::MIN, 1), i64::MIN);
}

#[test]
fn limit_holds_between_bounds() {
    assert_eq!(limit(5, 0, 10), 5);
    assert_eq!(limit(-5, 0, 10), 0);
    assert_eq!(limit(15, 0, 10), 10);
    assert_eq!(limit(3, 3, 3), 3);
}

#[test]
fn wrap_from_includes_the_lower_end() {
    assert_eq!(wrap_from(0, 0, SCALE), 0);
    assert_eq!(wrap_from(SCALE, 0, SCALE), 0);
    assert_eq!(wrap_from(SCALE - 1, 0, SCALE), SCALE - 1);
    assert_eq!(wrap_from(-1, 0, SCALE), SCALE - 1);
    assert_eq!(wrap_from(2 * SCALE + 7, 0, SCALE), 7);
    assert_eq!(wrap_from(-3 * SCALE - 7, 0, SCALE), SCALE - 7);
    assert_eq!(wrap_from(i64::MAX, i64::MIN, i64::MAX), i64::MIN);
    assert_eq!(wrap_from(i64::MIN, 0, 10), 2);
}

#[test]
fn wrap_upto_includes_the_upper_end() {
    assert_eq!(wrap_upto(PI, -PI, PI), PI);
    assert_eq!(wrap_upto(-PI, -PI, PI), PI);
    assert_eq!(wrap_upto(-PI + 1, -PI, PI), -PI + 1);
    assert_eq!(wrap_upto(PI + 1, -PI, PI), -PI + 1);
    assert_eq!(wrap_upto(0, -PI, PI), 0);
    assert_eq!(wrap_upto(3 * TAU + 5, -PI, PI), 5);
    assert_eq!(wrap_upto(-2 * TAU - 5, -PI, PI), -5);
}

#[test]
fn words_become_numbers() {
    assert_eq!(word_to_unit(0), 0);
    assert_eq!(word_to_unit(0xff), 0);
    assert_eq!(word_to_unit(0x8000_0000), 500_000);
    assert_eq!(word_to_unit(u32::MAX), 999_999);
    assert_eq!(word_to_signed_unit(0), -1_000_000);
    assert_eq!(word_to_signed_unit(u32::MAX), 1_000_000);
    assert_eq!(word_to_signed_unit(0x8000_0000), 0);
    assert_eq!(word_to_signed_unit(0x4000_0000), -500_000);
    assert_eq!(word_to_rotation(0), 0);
    assert_eq!(word_to_rotation(0x4000_0000), 1_570_796);
    assert_eq!(word_to_rotation(0x8000_0000), PI);
    assert_eq!(word_to_rotation(0xc000_0000), 4_712_389 - TAU);
    assert_eq!(word_to_rotation(u32::MAX), -1);
}

#[test]
fn draws_stay_in_their_ranges_and_vary() {
    let mut rng = ChaCha8Rng::seed_from_u64(3);
    let units: Vec<i64> = (0..200).map(|_| draw_unit(&mut rng)).collect();
    assert!(units.iter().all(|unit| (0..SCALE).contains(unit)));
    assert!(units.iter().any(|unit| *unit != units[0]));
    let signed: Vec<i64> = (0..200).map(|_| draw_signed_unit(&mut rng)).collect();
    assert!(signed.iter().all(|unit| (-SCALE..=SCALE).contains(unit)));
    assert!(signed.iter().any(|unit| *unit < 0) && signed.iter().any(|unit| *unit > 0));
    let rotations: Vec<i64> = (0..200).map(|_| draw_rotation(&mut rng)).collect();
    assert!(rotations.iter().all(|rotation| -PI < *rotation && *rotation <= PI));
    assert!(rotations.iter().any(|r| *r < 0) && rotations.iter().any(|r| *r > 0));
}

#[test]
fn draws_follow_the_seed() {
    let mut first = ChaCha8Rng::seed_from_u64(11);
    let mut second = ChaCha8Rng::seed_from_u64(11);
    for _ in 0..50 {
        assert_eq!(draw_signed_unit(&mut first), draw_signed_unit(&mut second));
    }
}
