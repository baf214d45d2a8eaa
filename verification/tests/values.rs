use calculator::environment::Environment;
use calculator::factorial::factorial;
use calculator::value::{Value, E_BITS, PI_BITS};

fn value(x: f64) -> Value {
    Value { bits: x.to_bits() }
}

fn samples() -> Vec<f64> {
    let mut xs = vec![
        0.0,
        -0.0,
        1.0,
        -1.0,
        0.5,
        -0.5,
        2.0,
        2.5,
        3.0,
        -3.0,
        20.0,
        21.0,
        66.0,
        1e15,
        1e15 + 0.5,
        4503599627370496.0,
        4503599627370495.5,
        9007199254740992.0,
        9007199254740993.0,
        9223372036854775808.0,
        18446744073709549568.0,
        18446744073709551616.0,
        1e20,
        1e300,
        -1e300,
        f64::MAX,
        f64::MIN,
        f64::MIN_POSITIVE,
        f64::MIN_POSITIVE / 2.0,
        -f64::MIN_POSITIVE,
        f64::EPSILON,
        1.0 + f64::EPSILON,
        0.1,
        1.0 / 3.0,
        f64::INFINITY,
        f64::NEG_INFINITY,
        f64::NAN,
        -f64::NAN,
    ];
    xs.push(f64::from_bits(1));
    xs.push(f64::from_bits(0x8000_0000_0000_0001));
    xs.push(f64::from_bits(0x7ff0_0000_0000_0001));
    xs.push(f64::from_bits(0xfff8_0000_0000_0000));
    let mut power = 1.0;
    for _ in 0..70 {
        xs.push(power);
        xs.push(power + 1.0);
        xs.push(power - 0.5);
        xs.push(-power);
        xs.push(1.0 / power);
        power *= 2.0;
    }
    xs
}

#[test]
fn zero_test_agrees_with_comparison() {
    for x in samples() {
        assert_eq!(value(x).equals_zero(), x == 0.0, "{x:?}");
    }
}

#[test]
fn sign_test_agrees_with_comparison() {
    for x in samples() {
        assert_eq!(value(x).below_zero(), x < 0.0, "{x:?}");
    }
}

#[test]
fn negate_flips_the_sign() {
    for x in samples() {
        assert_eq!(value(x).negate().bits, (-x).to_bits(), "{x:?}");
    }
    assert_eq!(value(0.0).negate().bits, (-0.0f64).to_bits());
    assert_eq!(value(1.5).negate().negate(), value(1.5));
}

#[test]
fn count_agrees_with_truncating_cast() {
    for x in samples() {
        let expected = if x < 0.0 || x.fract() != 0.0 { None } else { Some(x as u64) };
        assert_eq!(value(x).to_count(), expected, "{x:?}");
    }
}

#[test]
fn count_of_particular_numbers() {
    assert_eq!(value(0.0).to_count(), Some(0));
    assert_eq!(value(-0.0).to_count(), Some(0));
    assert_eq!(value(5.0).to_count(), Some(5));
    assert_eq!(value(2.5).to_count(), None);
    assert_eq!(value(-5.0).to_count(), None);
    assert_eq!(value(9007199254740992.0).to_count(), Some(9007199254740992));
    assert_eq!(value(18446744073709549568.0).to_count(), Some(18446744073709549568));
    assert_eq!(value(18446744073709551616.0).to_count(), Some(u64::MAX));
    assert_eq!(value(1e300).to_count(), Some(u64::MAX));
    assert_eq!(value(f64::INFINITY).to_count(), None);
    assert_eq!(value(f64::NAN).to_count(), None);
}

#[test]
fn constants_are_the_nearest_numbers() {
    assert_eq!(PI_BITS, std::f64::consts::PI.to_bits());
    assert_eq!(E_BITS, std::f64::consts::E.to_bits());
}

#[test]
fn factorial_of_small_numbers() {
    assert_eq!(factorial(0), 1);
    assert_eq!(factorial(1), 1);
    assert_eq!(factorial(2), 2);
    assert_eq!(factorial(3), 6);
    assert_eq!(factorial(5), 120);
    assert_eq!(factorial(10), 3628800);
    assert_eq!(factorial(20), 2432902008176640000);
}

#[test]
fn factorial_wraps_around() {
    let mut expected: u64 = 1;
    for n in 1..=70u64 {
        expected = expected.wrapping_mul(n);
        assert_eq!(factorial(n), expected, "{n}");
    }
    assert_eq!(factorial(21), 14197454024290336768);
    assert_eq!(factorial(65), 9223372036854775808);
    assert_eq!(factorial(66), 0);
    assert_eq!(factorial(1_000_000), 0);
    assert_eq!(factorial(u64::MAX), 0);
}

#[test]
fn defaults_hold_the_constants() {
    let env = Environment::new_with_defaults();
    assert_eq!(env.get(&"pi".to_string()), Some(value(std::f64::consts::PI)));
    assert_eq!(env.get(&"π".to_string()), Some(value(std::f64::consts::PI)));
    assert_eq!(env.get(&"e".to_string()), Some(value(std::f64::consts::E)));
    assert_eq!(env.get(&"x".to_string()), None);
    assert_eq!(env.get(&"PI".to_string()), None);
    assert_eq!(env.get(&"".to_string()), None);
}

#[test]
fn insert_binds_and_replaces() {
    let mut env = Environment::new_with_defaults();
    env.insert("x".to_string(), value(1.0));
    assert_eq!(env.get(&"x".to_string()), Some(value(1.0)));
    env.insert("x".to_string(), value(2.0));
    assert_eq!(env.get(&"x".to_string()), Some(value(2.0)));
    env.insert("Δ".to_string(), value(3.0));
    assert_eq!(env.get(&"Δ".to_string()), Some(value(3.0)));
    assert_eq!(env.get(&"x".to_string()), Some(value(2.0)));
    env.insert("pi".to_string(), value(3.0));
    assert_eq!(env.get(&"pi".to_string()), Some(value(3.0)));
    assert_eq!(env.get(&"π".to_string()), Some(value(std::f64::consts::PI)));
}
