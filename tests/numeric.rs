use collider::scalar::Scalar;
use collider::util::{approx_square_root, quad_root_ascending, OneOrTwo, SqrtError};

fn f(x: f64) -> Scalar {
    Scalar::from_raw((x * 1e9).round() as i128)
}

fn close(a: Scalar, b: f64, tol: f64) -> bool {
    (a.raw as f64 / 1e9 - b).abs() < tol
}

#[test]
fn test_quad_root_ascending() {
    assert!(close(quad_root_ascending(f(1e-14), f(2.0), f(-1.0)).unwrap(), 0.5, 1e-7));
    assert!(close(quad_root_ascending(f(0.0), f(2.0), f(-1.0)).unwrap(), 0.5, 1e-7));
    assert!(close(quad_root_ascending(f(100.0), f(-1.0), f(-1e-16)).unwrap(), 0.01, 1e-7));
    assert!(quad_root_ascending(f(0.0), f(-2.0), f(1.0)).unwrap().is_infinite());
    assert!(quad_root_ascending(f(-3.0), f(0.0), f(-1.0)).is_none());
    assert!(quad_root_ascending(f(1.0), f(1.0), f(1.0)).is_none());
}

#[test]
fn quad_root_exact_value() {
    // x^2 - 3x + 2 has the roots 1 and 2 and rises through 2.
    assert_eq!(quad_root_ascending(f(1.0), f(-3.0), f(2.0)), Some(f(2.0)));
    // -x^2 + 3x - 2 rises through 1.
    assert_eq!(quad_root_ascending(f(-1.0), f(3.0), f(-2.0)), Some(f(1.0)));
}

#[test]
fn square_root_values_and_errors() {
    assert_eq!(approx_square_root(f(9.0), f(0.001)), Ok(f(3.0)));
    assert_eq!(approx_square_root(f(0.0), f(0.001)), Ok(f(0.0)));
    assert_eq!(approx_square_root(f(2.0), f(0.001)), Ok(Scalar::from_raw(1_414_213_562)));
    assert_eq!(approx_square_root(f(-1.0), f(0.001)), Err(SqrtError::NegativeValue));
    assert_eq!(approx_square_root(f(4.0), f(0.0)), Err(SqrtError::NonPositiveEpsilon));
}

#[test]
fn scalar_arithmetic() {
    assert_eq!(f(1.5).add(f(2.25)), f(3.75));
    assert_eq!(f(1.5).sub(f(2.25)), f(-0.75));
    assert_eq!(f(1.5).mul(f(-2.0)), f(-3.0));
    assert_eq!(f(1.0).div(f(4.0)), f(0.25));
    assert_eq!(f(1.0).div(f(0.0)), Scalar::infinity());
    assert_eq!(f(-1.0).div(f(0.0)), Scalar::infinity().neg());
    assert_eq!(Scalar::ratio(1, 3), Scalar::from_raw(333_333_333));
    assert_eq!(Scalar::infinity().add(f(1.0)), Scalar::infinity());
    assert_eq!(f(-3.5).half(), f(-1.75));
    assert_eq!(f(-3.5).abs(), f(3.5));
    assert_eq!(f(2.0).min(f(3.0)), f(2.0));
    assert_eq!(f(2.0).max(f(3.0)), f(3.0));
    assert_eq!(f(16.0).sqrt(), f(4.0));
}

#[test]
fn one_or_two_members() {
    let one = OneOrTwo::One(7);
    let two = OneOrTwo::Two(3, 9);
    assert_eq!(one.other_id(7), None);
    assert_eq!(two.other_id(3), Some(9));
    assert_eq!(two.other_id(9), Some(3));
    let mut it = two.iter();
    assert_eq!(it.next(), Some(3));
    assert_eq!(it.next(), Some(9));
    assert_eq!(it.next(), None);
    let mut it = one.iter();
    assert_eq!(it.next(), Some(7));
    assert_eq!(it.next(), None);
}

#[test]
fn scalar_saturates_at_infinity() {
    let big = Scalar::from_int(i64::MAX);
    assert_eq!(big, Scalar::infinity());
    assert!(big.is_infinite());
    assert_eq!(f(1e6).mul(f(1e6)), Scalar::infinity());
    assert_eq!(f(-1e6).mul(f(1e6)), Scalar::infinity().neg());
    assert_eq!(Scalar::infinity().sub(Scalar::infinity().neg()), Scalar::infinity());
    assert!(!f(1e9).is_infinite());
}

#[test]
fn square_root_of_largest_value() {
    let r = approx_square_root(Scalar::infinity(), f(1.0)).unwrap();
    assert_eq!(r, Scalar::from_raw(100_000_000_000_000));
}
