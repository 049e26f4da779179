use linalg::KField;

#[test]
fn identities() {
    assert_eq!(<i64 as KField>::zero(), 0);
    assert_eq!(<i64 as KField>::one(), 1);
}

#[test]
fn sums_differences_and_products() {
    assert_eq!(KField::add(2i64, 3), 5);
    assert_eq!(KField::sub(2i64, 3), -1);
    assert_eq!(KField::mul(-4i64, 3), -12);
}

#[test]
fn arithmetic_wraps_around() {
    assert_eq!(KField::add(i64::MAX, 1), i64::MIN);
    assert_eq!(KField::sub(i64::MIN, 1), i64::MAX);
    assert_eq!(KField::mul(i64::MAX, 2), -2);
    assert_eq!(KField::mul(i64::MIN, -1), i64::MIN);
}

#[test]
fn quotients_round_towards_zero() {
    assert_eq!(KField::div(7i64, 2), 3);
    assert_eq!(KField::div(-7i64, 2), -3);
    assert_eq!(KField::div(7i64, -2), -3);
    assert_eq!(KField::div(-7i64, -2), 3);
    assert_eq!(KField::div(0i64, 5), 0);
}

#[test]
fn quotient_by_zero_is_zero() {
    assert_eq!(KField::div(7i64, 0), 0);
    assert_eq!(KField::div(-7i64, 0), 0);
}

#[test]
fn quotient_that_does_not_fit_wraps() {
    assert_eq!(KField::div(i64::MIN, -1), i64::MIN);
}

#[test]
fn order_is_strict() {
    assert!(KField::lt(-1i64, 0));
    assert!(!KField::lt(0i64, 0));
    assert!(!KField::lt(1i64, 0));
}
