use calc::Rationals;

#[test]
pub fn test_denominator() {
    let expected = Rationals::new(10, 30);
    let result = Rationals::new(2, 6).put_to_denominator(5);
    assert_eq!(expected, result);
}

#[test]
pub fn test_equality_simple() {
    let r1 = Rationals::new(2, 5);
    let r2 = Rationals::new(2, 3);
    assert_eq!(r1 > r2, true);
}

#[test]
pub fn test_equality_hard() {
    let f1 = Rationals::new(2, 3);
    let f2 = Rationals::new(3, 1);
    assert_eq!(f2 < f1, true);
}

#[test]
pub fn test_reduce_one() {
    let f1 = Rationals::new(10, 30);
    assert_eq!(Rationals::new(1, 3), f1.reduce());
}

#[test]
pub fn test_reduce_two() {
    let f1 = Rationals::new(15, 9);
    assert_eq!(Rationals::new(5, 3), f1.reduce());
}

#[test]
fn test_scaling_preserves_value() {
    let r = Rationals::new(2, 6);
    assert_eq!(r.put_to_denominator(5), r);
    assert_eq!(r.put_to_denominator(-7), r);
    let neg = Rationals::new(-3, 4);
    assert_eq!(neg.put_to_denominator(11), neg);
}

#[test]
fn test_equality_reflexive() {
    assert_eq!(Rationals::new(3, 4) == Rationals::new(3, 4), true);
    assert_eq!(Rationals::new(-5, 7) == Rationals::new(-5, 7), true);
}

#[test]
fn test_ordering_cross_multiplies() {
    // 3/1 against 3/2, and 5/2 against 3/2.
    assert!(Rationals::new(1, 3) > Rationals::new(2, 3));
    assert!(Rationals::new(2, 5) > Rationals::new(2, 3));
    // Negative denominators still order by true fraction value.
    assert!(Rationals::new(-2, 1) < Rationals::new(2, 1));
    assert!(Rationals::new(2, -1) < Rationals::new(2, 1));
}

#[test]
fn test_undefined_sentinel_is_distinct() {
    let s = Rationals::new(0, 0).reduce();
    assert_eq!(s, Rationals::new(0, 0));
    assert!(s != Rationals::new(1, 0));
    assert!(s != Rationals::new(1, i64::MAX));
}

#[test]
fn test_zero_denominator_saturates() {
    assert_eq!(Rationals::new(0, 5).reduce(), Rationals::new(1, i64::MAX));
    assert_eq!(Rationals::new(0, -5).reduce(), Rationals::new(1, i64::MAX));
    assert_eq!(Rationals::new(0, 1).reduce(), Rationals::new(1, i64::MAX));
}

#[test]
fn test_reduce_normalizes_sign() {
    assert_eq!(Rationals::new(-4, 2).reduce(), Rationals::new(2, -1));
    assert_eq!(Rationals::new(4, -2).reduce(), Rationals::new(2, -1));
    assert_eq!(Rationals::new(-4, -2).reduce(), Rationals::new(2, 1));
}

#[test]
fn test_gcd() {
    assert_eq!(calc::gcd(12, 18), 6);
    assert_eq!(calc::gcd(7, 0), 7);
    assert_eq!(calc::gcd(0, 7), 7);
    assert_eq!(calc::gcd(35, 64), 1);
}

#[test]
fn test_le_ge() {
    let a = Rationals::new(2, 5);
    let b = Rationals::new(2, 3);
    assert!(b <= a);
    assert!(a >= b);
    assert!(a <= a);
    assert!(a >= a);
    assert!(Rationals::new(10, 30) <= Rationals::new(1, 3));
    assert!(Rationals::new(10, 30) >= Rationals::new(1, 3));
}
