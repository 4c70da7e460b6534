use lab2::decimal::{push_decimal, push_digits};
use lab2::fraction::Fraction;

#[test]
fn zero_denominator_is_rejected() {
    assert!(Fraction::new(1, 0).is_none());
    assert!(Fraction::new(0, 0).is_none());
    assert!(Fraction::new(i32::MIN, 0).is_none());
}

#[test]
fn other_denominators_are_accepted() {
    for denominator in [1u32, 2, 7, 1000, u32::MAX] {
        let fraction = Fraction::new(-3, denominator).unwrap();
        assert_eq!(fraction.numerator(), -3);
        assert_eq!(fraction.denominator(), denominator);
    }
}

#[test]
fn fractions_are_not_reduced() {
    let half = Fraction::new(1, 2).unwrap();
    let two_quarters = Fraction::new(2, 4).unwrap();
    assert!(half != two_quarters);
    assert_eq!(two_quarters.numerator(), 2);
    assert_eq!(two_quarters.denominator(), 4);
    assert_eq!(two_quarters.label(), "2/4");
    assert_eq!(half.label(), "1/2");
}

#[test]
fn fractions_are_equal_field_by_field() {
    let a = Fraction::new(3, 4).unwrap();
    let b = Fraction::new(3, 4).unwrap();
    let c = Fraction::new(-3, 4).unwrap();
    let d = Fraction::new(3, 5).unwrap();
    assert!(a == b);
    assert!(a != c);
    assert!(a != d);
    assert!(Fraction::new(0, 1).unwrap() != Fraction::new(0, 2).unwrap());
}

#[test]
fn fraction_labels() {
    assert_eq!(Fraction::new(0, 1).unwrap().label(), "0/1");
    assert_eq!(Fraction::new(-3, 4).unwrap().label(), "-3/4");
    assert_eq!(Fraction::new(10, 100).unwrap().label(), "10/100");
    assert_eq!(Fraction::new(i32::MAX, u32::MAX).unwrap().label(), "2147483647/4294967295");
    assert_eq!(Fraction::new(i32::MIN, 1).unwrap().label(), "-2147483648/1");
}

#[test]
fn fraction_label_is_that_of_the_formatter() {
    for (numerator, denominator) in [(1i32, 2u32), (-17, 3), (120, 7), (-2147483648, 4294967295)] {
        let fraction = Fraction::new(numerator, denominator).unwrap();
        assert_eq!(fraction.label(), format!("{}/{}", numerator, denominator));
    }
}

#[test]
fn digits_of_naturals() {
    for n in [0u64, 1, 9, 10, 11, 99, 100, 101, 12345, u32::MAX as u64, u64::MAX] {
        let mut text = String::new();
        push_digits(&mut text, n);
        assert_eq!(text, n.to_string());
    }
}

#[test]
fn digits_are_appended() {
    let mut text = String::from("n=");
    push_digits(&mut text, 407);
    assert_eq!(text, "n=407");
    push_decimal(&mut text, -3);
    assert_eq!(text, "n=407-3");
}

#[test]
fn decimal_of_integers() {
    for n in [0i64, 1, -1, 9, -9, 10, -10, 2147483647, -2147483648, i64::MAX, i64::MIN] {
        let mut text = String::new();
        push_decimal(&mut text, n);
        assert_eq!(text, n.to_string());
    }
}
