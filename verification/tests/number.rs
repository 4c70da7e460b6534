use lab2::number::{complex_label, Complex, Real};

fn samples() -> Vec<f32> {
    vec![
        0.0,
        -0.0,
        1.0,
        -1.0,
        1.0000001,
        0.1,
        2.5,
        -2.5,
        f32::MIN_POSITIVE,
        f32::MIN_POSITIVE / 2.0,
        f32::MAX,
        f32::MIN,
        f32::EPSILON,
        f32::INFINITY,
        f32::NEG_INFINITY,
        f32::NAN,
        -f32::NAN,
        f32::from_bits(0x7f80_0001),
        f32::from_bits(0x7fff_ffff),
        f32::from_bits(0xff80_0001),
    ]
}

fn write_out(x: Real) -> String {
    f32::from_bits(x.bits).to_string()
}

#[test]
fn reals_are_equal_as_their_numbers_are() {
    let values = samples();
    for a in values.iter() {
        for b in values.iter() {
            let left = Real { bits: a.to_bits() };
            let right = Real { bits: b.to_bits() };
            assert_eq!(left == right, a == b, "{} against {}", a, b);
            assert_eq!(left != right, a != b, "{} against {}", a, b);
        }
    }
}

#[test]
fn not_a_number_is_recognised() {
    for a in samples().iter() {
        assert_eq!(Real { bits: a.to_bits() }.is_nan(), a.is_nan(), "{}", a);
    }
    assert!(!Real { bits: 0x7f80_0000 }.is_nan());
    assert!(Real { bits: 0x7f80_0001 }.is_nan());
    assert!(Real { bits: 0xffc0_0000 }.is_nan());
    assert!(!Real { bits: 0xff80_0000 }.is_nan());
}

#[test]
fn zero_is_recognised() {
    for a in samples().iter() {
        assert_eq!(Real { bits: a.to_bits() }.is_zero(), *a == 0.0, "{}", a);
    }
    assert!(Real { bits: 0 }.is_zero());
    assert!(Real { bits: 0x8000_0000 }.is_zero());
    assert!(!Real { bits: 1 }.is_zero());
}

#[test]
fn not_a_number_equals_nothing() {
    let nan = Real { bits: f32::NAN.to_bits() };
    assert!(!(nan == nan));
    assert!(nan != nan);
}

#[test]
fn zeros_of_both_signs_are_equal() {
    let plus = Real { bits: 0.0f32.to_bits() };
    let minus = Real { bits: (-0.0f32).to_bits() };
    assert!(plus == minus);
    assert!(minus == plus);
    assert_ne!(plus.bits, minus.bits);
}

#[test]
fn complex_numbers_are_equal_part_by_part() {
    let values = samples();
    for a in values.iter() {
        for b in values.iter() {
            let left = Complex { re: Real { bits: a.to_bits() }, im: Real { bits: b.to_bits() } };
            let right = Complex { re: Real { bits: b.to_bits() }, im: Real { bits: a.to_bits() } };
            assert_eq!(left == right, (*a, *b) == (*b, *a), "{} and {}", a, b);
            assert_eq!(left == left, (*a, *b) == (*a, *b), "{} and {}", a, b);
        }
    }
}

#[test]
fn complex_label_is_put_together_from_its_parts() {
    assert_eq!(complex_label("1", "2"), "1 + 2i");
    assert_eq!(complex_label("1", "-2"), "1 + -2i");
    assert_eq!(complex_label("", ""), " + i");
    assert_eq!(complex_label("0.5", "NaN"), "0.5 + NaNi");
}

#[test]
fn complex_label_keeps_the_sign_of_the_imaginary_part() {
    let number = Complex {
        re: Real { bits: 1.0f32.to_bits() },
        im: Real { bits: (-2.0f32).to_bits() },
    };
    assert_eq!(number.label(&write_out), "1 + -2i");
    let other = Complex {
        re: Real { bits: (-0.5f32).to_bits() },
        im: Real { bits: 3.25f32.to_bits() },
    };
    assert_eq!(other.label(&write_out), "-0.5 + 3.25i");
}

#[test]
fn complex_label_asks_for_the_real_part_first() {
    let number = Complex { re: Real { bits: 1 }, im: Real { bits: 2 } };
    let text = number.label(&|x: Real| format!("<{}>", x.bits));
    assert_eq!(text, "<1> + <2>i");
}
