use fraction::Fraction;

#[test]
fn renders_numerator_slash_denominator() {
    assert_eq!(Fraction::new(0).to_debug_string(), "0 / 1");
    assert_eq!(Fraction::new(9).to_debug_string(), "9 / 1");
    assert_eq!(Fraction::new(10).to_debug_string(), "10 / 1");
    assert_eq!((Fraction::new(5) / 6).to_debug_string(), "5 / 6");
    assert_eq!((Fraction::new(1234567890) / 7).to_debug_string(), "1234567890 / 7");
}

#[test]
fn renders_the_stored_pair_without_reducing() {
    let f = Fraction::from_parts(20, 400).unwrap();
    assert_eq!(f.to_debug_string(), "20 / 400");
}

#[test]
fn renders_the_largest_parts() {
    let f = Fraction::from_parts(u64::MAX, u64::MAX).unwrap();
    assert_eq!(f.to_debug_string(), "18446744073709551615 / 18446744073709551615");
}

#[test]
fn rendering_agrees_with_decimal_formatting() {
    let samples = [0u64, 1, 9, 10, 11, 99, 100, 101, 999, 1000, 65535, 4294967296, u64::MAX];
    for n in samples {
        for d in samples {
            if d == 0 {
                continue;
            }
            let f = Fraction::from_parts(n, d).unwrap();
            assert_eq!(f.to_debug_string(), format!("{} / {}", n, d));
        }
    }
}
