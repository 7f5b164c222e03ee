use kaleido::numeral::Numeral;

fn literal(text: &str) -> Numeral {
    let chars: Vec<char> = text.chars().collect();
    Numeral::from_literal(&chars, 0, chars.len()).expect("a valid literal")
}

#[test]
fn literals_parse_to_lowest_terms() {
    assert_eq!(literal("0"), Numeral { mantissa: 0, scale: 0 });
    assert_eq!(literal("42"), Numeral { mantissa: 42, scale: 0 });
    assert_eq!(literal("4.0"), Numeral { mantissa: 4, scale: 0 });
    assert_eq!(literal("0.25"), Numeral { mantissa: 25, scale: 2 });
    assert_eq!(literal("10.10"), Numeral { mantissa: 101, scale: 1 });
    assert_eq!(literal("000.500"), Numeral { mantissa: 5, scale: 1 });
}

#[test]
fn malformed_literals_are_rejected() {
    let cases = ["", ".", "1.2.3", "12a", "1 2"];
    for text in cases.iter() {
        let chars: Vec<char> = text.chars().collect();
        assert!(Numeral::from_literal(&chars, 0, chars.len()).is_none());
    }
}

#[test]
fn literal_beyond_the_exact_range_is_rejected() {
    // one more than the largest mantissa
    let chars: Vec<char> = "9223372036854775808".chars().collect();
    assert!(Numeral::from_literal(&chars, 0, chars.len()).is_none());
    // more fractional digits than the scale can keep
    let chars: Vec<char> = "0.1111111111111111111".chars().collect();
    assert!(Numeral::from_literal(&chars, 0, chars.len()).is_none());
}

#[test]
fn addition_is_exact_across_scales() {
    assert_eq!(literal("2.5").checked_add(literal("0.5")), Some(Numeral { mantissa: 3, scale: 0 }));
    assert_eq!(literal("0.1").checked_add(literal("0.2")), Some(Numeral { mantissa: 3, scale: 1 }));
    assert_eq!(literal("1").checked_add(literal("2")), Some(Numeral { mantissa: 3, scale: 0 }));
}

#[test]
fn subtraction_can_go_negative() {
    assert_eq!(literal("3").checked_sub(literal("8")), Some(Numeral { mantissa: -5, scale: 0 }));
    assert_eq!(
        literal("0.5").checked_sub(literal("0.25")),
        Some(Numeral { mantissa: 25, scale: 2 }),
    );
}

#[test]
fn multiplication_is_exact() {
    assert_eq!(literal("2").checked_mul(literal("3")), Some(Numeral { mantissa: 6, scale: 0 }));
    assert_eq!(
        literal("0.2").checked_mul(literal("0.5")),
        Some(Numeral { mantissa: 1, scale: 1 }),
    );
    assert_eq!(
        literal("1.5").checked_mul(literal("4")),
        Some(Numeral { mantissa: 6, scale: 0 }),
    );
}

#[test]
fn unrepresentable_results_are_refused_not_rounded() {
    let big = literal("900000000000000000");
    assert_eq!(big.checked_mul(literal("100")), None);
    assert_eq!(big.checked_add(big), Some(Numeral { mantissa: 1_800_000_000_000_000_000, scale: 0 }));
    // too many fractional digits even in lowest terms
    let tiny = literal("0.000000000111111111");
    assert_eq!(tiny.checked_mul(tiny), None);
}

#[test]
fn division_is_exact_in_lowest_terms() {
    assert_eq!(literal("7").checked_div(literal("2")), Some(Numeral { mantissa: 35, scale: 1 }));
    assert_eq!(literal("6").checked_div(literal("2")), Some(Numeral { mantissa: 3, scale: 0 }));
    assert_eq!(literal("1").checked_div(literal("8")), Some(Numeral { mantissa: 125, scale: 3 }));
    assert_eq!(
        literal("2.5").checked_div(literal("0.5")),
        Some(Numeral { mantissa: 5, scale: 0 }),
    );
    assert_eq!(literal("0").checked_div(literal("9")), Some(Numeral { mantissa: 0, scale: 0 }));
    let minus_three = literal("1").checked_sub(literal("4")).unwrap();
    assert_eq!(
        minus_three.checked_div(literal("2")),
        Some(Numeral { mantissa: -15, scale: 1 }),
    );
}

#[test]
fn unrepresentable_quotients_are_refused_not_rounded() {
    // no finite decimal form
    assert_eq!(literal("1").checked_div(literal("3")), None);
    // more fractional digits than the scale can keep: 1 / 2^19
    assert_eq!(literal("1").checked_div(literal("524288")), None);
    // a zero divisor
    assert_eq!(literal("1").checked_div(literal("0")), None);
    assert_eq!(literal("0").checked_div(literal("0.00")), None);
}

#[test]
fn comparisons_are_exact() {
    assert!(literal("2").less_than(literal("3")));
    assert!(!literal("3").less_than(literal("2")));
    assert!(!literal("2").less_than(literal("2")));
    assert!(literal("0.5").less_than(literal("0.75")));
    assert!(literal("3").greater_than(literal("2.99")));
    assert!(!literal("2.99").greater_than(literal("3")));
}
