use nda_takehome::domain::amount::Amount;

#[test]
fn test_parse() {
    assert_eq!(Amount::parse("5").unwrap(), Amount::from_major(5));
    assert_eq!(Amount::parse("5.1").unwrap(), Amount::from_scaled(51000));
    assert_eq!(Amount::parse("5.1234").unwrap(), Amount::from_scaled(51234));
    assert_eq!(Amount::parse("5.12341").unwrap(), Amount::from_scaled(51234));
    assert_eq!(Amount::parse("0.00001").unwrap(), Amount::zero());
}

#[test]
fn test_parse_negative() {
    assert_eq!(Amount::parse("-5").unwrap(), Amount::from_major(-5));
    assert_eq!(Amount::parse("-5.1234").unwrap(), Amount::from_scaled(-51234));
    assert_eq!(Amount::parse("-0.00001").unwrap(), Amount::zero());
}

#[test]
fn test_parse_whitespace() {
    assert_eq!(Amount::parse("  5  ").unwrap(), Amount::from_major(5));
    assert_eq!(Amount::parse(" 5.1234 ").unwrap(), Amount::from_scaled(51234));
}

#[test]
fn test_parse_invalid() {
    assert!(Amount::parse("").is_err());
    assert!(Amount::parse("abc").is_err());
    assert!(Amount::parse("1.2.3").is_err());
}

#[test]
fn test_display() {
    assert_eq!(Amount::from_major(5).to_string(), "5.0000");
    assert_eq!(Amount::from_scaled(51234).to_string(), "5.1234");
    assert_eq!(Amount::from_scaled(51000).to_string(), "5.1000");
    assert_eq!(Amount::zero().to_string(), "0.0000");
    assert_eq!(Amount::from_major(-5).to_string(), "-5.0000");
    assert_eq!(Amount::from_scaled(-51234).to_string(), "-5.1234");
}

#[test]
fn test_is_positive() {
    assert!(Amount::from_major(1).is_positive());
    assert!(!Amount::zero().is_positive());
    assert!(!Amount::from_major(-1).is_positive());
}

#[test]
fn test_arithmetic() {
    let a = Amount::from_major(10);
    let b = Amount::from_major(3);
    assert_eq!(&a + &b, Amount::from_major(13));
    assert_eq!(&a - &b, Amount::from_major(7));

    let mut c = Amount::from_major(5);
    c += &b;
    assert_eq!(c, Amount::from_major(8));
    c -= &b;
    assert_eq!(c, Amount::from_major(5));
}

#[test]
fn test_ordering() {
    assert!(Amount::from_major(10) > Amount::from_major(5));
    assert!(Amount::from_major(5) < Amount::from_major(10));
    assert!(Amount::from_major(0) >= Amount::zero());
}

#[test]
fn test_four_decimal_places_input() {
    let cases = [
        ("5", Amount::from_major(5)),
        ("5.1", Amount::from_scaled(51000)),
        ("5.1234", Amount::from_scaled(51234)),
        ("5.12341", Amount::from_scaled(51234)),
        ("5.12349", Amount::from_scaled(51234)),
        ("0.00001", Amount::zero()),
        ("-0.00001", Amount::zero()),
    ];
    for (input, expected) in cases {
        let result = Amount::parse(input).unwrap();
        assert_eq!(result, expected, "Amount::parse({input:?})");
    }
}

#[test]
fn parse_reads_sign_and_fraction_forms() {
    // A leading `+`, a missing integer part and a missing fraction all read.
    assert_eq!(Amount::parse("+2.5").unwrap(), Amount::from_scaled(25000));
    assert_eq!(Amount::parse(".5").unwrap(), Amount::from_scaled(5000));
    assert_eq!(Amount::parse("7.").unwrap(), Amount::from_scaled(70000));
    assert_eq!(Amount::parse("-.25").unwrap(), Amount::from_scaled(-2500));
    // Digits beyond the fourth decimal place are dropped, whatever they are.
    assert_eq!(Amount::parse("1.2345x").unwrap(), Amount::from_scaled(12345));
    // Signs alone, inner signs and a sign after the dot do not read.
    assert!(Amount::parse("-").is_err());
    assert_eq!(Amount::parse("+.").unwrap(), Amount::zero());
    assert!(Amount::parse(".").is_ok());
    assert!(Amount::parse("+").is_err());
    assert!(Amount::parse("5.+1").is_err());
    assert!(Amount::parse("1 2").is_err());
    // Unicode white space is trimmed as `str::trim` does.
    assert_eq!(Amount::parse("\u{3000}3\t").unwrap(), Amount::from_major(3));
}

#[test]
fn parse_range_limits() {
    // The largest scaled value reads; one more does not.
    assert_eq!(
        Amount::parse("922337203685477.5807").unwrap(),
        Amount::from_scaled(i64::MAX as i128)
    );
    assert!(Amount::parse("922337203685477.5808").is_err());
    // Whole numbers whose scaled value leaves the i64 range are refused.
    assert_eq!(
        Amount::parse("922337203685477").unwrap(),
        Amount::from_scaled(9223372036854770000)
    );
    assert!(Amount::parse("922337203685478").is_err());
    assert!(Amount::parse("1000000000000000").is_err());
    assert!(Amount::parse("-922337203685478").is_err());
    assert!(Amount::parse("922337203685478.0").is_err());
}

#[test]
fn display_small_and_large_values() {
    assert_eq!(Amount::from_scaled(5).to_string(), "0.0005");
    assert_eq!(Amount::from_scaled(-5).to_string(), "-0.0005");
    assert_eq!(Amount::from_scaled(123450).to_string(), "12.3450");
    assert_eq!(
        Amount::from_scaled(i128::MIN).to_string(),
        "-17014118346046923173168730371588410.5728"
    );
}

#[test]
fn negation_and_default() {
    assert_eq!(-&Amount::from_major(3), Amount::from_major(-3));
    assert_eq!(Amount::default(), Amount::zero());
    assert_eq!(Amount::from_scaled(42).scaled(), 42);
}

#[test]
fn text_form_reads_back_exactly() {
    for v in [0i128, 1, -1, 9999, 10000, -10001, 123456789, i64::MAX as i128, i64::MIN as i128] {
        let a = Amount::from_scaled(v);
        assert_eq!(Amount::parse(&a.to_string()).unwrap(), a, "{v}");
    }
}

#[test]
fn compound_assignment_is_exact() {
    let mut c = Amount::parse("-0.0001").unwrap();
    c += &Amount::parse("1.2345").unwrap();
    assert_eq!(c, Amount::parse("1.2344").unwrap());
    c -= &Amount::from_major(2);
    assert_eq!(c, Amount::parse("-0.7656").unwrap());
}
