use fan_dashboard::decimal::Decimal;
use fan_dashboard::text::chars_of;

fn parse(text: &str) -> Option<Decimal> {
    Decimal::from_chars(&chars_of(text))
}

#[test]
fn reads_plain_decimals() {
    assert_eq!(parse("49.875"), Some(Decimal::new(false, 49875, -3)));
    assert_eq!(parse("50.0"), Some(Decimal::new(false, 500, -1)));
    assert_eq!(parse("50"), Some(Decimal::new(false, 50, 0)));
    assert_eq!(parse("-12.5"), Some(Decimal::new(true, 125, -1)));
    assert_eq!(parse("+7"), Some(Decimal::new(false, 7, 0)));
    assert_eq!(parse("0.0"), Some(Decimal::new(false, 0, -1)));
    assert_eq!(parse("-0.0"), Some(Decimal::new(true, 0, -1)));
    assert_eq!(parse(".5"), Some(Decimal::new(false, 5, -1)));
    assert_eq!(parse("5."), Some(Decimal::new(false, 5, 0)));
}

#[test]
fn reads_exponents() {
    assert_eq!(parse("1e300"), Some(Decimal::new(false, 1, 300)));
    assert_eq!(parse("3.439070283483335e+35"), Some(Decimal::new(false, 3439070283483335, 20)));
    assert_eq!(parse("2.9802322387695312e-8"), Some(Decimal::new(false, 29802322387695312, -24)));
    assert_eq!(parse("1E2"), Some(Decimal::new(false, 1, 2)));
    assert_eq!(parse("5e-324"), Some(Decimal::new(false, 5, -324)));
}

#[test]
fn rejects_what_is_no_decimal() {
    for text in ["", "+", "-", ".", "e5", "1e", "1e+", "1.2.3", "12a", "null", "\"49.0\"", "inf", "NaN", " 1", "1 ", "true", "{}", "0x10"] {
        assert_eq!(parse(text), None, "{:?}", text);
    }
}

#[test]
fn rejects_what_does_not_fit() {
    assert_eq!(parse("18446744073709551615"), Some(Decimal::new(false, u64::MAX, 0)));
    assert_eq!(parse("18446744073709551616"), None);
    assert_eq!(parse("1e2147483647"), Some(Decimal::new(false, 1, i32::MAX)));
    assert_eq!(parse("1e2147483648"), None);
    assert_eq!(parse("1e-2147483648"), Some(Decimal::new(false, 1, i32::MIN)));
    assert_eq!(parse("0.1e-2147483648"), None);
    assert_eq!(parse("1e99999999999999999999999999999999999999999999"), None);
    assert_eq!(parse("000000000000000000000000000001"), Some(Decimal::new(false, 1, 0)));
}

#[test]
fn orders_by_value() {
    let a = Decimal::new(false, 500, -1);
    let b = Decimal::new(false, 50, 0);
    let c = Decimal::new(false, 49875, -3);
    let d = Decimal::new(true, 99, 0);
    let zero = Decimal::new(false, 0, 0);
    let minus_zero = Decimal::new(true, 0, 5);
    assert!(!a.is_below(&b) && !b.is_below(&a));
    assert!(c.is_below(&a) && !a.is_below(&c));
    assert!(d.is_below(&c) && !c.is_below(&d));
    assert!(d.is_below(&zero) && !zero.is_below(&d));
    assert!(!zero.is_below(&minus_zero) && !minus_zero.is_below(&zero));
    assert!(zero.is_below(&c));
    assert!(Decimal::new(true, 100, 0).is_below(&d));
    assert!(!d.is_below(&Decimal::new(true, 100, 0)));
    assert!(Decimal::new(false, 1, -300).is_below(&Decimal::new(false, 1, 300)));
    assert!(!Decimal::new(false, 1, 300).is_below(&Decimal::new(false, 1, -300)));
    assert!(Decimal::new(false, u64::MAX, 0).is_below(&Decimal::new(false, 1, 20)));
    assert!(Decimal::new(false, 1, 19).is_below(&Decimal::new(false, u64::MAX, 0)));
    assert!(Decimal::new(false, 9999, -2).is_below(&Decimal::new(false, 1, 2)));
    assert!(!Decimal::new(false, 1, 2).is_below(&Decimal::new(false, 10000, -2)));
}

#[test]
fn equal_values() {
    let fifty = Decimal::new(false, 50, 0);
    assert!(fifty.has_same_value(&Decimal::new(false, 500, -1)));
    assert!(fifty.has_same_value(&Decimal::new(false, 5, 1)));
    assert!(!fifty.has_same_value(&Decimal::new(true, 50, 0)));
    assert!(!fifty.has_same_value(&Decimal::new(false, 501, -1)));
    assert!(Decimal::new(false, 0, 7).has_same_value(&Decimal::new(true, 0, -7)));
    assert_ne!(fifty, Decimal::new(false, 500, -1));
    assert_eq!(Decimal::from_whole(50), fifty);
}

#[test]
fn sentinel_is_minus_ninety_nine() {
    assert_eq!(Decimal::sentinel(), Decimal::new(true, 99, 0));
    assert!(!Decimal::sentinel().is_zero());
    assert!(Decimal::new(true, 0, 3).is_zero());
}
