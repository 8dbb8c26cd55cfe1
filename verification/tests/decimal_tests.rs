use bitvavo_ws::decimal::{Decimal, DecimalError};

#[test]
fn round_trip_simple() {
    let d = Decimal::parse("100.50").unwrap();
    assert_eq!(d.to_wire_string(), "100.50");
}

#[test]
fn round_trip_zero() {
    let d = Decimal::parse("0").unwrap();
    assert_eq!(d.to_wire_string(), "0");
}

#[test]
fn round_trip_negative_trailing_zeros() {
    let d = Decimal::parse("-12.3400").unwrap();
    assert_eq!(d.to_wire_string(), "-12.3400");
}

#[test]
fn round_trip_small_fraction() {
    let d = Decimal::parse("0.00000001").unwrap();
    assert_eq!(d.to_wire_string(), "0.00000001");
}

#[test]
fn equality_across_representations() {
    let a = Decimal::parse("100.50").unwrap();
    let b = Decimal::parse("100.5000").unwrap();
    assert!(a == b);
    assert_ne!(a.to_wire_string(), b.to_wire_string());
}

#[test]
fn minus_zero_equals_zero() {
    let a = Decimal::parse("-0.000").unwrap();
    let b = Decimal::parse("0").unwrap();
    assert!(a == b);
}

#[test]
fn parse_rejects_malformed() {
    assert!(matches!(Decimal::parse("abc"), Err(DecimalError::Invalid)));
    assert!(matches!(Decimal::parse(""), Err(DecimalError::Invalid)));
    assert!(matches!(Decimal::parse("-"), Err(DecimalError::Invalid)));
    assert!(matches!(Decimal::parse("1."), Err(DecimalError::Invalid)));
    assert!(matches!(Decimal::parse(".5"), Err(DecimalError::Invalid)));
    assert!(matches!(Decimal::parse("1.2.3"), Err(DecimalError::Invalid)));
    assert!(matches!(Decimal::parse("1e5"), Err(DecimalError::Invalid)));
}

#[test]
fn parse_rejects_excess_precision() {
    // more than eighteen significant digits
    assert!(matches!(
        Decimal::parse("1234567890123456789"),
        Err(DecimalError::OutOfRange)
    ));
    // more than ten fractional digits that do not normalize away
    assert!(matches!(
        Decimal::parse("0.00000000001"),
        Err(DecimalError::OutOfRange)
    ));
    // trailing zeros normalize away, so this still fits
    assert!(Decimal::parse("1.00000000000000000000").is_ok());
}

#[test]
fn addition_is_exact() {
    let a = Decimal::parse("1.5").unwrap();
    let b = Decimal::parse("2.25").unwrap();
    let c = a.add(&b).unwrap();
    assert_eq!(c.to_wire_string(), "3.75");
}

#[test]
fn subtraction_is_exact() {
    let a = Decimal::parse("2.0").unwrap();
    let b = Decimal::parse("0.5").unwrap();
    let c = a.sub(&b).unwrap();
    assert_eq!(c.to_wire_string(), "1.5");
    let d = b.sub(&a).unwrap();
    assert_eq!(d.to_wire_string(), "-1.5");
}

#[test]
fn multiplication_renders_canonically() {
    let a = Decimal::parse("1.50").unwrap();
    let b = Decimal::parse("2").unwrap();
    let c = a.mul(&b).unwrap();
    assert_eq!(c.to_wire_string(), "3");
}

#[test]
fn division_rounds_toward_positive_infinity() {
    let one = Decimal::parse("1").unwrap();
    let three = Decimal::parse("3").unwrap();
    let q = one.div(&three).unwrap();
    assert_eq!(q.to_wire_string(), "0.3333333334");
    let neg = Decimal::parse("-1").unwrap();
    let qn = neg.div(&three).unwrap();
    assert_eq!(qn.to_wire_string(), "-0.3333333333");
}

#[test]
fn division_by_zero_fails() {
    let one = Decimal::parse("1").unwrap();
    let zero = Decimal::parse("0").unwrap();
    assert!(one.div(&zero).is_none());
}

#[test]
fn ordering_compares_magnitude() {
    let two = Decimal::parse("2").unwrap();
    let ten = Decimal::parse("10").unwrap();
    let minus = Decimal::parse("-3").unwrap();
    assert!(two.lt(&ten));
    assert!(!ten.lt(&two));
    assert!(minus.lt(&two));
    assert!(!two.lt(&two));
}

#[test]
fn default_is_zero() {
    let d = Decimal::default();
    assert_eq!(d.to_wire_string(), "0");
    assert!(d.is_zero());
}

#[test]
fn derived_text_is_canonical_never_inherited() {
    let a = Decimal::parse("1.2500").unwrap();
    let b = Decimal::parse("2.5000").unwrap();
    // operands keep their verbatim texts; the sum renders freshly
    let c = a.add(&b).unwrap();
    assert_eq!(c.to_wire_string(), "3.75");
    let zero = Decimal::parse("0.000").unwrap();
    let d = a.add(&zero).unwrap();
    assert_eq!(d.to_wire_string(), "1.25");
}
