use yaml_value::Number;

#[test]
fn unsigned_numbers() {
    let n = Number::from_u64(42);
    assert!(n.is_u64());
    assert!(n.is_i64());
    assert!(!n.is_f64());
    assert_eq!(n.as_u64(), Some(42));
    assert_eq!(n.as_i64(), Some(42));
    assert_eq!(n.as_f64_bits(), None);
}

#[test]
fn signed_numbers() {
    let n = Number::from_i64(-42);
    assert!(!n.is_u64());
    assert!(n.is_i64());
    assert_eq!(n.as_u64(), None);
    assert_eq!(n.as_i64(), Some(-42));
    let p = Number::from_i64(42);
    assert_eq!(p.as_u64(), Some(42));
    assert_eq!(p, Number::from_u64(42));
}

#[test]
fn floating_numbers_keep_their_bits() {
    for f in [0.0f64, -0.0, 1.25, -3.5e300, f64::INFINITY, f64::MIN_POSITIVE] {
        let n = Number::from_f64_bits(f.to_bits());
        assert!(n.is_f64());
        assert!(!n.is_i64());
        assert!(!n.is_u64());
        assert_eq!(n.as_f64_bits(), Some(f.to_bits()));
    }
    let nan = Number::from_f64_bits(f64::NAN.to_bits());
    assert!(nan.is_nan());
    assert!(f64::from_bits(nan.as_f64_bits().unwrap()).is_nan());
}
