use std::cmp::Ordering;
use yaml_value::{Mapping, Number, TaggedValue, Value};

fn ord_text(s: &str) -> Value {
    Value::String(s.to_owned())
}

fn ord_num(n: i64) -> Value {
    Value::Number(Number::from_i64(n))
}

fn ord_float(f: f64) -> Value {
    Value::Number(Number::from_f64_bits(f.to_bits()))
}

fn ord_mapping(entries: Vec<(Value, Value)>) -> Value {
    let mut m = Mapping::new();
    for (k, v) in entries {
        m.insert(k, v);
    }
    Value::Mapping(m)
}

fn ord_tagged(tag: &str, value: Value) -> Value {
    Value::Tagged(Box::new(TaggedValue { tag: tag.to_owned(), value }))
}

#[test]
fn kinds_are_ordered() {
    let kinds = vec![
        Value::Null,
        Value::Bool(true),
        ord_num(-5),
        ord_text(""),
        Value::Sequence(vec![]),
        ord_mapping(vec![]),
        ord_tagged("", Value::Null),
    ];
    for (i, a) in kinds.iter().enumerate() {
        for (j, b) in kinds.iter().enumerate() {
            assert_eq!(a.partial_cmp(b), Some(i.cmp(&j)));
            assert_eq!(a < b, i < j);
            assert_eq!(a >= b, i >= j);
        }
    }
}

#[test]
fn booleans_are_ordered() {
    assert_eq!(Value::Bool(false).partial_cmp(&Value::Bool(true)), Some(Ordering::Less));
    assert_eq!(Value::Bool(true).partial_cmp(&Value::Bool(false)), Some(Ordering::Greater));
    assert_eq!(Value::Bool(true).partial_cmp(&Value::Bool(true)), Some(Ordering::Equal));
    assert_eq!(Value::Bool(false).partial_cmp(&Value::Bool(false)), Some(Ordering::Equal));
}

#[test]
fn integers_are_ordered_by_value() {
    let max = Number::from_u64(u64::MAX);
    let big = Number::from_u64(i64::MAX as u64 + 1);
    let five = Number::from_u64(5);
    let zero = Number::from_i64(0);
    let minus = Number::from_i64(-1);
    let min = Number::from_i64(i64::MIN);
    let rising = [min, minus, zero, five, big, max];
    for (i, a) in rising.iter().enumerate() {
        for (j, b) in rising.iter().enumerate() {
            assert_eq!(a.partial_cmp(b), Some(i.cmp(&j)));
        }
    }
    assert_eq!(Number::from_i64(5).partial_cmp(&five), Some(Ordering::Equal));
    assert!(ord_num(-3) < ord_num(2));
}

#[test]
fn floats_are_ordered_as_numbers() {
    let rising = [
        f64::NEG_INFINITY,
        -1.0e300,
        -2.5,
        -f64::MIN_POSITIVE,
        0.0,
        f64::MIN_POSITIVE,
        1.5,
        2.5,
        1.0e300,
        f64::INFINITY,
    ];
    for a in rising {
        for b in rising {
            let left = Number::from_f64_bits(a.to_bits());
            let right = Number::from_f64_bits(b.to_bits());
            assert_eq!(left.partial_cmp(&right), a.partial_cmp(&b));
        }
    }
    let zero = Number::from_f64_bits(0.0f64.to_bits());
    let minus_zero = Number::from_f64_bits((-0.0f64).to_bits());
    assert_eq!(zero.partial_cmp(&minus_zero), Some(Ordering::Equal));
    assert_eq!(minus_zero.partial_cmp(&zero), Some(Ordering::Equal));
    assert_eq!(minus_zero.partial_cmp(&Number::from_f64_bits(1.0f64.to_bits())), Some(Ordering::Less));
    assert_eq!(minus_zero.partial_cmp(&Number::from_f64_bits((-1.0f64).to_bits())), Some(Ordering::Greater));
}

#[test]
fn nan_equals_nan_and_compares_with_nothing_else() {
    let nan = Number::from_f64_bits(f64::NAN.to_bits());
    let other_nan = Number::from_f64_bits(0xfff0_0000_0000_0001);
    let one = Number::from_f64_bits(1.0f64.to_bits());
    assert_eq!(nan.partial_cmp(&nan), Some(Ordering::Equal));
    assert_eq!(nan.partial_cmp(&other_nan), Some(Ordering::Equal));
    assert_eq!(nan.partial_cmp(&one), None);
    assert_eq!(one.partial_cmp(&nan), None);
    assert_eq!(nan.partial_cmp(&Number::from_f64_bits(f64::INFINITY.to_bits())), None);
    assert!(!(ord_float(f64::NAN) < ord_float(1.0)));
    assert!(!(ord_float(f64::NAN) > ord_float(1.0)));
}

#[test]
fn integers_stand_below_floats() {
    assert_eq!(ord_num(1_000_000).partial_cmp(&ord_float(-1.0)), Some(Ordering::Less));
    assert_eq!(ord_float(-1.0).partial_cmp(&ord_num(1_000_000)), Some(Ordering::Greater));
    assert_eq!(ord_num(-7).partial_cmp(&ord_float(f64::NAN)), Some(Ordering::Less));
    assert_eq!(ord_float(f64::NAN).partial_cmp(&ord_num(-7)), Some(Ordering::Greater));
}

#[test]
fn strings_are_ordered_by_code_point() {
    let rising = ["", "A", "AB", "B", "a", "ab", "b", "z", "é", "√", "漢", "\u{10000}"];
    for (i, a) in rising.iter().enumerate() {
        for (j, b) in rising.iter().enumerate() {
            assert_eq!(ord_text(a).partial_cmp(&ord_text(b)), Some(i.cmp(&j)));
        }
    }
}

#[test]
fn sequences_are_ordered_by_first_difference() {
    let s = |items: Vec<i64>| Value::Sequence(items.into_iter().map(ord_num).collect());
    assert_eq!(s(vec![]).partial_cmp(&s(vec![])), Some(Ordering::Equal));
    assert_eq!(s(vec![]).partial_cmp(&s(vec![0])), Some(Ordering::Less));
    assert_eq!(s(vec![0]).partial_cmp(&s(vec![])), Some(Ordering::Greater));
    assert_eq!(s(vec![1, 2]).partial_cmp(&s(vec![1, 2])), Some(Ordering::Equal));
    assert_eq!(s(vec![1, 2]).partial_cmp(&s(vec![1, 3])), Some(Ordering::Less));
    assert_eq!(s(vec![1, 2]).partial_cmp(&s(vec![1, 2, 0])), Some(Ordering::Less));
    assert_eq!(s(vec![2]).partial_cmp(&s(vec![1, 9, 9])), Some(Ordering::Greater));
    let nan = Value::Sequence(vec![ord_num(1), ord_float(f64::NAN), ord_num(0)]);
    let one = Value::Sequence(vec![ord_num(1), ord_float(1.0), ord_num(9)]);
    assert_eq!(nan.partial_cmp(&one), None);
    let mixed = Value::Sequence(vec![Value::Null]);
    assert_eq!(mixed.partial_cmp(&s(vec![0])), Some(Ordering::Less));
}

#[test]
fn tagged_values_are_ordered_by_tag_then_value() {
    assert_eq!(ord_tagged("a", ord_num(9)).partial_cmp(&ord_tagged("b", ord_num(0))), Some(Ordering::Less));
    assert_eq!(ord_tagged("b", ord_num(0)).partial_cmp(&ord_tagged("a", ord_num(9))), Some(Ordering::Greater));
    assert_eq!(ord_tagged("a", ord_num(1)).partial_cmp(&ord_tagged("a", ord_num(2))), Some(Ordering::Less));
    assert_eq!(ord_tagged("a", ord_num(2)).partial_cmp(&ord_tagged("a", ord_num(2))), Some(Ordering::Equal));
    let left = TaggedValue { tag: "a".to_owned(), value: ord_num(1) };
    let right = TaggedValue { tag: "a".to_owned(), value: ord_text("x") };
    assert_eq!(left.partial_cmp(&right), Some(Ordering::Less));
    assert_eq!(right.partial_cmp(&left), Some(Ordering::Greater));
    assert_eq!(left.partial_cmp(&left.clone()), Some(Ordering::Equal));
    let other_tag = TaggedValue { tag: "b".to_owned(), value: Value::Null };
    assert_eq!(left.partial_cmp(&other_tag), Some(Ordering::Less));
}

#[test]
fn mappings_compare_only_where_equal() {
    let ab = ord_mapping(vec![(ord_text("a"), ord_num(1)), (ord_text("b"), ord_num(2))]);
    let ba = ord_mapping(vec![(ord_text("b"), ord_num(2)), (ord_text("a"), ord_num(1))]);
    let other = ord_mapping(vec![(ord_text("a"), ord_num(1))]);
    assert_eq!(ab.partial_cmp(&ba), Some(Ordering::Equal));
    assert_eq!(ab.partial_cmp(&other), None);
    assert_eq!(other.partial_cmp(&ab), None);
    assert_eq!(ab.as_mapping().unwrap().partial_cmp(ba.as_mapping().unwrap()), Some(Ordering::Equal));
    assert_eq!(ab.as_mapping().unwrap().partial_cmp(other.as_mapping().unwrap()), None);
    assert!(!(ab < other) && !(ab > other));
}

#[test]
fn order_agrees_with_equality() {
    let samples = vec![
        Value::Null,
        Value::Bool(false),
        Value::Bool(true),
        ord_num(0),
        ord_num(-1),
        Value::Number(Number::from_u64(0)),
        ord_float(0.0),
        ord_float(-0.0),
        ord_float(f64::NAN),
        ord_float(1.0),
        ord_text("a"),
        ord_text("b"),
        Value::Sequence(vec![ord_num(1)]),
        Value::Sequence(vec![ord_num(1), ord_num(2)]),
        ord_mapping(vec![(ord_text("a"), ord_num(1))]),
        ord_mapping(vec![(ord_text("a"), ord_num(2))]),
        ord_tagged("t", ord_num(1)),
        ord_tagged("t", ord_num(2)),
    ];
    for a in &samples {
        for b in &samples {
            assert_eq!(a.partial_cmp(b) == Some(Ordering::Equal), a == b);
            assert_eq!(a.partial_cmp(b).map(Ordering::reverse), b.partial_cmp(a));
        }
    }
}
