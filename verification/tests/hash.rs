use std::collections::hash_map::DefaultHasher;
use std::collections::{HashMap, HashSet};
use std::hash::{Hash, Hasher};
use yaml_value::{hash_text, Key, Mapping, Number, TaggedValue, Value};

fn h_text(s: &str) -> Value {
    Value::String(s.to_owned())
}

fn h_num(n: u64) -> Value {
    Value::Number(Number::from_u64(n))
}

fn h_float(f: f64) -> Value {
    Value::Number(Number::from_f64_bits(f.to_bits()))
}

fn h_mapping(entries: Vec<(Value, Value)>) -> Value {
    let mut m = Mapping::new();
    for (k, v) in entries {
        m.insert(k, v);
    }
    Value::Mapping(m)
}

fn h_tagged(tag: &str, value: Value) -> Value {
    Value::Tagged(Box::new(TaggedValue { tag: tag.to_owned(), value }))
}

fn fed<T: Hash>(value: &T) -> u64 {
    let mut state = DefaultHasher::new();
    value.hash(&mut state);
    state.finish()
}

#[test]
fn hash_of_known_values() {
    let seed: u64 = 0xcbf2_9ce4_8422_2325;
    let prime: u64 = 0x0000_0100_0000_01b3;
    let mix = |h: u64, x: u64| (h ^ x).wrapping_mul(prime);
    assert_eq!(Value::Null.hash_code(), mix(seed, 0));
    assert_eq!(Value::Bool(true).hash_code(), mix(mix(seed, 1), 1));
    assert_eq!(Value::Bool(false).hash_code(), mix(mix(seed, 1), 0));
    assert_eq!(h_num(9).hash_code(), mix(mix(seed, 2), 9));
    assert_eq!(Value::Number(Number::from_i64(-1)).hash_code(), mix(mix(seed, 7), 0));
    assert_eq!(h_float(1.5).hash_code(), mix(mix(seed, 8), 1.5f64.to_bits()));
    assert_eq!(h_text("").hash_code(), mix(mix(seed, 3), seed));
    assert_eq!(h_text("ab").hash_code(), mix(mix(seed, 3), mix(mix(seed, 'a' as u64), 'b' as u64)));
    assert_eq!(Value::Sequence(vec![]).hash_code(), mix(mix(seed, 4), seed));
    assert_eq!(
        Value::Sequence(vec![Value::Null]).hash_code(),
        mix(mix(seed, 4), mix(seed, mix(seed, 0)))
    );
    assert_eq!(h_mapping(vec![]).hash_code(), mix(mix(seed, 5), 0));
    let entry = mix(mix(seed, mix(seed, 0)), mix(mix(seed, 1), 1));
    assert_eq!(h_mapping(vec![(Value::Null, Value::Bool(true))]).hash_code(), mix(mix(seed, 5), entry));
    assert_eq!(
        h_tagged("a", Value::Null).hash_code(),
        mix(mix(mix(seed, 6), mix(seed, 'a' as u64)), mix(seed, 0))
    );
}

#[test]
fn equal_values_hash_alike() {
    let ab = h_mapping(vec![(h_text("a"), h_num(1)), (h_text("b"), h_float(f64::NAN))]);
    let ba = h_mapping(vec![(h_text("b"), h_float(-f64::NAN)), (h_text("a"), Value::Number(Number::from_i64(1)))]);
    assert_eq!(ab, ba);
    assert_eq!(ab.hash_code(), ba.hash_code());
    assert_eq!(fed(&ab), fed(&ba));
    assert_eq!(h_float(0.0).hash_code(), h_float(-0.0).hash_code());
    assert_eq!(h_num(5).hash_code(), Value::Number(Number::from_i64(5)).hash_code());
    let nested1 = Value::Sequence(vec![h_tagged("t", ab.clone()), ab.clone()]);
    let nested2 = Value::Sequence(vec![h_tagged("t", ba.clone()), ba.clone()]);
    assert_eq!(nested1, nested2);
    assert_eq!(nested1.hash_code(), nested2.hash_code());
    assert_eq!(ab.as_mapping().unwrap().hash_code(), ba.hash_code());
    assert_eq!(fed(ab.as_mapping().unwrap()), fed(ba.as_mapping().unwrap()));
    assert_eq!(fed(&Number::from_u64(5)), fed(&Number::from_i64(5)));
    let t1 = TaggedValue { tag: "t".to_owned(), value: ab };
    let t2 = TaggedValue { tag: "t".to_owned(), value: ba };
    assert_eq!(fed(&t1), fed(&t2));
}

#[test]
fn different_values_hash_apart() {
    let samples = vec![
        Value::Null,
        Value::Bool(false),
        Value::Bool(true),
        h_num(0),
        h_num(1),
        Value::Number(Number::from_i64(-1)),
        h_float(0.0),
        h_float(1.0),
        h_text(""),
        h_text("a"),
        h_text("b"),
        h_text("ab"),
        h_text("ba"),
        Value::Sequence(vec![]),
        Value::Sequence(vec![Value::Null]),
        Value::Sequence(vec![h_num(1), h_num(2)]),
        Value::Sequence(vec![h_num(2), h_num(1)]),
        h_mapping(vec![]),
        h_mapping(vec![(h_text("a"), h_num(1))]),
        h_mapping(vec![(h_num(1), h_text("a"))]),
        h_tagged("a", Value::Null),
        h_tagged("b", Value::Null),
        h_tagged("a", h_tagged("a", Value::Null)),
    ];
    let codes: HashSet<u64> = samples.iter().map(|v| v.hash_code()).collect();
    assert_eq!(codes.len(), samples.len());
}

#[test]
fn text_hashes_as_its_string_value() {
    for text in ["", "a", "<<", "lorem ipsum", "é∑漢"] {
        assert_eq!(hash_text(text), h_text(text).hash_code());
    }
    assert_ne!(hash_text("a"), hash_text("b"));
}

#[test]
fn values_key_a_hash_map() {
    let mut seen: HashMap<Value, u32> = HashMap::new();
    seen.insert(h_text("a"), 1);
    seen.insert(h_mapping(vec![(h_num(1), Value::Null), (h_num(2), Value::Null)]), 2);
    seen.insert(h_float(f64::NAN), 3);
    assert_eq!(seen.get(&h_text("a")), Some(&1));
    assert_eq!(seen.get(&h_mapping(vec![(h_num(2), Value::Null), (h_num(1), Value::Null)])), Some(&2));
    assert_eq!(seen.get(&h_float(f64::NAN)), Some(&3));
    assert_eq!(seen.get(&h_text("b")), None);
    assert_eq!(seen.len(), 3);
}

#[test]
fn keys_of_both_kinds() {
    let mut m = Mapping::new();
    m.insert(h_text("a"), h_num(1));
    m.insert(h_num(2), h_num(2));
    let value = h_text("a");
    assert_eq!(Key::Value(&value).position_in(&m), Some(0));
    assert_eq!(Key::Text("a").position_in(&m), Some(0));
    assert_eq!(Key::Text("2").position_in(&m), None);
    assert_eq!(Key::Value(&h_num(2)).position_in(&m), Some(1));
    assert_eq!(Key::Text("a").to_value(), value);
    assert_eq!(Key::Value(&value).to_value(), value);
}
