use yaml_value::{Index, Mapping, Number, TaggedValue, Value};

fn idx_text(s: &str) -> Value {
    Value::String(s.to_owned())
}

fn idx_num(n: u64) -> Value {
    Value::Number(Number::from_u64(n))
}

fn idx_mapping(entries: Vec<(Value, Value)>) -> Value {
    let mut m = Mapping::new();
    for (k, v) in entries {
        m.insert(k, v);
    }
    Value::Mapping(m)
}

fn idx_tagged(tag: &str, value: Value) -> Value {
    Value::Tagged(Box::new(TaggedValue { tag: tag.to_owned(), value }))
}

fn idx_object() -> Value {
    idx_mapping(vec![
        (idx_text("A"), idx_num(65)),
        (idx_text("B"), Value::Sequence(vec![idx_text("b"), idx_text("bb")])),
        (idx_num(42), Value::Bool(true)),
    ])
}

#[test]
fn get_by_key_and_position() {
    let object = idx_object();
    assert_eq!(object.get("A"), Some(&idx_num(65)));
    assert_eq!(object.get("A".to_owned()), Some(&idx_num(65)));
    assert_eq!(object.get(&"A".to_owned()), Some(&idx_num(65)));
    assert_eq!(object.get(idx_text("A")), Some(&idx_num(65)));
    assert_eq!(object.get(&idx_text("A")), Some(&idx_num(65)));
    assert_eq!(object.get("D"), None);
    assert_eq!(object.get(42), Some(&Value::Bool(true)));
    assert_eq!(object.get(idx_num(42)), Some(&Value::Bool(true)));
    assert_eq!(object.get(41), None);
    let sequence = Value::Sequence(vec![idx_text("A"), idx_text("B"), idx_text("C")]);
    assert_eq!(sequence.get(2), Some(&idx_text("C")));
    assert_eq!(sequence.get(3), None);
    assert_eq!(sequence.get("A"), None);
    assert_eq!(sequence.get(idx_num(0)), None);
    assert_eq!(idx_num(1).get(0), None);
    assert_eq!(Value::Null.get("a"), None);
}

#[test]
fn read_present_and_absent_keys() {
    let object = idx_object();
    let m = object.as_mapping().unwrap();
    for i in 0..m.len() {
        assert_eq!(object.get(m.key_at(i)), Some(m.value_at(i)));
        assert_eq!(&object[m.key_at(i)], m.value_at(i));
    }
    for absent in [idx_text("C"), idx_num(7), Value::Null, Value::Bool(true)] {
        assert_eq!(object.get(&absent), None);
        assert_eq!(object[&absent], Value::Null);
    }
}

#[test]
fn bracket_read_never_faults() {
    let object = idx_object();
    assert_eq!(object["B"][0], idx_text("b"));
    assert_eq!(object["B"][1], idx_text("bb"));
    assert_eq!(object["B"][2], Value::Null);
    assert_eq!(object[idx_text("D")], Value::Null);
    assert_eq!(object["D"], Value::Null);
    assert_eq!(object[0]["x"]["y"]["z"], Value::Null);
    assert_eq!(object[42], Value::Bool(true));
    assert_eq!(Value::Bool(true)["a"][3], Value::Null);
}

#[test]
fn get_or_null_reads_as_brackets_do() {
    let object = idx_mapping(vec![(idx_text("A"), idx_num(65))]);
    let before = object.clone();
    assert_eq!(object.get_or_null("A"), &idx_num(65));
    assert_eq!(object.get_or_null("D"), &Value::Null);
    assert_eq!(object.get_or_null(idx_text("D")), &Value::Null);
    assert_eq!(object.get_or_null(0), &Value::Null);
    assert_eq!(object.get_or_null("A").get_or_null("x").get_or_null(3), &Value::Null);
    assert_eq!(object["D"], Value::Null);
    assert_eq!(object[idx_text("D")], Value::Null);
    assert_eq!(object["A"], idx_num(65));
    assert_eq!(object, before);
    let sequence = Value::Sequence(vec![idx_num(1), idx_num(2)]);
    assert_eq!(sequence.get_or_null(1), &idx_num(2));
    assert_eq!(sequence.get_or_null(2), &Value::Null);
    assert_eq!(idx_tagged("t", sequence).get_or_null(0), &idx_num(1));
}

#[test]
fn text_index_matches_value_index() {
    let object = idx_object();
    for key in ["A", "B", "C", "42", ""] {
        assert_eq!(object.get(key), object.get(idx_text(key)));
        assert_eq!(object[key], object[idx_text(key)]);
    }
    let mut a = idx_object();
    let mut b = idx_object();
    *a.get_mut("A").unwrap() = Value::Null;
    *b.get_mut(idx_text("A")).unwrap() = Value::Null;
    assert_eq!(a, b);
    assert_eq!(a["A"], Value::Null);
}

#[test]
fn index_looks_through_tags() {
    let tagged = idx_tagged("t", idx_tagged("u", idx_object()));
    assert_eq!(tagged.get("A"), Some(&idx_num(65)));
    assert_eq!(tagged["B"][1], idx_text("bb"));
    let mut seq = idx_tagged("t", Value::Sequence(vec![idx_num(1), idx_num(2)]));
    assert_eq!(seq.get(1), Some(&idx_num(2)));
    *seq.get_mut(1).unwrap() = idx_num(20);
    assert_eq!(seq, idx_tagged("t", Value::Sequence(vec![idx_num(1), idx_num(20)])));
    seq[0] = idx_num(10);
    assert_eq!(seq, idx_tagged("t", Value::Sequence(vec![idx_num(10), idx_num(20)])));
}

#[test]
fn value_get_mut_changes_in_place() {
    let mut object = idx_object();
    *object.get_mut("A").unwrap() = idx_num(66);
    *object.get_mut(42).unwrap() = Value::Bool(false);
    assert!(object.get_mut("Z").is_none());
    assert!(object.get_mut(7).is_none());
    assert_eq!(object["A"], idx_num(66));
    assert_eq!(object[42], Value::Bool(false));
    assert_eq!(object.as_mapping().unwrap().len(), 3);
    let mut scalar = idx_num(1);
    assert!(scalar.get_mut(0).is_none());
    assert!(scalar.get_mut("a").is_none());
    assert_eq!(scalar, idx_num(1));
}

#[test]
fn write_vivifies_nested_mappings() {
    let mut data = Value::Null;
    data["a"]["b"]["c"] = idx_text("x");
    let expected = idx_mapping(vec![(
        idx_text("a"),
        idx_mapping(vec![(idx_text("b"), idx_mapping(vec![(idx_text("c"), idx_text("x"))]))]),
    )]);
    assert_eq!(data, expected);
    assert_eq!(data["a"]["b"]["c"], idx_text("x"));
}

#[test]
fn write_keeps_sibling_keys() {
    let mut data = idx_mapping(vec![
        (idx_text("x"), idx_num(0)),
        (idx_text("a"), idx_mapping(vec![(idx_text("k"), idx_num(1))])),
    ]);
    data["a"]["b"]["c"] = idx_text("x");
    data["y"] = Value::Sequence(vec![Value::Bool(false), Value::Bool(false)]);
    data["y"][0] = Value::Bool(true);
    data["x"] = idx_num(1);
    assert_eq!(data["x"], idx_num(1));
    assert_eq!(data["a"]["k"], idx_num(1));
    assert_eq!(data["a"]["b"]["c"], idx_text("x"));
    assert_eq!(data["y"], Value::Sequence(vec![Value::Bool(true), Value::Bool(false)]));
    let m = data.as_mapping().unwrap();
    assert_eq!(m.len(), 3);
    assert_eq!(m.key_at(0), &idx_text("x"));
    assert_eq!(m.key_at(1), &idx_text("a"));
    assert_eq!(m.key_at(2), &idx_text("y"));
}

#[test]
fn write_by_position_into_mapping_uses_number_key() {
    let mut data = idx_mapping(vec![]);
    data[5] = idx_text("five");
    assert_eq!(data, idx_mapping(vec![(idx_num(5), idx_text("five"))]));
    data[5] = idx_text("cinq");
    assert_eq!(data, idx_mapping(vec![(idx_num(5), idx_text("cinq"))]));
}

#[test]
fn index_or_insert_inserts_null() {
    let mut data = idx_mapping(vec![(idx_text("a"), idx_num(1))]);
    assert_eq!(*"a".index_or_insert(&mut data), idx_num(1));
    assert_eq!(*"b".index_or_insert(&mut data), Value::Null);
    assert_eq!(*idx_text("c").index_or_insert(&mut data), Value::Null);
    assert_eq!(*"d".to_owned().index_or_insert(&mut data), Value::Null);
    assert_eq!(*7usize.index_or_insert(&mut data), Value::Null);
    assert_eq!(
        data,
        idx_mapping(vec![
            (idx_text("a"), idx_num(1)),
            (idx_text("b"), Value::Null),
            (idx_text("c"), Value::Null),
            (idx_text("d"), Value::Null),
            (idx_num(7), Value::Null),
        ])
    );
}

#[test]
fn write_past_the_end_is_refused() {
    let data = Value::Sequence(vec![idx_num(1), idx_num(2)]);
    assert!(!5usize.can_index_or_insert(&data));
    assert!(!2usize.can_index_or_insert(&data));
    assert!(1usize.can_index_or_insert(&data));
    assert!(0usize.can_index_or_insert(&data));
    assert_eq!(data.get(5), None);
    assert_eq!(data, Value::Sequence(vec![idx_num(1), idx_num(2)]));
    assert!(!0usize.can_index_or_insert(&Value::Sequence(vec![])));
}

#[test]
fn write_into_wrong_shape_is_refused() {
    for scalar in [Value::Bool(true), idx_num(1), idx_text("s")] {
        assert!(!"a".can_index_or_insert(&scalar));
        assert!(!idx_text("a").can_index_or_insert(&scalar));
        assert!(!0usize.can_index_or_insert(&scalar));
        assert!(!"a".can_index_or_insert(&idx_tagged("t", scalar.clone())));
    }
    let seq = Value::Sequence(vec![Value::Null]);
    assert!(!"a".can_index_or_insert(&seq));
    assert!(!"a".to_owned().can_index_or_insert(&seq));
    assert!(!(&idx_text("a")).can_index_or_insert(&seq));
    assert!(!0usize.can_index_or_insert(&Value::Null));
    assert!("a".can_index_or_insert(&Value::Null));
    assert!(idx_num(1).can_index_or_insert(&Value::Null));
    assert!("a".can_index_or_insert(&idx_tagged("t", Value::Null)));
    assert!(idx_num(1).can_index_or_insert(&idx_tagged("t", idx_tagged("u", Value::Null))));
    assert!(!0usize.can_index_or_insert(&idx_tagged("t", Value::Null)));
    assert!("a".can_index_or_insert(&idx_mapping(vec![])));
    assert!(0usize.can_index_or_insert(&idx_mapping(vec![])));
    assert!("a".can_index_or_insert(&idx_tagged("t", idx_mapping(vec![]))));
    assert!(0usize.can_index_or_insert(&idx_tagged("t", Value::Sequence(vec![Value::Null]))));
}

#[test]
fn kind_names() {
    assert_eq!(Value::Null.kind_name(), "null");
    assert_eq!(Value::Bool(true).kind_name(), "boolean");
    assert_eq!(idx_num(1).kind_name(), "number");
    assert_eq!(idx_text("s").kind_name(), "string");
    assert_eq!(Value::Sequence(vec![]).kind_name(), "sequence");
    assert_eq!(idx_mapping(vec![]).kind_name(), "mapping");
    assert_eq!(idx_tagged("t", idx_tagged("u", idx_num(1))).kind_name(), "number");
}

#[test]
fn write_into_tagged_null_makes_a_mapping() {
    let mut data = idx_tagged("t", Value::Null);
    assert_eq!(*"a".index_or_insert(&mut data), Value::Null);
    assert_eq!(data, idx_tagged("t", idx_mapping(vec![(idx_text("a"), Value::Null)])));
    let mut deep = idx_tagged("t", idx_tagged("u", Value::Null));
    deep["a"]["b"] = idx_num(1);
    let inner = idx_mapping(vec![(idx_text("a"), idx_mapping(vec![(idx_text("b"), idx_num(1))]))]);
    assert_eq!(deep, idx_tagged("t", idx_tagged("u", inner)));
    let mut keyed = idx_tagged("t", Value::Null);
    *idx_num(7).index_or_insert(&mut keyed) = Value::Bool(true);
    assert_eq!(keyed, idx_tagged("t", idx_mapping(vec![(idx_num(7), Value::Bool(true))])));
}

#[test]
fn write_under_tags_keeps_tags() {
    let mut data = idx_tagged("t", idx_mapping(vec![]));
    data["a"] = idx_num(1);
    assert_eq!(data, idx_tagged("t", idx_mapping(vec![(idx_text("a"), idx_num(1))])));
}
