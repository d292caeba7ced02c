use yaml_value::{Error, Mapping, Number, TaggedValue, Value};

fn text(s: &str) -> Value {
    Value::String(s.to_owned())
}

fn num(n: u64) -> Value {
    Value::Number(Number::from_u64(n))
}

fn mapping(entries: Vec<(Value, Value)>) -> Value {
    let mut m = Mapping::new();
    for (k, v) in entries {
        m.insert(k, v);
    }
    Value::Mapping(m)
}

fn tagged(tag: &str, value: Value) -> Value {
    Value::Tagged(Box::new(TaggedValue { tag: tag.to_owned(), value }))
}

fn keys_of(v: &Value) -> Vec<Value> {
    let m = v.as_mapping().unwrap();
    (0..m.len()).map(|i| m.key_at(i).clone()).collect()
}

#[test]
fn merge_without_merge_key_changes_nothing() {
    let mut v = mapping(vec![
        (text("a"), num(1)),
        (text("b"), Value::Sequence(vec![num(2), mapping(vec![(text("c"), Value::Null)])])),
        (num(3), tagged("t", mapping(vec![(text("<"), num(4))]))),
    ]);
    let before = v.clone();
    assert_eq!(v.apply_merge(), Ok(()));
    assert_eq!(v, before);
    assert_eq!(keys_of(&v), keys_of(&before));
    for mut scalar in [Value::Null, Value::Bool(true), num(1), text("<<")] {
        let copy = scalar.clone();
        assert_eq!(scalar.apply_merge(), Ok(()));
        assert_eq!(scalar, copy);
    }
}

#[test]
fn merge_mapping_keeps_existing_entries() {
    let mut v = mapping(vec![
        (text("a"), num(1)),
        (text("<<"), mapping(vec![(text("a"), num(2)), (text("b"), num(2))])),
    ]);
    assert_eq!(v.apply_merge(), Ok(()));
    assert_eq!(v, mapping(vec![(text("a"), num(1)), (text("b"), num(2))]));
    assert_eq!(keys_of(&v), vec![text("a"), text("b")]);
}

#[test]
fn merge_sequence_earlier_entries_win() {
    let mut v = mapping(vec![(
        text("<<"),
        Value::Sequence(vec![
            mapping(vec![(text("a"), num(1))]),
            mapping(vec![(text("a"), num(2)), (text("b"), num(2))]),
        ]),
    )]);
    assert_eq!(v.apply_merge(), Ok(()));
    assert_eq!(v, mapping(vec![(text("a"), num(1)), (text("b"), num(2))]));
}

#[test]
fn merge_takes_the_place_of_the_merge_key() {
    let mut v = mapping(vec![
        (text("first"), num(1)),
        (text("<<"), mapping(vec![(text("x"), num(7)), (text("y"), num(8))])),
        (text("middle"), num(2)),
        (text("last"), num(3)),
    ]);
    assert_eq!(v.apply_merge(), Ok(()));
    assert_eq!(
        keys_of(&v),
        vec![text("first"), text("last"), text("middle"), text("x"), text("y")]
    );
    assert_eq!(v["x"], num(7));
    assert_eq!(v["<<"], Value::Null);
}

#[test]
fn merge_empty_sources() {
    let mut v = mapping(vec![(text("a"), num(1)), (text("<<"), mapping(vec![]))]);
    assert_eq!(v.apply_merge(), Ok(()));
    assert_eq!(v, mapping(vec![(text("a"), num(1))]));
    let mut v = mapping(vec![(text("a"), num(1)), (text("<<"), Value::Sequence(vec![]))]);
    assert_eq!(v.apply_merge(), Ok(()));
    assert_eq!(v, mapping(vec![(text("a"), num(1))]));
}

#[test]
fn merge_reaches_nested_mappings() {
    let shared = mapping(vec![(text("command"), text("webpack")), (text("args"), text("build"))]);
    let mut v = mapping(vec![(
        text("tasks"),
        mapping(vec![
            (text("build"), shared.clone()),
            (text("start"), mapping(vec![(text("<<"), shared), (text("args"), text("start"))])),
        ]),
    )]);
    assert_eq!(v.apply_merge(), Ok(()));
    assert_eq!(v["tasks"]["start"]["command"], text("webpack"));
    assert_eq!(v["tasks"]["start"]["args"], text("start"));
    assert_eq!(v["tasks"]["build"]["args"], text("build"));
}

#[test]
fn merge_resolves_merged_in_merge_keys() {
    let inner = mapping(vec![(text("<<"), mapping(vec![(text("deep"), num(1))])), (text("own"), num(2))]);
    let mut v = mapping(vec![
        (text("<<"), mapping(vec![(text("child"), inner)])),
        (text("seq"), Value::Sequence(vec![mapping(vec![(text("<<"), mapping(vec![(text("k"), num(3))]))])])),
        (text("tag"), tagged("t", mapping(vec![(text("<<"), mapping(vec![(text("k"), num(4))]))]))),
    ]);
    assert_eq!(v.apply_merge(), Ok(()));
    assert_eq!(v["child"], mapping(vec![(text("own"), num(2)), (text("deep"), num(1))]));
    assert_eq!(v["seq"][0], mapping(vec![(text("k"), num(3))]));
    assert_eq!(v["tag"], tagged("t", mapping(vec![(text("k"), num(4))])));
}

#[test]
fn merge_ignores_merge_keys_inside_keys() {
    let key = mapping(vec![(text("<<"), num(1))]);
    let mut v = mapping(vec![(key.clone(), Value::Null)]);
    assert_eq!(v.apply_merge(), Ok(()));
    assert_eq!(v, mapping(vec![(key, Value::Null)]));
}

#[test]
fn merge_key_must_be_a_plain_string() {
    let mut v = mapping(vec![(tagged("t", text("<<")), num(1))]);
    let before = v.clone();
    assert_eq!(v.apply_merge(), Ok(()));
    assert_eq!(v, before);
}

#[test]
fn merge_errors() {
    let mut v = mapping(vec![(text("<<"), tagged("t", mapping(vec![])))]);
    assert_eq!(v.apply_merge(), Err(Error::TaggedInMerge));
    for scalar in [Value::Null, Value::Bool(true), num(1), text("x")] {
        let mut v = mapping(vec![(text("a"), num(1)), (text("<<"), scalar.clone())]);
        assert_eq!(v.apply_merge(), Err(Error::ScalarInMerge));
        let mut v = mapping(vec![(text("<<"), Value::Sequence(vec![mapping(vec![]), scalar]))]);
        assert_eq!(v.apply_merge(), Err(Error::ScalarInMergeElement));
    }
    let mut v = mapping(vec![(text("<<"), Value::Sequence(vec![Value::Sequence(vec![])]))]);
    assert_eq!(v.apply_merge(), Err(Error::SequenceInMergeElement));
    let mut v = mapping(vec![(text("<<"), Value::Sequence(vec![tagged("t", mapping(vec![]))]))]);
    assert_eq!(v.apply_merge(), Err(Error::TaggedInMerge));
}

#[test]
fn merge_error_of_first_bad_element() {
    let mut v = mapping(vec![(
        text("<<"),
        Value::Sequence(vec![mapping(vec![]), num(1), Value::Sequence(vec![]), tagged("t", Value::Null)]),
    )]);
    assert_eq!(v.apply_merge(), Err(Error::ScalarInMergeElement));
}

#[test]
fn merge_error_in_nested_value() {
    let bad = mapping(vec![(text("<<"), num(1))]);
    let mut v = Value::Sequence(vec![num(0), tagged("t", mapping(vec![(text("k"), bad)]))]);
    assert_eq!(v.apply_merge(), Err(Error::ScalarInMerge));
}

#[test]
fn merge_error_of_last_sibling_comes_first() {
    let scalar = mapping(vec![(text("<<"), num(1))]);
    let tag = mapping(vec![(text("<<"), tagged("t", Value::Null))]);
    let mut v = Value::Sequence(vec![scalar.clone(), tag.clone()]);
    assert_eq!(v.apply_merge(), Err(Error::TaggedInMerge));
    let mut v = Value::Sequence(vec![tag, scalar]);
    assert_eq!(v.apply_merge(), Err(Error::ScalarInMerge));
}

#[test]
fn merge_own_error_comes_before_nested() {
    let nested = mapping(vec![(text("<<"), tagged("t", Value::Null))]);
    let mut v = mapping(vec![(text("child"), nested), (text("<<"), num(1))]);
    assert_eq!(v.apply_merge(), Err(Error::ScalarInMerge));
}

#[test]
fn merge_failure_leaves_the_work_done() {
    let first = mapping(vec![(text("<<"), mapping(vec![(text("x"), num(1))]))]);
    let bad = mapping(vec![(text("k"), num(1)), (text("<<"), num(5))]);
    let last = mapping(vec![(text("<<"), mapping(vec![(text("y"), num(2))]))]);
    let mut v = Value::Sequence(vec![first.clone(), bad, last]);
    assert_eq!(v.apply_merge(), Err(Error::ScalarInMerge));
    let expected = Value::Sequence(vec![
        first,
        mapping(vec![(text("k"), num(1))]),
        mapping(vec![(text("y"), num(2))]),
    ]);
    assert_eq!(v, expected);
    assert_eq!(v[0]["<<"]["x"], num(1));
}

#[test]
fn merge_failure_in_element_keeps_earlier_elements() {
    let mut v = mapping(vec![
        (text("a"), num(0)),
        (
            text("<<"),
            Value::Sequence(vec![
                mapping(vec![(text("b"), num(1))]),
                num(7),
                mapping(vec![(text("c"), num(2))]),
            ]),
        ),
    ]);
    assert_eq!(v.apply_merge(), Err(Error::ScalarInMergeElement));
    assert_eq!(v, mapping(vec![(text("a"), num(0)), (text("b"), num(1))]));
}

#[test]
fn merge_survives_deep_nesting() {
    let depth = 50_000;
    let mut v = mapping(vec![(text("<<"), mapping(vec![(text("a"), num(1))]))]);
    for i in 0..depth {
        v = if i % 2 == 0 { Value::Sequence(vec![v]) } else { tagged("t", v) };
    }
    assert_eq!(v.apply_merge(), Ok(()));
    let mut levels = 0;
    let leaf = loop {
        match v {
            Value::Sequence(mut items) => {
                assert_eq!(items.len(), 1);
                v = items.pop().unwrap();
            }
            Value::Tagged(boxed) => {
                let TaggedValue { tag: _, value } = *boxed;
                v = value;
            }
            other => break other,
        }
        levels += 1;
    };
    assert_eq!(levels, depth);
    assert_eq!(leaf, mapping(vec![(text("a"), num(1))]));
}

#[test]
fn error_messages() {
    assert_eq!(Error::ScalarInMerge.message(), "expected a mapping or list of mappings for merging, but found scalar");
    assert_eq!(Error::TaggedInMerge.message(), "unexpected tagged value in merge");
    assert_eq!(Error::ScalarInMergeElement.message(), "expected a mapping for merging, but found scalar");
    assert_eq!(Error::SequenceInMergeElement.message(), "expected a mapping for merging, but found sequence");
}
