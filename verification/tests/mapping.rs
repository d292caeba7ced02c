use yaml_value::{Mapping, Number, Value};

fn map_text(s: &str) -> Value {
    Value::String(s.to_owned())
}

fn map_num(n: u64) -> Value {
    Value::Number(Number::from_u64(n))
}

fn map_abc() -> Mapping {
    let mut m = Mapping::new();
    m.insert(map_text("a"), map_num(1));
    m.insert(map_text("b"), map_num(2));
    m.insert(map_text("c"), map_num(3));
    m
}

fn map_keys(m: &Mapping) -> Vec<Value> {
    (0..m.len()).map(|i| m.key_at(i).clone()).collect()
}

#[test]
fn new_mapping_is_empty() {
    let m = Mapping::new();
    assert_eq!(m.len(), 0);
    assert!(m.is_empty());
    assert_eq!(m.get(&Value::Null), None);
    assert_eq!(m.get_str("a"), None);
    assert!(!m.contains_key(&Value::Null));
}

#[test]
fn insert_keeps_insertion_order() {
    let m = map_abc();
    assert_eq!(m.len(), 3);
    assert!(!m.is_empty());
    assert_eq!(map_keys(&m), vec![map_text("a"), map_text("b"), map_text("c")]);
    assert_eq!(m.value_at(0), &map_num(1));
    assert_eq!(m.value_at(2), &map_num(3));
}

#[test]
fn insert_replaces_in_place() {
    let mut m = map_abc();
    assert_eq!(m.insert(map_text("b"), map_num(20)), Some(map_num(2)));
    assert_eq!(m.len(), 3);
    assert_eq!(map_keys(&m), vec![map_text("a"), map_text("b"), map_text("c")]);
    assert_eq!(m.get_str("b"), Some(&map_num(20)));
    assert_eq!(m.insert(map_text("d"), map_num(4)), None);
    assert_eq!(m.len(), 4);
    assert_eq!(m.position(&map_text("d")), Some(3));
}

#[test]
fn keys_of_any_kind() {
    let mut m = Mapping::new();
    m.insert(Value::Null, map_num(0));
    m.insert(Value::Bool(true), map_num(1));
    m.insert(map_num(2), map_num(2));
    m.insert(Value::Sequence(vec![map_num(3)]), map_num(3));
    m.insert(map_text("4"), map_num(4));
    assert_eq!(m.len(), 5);
    assert_eq!(m.get(&Value::Null), Some(&map_num(0)));
    assert_eq!(m.get(&Value::Bool(true)), Some(&map_num(1)));
    assert_eq!(m.get(&Value::Bool(false)), None);
    assert_eq!(m.get(&map_num(2)), Some(&map_num(2)));
    assert_eq!(m.get(&Value::Sequence(vec![map_num(3)])), Some(&map_num(3)));
    assert_eq!(m.get(&Value::Sequence(vec![])), None);
    assert_eq!(m.get(&map_text("4")), Some(&map_num(4)));
    assert_eq!(m.get(&map_num(4)), None);
}

#[test]
fn text_lookup_matches_value_lookup() {
    let mut m = map_abc();
    m.insert(map_num(7), map_num(70));
    for key in ["a", "b", "c", "d", "", "7", "ab"] {
        assert_eq!(m.get_str(key), m.get(&map_text(key)));
        assert_eq!(m.position_str(key), m.position(&map_text(key)));
        assert_eq!(m.contains_key(&map_text(key)), m.get_str(key).is_some());
    }
    assert_eq!(m.get_str("a"), Some(&map_num(1)));
    assert_eq!(m.get_str("b"), Some(&map_num(2)));
    assert_eq!(m.position_str("c"), Some(2));
    assert_eq!(m.get_str("7"), None);
}

#[test]
fn mapping_get_mut_changes_in_place() {
    let mut m = map_abc();
    *m.get_mut(&map_text("a")).unwrap() = Value::Null;
    *m.get_str_mut("c").unwrap() = Value::Bool(true);
    assert!(m.get_mut(&map_text("z")).is_none());
    assert!(m.get_str_mut("z").is_none());
    *m.value_mut_at(1) = map_text("two");
    assert_eq!(m.get_str("a"), Some(&Value::Null));
    assert_eq!(m.get_str("b"), Some(&map_text("two")));
    assert_eq!(m.get_str("c"), Some(&Value::Bool(true)));
    assert_eq!(m.len(), 3);
}

#[test]
fn or_insert_fetches_or_adds() {
    let mut m = map_abc();
    assert_eq!(*m.or_insert(map_text("a"), Value::Null), map_num(1));
    assert_eq!(m.len(), 3);
    assert_eq!(*m.or_insert(map_text("d"), Value::Null), Value::Null);
    assert_eq!(m.len(), 4);
    *m.or_insert(map_text("e"), Value::Null) = map_num(5);
    assert_eq!(m.get_str("e"), Some(&map_num(5)));
    assert_eq!(map_keys(&m).last(), Some(&map_text("e")));
}

#[test]
fn remove_moves_the_last_entry() {
    let mut m = map_abc();
    assert_eq!(m.remove(&map_text("a")), Some(map_num(1)));
    assert_eq!(map_keys(&m), vec![map_text("c"), map_text("b")]);
    assert_eq!(m.remove(&map_text("a")), None);
    assert_eq!(m.remove_str("b"), Some(map_num(2)));
    assert_eq!(map_keys(&m), vec![map_text("c")]);
    assert_eq!(m.remove_str("x"), None);
    assert_eq!(m.swap_remove_at(0), (map_text("c"), map_num(3)));
    assert!(m.is_empty());
}

#[test]
fn merge_absent_adds_only_new_keys() {
    let mut m = map_abc();
    let mut other = Mapping::new();
    other.insert(map_text("c"), map_num(30));
    other.insert(map_text("d"), map_num(40));
    other.insert(map_text("a"), map_num(10));
    other.insert(map_text("e"), map_num(50));
    m.merge_absent(other);
    assert_eq!(
        map_keys(&m),
        vec![map_text("a"), map_text("b"), map_text("c"), map_text("d"), map_text("e")]
    );
    assert_eq!(m.get_str("a"), Some(&map_num(1)));
    assert_eq!(m.get_str("c"), Some(&map_num(3)));
    assert_eq!(m.get_str("d"), Some(&map_num(40)));
    assert_eq!(m.get_str("e"), Some(&map_num(50)));
}

#[test]
fn into_entries_keeps_order() {
    let entries = map_abc().into_entries();
    assert_eq!(
        entries,
        vec![(map_text("a"), map_num(1)), (map_text("b"), map_num(2)), (map_text("c"), map_num(3))]
    );
    assert!(Mapping::new().into_entries().is_empty());
}

#[test]
fn values_mut_reaches_every_value() {
    let mut m = map_abc();
    let values = m.values_mut();
    assert_eq!(values.len(), 3);
    for (i, v) in values.into_iter().enumerate() {
        assert_eq!(*v, map_num(i as u64 + 1));
        *v = map_num(10 * (i as u64 + 1));
    }
    assert_eq!(m.get_str("a"), Some(&map_num(10)));
    assert_eq!(m.get_str("b"), Some(&map_num(20)));
    assert_eq!(m.get_str("c"), Some(&map_num(30)));
    assert_eq!(map_keys(&m), vec![map_text("a"), map_text("b"), map_text("c")]);
}
