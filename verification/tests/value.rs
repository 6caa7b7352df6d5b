use hashlink::LinkedHashMap;
use yaml_cleaner::value::{Mapping, Value};

fn s(text: &str) -> Value {
    Value::string(text)
}

fn keys(m: &Mapping) -> Vec<Value> {
    m.entries().iter().map(|(k, _)| k.duplicate()).collect()
}

#[test]
fn mapping_keeps_the_order_of_insertion() {
    let mut m = Mapping::new();
    assert!(m.is_empty());
    assert_eq!(m.insert(s("b"), Value::Int(1)), None);
    assert_eq!(m.insert(s("a"), Value::Int(2)), None);
    assert_eq!(m.insert(Value::Int(3), Value::Null), None);
    assert_eq!(m.len(), 3);
    assert_eq!(keys(&m), vec![s("b"), s("a"), Value::Int(3)]);
    assert_eq!(m.get(&s("a")), Some(&Value::Int(2)));
    assert_eq!(m.get(&s("c")), None);
    assert!(m.contains_key(&Value::Int(3)));
    assert!(!m.contains_key(&s("3")));
}

#[test]
fn insert_of_a_key_that_is_there_moves_it_to_the_end() {
    let mut m = Mapping::new();
    m.insert(s("a"), Value::Int(1));
    m.insert(s("b"), Value::Int(2));
    assert_eq!(m.insert(s("a"), Value::Int(3)), Some(Value::Int(1)));
    assert_eq!(keys(&m), vec![s("b"), s("a")]);
    assert_eq!(m.get(&s("a")), Some(&Value::Int(3)));
}

#[test]
fn remove_keeps_the_order_of_the_rest() {
    let mut m = Mapping::new();
    m.insert(s("a"), Value::Int(1));
    m.insert(s("b"), Value::Int(2));
    m.insert(s("c"), Value::Int(3));
    assert_eq!(m.remove(&s("b")), Some(Value::Int(2)));
    assert_eq!(m.remove(&s("b")), None);
    assert_eq!(keys(&m), vec![s("a"), s("c")]);
}

#[test]
fn get_mut_changes_a_value_in_place() {
    let mut m = Mapping::new();
    m.insert(s("a"), Value::Int(1));
    m.insert(s("b"), Value::Int(2));
    if let Some(v) = m.get_mut(&s("a")) {
        *v = s("changed");
    }
    assert!(m.get_mut(&s("zz")).is_none());
    assert_eq!(keys(&m), vec![s("a"), s("b")]);
    assert_eq!(m.get(&s("a")), Some(&s("changed")));
}

#[test]
fn the_mapping_does_what_the_linked_hash_map_does() {
    let mut ours = Mapping::new();
    let mut theirs: LinkedHashMap<i64, i64> = LinkedHashMap::new();
    let steps: Vec<(bool, i64)> = vec![
        (true, 1),
        (true, 2),
        (true, 3),
        (true, 1),
        (false, 2),
        (true, 4),
        (false, 9),
        (true, 3),
        (false, 1),
        (true, 2),
    ];
    for (n, (insert, key)) in steps.iter().enumerate() {
        let value = n as i64;
        if *insert {
            let a = ours.insert(Value::Int(*key), Value::Int(value));
            let b = theirs.insert(*key, value);
            assert_eq!(a, b.map(Value::Int));
        } else {
            let a = ours.remove(&Value::Int(*key));
            let b = theirs.remove(key);
            assert_eq!(a, b.map(Value::Int));
        }
        let a: Vec<(Value, Value)> =
            ours.entries().iter().map(|(k, v)| (k.duplicate(), v.duplicate())).collect();
        let b: Vec<(Value, Value)> =
            theirs.iter().map(|(k, v)| (Value::Int(*k), Value::Int(*v))).collect();
        assert_eq!(a, b);
    }
}

#[test]
fn same_is_structural_and_minds_the_order() {
    let mut a = Mapping::new();
    a.insert(s("x"), Value::Sequence(vec![Value::Int(1), s("y")]));
    a.insert(s("z"), Value::Null);
    let mut b = Mapping::new();
    b.insert(s("x"), Value::Sequence(vec![Value::Int(1), s("y")]));
    b.insert(s("z"), Value::Null);
    let mut c = Mapping::new();
    c.insert(s("z"), Value::Null);
    c.insert(s("x"), Value::Sequence(vec![Value::Int(1), s("y")]));
    let (a, b, c) = (Value::Mapping(a), Value::Mapping(b), Value::Mapping(c));
    assert!(a.same(&b));
    assert!(!a.same(&c));
    assert!(!a.same(&Value::Null));
    assert!(Value::Float(String::from("1.0")).same(&Value::Float(String::from("1.0"))));
    assert!(!Value::Float(String::from("1.0")).same(&Value::Float(String::from("1.00"))));
    assert!(!Value::Int(1).same(&s("1")));
    assert!(Value::Alias(2).same(&Value::Alias(2)));
    assert!(!Value::Invalid.same(&Value::Null));
    // the derived equality agrees
    assert_eq!(a, b);
    assert_ne!(a, c);
}

#[test]
fn duplicate_copies_the_whole_tree() {
    let mut inner = Mapping::new();
    inner.insert(s("k"), Value::Sequence(vec![Value::Bool(true), Value::Float(String::from("2.5"))]));
    let mut outer = Mapping::new();
    outer.insert(Value::Mapping(inner), Value::Alias(1));
    outer.insert(Value::Invalid, Value::Null);
    let v = Value::Mapping(outer);
    let w = v.duplicate();
    assert_eq!(v, w);
    assert!(v.same(&w));
}

#[test]
fn parse_scalar_reads_plain_text_as_yaml_does() {
    assert_eq!(Value::parse_scalar("42"), Value::Int(42));
    assert_eq!(Value::parse_scalar("0x2A"), Value::Int(42));
    assert_eq!(Value::parse_scalar("+7"), Value::Int(7));
    assert_eq!(Value::parse_scalar("~"), Value::Null);
    assert_eq!(Value::parse_scalar("null"), Value::Null);
    assert_eq!(Value::parse_scalar("true"), Value::Bool(true));
    assert_eq!(Value::parse_scalar("false"), Value::Bool(false));
    assert_eq!(Value::parse_scalar("3.14"), Value::Float(String::from("3.14")));
    assert_eq!(Value::parse_scalar("foo"), s("foo"));
    assert_eq!(Value::parse_scalar("random-range-50-90"), s("random-range-50-90"));
}
