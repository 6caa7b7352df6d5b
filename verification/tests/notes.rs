use yaml_cleaner::notes::{
    change_option_name, get_value_or_default, int_text, join_texts, push_value_or_default,
    to_string, unsigned_text,
};
use yaml_cleaner::value::{Mapping, Value};

fn s(text: &str) -> Value {
    Value::string(text)
}

fn mapping(pairs: Vec<(Value, Value)>) -> Mapping {
    let mut m = Mapping::new();
    for (k, v) in pairs {
        m.insert(k, v);
    }
    m
}

fn dist(pairs: Vec<(Value, Value)>) -> Value {
    Value::Mapping(mapping(pairs))
}

#[test]
fn numbers_are_written_in_decimal() {
    for n in [0i64, 1, 9, 10, 11, 99, 100, 12345, -1, -10, -987, i64::MAX, i64::MIN] {
        assert_eq!(int_text(n), n.to_string());
    }
    for n in [0u64, 7, 10, 4294967295, u64::MAX] {
        assert_eq!(unsigned_text(n), n.to_string());
    }
}

#[test]
fn texts_are_joined_with_the_separator_between_them() {
    let none: Vec<String> = vec![];
    assert_eq!(join_texts(&none, ", "), "");
    assert_eq!(join_texts(&vec![String::from("a")], ", "), "a");
    assert_eq!(
        join_texts(&vec![String::from("a"), String::new(), String::from("c")], ", "),
        "a, , c"
    );
}

#[test]
fn scalars_in_words() {
    assert_eq!(to_string(&s("plain")), "plain");
    assert_eq!(to_string(&Value::Float(String::from("2.50"))), "2.50");
    assert_eq!(to_string(&Value::Int(-12)), "-12");
    assert_eq!(to_string(&Value::Bool(true)), "true");
    assert_eq!(to_string(&Value::Bool(false)), "false");
    assert_eq!(to_string(&Value::Null), "~");
    assert_eq!(to_string(&Value::Invalid), "Invalid");
    assert_eq!(to_string(&Value::Alias(3)), "Unknown");
}

#[test]
fn sequences_in_words() {
    assert_eq!(to_string(&Value::Sequence(vec![])), "[]");
    assert_eq!(
        to_string(&Value::Sequence(vec![s("Story"), Value::Int(2), Value::Sequence(vec![Value::Null])])),
        "[Story, 2, [~]]"
    );
}

#[test]
fn mappings_in_words() {
    // nothing to draw: the keys
    assert_eq!(to_string(&dist(vec![])), "{}");
    assert_eq!(
        to_string(&dist(vec![(s("a"), Value::Int(0)), (s("b"), s("x"))])),
        "{a, b}"
    );
    // one candidate to draw: its name up to the first colon
    assert_eq!(
        to_string(&dist(vec![(s("normal"), Value::Int(50)), (s("hard"), Value::Int(0))])),
        "normal"
    );
    assert_eq!(to_string(&dist(vec![(s("a:b"), Value::Int(1))])), "a");
    // several: all with their weights
    assert_eq!(
        to_string(&dist(vec![
            (s("normal"), Value::Int(50)),
            (s("off"), Value::Int(0)),
            (s("hard"), Value::Float(String::from("2.5"))),
        ])),
        "{normal: 50, hard: 2.5}"
    );
}

#[test]
fn value_or_default_reads_the_option() {
    let hash = mapping(vec![(s("logic"), s("glitched")), (Value::Int(7), Value::Bool(true))]);
    assert_eq!(get_value_or_default(&hash, "logic", "normal"), "glitched");
    assert_eq!(get_value_or_default(&hash, "mode", "normal"), "normal");
    assert_eq!(get_value_or_default(&hash, "7", "no"), "true");
    let mut notes = vec![String::from("first")];
    push_value_or_default(&mut notes, &hash, "logic", "normal");
    push_value_or_default(&mut notes, &hash, "dlc", "[]");
    assert_eq!(notes, vec!["first", "logic: glitched", "dlc: []"]);
}

#[test]
fn an_option_gets_a_new_name_at_the_end() {
    let mut hash = mapping(vec![
        (s("trap_items"), s("many")),
        (s("goal"), s("x")),
        (s("trap_difficulty"), s("old")),
    ]);
    change_option_name(&mut hash, "trap_items", "trap_difficulty");
    assert_eq!(hash, mapping(vec![(s("goal"), s("x")), (s("trap_difficulty"), s("many"))]));
    change_option_name(&mut hash, "missing", "new");
    assert_eq!(hash.len(), 2);
}
