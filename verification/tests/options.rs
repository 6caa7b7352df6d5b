use yaml_cleaner::options::{
    handle_non_string_strings, merge_marked, move_option_weight, move_option_weight_matches,
    move_option_weight_to_yaml, option_can_be, option_can_be_other_than, query_can_be,
    query_can_be_other_than, rename,
};
use yaml_cleaner::scalar::as_i64;
use yaml_cleaner::value::{Mapping, Value};

fn s(text: &str) -> Value {
    Value::string(text)
}

fn mapping(pairs: Vec<(Value, Value)>) -> Mapping {
    let mut m = Mapping::new();
    for (k, v) in pairs {
        m.insert(k, v);
    }
    m
}

fn dist(pairs: Vec<(Value, Value)>) -> Value {
    Value::Mapping(mapping(pairs))
}

fn total(v: &Value) -> i64 {
    match v {
        Value::Mapping(m) => m.entries().iter().map(|(_, w)| as_i64(w).unwrap_or(0)).sum(),
        _ => panic!("not a distribution"),
    }
}

#[test]
fn a_string_that_reads_true_can_be_true() {
    assert!(query_can_be(Some(&s("true")), &Value::Bool(false), &Value::Bool(true)));
    assert!(query_can_be(Some(&Value::Bool(true)), &Value::Bool(false), &Value::Bool(true)));
    assert!(query_can_be(Some(&s("TRUE")), &Value::Bool(false), &Value::Bool(true)));
    assert!(query_can_be(Some(&s("False")), &Value::Bool(true), &Value::Bool(false)));
    assert!(!query_can_be(Some(&s("truely")), &Value::Bool(false), &Value::Bool(true)));
    assert!(!query_can_be(Some(&s("yes")), &Value::Bool(false), &Value::Bool(true)));
}

#[test]
fn rename_of_a_candidate_without_weight_drops_it() {
    let mut node = dist(vec![(s("foo"), Value::Int(10)), (s("bar"), Value::Int(0))]);
    let found = rename(&mut node, &s("bar"), &s("baz"));
    assert!(found);
    assert_eq!(node, dist(vec![(s("foo"), Value::Int(10))]));
}

#[test]
fn merge_by_predicate_moves_the_marked_weight() {
    let mut node = dist(vec![(s("a"), Value::Int(40)), (s("b"), Value::Int(60))]);
    let weights: Vec<i64> = vec![40, 60];
    let flags: Vec<bool> = weights.iter().map(|w| *w >= 50).collect();
    merge_marked(&mut node, false, &flags, &s("big"));
    assert_eq!(node, dist(vec![(s("a"), Value::Int(40)), (s("big"), Value::Int(60))]));
}

#[test]
fn rename_keeps_the_total_weight() {
    let mut node = dist(vec![
        (s("a"), Value::Int(7)),
        (s("b"), Value::Int(5)),
        (s("c"), Value::Int(-3)),
    ]);
    let before = total(&node);
    rename(&mut node, &s("a"), &s("c"));
    assert_eq!(total(&node), before);
    assert_eq!(node, dist(vec![(s("b"), Value::Int(5)), (s("c"), Value::Int(4))]));
    // a dropped entry takes only its own weight along
    rename(&mut node, &s("c"), &s("b"));
    assert_eq!(node, dist(vec![(s("b"), Value::Int(9))]));
    let mut other = dist(vec![(s("x"), Value::Int(-2)), (s("y"), Value::Int(3))]);
    rename(&mut other, &s("x"), &s("y"));
    assert_eq!(other, dist(vec![(s("y"), Value::Int(3))]));
}

#[test]
fn rename_adds_into_the_place_of_the_target() {
    let mut node = dist(vec![
        (s("to"), Value::Int(1)),
        (s("from"), Value::Int(2)),
        (s("rest"), Value::Int(3)),
    ]);
    rename(&mut node, &s("from"), &s("to"));
    assert_eq!(node, dist(vec![(s("to"), Value::Int(3)), (s("rest"), Value::Int(3))]));
}

#[test]
fn rename_appends_a_new_target() {
    let mut node = dist(vec![(s("from"), Value::Int(2)), (s("rest"), Value::Int(3))]);
    rename(&mut node, &s("from"), &s("to"));
    assert_eq!(node, dist(vec![(s("rest"), Value::Int(3)), (s("to"), Value::Int(2))]));
}

#[test]
fn rename_replaces_a_weight_that_is_no_number() {
    let mut node = dist(vec![
        (s("to"), s("often")),
        (s("from"), Value::Int(2)),
        (s("rest"), Value::Int(3)),
    ]);
    rename(&mut node, &s("from"), &s("to"));
    assert_eq!(node, dist(vec![(s("rest"), Value::Int(3)), (s("to"), Value::Int(2))]));
}

#[test]
fn rename_counts_a_float_weight_cut_off() {
    let mut node = dist(vec![
        (s("to"), Value::Float(String::from("2.9"))),
        (s("from"), Value::Float(String::from("3.5"))),
    ]);
    rename(&mut node, &s("from"), &s("to"));
    assert_eq!(node, dist(vec![(s("to"), Value::Int(5))]));
    assert_eq!(as_i64(&Value::Float(String::from("-2.9"))), Some(-2));
    assert_eq!(as_i64(&Value::Float(String::from("abc"))), None);
    assert_eq!(as_i64(&s("12")), None);
    assert_eq!(as_i64(&Value::Int(12)), Some(12));
}

#[test]
fn rename_of_a_plain_value_replaces_it() {
    let mut node = s("old");
    assert!(rename(&mut node, &s("old"), &s("new")));
    assert_eq!(node, s("new"));
    let mut other = s("else");
    assert!(!rename(&mut other, &s("old"), &s("new")));
    assert_eq!(other, s("else"));
}

#[test]
fn rename_that_would_overflow_changes_nothing() {
    let mut node = dist(vec![(s("a"), Value::Int(i64::MAX)), (s("b"), Value::Int(1))]);
    assert!(rename(&mut node, &s("b"), &s("a")));
    assert_eq!(node, dist(vec![(s("a"), Value::Int(i64::MAX)), (s("b"), Value::Int(1))]));
}

#[test]
fn merge_that_would_overflow_changes_nothing() {
    let mut node = dist(vec![(s("a"), Value::Int(i64::MAX)), (s("b"), Value::Int(1))]);
    merge_marked(&mut node, false, &vec![false, true], &s("a"));
    assert_eq!(node, dist(vec![(s("a"), Value::Int(i64::MAX)), (s("b"), Value::Int(1))]));
}

#[test]
fn merge_counts_a_marked_target_once() {
    let mut node = dist(vec![
        (Value::Int(50), Value::Int(10)),
        (Value::Int(60), Value::Int(5)),
        (Value::Int(40), Value::Int(1)),
    ]);
    move_option_weight_matches(&mut node, |v| as_i64(v).map_or(false, |n| n >= 50), "50");
    assert_eq!(
        node,
        dist(vec![(Value::Int(40), Value::Int(1)), (Value::Int(50), Value::Int(15))])
    );
}

#[test]
fn merge_drops_marked_entries_without_weight() {
    let mut node = dist(vec![
        (s("a"), Value::Int(0)),
        (s("b"), Value::Int(-4)),
        (s("c"), Value::Int(6)),
    ]);
    merge_marked(&mut node, false, &vec![true, true, false], &s("t"));
    assert_eq!(node, dist(vec![(s("c"), Value::Int(6))]));
}

#[test]
fn merge_of_a_marked_plain_value_replaces_it() {
    let mut node = Value::Int(95);
    move_option_weight_matches(&mut node, |v| as_i64(v).map_or(false, |n| n >= 90), "high");
    assert_eq!(node, s("high"));
    let mut low = Value::Int(10);
    move_option_weight_matches(&mut low, |v| as_i64(v).map_or(false, |n| n >= 90), "high");
    assert_eq!(low, Value::Int(10));
}

#[test]
fn move_option_weight_reads_the_names_as_scalars() {
    let mut node = dist(vec![(Value::Bool(true), Value::Int(3)), (Value::Bool(false), Value::Int(1))]);
    move_option_weight(&mut node, "true", "enabled");
    move_option_weight(&mut node, "false", "0");
    assert_eq!(node, dist(vec![(s("enabled"), Value::Int(3)), (Value::Int(0), Value::Int(1))]));
}

#[test]
fn move_option_weight_falls_back_to_the_name_as_a_string() {
    let mut node = dist(vec![(s("true"), Value::Int(3))]);
    move_option_weight(&mut node, "true", "on");
    assert_eq!(node, dist(vec![(s("on"), Value::Int(3))]));
    let mut plain = s("12");
    move_option_weight_to_yaml(&mut plain, "12", Value::Sequence(vec![s("x")]));
    assert_eq!(plain, Value::Sequence(vec![s("x")]));
}

#[test]
fn normalizing_leaves_other_values_alone() {
    assert_eq!(handle_non_string_strings(s("tRuE")), Value::Bool(true));
    assert_eq!(handle_non_string_strings(s("FALSE")), Value::Bool(false));
    assert_eq!(handle_non_string_strings(s("maybe")), s("maybe"));
    assert_eq!(handle_non_string_strings(Value::Int(1)), Value::Int(1));
    assert_eq!(handle_non_string_strings(Value::Null), Value::Null);
}

#[test]
fn only_ascii_letters_read_as_truth_values() {
    // the small letters of "true" and "false" come from no other character
    // when a string is put into small letters
    for code in 0x80u32..=0x10FFFF {
        if let Some(c) = char::from_u32(code) {
            let lower: String = c.to_lowercase().collect();
            assert!(
                !matches!(lower.as_str(), "t" | "r" | "u" | "e" | "f" | "a" | "l" | "s"),
                "U+{:04X}",
                code
            );
        }
    }
    for word in ["true", "True", "TRUE", "tRUe", "false", "FALSE", "fAlSe"] {
        let expected = Value::Bool(word.to_lowercase() == "true");
        assert_eq!(handle_non_string_strings(s(word)), expected);
    }
}

#[test]
fn queries_look_into_distributions() {
    let hash = mapping(vec![
        (s("goal"), dist(vec![(s("a"), Value::Int(0)), (s("b"), Value::Int(2))])),
        (s("mode"), s("easy")),
        (s("flag"), dist(vec![(s("true"), Value::Int(1))])),
    ]);
    assert!(!option_can_be(&hash, "goal", &s("a"), &s("a")));
    assert!(option_can_be(&hash, "goal", &s("a"), &s("b")));
    assert!(option_can_be(&hash, "mode", &s("hard"), &s("easy")));
    assert!(!option_can_be(&hash, "mode", &s("hard"), &s("hard")));
    assert!(option_can_be(&hash, "missing", &s("hard"), &s("hard")));
    assert!(!option_can_be(&hash, "missing", &s("hard"), &s("easy")));
    assert!(option_can_be(&hash, "flag", &Value::Bool(false), &Value::Bool(true)));

    assert!(option_can_be_other_than(&hash, "goal", &s("a"), &s("a")));
    assert!(!option_can_be_other_than(&hash, "goal", &s("a"), &s("b")));
    assert!(option_can_be_other_than(&hash, "mode", &s("easy"), &s("hard")));
    assert!(!option_can_be_other_than(&hash, "mode", &s("hard"), &s("easy")));
    assert!(!option_can_be_other_than(&hash, "missing", &s("x"), &s("x")));
    assert!(option_can_be_other_than(&hash, "missing", &s("x"), &s("y")));
    assert!(!option_can_be_other_than(&hash, "flag", &Value::Bool(false), &Value::Bool(true)));
    assert!(query_can_be_other_than(None, &Value::Int(1), &Value::Int(2)));
}
