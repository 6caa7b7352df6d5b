use yaml_cleaner::select::{draw, draw_at, pick_index, resolve_weighted_option, DrawError};
use yaml_cleaner::value::{Mapping, Value};

fn s(text: &str) -> Value {
    Value::string(text)
}

fn mapping(pairs: Vec<(Value, Value)>) -> Mapping {
    let mut m = Mapping::new();
    for (k, v) in pairs {
        m.insert(k, v);
    }
    m
}

fn dist(pairs: Vec<(Value, Value)>) -> Value {
    Value::Mapping(mapping(pairs))
}

#[test]
fn draws_follow_the_weights() {
    let d = dist(vec![(s("A"), Value::Int(1)), (s("B"), Value::Int(3))]);
    let mut b: u32 = 0;
    for _ in 0..100_000 {
        let v = draw(&d).unwrap();
        if v == s("B") {
            b += 1;
        } else {
            assert_eq!(v, s("A"));
        }
    }
    // 75 % of 100 000, give or take well over five standard deviations
    assert!(b > 74_000 && b < 76_000, "B came {} times", b);
}

#[test]
fn a_plain_value_is_drawn_as_itself() {
    assert_eq!(draw(&s("only")), Ok(s("only")));
    assert_eq!(draw(&Value::Int(4)), Ok(Value::Int(4)));
    assert_eq!(draw_at(&Value::Null, 7), Ok(Value::Null));
}

#[test]
fn a_distribution_without_weight_is_an_error() {
    assert_eq!(draw(&dist(vec![])), Err(DrawError::EmptyDistribution));
    assert_eq!(
        draw(&dist(vec![(s("a"), Value::Int(0)), (s("b"), Value::Int(0))])),
        Err(DrawError::EmptyDistribution)
    );
    assert_eq!(draw(&dist(vec![(s("a"), s("much"))])), Err(DrawError::EmptyDistribution));
    assert_eq!(
        draw(&dist(vec![(s("a"), Value::Int(5)), (s("b"), Value::Int(-10))])),
        Err(DrawError::EmptyDistribution)
    );
}

#[test]
fn weights_at_or_below_zero_are_never_drawn() {
    let d = dist(vec![
        (s("never"), Value::Int(0)),
        (s("always"), Value::Int(2)),
        (s("neither"), Value::Int(-1)),
        (s("text"), s("2")),
    ]);
    for _ in 0..1000 {
        assert_eq!(draw(&d), Ok(s("always")));
    }
}

#[test]
fn draw_at_counts_the_drawable_candidates() {
    let d = dist(vec![
        (s("zero"), Value::Int(0)),
        (s("one"), Value::Int(1)),
        (s("half"), Value::Float(String::from("0.5"))),
        (s("two"), Value::Float(String::from("2.5"))),
    ]);
    assert_eq!(draw_at(&d, 0), Ok(s("one")));
    assert_eq!(draw_at(&d, 1), Ok(s("two")));
    assert_eq!(draw_at(&d, 2), Err(DrawError::EmptyDistribution));
}

#[test]
fn resolving_puts_the_drawn_value_in_place() {
    let mut hash = mapping(vec![
        (s("first"), Value::Int(1)),
        (s("version"), dist(vec![(s("red"), Value::Int(0)), (s("blue"), Value::Int(50))])),
        (s("last"), Value::Int(2)),
    ]);
    assert_eq!(resolve_weighted_option(&mut hash, "version"), Ok(()));
    assert_eq!(
        hash,
        mapping(vec![(s("first"), Value::Int(1)), (s("version"), s("blue")), (s("last"), Value::Int(2))])
    );
    // a plain value and a missing option stay
    assert_eq!(resolve_weighted_option(&mut hash, "version"), Ok(()));
    assert_eq!(resolve_weighted_option(&mut hash, "missing"), Ok(()));
    assert_eq!(hash.len(), 3);
}

#[test]
fn resolving_an_empty_distribution_fails_and_keeps_it() {
    let mut hash = mapping(vec![(s("version"), dist(vec![(s("red"), Value::Int(0))]))]);
    assert_eq!(resolve_weighted_option(&mut hash, "version"), Err(DrawError::EmptyDistribution));
    assert_eq!(hash, mapping(vec![(s("version"), dist(vec![(s("red"), Value::Int(0))]))]));
}

#[test]
fn an_index_is_picked_among_the_weights_above_zero() {
    for _ in 0..200 {
        assert_eq!(pick_index(&vec![0, -3, 5, 0]), Ok(2));
    }
    assert_eq!(pick_index(&vec![]), Err(DrawError::EmptyDistribution));
    assert_eq!(pick_index(&vec![0, 0]), Err(DrawError::EmptyDistribution));
    assert_eq!(pick_index(&vec![4, -4]), Err(DrawError::EmptyDistribution));
    let mut second = 0;
    for _ in 0..10_000 {
        match pick_index(&vec![i64::MAX, i64::MAX]) {
            Ok(1) => second += 1,
            Ok(0) => {}
            other => panic!("{:?}", other),
        }
    }
    assert!(second > 4_500 && second < 5_500, "the second came {} times", second);
}
