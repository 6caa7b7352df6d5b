use yaml_cleaner::compare::compare;
use yaml_cleaner::report::{points_of, write_to_bot_output, write_to_output_list};
use yaml_cleaner::value::{Mapping, Value};

fn s(text: &str) -> Value {
    Value::string(text)
}

fn dist(pairs: Vec<(Value, Value)>) -> Value {
    let mut m = Mapping::new();
    for (k, v) in pairs {
        m.insert(k, v);
    }
    Value::Mapping(m)
}

fn game(name: &str, count: u32, notes: Vec<&str>) -> (String, u32, Vec<String>) {
    (String::from(name), count, notes.into_iter().map(String::from).collect())
}

fn valid() -> Vec<String> {
    vec![String::from("Hollow Knight"), String::from("Stardew Valley"), String::from("Clique")]
}

#[test]
fn one_game_makes_a_plain_line() {
    let r = write_to_output_list("Alice", &[game("Hollow Knight", 1, vec!["Skips: none"])], &valid());
    assert_eq!(r.line, "Alice\tHollow Knight\tSkips: none\t2\n");
    assert!(r.messages.is_empty());
    let r = write_to_output_list("Alice", &[game("Hollow Knight", 3, vec![])], &valid());
    assert_eq!(r.line, "Alice\tHollow Knight *3\t\t2\n");
}

#[test]
fn several_games_are_quoted() {
    let games = [
        game("Hollow Knight", 1, vec!["Skips: none"]),
        game("Stardew Valley", 2, vec!["mods: []", "goal: x"]),
        game("Clique", 1, vec![]),
    ];
    let r = write_to_output_list("Bob", &games, &valid());
    assert_eq!(
        r.line,
        "Bob\t\"Hollow Knight AND\n Stardew Valley *2 AND\n Clique\"\t\"Skips: none\nmods: [], goal: x\"\t4\n"
    );
    assert!(r.messages.is_empty());
    assert_eq!(
        write_to_bot_output("Bob", &games),
        "Bob\nHollow Knight x1, Stardew Valley x2, Clique x1\nSkips: none, mods: [], goal: x\n4\n"
    );
}

#[test]
fn no_game_and_unknown_games_are_told() {
    let r = write_to_output_list("Carol", &[], &valid());
    assert_eq!(r.line, "Carol\t\t\t1\n");
    assert_eq!(r.messages, vec!["'Carol.yaml' has no game specified"]);
    let r = write_to_output_list("Dan", &[game("Mystery", 1, vec![])], &valid());
    assert_eq!(r.messages, vec!["'Dan.yaml' contains invalid game: Mystery"]);
    let r = write_to_output_list(
        "Dan",
        &[game("Mystery", 1, vec![]), game("Hollow Knight", 1, vec![]), game("Other", 2, vec![]), game("Unused", 0, vec![])],
        &valid(),
    );
    assert_eq!(r.messages, vec!["'Dan.yaml' contains invalid games: [Mystery, Other]"]);
    assert_eq!(write_to_bot_output("Carol", &[]), "Carol\n\n\n1\n");
}

#[test]
fn points_count_the_first_eight_games_that_count() {
    assert_eq!(points_of(&[]), 1);
    assert_eq!(points_of(&[game("Clique", 1, vec![])]), 1);
    assert_eq!(points_of(&[game("Autopelago", 1, vec![]), game("APBingo", 1, vec![])]), 1);
    assert_eq!(points_of(&[game("Keymaster's Keep", 1, vec![]), game("X", 1, vec![])]), 4);
    let mut many = vec![game("Clique", 1, vec![])];
    for i in 0..8 {
        many.push(game(&format!("G{}", i), 1, vec![]));
    }
    many.push(game("Stardew Valley", 1, vec![]));
    // Clique is skipped, eight games count, the tenth does not
    assert_eq!(points_of(&many), 9);
    let mut idle = vec![];
    for _ in 0..8 {
        idle.push(game("Archipelago", 1, vec![]));
    }
    idle.push(game("X", 1, vec![]));
    // games that are worth nothing still take a place among the eight
    assert_eq!(points_of(&idle), 1);
}

#[test]
fn changes_between_two_versions() {
    let none: Vec<String> = vec![];
    assert_eq!(compare("n", &Value::Int(1), &Value::Int(1)), none);
    assert_eq!(compare("n", &Value::Int(1), &Value::Int(2)), vec!["n: Value changed from 1 to 2"]);
    assert_eq!(compare("n", &s("a"), &s("b")), vec!["n: Value changed from a to b"]);
    assert_eq!(
        compare("n", &Value::Bool(true), &Value::Bool(false)),
        vec!["n: Value changed from true to false"]
    );
    assert_eq!(compare("n", &Value::Alias(1), &Value::Alias(2)), vec!["n: Value changed from 1 to 2"]);
    assert_eq!(compare("n", &Value::Null, &Value::Null), none);
    assert_eq!(compare("n", &Value::Int(1), &s("1")), vec!["n: Type changed"]);
    assert_eq!(compare("n", &Value::Null, &Value::Invalid), vec!["n: Type changed"]);
}

#[test]
fn changes_between_two_sequences() {
    let a = Value::Sequence(vec![s("x"), s("y")]);
    let none: Vec<String> = vec![];
    assert_eq!(compare("n", &a, &a.duplicate()), none);
    assert_eq!(
        compare("n", &a, &Value::Sequence(vec![s("x")])),
        vec!["n: Length changed from 2 to 1"]
    );
    assert_eq!(
        compare("n", &a, &Value::Sequence(vec![s("y"), s("z")])),
        vec!["n: `x` removed", "n: `z` added"]
    );
    assert_eq!(
        compare("n", &a, &Value::Sequence(vec![s("y"), s("x")])),
        vec!["n: Order changed from [x, y] to [y, x]"]
    );
}

#[test]
fn changes_between_two_mappings() {
    let old = dist(vec![
        (s("same"), Value::Int(1)),
        (s("gone"), Value::Int(2)),
        (s("inner"), dist(vec![(s("deep"), s("a"))])),
    ]);
    let new = dist(vec![
        (s("new"), Value::Int(3)),
        (s("inner"), dist(vec![(s("deep"), s("b"))])),
        (s("same"), Value::Int(1)),
    ]);
    assert_eq!(
        compare("P", &old, &new),
        vec![
            "P: Key `gone` removed",
            "P: inner: deep: Value changed from a to b",
            "P: Key `new` added",
        ]
    );
}
