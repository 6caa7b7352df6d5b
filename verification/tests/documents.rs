use yaml_cleaner::compare::{compare_documents, CompareError};
use yaml_cleaner::documents::{process_documents, reprocess_documents, ProcessError};
use yaml_cleaner::report::tell_keeps;
use yaml_cleaner::rules::Rule;
use yaml_cleaner::steps::Step;
use yaml_cleaner::value::{Mapping, Value};

fn s(text: &str) -> Value {
    Value::string(text)
}

fn t(text: &str) -> String {
    String::from(text)
}

fn dist(pairs: Vec<(Value, Value)>) -> Value {
    let mut m = Mapping::new();
    for (k, v) in pairs {
        m.insert(k, v);
    }
    Value::Mapping(m)
}

fn table() -> Vec<(String, Vec<Step>)> {
    vec![
        (
            t("A"),
            vec![Step::Apply {
                rules: vec![
                    Rule::Note { key: t("x"), default: t("none") },
                    Rule::Message { text: t("seen") },
                ],
            }],
        ),
        (t("Open"), vec![Step::Resolve { option: t("version") }]),
        (t("A"), vec![Step::Apply { rules: vec![Rule::NoteText { text: t("never") }] }]),
    ]
}

fn no_list() -> Vec<String> {
    vec![]
}

#[test]
fn the_documents_of_a_file_are_gone_through_in_order() {
    let mut docs = vec![
        dist(vec![(s("name"), s("Old1")), (s("game"), s("A")), (s("A"), dist(vec![(s("x"), Value::Int(1))]))]),
        dist(vec![(s("game"), dist(vec![(s("A"), Value::Int(3)), (s("B"), Value::Int(0))])), (s("A"), dist(vec![]))]),
        dist(vec![(s("game"), s("B")), (s("B"), dist(vec![])), (s("name"), s("Old3"))]),
        dist(vec![(s("name"), s("Mine")), (s("game"), s("Final Fantasy"))]),
        dist(vec![(s("description"), s("no game"))]),
        s("no document"),
    ];
    let done = process_documents(&mut docs, &table(), "Ann", &no_list()).unwrap();
    assert_eq!(
        done.games,
        vec![
            (t("A"), 2, vec![t("x: 1"), t("x: none")]),
            (t("B"), 1, vec![]),
            (t("Final Fantasy"), 1, vec![]),
        ]
    );
    assert_eq!(
        done.messages,
        vec!["'Ann.yaml' seen", "'Ann.yaml' seen", "'Ann.yaml' contains a Final Fantasy"]
    );
    assert_eq!(
        docs,
        vec![
            dist(vec![(s("name"), s("Ann1")), (s("game"), s("A")), (s("A"), dist(vec![(s("x"), Value::Int(1))]))]),
            dist(vec![(s("game"), s("A")), (s("A"), dist(vec![])), (s("name"), s("Ann2"))]),
            dist(vec![(s("game"), s("B")), (s("B"), dist(vec![])), (s("name"), s("Ann3"))]),
            dist(vec![(s("name"), s("Mine")), (s("game"), s("Final Fantasy"))]),
            dist(vec![(s("description"), s("no game")), (s("name"), s("Ann5"))]),
            s("no document"),
        ]
    );
}

#[test]
fn a_single_document_gets_the_name_as_it_is() {
    let mut docs = vec![dist(vec![(s("game"), s("A")), (s("A"), dist(vec![]))])];
    let done = process_documents(&mut docs, &table(), "12", &no_list()).unwrap();
    assert_eq!(done.games, vec![(t("A"), 1, vec![t("x: none")])]);
    assert_eq!(
        docs,
        vec![dist(vec![(s("game"), s("A")), (s("A"), dist(vec![])), (s("name"), Value::Int(12))])]
    );
    let mut none: Vec<Value> = vec![];
    let done = process_documents(&mut none, &table(), "Ann", &no_list()).unwrap();
    assert!(done.games.is_empty() && done.messages.is_empty() && none.is_empty());
}

#[test]
fn many_documents_are_told_of() {
    let doc = || dist(vec![(s("game"), s("B"))]);
    let mut docs: Vec<Value> = (0..9).map(|_| doc()).collect();
    let done = process_documents(&mut docs, &table(), "Ann", &no_list()).unwrap();
    assert_eq!(done.games, vec![(t("B"), 9, vec![])]);
    assert_eq!(done.messages, vec!["'Ann.yaml' contains 9 games."]);
    assert_eq!(docs[8], dist(vec![(s("game"), s("B")), (s("name"), s("Ann9"))]));
    let mut docs: Vec<Value> = (0..8).map(|_| doc()).collect();
    let done = process_documents(&mut docs, &table(), "Ann", &no_list()).unwrap();
    assert!(done.messages.is_empty());
    let mut docs: Vec<Value> = (0..10).map(|_| doc()).collect();
    let done = reprocess_documents(&mut docs, &table(), "Ann").unwrap();
    assert_eq!(done.messages, vec!["'Ann.yaml' contains 10 games."]);
    assert_eq!(docs[9], doc());
}

#[test]
fn a_document_that_cannot_be_gone_through_ends_the_run() {
    let first = || dist(vec![(s("game"), s("A")), (s("A"), dist(vec![]))]);
    let mut docs = vec![first(), dist(vec![(s("game"), dist(vec![(s("A"), Value::Int(0))]))])];
    assert_eq!(
        process_documents(&mut docs, &table(), "Ann", &no_list()).err(),
        Some(ProcessError::EmptyDistribution)
    );
    let mut docs = vec![first(), dist(vec![(s("game"), s("2048"))])];
    assert_eq!(
        process_documents(&mut docs, &table(), "Ann", &no_list()).err(),
        Some(ProcessError::GameNotText)
    );
    let open = || {
        dist(vec![
            (s("game"), s("Open")),
            (s("Open"), dist(vec![(s("version"), dist(vec![(s("red"), Value::Int(0))]))])),
        ])
    };
    let mut docs = vec![first(), open()];
    assert_eq!(
        process_documents(&mut docs, &table(), "Ann", &no_list()).err(),
        Some(ProcessError::EmptyDistribution)
    );
    let mut docs = vec![open()];
    assert_eq!(
        reprocess_documents(&mut docs, &table(), "Ann").err(),
        Some(ProcessError::EmptyDistribution)
    );
    let mut docs = vec![dist(vec![(s("game"), Value::Int(3))])];
    assert_eq!(
        reprocess_documents(&mut docs, &table(), "Ann").err(),
        Some(ProcessError::GameNotText)
    );
    // chosen for the first time, a game that is no text and no distribution is no game
    let mut docs = vec![dist(vec![(s("game"), Value::Int(3))])];
    let done = process_documents(&mut docs, &table(), "Ann", &no_list()).unwrap();
    assert!(done.games.is_empty());
}

#[test]
fn documents_are_gone_through_once_more() {
    let mut docs = vec![
        dist(vec![(s("name"), s("Ann1")), (s("game"), s("A")), (s("A"), dist(vec![(s("x"), s("y"))]))]),
        dist(vec![(s("game"), s("Chrono Trigger Jets of Time"))]),
        dist(vec![(s("game"), s("Final Fantasy"))]),
        dist(vec![(s("game"), s("Open")), (s("Open"), dist(vec![(s("version"), dist(vec![(s("red"), Value::Int(2))]))]))]),
        s("no document"),
        dist(vec![(s("name"), s("no game"))]),
    ];
    let done = reprocess_documents(&mut docs, &table(), "Ann").unwrap();
    assert_eq!(
        done.games,
        vec![
            (t("A"), 1, vec![t("x: y")]),
            (t("Chrono Trigger Jets of Time"), 1, vec![]),
            (t("Final Fantasy"), 1, vec![]),
            (t("Open"), 1, vec![]),
        ]
    );
    assert_eq!(
        done.messages,
        vec!["'Ann.yaml' seen", "'Ann.yaml' contains a Chrono Trigger Jets of Time"]
    );
    assert_eq!(
        docs,
        vec![
            dist(vec![(s("name"), s("Ann1")), (s("game"), s("A")), (s("A"), dist(vec![(s("x"), s("y"))]))]),
            dist(vec![(s("game"), s("Chrono Trigger Jets of Time"))]),
            dist(vec![(s("game"), s("Final Fantasy"))]),
            dist(vec![(s("game"), s("Open")), (s("Open"), dist(vec![(s("version"), s("red"))]))]),
            s("no document"),
            dist(vec![(s("name"), s("no game"))]),
        ]
    );
}

#[test]
fn valid_games_are_chosen_first() {
    let valid = vec![t("B")];
    for _ in 0..50 {
        let mut docs = vec![dist(vec![(
            s("game"),
            dist(vec![(s("A"), Value::Int(1000)), (s("B"), Value::Int(1))]),
        )])];
        let done = process_documents(&mut docs, &table(), "Ann", &valid).unwrap();
        assert_eq!(done.games, vec![(t("B"), 1, vec![])]);
    }
}

#[test]
fn two_documents_are_compared_by_the_options_of_their_games() {
    let old = dist(vec![
        (s("game"), s("A")),
        (s("A"), dist(vec![(s("x"), Value::Int(1)), (s("y"), Value::Int(2))])),
    ]);
    let new = dist(vec![
        (s("game"), s("B")),
        (s("B"), dist(vec![(s("x"), Value::Int(3)), (s("y"), Value::Int(2))])),
    ]);
    assert_eq!(
        compare_documents("Ann.yaml", &old, &new),
        Ok(vec![t("Ann.yaml: Game name has been changed"), t("Ann.yaml: x: Value changed from 1 to 3")])
    );
    assert_eq!(compare_documents("Ann.yaml", &old, &old), Ok(vec![]));
    assert_eq!(compare_documents("Ann.yaml", &old, &s("text")), Ok(vec![]));
    assert_eq!(compare_documents("Ann.yaml", &Value::Null, &new), Ok(vec![]));
}

#[test]
fn documents_without_game_or_options_are_not_compared() {
    let whole = dist(vec![(s("game"), s("A")), (s("A"), Value::Int(1))]);
    let no_game = dist(vec![(s("A"), Value::Int(1))]);
    let no_options = dist(vec![(s("game"), s("A"))]);
    assert_eq!(compare_documents("Ann", &no_game, &no_game), Err(CompareError::OldHasNoGame));
    assert_eq!(compare_documents("Ann", &no_game, &whole), Err(CompareError::OldHasNoGame));
    assert_eq!(compare_documents("Ann", &whole, &no_game), Err(CompareError::NewHasNoGame));
    assert_eq!(compare_documents("Ann", &no_options, &no_game), Err(CompareError::NewHasNoGame));
    assert_eq!(compare_documents("Ann", &no_options, &no_options), Err(CompareError::OldHasNoOptions));
    assert_eq!(compare_documents("Ann", &no_options, &whole), Err(CompareError::OldHasNoOptions));
    assert_eq!(compare_documents("Ann", &whole, &no_options), Err(CompareError::NewHasNoOptions));
    assert_eq!(compare_documents("Ann", &whole, &whole), Ok(vec![]));
}

#[test]
fn keeps_are_told_of() {
    let games = |count: u32| {
        vec![
            (t("A"), 5, vec![]),
            (t("Keymaster's Keep"), count, vec![t("note")]),
            (t("Keymaster's Keep"), 7, vec![]),
        ]
    };
    assert_eq!(tell_keeps("Ann", &games(1)), Some(t("'Ann.yaml' contains a Keymaster's Keep")));
    assert_eq!(tell_keeps("Ann", &games(3)), Some(t("'Ann.yaml' contains 3 Keymaster's Keeps")));
    assert_eq!(tell_keeps("Ann", &games(0)), Some(t("'Ann.yaml' contains a Keymaster's Keep")));
    assert_eq!(tell_keeps("Ann", &[(t("A"), 5, vec![])]), None);
    assert_eq!(tell_keeps("Ann", &[]), None);
}
