use yaml_cleaner::game::choose_game;
use yaml_cleaner::names::{rename_plando_worlds, set_name, strip_name_changes_from_triggers};
use yaml_cleaner::select::DrawError;
use yaml_cleaner::value::{Mapping, Value};

fn s(text: &str) -> Value {
    Value::string(text)
}

fn mapping(pairs: Vec<(Value, Value)>) -> Mapping {
    let mut m = Mapping::new();
    for (k, v) in pairs {
        m.insert(k, v);
    }
    m
}

fn dist(pairs: Vec<(Value, Value)>) -> Value {
    Value::Mapping(mapping(pairs))
}

fn trigger(options: Value) -> Value {
    dist(vec![(s("option_name"), s("x")), (s("options"), options)])
}

#[test]
fn triggers_lose_changes_of_the_name() {
    let mut triggers = Value::Sequence(vec![
        // only the name at the root: the trigger goes
        trigger(dist(vec![(Value::Null, dist(vec![(s("name"), s("Evil"))]))])),
        // name and more at the root: the name goes
        trigger(dist(vec![(
            Value::Null,
            dist(vec![(s("name"), s("Evil")), (s("game"), s("X"))]),
        )])),
        // name at the root and options of a game: the root goes
        trigger(dist(vec![
            (Value::Null, dist(vec![(s("name"), s("Evil"))])),
            (s("Game"), dist(vec![(s("goal"), s("y"))])),
        ])),
        // no name: stays
        trigger(dist(vec![(s("Game"), dist(vec![(s("name"), s("kept"))]))])),
        // no options at all: stays
        s("odd"),
        // empty options: the trigger goes
        trigger(dist(vec![])),
    ]);
    strip_name_changes_from_triggers(&mut triggers);
    assert_eq!(
        triggers,
        Value::Sequence(vec![
            trigger(dist(vec![(Value::Null, dist(vec![(s("game"), s("X"))]))])),
            trigger(dist(vec![(s("Game"), dist(vec![(s("goal"), s("y"))]))])),
            trigger(dist(vec![(s("Game"), dist(vec![(s("name"), s("kept"))]))])),
            s("odd"),
        ])
    );
    let mut other = s("no triggers");
    strip_name_changes_from_triggers(&mut other);
    assert_eq!(other, s("no triggers"));
}

#[test]
fn set_name_replaces_the_name_in_place() {
    let evil = trigger(dist(vec![(Value::Null, dist(vec![(s("name"), s("Evil"))]))]));
    let mut doc = dist(vec![
        (s("name"), s("Old")),
        (s("game"), s("G")),
        (s("G"), dist(vec![(s("triggers"), Value::Sequence(vec![evil.duplicate()]))])),
        (s("triggers"), Value::Sequence(vec![evil, s("kept")])),
    ]);
    let old = set_name(&mut doc, "Player{NUMBER}", Some(&s("G")));
    assert_eq!(old, Some(s("Old")));
    assert_eq!(
        doc,
        dist(vec![
            (s("name"), s("Player{NUMBER}")),
            (s("game"), s("G")),
            (s("G"), dist(vec![(s("triggers"), Value::Sequence(vec![]))])),
            (s("triggers"), Value::Sequence(vec![s("kept")])),
        ])
    );
}

#[test]
fn set_name_adds_a_name_that_was_missing() {
    let mut doc = dist(vec![(s("game"), s("G"))]);
    assert_eq!(set_name(&mut doc, "12", None), None);
    assert_eq!(doc, dist(vec![(s("game"), s("G")), (s("name"), Value::Int(12))]));
    let mut other = Value::Sequence(vec![]);
    assert_eq!(set_name(&mut other, "x", None), None);
    assert_eq!(other, Value::Sequence(vec![]));
}

#[test]
fn plando_worlds_get_their_new_names() {
    let names = mapping(vec![(s("Old1"), s("New1")), (s("Old2"), s("New2"))]);
    let block = |world: Value| dist(vec![(s("item"), s("Sword")), (s("world"), world)]);
    let doc = |blocks: Vec<Value>| {
        dist(vec![(
            s("game"),
            dist(vec![(s("plando_items"), Value::Sequence(blocks))]),
        )])
    };
    let mut docs = vec![
        doc(vec![
            block(s("Old1")),
            block(Value::Sequence(vec![s("Old2"), s("Other"), s("Old1")])),
            block(s("Other")),
            s("not a block"),
        ]),
        s("not a document"),
        dist(vec![(s("game"), s("G"))]),
    ];
    rename_plando_worlds(&names, &mut docs);
    assert_eq!(
        docs,
        vec![
            doc(vec![
                block(s("New1")),
                block(Value::Sequence(vec![s("New2"), s("Other"), s("New1")])),
                block(s("Other")),
                s("not a block"),
            ]),
            s("not a document"),
            dist(vec![(s("game"), s("G"))]),
        ]
    );
}

fn no_list() -> Vec<String> {
    vec![]
}

#[test]
fn a_named_game_is_chosen_as_it_reads() {
    let mut doc = dist(vec![(s("name"), s("P")), (s("game"), s("Hollow Knight"))]);
    assert_eq!(choose_game(&mut doc, &no_list()), Ok(Some(s("Hollow Knight"))));
    assert_eq!(doc, dist(vec![(s("name"), s("P")), (s("game"), s("Hollow Knight"))]));
    let mut number = dist(vec![(s("game"), s("2048"))]);
    assert_eq!(choose_game(&mut number, &no_list()), Ok(Some(Value::Int(2048))));
    assert_eq!(number, dist(vec![(s("game"), Value::Int(2048))]));
}

#[test]
fn a_game_is_drawn_from_the_names_with_weight() {
    let mut doc = dist(vec![
        (
            s("game"),
            dist(vec![
                (s("A"), Value::Int(0)),
                (Value::Int(5), Value::Int(100)),
                (s("B"), Value::Float(String::from("1.5"))),
                (s("C"), s("1")),
            ]),
        ),
        (s("B"), dist(vec![])),
    ]);
    assert_eq!(choose_game(&mut doc, &no_list()), Ok(Some(s("B"))));
    assert_eq!(doc, dist(vec![(s("game"), s("B")), (s("B"), dist(vec![]))]));
}

#[test]
fn valid_games_are_drawn_before_others() {
    let valid = vec![String::from("Good"), String::from("Fine")];
    for _ in 0..200 {
        let mut doc = dist(vec![(
            s("game"),
            dist(vec![
                (s("Bad"), Value::Int(1000)),
                (s("Good"), Value::Int(1)),
                (s("Fine"), Value::Int(0)),
            ]),
        )]);
        assert_eq!(choose_game(&mut doc, &valid), Ok(Some(s("Good"))));
    }
    // no valid game has a weight: every game is drawn from
    let mut doc = dist(vec![(
        s("game"),
        dist(vec![(s("Bad"), Value::Int(3)), (s("Good"), Value::Int(0))]),
    )]);
    assert_eq!(choose_game(&mut doc, &valid), Ok(Some(s("Bad"))));
}

#[test]
fn the_game_with_other_names_goes_by_its_name_of_now() {
    let mut doc = dist(vec![
        (s("game"), s("Pok\u{e9}Park")),
        (s("Pok\u{e9}Park"), dist(vec![(s("goal"), s("x"))])),
        (s("name"), s("P")),
    ]);
    assert_eq!(choose_game(&mut doc, &no_list()), Ok(Some(s("PokePark"))));
    assert_eq!(
        doc,
        dist(vec![
            (s("game"), s("PokePark")),
            (s("name"), s("P")),
            (s("PokePark"), dist(vec![(s("goal"), s("x"))])),
        ])
    );
    let mut drawn = dist(vec![(
        s("game"),
        dist(vec![(s("Pok\u{e9}Park Wii: Pikachu's Adventure [JP]"), Value::Int(1))]),
    )]);
    assert_eq!(choose_game(&mut drawn, &vec![String::from("PokePark")]), Ok(Some(s("PokePark"))));
}

#[test]
fn no_game_to_choose() {
    let mut empty = dist(vec![(s("game"), dist(vec![(s("A"), Value::Int(0))]))]);
    assert_eq!(choose_game(&mut empty, &no_list()), Err(DrawError::EmptyDistribution));
    assert_eq!(empty, dist(vec![(s("game"), dist(vec![(s("A"), Value::Int(0))]))]));
    let mut negative = dist(vec![(
        s("game"),
        dist(vec![(s("A"), Value::Int(2)), (s("B"), Value::Int(-2))]),
    )]);
    assert_eq!(choose_game(&mut negative, &no_list()), Err(DrawError::EmptyDistribution));
    let mut none = dist(vec![(s("name"), s("P"))]);
    assert_eq!(choose_game(&mut none, &no_list()), Ok(None));
    let mut odd = dist(vec![(s("game"), Value::Int(3))]);
    assert_eq!(choose_game(&mut odd, &no_list()), Ok(None));
    let mut list = Value::Sequence(vec![]);
    assert_eq!(choose_game(&mut list, &no_list()), Ok(None));
}
