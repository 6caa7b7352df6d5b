use yaml_cleaner::name_changes::{load_name_mapping, NameMap};
use yaml_cleaner::process::read_process_list;
use yaml_cleaner::remap::{remap_common_options, remap_hash, remap_list};
use yaml_cleaner::value::{Mapping, Value};

fn s(text: &str) -> Value {
    Value::string(text)
}

fn mapping(pairs: Vec<(Value, Value)>) -> Mapping {
    let mut m = Mapping::new();
    for (k, v) in pairs {
        m.insert(k, v);
    }
    m
}

fn dist(pairs: Vec<(Value, Value)>) -> Value {
    Value::Mapping(mapping(pairs))
}

fn pairs(m: &NameMap) -> Vec<(&str, &str)> {
    m.pairs.iter().map(|(a, b)| (a.as_str(), b.as_str())).collect()
}

const TABLE: &str = "game First Game\n\nitems\nOld Sword\tNew Sword\n  Old Shield\tNew Shield  \nlocations\nOld Cave\tNew Cave\naddexact Exact\tGiven\n\ngame Second\nlocations\nA\tB\nA\tC\nnot a pair\n";

#[test]
fn a_table_of_names_is_read_game_by_game() {
    let m = load_name_mapping(TABLE).ok().unwrap();
    assert_eq!(m.games.len(), 2);
    let first = m.get("First Game").unwrap();
    assert_eq!(first.game, "First Game");
    // after `locations` the lines name items and locations both
    assert_eq!(
        pairs(&first.items),
        vec![
            ("Old Sword", "New Sword"),
            ("Old Shield", "New Shield"),
            ("Old Cave", "New Cave"),
            ("Exact", "Given"),
            ("addexact Exact", "Given"),
        ]
    );
    assert_eq!(
        pairs(&first.locations),
        vec![("Old Cave", "New Cave"), ("Exact", "Given"), ("addexact Exact", "Given")]
    );
    let second = m.get("Second").unwrap();
    assert!(second.items.pairs.is_empty());
    assert_eq!(pairs(&second.locations), vec![("A", "B"), ("A", "C")]);
    assert_eq!(second.locations.get("A").map(|n| n.as_str()), Some("C"));
    assert_eq!(second.locations.get("B"), None);
    assert!(m.get("Third").is_none());
}

#[test]
fn a_name_before_any_game_fails_the_reading() {
    assert_eq!(load_name_mapping("\n\nitems\ngame G\n").err(), Some(2));
    assert_eq!(load_name_mapping("addexact a\tb\n").err(), Some(0));
    assert_eq!(load_name_mapping("a\tb").err(), Some(0));
    assert!(load_name_mapping("").ok().unwrap().games.is_empty());
    assert!(load_name_mapping(" \n\t\n").ok().unwrap().games.is_empty());
}

#[test]
fn a_game_that_is_opened_twice_has_its_last_names() {
    let m = load_name_mapping("game G\nitems\na\tb\ngame G\nitems\nc\td\n").ok().unwrap();
    assert_eq!(m.games.len(), 2);
    assert_eq!(pairs(&m.get("G").unwrap().items), vec![("c", "d")]);
}

fn names(list: Vec<(&str, &str)>) -> NameMap {
    let mut m = NameMap::new();
    for (a, b) in list {
        m.insert(String::from(a), String::from(b));
    }
    m
}

#[test]
fn lists_and_keys_get_their_new_names() {
    let n = names(vec![("Old", "New"), ("Count", "12")]);
    let mut hash = mapping(vec![
        (s("local_items"), Value::Sequence(vec![s("Old"), s("Other"), Value::Int(3), s("Count")])),
        (
            s("start_inventory"),
            dist(vec![(s("Old"), Value::Int(2)), (s("Other"), Value::Int(1)), (s("New"), Value::Int(9))]),
        ),
        (s("odd"), s("Old")),
    ]);
    remap_list(&n, &mut hash, "local_items");
    remap_list(&n, &mut hash, "odd");
    remap_list(&n, &mut hash, "missing");
    remap_hash(&n, &mut hash, "start_inventory");
    remap_hash(&n, &mut hash, "odd");
    assert_eq!(
        hash,
        mapping(vec![
            (
                s("local_items"),
                Value::Sequence(vec![s("New"), s("Other"), Value::Int(3), Value::Int(12)])
            ),
            (s("start_inventory"), dist(vec![(s("Other"), Value::Int(1)), (s("New"), Value::Int(2))])),
            (s("odd"), s("Old")),
        ])
    );
}

#[test]
fn the_options_of_a_game_get_their_new_names() {
    let m = load_name_mapping(
        "game G\nitems\nOld Item\tNew Item\ngame H\nlocations\nOld Place\tNew Place\n",
    )
    .ok()
    .unwrap();
    let doc = |item: &str, place: &str| {
        dist(vec![
            (s("game"), s("G")),
            (
                s("G"),
                dist(vec![
                    (s("local_items"), Value::Sequence(vec![s(item)])),
                    (s("non_local_items"), Value::Sequence(vec![s(item)])),
                    (s("start_inventory"), dist(vec![(s(item), Value::Int(1))])),
                    (s("start_hints"), Value::Sequence(vec![s(item)])),
                    (s("start_location_hints"), Value::Sequence(vec![s(place)])),
                    (s("exclude_locations"), Value::Sequence(vec![s(place)])),
                    (s("priority_locations"), Value::Sequence(vec![s(place)])),
                    (
                        s("plando_items"),
                        Value::Sequence(vec![
                            dist(vec![
                                (s("item"), s(item)),
                                (s("location"), s(place)),
                                (s("items"), dist(vec![(s(item), Value::Int(2))])),
                                (s("locations"), Value::Sequence(vec![s(place)])),
                            ]),
                            s("odd"),
                        ]),
                    ),
                ]),
            ),
        ])
    };
    let mut d = doc("Old Item", "Old Place");
    remap_common_options(&m, &mut d, "G");
    // the game G has new names for items only
    assert_eq!(d, doc("New Item", "Old Place"));
    remap_common_options(&m, &mut d, "H");
    remap_common_options(&m, &mut d, "Unknown");
    assert_eq!(d, doc("New Item", "Old Place"));
}

#[test]
fn the_process_list_is_read_line_by_line() {
    assert_eq!(
        read_process_list("Alice\t12\n\nBob Smith\t7\textra\r\nCarol\t\n"),
        Ok(vec![
            (String::from("Alice"), String::from("12")),
            (String::from("Bob Smith"), String::from("7\textra")),
            (String::from("Carol"), String::new()),
        ])
    );
    assert_eq!(read_process_list(""), Ok(vec![]));
    assert_eq!(read_process_list("Alice\t1\nno tab here\nBob\t2\nneither"), Err(2));
    assert_eq!(read_process_list("\n\n \n"), Err(3));
}
