use yaml_cleaner::rules::{apply_all, Outcome, Rule};
use yaml_cleaner::value::{Mapping, Value};

fn s(text: &str) -> Value {
    Value::string(text)
}

fn t(text: &str) -> String {
    String::from(text)
}

fn mapping(pairs: Vec<(Value, Value)>) -> Mapping {
    let mut m = Mapping::new();
    for (k, v) in pairs {
        m.insert(k, v);
    }
    m
}

fn dist(pairs: Vec<(Value, Value)>) -> Value {
    Value::Mapping(mapping(pairs))
}

fn run(hash: &mut Mapping, rules: Vec<Rule>) -> (Vec<String>, Vec<String>) {
    let mut out = Outcome { notes: vec![], messages: vec![] };
    apply_all(hash, &mut out, "Player", &rules);
    (out.notes, out.messages)
}

#[test]
fn notes_and_messages_are_taken_in_order() {
    let mut hash = mapping(vec![(s("scenario"), s("forest")), (s("mods"), Value::Sequence(vec![]))]);
    let (notes, messages) = run(
        &mut hash,
        vec![
            Rule::Note { key: t("mods"), default: t("none") },
            Rule::Note { key: t("logic"), default: t("normal") },
            Rule::NoteText { text: t("calamity: true") },
            Rule::Message { text: t("contains a map rando") },
            Rule::MessageValue {
                before: t("has scenario: "),
                key: t("scenario"),
                default: t("vanilla"),
                after: t("!"),
            },
        ],
    );
    assert_eq!(notes, vec!["mods: []", "logic: normal", "calamity: true"]);
    assert_eq!(
        messages,
        vec!["'Player.yaml' contains a map rando", "'Player.yaml' has scenario: forest!"]
    );
}

#[test]
fn weights_move_inside_an_option() {
    let mut hash = mapping(vec![
        (s("goal"), dist(vec![(s("perfection"), Value::Int(5)), (s("random"), Value::Int(1))])),
        (s("scale"), dist(vec![(Value::Int(100), Value::Int(2)), (Value::Int(50), Value::Int(3)), (Value::Int(90), Value::Int(4))])),
        (s("elevators"), Value::Bool(true)),
    ]);
    run(
        &mut hash,
        vec![
            Rule::MoveWeight { option: t("goal"), from: t("perfection"), to: t("random") },
            Rule::MoveWeight { option: t("missing"), from: t("a"), to: t("b") },
            Rule::MoveWeightAtLeast { option: t("scale"), bound: 90, to: t("high") },
            Rule::MoveWeightTo {
                option: t("elevators"),
                from: t("true"),
                to: Value::Sequence(vec![s("Quarry")]),
            },
        ],
    );
    assert_eq!(
        hash,
        mapping(vec![
            (s("goal"), dist(vec![(s("random"), Value::Int(6))])),
            (s("scale"), dist(vec![(Value::Int(50), Value::Int(3)), (s("high"), Value::Int(6))])),
            (s("elevators"), Value::Sequence(vec![s("Quarry")])),
        ])
    );
}

#[test]
fn options_are_renamed_spread_removed_and_set() {
    let mut hash = mapping(vec![
        (s("old"), Value::Int(1)),
        (s("minimum"), Value::Int(3)),
        (s("gone"), Value::Int(4)),
        (s("kept"), Value::Int(5)),
    ]);
    run(
        &mut hash,
        vec![
            Rule::Rename { from: t("old"), to: t("new") },
            Rule::Spread { from: t("minimum"), to: vec![t("minimum_a"), t("minimum_b")] },
            Rule::Spread { from: t("nothing"), to: vec![t("x")] },
            Rule::Remove { option: t("gone") },
            Rule::Put { option: t("explicit"), value: Value::Bool(false) },
            Rule::PutIfAbsent { option: t("kept"), value: Value::Int(0) },
            Rule::PutIfAbsent { option: t("ascension"), value: Value::Int(0) },
        ],
    );
    assert_eq!(
        hash,
        mapping(vec![
            (s("kept"), Value::Int(5)),
            (s("new"), Value::Int(1)),
            (s("minimum_a"), Value::Int(3)),
            (s("minimum_b"), Value::Int(3)),
            (s("explicit"), Value::Bool(false)),
            (s("ascension"), Value::Int(0)),
        ])
    );
}

fn when(option: &str, default: Value, value: Value, other_than: bool, yes: &str, no: &str) -> Rule {
    Rule::When {
        option: t(option),
        default,
        value,
        other_than,
        then: vec![Rule::NoteText { text: t(yes) }],
        otherwise: vec![Rule::NoteText { text: t(no) }],
    }
}

#[test]
fn a_choice_goes_by_what_the_option_can_be() {
    let mut hash = mapping(vec![
        (s("goal"), dist(vec![(s("boss_rush"), Value::Int(1)), (s("other"), Value::Int(0))])),
        (s("dlc"), s("TRUE")),
    ]);
    let (notes, _) = run(
        &mut hash,
        vec![
            when("goal", Value::Null, s("boss_rush"), false, "rush", "no rush"),
            when("goal", Value::Null, s("other"), false, "other", "no other"),
            when("goal", Value::Null, s("boss_rush"), true, "more", "only rush"),
            when("dlc", Value::Bool(false), Value::Bool(true), false, "dlc", "no dlc"),
            when("missing", Value::Bool(false), Value::Bool(true), false, "set", "default"),
            when("missing", Value::Bool(false), Value::Bool(true), true, "differs", "same"),
        ],
    );
    assert_eq!(notes, vec!["rush", "no other", "only rush", "dlc", "default", "differs"]);
}

#[test]
fn a_choice_goes_by_whether_the_option_is_set() {
    let mut hash = mapping(vec![(s("chapter_clears"), Value::Int(3))]);
    let chapters = || Rule::WhenPresent {
        option: t("chapter_clears"),
        then: vec![
            Rule::Spread { from: t("chapter_clears"), to: vec![t("goal_stars"), t("palace_stars")] },
            Rule::Put { option: t("goal"), value: s("crystal_stars") },
        ],
        otherwise: vec![Rule::NoteText { text: t("nothing to do") }],
    };
    let (notes, _) = run(&mut hash, vec![chapters()]);
    assert!(notes.is_empty());
    assert_eq!(
        hash,
        mapping(vec![
            (s("goal_stars"), Value::Int(3)),
            (s("palace_stars"), Value::Int(3)),
            (s("goal"), s("crystal_stars")),
        ])
    );
    let (notes, _) = run(&mut hash, vec![chapters()]);
    assert_eq!(notes, vec!["nothing to do"]);
}

#[test]
fn notes_on_ranges_lists_and_keys() {
    let mut hash = mapping(vec![
        (s("minimum_difficulty_taiko"), Value::Int(3)),
        (s("ShadeSkips"), Value::Bool(true)),
        (s("AcidSkips"), s("true")),
        (s("DarkRooms"), Value::Bool(false)),
        (s("advanced_characters"), dist(vec![(s("hermit"), Value::Int(1)), (s("slimebound"), Value::Int(0))])),
        (s("plain"), s("text")),
    ]);
    let skips = |options: Vec<&str>| Rule::NoteEnabled {
        label: t("Skips"),
        options: options.into_iter().map(t).collect(),
        none: t("none"),
    };
    let keys = |option: &str| Rule::NoteKeys {
        label: t("advanced_characters"),
        option: t(option),
        otherwise: t("[ironclad]"),
    };
    let (notes, messages) = run(
        &mut hash,
        vec![
            Rule::NoteRange {
                label: t("taiko"),
                low: t("minimum_difficulty_taiko"),
                low_default: t("0"),
                high: t("maximum_difficulty_taiko"),
                high_default: t("1000"),
            },
            skips(vec!["PreciseMovement", "ShadeSkips", "DarkRooms", "AcidSkips"]),
            skips(vec!["PreciseMovement", "DarkRooms"]),
            skips(vec![]),
            keys("advanced_characters"),
            keys("plain"),
            keys("missing"),
        ],
    );
    assert_eq!(
        notes,
        vec![
            "taiko: 3-1000",
            "Skips: [ShadeSkips, AcidSkips]",
            "Skips: none",
            "Skips: none",
            "advanced_characters: [hermit, slimebound]",
            "advanced_characters: [ironclad]",
            "advanced_characters: [ironclad]",
        ]
    );
    assert!(messages.is_empty());
    assert_eq!(hash.len(), 6);
}

#[test]
fn a_text_that_is_set_is_told() {
    let told = |key: &str| Rule::MessageText { before: t("has trainer_name '"), key: t(key), after: t("'") };
    let mut hash = mapping(vec![
        (s("trainer_name"), s("Red")),
        (s("empty"), s("")),
        (s("number"), Value::Int(4)),
    ]);
    let (notes, messages) =
        run(&mut hash, vec![told("trainer_name"), told("empty"), told("number"), told("missing")]);
    assert!(notes.is_empty());
    assert_eq!(messages, vec!["'Player.yaml' has trainer_name 'Red'"]);
}

#[test]
fn rules_reach_into_a_mapping() {
    let density = || Rule::In {
        option: t("location_density"),
        rules: vec![
            Rule::PutIfAbsent { option: t("hero"), value: Value::Int(0) },
            Rule::RenameOr { from: t("variant"), to: t("variant_unlock"), default: Value::Int(0) },
            Rule::NoteText { text: t("seen") },
        ],
    };
    let mut hash = mapping(vec![
        (s("location_density"), dist(vec![(s("variant"), Value::Int(2)), (s("villain"), Value::Int(1))])),
        (s("other"), Value::Int(1)),
    ]);
    let (notes, _) = run(&mut hash, vec![density()]);
    assert_eq!(notes, vec!["seen"]);
    assert_eq!(
        hash,
        mapping(vec![
            (
                s("location_density"),
                dist(vec![
                    (s("villain"), Value::Int(1)),
                    (s("hero"), Value::Int(0)),
                    (s("variant_unlock"), Value::Int(2)),
                ])
            ),
            (s("other"), Value::Int(1)),
        ])
    );
    let mut bare = mapping(vec![(s("location_density"), dist(vec![(s("hero"), Value::Int(7))]))]);
    run(&mut bare, vec![density()]);
    assert_eq!(
        bare,
        mapping(vec![(
            s("location_density"),
            dist(vec![(s("hero"), Value::Int(7)), (s("variant_unlock"), Value::Int(0))])
        )])
    );
    // where there is no mapping under the option nothing happens
    let mut plain = mapping(vec![(s("location_density"), Value::Int(3))]);
    let (notes, _) = run(&mut plain, vec![density()]);
    assert!(notes.is_empty());
    assert_eq!(plain, mapping(vec![(s("location_density"), Value::Int(3))]));
}

fn campaigns() -> Rule {
    Rule::PutEnabled {
        option: t("enabled_campaigns"),
        default: true,
        choices: vec![
            (t("enable_wol_missions"), t("Wings of Liberty")),
            (t("enable_prophecy_missions"), t("Prophecy")),
            (t("enable_hots_missions"), t("Heart of the Swarm")),
        ],
    }
}

#[test]
fn a_list_is_made_of_what_is_enabled() {
    let mut hash = mapping(vec![
        (s("enable_prophecy_missions"), Value::Bool(false)),
        (s("enable_hots_missions"), dist(vec![(Value::Bool(true), Value::Int(1)), (Value::Bool(false), Value::Int(1))])),
    ]);
    run(&mut hash, vec![campaigns()]);
    assert_eq!(
        hash.get(&s("enabled_campaigns")),
        Some(&Value::Sequence(vec![s("Wings of Liberty"), s("Heart of the Swarm")]))
    );
    assert_eq!(hash.len(), 3);
    // a list that is there stays
    let mut set = mapping(vec![(s("enabled_campaigns"), Value::Sequence(vec![s("Prophecy")]))]);
    run(&mut set, vec![campaigns()]);
    assert_eq!(set, mapping(vec![(s("enabled_campaigns"), Value::Sequence(vec![s("Prophecy")]))]));
}

#[test]
fn a_key_leaves_every_mapping_of_a_list() {
    let mut hash = mapping(vec![
        (
            s("filler_weights"),
            Value::Sequence(vec![
                dist(vec![(s("name"), s("a")), (s("typed"), Value::Bool(true)), (s("weight"), Value::Int(1))]),
                s("not a mapping"),
                dist(vec![(s("name"), s("b"))]),
                dist(vec![(s("typed"), Value::Int(0))]),
            ]),
        ),
        (s("typed"), Value::Int(9)),
    ]);
    let rule = || Rule::RemoveInEach { option: t("filler_weights"), key: t("typed") };
    run(&mut hash, vec![rule()]);
    assert_eq!(
        hash,
        mapping(vec![
            (
                s("filler_weights"),
                Value::Sequence(vec![
                    dist(vec![(s("name"), s("a")), (s("weight"), Value::Int(1))]),
                    s("not a mapping"),
                    dist(vec![(s("name"), s("b"))]),
                    dist(vec![]),
                ]),
            ),
            (s("typed"), Value::Int(9)),
        ])
    );
    let mut plain = mapping(vec![(s("filler_weights"), s("none"))]);
    run(&mut plain, vec![rule()]);
    assert_eq!(plain, mapping(vec![(s("filler_weights"), s("none"))]));
}

#[test]
fn texts_are_cut_at_a_sign() {
    let mut hash = mapping(vec![(
        s("pool_size"),
        dist(vec![
            (s("hero"), s("12+3")),
            (s("villain"), s("all+1+2")),
            (s("environment"), s("5")),
            (s("variant"), Value::Int(7)),
            (s("team"), s("+4")),
        ]),
    )]);
    let rule = || Rule::CutValues { option: t("pool_size"), at: '+' };
    run(&mut hash, vec![rule()]);
    assert_eq!(
        hash,
        mapping(vec![(
            s("pool_size"),
            dist(vec![
                (s("hero"), Value::Int(12)),
                (s("villain"), s("all")),
                (s("environment"), s("5")),
                (s("variant"), Value::Int(7)),
                (s("team"), Value::Null),
            ]),
        )])
    );
    let mut plain = mapping(vec![(s("pool_size"), s("1+2"))]);
    run(&mut plain, vec![rule()]);
    assert_eq!(plain, mapping(vec![(s("pool_size"), s("1+2"))]));
}

fn grid() -> Rule {
    Rule::Combine {
        first: t("grid_type"),
        first_default: t("square"),
        second: t("rotations"),
        second_default: t("no_rotation"),
        table: vec![
            (t("square"), t("no_rotation"), t("square_no_rotation")),
            (t("square"), t("per_90_degrees"), t("square_90_rotation")),
            (t("hexagonal"), t("per_90_degrees"), t("hex_60_rotation")),
        ],
        otherwise: t("square_no_rotations"),
        into: t("grid_type_and_rotations"),
    }
}

#[test]
fn two_options_become_one() {
    let both = |pairs: Vec<(Value, Value)>| {
        let mut hash = mapping(pairs);
        run(&mut hash, vec![grid()]);
        hash
    };
    assert_eq!(
        both(vec![(s("grid_type"), s("hexagonal")), (s("x"), Value::Int(1)), (s("rotations"), s("per_90_degrees"))]),
        mapping(vec![(s("x"), Value::Int(1)), (s("grid_type_and_rotations"), s("hex_60_rotation"))])
    );
    assert_eq!(both(vec![]), mapping(vec![(s("grid_type_and_rotations"), s("square_no_rotation"))]));
    assert_eq!(
        both(vec![(s("rotations"), s("per_90_degrees"))]),
        mapping(vec![(s("grid_type_and_rotations"), s("square_90_rotation"))])
    );
    assert_eq!(
        both(vec![(s("grid_type"), s("hexagonal"))]),
        mapping(vec![(s("grid_type_and_rotations"), s("square_no_rotations"))])
    );
    // an option that is no text counts as its default
    assert_eq!(
        both(vec![(s("grid_type"), Value::Int(3)), (s("rotations"), s("per_90_degrees"))]),
        mapping(vec![(s("grid_type_and_rotations"), s("square_90_rotation"))])
    );
}

fn distances() -> Vec<Rule> {
    let names = || vec![(t("5k"), 5000), (t("marathon"), 42195), (t("100_miler"), 160934)];
    vec![
        Rule::ReadNumber { option: t("maximum_distance"), names: names(), default: 5000 },
        Rule::ReadNumber { option: t("minimum_distance"), names: names(), default: 500 },
        Rule::Cap { option: t("maximum_distance"), above: 60000, to: 45000 },
        Rule::LimitBelow {
            option: t("minimum_distance"),
            by: t("maximum_distance"),
            caps: vec![(10000, 20000), (5000, 5000)],
        },
        Rule::NoteBand {
            option: t("maximum_distance"),
            bands: vec![(5000, t("Walk")), (10000, t("Bike"))],
            last: t("Car Trip"),
        },
    ]
}

fn settled(longest: Option<Value>, shortest: Option<Value>) -> (i64, i64, String) {
    let mut hash = mapping(vec![(s("other"), Value::Int(1))]);
    if let Some(v) = shortest {
        hash.insert(s("minimum_distance"), v);
    }
    if let Some(v) = longest {
        hash.insert(s("maximum_distance"), v);
    }
    let (notes, _) = run(&mut hash, distances());
    assert_eq!(notes.len(), 1);
    let entries = hash.entries();
    assert_eq!(entries.len(), 3);
    assert_eq!(entries[0], (&s("other"), &Value::Int(1)));
    assert_eq!(entries[1].0, &s("maximum_distance"));
    assert_eq!(entries[2].0, &s("minimum_distance"));
    match (entries[1].1, entries[2].1) {
        (Value::Int(longest), Value::Int(shortest)) => (*longest, *shortest, notes[0].clone()),
        other => panic!("{:?}", other),
    }
}

#[test]
fn numbers_are_read_capped_and_limited() {
    let int = |n: i64| Some(Value::Int(n));
    let text = |name: &str| Some(s(name));
    assert_eq!(settled(None, None), (5000, 500, t("Walk")));
    assert_eq!(settled(text("marathon"), text("5k")), (42195, 5000, t("Car Trip")));
    assert_eq!(settled(text("unknown"), text("unknown")), (5000, 500, t("Walk")));
    assert_eq!(settled(Some(Value::Bool(true)), Some(Value::Null)), (5000, 500, t("Walk")));
    // a longest distance that is too long is cut down
    assert_eq!(settled(text("100_miler"), int(100)), (45000, 100, t("Car Trip")));
    assert_eq!(settled(int(60000), int(100)), (60000, 100, t("Car Trip")));
    assert_eq!(settled(int(60001), int(50000)), (45000, 22500, t("Car Trip")));
    // a shortest distance above the longest becomes half of it
    assert_eq!(settled(int(3001), int(4000)), (3001, 1500, t("Walk")));
    assert_eq!(settled(int(-3), int(0)), (-3, -1, t("Walk")));
    // else it is capped by how long the longest is
    assert_eq!(settled(int(30000), int(25000)), (30000, 20000, t("Car Trip")));
    assert_eq!(settled(int(30000), int(20000)), (30000, 5000, t("Car Trip")));
    assert_eq!(settled(int(10000), int(9000)), (10000, 5000, t("Bike")));
    assert_eq!(settled(int(10001), int(5000)), (10001, 5000, t("Car Trip")));
    assert_eq!(settled(int(5001), int(5001)), (5001, 5000, t("Bike")));
    assert_eq!(settled(int(5000), int(5000)), (5000, 5000, t("Walk")));
}

#[test]
fn numbers_that_are_none_stay() {
    let mut hash = mapping(vec![(s("a"), s("text")), (s("b"), Value::Int(9))]);
    let (notes, _) = run(
        &mut hash,
        vec![
            Rule::Cap { option: t("a"), above: 0, to: 1 },
            Rule::Cap { option: t("missing"), above: 0, to: 1 },
            Rule::LimitBelow { option: t("b"), by: t("a"), caps: vec![(0, 0)] },
            Rule::LimitBelow { option: t("a"), by: t("b"), caps: vec![(0, 0)] },
            Rule::LimitBelow { option: t("b"), by: t("missing"), caps: vec![(0, 0)] },
            Rule::NoteBand { option: t("a"), bands: vec![], last: t("far") },
            Rule::NoteBand { option: t("b"), bands: vec![], last: t("far") },
        ],
    );
    assert_eq!(notes, vec!["far"]);
    assert_eq!(hash, mapping(vec![(s("a"), s("text")), (s("b"), Value::Int(9))]));
}
