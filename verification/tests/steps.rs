use yaml_cleaner::json::{put_written, take_member};
use yaml_cleaner::rules::{Outcome, Rule};
use yaml_cleaner::select::DrawError;
use yaml_cleaner::steps::{handle_special, take_step, take_steps, Step};
use yaml_cleaner::value::{Mapping, Value};

fn s(text: &str) -> Value {
    Value::string(text)
}

fn t(text: &str) -> String {
    String::from(text)
}

fn mapping(pairs: Vec<(Value, Value)>) -> Mapping {
    let mut m = Mapping::new();
    for (k, v) in pairs {
        m.insert(k, v);
    }
    m
}

fn dist(pairs: Vec<(Value, Value)>) -> Value {
    Value::Mapping(mapping(pairs))
}

fn nothing() -> Outcome {
    Outcome { notes: vec![], messages: vec![] }
}

#[test]
fn handle_special_works_on_the_options_of_the_game() {
    let mut doc = dist(vec![
        (s("game"), s("Blasphemous")),
        (s("Blasphemous"), dist(vec![(s("difficulty"), s("hard"))])),
    ]);
    let steps = vec![Step::Apply {
        rules: vec![
            Rule::Note { key: t("difficulty"), default: t("normal") },
            Rule::Put { option: t("seen"), value: Value::Bool(true) },
        ],
    }];
    let out = handle_special(&mut doc, &s("Blasphemous"), "P", &steps).unwrap();
    assert_eq!(out.notes, vec!["difficulty: hard"]);
    assert!(out.messages.is_empty());
    assert_eq!(
        doc,
        dist(vec![
            (s("game"), s("Blasphemous")),
            (s("Blasphemous"), dist(vec![(s("difficulty"), s("hard")), (s("seen"), Value::Bool(true))])),
        ])
    );
    // a document without options for the game stays as it is
    let out = handle_special(&mut doc, &s("Other"), "P", &steps).unwrap();
    assert!(out.notes.is_empty());
    let mut odd = s("no document");
    let out = handle_special(&mut odd, &s("Other"), "P", &steps).unwrap();
    assert!(out.notes.is_empty() && out.messages.is_empty());
    assert_eq!(odd, s("no document"));
}

fn version_steps() -> Vec<Step> {
    vec![
        Step::Resolve { option: t("game_version") },
        Step::Apply {
            rules: vec![
                Rule::When {
                    option: t("game_version"),
                    default: s("random"),
                    value: s("random"),
                    other_than: false,
                    then: vec![Rule::Put {
                        option: t("game_version"),
                        value: dist(vec![(s("red"), Value::Int(50)), (s("blue"), Value::Int(50))]),
                    }],
                    otherwise: vec![],
                },
                Rule::Remove { option: t("shop_prices") },
            ],
        },
        Step::Resolve { option: t("game_version") },
        Step::Apply { rules: vec![Rule::Note { key: t("game_version"), default: t("none") }] },
    ]
}

#[test]
fn an_open_option_is_drawn_between_the_rules() {
    let mut hash = mapping(vec![
        (s("game_version"), dist(vec![(s("green"), Value::Int(0)), (s("blue"), Value::Int(7))])),
        (s("shop_prices"), Value::Int(1)),
    ]);
    let mut out = nothing();
    assert_eq!(take_steps(&mut hash, &mut out, "P", &version_steps()), Ok(()));
    assert_eq!(hash, mapping(vec![(s("game_version"), s("blue"))]));
    assert_eq!(out.notes, vec!["game_version: blue"]);

    let mut red: u32 = 0;
    for _ in 0..400 {
        let mut hash = mapping(vec![(s("game_version"), dist(vec![(s("random"), Value::Int(1))]))]);
        let mut out = nothing();
        assert_eq!(take_steps(&mut hash, &mut out, "P", &version_steps()), Ok(()));
        if hash == mapping(vec![(s("game_version"), s("red"))]) {
            red += 1;
            assert_eq!(out.notes, vec!["game_version: red"]);
        } else {
            assert_eq!(hash, mapping(vec![(s("game_version"), s("blue"))]));
            assert_eq!(out.notes, vec!["game_version: blue"]);
        }
    }
    assert!(red > 100 && red < 300, "red came {} times", red);

    // without the option the choice is open as well
    let mut hash = mapping(vec![]);
    let mut out = nothing();
    assert_eq!(take_steps(&mut hash, &mut out, "P", &version_steps()), Ok(()));
    assert!(
        hash == mapping(vec![(s("game_version"), s("red"))])
            || hash == mapping(vec![(s("game_version"), s("blue"))])
    );
}

#[test]
fn a_draw_that_cannot_be_made_ends_the_run() {
    let steps = vec![
        Step::Apply { rules: vec![Rule::Put { option: t("first"), value: Value::Int(1) }] },
        Step::Resolve { option: t("version") },
        Step::Apply { rules: vec![Rule::Put { option: t("second"), value: Value::Int(2) }] },
    ];
    let version = || dist(vec![(s("red"), Value::Int(0)), (s("blue"), s("much"))]);
    let mut hash = mapping(vec![(s("version"), version())]);
    let mut out = nothing();
    assert_eq!(take_steps(&mut hash, &mut out, "P", &steps), Err(DrawError::EmptyDistribution));
    assert_eq!(hash, mapping(vec![(s("version"), version()), (s("first"), Value::Int(1))]));

    let mut hash = mapping(vec![(s("version"), version())]);
    assert_eq!(
        take_step(&mut hash, &mut out, "P", &steps[1]),
        Err(DrawError::EmptyDistribution)
    );
    assert_eq!(hash, mapping(vec![(s("version"), version())]));

    let mut doc = dist(vec![(s("G"), dist(vec![(s("version"), version())]))]);
    assert_eq!(
        handle_special(&mut doc, &s("G"), "P", &steps).err(),
        Some(DrawError::EmptyDistribution)
    );
    assert_eq!(
        doc,
        dist(vec![(s("G"), dist(vec![(s("version"), version()), (s("first"), Value::Int(1))]))])
    );
}

fn mods() -> Step {
    Step::WithoutMember {
        option: t("megamix_mod_data"),
        member: t("EdenDarkPack"),
        before: t("Failed to serialize new mod list for '"),
        after: t(".yaml', all mods have been removed"),
    }
}

#[test]
fn a_member_leaves_the_object_in_a_text() {
    let mut hash = mapping(vec![
        (s("megamix_mod_data"), s(r#"{"Zeta": [1, 2], "EdenDarkPack": {"a": 1}, "Alpha": "x"}"#)),
        (s("other"), Value::Int(1)),
    ]);
    let mut out = nothing();
    assert_eq!(take_step(&mut hash, &mut out, "P", &mods()), Ok(()));
    assert_eq!(out.notes, vec!["megamix_mod_data: [Alpha, Zeta]"]);
    assert!(out.messages.is_empty());
    assert_eq!(
        hash,
        mapping(vec![
            (s("megamix_mod_data"), s(r#"{"Alpha":"x","Zeta":[1,2]}"#)),
            (s("other"), Value::Int(1)),
        ])
    );
    // once more: the member is gone, and nothing changes
    assert_eq!(take_step(&mut hash, &mut out, "P", &mods()), Ok(()));
    assert_eq!(out.notes, vec!["megamix_mod_data: [Alpha, Zeta]", "megamix_mod_data: [Alpha, Zeta]"]);
    assert_eq!(hash.get(&s("megamix_mod_data")), Some(&s(r#"{"Alpha":"x","Zeta":[1,2]}"#)));
}

#[test]
fn an_option_without_an_object_has_no_members() {
    for value in [s("[1, 2]"), s("not json"), s("{\"a\": "), Value::Int(3), dist(vec![])] {
        let mut hash = mapping(vec![(s("megamix_mod_data"), value.duplicate())]);
        let mut out = nothing();
        assert_eq!(take_step(&mut hash, &mut out, "P", &mods()), Ok(()));
        assert_eq!(out.notes, vec!["megamix_mod_data: []"]);
        assert_eq!(hash, mapping(vec![(s("megamix_mod_data"), value)]));
    }
    let mut hash = mapping(vec![]);
    let taken = take_member(&mut hash, "megamix_mod_data", "EdenDarkPack");
    assert_eq!(taken.note, "megamix_mod_data: []");
    assert!(!taken.lost);
    assert!(hash.is_empty());
    let mut only = mapping(vec![(s("megamix_mod_data"), s(r#"{"EdenDarkPack": 1}"#))]);
    let taken = take_member(&mut only, "megamix_mod_data", "EdenDarkPack");
    assert_eq!(taken.note, "megamix_mod_data: []");
    assert!(!taken.lost);
    assert_eq!(only, mapping(vec![(s("megamix_mod_data"), s("{}"))]));
}

#[test]
fn what_was_written_takes_the_place_of_the_option() {
    let start = || mapping(vec![(s("a"), Value::Int(1)), (s("mods"), s("old")), (s("b"), Value::Int(2))]);
    let mut hash = start();
    put_written(&mut hash, "mods", &Some(t("12")));
    assert_eq!(
        hash,
        mapping(vec![(s("a"), Value::Int(1)), (s("mods"), Value::Int(12)), (s("b"), Value::Int(2))])
    );
    let mut hash = start();
    put_written(&mut hash, "mods", &None);
    assert_eq!(hash, mapping(vec![(s("a"), Value::Int(1)), (s("b"), Value::Int(2))]));
    let mut hash = start();
    put_written(&mut hash, "missing", &Some(t("x")));
    assert_eq!(hash, start());
}
