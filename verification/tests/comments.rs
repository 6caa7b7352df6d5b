use yaml_cleaner::comments::{find_key, get_comments, insert_comments, Comment};
use yaml_cleaner::text::{chars_of, is_space, split_lines};

fn lines_of(r: &[String]) -> Vec<&str> {
    r.iter().map(|s| s.as_str()).collect()
}

#[test]
fn note_stays_below_its_key_when_values_change() {
    let source = "key: 1\n# note\nkey2: 2";
    let comments = get_comments(source);
    assert_eq!(comments.len(), 1);
    assert_eq!(comments[0].last_key.as_deref(), Some("key"));
    assert_eq!(comments[0].comment, " note");
    assert!(!comments[0].inline);
    assert_eq!(comments[0].indent, "");

    let rewritten = String::from("key: 10\nkey2: 20\n");
    let out = insert_comments(rewritten, &comments, "source.yaml");
    assert_eq!(lines_of(&out.lines), vec!["key: 10", "# note", "key2: 20"]);
    assert!(out.warnings.is_empty());
}

#[test]
fn find_key_strips_space_and_quotes() {
    assert_eq!(find_key("  name: Player"), Some(String::from("name")));
    assert_eq!(find_key("'quoted key': 3"), Some(String::from("quoted key")));
    assert_eq!(find_key("\"a:b\": 3"), Some(String::from("a:b")));
    assert_eq!(find_key("- item"), None);
    assert_eq!(find_key("# only: a comment"), None);
    assert_eq!(find_key("key: 1 # with: colon"), Some(String::from("key")));
    assert_eq!(find_key(""), None);
    assert_eq!(find_key(":"), Some(String::new()));
    assert_eq!(find_key("'''': 1"), Some(String::new()));
    assert_eq!(find_key("'open: 1"), None);
}

#[test]
fn new_builds_the_comment_it_is_given() {
    let c = Comment::new(Some(String::from("k")), String::from(" text"), true, String::from("  "));
    assert_eq!(c.last_key.as_deref(), Some("k"));
    assert_eq!(c.comment, " text");
    assert!(c.inline);
    assert_eq!(c.indent, "  ");
}

#[test]
fn comments_come_back_when_no_key_changed() {
    let source = "# head\n# of file\nname: A # who\ngame:\n  X: 1\n  # about y\n  Y: 2   # inline y\n\n  # more about y\nlast: 'q # not a comment'\n";
    let comments = get_comments(source);
    assert_eq!(comments.len(), 4);
    assert_eq!(comments[0].last_key, None);
    assert_eq!(comments[0].comment, " head\n# of file");
    assert_eq!(comments[1].last_key.as_deref(), Some("name"));
    assert!(comments[1].inline);
    assert_eq!(comments[1].comment, " who");
    assert_eq!(comments[2].last_key.as_deref(), Some("X"));
    assert!(!comments[2].inline);
    assert_eq!(comments[2].indent, "  ");
    assert_eq!(comments[2].comment, " about y");
    assert_eq!(comments[3].last_key.as_deref(), Some("Y"));
    assert!(comments[3].inline);
    assert_eq!(comments[3].comment, " inline y\n  # more about y");

    let rewritten = String::from("name: B\ngame:\n  X: 10\n  Y: 20\nlast: changed\n");
    let out = insert_comments(rewritten, &comments, "a.yaml");
    assert!(out.warnings.is_empty());
    assert_eq!(
        lines_of(&out.lines),
        vec![
            "# head\n# of file",
            "name: B # who",
            "game:",
            "  X: 10",
            "  # about y",
            "  Y: 20 # inline y\n  # more about y",
            "last: changed",
        ]
    );
}

#[test]
fn a_comment_whose_key_is_gone_stops_the_rest() {
    let source = "a: 1\n# on a\nb: 2\n# on b\nc: 3\n# on c\n";
    let comments = get_comments(source);
    assert_eq!(comments.len(), 3);
    let rewritten = String::from("a: 1\nc: 3\n");
    let out = insert_comments(rewritten, &comments, "bucket (7).yaml");
    assert_eq!(lines_of(&out.lines), vec!["a: 1", "# on a", "c: 3"]);
    assert_eq!(out.warnings, vec![String::from("could not preserve all comments from bucket (7).yaml")]);

    // the first comments alone give the same lines without a warning
    let alone = insert_comments(String::from("a: 1\nc: 3\n"), &comments[..1], "bucket (7).yaml");
    assert_eq!(alone.lines, out.lines);
    assert!(alone.warnings.is_empty());
}

#[test]
fn a_comment_searches_forward_only() {
    let comments = vec![
        Comment::new(Some(String::from("b")), String::from(" first"), false, String::new()),
        Comment::new(Some(String::from("a")), String::from(" second"), false, String::new()),
    ];
    let out = insert_comments(String::from("a: 1\nb: 2"), &comments, "x");
    assert_eq!(lines_of(&out.lines), vec!["a: 1", "b: 2", "# first"]);
    assert_eq!(out.warnings.len(), 1);
}

#[test]
fn comments_without_text_to_go_into() {
    let comments = get_comments("# only\n");
    let out = insert_comments(String::new(), &comments, "x");
    assert_eq!(lines_of(&out.lines), vec!["# only"]);
    assert!(out.warnings.is_empty());
    let keyed = vec![Comment::new(Some(String::from("k")), String::from("c"), true, String::new())];
    let out = insert_comments(String::new(), &keyed, "x");
    assert!(out.lines.is_empty());
    assert_eq!(out.warnings.len(), 1);
    assert!(get_comments("").is_empty());
}

#[test]
fn markers_on_other_lines_are_no_comments() {
    let comments = get_comments("list:\n  - item # not kept\n  - 'q' \n  # kept\n");
    assert_eq!(comments.len(), 1);
    assert_eq!(comments[0].comment, " kept");
    assert_eq!(comments[0].last_key.as_deref(), Some("list"));
}

#[test]
fn lines_are_split_as_the_standard_library_splits_them() {
    for text in [
        "",
        "\n",
        "a",
        "a\n",
        "a\nb",
        "a\r\nb\r\n",
        "a\rb\r",
        "\r\n\r\n",
        "a\n\nb\n\n",
        "x\r\r\n",
        "last\r",
    ] {
        let ours: Vec<String> =
            split_lines(&chars_of(text)).iter().map(|l| l.iter().collect()).collect();
        let theirs: Vec<String> = text.lines().map(String::from).collect();
        assert_eq!(ours, theirs, "{:?}", text);
    }
}

#[test]
fn white_space_is_what_the_standard_library_calls_so() {
    for code in 0u32..=0x10FFFF {
        if let Some(c) = char::from_u32(code) {
            assert_eq!(is_space(c), c.is_whitespace(), "U+{:04X}", code);
        }
    }
}
