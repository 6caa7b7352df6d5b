use yaml_cleaner::cipher::{decode, decoded, encode, encoded};

#[test]
fn a_message_is_put_into_signs() {
    assert_eq!(
        encode("Hello world"),
        Some(String::from("\u{221A}\u{2554}\u{2265}]\u{03A9}{1!{\u{00BF}]%"))
    );
    assert_eq!(encode(""), Some(String::new()));
    assert_eq!(encode("a  b"), Some(String::from("*12-")));
    assert_eq!(encode("it's, ok. ok?"), Some(String::from("$^\"@;1{\u{255A}:2{\u{255A}?")));
    assert_eq!(encode("Aa"), Some(String::from("\u{221A}*\u{03A9}")));
}

#[test]
fn a_character_without_a_sign_fails_the_message() {
    assert_eq!(encode("a b!"), None);
    assert_eq!(encode("1"), None);
    assert_eq!(encode("\u{00C9}"), None);
}

#[test]
fn signs_are_read_back() {
    assert_eq!(
        decode("\u{221A}\u{2554}\u{2265}]\u{03A9}{1!{\u{00BF}]%"),
        Some(String::from("Hello world"))
    );
    assert_eq!(decode("*12-"), Some(String::from("a b")));
    assert_eq!(decode("*1\u{221A}2-"), Some(String::from("a  B")));
    assert_eq!(decode("\u{221A}\"*"), Some(String::from("'a")));
    assert_eq!(decode(""), Some(String::new()));
}

#[test]
fn signs_that_cannot_be_read_fail() {
    assert_eq!(decode("\u{03A9}"), None);
    assert_eq!(decode("*a"), None);
    assert_eq!(decode("* "), None);
}

#[test]
fn every_sign_stands_for_its_letter() {
    let mut signs = 0;
    for code in 0u32..=0x10FFFF {
        if let Some(c) = char::from_u32(code) {
            if let Some(sign) = encoded(c) {
                assert_eq!(decoded(sign), Some(c));
                signs += 1;
            }
        }
    }
    assert_eq!(signs, 30);
    assert_eq!(encoded('A'), None);
    assert_eq!(decoded('a'), None);
}

#[test]
fn what_was_put_into_signs_reads_back_in_small_words() {
    for msg in ["hello there", "General Kenobi", "why, it's odd.", "a b c"] {
        assert_eq!(decode(&encode(msg).unwrap()), Some(String::from(msg)));
    }
}
