//! A substitution cipher for short messages: each letter has a sign, a
//! capital letter is marked, a letter that comes twice in a row is marked,
//! and the gaps between the words are numbered.

use crate::notes::{decimal_of, unsigned_text};
use crate::text::{chars_of, is_space, is_space_char, push_all, string_of};
use vstd::prelude::*;

verus! {

/// The sign that marks a capital letter.
pub open spec fn capital_mark() -> char {
    '\u{221A}'
}

/// The sign that stands for the letter before it, once more.
pub open spec fn repeat_mark() -> char {
    '\u{03A9}'
}

/// The sign for a small letter or a punctuation mark, if it has one.
pub open spec fn sign_of(c: char) -> Option<char> {
    if c == 'a' {
        Some('*')
    } else if c == 'b' {
        Some('-')
    } else if c == 'c' {
        Some('/')
    } else if c == 'd' {
        Some('%')
    } else if c == 'e' {
        Some('\u{2265}')
    } else if c == 'f' {
        Some('\u{2264}')
    } else if c == 'g' {
        Some('~')
    } else if c == 'h' {
        Some('\u{2554}')
    } else if c == 'i' {
        Some('$')
    } else if c == 'j' {
        Some('\u{00A3}')
    } else if c == 'k' {
        Some('\u{255A}')
    } else if c == 'l' {
        Some(']')
    } else if c == 'm' {
        Some('}')
    } else if c == 'n' {
        Some('[')
    } else if c == 'o' {
        Some('{')
    } else if c == 'p' {
        Some('>')
    } else if c == 'q' {
        Some('<')
    } else if c == 'r' {
        Some('\u{00BF}')
    } else if c == 's' {
        Some('@')
    } else if c == 't' {
        Some('^')
    } else if c == 'u' {
        Some(')')
    } else if c == 'v' {
        Some('(')
    } else if c == 'w' {
        Some('!')
    } else if c == 'x' {
        Some('\u{00AC}')
    } else if c == 'y' {
        Some('&')
    } else if c == 'z' {
        Some('+')
    } else if c == '\'' {
        Some('"')
    } else if c == '.' {
        Some(':')
    } else if c == ',' {
        Some(';')
    } else if c == '?' {
        Some('?')
    } else {
        None
    }
}

/// The small letter or punctuation mark that a sign stands for, if it
/// stands for one.
pub open spec fn letter_of(c: char) -> Option<char> {
    if c == '*' {
        Some('a')
    } else if c == '-' {
        Some('b')
    } else if c == '/' {
        Some('c')
    } else if c == '%' {
        Some('d')
    } else if c == '\u{2265}' {
        Some('e')
    } else if c == '\u{2264}' {
        Some('f')
    } else if c == '~' {
        Some('g')
    } else if c == '\u{2554}' {
        Some('h')
    } else if c == '$' {
        Some('i')
    } else if c == '\u{00A3}' {
        Some('j')
    } else if c == '\u{255A}' {
        Some('k')
    } else if c == ']' {
        Some('l')
    } else if c == '}' {
        Some('m')
    } else if c == '[' {
        Some('n')
    } else if c == '{' {
        Some('o')
    } else if c == '>' {
        Some('p')
    } else if c == '<' {
        Some('q')
    } else if c == '\u{00BF}' {
        Some('r')
    } else if c == '@' {
        Some('s')
    } else if c == '^' {
        Some('t')
    } else if c == ')' {
        Some('u')
    } else if c == '(' {
        Some('v')
    } else if c == '!' {
        Some('w')
    } else if c == '\u{00AC}' {
        Some('x')
    } else if c == '&' {
        Some('y')
    } else if c == '+' {
        Some('z')
    } else if c == '"' {
        Some('\'')
    } else if c == ':' {
        Some('.')
    } else if c == ';' {
        Some(',')
    } else if c == '?' {
        Some('?')
    } else {
        None
    }
}

/// The sign for a small letter or a punctuation mark, if it has one.
pub fn encoded(chr: char) -> (r: Option<char>)
    ensures
        r == sign_of(chr),
{
    if chr == 'a' {
        Some('*')
    } else if chr == 'b' {
        Some('-')
    } else if chr == 'c' {
        Some('/')
    } else if chr == 'd' {
        Some('%')
    } else if chr == 'e' {
        Some('\u{2265}')
    } else if chr == 'f' {
        Some('\u{2264}')
    } else if chr == 'g' {
        Some('~')
    } else if chr == 'h' {
        Some('\u{2554}')
    } else if chr == 'i' {
        Some('$')
    } else if chr == 'j' {
        Some('\u{00A3}')
    } else if chr == 'k' {
        Some('\u{255A}')
    } else if chr == 'l' {
        Some(']')
    } else if chr == 'm' {
        Some('}')
    } else if chr == 'n' {
        Some('[')
    } else if chr == 'o' {
        Some('{')
    } else if chr == 'p' {
        Some('>')
    } else if chr == 'q' {
        Some('<')
    } else if chr == 'r' {
        Some('\u{00BF}')
    } else if chr == 's' {
        Some('@')
    } else if chr == 't' {
        Some('^')
    } else if chr == 'u' {
        Some(')')
    } else if chr == 'v' {
        Some('(')
    } else if chr == 'w' {
        Some('!')
    } else if chr == 'x' {
        Some('\u{00AC}')
    } else if chr == 'y' {
        Some('&')
    } else if chr == 'z' {
        Some('+')
    } else if chr == '\'' {
        Some('"')
    } else if chr == '.' {
        Some(':')
    } else if chr == ',' {
        Some(';')
    } else if chr == '?' {
        Some('?')
    } else {
        None
    }
}

/// The small letter or punctuation mark that a sign stands for, if it
/// stands for one.
pub fn decoded(chr: char) -> (r: Option<char>)
    ensures
        r == letter_of(chr),
{
    if chr == '*' {
        Some('a')
    } else if chr == '-' {
        Some('b')
    } else if chr == '/' {
        Some('c')
    } else if chr == '%' {
        Some('d')
    } else if chr == '\u{2265}' {
        Some('e')
    } else if chr == '\u{2264}' {
        Some('f')
    } else if chr == '~' {
        Some('g')
    } else if chr == '\u{2554}' {
        Some('h')
    } else if chr == '$' {
        Some('i')
    } else if chr == '\u{00A3}' {
        Some('j')
    } else if chr == '\u{255A}' {
        Some('k')
    } else if chr == ']' {
        Some('l')
    } else if chr == '}' {
        Some('m')
    } else if chr == '[' {
        Some('n')
    } else if chr == '{' {
        Some('o')
    } else if chr == '>' {
        Some('p')
    } else if chr == '<' {
        Some('q')
    } else if chr == '\u{00BF}' {
        Some('r')
    } else if chr == '@' {
        Some('s')
    } else if chr == '^' {
        Some('t')
    } else if chr == ')' {
        Some('u')
    } else if chr == '(' {
        Some('v')
    } else if chr == '!' {
        Some('w')
    } else if chr == '\u{00AC}' {
        Some('x')
    } else if chr == '&' {
        Some('y')
    } else if chr == '+' {
        Some('z')
    } else if chr == '"' {
        Some('\'')
    } else if chr == ':' {
        Some('.')
    } else if chr == ';' {
        Some(',')
    } else if chr == '?' {
        Some('?')
    } else {
        None
    }
}

/// A sign stands for the letter whose sign it is.
pub proof fn lemma_sign_is_read_back(c: char)
    requires
        sign_of(c) is Some,
    ensures
        letter_of(sign_of(c)->0) == Some(c),
{
}

/// Whether `c` is a capital letter from A to Z.
pub open spec fn is_capital(c: char) -> bool {
    'A' <= c <= 'Z'
}

/// The small letter for a capital letter from A to Z; any other character
/// as it is.
pub open spec fn small(c: char) -> char {
    if is_capital(c) {
        ((c as u8) + 32) as char
    } else {
        c
    }
}

/// The capital letter for a small letter from a to z; any other character
/// as it is.
pub open spec fn capital(c: char) -> char {
    if 'a' <= c <= 'z' {
        ((c as u8) - 32) as char
    } else {
        c
    }
}

/// Whether `c` is a digit from 0 to 9.
pub open spec fn is_digit(c: char) -> bool {
    '0' <= c <= '9'
}

/// How far a message has been put into signs.
pub struct Encoding {
    /// The signs so far.
    pub signs: Seq<char>,
    /// The number of gaps so far.
    pub gaps: nat,
    /// Whether a character had no sign.
    pub failed: bool,
}

/// The state after one more character. White space becomes the number of
/// the gap. A character whose sign was written last becomes the mark for a
/// repeat. Any other character becomes its sign, after the mark for a
/// capital where it is one. A character without a sign fails the message.
pub open spec fn encode_step(st: Encoding, c: char) -> Encoding {
    if st.failed {
        st
    } else if is_space_char(c) {
        Encoding {
            signs: st.signs + decimal_of(st.gaps as int + 1),
            gaps: st.gaps + 1,
            failed: false,
        }
    } else {
        match sign_of(small(c)) {
            None => Encoding { failed: true, ..st },
            Some(sign) => if st.signs.len() > 0 && st.signs.last() == sign {
                Encoding { signs: st.signs.push(repeat_mark()), ..st }
            } else if is_capital(c) {
                Encoding { signs: st.signs.push(capital_mark()).push(sign), ..st }
            } else {
                Encoding { signs: st.signs.push(sign), ..st }
            },
        }
    }
}

/// The state after all of `msg`.
pub open spec fn encoding_of(msg: Seq<char>) -> Encoding
    decreases msg.len(),
{
    if msg.len() == 0 {
        Encoding { signs: Seq::empty(), gaps: 0, failed: false }
    } else {
        encode_step(encoding_of(msg.drop_last()), msg.last())
    }
}

/// What an optional string holds.
pub open spec fn opt_text(r: Option<String>) -> Option<Seq<char>> {
    match r {
        Some(s) => Some(s@),
        None => None,
    }
}

fn to_small(c: char) -> (r: char)
    ensures
        r == small(c),
{
    if 'A' <= c && c <= 'Z' {
        ((c as u8) + 32) as char
    } else {
        c
    }
}

fn to_capital(c: char) -> (r: char)
    ensures
        r == capital(c),
{
    if 'a' <= c && c <= 'z' {
        ((c as u8) - 32) as char
    } else {
        c
    }
}

/// Puts a message into signs: see `encode_step`. Gives nothing where a
/// character of the message has no sign.
pub fn encode(msg: &str) -> (r: Option<String>)
    ensures
        opt_text(r) == if encoding_of(msg@).failed {
            None
        } else {
            Some(encoding_of(msg@).signs)
        },
{
    let chars = chars_of(msg);
    let mut buf: Vec<char> = Vec::new();
    let mut idx: u64 = 0;
    let mut i: usize = 0;
    assert(chars@.take(0) =~= Seq::empty());
    while i < chars.len()
        invariant
            i <= chars.len(),
            chars@ == msg@,
            idx <= i,
            encoding_of(chars@.take(i as int)) == (Encoding {
                signs: buf@,
                gaps: idx as nat,
                failed: false,
            }),
        decreases chars.len() - i,
    {
        proof {
            let upto = chars@.take(i as int + 1);
            assert(upto.drop_last() =~= chars@.take(i as int));
            assert(upto.last() == chars@[i as int]);
        }
        let c = chars[i];
        if is_space(c) {
            idx += 1;
            let digits = chars_of(unsigned_text(idx).as_str());
            push_all(&mut buf, &digits);
        } else {
            match encoded(to_small(c)) {
                None => {
                    proof {
                        lemma_failed_stays(chars@, i as int + 1);
                    }
                    return None;
                },
                Some(sign) => {
                    if buf.len() > 0 && buf[buf.len() - 1] == sign {
                        buf.push('\u{03A9}');
                    } else {
                        if 'A' <= c && c <= 'Z' {
                            buf.push('\u{221A}');
                        }
                        buf.push(sign);
                    }
                },
            }
        }
        i += 1;
    }
    assert(chars@.take(chars.len() as int) =~= chars@);
    let r = string_of(&buf, 0, buf.len());
    assert(buf@.subrange(0, buf.len() as int) =~= buf@);
    Some(r)
}

/// A message that has failed stays failed.
proof fn lemma_failed_stays(msg: Seq<char>, n: int)
    requires
        0 <= n <= msg.len(),
        encoding_of(msg.take(n)).failed,
    ensures
        encoding_of(msg).failed,
    decreases msg.len() - n,
{
    if n == msg.len() {
        assert(msg.take(n) =~= msg);
    } else {
        assert(msg.take(n + 1).drop_last() =~= msg.take(n));
        lemma_failed_stays(msg, n + 1);
    }
}

/// How far signs have been read back.
pub struct Decoding {
    /// The message so far.
    pub text: Seq<char>,
    /// Whether the last sign was part of the number of a gap.
    pub in_gap: bool,
    /// Whether the next letter is a capital.
    pub next_capital: bool,
    /// Whether a sign could not be read.
    pub failed: bool,
}

/// The state after one more sign. The mark for a capital makes the next
/// letter a capital. The mark for a repeat gives the last character once
/// more, and fails at the start of a message. The first digit of a run of
/// digits gives a blank. Any other sign gives its letter, and fails where it
/// stands for none.
pub open spec fn decode_step(st: Decoding, c: char) -> Decoding {
    if st.failed {
        st
    } else if c == capital_mark() {
        Decoding { in_gap: false, next_capital: true, ..st }
    } else if c == repeat_mark() {
        if st.text.len() == 0 {
            Decoding { failed: true, ..st }
        } else {
            Decoding { text: st.text.push(st.text.last()), in_gap: false, ..st }
        }
    } else if is_digit(c) {
        if st.in_gap {
            st
        } else {
            Decoding { text: st.text.push(' '), in_gap: true, ..st }
        }
    } else {
        match letter_of(c) {
            None => Decoding { failed: true, ..st },
            Some(letter) => Decoding {
                text: st.text.push(
                    if st.next_capital {
                        capital(letter)
                    } else {
                        letter
                    },
                ),
                in_gap: false,
                next_capital: false,
                failed: false,
            },
        }
    }
}

/// The state after all of `msg`.
pub open spec fn decoding_of(msg: Seq<char>) -> Decoding
    decreases msg.len(),
{
    if msg.len() == 0 {
        Decoding { text: Seq::empty(), in_gap: false, next_capital: false, failed: false }
    } else {
        decode_step(decoding_of(msg.drop_last()), msg.last())
    }
}

/// A reading that has failed stays failed.
proof fn lemma_unread_stays(msg: Seq<char>, n: int)
    requires
        0 <= n <= msg.len(),
        decoding_of(msg.take(n)).failed,
    ensures
        decoding_of(msg).failed,
    decreases msg.len() - n,
{
    if n == msg.len() {
        assert(msg.take(n) =~= msg);
    } else {
        assert(msg.take(n + 1).drop_last() =~= msg.take(n));
        lemma_unread_stays(msg, n + 1);
    }
}

/// Reads signs back into a message: see `decode_step`. Gives nothing where
/// a sign cannot be read.
pub fn decode(msg: &str) -> (r: Option<String>)
    ensures
        opt_text(r) == if decoding_of(msg@).failed {
            None
        } else {
            Some(decoding_of(msg@).text)
        },
{
    let chars = chars_of(msg);
    let mut buf: Vec<char> = Vec::new();
    let mut in_gap = false;
    let mut next_capital = false;
    let mut i: usize = 0;
    assert(chars@.take(0) =~= Seq::empty());
    while i < chars.len()
        invariant
            i <= chars.len(),
            chars@ == msg@,
            decoding_of(chars@.take(i as int)) == (Decoding {
                text: buf@,
                in_gap,
                next_capital,
                failed: false,
            }),
        decreases chars.len() - i,
    {
        proof {
            let upto = chars@.take(i as int + 1);
            assert(upto.drop_last() =~= chars@.take(i as int));
            assert(upto.last() == chars@[i as int]);
        }
        let c = chars[i];
        if c == '\u{221A}' {
            in_gap = false;
            next_capital = true;
        } else if c == '\u{03A9}' {
            if buf.len() == 0 {
                proof {
                    lemma_unread_stays(chars@, i as int + 1);
                }
                return None;
            }
            let last = buf[buf.len() - 1];
            buf.push(last);
            in_gap = false;
        } else if '0' <= c && c <= '9' {
            if !in_gap {
                in_gap = true;
                buf.push(' ');
            }
        } else {
            match decoded(c) {
                None => {
                    proof {
                        lemma_unread_stays(chars@, i as int + 1);
                    }
                    return None;
                },
                Some(letter) => {
                    buf.push(
                        if next_capital {
                            to_capital(letter)
                        } else {
                            letter
                        },
                    );
                    in_gap = false;
                    next_capital = false;
                },
            }
        }
        i += 1;
    }
    assert(chars@.take(chars.len() as int) =~= chars@);
    let r = string_of(&buf, 0, buf.len());
    assert(buf@.subrange(0, buf.len() as int) =~= buf@);
    Some(r)
}

} // verus!
