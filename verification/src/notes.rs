//! Values put into words, for the notes that go with a settings document.

use crate::comments::texts;
use crate::options::is_live;
use crate::scalar::{as_i64, parsed_scalar};
use crate::text::{chars_of, index_of_from, string_of};
use crate::value::{
    lemma_entry_smaller, lemma_item_smaller, lemma_sequence_view, lookup, pair_views,
    value_views, with_entry, without_key, Mapping, Value, ValueView,
};
use vstd::prelude::*;

verus! {

/// The character for the digit `d`.
pub open spec fn digit_char(d: int) -> char {
    if d == 0 {
        '0'
    } else if d == 1 {
        '1'
    } else if d == 2 {
        '2'
    } else if d == 3 {
        '3'
    } else if d == 4 {
        '4'
    } else if d == 5 {
        '5'
    } else if d == 6 {
        '6'
    } else if d == 7 {
        '7'
    } else if d == 8 {
        '8'
    } else {
        '9'
    }
}

/// The decimal digits of `n`, the first digit first.
pub open spec fn digits_of(n: nat) -> Seq<char>
    decreases n,
{
    if n < 10 {
        seq![digit_char(n as int)]
    } else {
        digits_of(n / 10).push(digit_char((n % 10) as int))
    }
}

/// The number `n` in decimal digits, with a minus sign before them where it
/// is below zero.
pub open spec fn decimal_of(n: int) -> Seq<char> {
    if n < 0 {
        seq!['-'] + digits_of((-n) as nat)
    } else {
        digits_of(n as nat)
    }
}

/// `parts`, with `sep` between each two of them.
pub open spec fn join(parts: Seq<Seq<char>>, sep: Seq<char>) -> Seq<char>
    decreases parts.len(),
{
    if parts.len() == 0 {
        Seq::empty()
    } else if parts.len() == 1 {
        parts[0]
    } else {
        join(parts.drop_last(), sep) + sep + parts.last()
    }
}

/// How the first `n` entries of a distribution are shown: those that can be
/// drawn, each as its candidate, a colon and its weight.
pub open spec fn shown_entries(
    entries: Seq<(ValueView, ValueView)>,
    candidates: Seq<Seq<char>>,
    weights: Seq<Seq<char>>,
    n: int,
) -> Seq<Seq<char>>
    decreases n,
{
    if n <= 0 || n > entries.len() || n > candidates.len() || n > weights.len() {
        Seq::empty()
    } else if is_live(entries[n - 1]) {
        shown_entries(entries, candidates, weights, n - 1).push(
            if weights[n - 1] == "~"@ {
                candidates[n - 1]
            } else {
                candidates[n - 1] + ": "@ + weights[n - 1]
            },
        )
    } else {
        shown_entries(entries, candidates, weights, n - 1)
    }
}

/// A mapping in words, given its keys and values in words. Where it holds
/// candidates that can be drawn, these are shown: one alone by its name up
/// to the first colon, several in braces with their weights. Else the keys
/// are shown, in braces.
pub open spec fn mapping_text(
    entries: Seq<(ValueView, ValueView)>,
    candidates: Seq<Seq<char>>,
    weights: Seq<Seq<char>>,
) -> Seq<char> {
    let shown = shown_entries(entries, candidates, weights, entries.len() as int);
    if shown.len() == 0 {
        "{"@ + join(candidates, ", "@) + "}"@
    } else if shown.len() == 1 {
        let colon = index_of_from(shown[0], ':', 0);
        if 0 <= colon < shown[0].len() {
            shown[0].take(colon)
        } else {
            "none"@
        }
    } else {
        "{"@ + join(shown, ", "@) + "}"@
    }
}

/// A value in words: a string and a float as written, a whole number in
/// decimal digits, a truth value as `true` or `false`, a sequence as its
/// items in square brackets, a mapping as `mapping_text` says, null as `~`.
pub open spec fn text_of(v: ValueView) -> Seq<char>
    decreases v,
{
    match v {
        ValueView::Float(text) => text,
        ValueView::Str(text) => text,
        ValueView::Int(n) => decimal_of(n as int),
        ValueView::Bool(b) => if b {
            "true"@
        } else {
            "false"@
        },
        ValueView::Sequence(items) => "["@ + join(item_texts(items), ", "@) + "]"@,
        ValueView::Mapping(entries) => mapping_text(
            entries,
            candidate_texts(entries),
            weight_texts(entries),
        ),
        ValueView::Alias(n) => "Unknown"@,
        ValueView::Null => "~"@,
        ValueView::Invalid => "Invalid"@,
    }
}

/// The items of a sequence in words.
pub open spec fn item_texts(items: Seq<ValueView>) -> Seq<Seq<char>>
    decreases items,
{
    Seq::new(
        items.len(),
        |i: int|
            if 0 <= i < items.len() {
                text_of(items[i])
            } else {
                Seq::empty()
            },
    )
}

/// The keys of a mapping in words.
pub open spec fn candidate_texts(entries: Seq<(ValueView, ValueView)>) -> Seq<Seq<char>>
    decreases entries,
{
    Seq::new(
        entries.len(),
        |i: int|
            if 0 <= i < entries.len() {
                text_of(entries[i].0)
            } else {
                Seq::empty()
            },
    )
}

/// The values of a mapping in words.
pub open spec fn weight_texts(entries: Seq<(ValueView, ValueView)>) -> Seq<Seq<char>>
    decreases entries,
{
    Seq::new(
        entries.len(),
        |i: int|
            if 0 <= i < entries.len() {
                text_of(entries[i].1)
            } else {
                Seq::empty()
            },
    )
}

fn digit(d: u64) -> (c: char)
    requires
        d < 10,
    ensures
        c == digit_char(d as int),
{
    if d == 0 {
        '0'
    } else if d == 1 {
        '1'
    } else if d == 2 {
        '2'
    } else if d == 3 {
        '3'
    } else if d == 4 {
        '4'
    } else if d == 5 {
        '5'
    } else if d == 6 {
        '6'
    } else if d == 7 {
        '7'
    } else if d == 8 {
        '8'
    } else {
        '9'
    }
}

fn push_digits(buf: &mut Vec<char>, n: u64)
    ensures
        final(buf)@ == old(buf)@ + digits_of(n as nat),
    decreases n,
{
    if n >= 10 {
        push_digits(buf, n / 10);
    }
    buf.push(digit(n % 10));
    assert(buf@ =~= old(buf)@ + digits_of(n as nat));
}

/// The number `n` in decimal digits.
pub fn unsigned_text(n: u64) -> (r: String)
    ensures
        r@ == decimal_of(n as int),
{
    let mut buf: Vec<char> = Vec::new();
    push_digits(&mut buf, n);
    assert(buf@ =~= digits_of(n as nat));
    let r = string_of(&buf, 0, buf.len());
    assert(buf@.subrange(0, buf.len() as int) =~= buf@);
    r
}

/// The number `n` in decimal digits, with its sign where it is below zero.
pub fn int_text(n: i64) -> (r: String)
    ensures
        r@ == decimal_of(n as int),
{
    let mut buf: Vec<char> = Vec::new();
    if n < 0 {
        buf.push('-');
        let m: u64 = if n == i64::MIN {
            0x8000_0000_0000_0000
        } else {
            (-n) as u64
        };
        push_digits(&mut buf, m);
    } else {
        push_digits(&mut buf, n as u64);
    }
    assert(buf@ =~= decimal_of(n as int));
    let r = string_of(&buf, 0, buf.len());
    assert(buf@.subrange(0, buf.len() as int) =~= buf@);
    r
}

/// `parts`, with `sep` between each two of them.
pub fn join_texts(parts: &Vec<String>, sep: &str) -> (r: String)
    ensures
        r@ == join(texts(parts@), sep@),
{
    let mut r = String::new();
    let mut i: usize = 0;
    assert(texts(parts@).take(0) =~= Seq::empty());
    while i < parts.len()
        invariant
            i <= parts.len(),
            r@ == join(texts(parts@).take(i as int), sep@),
        decreases parts.len() - i,
    {
        proof {
            let upto = texts(parts@).take(i as int + 1);
            assert(upto.drop_last() =~= texts(parts@).take(i as int));
            assert(upto.last() == parts@[i as int]@);
            if i == 0 {
                assert(Seq::<char>::empty() + parts@[0]@ =~= parts@[0]@);
            }
        }
        if i > 0 {
            r.append(sep);
        }
        r.append(parts[i].as_str());
        i += 1;
    }
    assert(texts(parts@).take(parts.len() as int) =~= texts(parts@));
    r
}

/// The part of `s` before its first colon, or `none` where it has no colon.
fn before_colon(s: &String) -> (r: String)
    ensures
        r@ == if 0 <= index_of_from(s@, ':', 0) < s@.len() {
            s@.take(index_of_from(s@, ':', 0))
        } else {
            "none"@
        },
{
    let chars = chars_of(s.as_str());
    let mut i: usize = 0;
    while i < chars.len() && chars[i] != ':'
        invariant
            i <= chars.len(),
            index_of_from(chars@, ':', i as int) == index_of_from(chars@, ':', 0),
        decreases chars.len() - i,
    {
        i += 1;
    }
    if i < chars.len() {
        let r = string_of(&chars, 0, i);
        assert(chars@.subrange(0, i as int) =~= chars@.take(i as int));
        r
    } else {
        String::from_str("none")
    }
}

fn braced(inner: String) -> (r: String)
    ensures
        r@ == "{"@ + inner@ + "}"@,
{
    let mut r = String::from_str("{");
    r.append(inner.as_str());
    r.append("}");
    r
}

impl Mapping {
    /// The mapping in words: see `mapping_text`.
    pub fn to_text(&self) -> (r: String)
        ensures
            r@ == text_of(ValueView::Mapping(self@)),
        decreases ValueView::Mapping(self@), 0int,
    {
        let pairs = self.entries();
        let ghost entries = self@;
        let ghost all_candidates = candidate_texts(entries);
        let ghost all_weights = weight_texts(entries);
        let mut candidates: Vec<String> = Vec::new();
        let mut shown: Vec<String> = Vec::new();
        let mut i: usize = 0;
        while i < pairs.len()
            invariant
                i <= pairs.len(),
                pair_views(pairs@) == entries,
                entries == self@,
                all_candidates.len() == entries.len(),
                all_weights.len() == entries.len(),
                forall|k: int|
                    0 <= k < entries.len() ==> all_candidates[k] == text_of(entries[k].0)
                        && all_weights[k] == text_of(entries[k].1),
                texts(candidates@) == all_candidates.take(i as int),
                texts(shown@) == shown_entries(entries, all_candidates, all_weights, i as int),
            decreases pairs.len() - i,
        {
            assert(pair_views(pairs@)[i as int] == (pairs@[i as int].0@, pairs@[i as int].1@));
            proof {
                lemma_entry_smaller(entries, i as int);
            }
            let candidate = pairs[i].0.to_text();
            let live = match as_i64(pairs[i].1) {
                Some(w) => w > 0,
                None => false,
            };
            if live {
                let weight = pairs[i].1.to_text();
                let ghost before = texts(shown@);
                let tilde = String::from_str("~");
                if weight == tilde {
                    let line = candidate.clone();
                    shown.push(line);
                    assert(texts(shown@) =~= before.push(candidate@));
                } else {
                    let mut line = candidate.clone();
                    line.append(": ");
                    line.append(weight.as_str());
                    shown.push(line);
                    assert(texts(shown@) =~= before.push(candidate@ + ": "@ + weight@));
                }
            }
            let ghost before = texts(candidates@);
            candidates.push(candidate);
            assert(texts(candidates@) =~= before.push(candidate@));
            assert(all_candidates.take(i as int + 1) =~= all_candidates.take(i as int).push(
                all_candidates[i as int],
            ));
            i += 1;
        }
        assert(all_candidates.take(pairs.len() as int) =~= all_candidates);
        if shown.len() == 0 {
            braced(join_texts(&candidates, ", "))
        } else if shown.len() == 1 {
            before_colon(&shown[0])
        } else {
            braced(join_texts(&shown, ", "))
        }
    }
}

impl Value {
    /// The value in words: see `text_of`.
    pub fn to_text(&self) -> (r: String)
        ensures
            r@ == text_of(self@),
        decreases self@, 1int,
    {
        match self {
            Value::Float(text) => text.clone(),
            Value::Str(text) => text.clone(),
            Value::Int(n) => int_text(*n),
            Value::Bool(b) => if *b {
                String::from_str("true")
            } else {
                String::from_str("false")
            },
            Value::Sequence(items) => {
                proof {
                    lemma_sequence_view(*items);
                }
                let ghost views = value_views(items@);
                let ghost all = item_texts(views);
                let mut parts: Vec<String> = Vec::new();
                let mut i: usize = 0;
                while i < items.len()
                    invariant
                        i <= items.len(),
                        views == value_views(items@),
                        self@ == ValueView::Sequence(views),
                        all.len() == views.len(),
                        forall|k: int| 0 <= k < views.len() ==> all[k] == text_of(views[k]),
                        texts(parts@) == all.take(i as int),
                    decreases items.len() - i,
                {
                    proof {
                        lemma_item_smaller(views, i as int);
                    }
                    assert(views[i as int] == items@[i as int]@);
                    let part = items[i].to_text();
                    let ghost before = texts(parts@);
                    parts.push(part);
                    assert(texts(parts@) =~= before.push(part@));
                    assert(all.take(i as int + 1) =~= all.take(i as int).push(all[i as int]));
                    i += 1;
                }
                assert(all.take(items.len() as int) =~= all);
                let mut r = String::from_str("[");
                r.append(join_texts(&parts, ", ").as_str());
                r.append("]");
                r
            },
            Value::Mapping(m) => m.to_text(),
            Value::Alias(_) => String::from_str("Unknown"),
            Value::Null => String::from_str("~"),
            Value::Invalid => String::from_str("Invalid"),
        }
    }
}

/// A value in words.
pub fn to_string(v: &Value) -> (r: String)
    ensures
        r@ == text_of(v@),
{
    v.to_text()
}

/// The words for the option under `key`, or `default` where the option is
/// not set.
pub open spec fn value_or_default(
    entries: Seq<(ValueView, ValueView)>,
    key: Seq<char>,
    default: Seq<char>,
) -> Seq<char> {
    match lookup(entries, parsed_scalar(key)) {
        Some(v) => text_of(v),
        None => default,
    }
}

/// The option under `key` in words, or `default` where it is not set.
pub fn get_value_or_default(hash: &Mapping, key: &str, default: &str) -> (r: String)
    ensures
        r@ == value_or_default(hash@, key@, default@),
{
    let k = Value::parse_scalar(key);
    match hash.get(&k) {
        Some(v) => to_string(v),
        None => String::from_str(default),
    }
}

/// Adds the note `key: value` to `notes`, with the option under `key` in
/// words for the value, or `default` where it is not set.
pub fn push_value_or_default(notes: &mut Vec<String>, hash: &Mapping, key: &str, default: &str)
    ensures
        texts(final(notes)@) == texts(old(notes)@).push(
            key@ + ": "@ + value_or_default(hash@, key@, default@),
        ),
{
    let mut note = String::from_str(key);
    note.append(": ");
    note.append(get_value_or_default(hash, key, default).as_str());
    let ghost before = texts(notes@);
    notes.push(note);
    assert(texts(notes@) =~= before.push(note@));
}

/// The entries after the option `old_name` got the name `new_name`: its
/// value stands under the new name at the end. Where the option is not set,
/// nothing changes.
pub open spec fn option_renamed(
    entries: Seq<(ValueView, ValueView)>,
    old_name: ValueView,
    new_name: ValueView,
) -> Seq<(ValueView, ValueView)> {
    match lookup(entries, old_name) {
        Some(v) => with_entry(without_key(entries, old_name), new_name, v),
        None => entries,
    }
}

/// Gives the option `old_name` the name `new_name`: see `option_renamed`.
pub fn change_option_name(hash: &mut Mapping, old_name: &str, new_name: &str)
    ensures
        final(hash)@ == option_renamed(
            old(hash)@,
            parsed_scalar(old_name@),
            parsed_scalar(new_name@),
        ),
{
    let from = Value::parse_scalar(old_name);
    match hash.remove(&from) {
        Some(v) => {
            hash.insert(Value::parse_scalar(new_name), v);
        },
        None => {},
    }
}

} // verus!
