//! What changed between two versions of the options of a game.

use crate::comments::texts;
use crate::game::game_key;
use crate::notes::{decimal_of, int_text, text_of, to_string, unsigned_text};
use crate::value::{
    has_key, lemma_entry_smaller, lemma_sequence_view, lookup, pair_views, value_views, Mapping,
    Value, ValueView,
};
use vstd::prelude::*;

verus! {

/// The message that a value changed, where it did.
pub open spec fn value_change(name: Seq<char>, differ: bool, from: Seq<char>, to: Seq<char>) -> Seq<
    Seq<char>,
> {
    if differ {
        seq![name + ": Value changed from "@ + from + " to "@ + to]
    } else {
        Seq::empty()
    }
}

/// For each of the first `n` of `items` that is not among `others`, the
/// message that it was `word`: removed or added.
pub open spec fn missing(
    name: Seq<char>,
    items: Seq<ValueView>,
    others: Seq<ValueView>,
    n: int,
    word: Seq<char>,
) -> Seq<Seq<char>>
    decreases n,
{
    if n <= 0 || n > items.len() {
        Seq::empty()
    } else if others.contains(items[n - 1]) {
        missing(name, items, others, n - 1, word)
    } else {
        missing(name, items, others, n - 1, word).push(
            name + ": `"@ + text_of(items[n - 1]) + "` "@ + word,
        )
    }
}

/// For each of the first `n` keys of `new` that `old` does not have, the
/// message that it was added.
pub open spec fn added_keys(
    name: Seq<char>,
    old: Seq<(ValueView, ValueView)>,
    new: Seq<(ValueView, ValueView)>,
    n: int,
) -> Seq<Seq<char>>
    decreases n,
{
    if n <= 0 || n > new.len() {
        Seq::empty()
    } else if has_key(old, new[n - 1].0) {
        added_keys(name, old, new, n - 1)
    } else {
        added_keys(name, old, new, n - 1).push(
            name + ": Key `"@ + text_of(new[n - 1].0) + "` added"@,
        )
    }
}

/// What changed from `old` to `new`, in messages that start with `name`.
/// Two scalars of one kind give a message where they differ. Two sequences
/// give a message for a changed length, else one for each item that left or
/// came, else one for a changed order. Two mappings give, key by key, what
/// changed under the key, or that the key left, and then the keys that
/// came. Two values of different kinds give the message that the type
/// changed.
pub open spec fn changes(name: Seq<char>, old: ValueView, new: ValueView) -> Seq<Seq<char>>
    decreases old,
{
    match (old, new) {
        (ValueView::Float(a), ValueView::Float(b)) => value_change(name, a != b, a, b),
        (ValueView::Str(a), ValueView::Str(b)) => value_change(name, a != b, a, b),
        (ValueView::Int(a), ValueView::Int(b)) => value_change(
            name,
            a != b,
            decimal_of(a as int),
            decimal_of(b as int),
        ),
        (ValueView::Bool(a), ValueView::Bool(b)) => value_change(
            name,
            a != b,
            text_of(old),
            text_of(new),
        ),
        (ValueView::Alias(a), ValueView::Alias(b)) => value_change(
            name,
            a != b,
            decimal_of(a as int),
            decimal_of(b as int),
        ),
        (ValueView::Sequence(a), ValueView::Sequence(b)) => if a.len() != b.len() {
            seq![
                name + ": Length changed from "@ + decimal_of(a.len() as int) + " to "@
                    + decimal_of(b.len() as int),
            ]
        } else {
            let moved = missing(name, a, b, a.len() as int, "removed"@) + missing(
                name,
                b,
                a,
                b.len() as int,
                "added"@,
            );
            if moved.len() == 0 && a != b {
                seq![name + ": Order changed from "@ + text_of(old) + " to "@ + text_of(new)]
            } else {
                moved
            }
        },
        (ValueView::Mapping(a), ValueView::Mapping(b)) => key_changes(
            name,
            a,
            b,
            a.len() as int,
        ) + added_keys(name, a, b, b.len() as int),
        (ValueView::Null, ValueView::Null) => Seq::empty(),
        (ValueView::Invalid, ValueView::Invalid) => Seq::empty(),
        _ => seq![name + ": Type changed"@],
    }
}

/// What changed under the first `n` keys of `old`.
pub open spec fn key_changes(
    name: Seq<char>,
    old: Seq<(ValueView, ValueView)>,
    new: Seq<(ValueView, ValueView)>,
    n: int,
) -> Seq<Seq<char>>
    decreases old, n,
{
    if n <= 0 || n > old.len() {
        Seq::empty()
    } else {
        let before = key_changes(name, old, new, n - 1);
        match lookup(new, old[n - 1].0) {
            Some(v) => before + changes(name + ": "@ + text_of(old[n - 1].0), old[n - 1].1, v),
            None => before.push(name + ": Key `"@ + text_of(old[n - 1].0) + "` removed"@),
        }
    }
}

fn holds(items: &Vec<Value>, v: &Value) -> (r: bool)
    ensures
        r == value_views(items@).contains(v@),
{
    let mut i: usize = 0;
    while i < items.len()
        invariant
            i <= items.len(),
            forall|j: int| 0 <= j < i ==> value_views(items@)[j] != v@,
        decreases items.len() - i,
    {
        assert(value_views(items@)[i as int] == items@[i as int]@);
        if items[i].same(v) {
            assert(value_views(items@).contains(v@));
            return true;
        }
        i += 1;
    }
    false
}

fn missing_from(name: &str, items: &Vec<Value>, others: &Vec<Value>, word: &str) -> (r: Vec<
    String,
>)
    ensures
        texts(r@) == missing(
            name@,
            value_views(items@),
            value_views(others@),
            items@.len() as int,
            word@,
        ),
{
    let mut out: Vec<String> = Vec::new();
    let mut i: usize = 0;
    assert(texts(out@) =~= Seq::empty());
    while i < items.len()
        invariant
            i <= items.len(),
            texts(out@) == missing(
                name@,
                value_views(items@),
                value_views(others@),
                i as int,
                word@,
            ),
        decreases items.len() - i,
    {
        assert(value_views(items@)[i as int] == items@[i as int]@);
        if !holds(others, &items[i]) {
            let mut m = String::from_str(name);
            m.append(": `");
            m.append(to_string(&items[i]).as_str());
            m.append("` ");
            m.append(word);
            let ghost before = texts(out@);
            out.push(m);
            assert(texts(out@) =~= before.push(m@));
        }
        i += 1;
    }
    out
}

fn changed(name: &str, differ: bool, from: String, to: String) -> (r: Vec<String>)
    ensures
        texts(r@) == value_change(name@, differ, from@, to@),
{
    let mut out: Vec<String> = Vec::new();
    assert(texts(out@) =~= Seq::empty());
    if differ {
        let mut m = String::from_str(name);
        m.append(": Value changed from ");
        m.append(from.as_str());
        m.append(" to ");
        m.append(to.as_str());
        out.push(m);
        assert(texts(out@) =~= seq![m@]);
    }
    out
}

fn one(m: String) -> (r: Vec<String>)
    ensures
        texts(r@) == seq![m@],
{
    let mut out: Vec<String> = Vec::new();
    out.push(m);
    assert(texts(out@) =~= seq![m@]);
    out
}

fn extend(out: &mut Vec<String>, more: Vec<String>)
    ensures
        texts(final(out)@) == texts(old(out)@) + texts(more@),
{
    let mut more = more;
    let ghost before = texts(out@);
    let ghost added = texts(more@);
    out.append(&mut more);
    assert(texts(out@) =~= before + added);
}

fn compare_mappings(name: &str, old: &Mapping, new: &Mapping) -> (r: Vec<String>)
    ensures
        texts(r@) == changes(name@, ValueView::Mapping(old@), ValueView::Mapping(new@)),
    decreases ValueView::Mapping(old@), 0int,
{
    let pairs = old.entries();
    let mut out: Vec<String> = Vec::new();
    let mut i: usize = 0;
    assert(texts(out@) =~= Seq::empty());
    while i < pairs.len()
        invariant
            i <= pairs.len(),
            pair_views(pairs@) == old@,
            texts(out@) == key_changes(name@, old@, new@, i as int),
        decreases pairs.len() - i,
    {
        assert(pair_views(pairs@)[i as int] == (pairs@[i as int].0@, pairs@[i as int].1@));
        proof {
            lemma_entry_smaller(old@, i as int);
        }
        let key = to_string(pairs[i].0);
        match new.get(pairs[i].0) {
            Some(v) => {
                let mut inner = String::from_str(name);
                inner.append(": ");
                inner.append(key.as_str());
                extend(&mut out, compare(inner.as_str(), pairs[i].1, v));
            },
            None => {
                let mut m = String::from_str(name);
                m.append(": Key `");
                m.append(key.as_str());
                m.append("` removed");
                let ghost before = texts(out@);
                out.push(m);
                assert(texts(out@) =~= before.push(m@));
            },
        }
        i += 1;
    }
    let others = new.entries();
    let ghost first = texts(out@);
    let mut j: usize = 0;
    assert(first + Seq::<Seq<char>>::empty() =~= first);
    while j < others.len()
        invariant
            j <= others.len(),
            pair_views(others@) == new@,
            texts(out@) == first + added_keys(name@, old@, new@, j as int),
        decreases others.len() - j,
    {
        assert(pair_views(others@)[j as int] == (others@[j as int].0@, others@[j as int].1@));
        if !old.contains_key(others[j].0) {
            let mut m = String::from_str(name);
            m.append(": Key `");
            m.append(to_string(others[j].0).as_str());
            m.append("` added");
            let ghost before = texts(out@);
            out.push(m);
            assert(texts(out@) =~= before.push(m@));
            assert(first + added_keys(name@, old@, new@, j as int).push(m@) =~= (first
                + added_keys(name@, old@, new@, j as int)).push(m@));
        }
        j += 1;
    }
    out
}

/// The messages on what changed from `old` to `new`, each starting with
/// `name`: see `changes`.
pub fn compare(name: &str, old: &Value, new: &Value) -> (r: Vec<String>)
    ensures
        texts(r@) == changes(name@, old@, new@),
    decreases old@, 1int,
{
    match (old, new) {
        (Value::Float(a), Value::Float(b)) => changed(name, *a != *b, a.clone(), b.clone()),
        (Value::Str(a), Value::Str(b)) => changed(name, *a != *b, a.clone(), b.clone()),
        (Value::Int(a), Value::Int(b)) => changed(name, *a != *b, int_text(*a), int_text(*b)),
        (Value::Bool(a), Value::Bool(b)) => changed(name, *a != *b, to_string(old), to_string(new)),
        (Value::Alias(a), Value::Alias(b)) => changed(
            name,
            *a != *b,
            unsigned_text(*a as u64),
            unsigned_text(*b as u64),
        ),
        (Value::Sequence(a), Value::Sequence(b)) => {
            proof {
                lemma_sequence_view(*a);
                lemma_sequence_view(*b);
            }
            if a.len() != b.len() {
                let mut m = String::from_str(name);
                m.append(": Length changed from ");
                m.append(unsigned_text(a.len() as u64).as_str());
                m.append(" to ");
                m.append(unsigned_text(b.len() as u64).as_str());
                one(m)
            } else {
                let mut moved = missing_from(name, a, b, "removed");
                extend(&mut moved, missing_from(name, b, a, "added"));
                if moved.len() == 0 && !old.same(new) {
                    let mut m = String::from_str(name);
                    m.append(": Order changed from ");
                    m.append(to_string(old).as_str());
                    m.append(" to ");
                    m.append(to_string(new).as_str());
                    one(m)
                } else {
                    moved
                }
            }
        },
        (Value::Mapping(a), Value::Mapping(b)) => compare_mappings(name, a, b),
        (Value::Null, Value::Null) => {
            let out: Vec<String> = Vec::new();
            assert(texts(out@) =~= Seq::empty());
            out
        },
        (Value::Invalid, Value::Invalid) => {
            let out: Vec<String> = Vec::new();
            assert(texts(out@) =~= Seq::empty());
            out
        },
        _ => {
            let mut m = String::from_str(name);
            m.append(": Type changed");
            one(m)
        },
    }
}

/// Why two documents cannot be compared.
#[derive(Debug, Clone, Copy, PartialEq, Eq, Structural)]
pub enum CompareError {
    /// The old document names no game.
    OldHasNoGame,
    /// The new document names no game.
    NewHasNoGame,
    /// The old document has no options for its game.
    OldHasNoOptions,
    /// The new document has no options for its game.
    NewHasNoOptions,
}

/// The message that the game of a document changed, where it did.
pub open spec fn game_change(name: Seq<char>, differ: bool) -> Seq<Seq<char>> {
    if differ {
        seq![name + ": Game name has been changed"@]
    } else {
        Seq::empty()
    }
}

/// What comparing two documents gives: where both are mappings, whether the
/// game changed, and then what changed from the options that the old
/// document has for its game to those that the new one has for its own. A
/// document that names no game, or has no options for it, is an error, the
/// old document first. Where one of the two is no mapping there is nothing
/// to say.
pub open spec fn document_changes(name: Seq<char>, old: ValueView, new: ValueView) -> Result<
    Seq<Seq<char>>,
    CompareError,
> {
    match (old, new) {
        (ValueView::Mapping(a), ValueView::Mapping(b)) => match (
            lookup(a, game_key()),
            lookup(b, game_key()),
        ) {
            (None, _) => Err(CompareError::OldHasNoGame),
            (Some(old_game), None) => Err(CompareError::NewHasNoGame),
            (Some(old_game), Some(new_game)) => match (lookup(a, old_game), lookup(b, new_game)) {
                (None, _) => Err(CompareError::OldHasNoOptions),
                (Some(old_options), None) => Err(CompareError::NewHasNoOptions),
                (Some(old_options), Some(new_options)) => Ok(
                    game_change(name, old_game != new_game) + changes(
                        name,
                        old_options,
                        new_options,
                    ),
                ),
            },
        },
        _ => Ok(Seq::empty()),
    }
}

/// What the result of `compare_documents` holds.
pub open spec fn compared_view(r: Result<Vec<String>, CompareError>) -> Result<
    Seq<Seq<char>>,
    CompareError,
> {
    match r {
        Ok(messages) => Ok(texts(messages@)),
        Err(e) => Err(e),
    }
}

/// Compares two versions of one document: see `document_changes`.
pub fn compare_documents(name: &str, old: &Value, new: &Value) -> (r: Result<
    Vec<String>,
    CompareError,
>)
    ensures
        compared_view(r) == document_changes(name@, old@, new@),
{
    let key = Value::string("game");
    match (old, new) {
        (Value::Mapping(a), Value::Mapping(b)) => {
            let old_game = match a.get(&key) {
                Some(game) => game,
                None => {
                    return Err(CompareError::OldHasNoGame);
                },
            };
            let new_game = match b.get(&key) {
                Some(game) => game,
                None => {
                    return Err(CompareError::NewHasNoGame);
                },
            };
            let old_options = match a.get(old_game) {
                Some(options) => options,
                None => {
                    return Err(CompareError::OldHasNoOptions);
                },
            };
            let new_options = match b.get(new_game) {
                Some(options) => options,
                None => {
                    return Err(CompareError::NewHasNoOptions);
                },
            };
            let mut out: Vec<String> = Vec::new();
            assert(texts(out@) =~= Seq::empty());
            if !old_game.same(new_game) {
                let mut m = String::from_str(name);
                m.append(": Game name has been changed");
                out.push(m);
                assert(texts(out@) =~= seq![m@]);
            }
            let ghost first = texts(out@);
            extend(&mut out, compare(name, old_options, new_options));
            assert(texts(out@) =~= first + changes(name@, old_options@, new_options@));
            Ok(out)
        },
        _ => {
            let out: Vec<String> = Vec::new();
            assert(texts(out@) =~= Seq::empty());
            Ok(out)
        },
    }
}

} // verus!
