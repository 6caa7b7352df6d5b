//! Options that are numbers: read from a name, capped, limited by another
//! option, and told by the band they fall in.

use crate::scalar::parsed_scalar;
use crate::value::{
    has_key, lemma_position, lemma_with_value, lookup, with_entry, with_value, Mapping, Value,
    ValueView,
};
use vstd::prelude::*;

verus! {

/// The number that the first of `names` from row `from` on gives for `text`.
pub open spec fn named_number(names: Seq<(String, i64)>, text: Seq<char>, from: int) -> Option<i64>
    decreases names.len() - from,
{
    if 0 <= from < names.len() {
        if names[from].0@ == text {
            Some(names[from].1)
        } else {
            named_number(names, text, from + 1)
        }
    } else {
        None
    }
}

/// The number that an option stands for: a whole number is itself, a text
/// is the number that `names` give for it, and anything else, a text without
/// a number and an option that is not set are `default`.
pub open spec fn number_read(v: Option<ValueView>, names: Seq<(String, i64)>, default: i64) -> i64 {
    match v {
        Some(ValueView::Int(n)) => n,
        Some(ValueView::Str(text)) => match named_number(names, text, 0) {
            Some(n) => n,
            None => default,
        },
        _ => default,
    }
}

/// The entries after the option under `key` was read as a number: it holds
/// that number, and stands at the end.
pub open spec fn number_set(
    entries: Seq<(ValueView, ValueView)>,
    key: ValueView,
    names: Seq<(String, i64)>,
    default: i64,
) -> Seq<(ValueView, ValueView)> {
    with_entry(entries, key, ValueView::Int(number_read(lookup(entries, key), names, default)))
}

/// The entries after a whole number above `above` under `key` became `to`.
pub open spec fn number_capped(
    entries: Seq<(ValueView, ValueView)>,
    key: ValueView,
    above: i64,
    to: i64,
) -> Seq<(ValueView, ValueView)> {
    match lookup(entries, key) {
        Some(ValueView::Int(n)) => if n > above {
            with_value(entries, key, ValueView::Int(to))
        } else {
            entries
        },
        _ => entries,
    }
}

/// Half of `m`, rounded towards zero.
pub open spec fn half(m: int) -> int {
    if m >= 0 {
        m / 2
    } else {
        -((-m) / 2)
    }
}

/// What `caps` leave of `n` beside the limit `m`, from row `from` on: the
/// second part of the first row whose first part is below `m` and whose
/// second part is below `n`; else `n`.
pub open spec fn cap_found(n: i64, m: i64, caps: Seq<(i64, i64)>, from: int) -> i64
    decreases caps.len() - from,
{
    if 0 <= from < caps.len() {
        if m > caps[from].0 && n > caps[from].1 {
            caps[from].1
        } else {
            cap_found(n, m, caps, from + 1)
        }
    } else {
        n
    }
}

/// What is left of `n` under the limit `m`: half of the limit where `n` is
/// above it, else what `caps` leave of it.
pub open spec fn limited(n: i64, m: i64, caps: Seq<(i64, i64)>) -> int {
    if n > m {
        half(m as int)
    } else {
        cap_found(n, m, caps, 0) as int
    }
}

/// The entries after the whole number under `key` was limited by the whole
/// number under `by`. Where one of the two is no whole number, nothing
/// changes.
pub open spec fn number_limited(
    entries: Seq<(ValueView, ValueView)>,
    key: ValueView,
    by: ValueView,
    caps: Seq<(i64, i64)>,
) -> Seq<(ValueView, ValueView)> {
    match (lookup(entries, key), lookup(entries, by)) {
        (Some(ValueView::Int(n)), Some(ValueView::Int(m))) => with_value(
            entries,
            key,
            ValueView::Int(limited(n, m, caps) as i64),
        ),
        _ => entries,
    }
}

/// The name of the band that `n` falls in, from row `from` on: that of the
/// first band that reaches up to `n` or further; `last` above all of them.
pub open spec fn band_name(n: i64, bands: Seq<(i64, String)>, last: Seq<char>, from: int) -> Seq<
    char,
>
    decreases bands.len() - from,
{
    if 0 <= from < bands.len() {
        if n <= bands[from].0 {
            bands[from].1@
        } else {
            band_name(n, bands, last, from + 1)
        }
    } else {
        last
    }
}

/// The band of the whole number under `key`, if there is one.
pub open spec fn band_of(
    entries: Seq<(ValueView, ValueView)>,
    key: ValueView,
    bands: Seq<(i64, String)>,
    last: Seq<char>,
) -> Option<Seq<char>> {
    match lookup(entries, key) {
        Some(ValueView::Int(n)) => Some(band_name(n, bands, last, 0)),
        _ => None,
    }
}

fn number_named(names: &Vec<(String, i64)>, text: &String) -> (r: Option<i64>)
    ensures
        r == named_number(names@, text@, 0),
{
    let mut i: usize = 0;
    while i < names.len()
        invariant
            i <= names.len(),
            named_number(names@, text@, i as int) == named_number(names@, text@, 0),
        decreases names.len() - i,
    {
        if names[i].0 == *text {
            return Some(names[i].1);
        }
        i += 1;
    }
    None
}

/// Reads the option as a number and sets it to that number: see
/// `number_set`.
pub fn read_number(hash: &mut Mapping, option: &str, names: &Vec<(String, i64)>, default: i64)
    ensures
        final(hash)@ == number_set(old(hash)@, parsed_scalar(option@), names@, default),
{
    let key = Value::parse_scalar(option);
    let n = match hash.get(&key) {
        Some(Value::Int(n)) => *n,
        Some(Value::Str(text)) => match number_named(names, text) {
            Some(n) => n,
            None => default,
        },
        _ => default,
    };
    hash.insert(key, Value::Int(n));
}

/// Sets a whole number above `above` to `to`: see `number_capped`.
pub fn cap_number(hash: &mut Mapping, option: &str, above: i64, to: i64)
    ensures
        final(hash)@ == number_capped(old(hash)@, parsed_scalar(option@), above, to),
{
    let key = Value::parse_scalar(option);
    proof {
        lemma_position(hash@, key@, 0);
        if has_key(hash@, key@) {
            lemma_with_value(hash@, key@, lookup(hash@, key@)->0);
        }
    }
    match hash.get_mut(&key) {
        Some(slot) => {
            let over = match &*slot {
                Value::Int(n) => *n > above,
                _ => false,
            };
            if over {
                *slot = Value::Int(to);
            }
        },
        None => {},
    }
}

fn halved(m: i64) -> (r: i64)
    ensures
        r == half(m as int),
{
    if m >= 0 {
        m / 2
    } else {
        let k: i64 = -(m + 1);
        -(k / 2) - (k % 2)
    }
}

fn limit(n: i64, m: i64, caps: &Vec<(i64, i64)>) -> (r: i64)
    ensures
        r == limited(n, m, caps@),
{
    if n > m {
        return halved(m);
    }
    let mut i: usize = 0;
    while i < caps.len()
        invariant
            i <= caps.len(),
            n <= m,
            cap_found(n, m, caps@, i as int) == cap_found(n, m, caps@, 0),
        decreases caps.len() - i,
    {
        if m > caps[i].0 && n > caps[i].1 {
            return caps[i].1;
        }
        i += 1;
    }
    n
}

/// Limits the whole number under `option` by the one under `by`: see
/// `number_limited`.
pub fn limit_number(hash: &mut Mapping, option: &str, by: &str, caps: &Vec<(i64, i64)>)
    ensures
        final(hash)@ == number_limited(
            old(hash)@,
            parsed_scalar(option@),
            parsed_scalar(by@),
            caps@,
        ),
{
    let key = Value::parse_scalar(option);
    let bound = match hash.get(&Value::parse_scalar(by)) {
        Some(Value::Int(m)) => Some(*m),
        _ => None,
    };
    proof {
        lemma_position(hash@, key@, 0);
        if has_key(hash@, key@) {
            lemma_with_value(hash@, key@, lookup(hash@, key@)->0);
        }
    }
    match bound {
        Some(m) => match hash.get_mut(&key) {
            Some(slot) => {
                let left = match &*slot {
                    Value::Int(n) => Some(limit(*n, m, caps)),
                    _ => None,
                };
                match left {
                    Some(n) => {
                        *slot = Value::Int(n);
                    },
                    None => {},
                }
            },
            None => {},
        },
        None => {},
    }
}

/// The name of the band that the whole number under `option` falls in: see
/// `band_of`.
pub fn band(hash: &Mapping, option: &str, bands: &Vec<(i64, String)>, last: &str) -> (r: Option<
    String,
>)
    ensures
        match r {
            Some(text) => band_of(hash@, parsed_scalar(option@), bands@, last@) == Some(text@),
            None => band_of(hash@, parsed_scalar(option@), bands@, last@) is None,
        },
{
    match hash.get(&Value::parse_scalar(option)) {
        Some(Value::Int(n)) => {
            let mut i: usize = 0;
            while i < bands.len()
                invariant
                    i <= bands.len(),
                    lookup(hash@, parsed_scalar(option@)) == Some(ValueView::Int(*n)),
                    band_name(*n, bands@, last@, i as int) == band_name(*n, bands@, last@, 0),
                decreases bands.len() - i,
            {
                if *n <= bands[i].0 {
                    return Some(bands[i].1.clone());
                }
                i += 1;
            }
            Some(String::from_str(last))
        },
        _ => None,
    }
}

} // verus!
