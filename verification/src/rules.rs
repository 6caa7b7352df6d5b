//! Rules for the options of a game, and what applying them does.
//!
//! Which rules a game has is data that the caller brings. A rule is one call
//! of a primitive on the options of the game: a note to take, a message to
//! give, a weight to move, an option to rename, remove, set or read as a
//! number, or a choice between two lists of rules by what an option can be.
//! Applying a rule leaves one result and no other: `applied` says which.

use crate::comments::texts;
use crate::notes::{
    candidate_texts, change_option_name, get_value_or_default, join, join_texts, option_renamed,
    push_value_or_default, to_string, value_or_default,
};
use crate::numbers::{
    band, band_of, cap_number, limit_number, number_capped, number_limited, number_set,
    read_number,
};
use crate::options::{
    may_be, may_differ, merge_marked, merged, move_option_weight, move_option_weight_to_yaml,
    moved_by_name, option_can_be, option_can_be_other_than,
};
use crate::scalar::{as_i64, parsed_scalar, weight_of};
use crate::text::{chars_of, index_of_from, string_of};
use crate::value::{
    distinct_keys, has_key, lemma_position, lemma_sequence_view, lemma_with_value, lookup,
    opt_value_view, pair_views, position, value_views, with_entry, with_value, without_key, Mapping,
    Value, ValueView,
};
use vstd::prelude::*;

verus! {

/// One rule for the options of a game.
pub enum Rule {
    /// Take the note `key: value`, with `default` for an option that is not
    /// set.
    Note { key: String, default: String },
    /// Take the note `text`.
    NoteText { text: String },
    /// Tell the user `text` of the player's file.
    Message { text: String },
    /// Tell the user `before`, the option under `key` in words, and `after`
    /// of the player's file.
    MessageValue { before: String, key: String, default: String, after: String },
    /// Move the weight of the candidate `from` of `option` to `to`.
    MoveWeight { option: String, from: String, to: String },
    /// Move the weight of the candidate `from` of `option` to the value `to`.
    MoveWeightTo { option: String, from: String, to: Value },
    /// Move the weight of every candidate of `option` that is a number of at
    /// least `bound` to `to`.
    MoveWeightAtLeast { option: String, bound: i64, to: String },
    /// Give the option `from` the name `to`.
    Rename { from: String, to: String },
    /// Give the value of the option `from` to each of the options `to`, and
    /// take `from` out.
    Spread { from: String, to: Vec<String> },
    /// Take the option out.
    Remove { option: String },
    /// Set the option to `value`.
    Put { option: String, value: Value },
    /// Set the option to `value` where it is not set.
    PutIfAbsent { option: String, value: Value },
    /// Take the note `label: low-high`, with the options under `low` and
    /// `high` in words, or their defaults.
    NoteRange { label: String, low: String, low_default: String, high: String, high_default: String },
    /// Take the note `label: [a, b]` with those of `options` that can be
    /// true, or `label: none` with `none` where there is no such option.
    NoteEnabled { label: String, options: Vec<String>, none: String },
    /// Take the note `label: [a, b]` with the keys of the mapping under
    /// `option`, or `label: otherwise` where there is no mapping.
    NoteKeys { label: String, option: String, otherwise: String },
    /// Tell the user `before`, the text under `key` and `after` of the
    /// player's file, where there is a text under `key` that is not empty.
    MessageText { before: String, key: String, after: String },
    /// Give the option `from` the name `to`, or set `to` to `default` where
    /// `from` is not set.
    RenameOr { from: String, to: String, default: Value },
    /// Apply `rules` to the mapping under `option`, where there is one.
    In { option: String, rules: Vec<Rule> },
    /// Where `option` is not set, set it to the list of the labels of those
    /// `choices` whose option can be true; a choice whose option is not set
    /// counts as `default`.
    PutEnabled { option: String, default: bool, choices: Vec<(String, String)> },
    /// Take `key` out of every mapping in the sequence under `option`.
    RemoveInEach { option: String, key: String },
    /// In the mapping under `option`, cut every text off before its first
    /// `at`, and read what is left as a scalar.
    CutValues { option: String, at: char },
    /// Take the options `first` and `second` out, and set `into` to what the
    /// `table` gives for their texts: the third part of its first row that
    /// starts with the two, or `otherwise`. An option that is no text counts
    /// as its default.
    Combine {
        first: String,
        first_default: String,
        second: String,
        second_default: String,
        table: Vec<(String, String, String)>,
        otherwise: String,
        into: String,
    },
    /// Set the option to the number it stands for: a whole number stays, a
    /// text becomes the number that `names` give for it, and anything else
    /// becomes `default`.
    ReadNumber { option: String, names: Vec<(String, i64)>, default: i64 },
    /// Set a whole number above `above` to `to`.
    Cap { option: String, above: i64, to: i64 },
    /// Limit the whole number under `option` by the whole number under `by`:
    /// above it, it becomes half of it; else the first of `caps` whose first
    /// part is below the limit and whose second part is below the number
    /// makes it that second part.
    LimitBelow { option: String, by: String, caps: Vec<(i64, i64)> },
    /// Take for a note the name of the first of `bands` that reaches up to
    /// the whole number under `option`, or `last` above all of them.
    NoteBand { option: String, bands: Vec<(i64, String)>, last: String },
    /// Apply `then` where `option` is set, else `otherwise`.
    WhenPresent { option: String, then: Vec<Rule>, otherwise: Vec<Rule> },
    /// Apply `then` where `option`, with `default` where it is not set, can
    /// be `value` (or, with `other_than`, can be anything but `value`), else
    /// `otherwise`.
    When {
        option: String,
        default: Value,
        value: Value,
        other_than: bool,
        then: Vec<Rule>,
        otherwise: Vec<Rule>,
    },
}

/// What applying rules has come to: the options, the notes taken and the
/// messages for the user.
pub struct Run {
    pub entries: Seq<(ValueView, ValueView)>,
    pub notes: Seq<Seq<char>>,
    pub messages: Seq<Seq<char>>,
}

/// The message `text` on the file of the player `name`.
pub open spec fn message_on(name: Seq<char>, text: Seq<char>) -> Seq<char> {
    "'"@ + name + ".yaml' "@ + text
}

/// The options with the option under `key` changed by `change`, where it is
/// set.
pub open spec fn option_changed(
    entries: Seq<(ValueView, ValueView)>,
    key: ValueView,
    change: spec_fn(ValueView) -> ValueView,
) -> Seq<(ValueView, ValueView)> {
    match lookup(entries, key) {
        Some(v) => with_value(entries, key, change(v)),
        None => entries,
    }
}

/// Whether a value is a number of at least `bound`.
pub open spec fn at_least(v: ValueView, bound: i64) -> bool {
    weight_of(v) matches Some(n) && n >= bound
}

/// For each candidate of a distribution whether it is a number of at least
/// `bound`.
pub open spec fn marks_at_least(node: ValueView, bound: i64) -> Seq<bool> {
    match node {
        ValueView::Mapping(entries) => entries.map_values(
            |e: (ValueView, ValueView)| at_least(e.0, bound),
        ),
        _ => Seq::empty(),
    }
}

/// The options after the first `n` of the names `to` were set to `v`.
pub open spec fn spread(
    entries: Seq<(ValueView, ValueView)>,
    to: Seq<String>,
    v: ValueView,
    n: int,
) -> Seq<(ValueView, ValueView)>
    decreases n,
{
    if n <= 0 || n > to.len() {
        entries
    } else {
        with_entry(spread(entries, to, v, n - 1), parsed_scalar(to[n - 1]@), v)
    }
}

/// Whether the option under `key` can be true; an option that is not set
/// counts as `default`.
pub open spec fn can_be_true(
    entries: Seq<(ValueView, ValueView)>,
    key: Seq<char>,
    default: bool,
) -> bool {
    may_be(lookup(entries, parsed_scalar(key)), ValueView::Bool(default), ValueView::Bool(true))
}

/// Those of the first `n` of `options` that can be true.
pub open spec fn enabled_names(
    entries: Seq<(ValueView, ValueView)>,
    options: Seq<String>,
    n: int,
) -> Seq<Seq<char>>
    decreases n,
{
    if n <= 0 || n > options.len() {
        Seq::empty()
    } else if can_be_true(entries, options[n - 1]@, false) {
        enabled_names(entries, options, n - 1).push(options[n - 1]@)
    } else {
        enabled_names(entries, options, n - 1)
    }
}

/// A list in words after its label: the items in square brackets, or `none`
/// where there is no item.
pub open spec fn listed_note(label: Seq<char>, items: Seq<Seq<char>>, none: Seq<char>) -> Seq<char> {
    if items.len() == 0 {
        label + ": "@ + none
    } else {
        label + ": ["@ + join(items, ", "@) + "]"@
    }
}

/// The note on the keys of the mapping under `option`.
pub open spec fn keys_note(
    entries: Seq<(ValueView, ValueView)>,
    label: Seq<char>,
    option: Seq<char>,
    otherwise: Seq<char>,
) -> Seq<char> {
    match lookup(entries, parsed_scalar(option)) {
        Some(ValueView::Mapping(inner)) => label + ": ["@ + join(candidate_texts(inner), ", "@)
            + "]"@,
        _ => label + ": "@ + otherwise,
    }
}

/// The labels of those of the first `n` choices whose option can be true.
pub open spec fn chosen(
    entries: Seq<(ValueView, ValueView)>,
    choices: Seq<(String, String)>,
    default: bool,
    n: int,
) -> Seq<ValueView>
    decreases n,
{
    if n <= 0 || n > choices.len() {
        Seq::empty()
    } else if can_be_true(entries, choices[n - 1].0@, default) {
        chosen(entries, choices, default, n - 1).push(parsed_scalar(choices[n - 1].1@))
    } else {
        chosen(entries, choices, default, n - 1)
    }
}

/// A mapping without the key `key`; anything else as it is.
pub open spec fn without_in(v: ValueView, key: ValueView) -> ValueView {
    match v {
        ValueView::Mapping(e) => ValueView::Mapping(without_key(e, key)),
        _ => v,
    }
}

/// A text cut off before its first `at` and read as a scalar; a text
/// without `at`, and anything else, as it is.
pub open spec fn cut_text(v: ValueView, at: char) -> ValueView {
    match v {
        ValueView::Str(text) => if 0 <= index_of_from(text, at, 0) < text.len() {
            parsed_scalar(text.take(index_of_from(text, at, 0)))
        } else {
            v
        },
        _ => v,
    }
}

/// The entries with every value cut as `cut_text` says.
pub open spec fn cut_entries(entries: Seq<(ValueView, ValueView)>, at: char) -> Seq<
    (ValueView, ValueView),
> {
    entries.map_values(|e: (ValueView, ValueView)| (e.0, cut_text(e.1, at)))
}

/// The text under `key`, or `default` where there is no text under it.
pub open spec fn text_or(
    entries: Seq<(ValueView, ValueView)>,
    key: Seq<char>,
    default: Seq<char>,
) -> Seq<char> {
    match lookup(entries, parsed_scalar(key)) {
        Some(ValueView::Str(text)) => text,
        _ => default,
    }
}

/// What the table gives for `a` and `b`, from row `from` on: the third part
/// of the first row that starts with the two, or `otherwise`.
pub open spec fn table_entry(
    table: Seq<(String, String, String)>,
    a: Seq<char>,
    b: Seq<char>,
    otherwise: Seq<char>,
    from: int,
) -> Seq<char>
    decreases table.len() - from,
{
    if 0 <= from < table.len() {
        if table[from].0@ == a && table[from].1@ == b {
            table[from].2@
        } else {
            table_entry(table, a, b, otherwise, from + 1)
        }
    } else {
        otherwise
    }
}

/// What a run has come to after one more rule.
pub open spec fn applied(run: Run, name: Seq<char>, rule: Rule) -> Run
    decreases rule,
{
    match rule {
        Rule::Note { key, default } => Run {
            notes: run.notes.push(key@ + ": "@ + value_or_default(run.entries, key@, default@)),
            ..run
        },
        Rule::NoteText { text } => Run { notes: run.notes.push(text@), ..run },
        Rule::Message { text } => Run {
            messages: run.messages.push(message_on(name, text@)),
            ..run
        },
        Rule::MessageValue { before, key, default, after } => Run {
            messages: run.messages.push(
                message_on(
                    name,
                    before@ + value_or_default(run.entries, key@, default@) + after@,
                ),
            ),
            ..run
        },
        Rule::MoveWeight { option, from, to } => Run {
            entries: option_changed(
                run.entries,
                parsed_scalar(option@),
                |v: ValueView| moved_by_name(v, from@, parsed_scalar(to@)),
            ),
            ..run
        },
        Rule::MoveWeightTo { option, from, to } => Run {
            entries: option_changed(
                run.entries,
                parsed_scalar(option@),
                |v: ValueView| moved_by_name(v, from@, to@),
            ),
            ..run
        },
        Rule::MoveWeightAtLeast { option, bound, to } => Run {
            entries: option_changed(
                run.entries,
                parsed_scalar(option@),
                |v: ValueView|
                    merged(v, at_least(v, bound), marks_at_least(v, bound), parsed_scalar(to@)),
            ),
            ..run
        },
        Rule::Rename { from, to } => Run {
            entries: option_renamed(run.entries, parsed_scalar(from@), parsed_scalar(to@)),
            ..run
        },
        Rule::Spread { from, to } => Run {
            entries: match lookup(run.entries, parsed_scalar(from@)) {
                Some(v) => spread(
                    without_key(run.entries, parsed_scalar(from@)),
                    to@,
                    v,
                    to@.len() as int,
                ),
                None => run.entries,
            },
            ..run
        },
        Rule::Remove { option } => Run {
            entries: without_key(run.entries, parsed_scalar(option@)),
            ..run
        },
        Rule::Put { option, value } => Run {
            entries: with_entry(run.entries, parsed_scalar(option@), value@),
            ..run
        },
        Rule::PutIfAbsent { option, value } => Run {
            entries: if has_key(run.entries, parsed_scalar(option@)) {
                run.entries
            } else {
                with_entry(run.entries, parsed_scalar(option@), value@)
            },
            ..run
        },
        Rule::NoteRange { label, low, low_default, high, high_default } => Run {
            notes: run.notes.push(
                label@ + ": "@ + value_or_default(run.entries, low@, low_default@) + "-"@
                    + value_or_default(run.entries, high@, high_default@),
            ),
            ..run
        },
        Rule::NoteEnabled { label, options, none } => Run {
            notes: run.notes.push(
                listed_note(
                    label@,
                    enabled_names(run.entries, options@, options@.len() as int),
                    none@,
                ),
            ),
            ..run
        },
        Rule::NoteKeys { label, option, otherwise } => Run {
            notes: run.notes.push(keys_note(run.entries, label@, option@, otherwise@)),
            ..run
        },
        Rule::MessageText { before, key, after } => match lookup(
            run.entries,
            parsed_scalar(key@),
        ) {
            Some(ValueView::Str(found)) => if found.len() > 0 {
                Run {
                    messages: run.messages.push(message_on(name, before@ + found + after@)),
                    ..run
                }
            } else {
                run
            },
            _ => run,
        },
        Rule::RenameOr { from, to, default } => Run {
            entries: with_entry(
                without_key(run.entries, parsed_scalar(from@)),
                parsed_scalar(to@),
                match lookup(run.entries, parsed_scalar(from@)) {
                    Some(v) => v,
                    None => default@,
                },
            ),
            ..run
        },
        Rule::In { option, rules } => match lookup(run.entries, parsed_scalar(option@)) {
            Some(ValueView::Mapping(inner)) => {
                let within = applied_all(
                    Run { entries: inner, notes: run.notes, messages: run.messages },
                    name,
                    rules,
                    rules@.len() as int,
                );
                Run {
                    entries: with_value(
                        run.entries,
                        parsed_scalar(option@),
                        ValueView::Mapping(within.entries),
                    ),
                    notes: within.notes,
                    messages: within.messages,
                }
            },
            _ => run,
        },
        Rule::PutEnabled { option, default, choices } => Run {
            entries: if has_key(run.entries, parsed_scalar(option@)) {
                run.entries
            } else {
                with_entry(
                    run.entries,
                    parsed_scalar(option@),
                    ValueView::Sequence(chosen(run.entries, choices@, default, choices@.len() as int)),
                )
            },
            ..run
        },
        Rule::RemoveInEach { option, key } => Run {
            entries: match lookup(run.entries, parsed_scalar(option@)) {
                Some(ValueView::Sequence(items)) => with_value(
                    run.entries,
                    parsed_scalar(option@),
                    ValueView::Sequence(
                        items.map_values(|v: ValueView| without_in(v, parsed_scalar(key@))),
                    ),
                ),
                _ => run.entries,
            },
            ..run
        },
        Rule::CutValues { option, at } => Run {
            entries: match lookup(run.entries, parsed_scalar(option@)) {
                Some(ValueView::Mapping(inner)) => with_value(
                    run.entries,
                    parsed_scalar(option@),
                    ValueView::Mapping(cut_entries(inner, at)),
                ),
                _ => run.entries,
            },
            ..run
        },
        Rule::Combine { first, first_default, second, second_default, table, otherwise, into } => {
            let rest = without_key(run.entries, parsed_scalar(first@));
            Run {
                entries: with_entry(
                    without_key(rest, parsed_scalar(second@)),
                    parsed_scalar(into@),
                    parsed_scalar(
                        table_entry(
                            table@,
                            text_or(run.entries, first@, first_default@),
                            text_or(rest, second@, second_default@),
                            otherwise@,
                            0,
                        ),
                    ),
                ),
                ..run
            }
        },
        Rule::ReadNumber { option, names, default } => Run {
            entries: number_set(run.entries, parsed_scalar(option@), names@, default),
            ..run
        },
        Rule::Cap { option, above, to } => Run {
            entries: number_capped(run.entries, parsed_scalar(option@), above, to),
            ..run
        },
        Rule::LimitBelow { option, by, caps } => Run {
            entries: number_limited(
                run.entries,
                parsed_scalar(option@),
                parsed_scalar(by@),
                caps@,
            ),
            ..run
        },
        Rule::NoteBand { option, bands, last } => match band_of(
            run.entries,
            parsed_scalar(option@),
            bands@,
            last@,
        ) {
            Some(text) => Run { notes: run.notes.push(text), ..run },
            None => run,
        },
        Rule::WhenPresent { option, then, otherwise } => if has_key(
            run.entries,
            parsed_scalar(option@),
        ) {
            applied_all(run, name, then, then@.len() as int)
        } else {
            applied_all(run, name, otherwise, otherwise@.len() as int)
        },
        Rule::When { option, default, value, other_than, then, otherwise } => {
            let node = lookup(run.entries, parsed_scalar(option@));
            let holds = if other_than {
                may_differ(node, default@, value@)
            } else {
                may_be(node, default@, value@)
            };
            if holds {
                applied_all(run, name, then, then@.len() as int)
            } else {
                applied_all(run, name, otherwise, otherwise@.len() as int)
            }
        },
    }
}

/// What a run has come to after the first `n` of `rules`, one after the
/// other.
pub open spec fn applied_all(run: Run, name: Seq<char>, rules: Vec<Rule>, n: int) -> Run
    decreases rules, n,
{
    if n <= 0 || n > rules@.len() {
        run
    } else {
        applied(applied_all(run, name, rules, n - 1), name, rules@[n - 1])
    }
}

/// The notes and messages of a run.
pub struct Outcome {
    /// The notes taken, in order.
    pub notes: Vec<String>,
    /// What to tell the user, in order.
    pub messages: Vec<String>,
}

/// What a run has come to, from its parts.
pub open spec fn run_of(hash: Mapping, out: Outcome) -> Run {
    Run { entries: hash@, notes: texts(out.notes@), messages: texts(out.messages@) }
}

fn tell(out: &mut Outcome, name: &str, text: &str)
    ensures
        final(out).notes == old(out).notes,
        texts(final(out).messages@) == texts(old(out).messages@).push(message_on(name@, text@)),
{
    let mut m = String::from_str("'");
    m.append(name);
    m.append(".yaml' ");
    m.append(text);
    let ghost before = texts(out.messages@);
    out.messages.push(m);
    assert(texts(out.messages@) =~= before.push(m@));
}

fn move_at_least(v: &mut Value, bound: i64, to: &Value)
    ensures
        final(v)@ == merged(old(v)@, at_least(old(v)@, bound), marks_at_least(old(v)@, bound), to@),
{
    let node_marked = match as_i64(v) {
        Some(n) => n >= bound,
        None => false,
    };
    let mut flags: Vec<bool> = Vec::new();
    match &*v {
        Value::Mapping(m) => {
            let pairs = m.entries();
            let mut i: usize = 0;
            while i < pairs.len()
                invariant
                    i <= pairs.len(),
                    pair_views(pairs@) == m@,
                    flags.len() == i,
                    forall|j: int| 0 <= j < i ==> flags@[j] == at_least(m@[j].0, bound),
                decreases pairs.len() - i,
            {
                assert(pair_views(pairs@)[i as int] == (pairs@[i as int].0@, pairs@[i as int].1@));
                let mark = match as_i64(pairs[i].0) {
                    Some(n) => n >= bound,
                    None => false,
                };
                flags.push(mark);
                i += 1;
            }
            assert(flags@ =~= marks_at_least(v@, bound));
        },
        _ => {
            assert(flags@ =~= marks_at_least(v@, bound));
        },
    }
    merge_marked(v, node_marked, &flags, to);
}

fn spread_to(hash: &mut Mapping, to: &Vec<String>, v: Value)
    ensures
        final(hash)@ == spread(old(hash)@, to@, v@, to@.len() as int),
{
    let mut i: usize = 0;
    while i < to.len()
        invariant
            i <= to.len(),
            hash@ == spread(old(hash)@, to@, v@, i as int),
        decreases to.len() - i,
    {
        hash.insert(Value::parse_scalar(to[i].as_str()), v.duplicate());
        i += 1;
    }
}

pub(crate) fn take_note(out: &mut Outcome, note: String)
    ensures
        final(out).messages == old(out).messages,
        texts(final(out).notes@) == texts(old(out).notes@).push(note@),
{
    let ghost before = texts(out.notes@);
    out.notes.push(note);
    assert(texts(out.notes@) =~= before.push(note@));
}

fn enabled(hash: &Mapping, options: &Vec<String>) -> (r: Vec<String>)
    ensures
        texts(r@) == enabled_names(hash@, options@, options@.len() as int),
{
    let mut r: Vec<String> = Vec::new();
    assert(texts(r@) =~= Seq::empty());
    let mut i: usize = 0;
    while i < options.len()
        invariant
            i <= options.len(),
            texts(r@) == enabled_names(hash@, options@, i as int),
        decreases options.len() - i,
    {
        if option_can_be(hash, options[i].as_str(), &Value::Bool(false), &Value::Bool(true)) {
            let ghost before = texts(r@);
            let o = options[i].clone();
            r.push(o);
            assert(texts(r@) =~= before.push(o@));
        }
        i += 1;
    }
    r
}

fn listed(label: &str, items: &Vec<String>, none: &str) -> (r: String)
    ensures
        r@ == listed_note(label@, texts(items@), none@),
{
    let mut r = String::from_str(label);
    if items.len() == 0 {
        r.append(": ");
        r.append(none);
    } else {
        r.append(": [");
        r.append(join_texts(items, ", ").as_str());
        r.append("]");
    }
    r
}

fn note_on_keys(hash: &Mapping, label: &str, option: &str, otherwise: &str) -> (r: String)
    ensures
        r@ == keys_note(hash@, label@, option@, otherwise@),
{
    let mut r = String::from_str(label);
    match hash.get(&Value::parse_scalar(option)) {
        Some(Value::Mapping(inner)) => {
            let pairs = inner.entries();
            let mut keys: Vec<String> = Vec::new();
            let mut i: usize = 0;
            assert(texts(keys@) =~= candidate_texts(inner@).take(0));
            while i < pairs.len()
                invariant
                    i <= pairs.len(),
                    pair_views(pairs@) == inner@,
                    texts(keys@) == candidate_texts(inner@).take(i as int),
                decreases pairs.len() - i,
            {
                assert(pair_views(pairs@)[i as int] == (pairs@[i as int].0@, pairs@[i as int].1@));
                let k = to_string(pairs[i].0);
                let ghost before = texts(keys@);
                keys.push(k);
                assert(texts(keys@) =~= before.push(k@));
                assert(candidate_texts(inner@).take(i as int + 1) =~= candidate_texts(inner@).take(
                    i as int,
                ).push(candidate_texts(inner@)[i as int]));
                i += 1;
            }
            assert(candidate_texts(inner@).take(pairs.len() as int) =~= candidate_texts(inner@));
            r.append(": [");
            r.append(join_texts(&keys, ", ").as_str());
            r.append("]");
        },
        _ => {
            r.append(": ");
            r.append(otherwise);
        },
    }
    r
}

fn labels_of(hash: &Mapping, choices: &Vec<(String, String)>, default: bool) -> (r: Vec<Value>)
    ensures
        value_views(r@) == chosen(hash@, choices@, default, choices@.len() as int),
{
    let mut r: Vec<Value> = Vec::new();
    assert(value_views(r@) =~= Seq::empty());
    let mut i: usize = 0;
    while i < choices.len()
        invariant
            i <= choices.len(),
            value_views(r@) == chosen(hash@, choices@, default, i as int),
        decreases choices.len() - i,
    {
        if option_can_be(hash, choices[i].0.as_str(), &Value::Bool(default), &Value::Bool(true)) {
            let ghost before = value_views(r@);
            let v = Value::parse_scalar(choices[i].1.as_str());
            r.push(v);
            assert(value_views(r@) =~= before.push(v@));
        }
        i += 1;
    }
    r
}

fn remove_in(v: &mut Value, key: &Value)
    ensures
        final(v)@ == without_in(old(v)@, key@),
{
    match v {
        Value::Mapping(e) => {
            e.remove(key);
        },
        _ => {},
    }
}

fn remove_in_each(list: &mut Value, key: &Value)
    ensures
        match old(list)@ {
            ValueView::Sequence(items) => final(list)@ == ValueView::Sequence(
                items.map_values(|v: ValueView| without_in(v, key@)),
            ),
            _ => final(list)@ == old(list)@,
        },
{
    match list {
        Value::Sequence(items) => {
            proof {
                lemma_sequence_view(*items);
            }
            let ghost before = value_views(items@);
            let mut i: usize = 0;
            while i < items.len()
                invariant
                    i <= items.len(),
                    items.len() == before.len(),
                    forall|j: int|
                        0 <= j < i ==> (#[trigger] items@[j])@ == without_in(before[j], key@),
                    forall|j: int| i <= j < items.len() ==> (#[trigger] items@[j])@ == before[j],
                decreases items.len() - i,
            {
                remove_in(&mut items[i], key);
                i += 1;
            }
            proof {
                lemma_sequence_view(*items);
                assert(value_views(items@) =~= before.map_values(
                    |v: ValueView| without_in(v, key@),
                ));
            }
        },
        _ => {},
    }
}

fn cut(v: &Value, at: char) -> (r: Value)
    ensures
        r@ == cut_text(v@, at),
{
    match v {
        Value::Str(text) => {
            let chars = chars_of(text.as_str());
            let mut i: usize = 0;
            while i < chars.len() && chars[i] != at
                invariant
                    i <= chars.len(),
                    index_of_from(chars@, at, i as int) == index_of_from(chars@, at, 0),
                decreases chars.len() - i,
            {
                i += 1;
            }
            if i < chars.len() {
                let head = string_of(&chars, 0, i);
                assert(chars@.subrange(0, i as int) =~= chars@.take(i as int));
                Value::parse_scalar(head.as_str())
            } else {
                v.duplicate()
            }
        },
        _ => v.duplicate(),
    }
}

fn cut_values(inner: &Mapping, at: char) -> (r: Mapping)
    ensures
        r@ == cut_entries(inner@, at),
{
    let pairs = inner.entries();
    let mut r = Mapping::new();
    let mut i: usize = 0;
    assert(cut_entries(inner@, at).take(0) =~= Seq::empty());
    while i < pairs.len()
        invariant
            i <= pairs.len(),
            pair_views(pairs@) == inner@,
            distinct_keys(inner@),
            r@ == cut_entries(inner@, at).take(i as int),
        decreases pairs.len() - i,
    {
        assert(pair_views(pairs@)[i as int] == (pairs@[i as int].0@, pairs@[i as int].1@));
        let k = pairs[i].0.duplicate();
        let v = cut(pairs[i].1, at);
        proof {
            let sofar = cut_entries(inner@, at).take(i as int);
            lemma_position(sofar, k@, 0);
            if has_key(sofar, k@) {
                let p = position(sofar, k@);
                assert(sofar[p].0 == inner@[p].0);
                assert(inner@[p].0 == inner@[i as int].0);
            }
            assert(cut_entries(inner@, at).take(i as int + 1) =~= sofar.push((k@, v@)));
        }
        r.insert(k, v);
        i += 1;
    }
    assert(cut_entries(inner@, at).take(pairs.len() as int) =~= cut_entries(inner@, at));
    r
}

fn text_under(taken: &Option<Value>, default: &String) -> (r: String)
    ensures
        r@ == match opt_value_view(*taken) {
            Some(ValueView::Str(text)) => text,
            _ => default@,
        },
{
    match taken {
        Some(Value::Str(text)) => text.clone(),
        _ => default.clone(),
    }
}

fn table_value(table: &Vec<(String, String, String)>, a: &String, b: &String, otherwise: &String) -> (r:
    String)
    ensures
        r@ == table_entry(table@, a@, b@, otherwise@, 0),
{
    let mut i: usize = 0;
    while i < table.len()
        invariant
            i <= table.len(),
            table_entry(table@, a@, b@, otherwise@, i as int) == table_entry(
                table@,
                a@,
                b@,
                otherwise@,
                0,
            ),
        decreases table.len() - i,
    {
        if table[i].0 == *a && table[i].1 == *b {
            return table[i].2.clone();
        }
        i += 1;
    }
    otherwise.clone()
}

/// Applies one rule to the options `hash` of the player `name`: see
/// `applied`.
pub fn apply(hash: &mut Mapping, out: &mut Outcome, name: &str, rule: &Rule)
    ensures
        run_of(*final(hash), *final(out)) == applied(run_of(*old(hash), *old(out)), name@, *rule),
    decreases rule,
{
    let ghost before = hash@;
    match rule {
        Rule::Note { key, default } => {
            push_value_or_default(&mut out.notes, hash, key.as_str(), default.as_str());
        },
        Rule::NoteText { text } => {
            let ghost notes = texts(out.notes@);
            out.notes.push(text.clone());
            assert(texts(out.notes@) =~= notes.push(text@));
        },
        Rule::Message { text } => {
            tell(out, name, text.as_str());
        },
        Rule::MessageValue { before, key, default, after } => {
            let mut text = before.clone();
            text.append(get_value_or_default(hash, key.as_str(), default.as_str()).as_str());
            text.append(after.as_str());
            tell(out, name, text.as_str());
        },
        Rule::MoveWeight { option, from, to } => {
            match hash.get_mut(&Value::parse_scalar(option.as_str())) {
                Some(v) => {
                    move_option_weight(v, from.as_str(), to.as_str());
                },
                None => {},
            }
        },
        Rule::MoveWeightTo { option, from, to } => {
            match hash.get_mut(&Value::parse_scalar(option.as_str())) {
                Some(v) => {
                    move_option_weight_to_yaml(v, from.as_str(), to.duplicate());
                },
                None => {},
            }
        },
        Rule::MoveWeightAtLeast { option, bound, to } => {
            let target = Value::parse_scalar(to.as_str());
            match hash.get_mut(&Value::parse_scalar(option.as_str())) {
                Some(v) => {
                    move_at_least(v, *bound, &target);
                },
                None => {},
            }
        },
        Rule::Rename { from, to } => {
            change_option_name(hash, from.as_str(), to.as_str());
        },
        Rule::Spread { from, to } => {
            match hash.remove(&Value::parse_scalar(from.as_str())) {
                Some(v) => {
                    spread_to(hash, to, v);
                },
                None => {
                    proof {
                        lemma_position(before, parsed_scalar(from@), 0);
                    }
                },
            }
        },
        Rule::Remove { option } => {
            hash.remove(&Value::parse_scalar(option.as_str()));
        },
        Rule::Put { option, value } => {
            hash.insert(Value::parse_scalar(option.as_str()), value.duplicate());
        },
        Rule::PutIfAbsent { option, value } => {
            let key = Value::parse_scalar(option.as_str());
            if !hash.contains_key(&key) {
                hash.insert(key, value.duplicate());
            }
        },
        Rule::NoteRange { label, low, low_default, high, high_default } => {
            let mut note = label.clone();
            note.append(": ");
            note.append(get_value_or_default(hash, low.as_str(), low_default.as_str()).as_str());
            note.append("-");
            note.append(get_value_or_default(hash, high.as_str(), high_default.as_str()).as_str());
            take_note(out, note);
        },
        Rule::NoteEnabled { label, options, none } => {
            let names = enabled(hash, options);
            take_note(out, listed(label.as_str(), &names, none.as_str()));
        },
        Rule::NoteKeys { label, option, otherwise } => {
            take_note(out, note_on_keys(hash, label.as_str(), option.as_str(), otherwise.as_str()));
        },
        Rule::MessageText { before, key, after } => {
            match hash.get(&Value::parse_scalar(key.as_str())) {
                Some(Value::Str(found)) => {
                    if found.as_str().unicode_len() > 0 {
                        let mut text = before.clone();
                        text.append(found.as_str());
                        text.append(after.as_str());
                        tell(out, name, text.as_str());
                    }
                },
                _ => {},
            }
        },
        Rule::RenameOr { from, to, default } => {
            let v = match hash.remove(&Value::parse_scalar(from.as_str())) {
                Some(v) => v,
                None => default.duplicate(),
            };
            hash.insert(Value::parse_scalar(to.as_str()), v);
        },
        Rule::In { option, rules } => {
            let key = Value::parse_scalar(option.as_str());
            proof {
                lemma_position(before, key@, 0);
                if has_key(before, key@) {
                    lemma_with_value(before, key@, lookup(before, key@)->0);
                }
            }
            match hash.get_mut(&key) {
                Some(slot) => {
                    match slot {
                        Value::Mapping(inner) => {
                            apply_all(inner, out, name, rules);
                        },
                        _ => {},
                    }
                },
                None => {},
            }
        },
        Rule::PutEnabled { option, default, choices } => {
            let key = Value::parse_scalar(option.as_str());
            if !hash.contains_key(&key) {
                let labels = labels_of(hash, choices, *default);
                proof {
                    lemma_sequence_view(labels);
                }
                hash.insert(key, Value::Sequence(labels));
            }
        },
        Rule::RemoveInEach { option, key } => {
            let k = Value::parse_scalar(option.as_str());
            let inner_key = Value::parse_scalar(key.as_str());
            proof {
                lemma_position(before, k@, 0);
                if has_key(before, k@) {
                    lemma_with_value(before, k@, lookup(before, k@)->0);
                }
            }
            match hash.get_mut(&k) {
                Some(list) => {
                    remove_in_each(list, &inner_key);
                },
                None => {},
            }
        },
        Rule::CutValues { option, at } => {
            let k = Value::parse_scalar(option.as_str());
            proof {
                lemma_position(before, k@, 0);
                if has_key(before, k@) {
                    lemma_with_value(before, k@, lookup(before, k@)->0);
                }
            }
            match hash.get_mut(&k) {
                Some(slot) => {
                    let cut_down = match &*slot {
                        Value::Mapping(inner) => Some(cut_values(inner, *at)),
                        _ => None,
                    };
                    match cut_down {
                        Some(m) => {
                            *slot = Value::Mapping(m);
                        },
                        None => {},
                    }
                },
                None => {},
            }
        },
        Rule::Combine { first, first_default, second, second_default, table, otherwise, into } => {
            let a = text_under(&hash.remove(&Value::parse_scalar(first.as_str())), first_default);
            let b = text_under(&hash.remove(&Value::parse_scalar(second.as_str())), second_default);
            let both = table_value(table, &a, &b, otherwise);
            hash.insert(Value::parse_scalar(into.as_str()), Value::parse_scalar(both.as_str()));
        },
        Rule::ReadNumber { option, names, default } => {
            read_number(hash, option.as_str(), names, *default);
        },
        Rule::Cap { option, above, to } => {
            cap_number(hash, option.as_str(), *above, *to);
        },
        Rule::LimitBelow { option, by, caps } => {
            limit_number(hash, option.as_str(), by.as_str(), caps);
        },
        Rule::NoteBand { option, bands, last } => {
            match band(hash, option.as_str(), bands, last.as_str()) {
                Some(text) => {
                    take_note(out, text);
                },
                None => {},
            }
        },
        Rule::WhenPresent { option, then, otherwise } => {
            if hash.contains_key(&Value::parse_scalar(option.as_str())) {
                apply_all(hash, out, name, then);
            } else {
                apply_all(hash, out, name, otherwise);
            }
        },
        Rule::When { option, default, value, other_than, then, otherwise } => {
            let holds = if *other_than {
                option_can_be_other_than(hash, option.as_str(), default, value)
            } else {
                option_can_be(hash, option.as_str(), default, value)
            };
            if holds {
                apply_all(hash, out, name, then);
            } else {
                apply_all(hash, out, name, otherwise);
            }
        },
    }
}

/// Applies `rules`, one after the other: see `applied_all`.
pub fn apply_all(hash: &mut Mapping, out: &mut Outcome, name: &str, rules: &Vec<Rule>)
    ensures
        run_of(*final(hash), *final(out)) == applied_all(
            run_of(*old(hash), *old(out)),
            name@,
            *rules,
            rules@.len() as int,
        ),
    decreases rules, rules@.len(),
{
    let mut i: usize = 0;
    while i < rules.len()
        invariant
            i <= rules.len(),
            run_of(*hash, *out) == applied_all(run_of(*old(hash), *old(out)), name@, *rules, i as int),
        decreases rules.len() - i,
    {
        apply(hash, out, name, &rules[i]);
        i += 1;
    }
}

} // verus!
