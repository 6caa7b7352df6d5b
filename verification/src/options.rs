//! Weighted options and the primitives that rewrite them.
//!
//! An option is either one plain value or a mapping from candidates to
//! weights. A weight counts where it is a number; a candidate can be drawn
//! where its weight is above zero. The primitives move weight from one
//! candidate to another and never lose any of it on the way.

use crate::scalar::{as_i64, parsed_scalar, weight_of};
use crate::text::chars_of;
use crate::value::{
    distinct_keys, has_key, lemma_lookup_without_other, lemma_position, lemma_without_key_gone,
    lookup, opt_ref_view, pair_views, position, with_entry, with_value, without_key, Mapping, Value,
    ValueView,
};
use vstd::prelude::*;

verus! {

/// What an entry adds to the total weight: its weight where that is a
/// number, else nothing.
pub open spec fn entry_weight(e: (ValueView, ValueView)) -> int {
    match weight_of(e.1) {
        Some(w) => w as int,
        None => 0,
    }
}

/// Whether an entry can be drawn: its weight is a number above zero.
pub open spec fn is_live(e: (ValueView, ValueView)) -> bool {
    weight_of(e.1) matches Some(w) && w > 0
}

/// The sum of the weights of `entries`.
pub open spec fn total_weight(entries: Seq<(ValueView, ValueView)>) -> int
    decreases entries.len(),
{
    if entries.len() == 0 {
        0
    } else {
        total_weight(entries.drop_last()) + entry_weight(entries.last())
    }
}

/// The weight that `to` has before a merge: that of its entry where it is a
/// number, else zero.
pub open spec fn base_weight(entries: Seq<(ValueView, ValueView)>, to: ValueView) -> int {
    match lookup(entries, to) {
        Some(v) => entry_weight((to, v)),
        None => 0,
    }
}

/// The entries after the weight `w` went to the candidate `to`. Where `to`
/// has a number for its weight, `w` is added to it in place; else `to` gets
/// the weight `w` at the end.
pub open spec fn credited(entries: Seq<(ValueView, ValueView)>, to: ValueView, w: int) -> Seq<
    (ValueView, ValueView),
> {
    match lookup(entries, to) {
        Some(v) => match weight_of(v) {
            Some(e) => with_value(entries, to, ValueView::Int((e + w) as i64)),
            None => with_entry(entries, to, ValueView::Int(w as i64)),
        },
        None => with_entry(entries, to, ValueView::Int(w as i64)),
    }
}

/// The entries of a distribution after the candidate `from` became `to`.
/// The entry of `from` leaves. Where its weight was above zero, the weight
/// goes to `to`. Where the sum would not fit the weight's type, nothing
/// changes at all.
pub open spec fn renamed_entries(
    entries: Seq<(ValueView, ValueView)>,
    from: ValueView,
    to: ValueView,
) -> Seq<(ValueView, ValueView)> {
    match lookup(entries, from) {
        None => entries,
        Some(weight) => {
            let rest = without_key(entries, from);
            if is_live((from, weight)) {
                let w = entry_weight((from, weight));
                if base_weight(rest, to) + w > i64::MAX {
                    entries
                } else {
                    credited(rest, to, w)
                }
            } else {
                rest
            }
        },
    }
}

/// An option after the candidate `from` became `to`: a plain value that is
/// `from` becomes `to`, a distribution changes as `renamed_entries` says,
/// anything else stays.
pub open spec fn renamed(node: ValueView, from: ValueView, to: ValueView) -> ValueView {
    if node == from {
        to
    } else {
        match node {
            ValueView::Mapping(entries) => ValueView::Mapping(renamed_entries(entries, from, to)),
            _ => node,
        }
    }
}

/// Whether the option names the candidate `from`: it is that value, or a
/// distribution with an entry for it.
pub open spec fn names_candidate(node: ValueView, from: ValueView) -> bool {
    node == from || (node matches ValueView::Mapping(entries) && has_key(entries, from))
}

/// The weight that a rename drops: that of the entry of `from` where it
/// leaves without being moved. It is never above zero.
pub open spec fn dropped_by_rename(entries: Seq<(ValueView, ValueView)>, from: ValueView) -> int {
    match lookup(entries, from) {
        Some(weight) => if is_live((from, weight)) {
            0
        } else {
            entry_weight((from, weight))
        },
        None => 0,
    }
}

pub proof fn lemma_total_push(entries: Seq<(ValueView, ValueView)>, e: (ValueView, ValueView))
    ensures
        total_weight(entries.push(e)) == total_weight(entries) + entry_weight(e),
{
    assert(entries.push(e).drop_last() =~= entries);
}

pub proof fn lemma_total_remove(entries: Seq<(ValueView, ValueView)>, i: int)
    requires
        0 <= i < entries.len(),
    ensures
        total_weight(entries.remove(i)) == total_weight(entries) - entry_weight(entries[i]),
    decreases entries.len(),
{
    if i == entries.len() - 1 {
        assert(entries.remove(i) =~= entries.drop_last());
    } else {
        lemma_total_remove(entries.drop_last(), i);
        assert(entries.remove(i).drop_last() =~= entries.drop_last().remove(i));
        assert(entries.remove(i).last() == entries.last());
    }
}

pub proof fn lemma_total_update(
    entries: Seq<(ValueView, ValueView)>,
    i: int,
    e: (ValueView, ValueView),
)
    requires
        0 <= i < entries.len(),
    ensures
        total_weight(entries.update(i, e)) == total_weight(entries) - entry_weight(entries[i])
            + entry_weight(e),
    decreases entries.len(),
{
    if i == entries.len() - 1 {
        assert(entries.update(i, e).drop_last() =~= entries.drop_last());
    } else {
        lemma_total_update(entries.drop_last(), i, e);
        assert(entries.update(i, e).drop_last() =~= entries.drop_last().update(i, e));
        assert(entries.update(i, e).last() == entries.last());
    }
}

pub proof fn lemma_total_without(entries: Seq<(ValueView, ValueView)>, key: ValueView)
    ensures
        total_weight(without_key(entries, key)) == total_weight(entries) - base_weight(
            entries,
            key,
        ),
{
    lemma_position(entries, key, 0);
    if has_key(entries, key) {
        lemma_total_remove(entries, position(entries, key));
    }
}

pub proof fn lemma_total_with_entry(
    entries: Seq<(ValueView, ValueView)>,
    key: ValueView,
    value: ValueView,
)
    ensures
        total_weight(with_entry(entries, key, value)) == total_weight(entries) - base_weight(
            entries,
            key,
        ) + entry_weight((key, value)),
{
    lemma_total_without(entries, key);
    lemma_total_push(without_key(entries, key), (key, value));
}

pub proof fn lemma_total_with_value(
    entries: Seq<(ValueView, ValueView)>,
    key: ValueView,
    value: ValueView,
)
    requires
        has_key(entries, key),
    ensures
        total_weight(with_value(entries, key, value)) == total_weight(entries) - base_weight(
            entries,
            key,
        ) + entry_weight((key, value)),
{
    lemma_position(entries, key, 0);
    lemma_total_update(entries, position(entries, key), (key, value));
}

/// Crediting `w` to a candidate adds `w` to the total.
pub proof fn lemma_total_credited(entries: Seq<(ValueView, ValueView)>, to: ValueView, w: int)
    requires
        i64::MIN <= base_weight(entries, to) + w <= i64::MAX,
        i64::MIN <= w <= i64::MAX,
    ensures
        total_weight(credited(entries, to, w)) == total_weight(entries) + w,
{
    match lookup(entries, to) {
        Some(v) => match weight_of(v) {
            Some(e) => {
                lemma_total_with_value(entries, to, ValueView::Int((e + w) as i64));
            },
            None => {
                lemma_total_with_entry(entries, to, ValueView::Int(w as i64));
            },
        },
        None => {
            lemma_total_with_entry(entries, to, ValueView::Int(w as i64));
        },
    }
}

/// A rename keeps the total weight but for what the entry of `from` held
/// where it left without being moved.
pub proof fn lemma_rename_conserves_weight(
    entries: Seq<(ValueView, ValueView)>,
    from: ValueView,
    to: ValueView,
)
    ensures
        total_weight(renamed_entries(entries, from, to)) == total_weight(entries)
            - dropped_by_rename(entries, from),
        dropped_by_rename(entries, from) <= 0,
{
    match lookup(entries, from) {
        None => {},
        Some(weight) => {
            let rest = without_key(entries, from);
            lemma_total_without(entries, from);
            if is_live((from, weight)) {
                let w = entry_weight((from, weight));
                if base_weight(rest, to) + w <= i64::MAX {
                    lemma_total_credited(rest, to, w);
                }
            }
        },
    }
}

/// Renames a candidate inside a distribution: see `renamed_entries`.
fn rename_in(m: &mut Mapping, from: &Value, to: &Value) -> (found: bool)
    ensures
        final(m)@ == renamed_entries(old(m)@, from@, to@),
        found == has_key(old(m)@, from@),
{
    let weight = match m.get(from) {
        None => {
            return false;
        },
        Some(v) => as_i64(v),
    };
    let w: i64 = match weight {
        Some(w) => w,
        None => 0,
    };
    if w <= 0 {
        m.remove(from);
        return true;
    }
    let base: Option<i64> = if to.same(from) {
        let _pairs = m.entries();
        proof {
            lemma_without_key_gone(m@, from@);
        }
        None
    } else {
        proof {
            lemma_lookup_without_other(m@, from@, to@);
        }
        match m.get(to) {
            Some(v) => as_i64(v),
            None => None,
        }
    };
    let sum: Option<i64> = match base {
        Some(e) => e.checked_add(w),
        None => Some(w),
    };
    match sum {
        None => {},
        Some(total) => {
            m.remove(from);
            match base {
                Some(_) => {
                    match m.get_mut(to) {
                        Some(slot) => {
                            *slot = Value::Int(total);
                        },
                        None => {},
                    }
                },
                None => {
                    m.insert(to.duplicate(), Value::Int(w));
                },
            }
        },
    }
    true
}

/// Renames the candidate `from` of an option to `to`. A plain value that is
/// `from` becomes `to`. In a distribution the entry of `from` leaves, and a
/// weight above zero that it had goes to `to`. Returns whether the option
/// named `from`.
pub fn rename(node: &mut Value, from: &Value, to: &Value) -> (found: bool)
    ensures
        final(node)@ == renamed(old(node)@, from@, to@),
        found == names_candidate(old(node)@, from@),
{
    if node.same(from) {
        *node = to.duplicate();
        return true;
    }
    match node {
        Value::Mapping(m) => rename_in(m, from, to),
        _ => false,
    }
}

/// Whether entry `i` is marked in `flags`. An entry that `flags` does not
/// reach is not marked.
pub open spec fn flagged(flags: Seq<bool>, i: int) -> bool {
    0 <= i < flags.len() && flags[i]
}

/// The weight that the marked entries among the first `n` give to `to`:
/// the weights above zero of those whose candidate is not `to` itself.
pub open spec fn moved_weight(
    entries: Seq<(ValueView, ValueView)>,
    flags: Seq<bool>,
    to: ValueView,
    n: int,
) -> int
    decreases n,
{
    if n <= 0 || n > entries.len() {
        0
    } else {
        moved_weight(entries, flags, to, n - 1) + if flagged(flags, n - 1) && entries[n - 1].0 != to
            && is_live(entries[n - 1]) {
            entry_weight(entries[n - 1])
        } else {
            0
        }
    }
}

/// The first `n` entries without the marked ones.
pub open spec fn kept(entries: Seq<(ValueView, ValueView)>, flags: Seq<bool>, n: int) -> Seq<
    (ValueView, ValueView),
>
    decreases n,
{
    if n <= 0 || n > entries.len() {
        Seq::empty()
    } else if flagged(flags, n - 1) {
        kept(entries, flags, n - 1)
    } else {
        kept(entries, flags, n - 1).push(entries[n - 1])
    }
}

/// The weight that `to` is to have after a merge: what it had, and what the
/// marked entries give to it.
pub open spec fn merged_weight(
    entries: Seq<(ValueView, ValueView)>,
    flags: Seq<bool>,
    to: ValueView,
) -> int {
    base_weight(entries, to) + moved_weight(entries, flags, to, entries.len() as int)
}

/// The entries of a distribution after the marked candidates became `to`.
/// The marked entries leave. Their weights above zero and the weight that
/// `to` had make the new weight of `to`; where that is above zero, `to` gets
/// it at the end. Where it would not fit the weight's type, nothing changes
/// at all.
pub open spec fn merged_entries(
    entries: Seq<(ValueView, ValueView)>,
    flags: Seq<bool>,
    to: ValueView,
) -> Seq<(ValueView, ValueView)> {
    let total = merged_weight(entries, flags, to);
    let rest = kept(entries, flags, entries.len() as int);
    if total > i64::MAX {
        entries
    } else if total > 0 {
        with_entry(rest, to, ValueView::Int(total as i64))
    } else {
        rest
    }
}

/// An option after the marked candidates became `to`: a plain value that is
/// marked itself becomes `to`, a distribution changes as `merged_entries`
/// says, anything else stays.
pub open spec fn merged(node: ValueView, node_marked: bool, flags: Seq<bool>, to: ValueView) -> ValueView {
    if node_marked {
        to
    } else {
        match node {
            ValueView::Mapping(entries) => ValueView::Mapping(merged_entries(entries, flags, to)),
            _ => node,
        }
    }
}

/// The keys of `kept` come from the first `n` entries.
proof fn lemma_kept_source(entries: Seq<(ValueView, ValueView)>, flags: Seq<bool>, n: int)
    requires
        0 <= n <= entries.len(),
    ensures
        forall|k: int|
            0 <= k < kept(entries, flags, n).len() ==> exists|i: int|
                0 <= i < n && !flagged(flags, i) && entries[i] == #[trigger] kept(
                    entries,
                    flags,
                    n,
                )[k],
    decreases n,
{
    if n > 0 {
        lemma_kept_source(entries, flags, n - 1);
        let before = kept(entries, flags, n - 1);
        assert forall|k: int| 0 <= k < kept(entries, flags, n).len() implies exists|i: int|
            0 <= i < n && !flagged(flags, i) && entries[i] == #[trigger] kept(entries, flags, n)[k] by {
            if k < before.len() {
                let i = choose|i: int|
                    0 <= i < n - 1 && !flagged(flags, i) && entries[i] == before[k];
                assert(entries[i] == kept(entries, flags, n)[k]);
            } else {
                assert(entries[n - 1] == kept(entries, flags, n)[k]);
            }
        }
    }
}

/// Merges the marked candidates of a distribution: see `merged_entries`.
fn merge_in(m: &mut Mapping, flags: &Vec<bool>, to: &Value)
    ensures
        final(m)@ == merged_entries(old(m)@, flags@, to@),
{
    let ghost entries = m@;
    let pairs = m.entries();
    let n = pairs.len();
    let mut keys: Vec<Value> = Vec::new();
    let mut moved: i128 = 0;
    let mut i: usize = 0;
    while i < n
        invariant
            i <= n,
            n == pairs.len(),
            n == entries.len(),
            pair_views(pairs@) == entries,
            keys.len() == i,
            forall|k: int| 0 <= k < i ==> (#[trigger] keys@[k])@ == entries[k].0,
            moved == moved_weight(entries, flags@, to@, i as int),
            0 <= moved <= i * 0x7fff_ffff_ffff_ffff,
        decreases n - i,
    {
        assert(pair_views(pairs@)[i as int] == (pairs@[i as int].0@, pairs@[i as int].1@));
        let key = pairs[i].0;
        if i < flags.len() && flags[i] && !key.same(to) {
            match as_i64(pairs[i].1) {
                Some(w) => {
                    if w > 0 {
                        moved = moved + w as i128;
                    }
                },
                None => {},
            }
        }
        keys.push(key.duplicate());
        i += 1;
    }
    let base: i64 = match m.get(to) {
        Some(v) => match as_i64(v) {
            Some(e) => e,
            None => 0,
        },
        None => 0,
    };
    let total: i128 = base as i128 + moved;
    if total > 0x7fff_ffff_ffff_ffff {
        return ;
    }
    let mut j: usize = 0;
    assert(kept(entries, flags@, 0) + entries.skip(0) =~= entries);
    while j < n
        invariant
            j <= n,
            n == entries.len(),
            n == keys.len(),
            distinct_keys(entries),
            forall|k: int| 0 <= k < n ==> (#[trigger] keys@[k])@ == entries[k].0,
            m@ == kept(entries, flags@, j as int) + entries.skip(j as int),
        decreases n - j,
    {
        let ghost before = kept(entries, flags@, j as int);
        if j < flags.len() && flags[j] {
            proof {
                let now = before + entries.skip(j as int);
                lemma_kept_source(entries, flags@, j as int);
                lemma_position(now, entries[j as int].0, 0);
                let p = position(now, entries[j as int].0);
                assert(now[before.len() as int] == entries[j as int]);
                if p < before.len() {
                    let src = choose|s: int|
                        0 <= s < j && !flagged(flags@, s) && entries[s] == before[p];
                    assert(now[p] == before[p]);
                    assert(entries[src].0 != entries[j as int].0);
                }
                assert(p == before.len());
                assert(now.remove(p) =~= before + entries.skip(j as int + 1));
            }
            m.remove(&keys[j]);
        } else {
            assert(before.push(entries[j as int]) + entries.skip(j as int + 1) =~= before
                + entries.skip(j as int));
        }
        j += 1;
    }
    assert(kept(entries, flags@, n as int) + entries.skip(n as int) =~= kept(
        entries,
        flags@,
        n as int,
    ));
    if total > 0 {
        m.insert(to.duplicate(), Value::Int(total as i64));
    }
}

/// Merges marked candidates of an option into `to`. `node_marked` says
/// whether the option as a plain value is marked, `flags` which entries of a
/// distribution are, in their order. See `merged`.
pub fn merge_marked(node: &mut Value, node_marked: bool, flags: &Vec<bool>, to: &Value)
    ensures
        final(node)@ == merged(old(node)@, node_marked, flags@, to@),
{
    if node_marked {
        *node = to.duplicate();
        return ;
    }
    match node {
        Value::Mapping(m) => merge_in(m, flags, to),
        _ => {},
    }
}

/// Whether `r` is what the test `from` may say of a value that holds `v`.
pub open spec fn answers<F: Fn(&Value) -> bool>(from: F, v: ValueView, r: bool) -> bool {
    exists|k: Value| k@ == v && call_ensures(from, (&k,), r)
}

/// Whether `flags` holds, entry by entry, what the test `from` may say of
/// the candidates of `entries`.
pub open spec fn marks<F: Fn(&Value) -> bool>(
    from: F,
    entries: Seq<(ValueView, ValueView)>,
    flags: Seq<bool>,
) -> bool {
    flags.len() == entries.len() && forall|i: int|
        0 <= i < entries.len() ==> answers(from, (#[trigger] entries[i]).0, flags[i])
}

/// Moves the weight of every candidate that passes the test `from` to the
/// candidate written as `to`. A plain value that passes becomes `to`. In a
/// distribution the test is put to each candidate once, in order, and the
/// marks that come back decide as `merged` says.
pub fn move_option_weight_matches<F: Fn(&Value) -> bool>(value: &mut Value, from: F, to: &str)
    requires
        forall|v: &Value| call_requires(from, (v,)),
    ensures
        exists|node_marked: bool, flags: Seq<bool>|
            {
                &&& answers(from, old(value)@, node_marked)
                &&& !node_marked ==> (old(value)@ matches ValueView::Mapping(entries) ==> marks(
                    from,
                    entries,
                    flags,
                ))
                &&& final(value)@ == merged(
                    old(value)@,
                    node_marked,
                    flags,
                    parsed_scalar(to@),
                )
            },
{
    let target = Value::parse_scalar(to);
    let node_marked = from(&*value);
    let mut flags: Vec<bool> = Vec::new();
    if !node_marked {
        match &*value {
            Value::Mapping(m) => {
                let pairs = m.entries();
                let mut i: usize = 0;
                while i < pairs.len()
                    invariant
                        i <= pairs.len(),
                        pair_views(pairs@) == m@,
                        flags.len() == i,
                        forall|v: &Value| call_requires(from, (v,)),
                        forall|j: int|
                            0 <= j < i ==> answers(from, (#[trigger] m@[j]).0, flags@[j]),
                    decreases pairs.len() - i,
                {
                    assert(pair_views(pairs@)[i as int] == (
                        pairs@[i as int].0@,
                        pairs@[i as int].1@,
                    ));
                    let key = pairs[i].0;
                    let mark = from(key);
                    assert(answers(from, m@[i as int].0, mark)) by {
                        assert(key@ == m@[i as int].0 && call_ensures(from, (key,), mark));
                    }
                    flags.push(mark);
                    i += 1;
                }
            },
            _ => {},
        }
    }
    let ghost before = value@;
    assert(answers(from, before, node_marked)) by {
        assert(value@ == before && call_ensures(from, (&*value,), node_marked));
    }
    merge_marked(value, node_marked, &flags, &target);
    assert(value@ == merged(before, node_marked, flags@, parsed_scalar(to@)));
}

/// An option after the candidate written as `from_text` became `to`. The
/// candidate is the scalar that the text stands for where the option names
/// that, else the text as a string.
pub open spec fn moved_by_name(node: ValueView, from_text: Seq<char>, to: ValueView) -> ValueView {
    if names_candidate(node, parsed_scalar(from_text)) {
        renamed(node, parsed_scalar(from_text), to)
    } else {
        renamed(node, ValueView::Str(from_text), to)
    }
}

/// Moves the weight of the candidate written as `from_str` to the candidate
/// `to`: see `moved_by_name`.
pub fn move_option_weight_to_yaml(value: &mut Value, from_str: &str, to: Value)
    ensures
        final(value)@ == moved_by_name(old(value)@, from_str@, to@),
{
    let from = Value::parse_scalar(from_str);
    if !rename(value, &from, &to) {
        let from_text = Value::string(from_str);
        rename(value, &from_text, &to);
    }
}

/// Moves the weight of the candidate written as `from_str` to the candidate
/// written as `to_str`.
pub fn move_option_weight(value: &mut Value, from_str: &str, to_str: &str)
    ensures
        final(value)@ == moved_by_name(old(value)@, from_str@, parsed_scalar(to_str@)),
{
    move_option_weight_to_yaml(value, from_str, Value::parse_scalar(to_str));
}

/// Whether `text` is the word `lower` in any mix of small and capital
/// letters, `upper` being the same word in capitals.
pub open spec fn reads_as(text: Seq<char>, lower: Seq<char>, upper: Seq<char>) -> bool {
    text.len() == lower.len() && forall|i: int|
        0 <= i < text.len() ==> (#[trigger] text[i] == lower[i] || text[i] == upper[i])
}

/// Whether `text` reads "true", in any mix of small and capital letters.
pub open spec fn reads_true(text: Seq<char>) -> bool {
    reads_as(text, seq!['t', 'r', 'u', 'e'], seq!['T', 'R', 'U', 'E'])
}

/// Whether `text` reads "false", in any mix of small and capital letters.
pub open spec fn reads_false(text: Seq<char>) -> bool {
    reads_as(text, seq!['f', 'a', 'l', 's', 'e'], seq!['F', 'A', 'L', 'S', 'E'])
}

/// A value as the queries read it: a string that reads "true" or "false" is
/// that truth value, anything else is itself.
pub open spec fn normalized(v: ValueView) -> ValueView {
    match v {
        ValueView::Str(text) => if reads_true(text) {
            ValueView::Bool(true)
        } else if reads_false(text) {
            ValueView::Bool(false)
        } else {
            v
        },
        _ => v,
    }
}

/// Whether an option can come out as `candidate`. `node` is the option as
/// the document holds it, `None` where the document does not set it, in
/// which case `default` decides. An option that is set can be `candidate`
/// where, read as `normalized` says, it is that value, or is a distribution
/// in which a candidate that reads as `candidate` has a weight above zero.
pub open spec fn may_be(node: Option<ValueView>, default: ValueView, candidate: ValueView) -> bool {
    match node {
        None => default == candidate,
        Some(v) => normalized(v) == candidate || (v matches ValueView::Mapping(entries)
            && exists|i: int|
            0 <= i < entries.len() && normalized((#[trigger] entries[i]).0) == candidate
                && is_live(entries[i])),
    }
}

/// Whether an option can come out as anything but `candidate`: an option
/// that is not set where `default` is another value, a plain value that
/// reads as another value, a distribution in which a candidate that reads as
/// another value has a weight above zero.
pub open spec fn may_differ(node: Option<ValueView>, default: ValueView, candidate: ValueView) -> bool {
    match node {
        None => default != candidate,
        Some(v) => match v {
            ValueView::Mapping(entries) => exists|i: int|
                0 <= i < entries.len() && normalized((#[trigger] entries[i]).0) != candidate
                    && is_live(entries[i]),
            _ => normalized(v) != candidate,
        },
    }
}

fn is_true_text(text: &Vec<char>) -> (r: bool)
    ensures
        r == reads_true(text@),
{
    let r = text.len() == 4 && (text[0] == 't' || text[0] == 'T') && (text[1] == 'r' || text[1]
        == 'R') && (text[2] == 'u' || text[2] == 'U') && (text[3] == 'e' || text[3] == 'E');
    proof {
        let lower = seq!['t', 'r', 'u', 'e'];
        let upper = seq!['T', 'R', 'U', 'E'];
        if text.len() == 4 {
            assert(lower[0] == 't' && lower[1] == 'r' && lower[2] == 'u' && lower[3] == 'e');
            assert(upper[0] == 'T' && upper[1] == 'R' && upper[2] == 'U' && upper[3] == 'E');
            if !r {
                assert(!(text@[0] == lower[0] || text@[0] == upper[0]) || !(text@[1] == lower[1]
                    || text@[1] == upper[1]) || !(text@[2] == lower[2] || text@[2] == upper[2])
                    || !(text@[3] == lower[3] || text@[3] == upper[3]));
            }
        }
    }
    r
}

fn is_false_text(text: &Vec<char>) -> (r: bool)
    ensures
        r == reads_false(text@),
{
    let r = text.len() == 5 && (text[0] == 'f' || text[0] == 'F') && (text[1] == 'a' || text[1]
        == 'A') && (text[2] == 'l' || text[2] == 'L') && (text[3] == 's' || text[3] == 'S') && (
    text[4] == 'e' || text[4] == 'E');
    proof {
        let lower = seq!['f', 'a', 'l', 's', 'e'];
        let upper = seq!['F', 'A', 'L', 'S', 'E'];
        if text.len() == 5 {
            assert(lower[0] == 'f' && lower[1] == 'a' && lower[2] == 'l' && lower[3] == 's'
                && lower[4] == 'e');
            assert(upper[0] == 'F' && upper[1] == 'A' && upper[2] == 'L' && upper[3] == 'S'
                && upper[4] == 'E');
            if !r {
                assert(!(text@[0] == lower[0] || text@[0] == upper[0]) || !(text@[1] == lower[1]
                    || text@[1] == upper[1]) || !(text@[2] == lower[2] || text@[2] == upper[2])
                    || !(text@[3] == lower[3] || text@[3] == upper[3]) || !(text@[4] == lower[4]
                    || text@[4] == upper[4]));
            }
        }
    }
    r
}

/// The truth value that a string reads as, if it reads as one.
fn truth_of(v: &Value) -> (r: Option<bool>)
    ensures
        match r {
            Some(b) => normalized(v@) == ValueView::Bool(b) && v@ is Str,
            None => normalized(v@) == v@,
        },
{
    match v {
        Value::Str(s) => {
            let text = chars_of(s.as_str());
            if is_true_text(&text) {
                Some(true)
            } else if is_false_text(&text) {
                Some(false)
            } else {
                None
            }
        },
        _ => None,
    }
}

/// Reads a string that says "true" or "false", in any mix of small and
/// capital letters, as that truth value; any other value stays what it is.
pub fn handle_non_string_strings(v: Value) -> (r: Value)
    ensures
        r@ == normalized(v@),
{
    match truth_of(&v) {
        Some(b) => Value::Bool(b),
        None => v,
    }
}

/// Whether `v`, read as `normalized` says, is `candidate`.
fn reads_same(v: &Value, candidate: &Value) -> (r: bool)
    ensures
        r == (normalized(v@) == candidate@),
{
    match truth_of(v) {
        Some(b) => match candidate {
            Value::Bool(c) => b == *c,
            _ => false,
        },
        None => v.same(candidate),
    }
}

/// Whether the option `node` can come out as `wanted`; `default` stands for an
/// option that is not set.
pub fn query_can_be(node: Option<&Value>, default: &Value, wanted: &Value) -> (r: bool)
    ensures
        r == may_be(opt_ref_view(node), default@, wanted@),
{
    match node {
        None => default.same(wanted),
        Some(v) => {
            if reads_same(v, wanted) {
                return true;
            }
            match v {
                Value::Mapping(m) => {
                    let pairs = m.entries();
                    let mut i: usize = 0;
                    while i < pairs.len()
                        invariant
                            i <= pairs.len(),
                            pair_views(pairs@) == m@,
                            opt_ref_view(node) == Some(ValueView::Mapping(m@)),
                            forall|j: int|
                                0 <= j < i ==> !(normalized((#[trigger] m@[j]).0) == wanted@
                                    && is_live(m@[j])),
                        decreases pairs.len() - i,
                    {
                        assert(pair_views(pairs@)[i as int] == (
                            pairs@[i as int].0@,
                            pairs@[i as int].1@,
                        ));
                        if reads_same(pairs[i].0, wanted) {
                            match as_i64(pairs[i].1) {
                                Some(w) => {
                                    if w > 0 {
                                        assert(normalized(m@[i as int].0) == wanted@ && is_live(
                                            m@[i as int],
                                        ));
                                        return true;
                                    }
                                },
                                None => {},
                            }
                        }
                        i += 1;
                    }
                    false
                },
                _ => false,
            }
        },
    }
}

/// Whether the option `node` can come out as anything but `wanted`; `default`
/// stands for an option that is not set.
pub fn query_can_be_other_than(node: Option<&Value>, default: &Value, wanted: &Value) -> (r: bool)
    ensures
        r == may_differ(opt_ref_view(node), default@, wanted@),
{
    match node {
        None => !default.same(wanted),
        Some(v) => match v {
            Value::Mapping(m) => {
                let pairs = m.entries();
                let mut i: usize = 0;
                while i < pairs.len()
                    invariant
                        i <= pairs.len(),
                        pair_views(pairs@) == m@,
                        opt_ref_view(node) == Some(ValueView::Mapping(m@)),
                        forall|j: int|
                            0 <= j < i ==> !(normalized((#[trigger] m@[j]).0) != wanted@ && is_live(
                                m@[j],
                            )),
                    decreases pairs.len() - i,
                {
                    assert(pair_views(pairs@)[i as int] == (
                        pairs@[i as int].0@,
                        pairs@[i as int].1@,
                    ));
                    if !reads_same(pairs[i].0, wanted) {
                        match as_i64(pairs[i].1) {
                            Some(w) => {
                                if w > 0 {
                                    assert(normalized(m@[i as int].0) != wanted@ && is_live(
                                        m@[i as int],
                                    ));
                                    return true;
                                }
                            },
                            None => {},
                        }
                    }
                    i += 1;
                }
                false
            },
            _ => !reads_same(v, wanted),
        },
    }
}

/// Whether the option under `key` can come out as `wanted`; `default` stands
/// for an option that `hash` does not set.
pub fn option_can_be(hash: &Mapping, key: &str, default: &Value, wanted: &Value) -> (r: bool)
    ensures
        r == may_be(lookup(hash@, parsed_scalar(key@)), default@, wanted@),
{
    let k = Value::parse_scalar(key);
    query_can_be(hash.get(&k), default, wanted)
}

/// Whether the option under `key` can come out as anything but `wanted`;
/// `default` stands for an option that `hash` does not set.
pub fn option_can_be_other_than(hash: &Mapping, key: &str, default: &Value, wanted: &Value) -> (r:
    bool)
    ensures
        r == may_differ(lookup(hash@, parsed_scalar(key@)), default@, wanted@),
{
    let k = Value::parse_scalar(key);
    query_can_be_other_than(hash.get(&k), default, wanted)
}

} // verus!
