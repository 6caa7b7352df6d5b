//! Drawing one candidate from a weighted option.
//!
//! Which candidate comes out is chance, and chance comes from `rand`. What
//! is proved here holds of every outcome: only a candidate whose weight is
//! above zero is ever drawn, and a distribution without weight to draw from
//! is reported, never papered over.

use crate::options::{is_live, total_weight};
use crate::scalar::{as_i64, parsed_scalar};
use crate::value::{lookup, pair_views, with_value, Mapping, Value, ValueView};
use rand::thread_rng;
use rand_distr::{Distribution, WeightedIndex};
use vstd::prelude::*;

verus! {

/// Why nothing could be drawn.
#[derive(Debug, Clone, Copy, PartialEq, Eq, Structural)]
pub enum DrawError {
    /// No candidate has a number for its weight, or the weights sum up to
    /// nothing above zero.
    EmptyDistribution,
}

/// Whether a distribution can be drawn from: the weights that are numbers
/// sum up to more than zero.
pub open spec fn can_draw(entries: Seq<(ValueView, ValueView)>) -> bool {
    total_weight(entries) > 0
}

/// The entries that can be drawn, in their order: those whose weight is
/// above zero.
pub open spec fn live_of(entries: Seq<(ValueView, ValueView)>) -> Seq<(ValueView, ValueView)>
    decreases entries.len(),
{
    if entries.len() == 0 {
        Seq::empty()
    } else if is_live(entries.last()) {
        live_of(entries.drop_last()).push(entries.last())
    } else {
        live_of(entries.drop_last())
    }
}

/// What a draw gives where chance picks the drawable candidate number `n`:
/// a plain value is drawn as itself; a distribution gives that candidate, and
/// fails where it cannot be drawn from or has no such candidate.
pub open spec fn drawn(node: ValueView, n: int) -> Result<ValueView, DrawError> {
    match node {
        ValueView::Mapping(entries) => if can_draw(entries) && 0 <= n < live_of(entries).len() {
            Ok(live_of(entries)[n].0)
        } else {
            Err(DrawError::EmptyDistribution)
        },
        _ => Ok(node),
    }
}

/// What the result of a draw holds.
pub open spec fn draw_view(r: Result<Value, DrawError>) -> Result<ValueView, DrawError> {
    match r {
        Ok(v) => Ok(v@),
        Err(e) => Err(e),
    }
}

/// Every drawable entry is an entry with a weight above zero.
pub proof fn lemma_live_of(entries: Seq<(ValueView, ValueView)>)
    ensures
        live_of(entries).len() <= entries.len(),
        forall|k: int|
            0 <= k < live_of(entries).len() ==> is_live(#[trigger] live_of(entries)[k])
                && entries.contains(live_of(entries)[k]),
        total_weight(entries) > 0 ==> live_of(entries).len() > 0,
    decreases entries.len(),
{
    if entries.len() > 0 {
        let before = entries.drop_last();
        lemma_live_of(before);
        assert forall|k: int| 0 <= k < live_of(entries).len() implies is_live(
            #[trigger] live_of(entries)[k],
        ) && entries.contains(live_of(entries)[k]) by {
            if k < live_of(before).len() {
                let e = live_of(before)[k];
                assert(before.contains(e));
                let j = choose|j: int| 0 <= j < before.len() && before[j] == e;
                assert(entries[j] == e);
            } else {
                assert(entries[entries.len() - 1] == live_of(entries)[k]);
            }
        }
    }
}

/// `WeightedIndex::new` over `weights`, then one `sample` of it with
/// `thread_rng()`: an index into `weights`, picked by chance.
#[verifier::external_body]
fn raw_pick(weights: &Vec<u64>) -> (n: usize)
    requires
        weights.len() > 0,
        forall|i: int| 0 <= i < weights.len() ==> weights[i] > 0,
    ensures
        n < weights.len(),
{
    WeightedIndex::new(weights.iter().map(|w| u128::from(*w))).unwrap().sample(&mut thread_rng())
}

/// The sum of `weights`.
pub open spec fn sum_weights(weights: Seq<i64>) -> int
    decreases weights.len(),
{
    if weights.len() == 0 {
        0
    } else {
        sum_weights(weights.drop_last()) + weights.last()
    }
}

/// Picks one of `weights` by chance, each with a chance in proportion to
/// it: the index of a weight above zero. Fails where the weights do not sum
/// up to more than zero.
pub fn pick_index(weights: &Vec<i64>) -> (r: Result<usize, DrawError>)
    ensures
        match r {
            Ok(i) => sum_weights(weights@) > 0 && i < weights.len() && weights[i as int] > 0,
            Err(e) => sum_weights(weights@) <= 0,
        },
{
    let mut places: Vec<usize> = Vec::new();
    let mut live: Vec<u64> = Vec::new();
    let mut total: i128 = 0;
    let mut i: usize = 0;
    assert(weights@.take(0) =~= Seq::empty());
    while i < weights.len()
        invariant
            i <= weights.len(),
            total == sum_weights(weights@.take(i as int)),
            -i * 0x8000_0000_0000_0000 <= total <= i * 0x7fff_ffff_ffff_ffff,
            places.len() == live.len(),
            forall|k: int|
                0 <= k < places.len() ==> (#[trigger] places[k]) < i && weights[places[k] as int]
                    > 0,
            forall|k: int| 0 <= k < live.len() ==> #[trigger] live[k] > 0,
            total > 0 ==> places.len() > 0,
        decreases weights.len() - i,
    {
        proof {
            let upto = weights@.take(i as int + 1);
            assert(upto.drop_last() =~= weights@.take(i as int));
            assert(upto.last() == weights@[i as int]);
        }
        let w = weights[i];
        total = total + w as i128;
        if w > 0 {
            places.push(i);
            live.push(w as u64);
        }
        i += 1;
    }
    assert(weights@.take(weights.len() as int) =~= weights@);
    if total <= 0 {
        return Err(DrawError::EmptyDistribution);
    }
    let n = raw_pick(&live);
    Ok(places[n])
}

/// What a draw needs to know of a distribution.
struct Survey<'a> {
    /// The candidates that can be drawn.
    candidates: Vec<&'a Value>,
    /// Their weights.
    weights: Vec<u64>,
    /// Whether the weights of all entries sum up to more than zero.
    positive: bool,
}

fn survey(m: &Mapping) -> (s: Survey<'_>)
    ensures
        s.positive == can_draw(m@),
        s.candidates.len() == live_of(m@).len(),
        s.weights.len() == live_of(m@).len(),
        forall|k: int| 0 <= k < s.candidates.len() ==> (#[trigger] s.candidates[k])@ == live_of(m@)[k].0,
        forall|k: int| 0 <= k < s.weights.len() ==> #[trigger] s.weights[k] > 0,
{
    let pairs = m.entries();
    let mut candidates: Vec<&Value> = Vec::new();
    let mut weights: Vec<u64> = Vec::new();
    let mut total: i128 = 0;
    let mut i: usize = 0;
    assert(m@.take(0) =~= Seq::empty());
    while i < pairs.len()
        invariant
            i <= pairs.len(),
            pair_views(pairs@) == m@,
            total == total_weight(m@.take(i as int)),
            -i * 0x8000_0000_0000_0000 <= total <= i * 0x7fff_ffff_ffff_ffff,
            candidates.len() == live_of(m@.take(i as int)).len(),
            weights.len() == candidates.len(),
            forall|k: int|
                0 <= k < candidates.len() ==> (#[trigger] candidates[k])@ == live_of(
                    m@.take(i as int),
                )[k].0,
            forall|k: int| 0 <= k < weights.len() ==> #[trigger] weights[k] > 0,
        decreases pairs.len() - i,
    {
        assert(pair_views(pairs@)[i as int] == (pairs@[i as int].0@, pairs@[i as int].1@));
        proof {
            let upto = m@.take(i as int + 1);
            assert(upto.drop_last() =~= m@.take(i as int));
            assert(upto.last() == m@[i as int]);
        }
        match as_i64(pairs[i].1) {
            Some(w) => {
                total = total + w as i128;
                if w > 0 {
                    candidates.push(pairs[i].0);
                    weights.push(w as u64);
                }
            },
            None => {},
        }
        i += 1;
    }
    assert(m@.take(pairs.len() as int) =~= m@);
    Survey { candidates, weights, positive: total > 0 }
}

/// The candidate that a draw gives where chance picks the drawable candidate
/// number `n`: see `drawn`.
pub fn draw_at(distribution: &Value, n: usize) -> (r: Result<Value, DrawError>)
    ensures
        draw_view(r) == drawn(distribution@, n as int),
{
    match distribution {
        Value::Mapping(m) => {
            let s = survey(m);
            if s.positive && n < s.candidates.len() {
                Ok(s.candidates[n].duplicate())
            } else {
                Err(DrawError::EmptyDistribution)
            }
        },
        _ => Ok(distribution.duplicate()),
    }
}

/// Draws from the entries of a distribution.
fn draw_in(m: &Mapping) -> (r: Result<Value, DrawError>)
    ensures
        match r {
            Ok(v) => can_draw(m@) && exists|i: int|
                0 <= i < m@.len() && is_live(#[trigger] m@[i]) && m@[i].0 == v@,
            Err(e) => !can_draw(m@),
        },
{
    let s = survey(m);
    proof {
        lemma_live_of(m@);
    }
    if !s.positive {
        return Err(DrawError::EmptyDistribution);
    }
    let n = raw_pick(&s.weights);
    let v = s.candidates[n].duplicate();
    proof {
        let e = live_of(m@)[n as int];
        assert(m@.contains(e));
        let i = choose|i: int| 0 <= i < m@.len() && m@[i] == e;
        assert(is_live(m@[i]) && m@[i].0 == v@);
    }
    Ok(v)
}

/// Draws one value from an option. A plain value is drawn as itself. From a
/// distribution comes one of the candidates whose weight is above zero, each
/// with a chance in proportion to its weight. The draw fails where the
/// weights of the distribution do not sum up to more than zero.
pub fn draw(distribution: &Value) -> (r: Result<Value, DrawError>)
    ensures
        match distribution@ {
            ValueView::Mapping(entries) => match r {
                Ok(v) => can_draw(entries) && exists|i: int|
                    0 <= i < entries.len() && is_live(#[trigger] entries[i]) && entries[i].0
                        == v@,
                Err(e) => !can_draw(entries),
            },
            other => r matches Ok(v) && v@ == other,
        },
{
    match distribution {
        Value::Mapping(m) => draw_in(m),
        _ => Ok(distribution.duplicate()),
    }
}

/// Draws the option under `key` now, and puts what was drawn in its place.
/// An option that is a plain value, or is not set, stays as it is. Where the
/// draw fails, nothing changes.
pub fn resolve_weighted_option(hash: &mut Mapping, key: &str) -> (r: Result<(), DrawError>)
    ensures
        match lookup(old(hash)@, parsed_scalar(key@)) {
            Some(ValueView::Mapping(entries)) => match r {
                Ok(u) => can_draw(entries) && exists|i: int|
                    0 <= i < entries.len() && is_live(#[trigger] entries[i]) && final(hash)@
                        == with_value(old(hash)@, parsed_scalar(key@), entries[i].0),
                Err(e) => !can_draw(entries) && final(hash)@ == old(hash)@,
            },
            _ => r is Ok && final(hash)@ == old(hash)@,
        },
{
    let k = Value::parse_scalar(key);
    let chosen = match hash.get(&k) {
        Some(Value::Mapping(m)) => match draw_in(m) {
            Ok(v) => v,
            Err(e) => {
                return Err(e);
            },
        },
        _ => {
            return Ok(());
        },
    };
    match hash.get_mut(&k) {
        Some(slot) => {
            *slot = chosen;
        },
        None => {},
    }
    Ok(())
}

} // verus!
