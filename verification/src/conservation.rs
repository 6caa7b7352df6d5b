//! What a merge does to the total weight of a distribution.
//!
//! The marked entries leave. What they held above zero goes to the target
//! and stays in the total; what they held at or below zero is dropped with
//! them. The one case in which weight above zero is lost is a target whose
//! own weight is so far below zero that the merged weight is not above zero.

use crate::options::{
    base_weight, entry_weight, flagged, is_live, kept, lemma_total_push, lemma_total_with_entry,
    merged_entries, merged_weight, moved_weight, total_weight,
};
use crate::value::{distinct_keys, has_key, lemma_position, lookup, position, ValueView};
use vstd::prelude::*;

verus! {

/// The weight of the marked entries among the first `n`.
pub open spec fn marked_weight(entries: Seq<(ValueView, ValueView)>, flags: Seq<bool>, n: int) -> int
    decreases n,
{
    if n <= 0 || n > entries.len() {
        0
    } else {
        marked_weight(entries, flags, n - 1) + if flagged(flags, n - 1) {
            entry_weight(entries[n - 1])
        } else {
            0
        }
    }
}

/// The weight that leaves with the marked entries among the first `n` and
/// goes nowhere: that of the entries for a candidate other than `to` whose
/// weight is not above zero.
pub open spec fn idle_weight(
    entries: Seq<(ValueView, ValueView)>,
    flags: Seq<bool>,
    to: ValueView,
    n: int,
) -> int
    decreases n,
{
    if n <= 0 || n > entries.len() {
        0
    } else {
        idle_weight(entries, flags, to, n - 1) + if flagged(flags, n - 1) && entries[n - 1].0 != to
            && !is_live(entries[n - 1]) {
            entry_weight(entries[n - 1])
        } else {
            0
        }
    }
}

/// The weight of the marked entries for `to` itself among the first `n`.
pub open spec fn target_weight(
    entries: Seq<(ValueView, ValueView)>,
    flags: Seq<bool>,
    to: ValueView,
    n: int,
) -> int
    decreases n,
{
    if n <= 0 || n > entries.len() {
        0
    } else {
        target_weight(entries, flags, to, n - 1) + if flagged(flags, n - 1) && entries[n - 1].0
            == to {
            entry_weight(entries[n - 1])
        } else {
            0
        }
    }
}

/// Whether the entry of `to` is itself marked.
pub open spec fn target_marked(
    entries: Seq<(ValueView, ValueView)>,
    flags: Seq<bool>,
    to: ValueView,
) -> bool {
    has_key(entries, to) && flagged(flags, position(entries, to))
}

/// Whether a merge loses weight above zero: the marked entries give some,
/// and the target's own weight is so far below zero that the sum is not
/// above zero, so that the target gets nothing.
pub open spec fn merge_loses_weight(
    entries: Seq<(ValueView, ValueView)>,
    flags: Seq<bool>,
    to: ValueView,
) -> bool {
    moved_weight(entries, flags, to, entries.len() as int) > 0 && merged_weight(entries, flags, to)
        <= 0
}

/// The weight that a merge drops: what the marked entries for other
/// candidates held at or below zero, and what the target held where it was
/// marked and gets no weight. It is never above zero.
pub open spec fn dropped_by_merge(
    entries: Seq<(ValueView, ValueView)>,
    flags: Seq<bool>,
    to: ValueView,
) -> int {
    if merged_weight(entries, flags, to) > i64::MAX {
        0
    } else {
        idle_weight(entries, flags, to, entries.len() as int) + if merged_weight(entries, flags, to)
            <= 0 && target_marked(entries, flags, to) {
            base_weight(entries, to)
        } else {
            0
        }
    }
}

proof fn lemma_marked_parts(
    entries: Seq<(ValueView, ValueView)>,
    flags: Seq<bool>,
    to: ValueView,
    n: int,
)
    requires
        0 <= n <= entries.len(),
    ensures
        marked_weight(entries, flags, n) == moved_weight(entries, flags, to, n) + idle_weight(
            entries,
            flags,
            to,
            n,
        ) + target_weight(entries, flags, to, n),
        moved_weight(entries, flags, to, n) >= 0,
        idle_weight(entries, flags, to, n) <= 0,
    decreases n,
{
    if n > 0 {
        lemma_marked_parts(entries, flags, to, n - 1);
    }
}

proof fn lemma_kept_total(entries: Seq<(ValueView, ValueView)>, flags: Seq<bool>, n: int)
    requires
        0 <= n <= entries.len(),
    ensures
        total_weight(kept(entries, flags, n)) == total_weight(entries.take(n)) - marked_weight(
            entries,
            flags,
            n,
        ),
    decreases n,
{
    if n > 0 {
        lemma_kept_total(entries, flags, n - 1);
        assert(entries.take(n).drop_last() =~= entries.take(n - 1));
        assert(entries.take(n).last() == entries[n - 1]);
        if !flagged(flags, n - 1) {
            lemma_total_push(kept(entries, flags, n - 1), entries[n - 1]);
        }
    } else {
        assert(entries.take(0) =~= Seq::empty());
    }
}

proof fn lemma_target_weight(
    entries: Seq<(ValueView, ValueView)>,
    flags: Seq<bool>,
    to: ValueView,
    n: int,
)
    requires
        distinct_keys(entries),
        0 <= n <= entries.len(),
    ensures
        target_weight(entries, flags, to, n) == if position(entries, to) < n && flagged(
            flags,
            position(entries, to),
        ) {
            entry_weight(entries[position(entries, to)])
        } else {
            0
        },
    decreases n,
{
    lemma_position(entries, to, 0);
    if n > 0 {
        lemma_target_weight(entries, flags, to, n - 1);
        let p = position(entries, to);
        if entries[n - 1].0 == to {
            if p < n - 1 {
                assert(entries[p].0 != entries[n - 1].0);
            }
            assert(p == n - 1);
        } else {
            assert(p != n - 1);
        }
    }
}

proof fn lemma_lookup_push(
    entries: Seq<(ValueView, ValueView)>,
    e: (ValueView, ValueView),
    key: ValueView,
)
    ensures
        lookup(entries.push(e), key) == if has_key(entries, key) {
            lookup(entries, key)
        } else if e.0 == key {
            Some(e.1)
        } else {
            None
        },
{
    let more = entries.push(e);
    lemma_position(entries, key, 0);
    lemma_position(more, key, 0);
    let p = position(entries, key);
    let q = position(more, key);
    if p < entries.len() {
        assert(more[p] == entries[p]);
        if q < p {
            assert(more[q] == entries[q]);
        }
        assert(q == p);
    } else {
        if q < entries.len() {
            assert(more[q] == entries[q]);
        }
        if e.0 == key {
            assert(more[entries.len() as int] == e);
            assert(q == entries.len());
        } else {
            if q < more.len() {
                assert(more[q] == e);
            }
        }
    }
}

proof fn lemma_kept_lookup(
    entries: Seq<(ValueView, ValueView)>,
    flags: Seq<bool>,
    key: ValueView,
    n: int,
)
    requires
        distinct_keys(entries),
        0 <= n <= entries.len(),
    ensures
        lookup(kept(entries, flags, n), key) == if position(entries, key) < n && !flagged(
            flags,
            position(entries, key),
        ) {
            Some(entries[position(entries, key)].1)
        } else {
            None
        },
    decreases n,
{
    lemma_position(entries, key, 0);
    let p = position(entries, key);
    if n > 0 {
        lemma_kept_lookup(entries, flags, key, n - 1);
        if entries[n - 1].0 == key {
            if p < n - 1 {
                assert(entries[p].0 != entries[n - 1].0);
            }
            assert(p == n - 1);
        } else {
            assert(p != n - 1);
        }
        if !flagged(flags, n - 1) {
            lemma_lookup_push(kept(entries, flags, n - 1), entries[n - 1], key);
        }
    } else {
        lemma_position(kept(entries, flags, 0), key, 0);
    }
}

/// A merge keeps the total weight but for what it drops, and what it drops
/// is never above zero. This holds of every merge that does not lose weight
/// in the one way that `merge_loses_weight` describes.
pub proof fn lemma_merge_conserves_weight(
    entries: Seq<(ValueView, ValueView)>,
    flags: Seq<bool>,
    to: ValueView,
)
    requires
        distinct_keys(entries),
        !merge_loses_weight(entries, flags, to),
    ensures
        total_weight(merged_entries(entries, flags, to)) == total_weight(entries)
            - dropped_by_merge(entries, flags, to),
        dropped_by_merge(entries, flags, to) <= 0,
{
    let n = entries.len() as int;
    let rest = kept(entries, flags, n);
    let total = merged_weight(entries, flags, to);
    lemma_marked_parts(entries, flags, to, n);
    lemma_kept_total(entries, flags, n);
    lemma_target_weight(entries, flags, to, n);
    lemma_kept_lookup(entries, flags, to, n);
    lemma_position(entries, to, 0);
    assert(entries.take(n) =~= entries);
    if total <= i64::MAX && total > 0 {
        lemma_total_with_entry(rest, to, ValueView::Int(total as i64));
    }
}

/// A merge puts no entry into a distribution whose weight is not above
/// zero: what stands in the result stood in the distribution before, or can
/// be drawn.
pub proof fn lemma_merge_adds_no_idle_entry(
    entries: Seq<(ValueView, ValueView)>,
    flags: Seq<bool>,
    to: ValueView,
)
    ensures
        forall|i: int|
            0 <= i < merged_entries(entries, flags, to).len() ==> is_live(
                #[trigger] merged_entries(entries, flags, to)[i],
            ) || entries.contains(merged_entries(entries, flags, to)[i]),
{
    let n = entries.len() as int;
    let rest = kept(entries, flags, n);
    let total = merged_weight(entries, flags, to);
    let out = merged_entries(entries, flags, to);
    lemma_kept_from(entries, flags, n);
    lemma_position(rest, to, 0);
    assert forall|i: int| 0 <= i < out.len() implies is_live(#[trigger] out[i]) || entries.contains(
        out[i],
    ) by {
        if total > i64::MAX {
        } else if total > 0 {
            let cut = crate::value::without_key(rest, to);
            if i < cut.len() {
                if has_key(rest, to) {
                    let p = position(rest, to);
                    if i < p {
                        assert(cut[i] == rest[i]);
                    } else {
                        assert(cut[i] == rest[i + 1]);
                    }
                }
                assert(rest.contains(cut[i]));
            }
        } else {
            assert(rest.contains(out[i]));
        }
    }
}

proof fn lemma_kept_from(entries: Seq<(ValueView, ValueView)>, flags: Seq<bool>, n: int)
    requires
        0 <= n <= entries.len(),
    ensures
        forall|e: (ValueView, ValueView)| #[trigger]
            kept(entries, flags, n).contains(e) ==> entries.contains(e),
    decreases n,
{
    if n > 0 {
        lemma_kept_from(entries, flags, n - 1);
        let before = kept(entries, flags, n - 1);
        assert forall|e: (ValueView, ValueView)| #[trigger]
            kept(entries, flags, n).contains(e) implies entries.contains(e) by {
            let k = choose|k: int|
                0 <= k < kept(entries, flags, n).len() && kept(entries, flags, n)[k] == e;
            if k < before.len() {
                assert(before[k] == e);
                assert(before.contains(e));
            } else {
                assert(entries[n - 1] == e);
            }
        }
    }
}

} // verus!
