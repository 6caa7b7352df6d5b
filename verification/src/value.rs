//! The document tree: a value is a scalar, a sequence of values, or a mapping
//! from values to values that keeps the order in which its entries came.
//!
//! A mapping is a `hashlink::LinkedHashMap`. Verus cannot look into one, so
//! the mapping is stated by the sequence of entries that it holds, and the
//! few functions at the end of this file that reach into it are believed,
//! not proved.

use hashlink::LinkedHashMap;
use vstd::prelude::*;

verus! {

/// A mapping from values to values, in the order of insertion. No two
/// entries have the same key.
#[verifier::external_body]
#[derive(Debug, PartialEq, Eq, Hash)]
pub struct Mapping {
    inner: LinkedHashMap<Value, Value>,
}

/// A node of a document.
#[derive(Debug, PartialEq, Eq, Hash)]
pub enum Value {
    /// No value.
    Null,
    /// A truth value.
    Bool(bool),
    /// A whole number.
    Int(i64),
    /// A number with a fraction, kept as it was written.
    Float(String),
    /// A string.
    Str(String),
    /// A sequence of values.
    Sequence(Vec<Value>),
    /// A mapping from values to values.
    Mapping(Mapping),
    /// A reference that was not resolved.
    Alias(usize),
    /// What stands where the source could not be read.
    Invalid,
}

/// What a `Value` holds.
pub enum ValueView {
    Null,
    Bool(bool),
    Int(i64),
    Float(Seq<char>),
    Str(Seq<char>),
    Sequence(Seq<ValueView>),
    Mapping(Seq<(ValueView, ValueView)>),
    Alias(usize),
    Invalid,
}

/// The entries of a mapping, in its order: for each the key and the value.
pub uninterp spec fn mapping_entries(m: Mapping) -> Seq<(ValueView, ValueView)>;

impl View for Mapping {
    type V = Seq<(ValueView, ValueView)>;

    open spec fn view(&self) -> Seq<(ValueView, ValueView)> {
        mapping_entries(*self)
    }
}

/// What `v` holds: a sequence holds what its items hold, a mapping its
/// entries.
pub open spec fn value_view(v: Value) -> ValueView
    decreases v,
{
    match v {
        Value::Null => ValueView::Null,
        Value::Bool(b) => ValueView::Bool(b),
        Value::Int(n) => ValueView::Int(n),
        Value::Float(text) => ValueView::Float(text@),
        Value::Str(text) => ValueView::Str(text@),
        Value::Sequence(items) => ValueView::Sequence(
            Seq::new(
                items@.len(),
                |i: int|
                    if 0 <= i < items@.len() {
                        value_view(items@[i])
                    } else {
                        ValueView::Null
                    },
            ),
        ),
        Value::Mapping(m) => ValueView::Mapping(mapping_entries(m)),
        Value::Alias(n) => ValueView::Alias(n),
        Value::Invalid => ValueView::Invalid,
    }
}

impl View for Value {
    type V = ValueView;

    open spec fn view(&self) -> ValueView {
        value_view(*self)
    }
}

/// What a vector of values holds.
pub open spec fn value_views(items: Seq<Value>) -> Seq<ValueView> {
    Seq::new(items.len(), |i: int| items[i]@)
}

/// What an optional value holds.
pub open spec fn opt_value_view(v: Option<Value>) -> Option<ValueView> {
    match v {
        Some(v) => Some(v@),
        None => None,
    }
}

/// What an optional reference to a value holds.
pub open spec fn opt_ref_view(v: Option<&Value>) -> Option<ValueView> {
    match v {
        Some(v) => Some(v@),
        None => None,
    }
}

/// What a vector of entries holds.
pub open spec fn pair_views(pairs: Seq<(&Value, &Value)>) -> Seq<(ValueView, ValueView)> {
    Seq::new(pairs.len(), |i: int| (pairs[i].0@, pairs[i].1@))
}

/// No two entries have the same key.
pub open spec fn distinct_keys(entries: Seq<(ValueView, ValueView)>) -> bool {
    forall|i: int, j: int|
        0 <= i < j < entries.len() ==> (#[trigger] entries[i]).0 != (#[trigger] entries[j]).0
}

/// The index of the first entry at or after `from` with the key `key`, or
/// the number of entries where there is none.
pub open spec fn position_from(entries: Seq<(ValueView, ValueView)>, key: ValueView, from: int) -> int
    decreases entries.len() - from,
{
    if 0 <= from < entries.len() {
        if entries[from].0 == key {
            from
        } else {
            position_from(entries, key, from + 1)
        }
    } else {
        entries.len() as int
    }
}

/// The index of the entry with the key `key`, or the number of entries.
pub open spec fn position(entries: Seq<(ValueView, ValueView)>, key: ValueView) -> int {
    position_from(entries, key, 0)
}

/// Whether an entry has the key `key`.
pub open spec fn has_key(entries: Seq<(ValueView, ValueView)>, key: ValueView) -> bool {
    0 <= position(entries, key) < entries.len()
}

/// The value under `key`.
pub open spec fn lookup(entries: Seq<(ValueView, ValueView)>, key: ValueView) -> Option<ValueView> {
    if has_key(entries, key) {
        Some(entries[position(entries, key)].1)
    } else {
        None
    }
}

/// The entries without the one under `key`; the others keep their order.
pub open spec fn without_key(entries: Seq<(ValueView, ValueView)>, key: ValueView) -> Seq<
    (ValueView, ValueView),
> {
    if has_key(entries, key) {
        entries.remove(position(entries, key))
    } else {
        entries
    }
}

/// The entries after `key` was set to `value` at the end: an entry that had
/// the key leaves its place.
pub open spec fn with_entry(
    entries: Seq<(ValueView, ValueView)>,
    key: ValueView,
    value: ValueView,
) -> Seq<(ValueView, ValueView)> {
    without_key(entries, key).push((key, value))
}

/// The entries after the value under `key` became `value`, in place.
pub open spec fn with_value(
    entries: Seq<(ValueView, ValueView)>,
    key: ValueView,
    value: ValueView,
) -> Seq<(ValueView, ValueView)> {
    if has_key(entries, key) {
        entries.update(position(entries, key), (key, value))
    } else {
        entries
    }
}

pub proof fn lemma_position(entries: Seq<(ValueView, ValueView)>, key: ValueView, from: int)
    requires
        0 <= from <= entries.len(),
    ensures
        from <= position_from(entries, key, from) <= entries.len(),
        position_from(entries, key, from) < entries.len() ==> entries[position_from(
            entries,
            key,
            from,
        )].0 == key,
        forall|i: int|
            from <= i < position_from(entries, key, from) ==> (#[trigger] entries[i]).0 != key,
    decreases entries.len() - from,
{
    if from < entries.len() && entries[from].0 != key {
        lemma_position(entries, key, from + 1);
    }
}

impl Mapping {
    /// `LinkedHashMap::new`: a mapping without entries.
    #[verifier::external_body]
    fn raw_new() -> (m: Mapping)
        ensures
            mapping_entries(m) == Seq::<(ValueView, ValueView)>::empty(),
    {
        Mapping { inner: LinkedHashMap::new() }
    }

    /// `LinkedHashMap::iter`: the entries from the first to the last. Its
    /// keys are distinct.
    #[verifier::external_body]
    fn raw_pairs(&self) -> (r: Vec<(&Value, &Value)>)
        ensures
            pair_views(r@) == mapping_entries(*self),
            distinct_keys(pair_views(r@)),
    {
        self.inner.iter().collect()
    }

    /// `LinkedHashMap::get`: the value of the entry whose key equals `key`.
    #[verifier::external_body]
    fn raw_get(&self, key: &Value) -> (r: Option<&Value>)
        ensures
            opt_ref_view(r) == lookup(mapping_entries(*self), key@),
    {
        self.inner.get(key)
    }

    /// `LinkedHashMap::get_mut`: the value of the entry whose key equals
    /// `key`, to be changed in place. No entry moves.
    #[verifier::external_body]
    fn raw_get_mut(&mut self, key: &Value) -> (r: Option<&mut Value>)
        ensures
            match r {
                Some(v) => lookup(mapping_entries(*old(self)), key@) == Some(v@)
                    && mapping_entries(*final(self)) == with_value(
                    mapping_entries(*old(self)),
                    key@,
                    final(v)@,
                ),
                None => !has_key(mapping_entries(*old(self)), key@) && mapping_entries(
                    *final(self),
                ) == mapping_entries(*old(self)),
            },
    {
        self.inner.get_mut(key)
    }

    /// `LinkedHashMap::insert`: the entry goes to the end, also where the key
    /// was there before; the value that the key had comes back.
    #[verifier::external_body]
    fn raw_insert(&mut self, key: Value, value: Value) -> (r: Option<Value>)
        ensures
            opt_value_view(r) == lookup(mapping_entries(*old(self)), key@),
            mapping_entries(*final(self)) == with_entry(mapping_entries(*old(self)), key@, value@),
    {
        self.inner.insert(key, value)
    }

    /// `LinkedHashMap::remove`: the entry whose key equals `key` leaves, and
    /// its value comes back; the other entries keep their order.
    #[verifier::external_body]
    fn raw_remove(&mut self, key: &Value) -> (r: Option<Value>)
        ensures
            opt_value_view(r) == lookup(mapping_entries(*old(self)), key@),
            mapping_entries(*final(self)) == without_key(mapping_entries(*old(self)), key@),
    {
        self.inner.remove(key)
    }

    /// A mapping without entries.
    pub fn new() -> (m: Mapping)
        ensures
            m@ == Seq::<(ValueView, ValueView)>::empty(),
    {
        Mapping::raw_new()
    }

    /// The entries, in order.
    pub fn entries(&self) -> (r: Vec<(&Value, &Value)>)
        ensures
            pair_views(r@) == self@,
            distinct_keys(self@),
    {
        self.raw_pairs()
    }

    /// The number of entries.
    pub fn len(&self) -> (n: usize)
        ensures
            n == self@.len(),
    {
        self.raw_pairs().len()
    }

    /// Whether the mapping has no entry.
    pub fn is_empty(&self) -> (r: bool)
        ensures
            r == (self@.len() == 0),
    {
        self.raw_pairs().len() == 0
    }

    /// The value under `key`.
    pub fn get(&self, key: &Value) -> (r: Option<&Value>)
        ensures
            opt_ref_view(r) == lookup(self@, key@),
    {
        self.raw_get(key)
    }

    /// Whether an entry has the key `key`.
    pub fn contains_key(&self, key: &Value) -> (r: bool)
        ensures
            r == has_key(self@, key@),
    {
        self.raw_get(key).is_some()
    }

    /// The value under `key`, to be changed in place.
    pub fn get_mut(&mut self, key: &Value) -> (r: Option<&mut Value>)
        ensures
            match r {
                Some(v) => lookup(old(self)@, key@) == Some(v@) && final(self)@ == with_value(
                    old(self)@,
                    key@,
                    final(v)@,
                ),
                None => !has_key(old(self)@, key@) && final(self)@ == old(self)@,
            },
    {
        self.raw_get_mut(key)
    }

    /// Sets `key` to `value`. The entry stands at the end afterwards, also
    /// where the key was there before. Returns the value that the key had.
    pub fn insert(&mut self, key: Value, value: Value) -> (r: Option<Value>)
        ensures
            opt_value_view(r) == lookup(old(self)@, key@),
            final(self)@ == with_entry(old(self)@, key@, value@),
    {
        self.raw_insert(key, value)
    }

    /// Takes the entry under `key` out and returns its value.
    pub fn remove(&mut self, key: &Value) -> (r: Option<Value>)
        ensures
            opt_value_view(r) == lookup(old(self)@, key@),
            final(self)@ == without_key(old(self)@, key@),
    {
        self.raw_remove(key)
    }
}

/// Taking one key out leaves the others where a search finds them.
pub proof fn lemma_lookup_without_other(
    entries: Seq<(ValueView, ValueView)>,
    key: ValueView,
    other: ValueView,
)
    requires
        key != other,
    ensures
        lookup(without_key(entries, key), other) == lookup(entries, other),
        has_key(without_key(entries, key), other) == has_key(entries, other),
{
    lemma_position(entries, key, 0);
    lemma_position(entries, other, 0);
    let rest = without_key(entries, key);
    lemma_position(rest, other, 0);
    if has_key(entries, key) {
        let p = position(entries, key);
        let q = position(entries, other);
        let r = position(rest, other);
        assert(forall|i: int| 0 <= i < p ==> rest[i] == entries[i]);
        assert(forall|i: int| p <= i < rest.len() ==> rest[i] == entries[i + 1]);
        if q < entries.len() {
            if q < p {
                assert(rest[q] == entries[q]);
                if r < q {
                    assert(rest[r] == entries[r]);
                }
            } else {
                assert(rest[q - 1] == entries[q]);
                if r < q - 1 {
                    if r < p {
                        assert(rest[r] == entries[r]);
                    } else {
                        assert(rest[r] == entries[r + 1]);
                    }
                }
            }
        } else {
            if r < rest.len() {
                if r < p {
                    assert(rest[r] == entries[r]);
                } else {
                    assert(rest[r] == entries[r + 1]);
                }
            }
        }
    }
}

/// Among distinct keys, a key that was taken out is gone.
pub proof fn lemma_without_key_gone(entries: Seq<(ValueView, ValueView)>, key: ValueView)
    requires
        distinct_keys(entries),
    ensures
        !has_key(without_key(entries, key), key),
        lookup(without_key(entries, key), key) is None,
        distinct_keys(without_key(entries, key)),
{
    lemma_position(entries, key, 0);
    let rest = without_key(entries, key);
    lemma_position(rest, key, 0);
    if has_key(entries, key) {
        let p = position(entries, key);
        assert(forall|i: int| 0 <= i < p ==> rest[i] == entries[i]);
        assert(forall|i: int| p <= i < rest.len() ==> rest[i] == entries[i + 1]);
        let r = position(rest, key);
        if r < rest.len() {
            if r < p {
                assert(rest[r] == entries[r]);
            } else {
                assert(rest[r] == entries[r + 1]);
                assert(entries[p].0 != entries[r + 1].0);
            }
        }
        assert forall|i: int, j: int| 0 <= i < j < rest.len() implies (#[trigger] rest[i]).0 != (
        #[trigger] rest[j]).0 by {
            let a = if i < p { i } else { i + 1 };
            let b = if j < p { j } else { j + 1 };
            assert(rest[i] == entries[a]);
            assert(rest[j] == entries[b]);
            assert(entries[a].0 != entries[b].0);
        }
    }
}

/// A value that is set in place is found under its key, at the place where
/// the key was, and without the key the entries are what they were without
/// it before.
pub proof fn lemma_with_value(
    entries: Seq<(ValueView, ValueView)>,
    key: ValueView,
    value: ValueView,
)
    requires
        has_key(entries, key),
    ensures
        with_value(entries, key, value).len() == entries.len(),
        position(with_value(entries, key, value), key) == position(entries, key),
        lookup(with_value(entries, key, value), key) == Some(value),
        without_key(with_value(entries, key, value), key) == without_key(entries, key),
        lookup(entries, key) == Some(value) ==> with_value(entries, key, value) == entries,
{
    let after = with_value(entries, key, value);
    lemma_position(entries, key, 0);
    lemma_position(after, key, 0);
    let p = position(entries, key);
    let q = position(after, key);
    assert(after[p].0 == key);
    if q < p {
        assert(after[q] == entries[q]);
    }
    assert(q == p);
    assert(after.remove(p) =~= entries.remove(p));
    if lookup(entries, key) == Some(value) {
        assert(after =~= entries);
    }
}

/// A mapping is larger than the keys and values of its entries.
pub proof fn lemma_entry_smaller(entries: Seq<(ValueView, ValueView)>, i: int)
    requires
        0 <= i < entries.len(),
    ensures
        decreases_to!(ValueView::Mapping(entries) => entries[i].0),
        decreases_to!(ValueView::Mapping(entries) => entries[i].1),
{
    let m = ValueView::Mapping(entries);
    assert(decreases_to!(m => m->Mapping_0[i].0));
    assert(decreases_to!(m => m->Mapping_0[i].1));
}

/// A sequence is larger than its items.
pub proof fn lemma_item_smaller(items: Seq<ValueView>, i: int)
    requires
        0 <= i < items.len(),
    ensures
        decreases_to!(ValueView::Sequence(items) => items[i]),
{
    let q = ValueView::Sequence(items);
    assert(decreases_to!(q => q->Sequence_0[i]));
}

impl Mapping {
    /// Whether both mappings hold the same entries in the same order.
    pub fn same(&self, other: &Mapping) -> (r: bool)
        ensures
            r == (self@ == other@),
        decreases ValueView::Mapping(self@), 0int,
    {
        let a = self.entries();
        let b = other.entries();
        if a.len() != b.len() {
            return false;
        }
        let mut i: usize = 0;
        while i < a.len()
            invariant
                i <= a.len(),
                a.len() == b.len(),
                pair_views(a@) == self@,
                pair_views(b@) == other@,
                forall|j: int| 0 <= j < i ==> self@[j] == other@[j],
            decreases a.len() - i,
        {
            assert(pair_views(a@)[i as int] == (a@[i as int].0@, a@[i as int].1@));
            assert(pair_views(b@)[i as int] == (b@[i as int].0@, b@[i as int].1@));
            proof {
                lemma_entry_smaller(self@, i as int);
            }
            if !a[i].0.same(b[i].0) || !a[i].1.same(b[i].1) {
                return false;
            }
            i += 1;
        }
        assert(self@ =~= other@);
        true
    }

    /// A mapping with the same entries in the same order.
    pub fn duplicate(&self) -> (r: Mapping)
        ensures
            r@ == self@,
        decreases ValueView::Mapping(self@), 0int,
    {
        let pairs = self.entries();
        let mut r = Mapping::new();
        let mut i: usize = 0;
        while i < pairs.len()
            invariant
                i <= pairs.len(),
                pair_views(pairs@) == self@,
                distinct_keys(self@),
                r@ == self@.take(i as int),
            decreases pairs.len() - i,
        {
            assert(pair_views(pairs@)[i as int] == (pairs@[i as int].0@, pairs@[i as int].1@));
            proof {
                lemma_entry_smaller(self@, i as int);
            }
            let k = pairs[i].0.duplicate();
            let v = pairs[i].1.duplicate();
            proof {
                let prefix = self@.take(i as int);
                lemma_position(prefix, k@, 0);
                assert(!has_key(prefix, k@)) by {
                    if has_key(prefix, k@) {
                        let p = position(prefix, k@);
                        assert(prefix[p].0 == self@[p].0);
                        assert(self@[p].0 == self@[i as int].0);
                    }
                }
                assert(self@.take(i as int + 1) =~= prefix.push((k@, v@)));
            }
            r.insert(k, v);
            i += 1;
        }
        assert(self@.take(pairs.len() as int) =~= self@);
        r
    }
}

impl Value {
    /// Whether both values hold the same: structural equality.
    pub fn same(&self, other: &Value) -> (r: bool)
        ensures
            r == (self@ == other@),
        decreases self@, 1int,
    {
        match (self, other) {
            (Value::Null, Value::Null) => true,
            (Value::Bool(a), Value::Bool(b)) => *a == *b,
            (Value::Int(a), Value::Int(b)) => *a == *b,
            (Value::Float(a), Value::Float(b)) => *a == *b,
            (Value::Str(a), Value::Str(b)) => *a == *b,
            (Value::Sequence(a), Value::Sequence(b)) => {
                proof {
                    lemma_sequence_view(*a);
                    lemma_sequence_view(*b);
                }
                if a.len() != b.len() {
                    assert(value_views(a@).len() != value_views(b@).len());
                    return false;
                }
                let mut i: usize = 0;
                while i < a.len()
                    invariant
                        i <= a.len(),
                        a.len() == b.len(),
                        self@ == ValueView::Sequence(value_views(a@)),
                        other@ == ValueView::Sequence(value_views(b@)),
                        forall|j: int| 0 <= j < i ==> a@[j]@ == b@[j]@,
                    decreases a.len() - i,
                {
                    assert(value_views(a@)[i as int] == a@[i as int]@);
                    proof {
                        lemma_item_smaller(value_views(a@), i as int);
                    }
                    if !a[i].same(&b[i]) {
                        assert(value_views(b@)[i as int] == b@[i as int]@);
                        return false;
                    }
                    i += 1;
                }
                assert(value_views(a@) =~= value_views(b@));
                true
            },
            (Value::Mapping(a), Value::Mapping(b)) => a.same(b),
            (Value::Alias(a), Value::Alias(b)) => *a == *b,
            (Value::Invalid, Value::Invalid) => true,
            _ => false,
        }
    }

    /// A value that holds the same.
    pub fn duplicate(&self) -> (r: Value)
        ensures
            r@ == self@,
        decreases self@, 1int,
    {
        match self {
            Value::Null => Value::Null,
            Value::Bool(b) => Value::Bool(*b),
            Value::Int(n) => Value::Int(*n),
            Value::Float(text) => Value::Float(text.clone()),
            Value::Str(text) => Value::Str(text.clone()),
            Value::Sequence(items) => {
                proof {
                    lemma_sequence_view(*items);
                }
                let mut out: Vec<Value> = Vec::new();
                let mut i: usize = 0;
                while i < items.len()
                    invariant
                        i <= items.len(),
                        self@ == ValueView::Sequence(value_views(items@)),
                        out.len() == i,
                        forall|j: int| 0 <= j < i ==> out@[j]@ == items@[j]@,
                    decreases items.len() - i,
                {
                    assert(value_views(items@)[i as int] == items@[i as int]@);
                    proof {
                        lemma_item_smaller(value_views(items@), i as int);
                    }
                    out.push(items[i].duplicate());
                    i += 1;
                }
                assert(value_views(out@) =~= value_views(items@));
                proof {
                    lemma_sequence_view(out);
                }
                Value::Sequence(out)
            },
            Value::Mapping(m) => Value::Mapping(m.duplicate()),
            Value::Alias(n) => Value::Alias(*n),
            Value::Invalid => Value::Invalid,
        }
    }

    /// The string `text` as a value.
    pub fn string(text: &str) -> (r: Value)
        ensures
            r@ == ValueView::Str(text@),
    {
        Value::Str(String::from_str(text))
    }
}

/// A sequence value holds the views of its items.
pub proof fn lemma_sequence_view(items: Vec<Value>)
    ensures
        Value::Sequence(items)@ == ValueView::Sequence(value_views(items@)),
{
    assert(value_view(Value::Sequence(items))->Sequence_0 =~= value_views(items@));
}

} // verus!
