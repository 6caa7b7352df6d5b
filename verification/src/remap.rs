//! New names for the items and locations that a settings document names.

use crate::name_changes::{names_of, new_name_of, GameNames, Mapping as NameMapping, NameMap};
use crate::scalar::parsed_scalar;
use crate::value::{
    has_key, lemma_position, lemma_sequence_view, lemma_with_value, lookup, pair_views,
    value_views, with_entry, with_value, without_key, Mapping, Value, ValueView,
};
use vstd::prelude::*;

verus! {

/// A name under its new name: a string that has a new name becomes the
/// scalar that the new name reads as; anything else stays.
pub open spec fn item_remapped(names: Seq<(Seq<char>, Seq<char>)>, v: ValueView) -> ValueView {
    match v {
        ValueView::Str(text) => match new_name_of(names, text) {
            Some(n) => parsed_scalar(n),
            None => v,
        },
        _ => v,
    }
}

/// The entries with the list under `option`, where there is one, under the
/// new names.
pub open spec fn list_remapped(
    names: Seq<(Seq<char>, Seq<char>)>,
    entries: Seq<(ValueView, ValueView)>,
    option: ValueView,
) -> Seq<(ValueView, ValueView)> {
    match lookup(entries, option) {
        Some(ValueView::Sequence(items)) => with_value(
            entries,
            option,
            ValueView::Sequence(items.map_values(|v: ValueView| item_remapped(names, v))),
        ),
        _ => entries,
    }
}

/// The entries with the value under `option`, where there is one, under its
/// new name.
pub open spec fn single_remapped(
    names: Seq<(Seq<char>, Seq<char>)>,
    entries: Seq<(ValueView, ValueView)>,
    option: ValueView,
) -> Seq<(ValueView, ValueView)> {
    match lookup(entries, option) {
        Some(v) => with_value(entries, option, item_remapped(names, v)),
        None => entries,
    }
}

/// A mapping after the first `n` of the keys that it had got their new
/// names, one after the other: the value of a key that is a string with a
/// new name goes to the end, under what the new name reads as.
pub open spec fn keys_remapped(
    names: Seq<(Seq<char>, Seq<char>)>,
    given: Seq<(ValueView, ValueView)>,
    n: int,
) -> Seq<(ValueView, ValueView)>
    decreases n,
{
    if n <= 0 || n > given.len() {
        given
    } else {
        let sofar = keys_remapped(names, given, n - 1);
        match given[n - 1].0 {
            ValueView::Str(text) => match new_name_of(names, text) {
                Some(new) => match lookup(sofar, ValueView::Str(text)) {
                    Some(val) => with_entry(
                        without_key(sofar, ValueView::Str(text)),
                        parsed_scalar(new),
                        val,
                    ),
                    None => sofar,
                },
                None => sofar,
            },
            _ => sofar,
        }
    }
}

/// The entries with the keys of the mapping under `option`, where there is
/// one, under their new names.
pub open spec fn hash_remapped(
    names: Seq<(Seq<char>, Seq<char>)>,
    entries: Seq<(ValueView, ValueView)>,
    option: ValueView,
) -> Seq<(ValueView, ValueView)> {
    match lookup(entries, option) {
        Some(ValueView::Mapping(inner)) => with_value(
            entries,
            option,
            ValueView::Mapping(keys_remapped(names, inner, inner.len() as int)),
        ),
        _ => entries,
    }
}

fn put(slot: &mut Value, v: Value)
    ensures
        *final(slot) == v,
{
    *slot = v;
}

fn remap_item(names: &NameMap, v: &mut Value)
    ensures
        final(v)@ == item_remapped(names@, old(v)@),
{
    let new = match v {
        Value::Str(text) => match names.get(text.as_str()) {
            Some(n) => Value::parse_scalar(n.as_str()),
            None => {
                return ;
            },
        },
        _ => {
            return ;
        },
    };
    *v = new;
}

fn remap_items(names: &NameMap, list: &mut Value)
    ensures
        match old(list)@ {
            ValueView::Sequence(items) => final(list)@ == ValueView::Sequence(
                items.map_values(|v: ValueView| item_remapped(names@, v)),
            ),
            _ => final(list)@ == old(list)@,
        },
{
    match list {
        Value::Sequence(items) => {
            proof {
                lemma_sequence_view(*items);
            }
            let ghost before = value_views(items@);
            let mut i: usize = 0;
            while i < items.len()
                invariant
                    i <= items.len(),
                    items.len() == before.len(),
                    forall|j: int|
                        0 <= j < i ==> (#[trigger] items@[j])@ == item_remapped(names@, before[j]),
                    forall|j: int| i <= j < items.len() ==> (#[trigger] items@[j])@ == before[j],
                decreases items.len() - i,
            {
                remap_item(names, &mut items[i]);
                i += 1;
            }
            proof {
                lemma_sequence_view(*items);
                assert(value_views(items@) =~= before.map_values(
                    |v: ValueView| item_remapped(names@, v),
                ));
            }
        },
        _ => {},
    }
}

/// Gives the names in the list under `option` their new names: see
/// `list_remapped`.
pub fn remap_list(names: &NameMap, hash: &mut Mapping, option: &str)
    ensures
        final(hash)@ == list_remapped(names@, old(hash)@, ValueView::Str(option@)),
{
    let key = Value::string(option);
    let ghost before = hash@;
    proof {
        lemma_position(before, key@, 0);
        if has_key(before, key@) {
            lemma_with_value(before, key@, lookup(before, key@)->0);
        }
    }
    match hash.get_mut(&key) {
        Some(list) => {
            remap_items(names, list);
        },
        None => {},
    }
}

fn remap_single(names: &NameMap, hash: &mut Mapping, option: &str)
    ensures
        final(hash)@ == single_remapped(names@, old(hash)@, ValueView::Str(option@)),
{
    let key = Value::string(option);
    match hash.get_mut(&key) {
        Some(v) => {
            remap_item(names, v);
        },
        None => {},
    }
}

fn remap_keys(names: &NameMap, inner: &mut Mapping)
    ensures
        final(inner)@ == keys_remapped(names@, old(inner)@, old(inner)@.len() as int),
{
    let ghost given = inner@;
    let mut keys: Vec<Option<(Value, Value)>> = Vec::new();
    {
        let pairs = inner.entries();
        let mut i: usize = 0;
        while i < pairs.len()
            invariant
                i <= pairs.len(),
                pair_views(pairs@) == given,
                keys.len() == i,
                forall|j: int|
                    0 <= j < i ==> match #[trigger] keys@[j] {
                        Some(p) => given[j].0 matches ValueView::Str(text) && new_name_of(
                            names@,
                            text,
                        ) matches Some(new) && p.0@ == given[j].0 && p.1@ == parsed_scalar(new),
                        None => !(given[j].0 matches ValueView::Str(text) && new_name_of(
                            names@,
                            text,
                        ) is Some),
                    },
            decreases pairs.len() - i,
        {
            assert(pair_views(pairs@)[i as int] == (pairs@[i as int].0@, pairs@[i as int].1@));
            let found = match pairs[i].0 {
                Value::Str(text) => match names.get(text.as_str()) {
                    Some(n) => Some((Value::string(text.as_str()), Value::parse_scalar(n.as_str()))),
                    None => None,
                },
                _ => None,
            };
            keys.push(found);
            i += 1;
        }
    }
    let mut j: usize = 0;
    while j < keys.len()
        invariant
            j <= keys.len(),
            keys.len() == given.len(),
            forall|k: int|
                0 <= k < keys.len() ==> match #[trigger] keys@[k] {
                    Some(p) => given[k].0 matches ValueView::Str(text) && new_name_of(
                        names@,
                        text,
                    ) matches Some(new) && p.0@ == given[k].0 && p.1@ == parsed_scalar(new),
                    None => !(given[k].0 matches ValueView::Str(text) && new_name_of(
                        names@,
                        text,
                    ) is Some),
                },
            inner@ == keys_remapped(names@, given, j as int),
        decreases keys.len() - j,
    {
        match &keys[j] {
            Some(p) => {
                match inner.remove(&p.0) {
                    Some(val) => {
                        inner.insert(p.1.duplicate(), val);
                    },
                    None => {},
                }
            },
            None => {},
        }
        j += 1;
    }
}

/// Gives the keys of the mapping under `option` their new names: see
/// `hash_remapped`.
pub fn remap_hash(names: &NameMap, hash: &mut Mapping, option: &str)
    ensures
        final(hash)@ == hash_remapped(names@, old(hash)@, ValueView::Str(option@)),
{
    let key = Value::string(option);
    let ghost before = hash@;
    proof {
        lemma_position(before, key@, 0);
        if has_key(before, key@) {
            lemma_with_value(before, key@, lookup(before, key@)->0);
        }
    }
    match hash.get_mut(&key) {
        Some(slot) => {
            match slot {
                Value::Mapping(inner) => {
                    remap_keys(names, inner);
                },
                _ => {},
            }
        },
        None => {},
    }
}

/// A placement with its items and locations under their new names.
pub open spec fn block_remapped(
    items: Seq<(Seq<char>, Seq<char>)>,
    locations: Seq<(Seq<char>, Seq<char>)>,
    block: ValueView,
) -> ValueView {
    match block {
        ValueView::Mapping(e) => ValueView::Mapping(
            single_remapped(
                locations,
                single_remapped(
                    items,
                    hash_remapped(
                        items,
                        list_remapped(locations, e, ValueView::Str("locations"@)),
                        ValueView::Str("items"@),
                    ),
                    ValueView::Str("item"@),
                ),
                ValueView::Str("location"@),
            ),
        ),
        _ => block,
    }
}

/// The options of a game with the items and locations that they name under
/// their new names.
pub open spec fn options_remapped(
    items: Seq<(Seq<char>, Seq<char>)>,
    locations: Seq<(Seq<char>, Seq<char>)>,
    opts: Seq<(ValueView, ValueView)>,
) -> Seq<(ValueView, ValueView)> {
    let o1 = list_remapped(items, opts, ValueView::Str("local_items"@));
    let o2 = list_remapped(items, o1, ValueView::Str("non_local_items"@));
    let o3 = hash_remapped(items, o2, ValueView::Str("start_inventory"@));
    let o4 = list_remapped(items, o3, ValueView::Str("start_hints"@));
    let o5 = list_remapped(locations, o4, ValueView::Str("start_location_hints"@));
    let o6 = list_remapped(locations, o5, ValueView::Str("exclude_locations"@));
    let o7 = list_remapped(locations, o6, ValueView::Str("priority_locations"@));
    match lookup(o7, ValueView::Str("plando_items"@)) {
        Some(ValueView::Sequence(blocks)) => with_value(
            o7,
            ValueView::Str("plando_items"@),
            ValueView::Sequence(
                blocks.map_values(|b: ValueView| block_remapped(items, locations, b)),
            ),
        ),
        _ => o7,
    }
}

/// A document with the items and locations that the options of `game` name
/// under their new names. A document without a mapping of options for the
/// game, and a game without new names, stay as they are.
pub open spec fn doc_remapped(
    mapping: Seq<crate::name_changes::GameNamesView>,
    doc: ValueView,
    game: Seq<char>,
) -> ValueView {
    match doc {
        ValueView::Mapping(top) => match lookup(top, parsed_scalar(game)) {
            Some(ValueView::Mapping(opts)) => match names_of(mapping, game) {
                Some(g) => ValueView::Mapping(
                    with_value(
                        top,
                        parsed_scalar(game),
                        ValueView::Mapping(options_remapped(g.items, g.locations, opts)),
                    ),
                ),
                None => doc,
            },
            _ => doc,
        },
        _ => doc,
    }
}

fn remap_block(g: &GameNames, block: &mut Value)
    ensures
        final(block)@ == block_remapped(g@.items, g@.locations, old(block)@),
{
    match block {
        Value::Mapping(e) => {
            remap_list(&g.locations, e, "locations");
            remap_hash(&g.items, e, "items");
            remap_single(&g.items, e, "item");
            remap_single(&g.locations, e, "location");
        },
        _ => {},
    }
}

fn remap_blocks(g: &GameNames, plando: &mut Value)
    ensures
        match old(plando)@ {
            ValueView::Sequence(blocks) => final(plando)@ == ValueView::Sequence(
                blocks.map_values(|b: ValueView| block_remapped(g@.items, g@.locations, b)),
            ),
            _ => final(plando)@ == old(plando)@,
        },
{
    match plando {
        Value::Sequence(items) => {
            proof {
                lemma_sequence_view(*items);
            }
            let ghost before = value_views(items@);
            let mut i: usize = 0;
            while i < items.len()
                invariant
                    i <= items.len(),
                    items.len() == before.len(),
                    forall|j: int|
                        0 <= j < i ==> (#[trigger] items@[j])@ == block_remapped(
                            g@.items,
                            g@.locations,
                            before[j],
                        ),
                    forall|j: int| i <= j < items.len() ==> (#[trigger] items@[j])@ == before[j],
                decreases items.len() - i,
            {
                remap_block(g, &mut items[i]);
                i += 1;
            }
            proof {
                lemma_sequence_view(*items);
                assert(value_views(items@) =~= before.map_values(
                    |b: ValueView| block_remapped(g@.items, g@.locations, b),
                ));
            }
        },
        _ => {},
    }
}

fn remap_options(g: &GameNames, opts: &mut Mapping)
    ensures
        final(opts)@ == options_remapped(g@.items, g@.locations, old(opts)@),
{
    remap_list(&g.items, opts, "local_items");
    remap_list(&g.items, opts, "non_local_items");
    remap_hash(&g.items, opts, "start_inventory");
    remap_list(&g.items, opts, "start_hints");
    remap_list(&g.locations, opts, "start_location_hints");
    remap_list(&g.locations, opts, "exclude_locations");
    remap_list(&g.locations, opts, "priority_locations");
    let key = Value::string("plando_items");
    let ghost before = opts@;
    proof {
        lemma_position(before, key@, 0);
        if has_key(before, key@) {
            lemma_with_value(before, key@, lookup(before, key@)->0);
        }
    }
    match opts.get_mut(&key) {
        Some(plando) => {
            remap_blocks(g, plando);
        },
        None => {},
    }
}

/// Gives the items and locations that the options of `game` name in `doc`
/// their new names: see `doc_remapped`.
pub fn remap_common_options(mapping: &NameMapping, doc: &mut Value, game: &str)
    ensures
        final(doc)@ == doc_remapped(mapping@, old(doc)@, game@),
{
    let g = match mapping.get(game) {
        Some(g) => g,
        None => {
            return ;
        },
    };
    let key = Value::parse_scalar(game);
    match doc {
        Value::Mapping(top) => {
            let ghost before = top@;
            proof {
                lemma_position(before, key@, 0);
                if has_key(before, key@) {
                    lemma_with_value(before, key@, lookup(before, key@)->0);
                }
            }
            match top.get_mut(&key) {
                Some(slot) => {
                    match slot {
                        Value::Mapping(opts) => {
                            remap_options(g, opts);
                        },
                        _ => {},
                    }
                },
                None => {},
            }
        },
        _ => {},
    }
}

} // verus!
