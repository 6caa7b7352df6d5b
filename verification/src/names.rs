//! The player name of a settings document, and the triggers that would
//! change it behind the organiser's back.

use crate::game::game_key;
use crate::scalar::parsed_scalar;
use crate::value::{
    has_key, lemma_position, lemma_sequence_view, lemma_with_value, lookup, value_views,
    with_entry, with_value, without_key, Mapping, Value, ValueView,
};
use vstd::prelude::*;

verus! {

/// The key `name`.
pub open spec fn name_key() -> ValueView {
    ValueView::Str("name"@)
}

/// The key `triggers`.
pub open spec fn triggers_key() -> ValueView {
    ValueView::Str("triggers"@)
}

/// The key `options`.
pub open spec fn options_key() -> ValueView {
    ValueView::Str("options"@)
}

/// The key that marks a trigger for removal.
pub open spec fn remove_key() -> ValueView {
    ValueView::Str("_remove_"@)
}

/// The options of a trigger without a change of the name. The options that
/// a trigger sets at the root of the document stand under the null key;
/// `name` is taken out of them, and where nothing else was set there, the
/// null key goes too.
pub open spec fn options_without_name(opts: Seq<(ValueView, ValueView)>) -> Seq<
    (ValueView, ValueView),
> {
    match lookup(opts, ValueView::Null) {
        Some(ValueView::Mapping(root)) => if has_key(root, name_key()) {
            if without_key(root, name_key()).len() == 0 {
                without_key(opts, ValueView::Null)
            } else {
                with_value(
                    opts,
                    ValueView::Null,
                    ValueView::Mapping(without_key(root, name_key())),
                )
            }
        } else {
            opts
        },
        _ => opts,
    }
}

/// A trigger without a change of the name. A trigger whose options are
/// empty after that is marked for removal. A trigger that is no mapping, or
/// has no mapping of options, stays as it is.
pub open spec fn trigger_without_name(t: ValueView) -> ValueView {
    match t {
        ValueView::Mapping(entries) => match lookup(entries, options_key()) {
            Some(ValueView::Mapping(opts)) => {
                let opts1 = options_without_name(opts);
                let entries1 = with_value(entries, options_key(), ValueView::Mapping(opts1));
                if opts1.len() == 0 {
                    ValueView::Mapping(with_entry(entries1, remove_key(), ValueView::Bool(true)))
                } else {
                    ValueView::Mapping(entries1)
                }
            },
            _ => t,
        },
        _ => t,
    }
}

/// Whether a trigger is marked for removal.
pub open spec fn is_marked(t: ValueView) -> bool {
    t matches ValueView::Mapping(entries) && has_key(entries, remove_key())
}

/// The first `n` triggers without a change of the name, and without those
/// that are marked for removal after that.
pub open spec fn triggers_kept(items: Seq<ValueView>, n: int) -> Seq<ValueView>
    decreases n,
{
    if n <= 0 || n > items.len() {
        Seq::empty()
    } else if is_marked(trigger_without_name(items[n - 1])) {
        triggers_kept(items, n - 1)
    } else {
        triggers_kept(items, n - 1).push(trigger_without_name(items[n - 1]))
    }
}

/// The triggers without any change of the name: see `triggers_kept`. What is
/// no sequence stays as it is.
pub open spec fn without_name_changes(triggers: ValueView) -> ValueView {
    match triggers {
        ValueView::Sequence(items) => ValueView::Sequence(triggers_kept(items, items.len() as int)),
        _ => triggers,
    }
}

fn strip_options(opts: &mut Mapping)
    ensures
        final(opts)@ == options_without_name(old(opts)@),
{
    let name = Value::string("name");
    let ghost before = opts@;
    let mut emptied = false;
    proof {
        lemma_position(before, ValueView::Null, 0);
        if has_key(before, ValueView::Null) {
            lemma_with_value(before, ValueView::Null, lookup(before, ValueView::Null)->0);
        }
    }
    match opts.get_mut(&Value::Null) {
        Some(slot) => {
            match slot {
                Value::Mapping(root) => {
                    let ghost root_before = root@;
                    proof {
                        lemma_position(root_before, name_key(), 0);
                    }
                    let had = root.remove(&name);
                    emptied = had.is_some() && root.is_empty();
                    proof {
                        lemma_with_value(
                            before,
                            ValueView::Null,
                            ValueView::Mapping(without_key(root_before, name_key())),
                        );
                    }
                },
                _ => {},
            }
        },
        None => {},
    }
    if emptied {
        opts.remove(&Value::Null);
    }
}

fn strip_trigger(t: &mut Value)
    ensures
        final(t)@ == trigger_without_name(old(t)@),
{
    let options = Value::string("options");
    match t {
        Value::Mapping(entries) => {
            let ghost before = entries@;
            let mut empty = false;
            proof {
                lemma_position(before, options_key(), 0);
                if has_key(before, options_key()) {
                    lemma_with_value(before, options_key(), lookup(before, options_key())->0);
                }
            }
            match entries.get_mut(&options) {
                Some(slot) => {
                    match slot {
                        Value::Mapping(opts) => {
                            strip_options(opts);
                            empty = opts.is_empty();
                        },
                        _ => {},
                    }
                },
                None => {},
            }
            if empty {
                entries.insert(Value::string("_remove_"), Value::Bool(true));
            }
        },
        _ => {},
    }
}

fn marked(t: &Value) -> (r: bool)
    ensures
        r == is_marked(t@),
{
    match t {
        Value::Mapping(entries) => entries.contains_key(&Value::string("_remove_")),
        _ => false,
    }
}

/// Takes every change of the name out of the triggers in `doc`: see
/// `without_name_changes`.
pub fn strip_name_changes_from_triggers(doc: &mut Value)
    ensures
        final(doc)@ == without_name_changes(old(doc)@),
{
    let kept = match doc {
        Value::Sequence(items) => {
            proof {
                lemma_sequence_view(*items);
            }
            let ghost views = value_views(items@);
            let mut kept: Vec<Value> = Vec::new();
            let mut i: usize = 0;
            while i < items.len()
                invariant
                    i <= items.len(),
                    views == value_views(items@),
                    value_views(kept@) == triggers_kept(views, i as int),
                decreases items.len() - i,
            {
                assert(views[i as int] == items@[i as int]@);
                let mut t = items[i].duplicate();
                strip_trigger(&mut t);
                if !marked(&t) {
                    let ghost before = value_views(kept@);
                    kept.push(t);
                    assert(value_views(kept@) =~= before.push(t@));
                }
                i += 1;
            }
            proof {
                lemma_sequence_view(kept);
            }
            kept
        },
        _ => {
            return ;
        },
    };
    *doc = Value::Sequence(kept);
}

/// The document after its name was set. The triggers of the game's options
/// and of the document lose their changes of the name, and `name` becomes
/// `name`: in place where the document had a name, else at the end.
pub open spec fn top_with_name(
    top: Seq<(ValueView, ValueView)>,
    name: ValueView,
    game: Option<ValueView>,
) -> Seq<(ValueView, ValueView)> {
    let top2 = top_without_name_changes(top, game);
    if has_key(top2, name_key()) {
        with_value(top2, name_key(), name)
    } else {
        with_entry(top2, name_key(), name)
    }
}

/// The entries of a document whose triggers, those of the game's options
/// first and then its own, have lost their changes of the name.
pub open spec fn top_without_name_changes(
    top: Seq<(ValueView, ValueView)>,
    game: Option<ValueView>,
) -> Seq<(ValueView, ValueView)> {
    let top1 = match game {
        Some(g) => match lookup(top, g) {
            Some(ValueView::Mapping(opts)) => with_value(
                top,
                g,
                ValueView::Mapping(triggers_stripped(opts)),
            ),
            _ => top,
        },
        None => top,
    };
    triggers_stripped(top1)
}

/// The entries with the value under `triggers`, where there is one, without
/// changes of the name.
pub open spec fn triggers_stripped(entries: Seq<(ValueView, ValueView)>) -> Seq<
    (ValueView, ValueView),
> {
    match lookup(entries, triggers_key()) {
        Some(t) => with_value(entries, triggers_key(), without_name_changes(t)),
        None => entries,
    }
}

fn strip_triggers_in(entries: &mut Mapping)
    ensures
        final(entries)@ == triggers_stripped(old(entries)@),
{
    match entries.get_mut(&Value::string("triggers")) {
        Some(t) => {
            strip_name_changes_from_triggers(t);
        },
        None => {},
    }
}

/// What an optional value holds.
pub open spec fn opt_view(v: Option<&Value>) -> Option<ValueView> {
    match v {
        Some(v) => Some(v@),
        None => None,
    }
}

/// What an optional value holds.
pub open spec fn owned_view(v: Option<Value>) -> Option<ValueView> {
    match v {
        Some(v) => Some(v@),
        None => None,
    }
}

/// Sets the player name of a document to what `name` reads as, and takes
/// every change of the name out of its triggers and out of those of the
/// options of `game`. Returns the name that the document had. A document
/// that is no mapping stays as it is.
pub fn set_name(doc: &mut Value, name: &str, game: Option<&Value>) -> (r: Option<Value>)
    ensures
        match old(doc)@ {
            ValueView::Mapping(top) => final(doc)@ == ValueView::Mapping(
                top_with_name(top, parsed_scalar(name@), opt_view(game)),
            ) && owned_view(r) == lookup(top_without_name_changes(top, opt_view(game)), name_key()),
            _ => final(doc)@ == old(doc)@ && r is None,
        },
{
    let name_value = Value::parse_scalar(name);
    match doc {
        Value::Mapping(top) => {
            let ghost before = top@;
            match game {
                Some(g) => {
                    proof {
                        lemma_position(before, g@, 0);
                        if has_key(before, g@) {
                            lemma_with_value(before, g@, lookup(before, g@)->0);
                        }
                    }
                    match top.get_mut(g) {
                        Some(slot) => {
                            match slot {
                                Value::Mapping(opts) => {
                                    strip_triggers_in(opts);
                                },
                                _ => {},
                            }
                        },
                        None => {},
                    }
                },
                None => {},
            }
            strip_triggers_in(top);
            proof {
                lemma_position(top@, name_key(), 0);
            }
            let key = Value::string("name");
            let old_name = match top.get(&key) {
                Some(v) => Some(v.duplicate()),
                None => None,
            };
            match top.get_mut(&key) {
                Some(slot) => {
                    *slot = name_value;
                },
                None => {
                    top.insert(key, name_value);
                },
            }
            old_name
        },
        _ => None,
    }
}

/// The key `plando_items`.
pub open spec fn plando_key() -> ValueView {
    ValueView::Str("plando_items"@)
}

/// The key `world`.
pub open spec fn world_key() -> ValueView {
    ValueView::Str("world"@)
}

/// The name that `names` gives to the world `w`, or `w` itself where it
/// gives none.
pub open spec fn new_name(names: Seq<(ValueView, ValueView)>, w: ValueView) -> ValueView {
    match lookup(names, w) {
        Some(n) => n,
        None => w,
    }
}

/// The worlds that an item is placed in, under their new names: one world,
/// or a sequence of worlds.
pub open spec fn world_renamed(names: Seq<(ValueView, ValueView)>, world: ValueView) -> ValueView {
    match lookup(names, world) {
        Some(n) => n,
        None => match world {
            ValueView::Sequence(items) => ValueView::Sequence(
                items.map_values(|w: ValueView| new_name(names, w)),
            ),
            _ => world,
        },
    }
}

/// A placement with its worlds under their new names.
pub open spec fn block_renamed(names: Seq<(ValueView, ValueView)>, block: ValueView) -> ValueView {
    match block {
        ValueView::Mapping(entries) => match lookup(entries, world_key()) {
            Some(w) => ValueView::Mapping(
                with_value(entries, world_key(), world_renamed(names, w)),
            ),
            None => block,
        },
        _ => block,
    }
}

/// A document whose placements, found under `game` and there under
/// `plando_items`, have their worlds under their new names.
pub open spec fn doc_renamed(names: Seq<(ValueView, ValueView)>, doc: ValueView) -> ValueView {
    match doc {
        ValueView::Mapping(top) => match lookup(top, game_key()) {
            Some(ValueView::Mapping(opts)) => match lookup(opts, plando_key()) {
                Some(ValueView::Sequence(blocks)) => ValueView::Mapping(
                    with_value(
                        top,
                        game_key(),
                        ValueView::Mapping(
                            with_value(
                                opts,
                                plando_key(),
                                ValueView::Sequence(
                                    blocks.map_values(|b: ValueView| block_renamed(names, b)),
                                ),
                            ),
                        ),
                    ),
                ),
                _ => doc,
            },
            _ => doc,
        },
        _ => doc,
    }
}

fn put(slot: &mut Value, v: Value)
    ensures
        *final(slot) == v,
{
    *slot = v;
}

fn rename_world(names: &Mapping, world: &mut Value)
    ensures
        final(world)@ == world_renamed(names@, old(world)@),
{
    match names.get(world) {
        Some(n) => {
            let n = n.duplicate();
            *world = n;
            return ;
        },
        None => {},
    }
    match world {
        Value::Sequence(items) => {
            proof {
                lemma_sequence_view(*items);
            }
            let ghost before = value_views(items@);
            let mut i: usize = 0;
            while i < items.len()
                invariant
                    i <= items.len(),
                    items.len() == before.len(),
                    forall|j: int| 0 <= j < i ==> (#[trigger] items@[j])@ == new_name(names@, before[j]),
                    forall|j: int| i <= j < items.len() ==> (#[trigger] items@[j])@ == before[j],
                decreases items.len() - i,
            {
                let found = match names.get(&items[i]) {
                    Some(n) => Some(n.duplicate()),
                    None => None,
                };
                match found {
                    Some(n) => {
                        put(&mut items[i], n);
                    },
                    None => {},
                }
                i += 1;
            }
            proof {
                lemma_sequence_view(*items);
                assert(value_views(items@) =~= before.map_values(
                    |w: ValueView| new_name(names@, w),
                ));
            }
        },
        _ => {},
    }
}

fn rename_block(names: &Mapping, block: &mut Value)
    ensures
        final(block)@ == block_renamed(names@, old(block)@),
{
    match block {
        Value::Mapping(entries) => {
            match entries.get_mut(&Value::string("world")) {
                Some(w) => {
                    rename_world(names, w);
                },
                None => {},
            }
        },
        _ => {},
    }
}

fn rename_blocks(names: &Mapping, plando: &mut Value)
    ensures
        match old(plando)@ {
            ValueView::Sequence(blocks) => final(plando)@ == ValueView::Sequence(
                blocks.map_values(|b: ValueView| block_renamed(names@, b)),
            ),
            _ => final(plando)@ == old(plando)@,
        },
{
    match plando {
        Value::Sequence(items) => {
            proof {
                lemma_sequence_view(*items);
            }
            let ghost before = value_views(items@);
            let mut i: usize = 0;
            while i < items.len()
                invariant
                    i <= items.len(),
                    items.len() == before.len(),
                    forall|j: int|
                        0 <= j < i ==> (#[trigger] items@[j])@ == block_renamed(names@, before[j]),
                    forall|j: int| i <= j < items.len() ==> (#[trigger] items@[j])@ == before[j],
                decreases items.len() - i,
            {
                rename_block(names, &mut items[i]);
                i += 1;
            }
            proof {
                lemma_sequence_view(*items);
                assert(value_views(items@) =~= before.map_values(
                    |b: ValueView| block_renamed(names@, b),
                ));
            }
        },
        _ => {},
    }
}

fn rename_in_doc(names: &Mapping, doc: &mut Value)
    ensures
        final(doc)@ == doc_renamed(names@, old(doc)@),
{
    match doc {
        Value::Mapping(top) => {
            let ghost before = top@;
            proof {
                lemma_position(before, game_key(), 0);
                if has_key(before, game_key()) {
                    lemma_with_value(before, game_key(), lookup(before, game_key())->0);
                }
            }
            match top.get_mut(&Value::string("game")) {
                Some(slot) => {
                    match slot {
                        Value::Mapping(opts) => {
                            let ghost opts_before = opts@;
                            proof {
                                lemma_position(opts_before, plando_key(), 0);
                                if has_key(opts_before, plando_key()) {
                                    lemma_with_value(
                                        opts_before,
                                        plando_key(),
                                        lookup(opts_before, plando_key())->0,
                                    );
                                }
                            }
                            match opts.get_mut(&Value::string("plando_items")) {
                                Some(plando) => {
                                    rename_blocks(names, plando);
                                },
                                None => {},
                            }
                        },
                        _ => {},
                    }
                },
                None => {},
            }
        },
        _ => {},
    }
}

/// Gives the worlds that the placements of `docs` name their new names:
/// see `doc_renamed`. `names` maps each old name to its new one.
pub fn rename_plando_worlds(names: &Mapping, docs: &mut Vec<Value>)
    ensures
        final(docs).len() == old(docs).len(),
        forall|i: int|
            0 <= i < old(docs).len() ==> (#[trigger] final(docs)@[i])@ == doc_renamed(
                names@,
                old(docs)@[i]@,
            ),
{
    let mut i: usize = 0;
    while i < docs.len()
        invariant
            i <= docs.len(),
            docs.len() == old(docs).len(),
            forall|j: int|
                0 <= j < i ==> (#[trigger] docs@[j])@ == doc_renamed(names@, old(docs)@[j]@),
            forall|j: int| i <= j < docs.len() ==> #[trigger] docs@[j] == old(docs)@[j],
        decreases docs.len() - i,
    {
        rename_in_doc(names, &mut docs[i]);
        i += 1;
    }
}

} // verus!
