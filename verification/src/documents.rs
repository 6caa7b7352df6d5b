//! The documents of one player's file, gone through one after the other.
//!
//! For each document its game is chosen, the steps of that game are taken on
//! its options, and the player's name is set. Which game is drawn is chance,
//! so what is proved is said of every draw: there is a trace of what was
//! drawn for each document, and everything that comes out is what follows
//! from the documents and the trace.

use crate::comments::texts;
use crate::game::{choose_game, chosen_view, game_chosen, game_key};
use crate::names::{
    doc_renamed, name_key, owned_view, rename_plando_worlds, set_name, top_with_name,
    top_without_name_changes,
};
use crate::notes::{decimal_of, unsigned_text};
use crate::report::{game_view, game_views, GameView};
use crate::rules::message_on;
use crate::scalar::parsed_scalar;
use crate::select::DrawError;
use crate::steps::{given_up, handle_special, handled, Step};
use crate::value::{lookup, value_views, with_entry, Mapping, Value, ValueView};
use vstd::prelude::*;

verus! {

/// Why the documents of a file could not be gone through.
#[derive(Debug, Clone, Copy, PartialEq, Eq, Structural)]
pub enum ProcessError {
    /// A game or an option was to be drawn from a distribution without
    /// weight.
    EmptyDistribution,
    /// The game of a document is no text.
    GameNotText,
}

/// What going through a file gives besides the documents themselves.
pub struct Processed {
    /// The games of the documents, in order: each with the number of
    /// documents in a row that have it, and the notes on them.
    pub games: Vec<(String, u32, Vec<String>)>,
    /// What there is to tell the user, in order.
    pub messages: Vec<String>,
}

/// What going through one document came to.
pub struct Trace {
    /// The game that was chosen, if the document names one.
    pub game: Option<ValueView>,
    /// The document after its game was chosen.
    pub chosen: ValueView,
    /// The document after the steps of its game.
    pub stepped: ValueView,
    /// The notes that the steps took.
    pub notes: Seq<Seq<char>>,
    /// What the steps have to tell the user.
    pub messages: Seq<Seq<char>>,
}

/// The steps that the first row of `table` from row `from` on has for `game`;
/// no steps where no row names it.
pub open spec fn steps_in(table: Seq<(String, Vec<Step>)>, game: Seq<char>, from: int) -> Seq<Step>
    decreases table.len() - from,
{
    if 0 <= from < table.len() {
        if table[from].0@ == game {
            table[from].1@
        } else {
            steps_in(table, game, from + 1)
        }
    } else {
        Seq::empty()
    }
}

/// Whether `t` is a trace of going through `doc`: the game is one that may
/// be chosen for it, it is a text where there is one, and the steps of that
/// game may leave what the trace says.
pub open spec fn traced(
    table: Seq<(String, Vec<Step>)>,
    name: Seq<char>,
    valid: Seq<Seq<char>>,
    doc: ValueView,
    t: Trace,
) -> bool {
    game_chosen(doc, valid, Ok(t.game), t.chosen) && match t.game {
        Some(ValueView::Str(game)) => handled(
            t.chosen,
            ValueView::Str(game),
            name,
            steps_in(table, game, 0),
            t.stepped,
            t.notes,
            t.messages,
        ),
        Some(other) => false,
        None => t.stepped == t.chosen && t.notes.len() == 0 && t.messages.len() == 0,
    }
}

/// Whether going through `doc` may end in the error `e`: its game cannot be
/// drawn, or the game that was chosen is no text, or a step of the game
/// cannot be taken.
pub open spec fn doc_fails(
    table: Seq<(String, Vec<Step>)>,
    name: Seq<char>,
    valid: Seq<Seq<char>>,
    doc: ValueView,
    e: ProcessError,
) -> bool {
    match e {
        ProcessError::EmptyDistribution => (exists|after: ValueView| #[trigger]
            game_chosen(doc, valid, Err(DrawError::EmptyDistribution), after)) || (exists|
            game: Seq<char>,
            after: ValueView,
            gone: ValueView,
        |
            game_chosen(doc, valid, Ok(Some(ValueView::Str(game))), after) && #[trigger] given_up(
                after,
                ValueView::Str(game),
                name,
                steps_in(table, game, 0),
                gone,
            )),
        ProcessError::GameNotText => exists|game: ValueView, after: ValueView| #[trigger]
            game_chosen(doc, valid, Ok(Some(game)), after) && !(game is Str),
    }
}

/// Whether a document of this game keeps the name that it has.
pub open spec fn keeps_its_name(game: Seq<char>) -> bool {
    game == "Chrono Trigger Jets of Time"@ || game == "Final Fantasy"@
}

/// Whether the document of a trace keeps the name that it has.
pub open spec fn name_stays(t: Trace) -> bool {
    match t.game {
        Some(ValueView::Str(game)) => keeps_its_name(game),
        _ => false,
    }
}

/// The name of document number `i` of the player `name`: the player's name
/// where the file has one document, else with the number of the document,
/// counted from one, behind it.
pub open spec fn name_at(name: Seq<char>, i: int, single: bool) -> Seq<char> {
    if single {
        name
    } else {
        name + decimal_of(i + 1)
    }
}

/// The document of a trace after its name was set to `new_name`.
pub open spec fn doc_after(t: Trace, new_name: Seq<char>) -> ValueView {
    if name_stays(t) {
        t.stepped
    } else {
        match t.stepped {
            ValueView::Mapping(top) => ValueView::Mapping(
                top_with_name(top, parsed_scalar(new_name), t.game),
            ),
            _ => t.stepped,
        }
    }
}

/// The name that the document of a trace had before it got a new one, if it
/// had one and got a new one.
pub open spec fn name_before(t: Trace) -> Option<ValueView> {
    if name_stays(t) {
        None
    } else {
        match t.stepped {
            ValueView::Mapping(top) => lookup(top_without_name_changes(top, t.game), name_key()),
            _ => None,
        }
    }
}

/// The games with one more document of `game`: the last game counts one
/// more and gets the notes where it is this game, else the game follows
/// with a count of one.
pub open spec fn with_game(games: Seq<GameView>, game: Seq<char>, notes: Seq<Seq<char>>) -> Seq<
    GameView,
> {
    if games.len() > 0 && games.last().game == game {
        games.drop_last().push(
            GameView { game, count: games.last().count + 1, notes: games.last().notes + notes },
        )
    } else {
        games.push(GameView { game, count: 1, notes })
    }
}

/// The games after the document of a trace.
pub open spec fn games_with(games: Seq<GameView>, t: Trace) -> Seq<GameView> {
    match t.game {
        Some(ValueView::Str(game)) => with_game(games, game, t.notes),
        _ => games,
    }
}

/// The messages after the document of a trace: those of its steps, and one
/// more where the document keeps its name.
pub open spec fn messages_with(messages: Seq<Seq<char>>, name: Seq<char>, t: Trace) -> Seq<
    Seq<char>,
> {
    match t.game {
        Some(ValueView::Str(game)) => if keeps_its_name(game) {
            (messages + t.messages).push(message_on(name, "contains a "@ + game))
        } else {
            messages + t.messages
        },
        _ => messages + t.messages,
    }
}

/// The new names by the old ones, after the document of a trace got the
/// name `new_name`.
pub open spec fn names_with(
    names: Seq<(ValueView, ValueView)>,
    new_name: Seq<char>,
    t: Trace,
) -> Seq<(ValueView, ValueView)> {
    match name_before(t) {
        Some(before) => with_entry(names, before, ValueView::Str(new_name)),
        None => names,
    }
}

/// The games of the documents of these traces.
pub open spec fn games_after(traces: Seq<Trace>) -> Seq<GameView>
    decreases traces.len(),
{
    if traces.len() == 0 {
        Seq::empty()
    } else {
        games_with(games_after(traces.drop_last()), traces.last())
    }
}

/// The messages of the documents of these traces.
pub open spec fn messages_after(traces: Seq<Trace>, name: Seq<char>) -> Seq<Seq<char>>
    decreases traces.len(),
{
    if traces.len() == 0 {
        Seq::empty()
    } else {
        messages_with(messages_after(traces.drop_last(), name), name, traces.last())
    }
}

/// The new names by the old ones of the documents of these traces.
pub open spec fn names_after(traces: Seq<Trace>, name: Seq<char>, single: bool) -> Seq<
    (ValueView, ValueView),
>
    decreases traces.len(),
{
    if traces.len() == 0 {
        Seq::empty()
    } else {
        names_with(
            names_after(traces.drop_last(), name, single),
            name_at(name, traces.len() - 1, single),
            traces.last(),
        )
    }
}

/// The message on a file with many documents.
pub open spec fn many_games(name: Seq<char>, n: int) -> Seq<char> {
    message_on(name, "contains "@ + decimal_of(n) + " games."@)
}

/// The messages on a file of `n` documents: those of its documents, and one
/// more where there are more than eight of them.
pub open spec fn file_messages(messages: Seq<Seq<char>>, name: Seq<char>, n: int) -> Seq<
    Seq<char>,
> {
    if n > 8 {
        messages.push(many_games(name, n))
    } else {
        messages
    }
}

/// Whether `after`, `games` and `messages` are what going through `docs`
/// with the traces `traces` gives: each trace is one of its document, each
/// document has the name of its place and the new names of the worlds that
/// its placements name, and the games and messages are those of the traces.
pub open spec fn processed(
    table: Seq<(String, Vec<Step>)>,
    name: Seq<char>,
    valid: Seq<Seq<char>>,
    docs: Seq<ValueView>,
    traces: Seq<Trace>,
    after: Seq<ValueView>,
    games: Seq<GameView>,
    messages: Seq<Seq<char>>,
) -> bool {
    let single = docs.len() == 1;
    &&& traces.len() == docs.len()
    &&& after.len() == docs.len()
    &&& forall|i: int| 0 <= i < docs.len() ==> traced(table, name, valid, docs[i], #[trigger] traces[i])
    &&& forall|i: int|
        0 <= i < docs.len() ==> #[trigger] after[i] == doc_renamed(
            names_after(traces, name, single),
            doc_after(traces[i], name_at(name, i, single)),
        )
    &&& games == games_after(traces)
    &&& messages == file_messages(messages_after(traces, name), name, docs.len() as int)
}

/// Whether going through `docs` may end in the error `e`: there are traces
/// of the documents before one that fails with it.
pub open spec fn stopped(
    table: Seq<(String, Vec<Step>)>,
    name: Seq<char>,
    valid: Seq<Seq<char>>,
    docs: Seq<ValueView>,
    e: ProcessError,
) -> bool {
    exists|traces: Seq<Trace>|
        traces.len() < docs.len() && (forall|i: int|
            0 <= i < traces.len() ==> traced(table, name, valid, docs[i], #[trigger] traces[i]))
            && #[trigger] doc_fails(table, name, valid, docs[traces.len() as int], e)
}

/// One more document of a game raises no count by more than one.
pub proof fn lemma_with_game_counts(
    games: Seq<GameView>,
    game: Seq<char>,
    notes: Seq<Seq<char>>,
    bound: int,
)
    requires
        bound >= 0,
        forall|j: int| 0 <= j < games.len() ==> (#[trigger] games[j]).count <= bound,
    ensures
        forall|j: int|
            0 <= j < with_game(games, game, notes).len() ==> (#[trigger] with_game(
                games,
                game,
                notes,
            )[j]).count <= bound + 1,
{
}

fn push_texts(to: &mut Vec<String>, from: Vec<String>)
    ensures
        texts(final(to)@) == texts(old(to)@) + texts(from@),
{
    let mut i: usize = 0;
    assert(texts(to@) =~= texts(old(to)@) + texts(from@).take(0));
    while i < from.len()
        invariant
            i <= from.len(),
            texts(to@) == texts(old(to)@) + texts(from@).take(i as int),
        decreases from.len() - i,
    {
        let ghost sofar = texts(to@);
        let s = from[i].clone();
        to.push(s);
        assert(texts(to@) =~= sofar.push(s@));
        assert(texts(from@).take(i as int + 1) =~= texts(from@).take(i as int).push(from@[i as int]@));
        assert(texts(to@) =~= texts(old(to)@) + texts(from@).take(i as int + 1));
        i += 1;
    }
    assert(texts(from@).take(from.len() as int) =~= texts(from@));
}

fn say(messages: &mut Vec<String>, name: &str, text: &str)
    ensures
        texts(final(messages)@) == texts(old(messages)@).push(message_on(name@, text@)),
{
    let mut m = String::from_str("'");
    m.append(name);
    m.append(".yaml' ");
    m.append(text);
    let ghost told = texts(messages@);
    messages.push(m);
    assert(texts(messages@) =~= told.push(m@));
}

fn count_game(games: &mut Vec<(String, u32, Vec<String>)>, game: &String, notes: Vec<String>)
    requires
        forall|j: int| 0 <= j < old(games).len() ==> (#[trigger] old(games)@[j]).1 < u32::MAX,
    ensures
        game_views(final(games)@) == with_game(game_views(old(games)@), game@, texts(notes@)),
{
    let ghost before = game_views(games@);
    let n = games.len();
    if n > 0 && games[n - 1].0 == *game {
        assert(before.last() == game_view(games@[n - 1]));
        match games.pop() {
            Some(last) => {
                assert(game_views(games@) =~= before.drop_last());
                let (g, count, mut all) = last;
                push_texts(&mut all, notes);
                let ghost shorter = game_views(games@);
                games.push((g, count + 1, all));
                assert(game_views(games@) =~= shorter.push(
                    GameView { game: game@, count: count + 1, notes: texts(all@) },
                ));
            },
            None => {},
        }
    } else {
        if n > 0 {
            assert(before.last() == game_view(games@[n - 1]));
        }
        games.push((game.clone(), 1, notes));
        assert(game_views(games@) =~= before.push(
            GameView { game: game@, count: 1, notes: texts(notes@) },
        ));
    }
}

fn steps_at(table: &Vec<(String, Vec<Step>)>, game: &String) -> (r: Option<usize>)
    ensures
        match r {
            Some(k) => k < table.len() && table@[k as int].1@ == steps_in(table@, game@, 0),
            None => steps_in(table@, game@, 0) == Seq::<Step>::empty(),
        },
{
    let mut i: usize = 0;
    while i < table.len()
        invariant
            i <= table.len(),
            steps_in(table@, game@, i as int) == steps_in(table@, game@, 0),
        decreases table.len() - i,
    {
        if table[i].0 == *game {
            return Some(i);
        }
        i += 1;
    }
    None
}

/// What a value holds where it is a text.
fn text_in(v: &Value) -> (r: Option<String>)
    ensures
        match r {
            Some(text) => v@ == ValueView::Str(text@),
            None => !(v@ is Str),
        },
{
    match v {
        Value::Str(text) => Some(text.clone()),
        _ => None,
    }
}

fn keeps_name(game: &String) -> (r: bool)
    ensures
        r == keeps_its_name(game@),
{
    *game == String::from_str("Chrono Trigger Jets of Time") || *game == String::from_str(
        "Final Fantasy",
    )
}

/// Takes the steps of the game on a document and counts the game.
fn handle_document(
    doc: &mut Value,
    game: &Value,
    game_name: &String,
    table: &Vec<(String, Vec<Step>)>,
    name: &str,
    games: &mut Vec<(String, u32, Vec<String>)>,
    messages: &mut Vec<String>,
) -> (r: Result<(), DrawError>)
    requires
        game@ == ValueView::Str(game_name@),
        forall|j: int| 0 <= j < old(games).len() ==> (#[trigger] old(games)@[j]).1 < u32::MAX,
    ensures
        match r {
            Ok(u) => exists|notes: Seq<Seq<char>>, told: Seq<Seq<char>>|
                #[trigger] handled(
                    old(doc)@,
                    game@,
                    name@,
                    steps_in(table@, game_name@, 0),
                    final(doc)@,
                    notes,
                    told,
                ) && game_views(final(games)@) == with_game(
                    game_views(old(games)@),
                    game_name@,
                    notes,
                ) && texts(final(messages)@) == texts(old(messages)@) + told,
            Err(e) => given_up(
                old(doc)@,
                game@,
                name@,
                steps_in(table@, game_name@, 0),
                final(doc)@,
            ),
        },
{
    let r = match steps_at(table, game_name) {
        Some(k) => handle_special(doc, game, name, &table[k].1),
        None => handle_special(doc, game, name, &Vec::new()),
    };
    match r {
        Ok(out) => {
            let ghost notes = texts(out.notes@);
            let ghost told = texts(out.messages@);
            count_game(games, game_name, out.notes);
            push_texts(messages, out.messages);
            assert(handled(
                old(doc)@,
                game@,
                name@,
                steps_in(table@, game_name@, 0),
                doc@,
                notes,
                told,
            ));
            Ok(())
        },
        Err(e) => Err(e),
    }
}

/// Goes through one document: see `traced` and `doc_fails`.
fn clean_document(
    doc: &mut Value,
    table: &Vec<(String, Vec<Step>)>,
    name: &str,
    new_name: &str,
    valid: &Vec<String>,
    games: &mut Vec<(String, u32, Vec<String>)>,
    messages: &mut Vec<String>,
    names: &mut Mapping,
) -> (r: Result<(), ProcessError>)
    requires
        forall|j: int| 0 <= j < old(games).len() ==> (#[trigger] old(games)@[j]).1 < u32::MAX,
    ensures
        match r {
            Ok(u) => exists|t: Trace|
                #[trigger] traced(table@, name@, texts(valid@), old(doc)@, t) && final(doc)@
                    == doc_after(t, new_name@) && game_views(final(games)@) == games_with(
                    game_views(old(games)@),
                    t,
                ) && texts(final(messages)@) == messages_with(texts(old(messages)@), name@, t)
                    && final(names)@ == names_with(old(names)@, new_name@, t),
            Err(e) => doc_fails(table@, name@, texts(valid@), old(doc)@, e),
        },
{
    let chosen = match choose_game(doc, valid) {
        Ok(chosen) => chosen,
        Err(e) => {
            assert(game_chosen(old(doc)@, texts(valid@), Err(DrawError::EmptyDistribution), doc@));
            return Err(ProcessError::EmptyDistribution);
        },
    };
    let ghost after_choice = doc@;
    assert(game_chosen(old(doc)@, texts(valid@), chosen_view(Ok(chosen)), after_choice));
    let ghost told_before = texts(messages@);
    let ghost mut t = Trace {
        game: None,
        chosen: after_choice,
        stepped: after_choice,
        notes: Seq::empty(),
        messages: Seq::empty(),
    };
    let stays = match &chosen {
        Some(game) => {
            let game_name = match text_in(game) {
                Some(game_name) => game_name,
                None => {
                    assert(game_chosen(old(doc)@, texts(valid@), Ok(Some(game@)), after_choice));
                    return Err(ProcessError::GameNotText);
                },
            };
            assert(game_chosen(
                old(doc)@,
                texts(valid@),
                Ok(Some(ValueView::Str(game_name@))),
                after_choice,
            ));
            match handle_document(doc, game, &game_name, table, name, games, messages) {
                Ok(u) => {},
                Err(e) => {
                    assert(given_up(
                        after_choice,
                        ValueView::Str(game_name@),
                        name@,
                        steps_in(table@, game_name@, 0),
                        doc@,
                    ));
                    return Err(ProcessError::EmptyDistribution);
                },
            }
            proof {
                let (notes, told) = choose|notes: Seq<Seq<char>>, told: Seq<Seq<char>>|
                    #[trigger] handled(
                        after_choice,
                        game@,
                        name@,
                        steps_in(table@, game_name@, 0),
                        doc@,
                        notes,
                        told,
                    ) && game_views(games@) == with_game(
                        game_views(old(games)@),
                        game_name@,
                        notes,
                    ) && texts(messages@) == told_before + told;
                t = Trace {
                    game: Some(game@),
                    chosen: after_choice,
                    stepped: doc@,
                    notes,
                    messages: told,
                };
            }
            let stays = keeps_name(&game_name);
            if stays {
                let mut text = String::from_str("contains a ");
                text.append(game_name.as_str());
                say(messages, name, text.as_str());
            }
            stays
        },
        None => {
            assert(texts(messages@) =~= told_before + Seq::<Seq<char>>::empty());
            false
        },
    };
    assert(traced(table@, name@, texts(valid@), old(doc)@, t));
    assert(stays == name_stays(t));
    assert(texts(messages@) == messages_with(told_before, name@, t));
    if !stays {
        let before = match &chosen {
            Some(game) => set_name(doc, new_name, Some(game)),
            None => set_name(doc, new_name, None),
        };
        assert(owned_view(before) == name_before(t));
        match before {
            Some(before) => {
                names.insert(before, Value::string(new_name));
            },
            None => {},
        }
    }
    Ok(())
}

/// Goes through the documents of the file of the player `name`: chooses the
/// game of each, takes the steps that `table` has for it, and sets the name
/// of the document, unless its game keeps the name it has. Then the worlds
/// that the placements of the documents name get their new names. Returns
/// the games of the file and what there is to tell the user: see
/// `processed`.
///
/// The first document whose game cannot be drawn or is no text, or for which
/// a step cannot be taken, ends the run with its error: see `stopped`.
pub fn process_documents(
    documents: &mut Vec<Value>,
    table: &Vec<(String, Vec<Step>)>,
    name: &str,
    valid: &Vec<String>,
) -> (r: Result<Processed, ProcessError>)
    requires
        old(documents).len() < u32::MAX,
    ensures
        match r {
            Ok(out) => exists|traces: Seq<Trace>|
                #[trigger] processed(
                    table@,
                    name@,
                    texts(valid@),
                    value_views(old(documents)@),
                    traces,
                    value_views(final(documents)@),
                    game_views(out.games@),
                    texts(out.messages@),
                ),
            Err(e) => stopped(table@, name@, texts(valid@), value_views(old(documents)@), e),
        },
{
    let single = documents.len() == 1;
    let mut games: Vec<(String, u32, Vec<String>)> = Vec::new();
    let mut messages: Vec<String> = Vec::new();
    let mut names = Mapping::new();
    let ghost docs = value_views(documents@);
    let ghost mut traces: Seq<Trace> = Seq::empty();
    assert(game_views(games@) =~= Seq::empty());
    assert(texts(messages@) =~= Seq::empty());
    assert(names@ =~= Seq::empty());
    let mut i: usize = 0;
    while i < documents.len()
        invariant
            i <= documents.len(),
            documents.len() == docs.len(),
            docs == value_views(old(documents)@),
            docs.len() < u32::MAX,
            single == (docs.len() == 1),
            traces.len() == i,
            forall|j: int|
                0 <= j < i ==> traced(table@, name@, texts(valid@), docs[j], #[trigger] traces[j]),
            forall|j: int|
                0 <= j < i ==> (#[trigger] documents@[j])@ == doc_after(
                    traces[j],
                    name_at(name@, j, single),
                ),
            forall|j: int| i <= j < documents.len() ==> (#[trigger] documents@[j])@ == docs[j],
            game_views(games@) == games_after(traces),
            texts(messages@) == messages_after(traces, name@),
            names@ == names_after(traces, name@, single),
            forall|j: int| 0 <= j < games.len() ==> (#[trigger] games@[j]).1 <= i,
        decreases documents.len() - i,
    {
        let mut new_name = String::from_str(name);
        if !single {
            new_name.append(unsigned_text((i + 1) as u64).as_str());
        }
        assert(new_name@ =~= name_at(name@, i as int, single));
        let ghost counted = game_views(games@);
        assert forall|j: int| 0 <= j < counted.len() implies (#[trigger] counted[j]).count <= i by {
            assert(counted[j] == game_view(games@[j]));
        }
        match clean_document(
            &mut documents[i],
            table,
            name,
            new_name.as_str(),
            valid,
            &mut games,
            &mut messages,
            &mut names,
        ) {
            Ok(u) => {
                proof {
                    let t = choose|t: Trace|
                        #[trigger] traced(table@, name@, texts(valid@), docs[i as int], t)
                            && documents@[i as int]@ == doc_after(t, new_name@) && game_views(
                            games@,
                        ) == games_with(counted, t) && texts(messages@) == messages_with(
                            messages_after(traces, name@),
                            name@,
                            t,
                        ) && names@ == names_with(
                            names_after(traces, name@, single),
                            new_name@,
                            t,
                        );
                    let longer = traces.push(t);
                    assert(longer.drop_last() =~= traces);
                    assert(longer.last() == t);
                    match t.game {
                        Some(ValueView::Str(game)) => {
                            lemma_with_game_counts(counted, game, t.notes, i as int);
                        },
                        _ => {},
                    }
                    assert forall|j: int| 0 <= j < games.len() implies (#[trigger] games@[j]).1
                        <= i + 1 by {
                        assert(game_views(games@)[j] == game_view(games@[j]));
                    }
                    traces = longer;
                }
            },
            Err(e) => {
                assert(doc_fails(table@, name@, texts(valid@), docs[traces.len() as int], e));
                return Err(e);
            },
        }
        i += 1;
    }
    let ghost before = value_views(documents@);
    rename_plando_worlds(&names, documents);
    let n = documents.len();
    if n > 8 {
        let mut text = String::from_str("contains ");
        text.append(unsigned_text(n as u64).as_str());
        text.append(" games.");
        say(&mut messages, name, text.as_str());
    }
    let r: Result<Processed, ProcessError> = Ok(Processed { games, messages });
    assert(processed(
        table@,
        name@,
        texts(valid@),
        docs,
        traces,
        value_views(documents@),
        game_views(r->Ok_0.games@),
        texts(r->Ok_0.messages@),
    ));
    r
}

/// The game that a document names under `game`, if it is a mapping that
/// names one.
pub open spec fn named_game(doc: ValueView) -> Option<ValueView> {
    match doc {
        ValueView::Mapping(top) => lookup(top, game_key()),
        _ => None,
    }
}

/// Whether `t` is a trace of going through `doc` once more: the game is the
/// one that the document names, it is a text where there is one, and the
/// steps of that game may leave what the trace says.
pub open spec fn retraced(
    table: Seq<(String, Vec<Step>)>,
    name: Seq<char>,
    doc: ValueView,
    t: Trace,
) -> bool {
    t.game == named_game(doc) && t.chosen == doc && match t.game {
        Some(ValueView::Str(game)) => handled(
            doc,
            ValueView::Str(game),
            name,
            steps_in(table, game, 0),
            t.stepped,
            t.notes,
            t.messages,
        ),
        Some(other) => false,
        None => t.stepped == doc && t.notes.len() == 0 && t.messages.len() == 0,
    }
}

/// Whether going through `doc` once more may end in the error `e`: the game
/// that it names is no text, or a step of the game cannot be taken.
pub open spec fn doc_fails_again(
    table: Seq<(String, Vec<Step>)>,
    name: Seq<char>,
    doc: ValueView,
    e: ProcessError,
) -> bool {
    match e {
        ProcessError::EmptyDistribution => exists|game: Seq<char>, gone: ValueView|
            named_game(doc) == Some(ValueView::Str(game)) && #[trigger] given_up(
                doc,
                ValueView::Str(game),
                name,
                steps_in(table, game, 0),
                gone,
            ),
        ProcessError::GameNotText => named_game(doc) matches Some(game) && !(game is Str),
    }
}

/// The messages after the document of a trace was gone through once more:
/// those of its steps, and one more for the one game that is told of.
pub open spec fn messages_again(messages: Seq<Seq<char>>, name: Seq<char>, t: Trace) -> Seq<
    Seq<char>,
> {
    match t.game {
        Some(ValueView::Str(game)) => if game == "Chrono Trigger Jets of Time"@ {
            (messages + t.messages).push(message_on(name, "contains a "@ + game))
        } else {
            messages + t.messages
        },
        _ => messages + t.messages,
    }
}

/// The messages of the documents of these traces, gone through once more.
pub open spec fn messages_after_again(traces: Seq<Trace>, name: Seq<char>) -> Seq<Seq<char>>
    decreases traces.len(),
{
    if traces.len() == 0 {
        Seq::empty()
    } else {
        messages_again(messages_after_again(traces.drop_last(), name), name, traces.last())
    }
}

/// Whether `after`, `games` and `messages` are what going through `docs`
/// once more with the traces `traces` gives: each trace is one of its
/// document, each document is what the steps of its game left of it, and the
/// games and messages are those of the traces.
pub open spec fn reprocessed(
    table: Seq<(String, Vec<Step>)>,
    name: Seq<char>,
    docs: Seq<ValueView>,
    traces: Seq<Trace>,
    after: Seq<ValueView>,
    games: Seq<GameView>,
    messages: Seq<Seq<char>>,
) -> bool {
    &&& traces.len() == docs.len()
    &&& after.len() == docs.len()
    &&& forall|i: int| 0 <= i < docs.len() ==> retraced(table, name, docs[i], #[trigger] traces[i])
    &&& forall|i: int| 0 <= i < docs.len() ==> #[trigger] after[i] == traces[i].stepped
    &&& games == games_after(traces)
    &&& messages == file_messages(messages_after_again(traces, name), name, docs.len() as int)
}

/// Whether going through `docs` once more may end in the error `e`: there
/// are traces of the documents before one that fails with it.
pub open spec fn stopped_again(
    table: Seq<(String, Vec<Step>)>,
    name: Seq<char>,
    docs: Seq<ValueView>,
    e: ProcessError,
) -> bool {
    exists|traces: Seq<Trace>|
        traces.len() < docs.len() && (forall|i: int|
            0 <= i < traces.len() ==> retraced(table, name, docs[i], #[trigger] traces[i]))
            && #[trigger] doc_fails_again(table, name, docs[traces.len() as int], e)
}

/// Goes through one document once more: see `retraced` and
/// `doc_fails_again`.
fn refresh_document(
    doc: &mut Value,
    table: &Vec<(String, Vec<Step>)>,
    name: &str,
    games: &mut Vec<(String, u32, Vec<String>)>,
    messages: &mut Vec<String>,
) -> (r: Result<(), ProcessError>)
    requires
        forall|j: int| 0 <= j < old(games).len() ==> (#[trigger] old(games)@[j]).1 < u32::MAX,
    ensures
        match r {
            Ok(u) => exists|t: Trace|
                #[trigger] retraced(table@, name@, old(doc)@, t) && final(doc)@ == t.stepped
                    && game_views(final(games)@) == games_with(game_views(old(games)@), t)
                    && texts(final(messages)@) == messages_again(
                    texts(old(messages)@),
                    name@,
                    t,
                ),
            Err(e) => doc_fails_again(table@, name@, old(doc)@, e),
        },
{
    let ghost told_before = texts(messages@);
    let named = match &*doc {
        Value::Mapping(top) => match top.get(&Value::string("game")) {
            Some(game) => Some(game.duplicate()),
            None => None,
        },
        _ => None,
    };
    assert(owned_view(named) == named_game(doc@));
    let ghost mut t = Trace {
        game: None,
        chosen: doc@,
        stepped: doc@,
        notes: Seq::empty(),
        messages: Seq::empty(),
    };
    match &named {
        Some(game) => {
            let game_name = match text_in(game) {
                Some(game_name) => game_name,
                None => {
                    return Err(ProcessError::GameNotText);
                },
            };
            match handle_document(doc, game, &game_name, table, name, games, messages) {
                Ok(u) => {},
                Err(e) => {
                    assert(given_up(
                        old(doc)@,
                        ValueView::Str(game_name@),
                        name@,
                        steps_in(table@, game_name@, 0),
                        doc@,
                    ));
                    return Err(ProcessError::EmptyDistribution);
                },
            }
            proof {
                let (notes, told) = choose|notes: Seq<Seq<char>>, told: Seq<Seq<char>>|
                    #[trigger] handled(
                        old(doc)@,
                        game@,
                        name@,
                        steps_in(table@, game_name@, 0),
                        doc@,
                        notes,
                        told,
                    ) && game_views(games@) == with_game(
                        game_views(old(games)@),
                        game_name@,
                        notes,
                    ) && texts(messages@) == told_before + told;
                t = Trace {
                    game: Some(game@),
                    chosen: old(doc)@,
                    stepped: doc@,
                    notes,
                    messages: told,
                };
            }
            if game_name == String::from_str("Chrono Trigger Jets of Time") {
                let mut text = String::from_str("contains a ");
                text.append(game_name.as_str());
                say(messages, name, text.as_str());
            }
        },
        None => {
            assert(texts(messages@) =~= told_before + Seq::<Seq<char>>::empty());
        },
    }
    assert(retraced(table@, name@, old(doc)@, t));
    Ok(())
}

/// Goes through the documents of a file that was gone through before: takes
/// the steps that `table` has for the game that each document names.
/// Returns the games of the file and what there is to tell the user: see
/// `reprocessed`.
///
/// The first document whose game is no text, or for which a step cannot be
/// taken, ends the run with its error: see `stopped_again`.
pub fn reprocess_documents(
    documents: &mut Vec<Value>,
    table: &Vec<(String, Vec<Step>)>,
    name: &str,
) -> (r: Result<Processed, ProcessError>)
    requires
        old(documents).len() < u32::MAX,
    ensures
        match r {
            Ok(out) => exists|traces: Seq<Trace>|
                #[trigger] reprocessed(
                    table@,
                    name@,
                    value_views(old(documents)@),
                    traces,
                    value_views(final(documents)@),
                    game_views(out.games@),
                    texts(out.messages@),
                ),
            Err(e) => stopped_again(table@, name@, value_views(old(documents)@), e),
        },
{
    let mut games: Vec<(String, u32, Vec<String>)> = Vec::new();
    let mut messages: Vec<String> = Vec::new();
    let ghost docs = value_views(documents@);
    let ghost mut traces: Seq<Trace> = Seq::empty();
    assert(game_views(games@) =~= Seq::empty());
    assert(texts(messages@) =~= Seq::empty());
    let mut i: usize = 0;
    while i < documents.len()
        invariant
            i <= documents.len(),
            documents.len() == docs.len(),
            docs == value_views(old(documents)@),
            docs.len() < u32::MAX,
            traces.len() == i,
            forall|j: int| 0 <= j < i ==> retraced(table@, name@, docs[j], #[trigger] traces[j]),
            forall|j: int| 0 <= j < i ==> (#[trigger] documents@[j])@ == traces[j].stepped,
            forall|j: int| i <= j < documents.len() ==> (#[trigger] documents@[j])@ == docs[j],
            game_views(games@) == games_after(traces),
            texts(messages@) == messages_after_again(traces, name@),
            forall|j: int| 0 <= j < games.len() ==> (#[trigger] games@[j]).1 <= i,
        decreases documents.len() - i,
    {
        let ghost counted = game_views(games@);
        assert forall|j: int| 0 <= j < counted.len() implies (#[trigger] counted[j]).count <= i by {
            assert(counted[j] == game_view(games@[j]));
        }
        match refresh_document(&mut documents[i], table, name, &mut games, &mut messages) {
            Ok(u) => {
                proof {
                    let t = choose|t: Trace|
                        #[trigger] retraced(table@, name@, docs[i as int], t)
                            && documents@[i as int]@ == t.stepped && game_views(games@)
                            == games_with(counted, t) && texts(messages@) == messages_again(
                            messages_after_again(traces, name@),
                            name@,
                            t,
                        );
                    let longer = traces.push(t);
                    assert(longer.drop_last() =~= traces);
                    assert(longer.last() == t);
                    match t.game {
                        Some(ValueView::Str(game)) => {
                            lemma_with_game_counts(counted, game, t.notes, i as int);
                        },
                        _ => {},
                    }
                    assert forall|j: int| 0 <= j < games.len() implies (#[trigger] games@[j]).1
                        <= i + 1 by {
                        assert(game_views(games@)[j] == game_view(games@[j]));
                    }
                    traces = longer;
                }
            },
            Err(e) => {
                assert(doc_fails_again(table@, name@, docs[traces.len() as int], e));
                return Err(e);
            },
        }
        i += 1;
    }
    let n = documents.len();
    if n > 8 {
        let mut text = String::from_str("contains ");
        text.append(unsigned_text(n as u64).as_str());
        text.append(" games.");
        say(&mut messages, name, text.as_str());
    }
    let r: Result<Processed, ProcessError> = Ok(Processed { games, messages });
    assert(reprocessed(
        table@,
        name@,
        docs,
        traces,
        value_views(documents@),
        game_views(r->Ok_0.games@),
        texts(r->Ok_0.messages@),
    ));
    r
}

} // verus!
