//! Which game a settings document is for.
//!
//! A document names its game under the key `game`: as one name, or as a
//! distribution over names from which one is drawn. Where the organiser has
//! a list of valid games and the distribution holds one of them with a
//! weight above zero, only valid games are drawn.

use crate::comments::texts;
use crate::notes::option_renamed;
use crate::scalar::{as_i64, parsed_scalar, weight_of};
use crate::select::{pick_index, sum_weights, DrawError};
use crate::text::{chars_of, same_chars};
use crate::value::{lookup, pair_views, with_value, Mapping, Value, ValueView};
use vstd::prelude::*;

verus! {

/// The key under which a document names its game.
pub open spec fn game_key() -> ValueView {
    ValueView::Str("game"@)
}

/// The name that a game goes by now: one game has had two other names.
pub open spec fn current_name(name: Seq<char>) -> Seq<char> {
    if name == "Pok\u{e9}Park Wii: Pikachu's Adventure [JP]"@ || name == "Pok\u{e9}Park"@ {
        "PokePark"@
    } else {
        name
    }
}

/// A game to draw: its name and its weight.
pub struct Candidate {
    pub name: Seq<char>,
    pub weight: i64,
}

/// The games that the first `n` entries of a distribution offer: the
/// entries with a string for the name and a number for the weight, each
/// under the name that the game goes by now.
pub open spec fn candidates(entries: Seq<(ValueView, ValueView)>, n: int) -> Seq<Candidate>
    decreases n,
{
    if n <= 0 || n > entries.len() {
        Seq::empty()
    } else {
        match (entries[n - 1].0, weight_of(entries[n - 1].1)) {
            (ValueView::Str(name), Some(w)) => candidates(entries, n - 1).push(
                Candidate { name: current_name(name), weight: w },
            ),
            _ => candidates(entries, n - 1),
        }
    }
}

/// Whether a valid game can be drawn.
pub open spec fn any_valid(games: Seq<Candidate>, valid: Seq<Seq<char>>) -> bool {
    exists|i: int|
        0 <= i < games.len() && (#[trigger] games[i]).weight > 0 && valid.contains(games[i].name)
}

/// The valid games among the first `n`.
pub open spec fn only_valid(games: Seq<Candidate>, valid: Seq<Seq<char>>, n: int) -> Seq<
    Candidate,
>
    decreases n,
{
    if n <= 0 || n > games.len() {
        Seq::empty()
    } else if valid.contains(games[n - 1].name) {
        only_valid(games, valid, n - 1).push(games[n - 1])
    } else {
        only_valid(games, valid, n - 1)
    }
}

/// The games that are drawn from: the valid ones where one of them can be
/// drawn, else all.
pub open spec fn offered(entries: Seq<(ValueView, ValueView)>, valid: Seq<Seq<char>>) -> Seq<
    Candidate,
> {
    let all = candidates(entries, entries.len() as int);
    if any_valid(all, valid) {
        only_valid(all, valid, all.len() as int)
    } else {
        all
    }
}

/// The weights of the games.
pub open spec fn weights_of(games: Seq<Candidate>) -> Seq<i64> {
    games.map_values(|c: Candidate| c.weight)
}

/// The entries of a document with the options of the one game under the
/// name that the game goes by now.
pub open spec fn top_renamed(top: Seq<(ValueView, ValueView)>) -> Seq<(ValueView, ValueView)> {
    option_renamed(
        option_renamed(
            top,
            ValueView::Str("Pok\u{e9}Park Wii: Pikachu's Adventure [JP]"@),
            ValueView::Str("PokePark"@),
        ),
        ValueView::Str("Pok\u{e9}Park"@),
        ValueView::Str("PokePark"@),
    )
}

/// What `choose_game` may give for a document and leave of it. A document
/// that is no mapping stays as it is and gives no game. In any other the
/// options of the one game that has had other names go under its name of
/// now. Then a name under `game` gives the scalar that the name of now
/// reads as; a distribution gives what the name of one of the games that it
/// offers with a weight above zero reads as, or an error where their weights
/// do not sum up to more than zero; and what was chosen takes the place of
/// what stood under `game`. Anything else under `game`, or nothing, gives
/// no game.
pub open spec fn game_chosen(
    before: ValueView,
    valid: Seq<Seq<char>>,
    r: Result<Option<ValueView>, DrawError>,
    after: ValueView,
) -> bool {
    match before {
        ValueView::Mapping(top0) => {
            let top = top_renamed(top0);
            match lookup(top, game_key()) {
                Some(ValueView::Mapping(games)) => match r {
                    Ok(Some(g)) => sum_weights(weights_of(offered(games, valid))) > 0 && after
                        == ValueView::Mapping(with_value(top, game_key(), g)) && exists|i: int|
                        0 <= i < offered(games, valid).len() && (#[trigger] offered(
                            games,
                            valid,
                        )[i]).weight > 0 && g == parsed_scalar(offered(games, valid)[i].name),
                    Ok(None) => false,
                    Err(e) => sum_weights(weights_of(offered(games, valid))) <= 0 && after
                        == ValueView::Mapping(top),
                },
                Some(ValueView::Str(name)) => r == Ok::<Option<ValueView>, DrawError>(
                    Some(parsed_scalar(current_name(name))),
                ) && after == ValueView::Mapping(
                    with_value(top, game_key(), parsed_scalar(current_name(name))),
                ),
                _ => r == Ok::<Option<ValueView>, DrawError>(None) && after == ValueView::Mapping(
                    top,
                ),
            }
        },
        _ => r == Ok::<Option<ValueView>, DrawError>(None) && after == before,
    }
}

/// What the result of `choose_game` holds.
pub open spec fn chosen_view(r: Result<Option<Value>, DrawError>) -> Result<
    Option<ValueView>,
    DrawError,
> {
    match r {
        Ok(Some(v)) => Ok(Some(v@)),
        Ok(None) => Ok(None),
        Err(e) => Err(e),
    }
}

/// Gives the options of the game `from` the name `to`.
pub fn rename_game(hash: &mut Mapping, from: &str, to: &str)
    ensures
        final(hash)@ == option_renamed(old(hash)@, ValueView::Str(from@), ValueView::Str(to@)),
{
    match hash.remove(&Value::string(from)) {
        Some(options) => {
            hash.insert(Value::string(to), options);
        },
        None => {},
    }
}

fn name_of_now(name: &String) -> (r: String)
    ensures
        r@ == current_name(name@),
{
    let chars = chars_of(name.as_str());
    if same_chars(&chars, &chars_of("Pok\u{e9}Park Wii: Pikachu's Adventure [JP]")) || same_chars(
        &chars,
        &chars_of("Pok\u{e9}Park"),
    ) {
        String::from_str("PokePark")
    } else {
        name.clone()
    }
}

fn known(valid: &Vec<String>, game: &String) -> (r: bool)
    ensures
        r == texts(valid@).contains(game@),
{
    let mut i: usize = 0;
    while i < valid.len()
        invariant
            i <= valid.len(),
            forall|j: int| 0 <= j < i ==> texts(valid@)[j] != game@,
        decreases valid.len() - i,
    {
        assert(texts(valid@)[i as int] == valid@[i as int]@);
        if valid[i] == *game {
            assert(texts(valid@).contains(game@));
            return true;
        }
        i += 1;
    }
    false
}

/// The games to draw from, in executable form.
struct Offer {
    names: Vec<String>,
    weights: Vec<i64>,
}

impl View for Offer {
    type V = Seq<Candidate>;

    closed spec fn view(&self) -> Seq<Candidate> {
        Seq::new(
            self.names@.len(),
            |i: int|
                Candidate {
                    name: self.names@[i]@,
                    weight: if 0 <= i < self.weights@.len() {
                        self.weights@[i]
                    } else {
                        0
                    },
                },
        )
    }
}

impl Offer {
    spec fn wf(&self) -> bool {
        self.names@.len() == self.weights@.len()
    }

    fn add(&mut self, name: String, weight: i64)
        requires
            old(self).wf(),
        ensures
            final(self).wf(),
            final(self)@ == old(self)@.push(Candidate { name: name@, weight }),
    {
        let ghost before = self@;
        self.names.push(name);
        self.weights.push(weight);
        assert(self@ =~= before.push(Candidate { name: name@, weight }));
    }
}

fn all_games(games: &Mapping) -> (r: Offer)
    ensures
        r.wf(),
        r@ == candidates(games@, games@.len() as int),
{
    let pairs = games.entries();
    let mut r = Offer { names: Vec::new(), weights: Vec::new() };
    assert(r@ =~= Seq::empty());
    let mut i: usize = 0;
    while i < pairs.len()
        invariant
            i <= pairs.len(),
            pair_views(pairs@) == games@,
            r.wf(),
            r@ == candidates(games@, i as int),
        decreases pairs.len() - i,
    {
        assert(pair_views(pairs@)[i as int] == (pairs@[i as int].0@, pairs@[i as int].1@));
        match pairs[i].0 {
            Value::Str(name) => match as_i64(pairs[i].1) {
                Some(w) => {
                    r.add(name_of_now(name), w);
                },
                None => {},
            },
            _ => {},
        }
        i += 1;
    }
    r
}

fn valid_games(all: &Offer, valid: &Vec<String>) -> (r: Option<Offer>)
    requires
        all.wf(),
    ensures
        match r {
            Some(o) => o.wf() && any_valid(all@, texts(valid@)) && o@ == only_valid(
                all@,
                texts(valid@),
                all@.len() as int,
            ),
            None => !any_valid(all@, texts(valid@)),
        },
{
    let mut r = Offer { names: Vec::new(), weights: Vec::new() };
    assert(r@ =~= Seq::empty());
    let mut found = false;
    let mut i: usize = 0;
    while i < all.names.len()
        invariant
            i <= all.names.len(),
            all.wf(),
            r.wf(),
            r@ == only_valid(all@, texts(valid@), i as int),
            found == (exists|k: int|
                0 <= k < i && (#[trigger] all@[k]).weight > 0 && texts(valid@).contains(
                    all@[k].name,
                )),
        decreases all.names.len() - i,
    {
        assert(all@[i as int].name == all.names@[i as int]@);
        assert(all@[i as int].weight == all.weights@[i as int]);
        let ghost before = found;
        if known(valid, &all.names[i]) {
            if all.weights[i] > 0 {
                found = true;
            }
            r.add(all.names[i].clone(), all.weights[i]);
        }
        proof {
            if found && !before {
                assert(all@[i as int].weight > 0 && texts(valid@).contains(all@[i as int].name));
            }
            if !found {
                assert forall|k: int| 0 <= k < i + 1 implies !((#[trigger] all@[k]).weight > 0
                    && texts(valid@).contains(all@[k].name)) by {
                    if k < i {
                    }
                }
            }
        }
        i += 1;
    }
    if found {
        Some(r)
    } else {
        None
    }
}

/// The game that a draw over the games of a distribution gives.
fn draw_game(games: &Mapping, valid: &Vec<String>) -> (r: Result<Value, DrawError>)
    ensures
        match r {
            Ok(g) => sum_weights(weights_of(offered(games@, texts(valid@)))) > 0 && exists|i: int|
                0 <= i < offered(games@, texts(valid@)).len() && (#[trigger] offered(
                    games@,
                    texts(valid@),
                )[i]).weight > 0 && g@ == parsed_scalar(offered(games@, texts(valid@))[i].name),
            Err(e) => sum_weights(weights_of(offered(games@, texts(valid@)))) <= 0,
        },
{
    let all = all_games(games);
    let offer = match valid_games(&all, valid) {
        Some(o) => o,
        None => all,
    };
    assert(offer@ == offered(games@, texts(valid@)));
    assert(offer.weights@ =~= weights_of(offer@)) by {
        assert forall|k: int| 0 <= k < offer.weights@.len() implies offer.weights@[k]
            == weights_of(offer@)[k] by {
            assert(offer@[k].weight == offer.weights@[k]);
        }
    }
    match pick_index(&offer.weights) {
        Ok(i) => {
            assert(offer@[i as int].weight > 0 && offer@[i as int].name == offer.names@[i as int]@);
            Ok(Value::parse_scalar(offer.names[i].as_str()))
        },
        Err(e) => Err(e),
    }
}

/// Chooses the game of a document and writes it down under the key `game`:
/// see `game_chosen`. `valid` names the valid games; with no valid games
/// every game is drawn from.
pub fn choose_game(doc: &mut Value, valid: &Vec<String>) -> (r: Result<Option<Value>, DrawError>)
    ensures
        game_chosen(old(doc)@, texts(valid@), chosen_view(r), final(doc)@),
{
    let key = Value::string("game");
    let game = match doc {
        Value::Mapping(top) => {
            rename_game(top, "Pok\u{e9}Park Wii: Pikachu's Adventure [JP]", "PokePark");
            rename_game(top, "Pok\u{e9}Park", "PokePark");
            match top.get(&key) {
                Some(Value::Mapping(games)) => match draw_game(games, valid) {
                    Ok(g) => g,
                    Err(e) => {
                        return Err(e);
                    },
                },
                Some(Value::Str(name)) => Value::parse_scalar(name_of_now(name).as_str()),
                _ => {
                    return Ok(None);
                },
            }
        },
        _ => {
            return Ok(None);
        },
    };
    let out = game.duplicate();
    match doc {
        Value::Mapping(top) => {
            match top.get_mut(&key) {
                Some(slot) => {
                    *slot = game;
                },
                None => {},
            }
        },
        _ => {},
    }
    Ok(Some(out))
}

} // verus!
