//! Items and locations that got new names, game by game.
//!
//! The names come in a table of lines. A line `game X` opens the names of the
//! game X, a line `items` or `locations` says what the lines after it name,
//! and a line with a tab gives an old name before the tab and the new name
//! after it.

use crate::text::{
    chars_of, is_space, is_space_char, same_chars, skip_space, slice_of, split_lines, lines_of,
    rows, index_of_from, string_of,
};
use vstd::prelude::*;

verus! {

/// Old names with their new names. A name that was given twice has the new
/// name that was given last.
pub struct NameMap {
    pub pairs: Vec<(String, String)>,
}

/// What a pair of strings holds.
pub open spec fn pair_text(p: (String, String)) -> (Seq<char>, Seq<char>) {
    (p.0@, p.1@)
}

impl View for NameMap {
    type V = Seq<(Seq<char>, Seq<char>)>;

    open spec fn view(&self) -> Seq<(Seq<char>, Seq<char>)> {
        self.pairs@.map_values(|p: (String, String)| pair_text(p))
    }
}

/// The new name of `from` among the first `n` pairs: that of the last pair
/// that names `from`.
pub open spec fn renamed_to(names: Seq<(Seq<char>, Seq<char>)>, from: Seq<char>, n: int) -> Option<
    Seq<char>,
>
    decreases n,
{
    if n <= 0 || n > names.len() {
        None
    } else if names[n - 1].0 == from {
        Some(names[n - 1].1)
    } else {
        renamed_to(names, from, n - 1)
    }
}

/// The new name of `from`, if it has one.
pub open spec fn new_name_of(names: Seq<(Seq<char>, Seq<char>)>, from: Seq<char>) -> Option<
    Seq<char>,
> {
    renamed_to(names, from, names.len() as int)
}

fn same_text(a: &str, b: &str) -> (r: bool)
    ensures
        r == (a@ == b@),
{
    same_chars(&chars_of(a), &chars_of(b))
}

impl NameMap {
    /// No names.
    pub fn new() -> (r: NameMap)
        ensures
            r@ == Seq::<(Seq<char>, Seq<char>)>::empty(),
    {
        let r = NameMap { pairs: Vec::new() };
        assert(r@ =~= Seq::empty());
        r
    }

    /// Gives `from` the new name `to`.
    pub fn insert(&mut self, from: String, to: String)
        ensures
            final(self)@ == old(self)@.push((from@, to@)),
    {
        let ghost before = self@;
        self.pairs.push((from, to));
        assert(self@ =~= before.push((from@, to@)));
    }

    /// The new name of `from`, if it has one.
    pub fn get(&self, from: &str) -> (r: Option<&String>)
        ensures
            match r {
                Some(to) => new_name_of(self@, from@) == Some(to@),
                None => new_name_of(self@, from@) is None,
            },
    {
        let mut n: usize = self.pairs.len();
        while n > 0
            invariant
                n <= self.pairs.len(),
                renamed_to(self@, from@, n as int) == new_name_of(self@, from@),
            decreases n,
        {
            assert(self@[n - 1] == pair_text(self.pairs@[n - 1]));
            if same_text(self.pairs[n - 1].0.as_str(), from) {
                return Some(&self.pairs[n - 1].1);
            }
            n -= 1;
        }
        None
    }
}

/// The new names of one game.
pub struct GameNames {
    pub game: String,
    pub items: NameMap,
    pub locations: NameMap,
}

/// What a `GameNames` holds.
pub struct GameNamesView {
    pub game: Seq<char>,
    pub items: Seq<(Seq<char>, Seq<char>)>,
    pub locations: Seq<(Seq<char>, Seq<char>)>,
}

impl View for GameNames {
    type V = GameNamesView;

    open spec fn view(&self) -> GameNamesView {
        GameNamesView { game: self.game@, items: self.items@, locations: self.locations@ }
    }
}

/// The new names of all games. A game that was opened twice has the names
/// that were given when it was opened last.
pub struct Mapping {
    pub games: Vec<GameNames>,
}

impl View for Mapping {
    type V = Seq<GameNamesView>;

    open spec fn view(&self) -> Seq<GameNamesView> {
        self.games@.map_values(|g: GameNames| g@)
    }
}

/// The names of `game` among the first `n` games: those of the last that has
/// that name.
pub open spec fn names_upto(games: Seq<GameNamesView>, game: Seq<char>, n: int) -> Option<
    GameNamesView,
>
    decreases n,
{
    if n <= 0 || n > games.len() {
        None
    } else if games[n - 1].game == game {
        Some(games[n - 1])
    } else {
        names_upto(games, game, n - 1)
    }
}

/// The names of `game`, if there are any.
pub open spec fn names_of(games: Seq<GameNamesView>, game: Seq<char>) -> Option<GameNamesView> {
    names_upto(games, game, games.len() as int)
}

impl Mapping {
    /// The names of `game`, if there are any.
    pub fn get(&self, game: &str) -> (r: Option<&GameNames>)
        ensures
            match r {
                Some(g) => names_of(self@, game@) == Some(g@),
                None => names_of(self@, game@) is None,
            },
    {
        let mut n: usize = self.games.len();
        while n > 0
            invariant
                n <= self.games.len(),
                names_upto(self@, game@, n as int) == names_of(self@, game@),
            decreases n,
        {
            assert(self@[n - 1] == self.games@[n - 1]@);
            if same_text(self.games[n - 1].game.as_str(), game) {
                return Some(&self.games[n - 1]);
            }
            n -= 1;
        }
        None
    }
}

/// The end of `s` without the white space at its end: the index after the
/// last character, before `to`, that is no white space.
pub open spec fn back_space(s: Seq<char>, to: int) -> int
    decreases to,
{
    if 0 < to <= s.len() && is_space_char(s[to - 1]) {
        back_space(s, to - 1)
    } else {
        to
    }
}

/// `s` without the white space at its start and at its end.
pub open spec fn trimmed(s: Seq<char>) -> Seq<char> {
    let start = skip_space(s, 0);
    let end = back_space(s, s.len() as int);
    if start < end {
        s.subrange(start, end)
    } else {
        Seq::empty()
    }
}

/// Whether `s` starts with `p`.
pub open spec fn has_prefix(s: Seq<char>, p: Seq<char>) -> bool {
    p.len() <= s.len() && s.take(p.len() as int) == p
}

/// The two parts of `s` around its first tab, if it has one.
pub open spec fn tab_split(s: Seq<char>) -> Option<(Seq<char>, Seq<char>)> {
    let t = index_of_from(s, '\t', 0);
    if 0 <= t < s.len() {
        Some((s.take(t), s.skip(t + 1)))
    } else {
        None
    }
}

/// How far a table of names has been read.
pub struct Loading {
    /// Whether a game was opened.
    pub started: bool,
    /// The game that is open.
    pub game: Seq<char>,
    /// Whether the lines name items.
    pub items: bool,
    /// Whether the lines name locations.
    pub locations: bool,
    /// The item names of the open game.
    pub item_names: Seq<(Seq<char>, Seq<char>)>,
    /// The location names of the open game.
    pub location_names: Seq<(Seq<char>, Seq<char>)>,
    /// The games that are closed.
    pub games: Seq<GameNamesView>,
    /// The number of the first line that gave a name before any game was
    /// opened, counted from zero.
    pub failed: Option<int>,
}

/// The state before the first line.
pub open spec fn loading_start() -> Loading {
    Loading {
        started: false,
        game: Seq::empty(),
        items: false,
        locations: false,
        item_names: Seq::empty(),
        location_names: Seq::empty(),
        games: Seq::empty(),
        failed: None,
    }
}

/// The open game, as a closed one.
pub open spec fn open_game(st: Loading) -> GameNamesView {
    GameNamesView { game: st.game, items: st.item_names, locations: st.location_names }
}

/// The state with one more pair of names: among the items where the lines
/// name items, among the locations where they name locations.
pub open spec fn with_pair(st: Loading, pair: (Seq<char>, Seq<char>)) -> Loading {
    Loading {
        item_names: if st.items {
            st.item_names.push(pair)
        } else {
            st.item_names
        },
        location_names: if st.locations {
            st.location_names.push(pair)
        } else {
            st.location_names
        },
        ..st
    }
}

/// The state after what the line says by its first word.
pub open spec fn after_word(st: Loading, line: Seq<char>) -> Loading {
    if has_prefix(line, "game "@) {
        Loading {
            started: true,
            game: line.skip("game "@.len() as int),
            items: false,
            locations: false,
            item_names: Seq::empty(),
            location_names: Seq::empty(),
            games: if st.started {
                st.games.push(open_game(st))
            } else {
                st.games
            },
            failed: None,
        }
    } else if line == "items"@ {
        Loading { items: true, ..st }
    } else if line == "locations"@ {
        Loading { locations: true, ..st }
    } else if has_prefix(line, "addexact "@) && st.started {
        match tab_split(line.skip("addexact "@.len() as int)) {
            Some(pair) => with_pair(st, pair),
            None => st,
        }
    } else {
        st
    }
}

/// The state after line number `i`. A line of white space says nothing. Any
/// other line is read by its first word, and then, where it has a tab, as a
/// pair of names for the open game. A line before the first game fails the
/// reading, and nothing is read after that.
pub open spec fn load_line(st: Loading, i: int, raw: Seq<char>) -> Loading {
    let line = trimmed(raw);
    if st.failed is Some || line.len() == 0 {
        st
    } else {
        let st1 = after_word(st, line);
        if !st1.started {
            Loading { failed: Some(i), ..st1 }
        } else {
            match tab_split(line) {
                Some(pair) => with_pair(st1, pair),
                None => st1,
            }
        }
    }
}

/// The state after all of `lines`.
pub open spec fn load_lines(lines: Seq<Seq<char>>) -> Loading
    decreases lines.len(),
{
    if lines.len() == 0 {
        loading_start()
    } else {
        load_line(load_lines(lines.drop_last()), lines.len() - 1, lines.last())
    }
}

/// What a table of names holds: the games in the order in which they were
/// opened, or the number of the line that failed the reading.
pub open spec fn loaded(data: Seq<char>) -> Result<Seq<GameNamesView>, int> {
    let st = load_lines(lines_of(data));
    match st.failed {
        Some(i) => Err(i),
        None => Ok(
            if st.started {
                st.games.push(open_game(st))
            } else {
                st.games
            },
        ),
    }
}

/// The reading, in executable form.
struct Loader {
    started: bool,
    game: Vec<char>,
    items: bool,
    locations: bool,
    item_names: NameMap,
    location_names: NameMap,
    games: Mapping,
    failed: Option<usize>,
}

spec fn failed_view(f: Option<usize>) -> Option<int> {
    match f {
        Some(i) => Some(i as int),
        None => None,
    }
}

impl View for Loader {
    type V = Loading;

    closed spec fn view(&self) -> Loading {
        Loading {
            started: self.started,
            game: self.game@,
            items: self.items,
            locations: self.locations,
            item_names: self.item_names@,
            location_names: self.location_names@,
            games: self.games@,
            failed: failed_view(self.failed),
        }
    }
}

fn all_of(chars: &Vec<char>) -> (r: String)
    ensures
        r@ == chars@,
{
    let r = string_of(chars, 0, chars.len());
    assert(chars@.subrange(0, chars.len() as int) =~= chars@);
    r
}

fn trim(raw: &Vec<char>) -> (r: Vec<char>)
    ensures
        r@ == trimmed(raw@),
{
    let mut a: usize = 0;
    while a < raw.len() && is_space(raw[a])
        invariant
            a <= raw.len(),
            skip_space(raw@, a as int) == skip_space(raw@, 0),
        decreases raw.len() - a,
    {
        a += 1;
    }
    let mut b: usize = raw.len();
    while b > 0 && is_space(raw[b - 1])
        invariant
            b <= raw.len(),
            back_space(raw@, b as int) == back_space(raw@, raw.len() as int),
        decreases b,
    {
        b -= 1;
    }
    if a < b {
        slice_of(raw, a, b)
    } else {
        Vec::new()
    }
}

fn starts_with(line: &Vec<char>, prefix: &Vec<char>) -> (r: bool)
    ensures
        r == has_prefix(line@, prefix@),
{
    if prefix.len() > line.len() {
        return false;
    }
    let head = slice_of(line, 0, prefix.len());
    assert(line@.subrange(0, prefix.len() as int) =~= line@.take(prefix.len() as int));
    same_chars(&head, prefix)
}

fn split_at_tab(s: &Vec<char>, from: usize) -> (r: Option<(String, String)>)
    requires
        from <= s.len(),
    ensures
        match r {
            Some(p) => tab_split(s@.skip(from as int)) == Some(pair_text(p)),
            None => tab_split(s@.skip(from as int)) is None,
        },
{
    let ghost part = s@.skip(from as int);
    let mut t: usize = from;
    while t < s.len() && s[t] != '\t'
        invariant
            from <= t <= s.len(),
            part == s@.skip(from as int),
            index_of_from(part, '\t', t - from) == index_of_from(part, '\t', 0),
        decreases s.len() - t,
    {
        t += 1;
    }
    if t < s.len() {
        let before = string_of(s, from, t);
        let after = string_of(s, t + 1, s.len());
        assert(s@.subrange(from as int, t as int) =~= part.take(t - from));
        assert(s@.subrange(t + 1, s.len() as int) =~= part.skip(t - from + 1));
        Some((before, after))
    } else {
        None
    }
}

impl Loader {
    fn add(&mut self, pair: (String, String))
        ensures
            final(self)@ == with_pair(old(self)@, pair_text(pair)),
    {
        if self.items {
            self.item_names.insert(pair.0.clone(), pair.1.clone());
        }
        if self.locations {
            self.location_names.insert(pair.0, pair.1);
        }
    }

    fn close_game(&mut self)
        requires
            old(self).started,
        ensures
            final(self).games@ == old(self).games@.push(open_game(old(self)@)),
            final(self).started == old(self).started,
            final(self).items == old(self).items,
            final(self).locations == old(self).locations,
            final(self).failed == old(self).failed,
    {
        let mut items = NameMap::new();
        let mut locations = NameMap::new();
        std::mem::swap(&mut items, &mut self.item_names);
        std::mem::swap(&mut locations, &mut self.location_names);
        let done = GameNames { game: all_of(&self.game), items, locations };
        let ghost before = self.games@;
        self.games.games.push(done);
        assert(self.games@ =~= before.push(done@));
    }

    fn word(&mut self, line: &Vec<char>)
        requires
            old(self).failed is None,
        ensures
            final(self)@ == after_word(old(self)@, line@),
    {
        let game_word = chars_of("game ");
        let add_word = chars_of("addexact ");
        if starts_with(line, &game_word) {
            if self.started {
                self.close_game();
            }
            self.started = true;
            self.game = slice_of(line, game_word.len(), line.len());
            assert(line@.subrange(game_word.len() as int, line.len() as int) =~= line@.skip(
                game_word.len() as int,
            ));
            self.items = false;
            self.locations = false;
            self.item_names = NameMap::new();
            self.location_names = NameMap::new();
        } else if same_chars(line, &chars_of("items")) {
            self.items = true;
        } else if same_chars(line, &chars_of("locations")) {
            self.locations = true;
        } else if starts_with(line, &add_word) && self.started {
            match split_at_tab(line, add_word.len()) {
                Some(pair) => {
                    self.add(pair);
                },
                None => {},
            }
        }
    }

    fn step(&mut self, i: usize, raw: &Vec<char>)
        ensures
            final(self)@ == load_line(old(self)@, i as int, raw@),
    {
        let line = trim(raw);
        if self.failed.is_some() || line.len() == 0 {
            return ;
        }
        self.word(&line);
        if !self.started {
            self.failed = Some(i);
        } else {
            assert(line@.skip(0) =~= line@);
            match split_at_tab(&line, 0) {
                Some(pair) => {
                    self.add(pair);
                },
                None => {},
            }
        }
    }
}

/// What the result of `load_name_mapping` holds.
pub open spec fn loaded_view(r: Result<Mapping, usize>) -> Result<Seq<GameNamesView>, int> {
    match r {
        Ok(m) => Ok(m@),
        Err(i) => Err(i as int),
    }
}

/// Reads a table of names: see `loaded`. Where a line gives a name before
/// any game was opened, the number of the first such line comes back,
/// counted from zero.
pub fn load_name_mapping(data: &str) -> (r: Result<Mapping, usize>)
    ensures
        loaded_view(r) == loaded(data@),
{
    let chars = chars_of(data);
    let lines = split_lines(&chars);
    let mut loader = Loader {
        started: false,
        game: Vec::new(),
        items: false,
        locations: false,
        item_names: NameMap::new(),
        location_names: NameMap::new(),
        games: Mapping { games: Vec::new() },
        failed: None,
    };
    assert(loader.games@ =~= Seq::empty());
    let mut i: usize = 0;
    assert(rows(lines@).take(0) =~= Seq::empty());
    while i < lines.len()
        invariant
            i <= lines.len(),
            loader@ == load_lines(rows(lines@).take(i as int)),
        decreases lines.len() - i,
    {
        loader.step(i, &lines[i]);
        proof {
            let upto = rows(lines@).take(i as int + 1);
            assert(upto.drop_last() =~= rows(lines@).take(i as int));
            assert(upto.last() == lines@[i as int]@);
        }
        i += 1;
    }
    assert(rows(lines@).take(lines.len() as int) =~= rows(lines@));
    match loader.failed {
        Some(at) => Err(at),
        None => {
            if loader.started {
                loader.close_game();
            }
            Ok(loader.games)
        },
    }
}

} // verus!
