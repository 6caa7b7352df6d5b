//! The lines that tell the organiser which games a player entered.
//!
//! Nothing is written here: each function returns the text of its line, and
//! with it what there is to tell the user, for the caller to write out.

use crate::comments::texts;
use crate::notes::{decimal_of, join, join_texts, unsigned_text};
use crate::text::{chars_of, same_chars};
use vstd::prelude::*;

verus! {

/// One game of a player: its name, how many times the player entered it,
/// and the notes on it.
pub struct GameView {
    pub game: Seq<char>,
    pub count: int,
    pub notes: Seq<Seq<char>>,
}

/// What one game of a player holds.
pub open spec fn game_view(g: (String, u32, Vec<String>)) -> GameView {
    GameView { game: g.0@, count: g.1 as int, notes: texts(g.2@) }
}

/// What the games of a player hold.
pub open spec fn game_views(games: Seq<(String, u32, Vec<String>)>) -> Seq<GameView> {
    games.map_values(|g: (String, u32, Vec<String>)| game_view(g))
}

/// Whether a game counts for nothing at all.
pub open spec fn is_skipped(game: Seq<char>) -> bool {
    game == "Clique"@
}

/// The points that one game is worth.
pub open spec fn points_for(game: Seq<char>) -> int {
    if game == "Clique"@ || game == "Autopelago"@ || game == "ArchipIDLE"@ || game
        == "Archipelago"@ || game == "APBingo"@ {
        0
    } else if game == "Keymaster's Keep"@ || game == "Stardew Valley"@ {
        2
    } else {
        1
    }
}

/// How many of the first `n` games count: those that are not skipped, up to
/// eight of them.
pub open spec fn counted(games: Seq<GameView>, n: int) -> int
    decreases n,
{
    if n <= 0 || n > games.len() {
        0
    } else if counted(games, n - 1) < 8 && !is_skipped(games[n - 1].game) {
        counted(games, n - 1) + 1
    } else {
        counted(games, n - 1)
    }
}

/// The points of the first `n` games: one to start with, and for each game
/// that counts what it is worth.
pub open spec fn points(games: Seq<GameView>, n: int) -> int
    decreases n,
{
    if n <= 0 || n > games.len() {
        1
    } else if counted(games, n - 1) < 8 && !is_skipped(games[n - 1].game) {
        points(games, n - 1) + points_for(games[n - 1].game)
    } else {
        points(games, n - 1)
    }
}

/// A game with the number of times that it was entered, where that is more
/// than once, after `mark`.
pub open spec fn game_text(g: GameView, mark: Seq<char>) -> Seq<char> {
    if g.count > 1 {
        g.game + mark + decimal_of(g.count)
    } else {
        g.game
    }
}

/// The games of the list, each as `game_text` shows it.
pub open spec fn game_texts(games: Seq<GameView>) -> Seq<Seq<char>> {
    games.map_values(|g: GameView| game_text(g, " *"@))
}

/// The games as one cell of the list: nothing for no game, one game as it
/// is, several in quotation marks with `AND` and a line break between them.
pub open spec fn games_cell(games: Seq<GameView>) -> Seq<char> {
    if games.len() == 0 {
        Seq::empty()
    } else if games.len() == 1 {
        game_text(games[0], " *"@)
    } else {
        "\""@ + join(game_texts(games), " AND\n "@) + "\""@
    }
}

/// The notes of the first `n` games, one line for each game that has notes.
pub open spec fn note_lines(games: Seq<GameView>, n: int) -> Seq<Seq<char>>
    decreases n,
{
    if n <= 0 || n > games.len() {
        Seq::empty()
    } else if games[n - 1].notes.len() > 0 {
        note_lines(games, n - 1).push(join(games[n - 1].notes, ", "@))
    } else {
        note_lines(games, n - 1)
    }
}

/// The notes as one cell of the list, with the tab before it: one line as it
/// is, several in quotation marks with line breaks between them.
pub open spec fn notes_cell(games: Seq<GameView>) -> Seq<char> {
    let lines = note_lines(games, games.len() as int);
    if lines.len() == 0 {
        "\t"@
    } else if lines.len() == 1 {
        "\t"@ + lines[0]
    } else {
        "\t\""@ + join(lines, "\n"@) + "\""@
    }
}

/// The line of the list for one player: the name, the games, the notes and
/// the points, with tabs between them and a line feed at the end.
pub open spec fn list_line(name: Seq<char>, games: Seq<GameView>) -> Seq<char> {
    name + "\t"@ + games_cell(games) + notes_cell(games) + "\t"@ + decimal_of(
        points(games, games.len() as int),
    ) + "\n"@
}

/// Whether `game` is one of `valid`.
pub open spec fn is_valid(valid: Seq<Seq<char>>, game: Seq<char>) -> bool {
    valid.contains(game)
}

/// The games among the first `n` that were entered and are not valid.
pub open spec fn invalid_games(games: Seq<GameView>, valid: Seq<Seq<char>>, n: int) -> Seq<
    Seq<char>,
>
    decreases n,
{
    if n <= 0 || n > games.len() {
        Seq::empty()
    } else if games[n - 1].count > 0 && !is_valid(valid, games[n - 1].game) {
        invalid_games(games, valid, n - 1).push(games[n - 1].game)
    } else {
        invalid_games(games, valid, n - 1)
    }
}

/// What there is to tell the user of the games of one player: which games
/// are not valid, and that there is no game at all.
pub open spec fn list_messages(name: Seq<char>, games: Seq<GameView>, valid: Seq<Seq<char>>) -> Seq<
    Seq<char>,
> {
    let bad = invalid_games(games, valid, games.len() as int);
    let first = if bad.len() == 0 {
        Seq::<Seq<char>>::empty()
    } else if bad.len() == 1 {
        seq!["'"@ + name + ".yaml' contains invalid game: "@ + bad[0]]
    } else {
        seq!["'"@ + name + ".yaml' contains invalid games: ["@ + join(bad, ", "@) + "]"@]
    };
    if games.len() == 0 {
        first.push("'"@ + name + ".yaml' has no game specified"@)
    } else {
        first
    }
}

/// A line to write out, and what there is to tell the user.
pub struct Report {
    /// The text to write.
    pub line: String,
    /// What to tell the user, in order.
    pub messages: Vec<String>,
}

fn is_text(s: &String, word: &str) -> (r: bool)
    ensures
        r == (s@ == word@),
{
    same_chars(&chars_of(s.as_str()), &chars_of(word))
}

fn skipped(game: &String) -> (r: bool)
    ensures
        r == is_skipped(game@),
{
    is_text(game, "Clique")
}

fn worth(game: &String) -> (r: u32)
    ensures
        r == points_for(game@),
        r <= 2,
{
    if is_text(game, "Clique") || is_text(game, "Autopelago") || is_text(game, "ArchipIDLE")
        || is_text(game, "Archipelago") || is_text(game, "APBingo") {
        0
    } else if is_text(game, "Keymaster's Keep") || is_text(game, "Stardew Valley") {
        2
    } else {
        1
    }
}

/// The points of a player: one to start with, and for each of the first
/// eight games that count what the game is worth.
pub fn points_of(games: &[(String, u32, Vec<String>)]) -> (r: u32)
    ensures
        r == points(game_views(games@), games@.len() as int),
{
    let ghost views = game_views(games@);
    let mut count: u32 = 0;
    let mut total: u32 = 1;
    let mut i: usize = 0;
    while i < games.len()
        invariant
            i <= games.len(),
            views == game_views(games@),
            count == counted(views, i as int),
            total == points(views, i as int),
            count <= 8,
            total <= 1 + 2 * count,
        decreases games.len() - i,
    {
        assert(views[i as int] == game_view(games@[i as int]));
        if count < 8 && !skipped(&games[i].0) {
            count += 1;
            total += worth(&games[i].0);
        }
        i += 1;
    }
    total
}

fn one_game(g: &(String, u32, Vec<String>), mark: &str) -> (r: String)
    ensures
        r@ == game_text(game_view(*g), mark@),
{
    let mut r = g.0.clone();
    if g.1 > 1 {
        r.append(mark);
        r.append(unsigned_text(g.1 as u64).as_str());
    }
    r
}

fn games_part(games: &[(String, u32, Vec<String>)]) -> (r: String)
    ensures
        r@ == games_cell(game_views(games@)),
{
    let ghost views = game_views(games@);
    if games.len() == 0 {
        String::new()
    } else if games.len() == 1 {
        assert(views[0] == game_view(games@[0]));
        one_game(&games[0], " *")
    } else {
        let mut parts: Vec<String> = Vec::new();
        let mut i: usize = 0;
        assert(texts(parts@) =~= game_texts(views).take(0));
        while i < games.len()
            invariant
                i <= games.len(),
                views == game_views(games@),
                texts(parts@) == game_texts(views).take(i as int),
            decreases games.len() - i,
        {
            assert(views[i as int] == game_view(games@[i as int]));
            let part = one_game(&games[i], " *");
            let ghost before = texts(parts@);
            parts.push(part);
            assert(texts(parts@) =~= before.push(part@));
            assert(game_texts(views).take(i as int + 1) =~= game_texts(views).take(i as int).push(
                game_texts(views)[i as int],
            ));
            i += 1;
        }
        assert(game_texts(views).take(games.len() as int) =~= game_texts(views));
        let mut r = String::from_str("\"");
        r.append(join_texts(&parts, " AND\n ").as_str());
        r.append("\"");
        r
    }
}

fn notes_part(games: &[(String, u32, Vec<String>)]) -> (r: String)
    ensures
        r@ == notes_cell(game_views(games@)),
{
    let ghost views = game_views(games@);
    let mut lines: Vec<String> = Vec::new();
    let mut i: usize = 0;
    assert(texts(lines@) =~= Seq::empty());
    while i < games.len()
        invariant
            i <= games.len(),
            views == game_views(games@),
            texts(lines@) == note_lines(views, i as int),
        decreases games.len() - i,
    {
        assert(views[i as int] == game_view(games@[i as int]));
        if games[i].2.len() > 0 {
            let line = join_texts(&games[i].2, ", ");
            let ghost before = texts(lines@);
            lines.push(line);
            assert(texts(lines@) =~= before.push(line@));
        }
        i += 1;
    }
    if lines.len() == 0 {
        String::from_str("\t")
    } else if lines.len() == 1 {
        let mut r = String::from_str("\t");
        r.append(lines[0].as_str());
        assert(texts(lines@)[0] == lines@[0]@);
        r
    } else {
        let mut r = String::from_str("\t\"");
        r.append(join_texts(&lines, "\n").as_str());
        r.append("\"");
        r
    }
}

fn known(valid: &Vec<String>, game: &String) -> (r: bool)
    ensures
        r == is_valid(texts(valid@), game@),
{
    let mut i: usize = 0;
    while i < valid.len()
        invariant
            i <= valid.len(),
            forall|j: int| 0 <= j < i ==> texts(valid@)[j] != game@,
        decreases valid.len() - i,
    {
        assert(texts(valid@)[i as int] == valid@[i as int]@);
        if valid[i] == *game {
            assert(texts(valid@).contains(game@));
            return true;
        }
        i += 1;
    }
    false
}

fn messages_of(name: &str, games: &[(String, u32, Vec<String>)], valid: &Vec<String>) -> (r: Vec<
    String,
>)
    ensures
        texts(r@) == list_messages(name@, game_views(games@), texts(valid@)),
{
    let ghost views = game_views(games@);
    let mut bad: Vec<String> = Vec::new();
    let mut i: usize = 0;
    assert(texts(bad@) =~= Seq::empty());
    while i < games.len()
        invariant
            i <= games.len(),
            views == game_views(games@),
            texts(bad@) == invalid_games(views, texts(valid@), i as int),
        decreases games.len() - i,
    {
        assert(views[i as int] == game_view(games@[i as int]));
        if games[i].1 > 0 && !known(valid, &games[i].0) {
            let g = games[i].0.clone();
            let ghost before = texts(bad@);
            bad.push(g);
            assert(texts(bad@) =~= before.push(g@));
        }
        i += 1;
    }
    let mut out: Vec<String> = Vec::new();
    assert(texts(out@) =~= Seq::empty());
    if bad.len() == 1 {
        let mut m = String::from_str("'");
        m.append(name);
        m.append(".yaml' contains invalid game: ");
        m.append(bad[0].as_str());
        assert(texts(bad@)[0] == bad@[0]@);
        let ghost before = texts(out@);
        out.push(m);
        assert(texts(out@) =~= before.push(m@));
    } else if bad.len() > 1 {
        let mut m = String::from_str("'");
        m.append(name);
        m.append(".yaml' contains invalid games: [");
        m.append(join_texts(&bad, ", ").as_str());
        m.append("]");
        let ghost before = texts(out@);
        out.push(m);
        assert(texts(out@) =~= before.push(m@));
    }
    if games.len() == 0 {
        let mut m = String::from_str("'");
        m.append(name);
        m.append(".yaml' has no game specified");
        let ghost before = texts(out@);
        out.push(m);
        assert(texts(out@) =~= before.push(m@));
    }
    out
}

/// The line of the list for the player `name` with the games `games`, and
/// the messages on games that are not among `valid`: see `list_line` and
/// `list_messages`.
pub fn write_to_output_list(
    name: &str,
    games: &[(String, u32, Vec<String>)],
    valid: &Vec<String>,
) -> (r: Report)
    ensures
        r.line@ == list_line(name@, game_views(games@)),
        texts(r.messages@) == list_messages(name@, game_views(games@), texts(valid@)),
{
    let mut line = String::from_str(name);
    line.append("\t");
    line.append(games_part(games).as_str());
    line.append(notes_part(games).as_str());
    line.append("\t");
    line.append(unsigned_text(points_of(games) as u64).as_str());
    line.append("\n");
    Report { line, messages: messages_of(name, games, valid) }
}

/// The games for the list that a program reads: each with the number of
/// times that it was entered.
pub open spec fn counted_texts(games: Seq<GameView>) -> Seq<Seq<char>> {
    games.map_values(|g: GameView| g.game + " x"@ + decimal_of(g.count))
}

/// The notes of the first `n` games, one after the other.
pub open spec fn all_notes(games: Seq<GameView>, n: int) -> Seq<Seq<char>>
    decreases n,
{
    if n <= 0 || n > games.len() {
        Seq::empty()
    } else {
        all_notes(games, n - 1) + games[n - 1].notes
    }
}

/// The four lines for one player that a program reads: the name, the games,
/// the notes and the points.
pub open spec fn bot_lines(name: Seq<char>, games: Seq<GameView>) -> Seq<char> {
    name + "\n"@ + join(counted_texts(games), ", "@) + "\n"@ + join(
        all_notes(games, games.len() as int),
        ", "@,
    ) + "\n"@ + decimal_of(points(games, games.len() as int)) + "\n"@
}

/// The lines for the player `name` that a program reads: see `bot_lines`.
pub fn write_to_bot_output(name: &str, games: &[(String, u32, Vec<String>)]) -> (r: String)
    ensures
        r@ == bot_lines(name@, game_views(games@)),
{
    let ghost views = game_views(games@);
    let mut parts: Vec<String> = Vec::new();
    let mut notes: Vec<String> = Vec::new();
    let mut i: usize = 0;
    assert(texts(parts@) =~= counted_texts(views).take(0));
    assert(texts(notes@) =~= Seq::empty());
    while i < games.len()
        invariant
            i <= games.len(),
            views == game_views(games@),
            texts(parts@) == counted_texts(views).take(i as int),
            texts(notes@) == all_notes(views, i as int),
        decreases games.len() - i,
    {
        assert(views[i as int] == game_view(games@[i as int]));
        let mut part = games[i].0.clone();
        part.append(" x");
        part.append(unsigned_text(games[i].1 as u64).as_str());
        let ghost before = texts(parts@);
        parts.push(part);
        assert(texts(parts@) =~= before.push(part@));
        assert(counted_texts(views).take(i as int + 1) =~= counted_texts(views).take(
            i as int,
        ).push(counted_texts(views)[i as int]));
        let ghost notes_before = texts(notes@);
        let mut j: usize = 0;
        assert(notes_before + texts(games@[i as int].2@).take(0) =~= notes_before);
        while j < games[i].2.len()
            invariant
                i < games.len(),
                j <= games@[i as int].2.len(),
                texts(notes@) == notes_before + texts(games@[i as int].2@).take(j as int),
            decreases games@[i as int].2.len() - j,
        {
            let n = games[i].2[j].clone();
            let ghost sofar = texts(notes@);
            notes.push(n);
            assert(texts(notes@) =~= sofar.push(n@));
            assert(texts(games@[i as int].2@).take(j as int + 1) =~= texts(
                games@[i as int].2@,
            ).take(j as int).push(n@));
            j += 1;
        }
        assert(texts(games@[i as int].2@).take(games@[i as int].2.len() as int) =~= texts(
            games@[i as int].2@,
        ));
        i += 1;
    }
    assert(counted_texts(views).take(games.len() as int) =~= counted_texts(views));
    let mut r = String::from_str(name);
    r.append("\n");
    r.append(join_texts(&parts, ", ").as_str());
    r.append("\n");
    r.append(join_texts(&notes, ", ").as_str());
    r.append("\n");
    r.append(unsigned_text(points_of(games) as u64).as_str());
    r.append("\n");
    r
}

/// The place of the first of `games`, from place `from` on, that is the
/// game `game`; the number of games where there is none.
pub open spec fn first_of(games: Seq<GameView>, game: Seq<char>, from: int) -> int
    decreases games.len() - from,
{
    if 0 <= from < games.len() {
        if games[from].game == game {
            from
        } else {
            first_of(games, game, from + 1)
        }
    } else {
        games.len() as int
    }
}

/// What there is to tell the user of a player with a keep: how many of
/// them came in a row where the first entry of the keep counts more than
/// one, else that there is one. Nothing without a keep.
pub open spec fn keep_message(name: Seq<char>, games: Seq<GameView>) -> Option<Seq<char>> {
    let i = first_of(games, "Keymaster's Keep"@, 0);
    if i < games.len() {
        Some(
            if games[i].count > 1 {
                "'"@ + name + ".yaml' contains "@ + decimal_of(games[i].count)
                    + " Keymaster's Keeps"@
            } else {
                "'"@ + name + ".yaml' contains a Keymaster's Keep"@
            },
        )
    } else {
        None
    }
}

/// What there is to tell the user of the keeps of the player `name`: see
/// `keep_message`.
pub fn tell_keeps(name: &str, games: &[(String, u32, Vec<String>)]) -> (r: Option<String>)
    ensures
        match r {
            Some(text) => keep_message(name@, game_views(games@)) == Some(text@),
            None => keep_message(name@, game_views(games@)) is None,
        },
{
    let ghost views = game_views(games@);
    let keep = String::from_str("Keymaster's Keep");
    let mut i: usize = 0;
    while i < games.len()
        invariant
            i <= games.len(),
            views == game_views(games@),
            keep@ == "Keymaster's Keep"@,
            first_of(views, keep@, i as int) == first_of(views, keep@, 0),
        decreases games.len() - i,
    {
        assert(views[i as int] == game_view(games@[i as int]));
        if games[i].0 == keep {
            let mut m = String::from_str("'");
            m.append(name);
            if games[i].1 > 1 {
                m.append(".yaml' contains ");
                m.append(unsigned_text(games[i].1 as u64).as_str());
                m.append(" Keymaster's Keeps");
            } else {
                m.append(".yaml' contains a Keymaster's Keep");
            }
            return Some(m);
        }
        i += 1;
    }
    None
}

} // verus!
