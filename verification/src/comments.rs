//! Comments of a settings file: taken out of the source text before the
//! document is rewritten, and put back into the text that the rewritten
//! document is written out as.
//!
//! A comment is tied to the nearest mapping key above it (or on its own
//! line), not to a line number, so that it finds its place again after values
//! changed and lines moved.

use crate::text::{
    all_space, chars_of, find_unquoted, find_unquoted_in, is_all_space, leading_space, lines_of,
    push_all, rows, same_chars, skip_space_at, slice_of, split_lines, string_of, unquote, unquoted,
};
use vstd::prelude::*;

verus! {

/// A comment of the source text.
#[derive(Debug)]
pub struct Comment {
    /// The key of the nearest key line at or above the comment; `None` for a
    /// comment above the first key line.
    pub last_key: Option<String>,
    /// What follows the comment marker. Further comment lines of the same
    /// block follow after a line feed each, with their indentation and
    /// marker.
    pub comment: String,
    /// Whether the comment stands on the key's own line.
    pub inline: bool,
    /// The white space before the comment marker, or, for an inline
    /// comment, at the start of the line.
    pub indent: String,
}

/// What a `Comment` holds.
pub struct CommentView {
    pub last_key: Option<Seq<char>>,
    pub comment: Seq<char>,
    pub inline: bool,
    pub indent: Seq<char>,
}

/// What an optional string holds.
pub open spec fn opt_view(s: Option<String>) -> Option<Seq<char>> {
    match s {
        Some(s) => Some(s@),
        None => None,
    }
}

impl View for Comment {
    type V = CommentView;

    open spec fn view(&self) -> CommentView {
        CommentView {
            last_key: opt_view(self.last_key),
            comment: self.comment@,
            inline: self.inline,
            indent: self.indent@,
        }
    }
}

impl Comment {
    /// A comment of the given parts.
    pub fn new(last_key: Option<String>, comment: String, inline: bool, indent: String) -> (c:
        Self)
        ensures
            c.last_key == last_key,
            c.comment == comment,
            c.inline == inline,
            c.indent == indent,
    {
        Comment { last_key, comment, inline, indent }
    }
}

/// What a vector of comments holds.
pub open spec fn views(comments: Seq<Comment>) -> Seq<CommentView> {
    comments.map_values(|c: Comment| c@)
}

/// What a vector of strings holds.
pub open spec fn texts(lines: Seq<String>) -> Seq<Seq<char>> {
    lines.map_values(|l: String| l@)
}

/// The index of the comment marker of `line`: the first `#` outside
/// quotation marks. The length of `line` where it has none.
pub open spec fn marker_of(line: Seq<char>) -> int {
    find_unquoted(line, '#')
}

/// The key of a key line, `None` for any other line. A key line has a colon
/// outside quotation marks before its comment marker; its key is what stands
/// before the first such colon, without leading white space and without the
/// quotation marks around it.
pub open spec fn key_of(line: Seq<char>) -> Option<Seq<char>> {
    let body = line.take(marker_of(line));
    let colon = find_unquoted(body, ':');
    if colon < body.len() {
        Some(unquoted(body.take(colon)))
    } else {
        None
    }
}

/// The comment that `line` carries, with no key yet: a standalone one where
/// only white space stands before the marker, an inline one where the line
/// is a key line, none on any other line.
pub open spec fn comment_on(line: Seq<char>) -> Option<CommentView> {
    let m = marker_of(line);
    if !(0 <= m < line.len()) {
        None
    } else if all_space(line.take(m)) {
        Some(
            CommentView {
                last_key: None,
                comment: line.skip(m + 1),
                inline: false,
                indent: line.take(m),
            },
        )
    } else if key_of(line) is Some {
        Some(
            CommentView {
                last_key: None,
                comment: line.skip(m + 1),
                inline: true,
                indent: leading_space(line),
            },
        )
    } else {
        None
    }
}

/// The text of a standalone comment as a line of its own.
pub open spec fn standalone_line(c: CommentView) -> Seq<char> {
    c.indent + seq!['#'] + c.comment
}

/// What an inline comment adds to the end of its key line.
pub open spec fn inline_suffix(c: CommentView) -> Seq<char> {
    seq![' ', '#'] + c.comment
}

/// `block` with one more comment line at its end.
pub open spec fn extended(block: CommentView, more: CommentView) -> CommentView {
    CommentView {
        last_key: block.last_key,
        comment: block.comment + seq!['\n'] + standalone_line(more),
        inline: block.inline,
        indent: block.indent,
    }
}

/// The state of a walk over the lines of a source text.
pub struct Scan {
    /// The key of the last key line.
    pub last_key: Option<Seq<char>>,
    /// Whether the last comment found may still grow: no key line has come
    /// since.
    pub can_extend: bool,
    /// The comments found so far.
    pub found: Seq<CommentView>,
}

/// The state before the first line.
pub open spec fn scan_start() -> Scan {
    Scan { last_key: None, can_extend: true, found: Seq::empty() }
}

/// The state after one more line. A key line sets the key and closes the
/// last comment. A comment joins the last one found where that may still
/// grow and has the same key; else it is a comment of its own.
pub open spec fn scan_line(st: Scan, line: Seq<char>) -> Scan {
    let key = key_of(line);
    let last_key = if key is Some {
        key
    } else {
        st.last_key
    };
    let can_extend = st.can_extend && key is None;
    match comment_on(line) {
        None => Scan { last_key, can_extend, found: st.found },
        Some(c) => {
            if st.found.len() > 0 && can_extend && st.found.last().last_key == last_key {
                Scan {
                    last_key,
                    can_extend,
                    found: st.found.drop_last().push(extended(st.found.last(), c)),
                }
            } else {
                Scan {
                    last_key,
                    can_extend: true,
                    found: st.found.push(
                        CommentView {
                            last_key,
                            comment: c.comment,
                            inline: c.inline,
                            indent: c.indent,
                        },
                    ),
                }
            }
        },
    }
}

/// The state after all of `lines`, from state `st`.
pub open spec fn scan_lines(st: Scan, lines: Seq<Seq<char>>) -> Scan
    decreases lines.len(),
{
    if lines.len() == 0 {
        st
    } else {
        scan_line(scan_lines(st, lines.drop_last()), lines.last())
    }
}

/// The comments of a source text, in its order.
pub open spec fn comments_in(text: Seq<char>) -> Seq<CommentView> {
    scan_lines(scan_start(), lines_of(text)).found
}

/// The key of `line[..]`, where it is a key line.
fn key_in(line: &Vec<char>) -> (r: Option<Vec<char>>)
    ensures
        match r {
            Some(k) => key_of(line@) == Some(k@),
            None => key_of(line@) is None,
        },
{
    let m = find_unquoted_in(line, '#', line.len());
    assert(line@.take(line.len() as int) == line@);
    let colon = find_unquoted_in(line, ':', m);
    if colon < m {
        let key = unquote(line, 0, colon);
        assert(line@.subrange(0, colon as int) == line@.take(m as int).take(colon as int));
        Some(key)
    } else {
        None
    }
}

/// The key of a key line; `None` for a line that holds no key.
pub fn find_key(line: &str) -> (r: Option<String>)
    ensures
        opt_view(r) == key_of(line@),
{
    let chars = chars_of(line);
    match key_in(&chars) {
        Some(k) => Some(string_of(&k, 0, k.len())),
        None => None,
    }
}

/// A comment while the walk may still add to it.
struct Draft {
    last_key: Option<Vec<char>>,
    comment: Vec<char>,
    inline: bool,
    indent: Vec<char>,
}

spec fn opt_chars(s: Option<Vec<char>>) -> Option<Seq<char>> {
    match s {
        Some(s) => Some(s@),
        None => None,
    }
}

impl View for Draft {
    type V = CommentView;

    closed spec fn view(&self) -> CommentView {
        CommentView {
            last_key: opt_chars(self.last_key),
            comment: self.comment@,
            inline: self.inline,
            indent: self.indent@,
        }
    }
}

spec fn drafts(found: Seq<Draft>) -> Seq<CommentView> {
    found.map_values(|d: Draft| d@)
}

fn same_key(a: &Option<Vec<char>>, b: &Option<Vec<char>>) -> (r: bool)
    ensures
        r == (opt_chars(*a) == opt_chars(*b)),
{
    match (a, b) {
        (Some(x), Some(y)) => same_chars(x, y),
        (None, None) => true,
        _ => false,
    }
}

fn copy_key(a: &Option<Vec<char>>) -> (r: Option<Vec<char>>)
    ensures
        opt_chars(r) == opt_chars(*a),
{
    match a {
        Some(x) => {
            let k = slice_of(x, 0, x.len());
            assert(x@.subrange(0, x.len() as int) == x@);
            Some(k)
        },
        None => None,
    }
}

/// The comment that `line` carries, as `comment_on` states it.
fn comment_in(line: &Vec<char>, is_key_line: bool) -> (r: Option<Draft>)
    requires
        is_key_line == (key_of(line@) is Some),
    ensures
        match r {
            Some(d) => comment_on(line@) == Some(d@),
            None => comment_on(line@) is None,
        },
{
    let m = find_unquoted_in(line, '#', line.len());
    assert(line@.take(line.len() as int) == line@);
    if m >= line.len() {
        return None;
    }
    assert(line@.subrange(0, m as int) == line@.take(m as int));
    assert(line@.subrange(m + 1, line.len() as int) == line@.skip(m + 1));
    if is_all_space(line, 0, m) {
        Some(
            Draft {
                last_key: None,
                comment: slice_of(line, m + 1, line.len()),
                inline: false,
                indent: slice_of(line, 0, m),
            },
        )
    } else if is_key_line {
        let lead = skip_space_at(line, 0);
        assert(line@.subrange(0, lead as int) == leading_space(line@));
        Some(
            Draft {
                last_key: None,
                comment: slice_of(line, m + 1, line.len()),
                inline: true,
                indent: slice_of(line, 0, lead),
            },
        )
    } else {
        None
    }
}

/// The walk over the lines, in executable form.
struct Walk {
    last_key: Option<Vec<char>>,
    can_extend: bool,
    found: Vec<Draft>,
}

impl View for Walk {
    type V = Scan;

    closed spec fn view(&self) -> Scan {
        Scan {
            last_key: opt_chars(self.last_key),
            can_extend: self.can_extend,
            found: drafts(self.found@),
        }
    }
}

impl Walk {
    fn step(&mut self, line: &Vec<char>)
        ensures
            final(self)@ == scan_line(old(self)@, line@),
    {
        let key = key_in(line);
        let is_key_line = key.is_some();
        if is_key_line {
            self.last_key = key;
            self.can_extend = false;
        }
        let found_here = comment_in(line, is_key_line);
        match found_here {
            None => {},
            Some(c) => {
                let n = self.found.len();
                if n > 0 && self.can_extend && same_key(&self.found[n - 1].last_key, &self.last_key) {
                    let ghost before = drafts(self.found@);
                    let mut last = self.found.pop().unwrap();
                    let ghost block = last@;
                    assert(block == before.last());
                    last.comment.push('\n');
                    push_all(&mut last.comment, &c.indent);
                    last.comment.push('#');
                    push_all(&mut last.comment, &c.comment);
                    assert(last@ =~= extended(block, c@)) by {
                        assert(last.comment@ =~= block.comment + seq!['\n'] + standalone_line(c@));
                    }
                    assert(drafts(self.found@) =~= before.drop_last());
                    self.found.push(last);
                    assert(drafts(self.found@) =~= before.drop_last().push(extended(block, c@)));
                } else {
                    let ghost before = drafts(self.found@);
                    let d = Draft {
                        last_key: copy_key(&self.last_key),
                        comment: c.comment,
                        inline: c.inline,
                        indent: c.indent,
                    };
                    self.found.push(d);
                    self.can_extend = true;
                    assert(drafts(self.found@) =~= before.push(d@));
                }
            },
        }
    }
}

fn string_of_all(chars: &Vec<char>) -> (r: String)
    ensures
        r@ == chars@,
{
    let r = string_of(chars, 0, chars.len());
    assert(chars@.subrange(0, chars.len() as int) == chars@);
    r
}

/// The comments of `content`, each with the key that it is to be found by
/// again. Call this before the document is changed.
pub fn get_comments(content: &str) -> (out: Vec<Comment>)
    ensures
        views(out@) == comments_in(content@),
{
    let chars = chars_of(content);
    let lines = split_lines(&chars);
    let mut walk = Walk { last_key: None, can_extend: true, found: Vec::new() };
    assert(walk@.found =~= Seq::empty());
    let mut i: usize = 0;
    assert(rows(lines@).take(0) =~= Seq::empty());
    while i < lines.len()
        invariant
            i <= lines.len(),
            walk@ == scan_lines(scan_start(), rows(lines@).take(i as int)),
        decreases lines.len() - i,
    {
        walk.step(&lines[i]);
        proof {
            let upto = rows(lines@).take(i as int + 1);
            assert(upto.drop_last() =~= rows(lines@).take(i as int));
            assert(upto.last() == lines@[i as int]@);
        }
        i += 1;
    }
    assert(rows(lines@).take(lines.len() as int) =~= rows(lines@));
    let mut out: Vec<Comment> = Vec::new();
    let mut j: usize = 0;
    assert(views(out@) =~= drafts(walk.found@).take(0));
    while j < walk.found.len()
        invariant
            j <= walk.found.len(),
            views(out@) == drafts(walk.found@).take(j as int),
        decreases walk.found.len() - j,
    {
        let d = &walk.found[j];
        let last_key = match &d.last_key {
            Some(k) => Some(string_of_all(k)),
            None => None,
        };
        let c = Comment::new(last_key, string_of_all(&d.comment), d.inline, string_of_all(&d.indent));
        assert(c@ == d@);
        let ghost before = views(out@);
        out.push(c);
        assert(views(out@) =~= before.push(c@));
        assert(drafts(walk.found@).take(j as int + 1) =~= drafts(walk.found@).take(j as int).push(
            d@,
        ));
        j += 1;
    }
    assert(drafts(walk.found@).take(walk.found.len() as int) =~= drafts(walk.found@));
    out
}

/// How far the comments have been put back into the new text.
pub struct Placing {
    /// The lines, with the comments placed so far.
    pub lines: Seq<Seq<char>>,
    /// The index of the first line that the next comment may go to.
    pub cursor: int,
    /// Whether a comment's key was not found: nothing is placed after that.
    pub failed: bool,
}

/// The index of the first key line at or after `from` whose key is `key`,
/// or the number of lines where there is none.
pub open spec fn find_anchor(lines: Seq<Seq<char>>, key: Seq<char>, from: int) -> int
    decreases lines.len() - from,
{
    if 0 <= from < lines.len() {
        if key_of(lines[from]) == Some(key) {
            from
        } else {
            find_anchor(lines, key, from + 1)
        }
    } else {
        lines.len() as int
    }
}

/// The state after one more comment. A comment without a key becomes a line
/// at the cursor. Any other goes to the first line at or after the cursor
/// that holds its key: an inline comment to the end of that line, a
/// standalone one to a new line below it; the cursor then stands below the
/// line that changed or came. Where no such line is left, placing fails, and
/// what follows a failure changes nothing.
pub open spec fn place(st: Placing, c: CommentView) -> Placing {
    if st.failed {
        st
    } else {
        match c.last_key {
            None => Placing {
                lines: st.lines.insert(st.cursor, standalone_line(c)),
                cursor: st.cursor + 1,
                failed: false,
            },
            Some(key) => {
                let at = find_anchor(st.lines, key, st.cursor);
                if !(0 <= at < st.lines.len()) {
                    Placing { lines: st.lines, cursor: st.cursor, failed: true }
                } else if c.inline {
                    Placing {
                        lines: st.lines.update(at, st.lines[at] + inline_suffix(c)),
                        cursor: at + 1,
                        failed: false,
                    }
                } else {
                    Placing {
                        lines: st.lines.insert(at + 1, standalone_line(c)),
                        cursor: at + 2,
                        failed: false,
                    }
                }
            },
        }
    }
}

/// The state after all of `comments`, in their order, from state `st`.
pub open spec fn place_all(st: Placing, comments: Seq<CommentView>) -> Placing
    decreases comments.len(),
{
    if comments.len() == 0 {
        st
    } else {
        place(place_all(st, comments.drop_last()), comments.last())
    }
}

/// The state before the first comment is placed into `text`.
pub open spec fn placing_start(text: Seq<char>) -> Placing {
    Placing { lines: lines_of(text), cursor: 0, failed: false }
}

/// The new text with the comments put back.
pub open spec fn reinserted(text: Seq<char>, comments: Seq<CommentView>) -> Placing {
    place_all(placing_start(text), comments)
}

/// The warning for a source whose comments could not all be kept.
pub open spec fn warning_for(source: Seq<char>) -> Seq<char> {
    "could not preserve all comments from "@ + source
}

pub proof fn lemma_find_anchor(lines: Seq<Seq<char>>, key: Seq<char>, from: int)
    requires
        0 <= from <= lines.len(),
    ensures
        from <= find_anchor(lines, key, from) <= lines.len(),
        find_anchor(lines, key, from) < lines.len() ==> key_of(
            lines[find_anchor(lines, key, from)],
        ) == Some(key),
        forall|i: int|
            from <= i < find_anchor(lines, key, from) ==> key_of(#[trigger] lines[i]) != Some(key),
    decreases lines.len() - from,
{
    if from < lines.len() && key_of(lines[from]) != Some(key) {
        lemma_find_anchor(lines, key, from + 1);
    }
}

/// Placing comments one after the other is placing the first `k`, then the
/// rest.
pub proof fn lemma_place_all_split(st: Placing, comments: Seq<CommentView>, k: int)
    requires
        0 <= k <= comments.len(),
    ensures
        place_all(st, comments) == place_all(place_all(st, comments.take(k)), comments.skip(k)),
    decreases comments.len(),
{
    if k == comments.len() {
        assert(comments.take(k) =~= comments);
        assert(comments.skip(k) =~= Seq::empty());
    } else {
        lemma_place_all_split(st, comments.drop_last(), k);
        assert(comments.drop_last().take(k) =~= comments.take(k));
        assert(comments.drop_last().skip(k) =~= comments.skip(k).drop_last());
        assert(comments.skip(k).last() == comments.last());
    }
}

/// After a failure nothing changes any more.
pub proof fn lemma_failure_is_final(st: Placing, comments: Seq<CommentView>)
    requires
        st.failed,
    ensures
        place_all(st, comments) == st,
    decreases comments.len(),
{
    if comments.len() > 0 {
        lemma_failure_is_final(st, comments.drop_last());
    }
}

/// A comment whose key is gone stops the placing, and nothing else: where
/// comment `k` is the first that finds no line for its key, the lines that
/// come out are those with the first `k` comments in their places, and the
/// placing has failed, so that one warning is given.
pub proof fn lemma_orphan_stops_placing(text: Seq<char>, comments: Seq<CommentView>, k: int)
    requires
        0 <= k < comments.len(),
        !reinserted(text, comments.take(k)).failed,
        reinserted(text, comments.take(k + 1)).failed,
    ensures
        reinserted(text, comments).failed,
        reinserted(text, comments).lines == reinserted(text, comments.take(k)).lines,
{
    let start = placing_start(text);
    let upto = comments.take(k + 1);
    assert(upto.drop_last() =~= comments.take(k));
    assert(upto.last() == comments[k]);
    let before = place_all(start, comments.take(k));
    let at = place(before, comments[k]);
    assert(place_all(start, upto) == at);
    assert(at.lines == before.lines);
    lemma_place_all_split(start, comments, k + 1);
    lemma_failure_is_final(at, comments.skip(k + 1));
}

/// The lines of the new text with the comments in them, and what there is
/// to tell the user.
#[derive(Debug)]
pub struct Reinserted {
    /// The lines of the new text, comments included.
    pub lines: Vec<String>,
    /// One warning where not every comment found its key again; else none.
    pub warnings: Vec<String>,
}

/// The placing, in executable form.
struct Board {
    lines: Vec<Vec<char>>,
    cursor: usize,
    failed: bool,
}

impl View for Board {
    type V = Placing;

    closed spec fn view(&self) -> Placing {
        Placing { lines: rows(self.lines@), cursor: self.cursor as int, failed: self.failed }
    }
}

fn standalone_chars(c: &Comment) -> (r: Vec<char>)
    ensures
        r@ == standalone_line(c@),
{
    let mut r = chars_of(c.indent.as_str());
    r.push('#');
    let text = chars_of(c.comment.as_str());
    push_all(&mut r, &text);
    r
}

impl Board {
    /// The index of the first line at or after the cursor that holds `key`.
    fn anchor(&self, key: &Vec<char>) -> (at: usize)
        requires
            self.cursor <= self.lines.len(),
        ensures
            at == find_anchor(rows(self.lines@), key@, self.cursor as int),
            self.cursor <= at <= self.lines.len(),
    {
        let mut at: usize = self.cursor;
        while at < self.lines.len()
            invariant
                self.cursor <= at <= self.lines.len(),
                find_anchor(rows(self.lines@), key@, at as int) == find_anchor(
                    rows(self.lines@),
                    key@,
                    self.cursor as int,
                ),
            decreases self.lines.len() - at,
        {
            let found = match key_in(&self.lines[at]) {
                Some(k) => same_chars(&k, key),
                None => false,
            };
            assert(rows(self.lines@)[at as int] == self.lines@[at as int]@);
            if found {
                return at;
            }
            at += 1;
        }
        at
    }

    fn put(&mut self, c: &Comment)
        requires
            old(self).cursor <= old(self).lines.len(),
        ensures
            final(self)@ == place(old(self)@, c@),
            final(self).cursor <= final(self).lines.len(),
    {
        if self.failed {
            return ;
        }
        let ghost before = rows(self.lines@);
        match &c.last_key {
            None => {
                let line = standalone_chars(c);
                self.lines.insert(self.cursor, line);
                assert(rows(self.lines@) =~= before.insert(self.cursor as int, standalone_line(c@)));
                assert(self.cursor < self.lines.len());
                self.cursor = self.cursor + 1;
            },
            Some(key) => {
                let key = chars_of(key.as_str());
                let at = self.anchor(&key);
                if at >= self.lines.len() {
                    self.failed = true;
                } else if c.inline {
                    let mut line = self.lines.remove(at);
                    assert(line@ == before[at as int]);
                    line.push(' ');
                    line.push('#');
                    let text = chars_of(c.comment.as_str());
                    push_all(&mut line, &text);
                    assert(line@ =~= before[at as int] + inline_suffix(c@));
                    self.lines.insert(at, line);
                    assert(rows(self.lines@) =~= before.update(
                        at as int,
                        before[at as int] + inline_suffix(c@),
                    ));
                    self.cursor = at + 1;
                } else {
                    let line = standalone_chars(c);
                    self.lines.insert(at + 1, line);
                    assert(rows(self.lines@) =~= before.insert(at + 1, standalone_line(c@)));
                    assert(at + 1 < self.lines.len());
                    self.cursor = at + 2;
                }
            },
        }
    }
}

/// Puts `comments` back into `output`, the text that the changed document was
/// written out as, and returns its lines. Each comment goes to the next line
/// that holds its key. Where a key is not found again, that comment and those
/// after it are left out, and one warning names `source`.
pub fn insert_comments(output: String, comments: &[Comment], source: &str) -> (r: Reinserted)
    ensures
        texts(r.lines@) == reinserted(output@, views(comments@)).lines,
        texts(r.warnings@) == if reinserted(output@, views(comments@)).failed {
            seq![warning_for(source@)]
        } else {
            Seq::<Seq<char>>::empty()
        },
{
    let chars = chars_of(output.as_str());
    let mut board = Board { lines: split_lines(&chars), cursor: 0, failed: false };
    let ghost all = views(comments@);
    let mut i: usize = 0;
    assert(all.take(0) =~= Seq::empty());
    while i < comments.len()
        invariant
            i <= comments.len(),
            all == views(comments@),
            board.cursor <= board.lines.len(),
            board@ == place_all(placing_start(output@), all.take(i as int)),
        decreases comments.len() - i,
    {
        board.put(&comments[i]);
        proof {
            let upto = all.take(i as int + 1);
            assert(upto.drop_last() =~= all.take(i as int));
            assert(upto.last() == comments@[i as int]@);
        }
        i += 1;
    }
    assert(all.take(comments.len() as int) =~= all);
    let mut lines: Vec<String> = Vec::new();
    let mut j: usize = 0;
    assert(texts(lines@) =~= rows(board.lines@).take(0));
    while j < board.lines.len()
        invariant
            j <= board.lines.len(),
            texts(lines@) == rows(board.lines@).take(j as int),
        decreases board.lines.len() - j,
    {
        let line = string_of_all(&board.lines[j]);
        let ghost before = texts(lines@);
        lines.push(line);
        assert(texts(lines@) =~= before.push(line@));
        assert(rows(board.lines@).take(j as int + 1) =~= rows(board.lines@).take(j as int).push(
            board.lines@[j as int]@,
        ));
        j += 1;
    }
    assert(rows(board.lines@).take(board.lines.len() as int) =~= rows(board.lines@));
    let mut warnings: Vec<String> = Vec::new();
    if board.failed {
        let mut w = String::from_str("could not preserve all comments from ");
        w.append(source);
        warnings.push(w);
        assert(texts(warnings@) =~= seq![warning_for(source@)]);
    } else {
        assert(texts(warnings@) =~= Seq::<Seq<char>>::empty());
    }
    Reinserted { lines, warnings }
}

} // verus!
