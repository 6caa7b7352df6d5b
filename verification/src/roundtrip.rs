//! Comments survive a rewrite that keeps the keys.
//!
//! Where the text that a document is written out as has the same keys, in
//! the same order, as the source text had, every comment of the source finds
//! a line for its key again, and stands in the result with its text: an
//! inline comment at the end of a line with its key, a standalone comment on
//! a line of its own directly below such a line.

use crate::comments::{
    comment_on, comments_in, extended, find_anchor, inline_suffix, key_of, lemma_find_anchor,
    place, place_all, reinserted, scan_line, scan_lines, scan_start, standalone_line, CommentView,
    Placing, Scan,
};
use crate::text::lines_of;
use vstd::prelude::*;

verus! {

/// The keys of the key lines among `lines`, in their order.
pub open spec fn keys_of(lines: Seq<Seq<char>>) -> Seq<Seq<char>>
    decreases lines.len(),
{
    if lines.len() == 0 {
        Seq::empty()
    } else {
        match key_of(lines.last()) {
            Some(k) => keys_of(lines.drop_last()).push(k),
            None => keys_of(lines.drop_last()),
        }
    }
}

/// Whether `lines[i]` shows the comment `c` in its place: a comment without
/// a key as a line of its own, an inline comment at the end of a line with
/// its key, a standalone comment as a line of its own directly below a line
/// with its key.
pub open spec fn carries_at(lines: Seq<Seq<char>>, i: int, c: CommentView) -> bool {
    0 <= i < lines.len() && match c.last_key {
        None => lines[i] == standalone_line(c),
        Some(k) => if c.inline {
            exists|base: Seq<char>|
                #![auto]
                lines[i] == base + inline_suffix(c) && key_of(base) == Some(k)
        } else {
            i >= 1 && key_of(lines[i - 1]) == Some(k) && lines[i] == standalone_line(c)
        },
    }
}

/// Whether some line of `lines` shows the comment `c` in its place.
pub open spec fn shows(lines: Seq<Seq<char>>, c: CommentView) -> bool {
    exists|i: int| carries_at(lines, i, c)
}

/// Whether a line above `cursor` shows the comment `c` in its place.
spec fn shown_above(lines: Seq<Seq<char>>, cursor: int, c: CommentView) -> bool {
    exists|i: int| 0 <= i < cursor && carries_at(lines, i, c)
}

/// Whether a comment on `line` joins the last comment found so far.
spec fn joins(st: Scan, line: Seq<char>) -> bool {
    st.found.len() > 0 && st.can_extend && key_of(line) is None && st.found.last().last_key
        == st.last_key
}

/// For each comment found in `lines`, which key line it belongs to: the
/// number of that key line among the key lines, or -1 for a comment above
/// the first key line.
spec fn anchors_in(lines: Seq<Seq<char>>) -> Seq<int>
    decreases lines.len(),
{
    if lines.len() == 0 {
        Seq::empty()
    } else {
        let before = anchors_in(lines.drop_last());
        let st = scan_lines(scan_start(), lines.drop_last());
        if comment_on(lines.last()) is Some && !joins(st, lines.last()) {
            before.push(keys_of(lines).len() - 1)
        } else {
            before
        }
    }
}

/// What holds of a walk over `lines`: every comment found belongs to a key
/// line of its own, later comments to later key lines, and each has that
/// line's key.
spec fn walk_inv(lines: Seq<Seq<char>>, st: Scan, occ: Seq<int>) -> bool {
    let keys = keys_of(lines);
    &&& occ.len() == st.found.len()
    &&& forall|r: int, t: int| 0 <= r < t < occ.len() ==> occ[r] < occ[t]
    &&& forall|r: int| 0 <= r < occ.len() ==> -1 <= #[trigger] occ[r] < keys.len()
    &&& forall|r: int|
        0 <= r < occ.len() ==> (#[trigger] st.found[r]).last_key == if occ[r] == -1 {
            None::<Seq<char>>
        } else {
            Some(keys[occ[r]])
        }
    &&& st.last_key == if keys.len() == 0 {
        None::<Seq<char>>
    } else {
        Some(keys.last())
    }
    &&& occ.len() > 0 ==> if st.can_extend {
        occ.last() == keys.len() - 1
    } else {
        occ.last() < keys.len() - 1
    }
}

proof fn lemma_walk_inv(lines: Seq<Seq<char>>)
    ensures
        walk_inv(lines, scan_lines(scan_start(), lines), anchors_in(lines)),
    decreases lines.len(),
{
    if lines.len() > 0 {
        let before = lines.drop_last();
        let line = lines.last();
        lemma_walk_inv(before);
        let st = scan_lines(scan_start(), before);
        let occ = anchors_in(before);
        let after = scan_line(st, line);
        let occ2 = anchors_in(lines);
        let keys = keys_of(before);
        let keys2 = keys_of(lines);
        assert(forall|j: int| 0 <= j < keys.len() ==> keys2[j] == keys[j]);
        match comment_on(line) {
            None => {
                assert(after.found == st.found);
            },
            Some(c) => {
                if joins(st, line) {
                    let last = st.found.last();
                    assert(after.found == st.found.drop_last().push(extended(last, c)));
                    assert forall|r: int| 0 <= r < occ2.len() implies (
                    #[trigger] after.found[r]).last_key == if occ2[r] == -1 {
                        None::<Seq<char>>
                    } else {
                        Some(keys2[occ2[r]])
                    } by {
                        if r < occ2.len() - 1 {
                            assert(after.found[r] == st.found[r]);
                        } else {
                            assert(after.found[r].last_key == st.found[r].last_key);
                        }
                    }
                } else {
                    assert(occ2 == occ.push(keys2.len() - 1));
                    assert(after.found.len() == st.found.len() + 1);
                    assert forall|r: int| 0 <= r < occ2.len() implies (
                    #[trigger] after.found[r]).last_key == if occ2[r] == -1 {
                        None::<Seq<char>>
                    } else {
                        Some(keys2[occ2[r]])
                    } by {
                        if r < occ.len() {
                            assert(after.found[r] == st.found[r]);
                        }
                    }
                    assert forall|r: int, t: int| 0 <= r < t < occ2.len() implies occ2[r]
                        < occ2[t] by {
                        if t == occ.len() {
                            assert(occ2[r] == occ[r]);
                            if r < occ.len() - 1 {
                                assert(occ[r] < occ[occ.len() - 1]);
                            }
                        }
                    }
                }
            },
        }
    }
}

/// The keys of the first lines are the first of the keys.
proof fn lemma_keys_prefix(lines: Seq<Seq<char>>, c: int)
    requires
        0 <= c <= lines.len(),
    ensures
        keys_of(lines.take(c)).len() <= keys_of(lines).len(),
        keys_of(lines.take(c)) == keys_of(lines).take(keys_of(lines.take(c)).len() as int),
    decreases lines.len() - c,
{
    if c == lines.len() {
        assert(lines.take(c) =~= lines);
        assert(keys_of(lines).take(keys_of(lines).len() as int) =~= keys_of(lines));
    } else {
        lemma_keys_prefix(lines, c + 1);
        assert(lines.take(c + 1).drop_last() =~= lines.take(c));
        let more = keys_of(lines.take(c + 1));
        let fewer = keys_of(lines.take(c));
        assert(fewer =~= keys_of(lines).take(fewer.len() as int));
    }
}

/// The keys of one more line.
proof fn lemma_keys_step(lines: Seq<Seq<char>>, c: int)
    requires
        0 <= c < lines.len(),
    ensures
        keys_of(lines.take(c + 1)) == match key_of(lines[c]) {
            Some(k) => keys_of(lines.take(c)).push(k),
            None => keys_of(lines.take(c)),
        },
{
    assert(lines.take(c + 1).drop_last() =~= lines.take(c));
    assert(lines.take(c + 1).last() == lines[c]);
}

/// A key line that is still ahead is found, and no later key line is passed
/// on the way to it.
proof fn lemma_anchor_ahead(lines: Seq<Seq<char>>, j: int, c: int)
    requires
        0 <= c <= lines.len(),
        keys_of(lines.take(c)).len() <= j < keys_of(lines).len(),
    ensures
        c <= find_anchor(lines, keys_of(lines)[j], c) < lines.len(),
        key_of(lines[find_anchor(lines, keys_of(lines)[j], c)]) == Some(keys_of(lines)[j]),
        keys_of(lines.take(find_anchor(lines, keys_of(lines)[j], c) + 1)).len() <= j + 1,
    decreases lines.len() - c,
{
    let keys = keys_of(lines);
    lemma_keys_prefix(lines, c);
    if c == lines.len() {
        assert(lines.take(c) =~= lines);
    } else {
        lemma_keys_step(lines, c);
        lemma_keys_prefix(lines, c + 1);
        let seen = keys_of(lines.take(c)).len() as int;
        if key_of(lines[c]) == Some(keys[j]) {
        } else {
            match key_of(lines[c]) {
                Some(k) => {
                    assert(keys_of(lines.take(c + 1))[seen] == k);
                    assert(keys.take(seen + 1)[seen] == keys[seen]);
                    assert(seen != j);
                },
                None => {},
            }
            lemma_anchor_ahead(lines, j, c + 1);
        }
    }
}

/// A search in lines that end as `lines` does goes as the search in `lines`.
proof fn lemma_find_anchor_in_tail(
    now: Seq<Seq<char>>,
    p: int,
    lines: Seq<Seq<char>>,
    c: int,
    key: Seq<char>,
)
    requires
        0 <= p <= now.len(),
        0 <= c <= lines.len(),
        now.skip(p) == lines.skip(c),
    ensures
        find_anchor(now, key, p) - p == find_anchor(lines, key, c) - c,
    decreases lines.len() - c,
{
    assert(now.skip(p).len() == now.len() - p);
    assert(lines.skip(c).len() == lines.len() - c);
    if c < lines.len() {
        assert(now[p] == now.skip(p)[0]);
        assert(lines[c] == lines.skip(c)[0]);
        if key_of(lines[c]) != Some(key) {
            assert(now.skip(p + 1) =~= now.skip(p).skip(1));
            assert(lines.skip(c + 1) =~= lines.skip(c).skip(1));
            lemma_find_anchor_in_tail(now, p + 1, lines, c + 1, key);
        }
    }
}

/// What holds after the first `r` comments were placed into `lines`: none
/// failed, the lines from the cursor on are the lines of `lines` from `c`
/// on, and each comment placed stands above the cursor.
spec fn placed_inv(
    lines: Seq<Seq<char>>,
    comments: Seq<CommentView>,
    occ: Seq<int>,
    r: int,
    st: Placing,
    c: int,
) -> bool {
    &&& !st.failed
    &&& 0 <= st.cursor <= st.lines.len()
    &&& 0 <= c <= lines.len()
    &&& st.lines.skip(st.cursor) == lines.skip(c)
    &&& r == 0 ==> c == 0
    &&& r > 0 ==> keys_of(lines.take(c)).len() <= occ[r - 1] + 1
    &&& forall|t: int| 0 <= t < r ==> #[trigger] shown_above(st.lines, st.cursor, comments[t])
}

/// What is asked of the comments: see `walk_inv`.
spec fn anchored(keys: Seq<Seq<char>>, comments: Seq<CommentView>, occ: Seq<int>) -> bool {
    &&& occ.len() == comments.len()
    &&& forall|r: int, t: int| 0 <= r < t < occ.len() ==> occ[r] < occ[t]
    &&& forall|r: int| 0 <= r < occ.len() ==> -1 <= #[trigger] occ[r] < keys.len()
    &&& forall|r: int|
        0 <= r < occ.len() ==> (#[trigger] comments[r]).last_key == if occ[r] == -1 {
            None::<Seq<char>>
        } else {
            Some(keys[occ[r]])
        }
}

proof fn lemma_carried_stays(
    before: Seq<Seq<char>>,
    after: Seq<Seq<char>>,
    cursor: int,
    i: int,
    c: CommentView,
)
    requires
        0 <= i < cursor <= before.len(),
        cursor <= after.len(),
        forall|j: int| 0 <= j < cursor ==> before[j] == after[j],
        carries_at(before, i, c),
    ensures
        carries_at(after, i, c),
{
    assert(before[i] == after[i]);
    if i >= 1 {
        assert(before[i - 1] == after[i - 1]);
    }
}

/// One comment more: see `placed_inv`.
proof fn lemma_place_step(
    lines: Seq<Seq<char>>,
    st: Placing,
    c0: int,
    com: CommentView,
    j: int,
) -> (c: int)
    requires
        !st.failed,
        0 <= st.cursor <= st.lines.len(),
        0 <= c0 <= lines.len(),
        st.lines.skip(st.cursor) == lines.skip(c0),
        com.last_key matches Some(key) ==> keys_of(lines.take(c0)).len() <= j < keys_of(
            lines,
        ).len() && key == keys_of(lines)[j],
    ensures
        !place(st, com).failed,
        st.cursor < place(st, com).cursor <= place(st, com).lines.len(),
        c0 <= c <= lines.len(),
        place(st, com).lines.skip(place(st, com).cursor) == lines.skip(c),
        com.last_key is None ==> c == c0,
        com.last_key is Some ==> keys_of(lines.take(c)).len() <= j + 1,
        forall|i: int| 0 <= i < st.cursor ==> place(st, com).lines[i] == st.lines[i],
        shown_above(place(st, com).lines, place(st, com).cursor, com),
{
    let next = place(st, com);
    match com.last_key {
        None => {
            assert(next.lines == st.lines.insert(st.cursor, standalone_line(com)));
            assert(next.lines.skip(next.cursor) =~= st.lines.skip(st.cursor));
            assert(carries_at(next.lines, st.cursor, com));
            c0
        },
        Some(key) => {
            lemma_anchor_ahead(lines, j, c0);
            lemma_find_anchor_in_tail(st.lines, st.cursor, lines, c0, key);
            lemma_find_anchor(st.lines, key, st.cursor);
            let a = find_anchor(lines, key, c0);
            let at = find_anchor(st.lines, key, st.cursor);
            assert(at - st.cursor == a - c0);
            assert(st.lines.skip(st.cursor).len() == st.lines.len() - st.cursor);
            assert(st.lines[at] == st.lines.skip(st.cursor)[at - st.cursor]);
            assert(lines[a] == lines.skip(c0)[a - c0]);
            assert(st.lines[at] == lines[a]);
            assert(lines.skip(a + 1) =~= lines.skip(c0).skip(a + 1 - c0));
            if com.inline {
                assert(next.lines == st.lines.update(at, st.lines[at] + inline_suffix(com)));
                assert(next.lines.skip(at + 1) =~= st.lines.skip(st.cursor).skip(
                    at + 1 - st.cursor,
                ));
                assert(carries_at(next.lines, at, com));
            } else {
                assert(next.lines == st.lines.insert(at + 1, standalone_line(com)));
                assert(next.lines.skip(at + 2) =~= st.lines.skip(st.cursor).skip(
                    at + 1 - st.cursor,
                ));
                assert(next.lines[at] == st.lines[at]);
                assert(carries_at(next.lines, at + 1, com));
            }
            a + 1
        },
    }
}

proof fn lemma_placed(
    lines: Seq<Seq<char>>,
    comments: Seq<CommentView>,
    occ: Seq<int>,
    r: int,
) -> (c: int)
    requires
        anchored(keys_of(lines), comments, occ),
        0 <= r <= comments.len(),
    ensures
        placed_inv(
            lines,
            comments,
            occ,
            r,
            place_all(Placing { lines, cursor: 0, failed: false }, comments.take(r)),
            c,
        ),
    decreases r,
{
    let start = Placing { lines, cursor: 0, failed: false };
    if r == 0 {
        assert(comments.take(0) =~= Seq::empty());
        assert(lines.skip(0) =~= lines);
        0
    } else {
        let c0 = lemma_placed(lines, comments, occ, r - 1);
        let st = place_all(start, comments.take(r - 1));
        let com = comments[r - 1];
        assert(comments.take(r).drop_last() =~= comments.take(r - 1));
        assert(comments.take(r).last() == com);
        let next = place(st, com);
        assert(place_all(start, comments.take(r)) == next);
        let j = occ[r - 1];
        assert(-1 <= j < keys_of(lines).len());
        if r - 1 > 0 {
            assert(-1 <= occ[r - 2]);
            assert(occ[r - 2] < occ[r - 1]);
        } else {
            assert(lines.take(0) =~= Seq::empty());
        }
        if com.last_key is None {
            assert(j == -1);
        } else {
            assert(j != -1);
        }
        let c = lemma_place_step(lines, st, c0, com, j);
        assert(keys_of(lines.take(c)).len() <= occ[r - 1] + 1);
        assert forall|t: int| 0 <= t < r implies #[trigger] shown_above(
            next.lines,
            next.cursor,
            comments[t],
        ) by {
            if t < r - 1 {
                assert(shown_above(st.lines, st.cursor, comments[t]));
                let i = choose|i: int| 0 <= i < st.cursor && carries_at(st.lines, i, comments[t]);
                lemma_carried_stays(st.lines, next.lines, st.cursor, i, comments[t]);
            }
        }
        c
    }
}

/// A rewrite that keeps the keys keeps the comments. Where the new text has
/// the keys of the source text, in the same order, putting the comments of
/// the source back into the new text does not fail, and every one of them
/// stands in the result in its place, with its text: see `carries_at`.
pub proof fn lemma_round_trip(source: Seq<char>, rewritten: Seq<char>)
    requires
        keys_of(lines_of(rewritten)) == keys_of(lines_of(source)),
    ensures
        !reinserted(rewritten, comments_in(source)).failed,
        forall|r: int|
            0 <= r < comments_in(source).len() ==> shows(
                reinserted(rewritten, comments_in(source)).lines,
                #[trigger] comments_in(source)[r],
            ),
{
    let lines = lines_of(rewritten);
    let comments = comments_in(source);
    let occ = anchors_in(lines_of(source));
    lemma_walk_inv(lines_of(source));
    assert(anchored(keys_of(lines), comments, occ));
    let c = lemma_placed(lines, comments, occ, comments.len() as int);
    assert(comments.take(comments.len() as int) =~= comments);
    let out = reinserted(rewritten, comments);
    assert(out == place_all(Placing { lines, cursor: 0, failed: false }, comments));
    assert(placed_inv(lines, comments, occ, comments.len() as int, out, c));
    assert forall|r: int| 0 <= r < comments.len() implies shows(out.lines, #[trigger] comments[r]) by {
        assert(shown_above(out.lines, out.cursor, comments[r]));
        let i = choose|i: int| 0 <= i < out.cursor && carries_at(out.lines, i, comments[r]);
        assert(carries_at(out.lines, i, comments[r]));
    }
}

} // verus!
