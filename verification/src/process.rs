//! The list of the files to process: one line for each, with the name of
//! the player, a tab, and the number of the file.

use crate::name_changes::{pair_text, tab_split};
use crate::text::{chars_of, index_of_from, lines_of, rows, split_lines, string_of};
use vstd::prelude::*;

verus! {

/// How far a list has been read.
pub struct Listing {
    /// The pairs read so far.
    pub pairs: Seq<(Seq<char>, Seq<char>)>,
    /// The number of the first line that is not empty and has no tab,
    /// counted from one.
    pub failed: Option<int>,
}

/// The state after line number `i`, counted from zero. An empty line says
/// nothing. A line with a tab gives a pair. Any other line fails the
/// reading, and nothing is read after that.
pub open spec fn list_step(st: Listing, i: int, line: Seq<char>) -> Listing {
    if st.failed is Some || line.len() == 0 {
        st
    } else {
        match tab_split(line) {
            Some(pair) => Listing { pairs: st.pairs.push(pair), failed: None },
            None => Listing { pairs: st.pairs, failed: Some(i + 1) },
        }
    }
}

/// The state after all of `lines`.
pub open spec fn listed(lines: Seq<Seq<char>>) -> Listing
    decreases lines.len(),
{
    if lines.len() == 0 {
        Listing { pairs: Seq::empty(), failed: None }
    } else {
        list_step(listed(lines.drop_last()), lines.len() - 1, lines.last())
    }
}

/// What a list holds: its pairs, or the number of the line that failed the
/// reading.
pub open spec fn process_list(content: Seq<char>) -> Result<Seq<(Seq<char>, Seq<char>)>, int> {
    let st = listed(lines_of(content));
    match st.failed {
        Some(i) => Err(i),
        None => Ok(st.pairs),
    }
}

/// What the result of `read_process_list` holds.
pub open spec fn list_view(r: Result<Vec<(String, String)>, usize>) -> Result<
    Seq<(Seq<char>, Seq<char>)>,
    int,
> {
    match r {
        Ok(pairs) => Ok(pairs@.map_values(|p: (String, String)| pair_text(p))),
        Err(i) => Err(i as int),
    }
}

/// Reads the list of files to process from its text: for each line that is
/// not empty the name before the first tab and the number after it. Where a
/// line has no tab, the number of the first such line comes back, counted
/// from one.
pub fn read_process_list(content: &str) -> (r: Result<Vec<(String, String)>, usize>)
    ensures
        list_view(r) == process_list(content@),
{
    let chars = chars_of(content);
    let lines = split_lines(&chars);
    let mut pairs: Vec<(String, String)> = Vec::new();
    let mut i: usize = 0;
    assert(rows(lines@).take(0) =~= Seq::empty());
    assert(pairs@.map_values(|p: (String, String)| pair_text(p)) =~= Seq::empty());
    while i < lines.len()
        invariant
            i <= lines.len(),
            rows(lines@) == lines_of(content@),
            listed(rows(lines@).take(i as int)).failed is None,
            pairs@.map_values(|p: (String, String)| pair_text(p)) == listed(
                rows(lines@).take(i as int),
            ).pairs,
        decreases lines.len() - i,
    {
        proof {
            let upto = rows(lines@).take(i as int + 1);
            assert(upto.drop_last() =~= rows(lines@).take(i as int));
            assert(upto.last() == lines@[i as int]@);
        }
        let line = &lines[i];
        if line.len() > 0 {
            let mut t: usize = 0;
            while t < line.len() && line[t] != '\t'
                invariant
                    t <= line.len(),
                    index_of_from(line@, '\t', t as int) == index_of_from(line@, '\t', 0),
                decreases line.len() - t,
            {
                t += 1;
            }
            if t < line.len() {
                let name = string_of(line, 0, t);
                let id = string_of(line, t + 1, line.len());
                assert(line@.subrange(0, t as int) =~= line@.take(t as int));
                assert(line@.subrange(t + 1, line.len() as int) =~= line@.skip(t + 1));
                let ghost before = pairs@.map_values(|p: (String, String)| pair_text(p));
                pairs.push((name, id));
                assert(pairs@.map_values(|p: (String, String)| pair_text(p)) =~= before.push(
                    (name@, id@),
                ));
            } else {
                proof {
                    assert(tab_split(line@) is None);
                    assert(listed(rows(lines@).take(i as int + 1)).failed == Some(i as int + 1));
                    lemma_failed_stays(rows(lines@), i as int + 1);
                }
                return Err(i + 1);
            }
        }
        i += 1;
    }
    assert(rows(lines@).take(lines.len() as int) =~= rows(lines@));
    Ok(pairs)
}

/// A reading that has failed stays failed at the same line.
proof fn lemma_failed_stays(lines: Seq<Seq<char>>, n: int)
    requires
        0 <= n <= lines.len(),
        listed(lines.take(n)).failed is Some,
    ensures
        listed(lines).failed == listed(lines.take(n)).failed,
    decreases lines.len() - n,
{
    if n == lines.len() {
        assert(lines.take(n) =~= lines);
    } else {
        assert(lines.take(n + 1).drop_last() =~= lines.take(n));
        lemma_failed_stays(lines, n + 1);
    }
}

} // verus!
