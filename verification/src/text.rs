//! Characters, lines and small string helpers that the rest of the crate
//! states its contracts over.
//!
//! Text is handled as a vector of `char`; every function here is specified
//! over the `Seq<char>` that such a vector, a `&str` or a `String` views as.

use vstd::prelude::*;

verus! {

/// Whether `c` is white space: the code points U+0009 to U+000D, U+0020,
/// U+0085, U+00A0, U+1680, U+2000 to U+200A, U+2028, U+2029, U+202F, U+205F
/// and U+3000.
pub open spec fn is_space_char(c: char) -> bool {
    let n = c as u32;
    (0x09 <= n <= 0x0D) || n == 0x20 || n == 0x85 || n == 0xA0 || n == 0x1680 || (0x2000 <= n
        <= 0x200A) || n == 0x2028 || n == 0x2029 || n == 0x202F || n == 0x205F || n == 0x3000
}

/// Tests a character for white space.
pub fn is_space(c: char) -> (r: bool)
    ensures
        r == is_space_char(c),
{
    let n: u32 = c as u32;
    (0x09 <= n && n <= 0x0D) || n == 0x20 || n == 0x85 || n == 0xA0 || n == 0x1680 || (0x2000 <= n
        && n <= 0x200A) || n == 0x2028 || n == 0x2029 || n == 0x202F || n == 0x205F || n == 0x3000
}

/// Every character of `s` is white space.
pub open spec fn all_space(s: Seq<char>) -> bool {
    forall|i: int| 0 <= i < s.len() ==> is_space_char(#[trigger] s[i])
}

/// The first index at or after `from` that holds no white space, or the
/// length of `s` where only white space follows.
pub open spec fn skip_space(s: Seq<char>, from: int) -> int
    decreases s.len() - from,
{
    if 0 <= from < s.len() && is_space_char(s[from]) {
        skip_space(s, from + 1)
    } else {
        from
    }
}

/// `s` without its leading white space.
pub open spec fn trim_start(s: Seq<char>) -> Seq<char> {
    s.skip(skip_space(s, 0))
}

/// The leading white space of `s`.
pub open spec fn leading_space(s: Seq<char>) -> Seq<char> {
    s.take(skip_space(s, 0))
}

/// The first index at or after `from` that does not hold `c`.
pub open spec fn skip_run(s: Seq<char>, c: char, from: int) -> int
    decreases s.len() - from,
{
    if 0 <= from < s.len() && s[from] == c {
        skip_run(s, c, from + 1)
    } else {
        from
    }
}

/// The start of the run of `c` that ends just before index `to`.
pub open spec fn back_run(s: Seq<char>, c: char, to: int) -> int
    decreases to,
{
    if 0 < to <= s.len() && s[to - 1] == c {
        back_run(s, c, to - 1)
    } else {
        to
    }
}

/// `s` with every `c` taken from its start and from its end.
pub open spec fn trim_char(s: Seq<char>, c: char) -> Seq<char> {
    let start = skip_run(s, c, 0);
    let end = back_run(s, c, s.len() as int);
    if start < end {
        s.subrange(start, end)
    } else {
        Seq::empty()
    }
}

/// Where a scan stands with respect to quotation marks.
#[derive(Clone, Copy, PartialEq, Eq, Structural, Debug)]
pub enum Quote {
    /// Outside any quotation.
    Outside,
    /// Inside single quotes.
    Single,
    /// Inside double quotes.
    Double,
}

/// The quotation state after reading `c` in state `q`: a single quote opens
/// or closes single quotes unless double quotes are open, and the other way
/// round.
pub open spec fn quote_after(q: Quote, c: char) -> Quote {
    match q {
        Quote::Outside => if c == '\'' {
            Quote::Single
        } else if c == '"' {
            Quote::Double
        } else {
            Quote::Outside
        },
        Quote::Single => if c == '\'' {
            Quote::Outside
        } else {
            Quote::Single
        },
        Quote::Double => if c == '"' {
            Quote::Outside
        } else {
            Quote::Double
        },
    }
}

/// The index of the first `target` at or after `from` that stands outside
/// quotation marks, the scan being in state `q` at `from`; the length of `s`
/// where there is none.
pub open spec fn find_unquoted_from(s: Seq<char>, target: char, from: int, q: Quote) -> int
    decreases s.len() - from,
{
    if 0 <= from < s.len() {
        if q == Quote::Outside && s[from] == target {
            from
        } else {
            find_unquoted_from(s, target, from + 1, quote_after(q, s[from]))
        }
    } else {
        s.len() as int
    }
}

/// The index of the first `target` in `s` outside quotation marks, or the
/// length of `s`.
pub open spec fn find_unquoted(s: Seq<char>, target: char) -> int {
    find_unquoted_from(s, target, 0, Quote::Outside)
}

/// The index of the first `c` at or after `from`, or the length of `s`.
pub open spec fn index_of_from(s: Seq<char>, c: char, from: int) -> int
    decreases s.len() - from,
{
    if 0 <= from < s.len() {
        if s[from] == c {
            from
        } else {
            index_of_from(s, c, from + 1)
        }
    } else {
        s.len() as int
    }
}

/// A line as it stands before its line feed: without one trailing carriage
/// return.
pub open spec fn without_cr(s: Seq<char>) -> Seq<char> {
    if s.len() > 0 && s.last() == '\r' {
        s.drop_last()
    } else {
        s
    }
}

/// The lines of `text`. A line ends at a line feed; the line feed, and a
/// carriage return just before it, are not part of the line. What follows
/// the last line feed is a line of its own unless it is empty.
pub open spec fn lines_of(text: Seq<char>) -> Seq<Seq<char>>
    decreases text.len(),
{
    if text.len() == 0 {
        Seq::empty()
    } else {
        let n = index_of_from(text, '\n', 0);
        if 0 <= n < text.len() {
            seq![without_cr(text.take(n))] + lines_of(text.skip(n + 1))
        } else {
            seq![text]
        }
    }
}

pub proof fn lemma_index_of_bounds(s: Seq<char>, c: char, from: int)
    requires
        0 <= from <= s.len(),
    ensures
        from <= index_of_from(s, c, from) <= s.len(),
        index_of_from(s, c, from) < s.len() ==> s[index_of_from(s, c, from)] == c,
        forall|i: int| from <= i < index_of_from(s, c, from) ==> #[trigger] s[i] != c,
    decreases s.len() - from,
{
    if from < s.len() && s[from] != c {
        lemma_index_of_bounds(s, c, from + 1);
    }
}

/// The characters of `s`, in order.
pub fn chars_of(s: &str) -> (out: Vec<char>)
    ensures
        out@ == s@,
{
    let mut out: Vec<char> = Vec::new();
    for c in it: s.chars()
        invariant
            it.seq() == s@,
            out@ == s@.take(it.index() as int),
    {
        out.push(c);
    }
    out
}

/// `String::push` appends one character.
#[verifier::external_body]
fn push_char(s: &mut String, c: char)
    ensures
        final(s)@ == old(s)@.push(c),
{
    s.push(c)
}

/// A string of the characters `chars[from..to]`.
pub fn string_of(chars: &Vec<char>, from: usize, to: usize) -> (out: String)
    requires
        from <= to <= chars.len(),
    ensures
        out@ == chars@.subrange(from as int, to as int),
{
    let mut out = String::new();
    let mut i: usize = from;
    while i < to
        invariant
            from <= i <= to <= chars.len(),
            out@ == chars@.subrange(from as int, i as int),
        decreases to - i,
    {
        push_char(&mut out, chars[i]);
        i += 1;
        assert(chars@.subrange(from as int, i as int) == chars@.subrange(
            from as int,
            i as int - 1,
        ).push(chars@[i as int - 1]));
    }
    out
}

/// A copy of `chars[from..to]`.
pub fn slice_of(chars: &Vec<char>, from: usize, to: usize) -> (out: Vec<char>)
    requires
        from <= to <= chars.len(),
    ensures
        out@ == chars@.subrange(from as int, to as int),
{
    let mut out: Vec<char> = Vec::new();
    let mut i: usize = from;
    while i < to
        invariant
            from <= i <= to <= chars.len(),
            out@ == chars@.subrange(from as int, i as int),
        decreases to - i,
    {
        out.push(chars[i]);
        i += 1;
        assert(chars@.subrange(from as int, i as int) == chars@.subrange(
            from as int,
            i as int - 1,
        ).push(chars@[i as int - 1]));
    }
    out
}

/// Appends the characters of `tail` to `buf`.
pub fn push_all(buf: &mut Vec<char>, tail: &Vec<char>)
    ensures
        final(buf)@ == old(buf)@ + tail@,
{
    let mut i: usize = 0;
    while i < tail.len()
        invariant
            i <= tail.len(),
            buf@ == old(buf)@ + tail@.take(i as int),
        decreases tail.len() - i,
    {
        buf.push(tail[i]);
        i += 1;
        assert(tail@.take(i as int) == tail@.take(i as int - 1).push(tail@[i as int - 1]));
    }
    assert(tail@.take(tail.len() as int) == tail@);
}

/// Whether two character sequences are the same.
pub fn same_chars(a: &Vec<char>, b: &Vec<char>) -> (r: bool)
    ensures
        r == (a@ == b@),
{
    if a.len() != b.len() {
        return false;
    }
    let mut i: usize = 0;
    while i < a.len()
        invariant
            i <= a.len(),
            a.len() == b.len(),
            forall|j: int| 0 <= j < i ==> a@[j] == b@[j],
        decreases a.len() - i,
    {
        if a[i] != b[i] {
            return false;
        }
        i += 1;
    }
    assert(a@ =~= b@);
    true
}

/// The index of the first non-space character at or after `from`.
pub fn skip_space_at(s: &Vec<char>, from: usize) -> (r: usize)
    requires
        from <= s.len(),
    ensures
        r == skip_space(s@, from as int),
        from <= r <= s.len(),
{
    let mut i: usize = from;
    while i < s.len() && is_space(s[i])
        invariant
            from <= i <= s.len(),
            skip_space(s@, i as int) == skip_space(s@, from as int),
        decreases s.len() - i,
    {
        i += 1;
    }
    i
}

/// Whether `s[from..to]` holds only white space.
pub fn is_all_space(s: &Vec<char>, from: usize, to: usize) -> (r: bool)
    requires
        from <= to <= s.len(),
    ensures
        r == all_space(s@.subrange(from as int, to as int)),
{
    let ghost part = s@.subrange(from as int, to as int);
    let mut i: usize = from;
    while i < to
        invariant
            from <= i <= to <= s.len(),
            part == s@.subrange(from as int, to as int),
            forall|j: int| 0 <= j < i - from ==> is_space_char(#[trigger] part[j]),
        decreases to - i,
    {
        if !is_space(s[i]) {
            assert(part[i - from] == s@[i as int]);
            return false;
        }
        assert(part[i - from] == s@[i as int]);
        i += 1;
    }
    true
}

/// `s` without leading white space and without the quotation marks around
/// it: first every single quote at either end goes, then every double quote.
pub open spec fn unquoted(s: Seq<char>) -> Seq<char> {
    trim_char(trim_char(trim_start(s), '\''), '"')
}

/// Computes `trim_char` on `s[from..to]`, as a pair of bounds.
fn trim_char_bounds(s: &Vec<char>, c: char, from: usize, to: usize) -> (r: (usize, usize))
    requires
        from <= to <= s.len(),
    ensures
        from <= r.0 <= r.1 <= to,
        s@.subrange(r.0 as int, r.1 as int) == trim_char(s@.subrange(from as int, to as int), c),
{
    let ghost part = s@.subrange(from as int, to as int);
    let mut a: usize = from;
    while a < to && s[a] == c
        invariant
            from <= a <= to <= s.len(),
            part == s@.subrange(from as int, to as int),
            skip_run(part, c, a - from) == skip_run(part, c, 0),
        decreases to - a,
    {
        a += 1;
    }
    let mut b: usize = to;
    while b > from && s[b - 1] == c
        invariant
            from <= b <= to <= s.len(),
            part == s@.subrange(from as int, to as int),
            back_run(part, c, b - from) == back_run(part, c, part.len() as int),
        decreases b,
    {
        b -= 1;
    }
    if a < b {
        assert(part.subrange(a - from, b - from) == s@.subrange(a as int, b as int));
        (a, b)
    } else {
        assert(s@.subrange(a as int, a as int) == Seq::<char>::empty());
        (a, a)
    }
}

/// The key text that `s[from..to]` holds: see `unquoted`.
pub fn unquote(s: &Vec<char>, from: usize, to: usize) -> (out: Vec<char>)
    requires
        from <= to <= s.len(),
    ensures
        out@ == unquoted(s@.subrange(from as int, to as int)),
{
    let ghost part = s@.subrange(from as int, to as int);
    let mut a: usize = from;
    while a < to && is_space(s[a])
        invariant
            from <= a <= to <= s.len(),
            part == s@.subrange(from as int, to as int),
            skip_space(part, a - from) == skip_space(part, 0),
        decreases to - a,
    {
        a += 1;
    }
    assert(s@.subrange(a as int, to as int) == trim_start(part));
    let (b, e) = trim_char_bounds(s, '\'', a, to);
    let (b2, e2) = trim_char_bounds(s, '"', b, e);
    slice_of(s, b2, e2)
}

/// The index of the first `target` in `s[..to]` outside quotation marks, or
/// `to` where there is none.
pub fn find_unquoted_in(s: &Vec<char>, target: char, to: usize) -> (r: usize)
    requires
        to <= s.len(),
    ensures
        r == find_unquoted(s@.take(to as int), target),
        r <= to,
{
    let ghost part = s@.take(to as int);
    let mut q = Quote::Outside;
    let mut i: usize = 0;
    while i < to
        invariant
            i <= to <= s.len(),
            part == s@.take(to as int),
            find_unquoted_from(part, target, i as int, q) == find_unquoted(part, target),
        decreases to - i,
    {
        let c = s[i];
        if q == Quote::Outside && c == target {
            return i;
        }
        q =
        match q {
            Quote::Outside => if c == '\'' {
                Quote::Single
            } else if c == '"' {
                Quote::Double
            } else {
                Quote::Outside
            },
            Quote::Single => if c == '\'' {
                Quote::Outside
            } else {
                Quote::Single
            },
            Quote::Double => if c == '"' {
                Quote::Outside
            } else {
                Quote::Double
            },
        };
        i += 1;
    }
    to
}

/// What a vector of lines holds.
pub open spec fn rows(lines: Seq<Vec<char>>) -> Seq<Seq<char>> {
    lines.map_values(|line: Vec<char>| line@)
}

/// Splits text into its lines.
pub fn split_lines(text: &Vec<char>) -> (out: Vec<Vec<char>>)
    ensures
        rows(out@) == lines_of(text@),
{
    let mut out: Vec<Vec<char>> = Vec::new();
    let mut start: usize = 0;
    let mut i: usize = 0;
    assert(rows(out@) =~= Seq::<Seq<char>>::empty());
    assert(text@.skip(0) == text@);
    while i < text.len()
        invariant
            start <= i <= text.len(),
            index_of_from(text@.skip(start as int), '\n', i - start) == index_of_from(
                text@.skip(start as int),
                '\n',
                0,
            ),
            rows(out@) + lines_of(text@.skip(start as int)) == lines_of(text@),
        decreases text.len() - i,
    {
        let ghost rest = text@.skip(start as int);
        if text[i] == '\n' {
            let end: usize = if i > start && text[i - 1] == '\r' {
                i - 1
            } else {
                i
            };
            let line = slice_of(text, start, end);
            proof {
                lemma_index_of_bounds(rest, '\n', i - start);
                assert(rest[i - start] == '\n');
                assert(index_of_from(rest, '\n', 0) == i - start);
                assert(rest.take(i - start) == text@.subrange(start as int, i as int));
                assert(line@ == without_cr(rest.take(i - start))) by {
                    if i > start {
                        assert(rest.take(i - start).last() == text@[i - 1]);
                        assert(rest.take(i - start).drop_last() == text@.subrange(
                            start as int,
                            i - 1,
                        ));
                    }
                }
                assert(rest.skip(i - start + 1) == text@.skip(i + 1));
                assert(lines_of(rest) == seq![line@] + lines_of(text@.skip(i + 1)));
                assert(rows(out@).push(line@) + lines_of(text@.skip(i + 1)) == rows(out@)
                    + lines_of(rest));
            }
            let ghost before = rows(out@);
            out.push(line);
            assert(rows(out@) =~= before.push(line@));
            start = i + 1;
        }
        i += 1;
    }
    let ghost rest = text@.skip(start as int);
    if start < text.len() {
        let line = slice_of(text, start, text.len());
        proof {
            assert(line@ == rest);
            assert(index_of_from(rest, '\n', rest.len() as int) == rest.len());
            assert(lines_of(rest) == seq![rest]);
            assert(rows(out@).push(line@) == rows(out@) + lines_of(rest));
        }
        let ghost before = rows(out@);
        out.push(line);
        assert(rows(out@) =~= before.push(line@));
    } else {
        assert(rest.len() == 0);
        assert(rows(out@) + lines_of(rest) == rows(out@));
    }
    out
}

} // verus!
