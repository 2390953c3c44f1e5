//! Characters and character sequences: white space, trimming, searching
//! and physical lines.
//!
//! The model of a piece of text is its sequence of characters. Everything
//! here is stated over `Seq<char>`; the executable functions work on `&str`
//! and on `Vec<char>` and are proved against those statements.

use vstd::prelude::*;

verus! {

/// Whether `c` has the Unicode property `White_Space`.
pub open spec fn is_whitespace(c: char) -> bool {
    let u = c as u32;
    ||| 0x09 <= u <= 0x0D
    ||| u == 0x20
    ||| u == 0x85
    ||| u == 0xA0
    ||| u == 0x1680
    ||| 0x2000 <= u <= 0x200A
    ||| u == 0x2028
    ||| u == 0x2029
    ||| u == 0x202F
    ||| u == 0x205F
    ||| u == 0x3000
}

/// The number of white-space characters that `s` starts with.
pub open spec fn leading_blanks(s: Seq<char>) -> nat
    decreases s.len(),
{
    if s.len() > 0 && is_whitespace(s.first()) {
        1 + leading_blanks(s.drop_first())
    } else {
        0
    }
}

/// The number of white-space characters that `s` ends with.
pub open spec fn trailing_blanks(s: Seq<char>) -> nat
    decreases s.len(),
{
    if s.len() > 0 && is_whitespace(s.last()) {
        1 + trailing_blanks(s.drop_last())
    } else {
        0
    }
}

/// `s` without the white space at its start and at its end.
pub open spec fn trim(s: Seq<char>) -> Seq<char> {
    let from = leading_blanks(s) as int;
    let to = s.len() - trailing_blanks(s);
    if from < to {
        s.subrange(from, to)
    } else {
        Seq::empty()
    }
}

/// Whether `s` neither starts nor ends with white space.
pub open spec fn is_trimmed(s: Seq<char>) -> bool {
    s.len() > 0 ==> !is_whitespace(s.first()) && !is_whitespace(s.last())
}

/// The index of the first `c` in `s`, or `s.len()` where `s` holds none.
pub open spec fn first_index(s: Seq<char>, c: char) -> int
    decreases s.len(),
{
    if s.len() == 0 || s.first() == c {
        0
    } else {
        1 + first_index(s.drop_first(), c)
    }
}

/// `line` without one carriage return at its end, if it has one.
pub open spec fn without_cr(line: Seq<char>) -> Seq<char> {
    if line.len() > 0 && line.last() == '\r' {
        line.drop_last()
    } else {
        line
    }
}

/// The physical lines of `text`.
///
/// A line ends at a line feed; a carriage return directly before that line
/// feed belongs to the line ending. Neither is part of the line. The last
/// line need not be terminated, and then keeps a carriage return at its end.
/// An empty text has no lines.
pub open spec fn lines(text: Seq<char>) -> Seq<Seq<char>>
    decreases text.len(),
{
    if text.len() == 0 {
        Seq::empty()
    } else {
        let feed = first_index(text, '\n');
        if 0 <= feed < text.len() {
            seq![without_cr(text.subrange(0, feed))] + lines(
                text.subrange(feed + 1, text.len() as int),
            )
        } else {
            seq![text]
        }
    }
}

/// The line ending that stands behind `head`, where `head` is what stands
/// between one line feed, or the start of the text, and the next line
/// feed: a carriage return and a line feed where `head` ends in a carriage
/// return, a line feed otherwise.
pub open spec fn ending_after(head: Seq<char>) -> Seq<char> {
    if head.len() > 0 && head.last() == '\r' {
        seq!['\r', '\n']
    } else {
        seq!['\n']
    }
}

/// The line ending of each physical line of `text`: a line feed, a carriage
/// return and a line feed, or nothing behind a last line that is not
/// terminated.
pub open spec fn endings(text: Seq<char>) -> Seq<Seq<char>>
    decreases text.len(),
{
    if text.len() == 0 {
        Seq::empty()
    } else {
        let feed = first_index(text, '\n');
        if 0 <= feed < text.len() {
            seq![ending_after(text.subrange(0, feed))] + endings(
                text.subrange(feed + 1, text.len() as int),
            )
        } else {
            seq![Seq::empty()]
        }
    }
}

/// The text made of `lines`, each followed by its ending.
pub open spec fn joined(lines: Seq<Seq<char>>, endings: Seq<Seq<char>>) -> Seq<char>
    decreases lines.len(),
{
    if lines.len() == 0 {
        Seq::empty()
    } else {
        joined(lines.drop_last(), endings.drop_last()) + lines.last() + endings.last()
    }
}

/// `s` without the white space at its start.
pub open spec fn trim_start(s: Seq<char>) -> Seq<char> {
    s.subrange(leading_blanks(s) as int, s.len() as int)
}

/// The lines of a sequence of lines with their endings.
pub open spec fn line_parts(parts: Seq<(&str, &str)>) -> Seq<Seq<char>> {
    Seq::new(parts.len(), |i: int| parts[i].0@)
}

/// The endings of a sequence of lines with their endings.
pub open spec fn ending_parts(parts: Seq<(&str, &str)>) -> Seq<Seq<char>> {
    Seq::new(parts.len(), |i: int| parts[i].1@)
}

/// The character sequences of a sequence of string slices.
pub open spec fn views(parts: Seq<&str>) -> Seq<Seq<char>> {
    Seq::new(parts.len(), |i: int| parts[i]@)
}

/// `leading_blanks(s)` is the length of the longest white-space prefix.
pub proof fn lemma_leading_blanks(s: Seq<char>)
    ensures
        leading_blanks(s) <= s.len(),
        forall|i: int| 0 <= i < leading_blanks(s) ==> is_whitespace(#[trigger] s[i]),
        leading_blanks(s) < s.len() ==> !is_whitespace(s[leading_blanks(s) as int]),
    decreases s.len(),
{
    if s.len() > 0 && is_whitespace(s.first()) {
        let rest = s.drop_first();
        lemma_leading_blanks(rest);
        assert forall|i: int| 0 <= i < leading_blanks(s) implies is_whitespace(#[trigger] s[i]) by {
            if i > 0 {
                assert(s[i] == rest[i - 1]);
            }
        }
        if leading_blanks(s) < s.len() {
            assert(s[leading_blanks(s) as int] == rest[leading_blanks(rest) as int]);
        }
    }
}

/// An index with white space before it and none at it is `leading_blanks(s)`.
pub proof fn lemma_leading_blanks_is(s: Seq<char>, n: int)
    requires
        0 <= n <= s.len(),
        forall|i: int| 0 <= i < n ==> is_whitespace(#[trigger] s[i]),
        n < s.len() ==> !is_whitespace(s[n]),
    ensures
        leading_blanks(s) == n,
    decreases s.len(),
{
    if n > 0 {
        let rest = s.drop_first();
        assert(is_whitespace(s[0]));
        assert forall|i: int| 0 <= i < n - 1 implies is_whitespace(#[trigger] rest[i]) by {
            assert(rest[i] == s[i + 1]);
        }
        lemma_leading_blanks_is(rest, n - 1);
    }
}

/// `trailing_blanks(s)` is the length of the longest white-space suffix.
pub proof fn lemma_trailing_blanks(s: Seq<char>)
    ensures
        trailing_blanks(s) <= s.len(),
        forall|i: int| s.len() - trailing_blanks(s) <= i < s.len() ==> is_whitespace(#[trigger] s[i]),
        trailing_blanks(s) < s.len() ==> !is_whitespace(s[s.len() - trailing_blanks(s) - 1]),
    decreases s.len(),
{
    if s.len() > 0 && is_whitespace(s.last()) {
        let rest = s.drop_last();
        lemma_trailing_blanks(rest);
        assert forall|i: int| s.len() - trailing_blanks(s) <= i < s.len() implies is_whitespace(
            #[trigger] s[i],
        ) by {
            if i < s.len() - 1 {
                assert(s[i] == rest[i]);
            }
        }
        if trailing_blanks(s) < s.len() {
            assert(s[s.len() - trailing_blanks(s) - 1] == rest[rest.len() - trailing_blanks(rest)
                - 1]);
        }
    }
}

/// A count with white space behind it and none before it is `trailing_blanks(s)`.
pub proof fn lemma_trailing_blanks_is(s: Seq<char>, n: int)
    requires
        0 <= n <= s.len(),
        forall|i: int| s.len() - n <= i < s.len() ==> is_whitespace(#[trigger] s[i]),
        n < s.len() ==> !is_whitespace(s[s.len() - n - 1]),
    ensures
        trailing_blanks(s) == n,
    decreases s.len(),
{
    if n > 0 {
        let rest = s.drop_last();
        assert(is_whitespace(s[s.len() - 1]));
        assert forall|i: int| rest.len() - (n - 1) <= i < rest.len() implies is_whitespace(
            #[trigger] rest[i],
        ) by {
            assert(rest[i] == s[i]);
        }
        lemma_trailing_blanks_is(rest, n - 1);
    }
}

/// What `trim` returns is trimmed, and holds no more than `s`.
pub proof fn lemma_trim_is_trimmed(s: Seq<char>)
    ensures
        is_trimmed(trim(s)),
        trim(s).len() <= s.len(),
{
    lemma_leading_blanks(s);
    lemma_trailing_blanks(s);
}

/// A sequence of white space only trims to nothing.
pub proof fn lemma_trim_of_blank(s: Seq<char>)
    requires
        forall|i: int| 0 <= i < s.len() ==> is_whitespace(#[trigger] s[i]),
    ensures
        trim(s) == Seq::<char>::empty(),
{
    lemma_leading_blanks_is(s, s.len() as int);
}

/// White space round a trimmed sequence trims away, and nothing else does.
pub proof fn lemma_trim_of_padded(before: Seq<char>, core: Seq<char>, after: Seq<char>)
    requires
        forall|i: int| 0 <= i < before.len() ==> is_whitespace(#[trigger] before[i]),
        forall|i: int| 0 <= i < after.len() ==> is_whitespace(#[trigger] after[i]),
        is_trimmed(core),
    ensures
        trim(before + core + after) == core,
{
    let s = before + core + after;
    if core.len() == 0 {
        lemma_trim_of_blank(s);
    } else {
        assert(s[before.len() as int] == core.first());
        assert(s[before.len() + core.len() - 1] == core.last());
        lemma_leading_blanks_is(s, before.len() as int);
        lemma_trailing_blanks_is(s, after.len() as int);
        assert(s.subrange(before.len() as int, (before.len() + core.len()) as int) == core);
    }
}

/// Where `first_index` points: at the first `c`, or behind the end.
pub proof fn lemma_first_index(s: Seq<char>, c: char)
    ensures
        0 <= first_index(s, c) <= s.len(),
        forall|i: int| 0 <= i < first_index(s, c) ==> #[trigger] s[i] != c,
        first_index(s, c) < s.len() ==> s[first_index(s, c)] == c,
    decreases s.len(),
{
    if !(s.len() == 0 || s.first() == c) {
        let rest = s.drop_first();
        lemma_first_index(rest, c);
        assert forall|i: int| 0 <= i < first_index(s, c) implies #[trigger] s[i] != c by {
            if i > 0 {
                assert(s[i] == rest[i - 1]);
            }
        }
        if first_index(s, c) < s.len() {
            assert(s[first_index(s, c)] == rest[first_index(rest, c)]);
        }
    }
}

/// An index with no `c` before it, and `c` at it or the end, is `first_index`.
pub proof fn lemma_first_index_is(s: Seq<char>, c: char, n: int)
    requires
        0 <= n <= s.len(),
        forall|i: int| 0 <= i < n ==> #[trigger] s[i] != c,
        n < s.len() ==> s[n] == c,
    ensures
        first_index(s, c) == n,
    decreases s.len(),
{
    if n > 0 {
        let rest = s.drop_first();
        assert(s[0] != c);
        assert forall|i: int| 0 <= i < n - 1 implies #[trigger] rest[i] != c by {
            assert(rest[i] == s[i + 1]);
        }
        lemma_first_index_is(rest, c, n - 1);
    }
}

/// Whether `c` is a white-space character.
pub fn whitespace(c: char) -> (r: bool)
    ensures
        r == is_whitespace(c),
{
    let u: u32 = c as u32;
    (0x09 <= u && u <= 0x0D) || u == 0x20 || u == 0x85 || u == 0xA0 || u == 0x1680 || (0x2000 <= u
        && u <= 0x200A) || u == 0x2028 || u == 0x2029 || u == 0x202F || u == 0x205F || u == 0x3000
}

/// The characters of `s`, in order.
pub fn chars_of(s: &str) -> (cs: Vec<char>)
    ensures
        cs@ == s@,
{
    let mut cs: Vec<char> = Vec::new();
    for c in it: s.chars()
        invariant
            it.seq() == s@,
            cs@ == s@.take(it.index()),
    {
        cs.push(c);
    }
    cs
}

/// Whether two string slices hold the same characters.
pub fn same_text(a: &str, b: &str) -> (r: bool)
    ensures
        r == (a@ == b@),
{
    a.to_owned() == b.to_owned()
}

/// The first index of `c` in `cs[from..to]`, counted in `cs`, or `to`.
pub fn find_in(cs: &Vec<char>, from: usize, to: usize, c: char) -> (at: usize)
    requires
        from <= to <= cs.len(),
    ensures
        from <= at <= to,
        at - from == first_index(cs@.subrange(from as int, to as int), c),
{
    let mut at: usize = from;
    while at < to && cs[at] != c
        invariant
            from <= at <= to <= cs.len(),
            forall|i: int| from <= i < at ==> cs[i] != c,
        decreases to - at,
    {
        at = at + 1;
    }
    proof {
        lemma_first_index_is(cs@.subrange(from as int, to as int), c, at - from);
    }
    at
}

/// The bounds, counted in `cs`, of `cs[from..to]` trimmed.
pub fn trim_in(cs: &Vec<char>, from: usize, to: usize) -> (bounds: (usize, usize))
    requires
        from <= to <= cs.len(),
    ensures
        from <= bounds.0 <= bounds.1 <= to,
        cs@.subrange(bounds.0 as int, bounds.1 as int) == trim(
            cs@.subrange(from as int, to as int),
        ),
{
    let ghost part = cs@.subrange(from as int, to as int);
    let mut first: usize = from;
    while first < to && whitespace(cs[first])
        invariant
            from <= first <= to <= cs.len(),
            forall|i: int| from <= i < first ==> is_whitespace(cs[i]),
        decreases to - first,
    {
        first = first + 1;
    }
    let mut last: usize = to;
    while last > first && whitespace(cs[last - 1])
        invariant
            first <= last <= to <= cs.len(),
            forall|i: int| last <= i < to ==> is_whitespace(cs[i]),
        decreases last,
    {
        last = last - 1;
    }
    proof {
        lemma_leading_blanks_is(part, first - from);
        if first < to {
            lemma_trailing_blanks_is(part, to - last);
            assert(part.subrange(first - from, last - from) == cs@.subrange(
                first as int,
                last as int,
            ));
        } else {
            lemma_trailing_blanks(part);
        }
    }
    (first, last)
}

/// `s` without the white space at its start and at its end.
pub fn trimmed(s: &str) -> (t: &str)
    ensures
        t@ == trim(s@),
{
    let cs = chars_of(s);
    let (first, last) = trim_in(&cs, 0, cs.len());
    assert(cs@.subrange(0, cs.len() as int) == cs@);
    s.substring_char(first, last)
}

/// The number of white-space characters that `cs` starts with.
pub fn blanks_before(cs: &Vec<char>) -> (count: usize)
    ensures
        count == leading_blanks(cs@),
        count <= cs.len(),
{
    let mut count: usize = 0;
    while count < cs.len() && whitespace(cs[count])
        invariant
            count <= cs.len(),
            forall|i: int| 0 <= i < count ==> is_whitespace(cs[i]),
        decreases cs.len() - count,
    {
        count = count + 1;
    }
    proof {
        lemma_leading_blanks_is(cs@, count as int);
    }
    count
}

/// `s` without the white space at its start.
pub fn trimmed_start(s: &str) -> (t: &str)
    ensures
        t@ == trim_start(s@),
{
    let cs = chars_of(s);
    let first = blanks_before(&cs);
    s.substring_char(first, cs.len())
}

/// The physical lines of `text` with their endings, in order; see
/// [`lines`] and [`endings`].
///
/// Each line is cut out of `text` by counting characters from its start,
/// so the time taken grows with the length of the text times the number of
/// its lines.
pub fn split_text(text: &str) -> (out: Vec<(&str, &str)>)
    ensures
        line_parts(out@) == lines(text@),
        ending_parts(out@) == endings(text@),
{
    let cs = chars_of(text);
    let n = cs.len();
    let mut out: Vec<(&str, &str)> = Vec::new();
    let mut start: usize = 0;
    assert(text@.subrange(0, n as int) == text@);
    while start < n
        invariant
            cs@ == text@,
            n == cs.len(),
            start <= n,
            line_parts(out@) + lines(text@.subrange(start as int, n as int)) == lines(text@),
            ending_parts(out@) + endings(text@.subrange(start as int, n as int)) == endings(
                text@,
            ),
        decreases n - start,
    {
        let ghost rest = text@.subrange(start as int, n as int);
        let ghost before = line_parts(out@);
        let ghost ended = ending_parts(out@);
        let feed = find_in(&cs, start, n, '\n');
        if feed == n {
            let line = text.substring_char(start, n);
            let ending = text.substring_char(n, n);
            out.push((line, ending));
            proof {
                assert(ending@ =~= Seq::<char>::empty());
                assert(lines(rest) == seq![rest]);
                assert(endings(rest) == seq![Seq::<char>::empty()]);
                assert(lines(text@.subrange(n as int, n as int)) == Seq::<Seq<char>>::empty());
                assert(endings(text@.subrange(n as int, n as int)) == Seq::<Seq<char>>::empty());
                assert(line_parts(out@) == before + seq![rest]);
                assert(ending_parts(out@) == ended + seq![Seq::<char>::empty()]);
            }
            start = n;
        } else {
            let end = if feed > start && cs[feed - 1] == '\r' {
                feed - 1
            } else {
                feed
            };
            let line = text.substring_char(start, end);
            let ending = text.substring_char(end, feed + 1);
            out.push((line, ending));
            proof {
                let whole = rest.subrange(0, feed - start);
                let after = text@.subrange(feed + 1, n as int);
                assert(whole == text@.subrange(start as int, feed as int));
                assert(line@ == without_cr(whole));
                lemma_first_index(rest, '\n');
                assert(text@[feed as int] == rest[feed - start]);
                if end < feed {
                    assert(whole.last() == '\r');
                    assert(ending@ =~= seq!['\r', '\n']);
                } else {
                    assert(ending@ =~= seq!['\n']);
                }
                assert(ending@ == ending_after(whole));
                assert(rest.subrange(feed - start + 1, rest.len() as int) == after);
                assert(line_parts(out@) == before + seq![line@]);
                assert(ending_parts(out@) == ended + seq![ending@]);
                assert(lines(rest) == seq![line@] + lines(after));
                assert(endings(rest) == seq![ending@] + endings(after));
                assert(before + (seq![line@] + lines(after)) == before + seq![line@] + lines(
                    after,
                ));
                assert(ended + (seq![ending@] + endings(after)) == ended + seq![ending@]
                    + endings(after));
            }
            start = feed + 1;
        }
    }
    assert(lines(text@.subrange(n as int, n as int)) == Seq::<Seq<char>>::empty());
    assert(endings(text@.subrange(n as int, n as int)) == Seq::<Seq<char>>::empty());
    assert(line_parts(out@) + Seq::<Seq<char>>::empty() == line_parts(out@));
    assert(ending_parts(out@) + Seq::<Seq<char>>::empty() == ending_parts(out@));
    out
}

/// The physical lines of `text`, in order; see [`lines`].
pub fn split_lines(text: &str) -> (out: Vec<&str>)
    ensures
        views(out@) == lines(text@),
{
    let parts = split_text(text);
    let mut out: Vec<&str> = Vec::new();
    let mut done: usize = 0;
    while done < parts.len()
        invariant
            done <= parts.len(),
            views(out@) == line_parts(parts@).take(done as int),
        decreases parts.len() - done,
    {
        let ghost before = views(out@);
        out.push(parts[done].0);
        assert(views(out@) == before.push(parts[done as int].0@));
        assert(line_parts(parts@).take(done as int).push(parts[done as int].0@) == line_parts(
            parts@,
        ).take(done + 1));
        done = done + 1;
    }
    assert(line_parts(parts@).take(parts.len() as int) == line_parts(parts@));
    out
}

} // verus!
