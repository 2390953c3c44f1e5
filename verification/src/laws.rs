//! What holds of the diff builder and the patch rewriter together.

use crate::diff::{changes, differs, last_differing, lemma_last_differing};
use crate::line::{comment_of, is_assignment, key_of, raw_value_of, remainder, value_of};
use crate::rewrite::{
    assign_mark, is_touched, kept_comment, note_mark, rewritten, rewritten_lines, rewritten_text,
};
use crate::text::{
    ending_after, endings, first_index, is_trimmed, is_whitespace, joined, leading_blanks,
    lemma_first_index, lemma_first_index_is, lemma_leading_blanks, lemma_leading_blanks_is,
    lemma_trailing_blanks, lemma_trim_is_trimmed, lemma_trim_of_blank, lemma_trim_of_padded,
    lines, trailing_blanks, trim, trim_start, without_cr,
};
use vstd::prelude::*;

verus! {

/// Whether `s` holds no `c`.
pub open spec fn lacks(s: Seq<char>, c: char) -> bool {
    forall|i: int| 0 <= i < s.len() ==> #[trigger] s[i] != c
}

/// Whether a desired value, once written, is read back as itself: it is
/// trimmed, and holds neither `;` nor a line feed.
pub open spec fn settles(value: Seq<char>) -> bool {
    &&& is_trimmed(value)
    &&& lacks(value, ';')
    &&& lacks(value, '\n')
}

/// Whether `ending` is a line ending: a line feed, or a carriage return
/// and a line feed.
pub open spec fn is_ending(ending: Seq<char>) -> bool {
    ending == seq!['\n'] || ending == seq!['\r', '\n']
}

/// Whether `endings` can stand behind `lines`: there is one for each line,
/// each is a line ending, and only behind a last line that is not empty
/// there may be none.
pub open spec fn well_ended(lines: Seq<Seq<char>>, endings: Seq<Seq<char>>) -> bool {
    &&& lines.len() == endings.len()
    &&& forall|i: int|
        0 <= i < lines.len() ==> is_ending(#[trigger] endings[i]) || (i == lines.len() - 1
            && endings[i].len() == 0 && lines[i].len() > 0)
}

proof fn lemma_trim_lacks(s: Seq<char>, c: char)
    requires
        lacks(s, c),
    ensures
        lacks(trim(s), c),
{
    lemma_leading_blanks(s);
    lemma_trailing_blanks(s);
    assert forall|i: int| 0 <= i < trim(s).len() implies #[trigger] trim(s)[i] != c by {
        assert(trim(s)[i] == s[leading_blanks(s) + i]);
    }
}

proof fn lemma_trim_drop_last_blank(s: Seq<char>)
    requires
        s.len() > 0,
        is_whitespace(s.last()),
    ensures
        trim(s.drop_last()) == trim(s),
{
    let front = s.drop_last();
    lemma_leading_blanks(s);
    lemma_trailing_blanks(s);
    lemma_trailing_blanks(front);
    let from = leading_blanks(s) as int;
    if from == s.len() {
        assert forall|i: int| 0 <= i < front.len() implies is_whitespace(#[trigger] front[i]) by {
            assert(front[i] == s[i]);
        }
        lemma_trim_of_blank(front);
        lemma_trim_of_blank(s);
    } else {
        assert forall|i: int| 0 <= i < from implies is_whitespace(#[trigger] front[i]) by {
            assert(front[i] == s[i]);
        }
        assert(front[from] == s[from]);
        lemma_leading_blanks_is(front, from);
        assert(trailing_blanks(s) == 1 + trailing_blanks(front));
        assert(trim(front) =~= trim(s));
    }
}

proof fn lemma_lines_lack_feeds(text: Seq<char>)
    ensures
        forall|i: int| 0 <= i < lines(text).len() ==> lacks(#[trigger] lines(text)[i], '\n'),
    decreases text.len(),
{
    if text.len() > 0 {
        lemma_first_index(text, '\n');
        let feed = first_index(text, '\n');
        if feed < text.len() {
            let head = without_cr(text.subrange(0, feed));
            let rest = text.subrange(feed + 1, text.len() as int);
            lemma_lines_lack_feeds(rest);
            assert forall|i: int| 0 <= i < lines(text).len() implies lacks(
                #[trigger] lines(text)[i],
                '\n',
            ) by {
                if i == 0 {
                    assert forall|j: int| 0 <= j < head.len() implies #[trigger] head[j]
                        != '\n' by {
                        assert(head[j] == text[j]);
                    }
                } else {
                    assert(lines(text)[i] == lines(rest)[i - 1]);
                }
            }
        }
    }
}

proof fn lemma_endings_fit(text: Seq<char>)
    ensures
        well_ended(lines(text), endings(text)),
    decreases text.len(),
{
    if text.len() > 0 {
        lemma_first_index(text, '\n');
        let feed = first_index(text, '\n');
        if feed < text.len() {
            let rest = text.subrange(feed + 1, text.len() as int);
            lemma_endings_fit(rest);
            assert forall|i: int| 0 <= i < lines(text).len() implies is_ending(
                #[trigger] endings(text)[i],
            ) || (i == lines(text).len() - 1 && endings(text)[i].len() == 0 && lines(text)[i].len()
                > 0) by {
                if i > 0 {
                    assert(endings(text)[i] == endings(rest)[i - 1]);
                    assert(lines(text)[i] == lines(rest)[i - 1]);
                }
            }
        }
    }
}

proof fn lemma_joined_prepend(
    first: Seq<char>,
    ending: Seq<char>,
    rest: Seq<Seq<char>>,
    ended: Seq<Seq<char>>,
)
    requires
        rest.len() == ended.len(),
    ensures
        joined(seq![first] + rest, seq![ending] + ended) == first + ending + joined(rest, ended),
    decreases rest.len(),
{
    let all = seq![first] + rest;
    let all_ended = seq![ending] + ended;
    if rest.len() == 0 {
        assert(all.drop_last() == Seq::<Seq<char>>::empty());
        assert(all.last() == first);
        assert(all_ended.last() == ending);
        assert(joined(all.drop_last(), all_ended.drop_last()) == Seq::<char>::empty());
        assert(joined(rest, ended) == Seq::<char>::empty());
        assert(joined(all, all_ended) =~= first + ending + joined(rest, ended));
    } else {
        assert(all.drop_last() == seq![first] + rest.drop_last());
        assert(all_ended.drop_last() == seq![ending] + ended.drop_last());
        assert(all.last() == rest.last());
        assert(all_ended.last() == ended.last());
        lemma_joined_prepend(first, ending, rest.drop_last(), ended.drop_last());
        let inner = joined(rest.drop_last(), ended.drop_last());
        assert(joined(all, all_ended) == (first + ending + inner) + rest.last() + ended.last());
        assert(joined(rest, ended) == inner + rest.last() + ended.last());
        assert(joined(all, all_ended) =~= first + ending + joined(rest, ended));
    }
}

proof fn lemma_lines_of_joined(all: Seq<Seq<char>>, ended: Seq<Seq<char>>)
    requires
        well_ended(all, ended),
        forall|i: int| 0 <= i < all.len() ==> lacks(#[trigger] all[i], '\n'),
    ensures
        lines(joined(all, ended)).len() == all.len(),
        forall|i: int|
            0 <= i < all.len() ==> #[trigger] lines(joined(all, ended))[i] == all[i] || lines(
                joined(all, ended),
            )[i] == without_cr(all[i]),
    decreases all.len(),
{
    if all.len() == 0 {
        assert(joined(all, ended) == Seq::<char>::empty());
    } else {
        let first = all[0];
        let ending = ended[0];
        let rest = all.drop_first();
        let rest_ended = ended.drop_first();
        let text = joined(all, ended);
        assert(all == seq![first] + rest);
        assert(ended == seq![ending] + rest_ended);
        lemma_joined_prepend(first, ending, rest, rest_ended);
        let tail = joined(rest, rest_ended);
        assert(text == first + ending + tail);
        assert forall|i: int| 0 <= i < rest.len() implies lacks(#[trigger] rest[i], '\n') by {
            assert(rest[i] == all[i + 1]);
        }
        assert(well_ended(rest, rest_ended)) by {
            assert forall|i: int| 0 <= i < rest.len() implies is_ending(
                #[trigger] rest_ended[i],
            ) || (i == rest.len() - 1 && rest_ended[i].len() == 0 && rest[i].len() > 0) by {
                assert(rest_ended[i] == ended[i + 1]);
                assert(rest[i] == all[i + 1]);
            }
        }
        lemma_lines_of_joined(rest, rest_ended);
        assert forall|j: int| 0 <= j < first.len() implies #[trigger] text[j] != '\n' by {
            assert(text[j] == first[j]);
        }
        if ending.len() == 0 {
            assert(rest.len() == 0);
            assert(tail == Seq::<char>::empty());
            assert(text == first);
            lemma_first_index_is(text, '\n', text.len() as int);
            assert(lines(text) == seq![first]);
        } else if ending == seq!['\n'] {
            let feed = first.len() as int;
            assert(text[feed] == '\n');
            lemma_first_index_is(text, '\n', feed);
            assert(text.subrange(0, feed) == first);
            assert(text.subrange(feed + 1, text.len() as int) == tail);
            assert(lines(text) == seq![without_cr(first)] + lines(tail));
        } else {
            let feed = first.len() as int + 1;
            assert(text[feed - 1] == '\r');
            assert(text[feed] == '\n');
            lemma_first_index_is(text, '\n', feed);
            let head = text.subrange(0, feed);
            assert(head == first + seq!['\r']);
            assert(without_cr(head) == first);
            assert(text.subrange(feed + 1, text.len() as int) == tail);
            assert(lines(text) == seq![first] + lines(tail));
        }
        assert forall|i: int| 0 <= i < all.len() implies #[trigger] lines(text)[i] == all[i]
            || lines(text)[i] == without_cr(all[i]) by {
            if i > 0 {
                assert(lines(text)[i] == lines(tail)[i - 1]);
                assert(all[i] == rest[i - 1]);
            }
        }
    }
}

proof fn lemma_scan_without_cr(line: Seq<char>)
    ensures
        is_assignment(without_cr(line)) == is_assignment(line),
        is_assignment(line) ==> key_of(without_cr(line)) == key_of(line),
        is_assignment(line) ==> value_of(without_cr(line)) == value_of(line),
{
    if line.len() > 0 && line.last() == '\r' {
        let short = line.drop_last();
        lemma_first_index(line, '=');
        let eq = first_index(line, '=');
        if eq < line.len() {
            assert forall|i: int| 0 <= i < eq implies #[trigger] short[i] != '=' by {
                assert(short[i] == line[i]);
            }
            assert(short[eq] == line[eq]);
            lemma_first_index_is(short, '=', eq);
            assert(short.subrange(0, eq) == line.subrange(0, eq));
            let rest = remainder(line);
            assert(remainder(short) == rest.drop_last());
            assert(rest.last() == '\r');
            lemma_first_index(rest, ';');
            let semi = first_index(rest, ';');
            if semi < rest.len() {
                assert forall|i: int| 0 <= i < semi implies #[trigger] rest.drop_last()[i]
                    != ';' by {
                    assert(rest.drop_last()[i] == rest[i]);
                }
                assert(rest.drop_last()[semi] == rest[semi]);
                lemma_first_index_is(rest.drop_last(), ';', semi);
                assert(rest.drop_last().subrange(0, semi) == rest.subrange(0, semi));
            } else {
                assert forall|i: int| 0 <= i < rest.len() - 1 implies #[trigger] rest.drop_last()[i]
                    != ';' by {
                    assert(rest.drop_last()[i] == rest[i]);
                }
                lemma_first_index_is(rest.drop_last(), ';', rest.len() - 1);
                assert(rest.subrange(0, rest.len() as int) == rest);
                assert(rest.drop_last().subrange(0, rest.len() - 1) == rest.drop_last());
                lemma_trim_drop_last_blank(rest);
            }
        } else {
            assert forall|i: int| 0 <= i < short.len() implies #[trigger] short[i] != '=' by {
                assert(short[i] == line[i]);
            }
            lemma_first_index_is(short, '=', short.len() as int);
        }
    }
}

proof fn lemma_scan_annotated(key: Seq<char>, desired: Seq<char>, tail: Seq<char>)
    requires
        is_trimmed(key),
        lacks(key, '='),
        is_trimmed(desired),
        lacks(desired, ';'),
    ensures
        is_assignment(key + assign_mark() + desired + note_mark() + tail),
        key_of(key + assign_mark() + desired + note_mark() + tail) == key,
        value_of(key + assign_mark() + desired + note_mark() + tail) == desired,
{
    let line = key + assign_mark() + desired + note_mark() + tail;
    let eq = key.len() as int + 1;
    assert forall|i: int| 0 <= i < eq implies #[trigger] line[i] != '=' by {
        if i < key.len() {
            assert(line[i] == key[i]);
        }
    }
    assert(line[eq] == '=');
    lemma_first_index_is(line, '=', eq);
    assert(line.subrange(0, eq) == Seq::<char>::empty() + key + seq![' ']);
    lemma_trim_of_padded(Seq::empty(), key, seq![' ']);

    let rest = remainder(line);
    assert(rest == seq![' '] + desired + note_mark() + tail);
    let semi = desired.len() as int + 2;
    assert forall|i: int| 0 <= i < semi implies #[trigger] rest[i] != ';' by {
        if 1 <= i <= desired.len() {
            assert(rest[i] == desired[i - 1]);
        }
    }
    assert(rest[semi] == ';');
    lemma_first_index_is(rest, ';', semi);
    assert(rest.subrange(0, semi) == seq![' '] + desired + seq![' ']);
    lemma_trim_of_padded(seq![' '], desired, seq![' ']);
}

proof fn lemma_differing_has_entry(
    mapping: Map<Seq<char>, Seq<char>>,
    lines: Seq<Seq<char>>,
    at: int,
)
    requires
        0 <= at < lines.len(),
        differs(mapping, lines[at]),
    ensures
        changes(mapping, lines).contains_key(key_of(lines[at])),
{
    lemma_last_differing(mapping, lines, key_of(lines[at]));
}

proof fn lemma_rewritten_agrees(mapping: Map<Seq<char>, Seq<char>>, old: Seq<Seq<char>>, at: int)
    requires
        0 <= at < old.len(),
        forall|key: Seq<char>| #[trigger]
            changes(mapping, old).contains_key(key) ==> settles(mapping[key]),
    ensures
        !differs(mapping, rewritten(changes(mapping, old), old[at])),
        !differs(mapping, without_cr(rewritten(changes(mapping, old), old[at]))),
        old[at].len() > 0 ==> rewritten(changes(mapping, old), old[at]).len() > 0,
{
    let todo = changes(mapping, old);
    let line = old[at];
    if is_touched(todo, line) {
        let key = key_of(line);
        let desired = todo[key].0;
        let previous = trim(todo[key].1);
        lemma_last_differing(mapping, old, key);
        assert(desired == mapping[key]);
        lemma_first_index(line, '=');
        lemma_trim_is_trimmed(line.subrange(0, first_index(line, '=')));
        lemma_trim_lacks(line.subrange(0, first_index(line, '=')), '=');
        let tail = match kept_comment(comment_of(line)) {
            Some(comment) => previous + note_mark() + comment,
            None => previous,
        };
        let fresh = key + assign_mark() + desired + note_mark() + tail;
        assert(rewritten(todo, line) =~= fresh);
        lemma_scan_annotated(key, desired, tail);
        if fresh.last() == '\r' {
            assert(tail.len() > 0);
            assert(without_cr(fresh) =~= key + assign_mark() + desired + note_mark()
                + tail.drop_last());
            lemma_scan_annotated(key, desired, tail.drop_last());
        }
    } else {
        if is_assignment(line) && differs(mapping, line) {
            lemma_differing_has_entry(mapping, old, at);
        }
        lemma_scan_without_cr(line);
    }
}

proof fn lemma_rewritten_lacks_feeds(
    mapping: Map<Seq<char>, Seq<char>>,
    old: Seq<Seq<char>>,
    at: int,
)
    requires
        0 <= at < old.len(),
        forall|i: int| 0 <= i < old.len() ==> lacks(#[trigger] old[i], '\n'),
        forall|key: Seq<char>| #[trigger]
            changes(mapping, old).contains_key(key) ==> settles(mapping[key]),
    ensures
        lacks(rewritten(changes(mapping, old), old[at]), '\n'),
{
    let todo = changes(mapping, old);
    let line = old[at];
    if is_touched(todo, line) {
        let key = key_of(line);
        lemma_last_differing(mapping, old, key);
        let source = old[last_differing(mapping, old, key)];
        lemma_first_index(line, '=');
        lemma_first_index(remainder(line), ';');
        lemma_first_index(source, '=');
        lemma_first_index(remainder(source), ';');
        assert(lacks(line.subrange(0, first_index(line, '=')), '\n'));
        lemma_trim_lacks(line.subrange(0, first_index(line, '=')), '\n');
        assert(lacks(raw_value_of(source), '\n')) by {
            assert forall|j: int| 0 <= j < raw_value_of(source).len() implies #[trigger] raw_value_of(
                source,
            )[j] != '\n' by {
                assert(raw_value_of(source)[j] == source[first_index(source, '=') + 1 + j]);
            }
        }
        lemma_trim_lacks(raw_value_of(source), '\n');
        if comment_of(line) is Some {
            let comment = comment_of(line)->0;
            let kept = trim_start(comment);
            lemma_leading_blanks(comment);
            assert forall|j: int| 0 <= j < kept.len() implies #[trigger] kept[j] != '\n' by {
                assert(kept[j] == line[first_index(line, '=') + 1 + first_index(
                    remainder(line),
                    ';',
                ) + 1 + leading_blanks(comment) + j]);
            }
        }
    }
}

/// Without a differing line there is nothing to change: a file whose
/// assignments to the keys of the mapping all have the desired value gets
/// an empty change set.
pub proof fn lemma_satisfied_mapping_changes_nothing(
    mapping: Map<Seq<char>, Seq<char>>,
    lines: Seq<Seq<char>>,
)
    requires
        forall|i: int| 0 <= i < lines.len() ==> !differs(mapping, #[trigger] lines[i]),
    ensures
        changes(mapping, lines) == Map::<Seq<char>, (Seq<char>, Seq<char>)>::empty(),
{
    assert forall|key: Seq<char>| !(#[trigger] changes(mapping, lines).contains_key(key)) by {
        lemma_last_differing(mapping, lines, key);
    }
    assert(changes(mapping, lines) =~= Map::empty());
}

/// A key of the mapping that no line of the file assigns to gets no entry.
pub proof fn lemma_missing_key_changes_nothing(
    mapping: Map<Seq<char>, Seq<char>>,
    lines: Seq<Seq<char>>,
    key: Seq<char>,
)
    requires
        forall|i: int|
            0 <= i < lines.len() ==> !(is_assignment(#[trigger] lines[i]) && key_of(lines[i])
                == key),
    ensures
        !changes(mapping, lines).contains_key(key),
{
    lemma_last_differing(mapping, lines, key);
}

/// Only keys of the mapping get an entry, and the entry of a key holds the
/// value that the mapping has for it.
pub proof fn lemma_changes_follow_mapping(
    mapping: Map<Seq<char>, Seq<char>>,
    lines: Seq<Seq<char>>,
    key: Seq<char>,
)
    requires
        changes(mapping, lines).contains_key(key),
    ensures
        mapping.contains_key(key),
        changes(mapping, lines)[key].0 == mapping[key],
{
    lemma_last_differing(mapping, lines, key);
}

/// A line without `=`, and a line whose key the mapping does not hold,
/// stays as it is, whatever file the change set was computed from.
pub proof fn lemma_passthrough(
    mapping: Map<Seq<char>, Seq<char>>,
    lines: Seq<Seq<char>>,
    line: Seq<char>,
)
    requires
        !is_assignment(line) || !mapping.contains_key(key_of(line)),
    ensures
        rewritten(changes(mapping, lines), line) == line,
{
    if is_assignment(line) {
        lemma_last_differing(mapping, lines, key_of(line));
    }
}

/// The lines of a text with their endings make up the text.
pub proof fn lemma_lines_and_endings_make_the_text(text: Seq<char>)
    ensures
        joined(lines(text), endings(text)) == text,
    decreases text.len(),
{
    if text.len() == 0 {
        assert(joined(lines(text), endings(text)) == Seq::<char>::empty());
    } else {
        lemma_first_index(text, '\n');
        let feed = first_index(text, '\n');
        if feed < text.len() {
            let head = text.subrange(0, feed);
            let rest = text.subrange(feed + 1, text.len() as int);
            lemma_lines_and_endings_make_the_text(rest);
            lemma_endings_fit(rest);
            lemma_joined_prepend(without_cr(head), ending_after(head), lines(rest), endings(rest));
            assert(without_cr(head) + ending_after(head) =~= head + seq!['\n']);
            assert(text =~= head + seq!['\n'] + rest);
            assert(joined(lines(text), endings(text)) =~= text);
        } else {
            let one = seq![text];
            let none = seq![Seq::<char>::empty()];
            assert(one.drop_last() == Seq::<Seq<char>>::empty());
            assert(joined(one.drop_last(), none.drop_last()) == Seq::<char>::empty());
            assert(joined(one, none) =~= text);
        }
    }
}

/// A text of which the change set touches no line is written as it came,
/// line endings and all.
pub proof fn lemma_untouched_text_is_kept(
    changes: Map<Seq<char>, (Seq<char>, Seq<char>)>,
    text: Seq<char>,
)
    requires
        forall|i: int| 0 <= i < lines(text).len() ==> !is_touched(changes, #[trigger] lines(text)[i]),
    ensures
        rewritten_text(changes, text) == text,
{
    assert(rewritten_lines(changes, lines(text)) =~= lines(text));
    lemma_lines_and_endings_make_the_text(text);
}

/// Patching is idempotent: the file that the rewriter writes needs no
/// further change.
///
/// This holds where every desired value that the first change set brings
/// into the file settles: where it is trimmed and holds neither `;` nor a
/// line feed. Another value is not read back as itself.
pub proof fn lemma_second_diff_is_empty(mapping: Map<Seq<char>, Seq<char>>, text: Seq<char>)
    requires
        forall|key: Seq<char>| #[trigger]
            changes(mapping, lines(text)).contains_key(key) ==> settles(mapping[key]),
    ensures
        changes(mapping, lines(rewritten_text(changes(mapping, lines(text)), text))) == Map::<
            Seq<char>,
            (Seq<char>, Seq<char>),
        >::empty(),
{
    let old = lines(text);
    let ended = endings(text);
    let todo = changes(mapping, old);
    let fresh = rewritten_lines(todo, old);
    lemma_lines_lack_feeds(text);
    lemma_endings_fit(text);
    assert forall|i: int| 0 <= i < fresh.len() implies lacks(#[trigger] fresh[i], '\n') by {
        lemma_rewritten_lacks_feeds(mapping, old, i);
    }
    assert(well_ended(fresh, ended)) by {
        assert forall|i: int| 0 <= i < fresh.len() implies is_ending(#[trigger] ended[i]) || (i
            == fresh.len() - 1 && ended[i].len() == 0 && fresh[i].len() > 0) by {
            lemma_rewritten_agrees(mapping, old, i);
        }
    }
    lemma_lines_of_joined(fresh, ended);
    let again = lines(joined(fresh, ended));
    assert forall|i: int| 0 <= i < again.len() implies !differs(mapping, #[trigger] again[i]) by {
        lemma_rewritten_agrees(mapping, old, i);
    }
    lemma_satisfied_mapping_changes_nothing(mapping, again);
}

} // verus!
