//! The diff builder: which keys of a file need another value.
//!
//! A line differs from a mapping where it assigns to a key of the mapping a
//! value other than the desired one. The change set has an entry for each
//! key with a differing line, and the entry holds the desired value and the
//! value region of the last differing line of that key, as it stands there.

use crate::line::{is_assignment, key_of, parse_line, raw_value_of, value_of, ParsedLine};
use crate::table::{Changes, Mapping};
use crate::text::{lines, same_text, split_lines, views};
use vstd::prelude::*;

verus! {

/// Whether `line` assigns to a key of `mapping` a value that is not the
/// desired one.
pub open spec fn differs(mapping: Map<Seq<char>, Seq<char>>, line: Seq<char>) -> bool {
    &&& is_assignment(line)
    &&& mapping.contains_key(key_of(line))
    &&& value_of(line) != mapping[key_of(line)]
}

/// The index of the last of `lines` that differs from `mapping` at `key`,
/// or -1 where there is none.
pub open spec fn last_differing(
    mapping: Map<Seq<char>, Seq<char>>,
    lines: Seq<Seq<char>>,
    key: Seq<char>,
) -> int
    decreases lines.len(),
{
    if lines.len() == 0 {
        -1
    } else if differs(mapping, lines.last()) && key_of(lines.last()) == key {
        lines.len() - 1
    } else {
        last_differing(mapping, lines.drop_last(), key)
    }
}

/// The change set that brings `lines` to `mapping`.
pub open spec fn changes(mapping: Map<Seq<char>, Seq<char>>, lines: Seq<Seq<char>>) -> Map<
    Seq<char>,
    (Seq<char>, Seq<char>),
> {
    Map::new(
        |key: Seq<char>| last_differing(mapping, lines, key) >= 0,
        |key: Seq<char>| (mapping[key], raw_value_of(lines[last_differing(mapping, lines, key)])),
    )
}

/// What `last_differing` finds: a differing line of that key with none
/// behind it; and it finds one wherever there is one.
pub proof fn lemma_last_differing(
    mapping: Map<Seq<char>, Seq<char>>,
    lines: Seq<Seq<char>>,
    key: Seq<char>,
)
    ensures
        -1 <= last_differing(mapping, lines, key) < lines.len(),
        last_differing(mapping, lines, key) >= 0 ==> {
            &&& differs(mapping, lines[last_differing(mapping, lines, key)])
            &&& key_of(lines[last_differing(mapping, lines, key)]) == key
            &&& mapping.contains_key(key)
        },
        forall|i: int|
            last_differing(mapping, lines, key) < i < lines.len() ==> !(differs(
                mapping,
                #[trigger] lines[i],
            ) && key_of(lines[i]) == key),
    decreases lines.len(),
{
    if lines.len() > 0 && !(differs(mapping, lines.last()) && key_of(lines.last()) == key) {
        let front = lines.drop_last();
        lemma_last_differing(mapping, front, key);
        assert forall|i: int| last_differing(mapping, lines, key) < i < lines.len() implies !(
        differs(mapping, #[trigger] lines[i]) && key_of(lines[i]) == key) by {
            if i < lines.len() - 1 {
                assert(lines[i] == front[i]);
            }
        }
        if last_differing(mapping, lines, key) >= 0 {
            assert(lines[last_differing(mapping, lines, key)] == front[last_differing(
                mapping,
                front,
                key,
            )]);
        }
    }
}

/// One more line adds its entry where it differs, and nothing otherwise.
pub proof fn lemma_changes_push(
    mapping: Map<Seq<char>, Seq<char>>,
    lines: Seq<Seq<char>>,
    line: Seq<char>,
)
    ensures
        changes(mapping, lines.push(line)) == if differs(mapping, line) {
            changes(mapping, lines).insert(
                key_of(line),
                (mapping[key_of(line)], raw_value_of(line)),
            )
        } else {
            changes(mapping, lines)
        },
{
    let more = lines.push(line);
    let expected = if differs(mapping, line) {
        changes(mapping, lines).insert(key_of(line), (mapping[key_of(line)], raw_value_of(line)))
    } else {
        changes(mapping, lines)
    };
    assert(more.drop_last() == lines);
    assert(more.last() == line);
    assert forall|key: Seq<char>| #[trigger]
        changes(mapping, more).contains_key(key) == expected.contains_key(key) by {}
    assert forall|key: Seq<char>| #[trigger] changes(mapping, more).contains_key(key) implies changes(
        mapping,
        more,
    )[key] == expected[key] by {
        if !(differs(mapping, line) && key_of(line) == key) {
            lemma_last_differing(mapping, lines, key);
            assert(more[last_differing(mapping, lines, key)] == lines[last_differing(
                mapping,
                lines,
                key,
            )]);
        }
    }
    assert(changes(mapping, more) =~= expected);
}

/// Without lines there is nothing to change.
pub proof fn lemma_changes_of_nothing(mapping: Map<Seq<char>, Seq<char>>)
    ensures
        changes(mapping, Seq::empty()) == Map::<Seq<char>, (Seq<char>, Seq<char>)>::empty(),
{
    assert(changes(mapping, Seq::empty()) =~= Map::empty());
}

/// The change set that brings the file with the text `text` to `patch`.
///
/// A key of `patch` has an entry if and only if some line of the text
/// assigns to it a value that, trimmed, is not the desired one. The entry
/// holds the desired value and the value region of the last such line.
pub fn build_diff(patch: &Mapping, text: &str) -> (diff: Changes)
    ensures
        diff@ == changes(patch@, lines(text@)),
{
    let all = split_lines(text);
    let mut diff = Changes::new();
    let mut done: usize = 0;
    proof {
        lemma_changes_of_nothing(patch@);
        assert(views(all@).take(0) == Seq::<Seq<char>>::empty());
    }
    while done < all.len()
        invariant
            done <= all.len(),
            diff@ == changes(patch@, views(all@).take(done as int)),
        decreases all.len() - done,
    {
        let line = all[done];
        proof {
            lemma_changes_push(patch@, views(all@).take(done as int), line@);
            assert(views(all@).take(done as int).push(line@) == views(all@).take(done + 1));
        }
        match parse_line(line) {
            ParsedLine::Assignment { key, value, raw_value, .. } => {
                match patch.get(key) {
                    Some(desired) => {
                        if !same_text(value, desired.as_str()) {
                            let _ = diff.insert(
                                key.to_owned(),
                                desired.clone(),
                                raw_value.to_owned(),
                            );
                        }
                    },
                    None => {},
                }
            },
            ParsedLine::Opaque(_) => {},
        }
        done = done + 1;
    }
    assert(views(all@).take(all.len() as int) == views(all@));
    diff
}

} // verus!
