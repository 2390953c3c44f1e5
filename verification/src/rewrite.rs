//! The patch rewriter: the text of a file with a change set applied.
//!
//! A line is touched where it assigns to a key that has an entry. A touched
//! line becomes `key = desired ; previous`, followed by ` ; comment` where
//! the line had a comment; the previous value is written trimmed, the
//! comment without the white space at its start. Every other line stays as
//! it is, and every line keeps the line ending that it had.

use crate::line::{comment_of, is_assignment, key_of, parse_line, ParsedLine};
use crate::patch::PathChanges;
use crate::table::Changes;
use crate::text::{
    ending_parts, endings, joined, line_parts, lines, split_text, trim, trim_start, trimmed,
    trimmed_start,
};
use vstd::prelude::*;

verus! {

/// What stands between a key and its value in a rewritten line: ` = `.
pub open spec fn assign_mark() -> Seq<char> {
    seq![' ', '=', ' ']
}

/// What stands before each note of a rewritten line: ` ; `.
pub open spec fn note_mark() -> Seq<char> {
    seq![' ', ';', ' ']
}

/// The annotated form of an assignment: the new value, then the previous
/// value as a note, then the comment of the line as a second note, if it
/// had one.
pub open spec fn annotated(
    key: Seq<char>,
    desired: Seq<char>,
    previous: Seq<char>,
    comment: Option<Seq<char>>,
) -> Seq<char> {
    let head = key + assign_mark() + desired + note_mark() + previous;
    match comment {
        Some(text) => head + note_mark() + text,
        None => head,
    }
}

/// Whether `line` assigns to a key that has an entry in `changes`.
pub open spec fn is_touched(changes: Map<Seq<char>, (Seq<char>, Seq<char>)>, line: Seq<char>) -> bool {
    is_assignment(line) && changes.contains_key(key_of(line))
}

/// The comment of a line as it is written behind the notes of the
/// rewritten line: without the white space at its start.
pub open spec fn kept_comment(comment: Option<Seq<char>>) -> Option<Seq<char>> {
    match comment {
        Some(text) => Some(trim_start(text)),
        None => None,
    }
}

/// `line` with `changes` applied: the annotated form with the desired
/// value, the previous value trimmed and the comment of the line, where
/// `changes` touches it; the line itself otherwise.
pub open spec fn rewritten(changes: Map<Seq<char>, (Seq<char>, Seq<char>)>, line: Seq<char>) -> Seq<
    char,
> {
    if is_touched(changes, line) {
        annotated(
            key_of(line),
            changes[key_of(line)].0,
            trim(changes[key_of(line)].1),
            kept_comment(comment_of(line)),
        )
    } else {
        line
    }
}

/// Each of `lines` with `changes` applied.
pub open spec fn rewritten_lines(
    changes: Map<Seq<char>, (Seq<char>, Seq<char>)>,
    lines: Seq<Seq<char>>,
) -> Seq<Seq<char>> {
    Seq::new(lines.len(), |i: int| rewritten(changes, lines[i]))
}

/// `text` with `changes` applied to each of its lines, each line followed
/// by the ending that it has in `text`.
pub open spec fn rewritten_text(changes: Map<Seq<char>, (Seq<char>, Seq<char>)>, text: Seq<char>) -> Seq<
    char,
> {
    joined(rewritten_lines(changes, lines(text)), endings(text))
}

/// The new forms of the touched lines among `lines`, in their order.
pub open spec fn announced(
    changes: Map<Seq<char>, (Seq<char>, Seq<char>)>,
    lines: Seq<Seq<char>>,
) -> Seq<Seq<char>>
    decreases lines.len(),
{
    if lines.len() == 0 {
        Seq::empty()
    } else if is_touched(changes, lines.last()) {
        announced(changes, lines.drop_last()).push(rewritten(changes, lines.last()))
    } else {
        announced(changes, lines.drop_last())
    }
}

/// The character sequences of a sequence of strings.
pub open spec fn texts(parts: Seq<String>) -> Seq<Seq<char>> {
    Seq::new(parts.len(), |i: int| parts[i]@)
}

/// The new text of a file, and the lines of it that are new.
#[derive(Debug, PartialEq, Eq)]
pub struct Modified {
    /// The whole text, to be written in place of the old one.
    pub text: String,
    /// The rewritten lines, in their order, for the operator to see.
    pub report: Vec<String>,
}

/// The new form of `line`, if `changes` touches it; `None` where the line
/// stays as it is.
pub fn rewrite_line(changes: &Changes, line: &str) -> (out: Option<String>)
    ensures
        out is Some <==> is_touched(changes@, line@),
        out matches Some(text) ==> text@ == rewritten(changes@, line@),
        out is None ==> rewritten(changes@, line@) == line@,
{
    match parse_line(line) {
        ParsedLine::Assignment { key, trailing_comment, .. } => {
            match changes.get(key) {
                Some(entry) => {
                    proof {
                        reveal_strlit(" = ");
                        reveal_strlit(" ; ");
                        assert(" = "@ == assign_mark());
                        assert(" ; "@ == note_mark());
                    }
                    let mut text = key.to_owned();
                    text.append(" = ");
                    text.append(entry.0.as_str());
                    text.append(" ; ");
                    text.append(trimmed(entry.1.as_str()));
                    match trailing_comment {
                        Some(comment) => {
                            text.append(" ; ");
                            text.append(trimmed_start(comment));
                        },
                        None => {},
                    }
                    Some(text)
                },
                None => None,
            }
        },
        ParsedLine::Opaque(_) => None,
    }
}

/// Writes the new text of the file that `patch` is for, from its present
/// text `text`.
///
/// The lines that `patch.changes` touches are written in their annotated
/// form and reported; all others are written as they are. Every line is
/// followed by the line ending that it had.
pub fn write_modified_file(patch: &PathChanges, text: &str) -> (out: Modified)
    ensures
        out.text@ == rewritten_text(patch.changes@, text@),
        texts(out.report@) == announced(patch.changes@, lines(text@)),
{
    let all = split_text(text);
    let mut buf = String::new();
    let mut report: Vec<String> = Vec::new();
    let mut done: usize = 0;
    let ghost changes = patch.changes@;
    proof {
        assert(rewritten_lines(changes, line_parts(all@).take(0)) == Seq::<Seq<char>>::empty());
        assert(texts(report@) == Seq::<Seq<char>>::empty());
    }
    while done < all.len()
        invariant
            done <= all.len(),
            changes == patch.changes@,
            buf@ == joined(
                rewritten_lines(changes, line_parts(all@).take(done as int)),
                ending_parts(all@).take(done as int),
            ),
            texts(report@) == announced(changes, line_parts(all@).take(done as int)),
        decreases all.len() - done,
    {
        let (line, ending) = all[done];
        let ghost before = line_parts(all@).take(done as int);
        let ghost after = line_parts(all@).take(done + 1);
        let ghost ended = ending_parts(all@).take(done + 1);
        let ghost told = texts(report@);
        proof {
            assert(after.drop_last() == before);
            assert(after.last() == line@);
            assert(ended.drop_last() == ending_parts(all@).take(done as int));
            assert(ended.last() == ending@);
            assert(rewritten_lines(changes, after).drop_last() == rewritten_lines(changes, before));
            assert(rewritten_lines(changes, after).last() == rewritten(changes, line@));
        }
        match rewrite_line(&patch.changes, line) {
            Some(fresh) => {
                buf.append(fresh.as_str());
                report.push(fresh);
                assert(texts(report@) == told.push(rewritten(changes, line@)));
            },
            None => {
                buf.append(line);
            },
        }
        buf.append(ending);
        done = done + 1;
    }
    assert(line_parts(all@).take(all.len() as int) == line_parts(all@));
    assert(ending_parts(all@).take(all.len() as int) == ending_parts(all@));
    Modified { text: buf, report }
}

} // verus!
