//! The line scanner: what one physical line of a configuration file says.
//!
//! A line that holds `=` is an assignment, and its first `=` separates the
//! key from the remainder. In the remainder the first `;` starts a comment.
//! Every other line is opaque.

use crate::text::{chars_of, find_in, first_index, trim, trim_in};
use vstd::prelude::*;

verus! {

/// Whether `line` is an assignment: whether it holds `=`.
pub open spec fn is_assignment(line: Seq<char>) -> bool {
    first_index(line, '=') < line.len()
}

/// What stands behind the first `=` of `line`.
pub open spec fn remainder(line: Seq<char>) -> Seq<char> {
    line.subrange(first_index(line, '=') + 1, line.len() as int)
}

/// The key of an assignment: what stands before its first `=`, trimmed.
pub open spec fn key_of(line: Seq<char>) -> Seq<char> {
    trim(line.subrange(0, first_index(line, '=')))
}

/// The value region of an assignment as it stands in the line: the
/// remainder up to its first `;`, or all of it.
pub open spec fn raw_value_of(line: Seq<char>) -> Seq<char> {
    remainder(line).subrange(0, first_index(remainder(line), ';'))
}

/// The value of an assignment: its value region, trimmed.
pub open spec fn value_of(line: Seq<char>) -> Seq<char> {
    trim(raw_value_of(line))
}

/// The comment of an assignment: what stands behind the first `;` of the
/// remainder, as it stands in the line.
pub open spec fn comment_of(line: Seq<char>) -> Option<Seq<char>> {
    let rest = remainder(line);
    let semi = first_index(rest, ';');
    if semi < rest.len() {
        Some(rest.subrange(semi + 1, rest.len() as int))
    } else {
        None
    }
}

/// What a line says, over character sequences.
pub enum Scanned {
    Assignment {
        key: Seq<char>,
        value: Seq<char>,
        raw_value: Seq<char>,
        trailing_comment: Option<Seq<char>>,
    },
    Opaque(Seq<char>),
}

/// What `line` says.
pub open spec fn scan(line: Seq<char>) -> Scanned {
    if is_assignment(line) {
        Scanned::Assignment {
            key: key_of(line),
            value: value_of(line),
            raw_value: raw_value_of(line),
            trailing_comment: comment_of(line),
        }
    } else {
        Scanned::Opaque(line)
    }
}

/// One physical line, taken apart. The parts borrow from the line.
#[derive(Clone, Copy, Debug, PartialEq, Eq)]
pub enum ParsedLine<'a> {
    /// `key = value`, or `key = value ; comment`.
    Assignment {
        /// What stands before the first `=`, trimmed.
        key: &'a str,
        /// The value region, trimmed: the value that is compared.
        value: &'a str,
        /// The value region as it stands in the line.
        raw_value: &'a str,
        /// What stands behind the first `;` of the remainder, untouched.
        trailing_comment: Option<&'a str>,
    },
    /// A line without `=`: the whole line.
    Opaque(&'a str),
}

impl<'a> View for ParsedLine<'a> {
    type V = Scanned;

    open spec fn view(&self) -> Scanned {
        match *self {
            ParsedLine::Assignment { key, value, raw_value, trailing_comment } => {
                Scanned::Assignment {
                    key: key@,
                    value: value@,
                    raw_value: raw_value@,
                    trailing_comment: match trailing_comment {
                        Some(comment) => Some(comment@),
                        None => None,
                    },
                }
            },
            ParsedLine::Opaque(line) => Scanned::Opaque(line@),
        }
    }
}

/// Takes one physical line apart.
pub fn parse_line<'a>(line: &'a str) -> (parsed: ParsedLine<'a>)
    ensures
        parsed@ == scan(line@),
{
    let cs = chars_of(line);
    let n = cs.len();
    assert(cs@.subrange(0, n as int) == line@);
    let eq = find_in(&cs, 0, n, '=');
    if eq == n {
        return ParsedLine::Opaque(line);
    }
    let semi = find_in(&cs, eq + 1, n, ';');
    let (key_from, key_to) = trim_in(&cs, 0, eq);
    let (value_from, value_to) = trim_in(&cs, eq + 1, semi);
    proof {
        let rest = remainder(line@);
        assert(rest == cs@.subrange(eq + 1, n as int));
        assert(rest.subrange(0, semi - (eq + 1)) == cs@.subrange(eq + 1, semi as int));
        if semi < n {
            assert(rest.subrange(semi - (eq + 1) + 1, rest.len() as int) == cs@.subrange(
                semi + 1,
                n as int,
            ));
        }
    }
    let trailing_comment = if semi < n {
        Some(line.substring_char(semi + 1, n))
    } else {
        None
    };
    ParsedLine::Assignment {
        key: line.substring_char(key_from, key_to),
        value: line.substring_char(value_from, value_to),
        raw_value: line.substring_char(eq + 1, semi),
        trailing_comment,
    }
}

} // verus!
