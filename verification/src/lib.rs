//! Patches for the configuration files of packages.
//!
//! A patch says, for a configuration file of `key = value ; comment` lines,
//! which keys should have which values. The library finds out which keys of
//! a file need another value ([`build_diff`]) and writes the new text of the
//! file, in which each changed line notes the value that it had
//! ([`write_modified_file`]). [`run`] says in which order the files of the
//! packages under a root are looked for, read and replaced.
//!
//! The library reads and writes no file: it works on texts.

use vstd::prelude::*;

pub mod diff;
pub mod laws;
pub mod line;
pub mod patch;
pub mod rewrite;
pub mod run;
pub mod table;
pub mod text;

pub use crate::diff::build_diff;
pub use crate::line::{parse_line, ParsedLine};
pub use crate::patch::{Category, Diff, Patch, PathChanges};
pub use crate::rewrite::{rewrite_line, write_modified_file, Modified};
pub use crate::run::{run, Candidate, Job, OutOfTurn, Reply, Request, Stage};
pub use crate::table::{Changes, Mapping, Patches};

verus! {

} // verus!
