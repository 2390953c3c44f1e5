//! The data of one run: what should be patched, and what was found to
//! need patching.

use crate::table::{Changes, Mapping};
use std::path::PathBuf;
use vstd::prelude::*;

verus! {

/// `std::path::PathBuf`: a path in the file system. The library hands paths
/// on and never looks into one.
#[verifier::external_type_specification]
#[verifier::external_body]
pub struct ExPathBuf(PathBuf);

/// The two kinds of configuration file that a package may hold, in the
/// order in which they are worked on.
#[derive(Clone, Copy, Debug, PartialEq, Eq, Structural)]
pub enum Category {
    Engines,
    FlightModel,
}

/// The patches for the configuration files of one package: for each
/// category the keys to set and the values to set them to.
#[derive(Debug)]
pub struct Patch {
    pub engines: Mapping,
    pub flight_model: Mapping,
}

/// The change set of one file, and where that file is.
///
/// `path` is `None` as long as no file was located; the change set is then
/// empty.
#[derive(Debug)]
pub struct PathChanges {
    pub path: Option<PathBuf>,
    pub changes: Changes,
}

/// What one package needs: the change sets of its two files. A patch has
/// been applied, or held nothing, where both are empty.
#[derive(Debug)]
pub struct Diff {
    pub engines: PathChanges,
    pub flight_model: PathChanges,
}

/// A [`PathChanges`] with its change set as a mathematical map.
pub struct FileState {
    pub path: Option<PathBuf>,
    pub changes: Map<Seq<char>, (Seq<char>, Seq<char>)>,
}

/// A [`Diff`] with its change sets as mathematical maps.
pub struct DiffState {
    pub engines: FileState,
    pub flight_model: FileState,
}

/// The change set without entries.
pub open spec fn no_changes() -> Map<Seq<char>, (Seq<char>, Seq<char>)> {
    Map::empty()
}

/// The mapping without entries.
pub open spec fn no_entries() -> Map<Seq<char>, Seq<char>> {
    Map::empty()
}

impl Category {
    /// The name of the file that holds the configuration of this category.
    pub open spec fn spec_file_name(self) -> Seq<char> {
        match self {
            Category::Engines => "engines.cfg"@,
            Category::FlightModel => "flight_model.cfg"@,
        }
    }

    /// The category that is worked on after this one, if there is one.
    pub open spec fn spec_following(self) -> Option<Category> {
        match self {
            Category::Engines => Some(Category::FlightModel),
            Category::FlightModel => None,
        }
    }

    /// How many categories are worked on from `from` on.
    pub open spec fn left(from: Option<Category>) -> nat {
        match from {
            Some(Category::Engines) => 2,
            Some(Category::FlightModel) => 1,
            None => 0,
        }
    }

    /// The name of the file that holds the configuration of this category:
    /// `engines.cfg` or `flight_model.cfg`.
    pub fn file_name(self) -> (name: &'static str)
        ensures
            name@ == self.spec_file_name(),
    {
        match self {
            Category::Engines => "engines.cfg",
            Category::FlightModel => "flight_model.cfg",
        }
    }

    /// The category that is worked on after this one, if there is one.
    pub fn following(self) -> (next: Option<Category>)
        ensures
            next == self.spec_following(),
    {
        match self {
            Category::Engines => Some(Category::FlightModel),
            Category::FlightModel => None,
        }
    }
}

impl Patch {
    /// The mapping for the file of `category`.
    pub open spec fn spec_mapping(&self, category: Category) -> Mapping {
        match category {
            Category::Engines => self.engines,
            Category::FlightModel => self.flight_model,
        }
    }

    /// Whether the patch wants anything of the file of `category`: whether
    /// its mapping for that file has an entry.
    pub open spec fn spec_wants(&self, category: Category) -> bool {
        self.spec_mapping(category)@ != no_entries()
    }

    /// The first category from `from` on of whose file the patch wants
    /// anything.
    pub open spec fn spec_next_wanted(&self, from: Option<Category>) -> Option<Category>
        decreases Category::left(from),
    {
        match from {
            Some(category) => if self.spec_wants(category) {
                Some(category)
            } else {
                self.spec_next_wanted(category.spec_following())
            },
            None => None,
        }
    }

    /// The mapping for the file of `category`.
    pub fn mapping(&self, category: Category) -> (mapping: &Mapping)
        ensures
            *mapping == self.spec_mapping(category),
    {
        match category {
            Category::Engines => &self.engines,
            Category::FlightModel => &self.flight_model,
        }
    }

    /// Whether the patch wants anything of the file of `category`. Only
    /// then is that file looked for.
    pub fn wants(&self, category: Category) -> (wanted: bool)
        ensures
            wanted == self.spec_wants(category),
    {
        !self.mapping(category).is_empty()
    }
}

impl Patch {
    /// The first category from `from` on of whose file the patch wants
    /// anything.
    pub fn next_wanted(&self, from: Option<Category>) -> (next: Option<Category>)
        ensures
            next == self.spec_next_wanted(from),
            next matches Some(category) ==> self.spec_wants(category),
        decreases Category::left(from),
    {
        match from {
            Some(category) => if self.wants(category) {
                Some(category)
            } else {
                self.next_wanted(category.following())
            },
            None => None,
        }
    }
}

impl View for PathChanges {
    type V = FileState;

    open spec fn view(&self) -> FileState {
        FileState { path: self.path, changes: self.changes@ }
    }
}

impl View for Diff {
    type V = DiffState;

    open spec fn view(&self) -> DiffState {
        DiffState { engines: self.engines@, flight_model: self.flight_model@ }
    }
}

impl FileState {
    /// No file, and nothing to change.
    pub open spec fn none() -> FileState {
        FileState { path: None, changes: no_changes() }
    }

    /// Whether a change set with entries has a file to apply them to.
    pub open spec fn wf(self) -> bool {
        self.path is None ==> self.changes == no_changes()
    }
}

impl DiffState {
    /// Nothing located, and nothing to change.
    pub open spec fn none() -> DiffState {
        DiffState { engines: FileState::none(), flight_model: FileState::none() }
    }

    /// Whether both change sets are well formed.
    pub open spec fn wf(self) -> bool {
        self.engines.wf() && self.flight_model.wf()
    }

    /// The state of the file of `category`.
    pub open spec fn of(self, category: Category) -> FileState {
        match category {
            Category::Engines => self.engines,
            Category::FlightModel => self.flight_model,
        }
    }

    /// This state with `file` for the file of `category`.
    pub open spec fn with(self, category: Category, file: FileState) -> DiffState {
        match category {
            Category::Engines => DiffState { engines: file, ..self },
            Category::FlightModel => DiffState { flight_model: file, ..self },
        }
    }

    /// Whether the file of `category` has changes pending.
    pub open spec fn pending(self, category: Category) -> bool {
        self.of(category).changes != no_changes()
    }

    /// The first category from `from` on whose file has changes pending.
    pub open spec fn next_pending(self, from: Option<Category>) -> Option<Category>
        decreases Category::left(from),
    {
        match from {
            Some(category) => if self.pending(category) {
                Some(category)
            } else {
                self.next_pending(category.spec_following())
            },
            None => None,
        }
    }
}

impl PathChanges {
    /// No file, and nothing to change.
    pub fn new() -> (none: PathChanges)
        ensures
            none@ == FileState::none(),
    {
        PathChanges { path: None, changes: Changes::new() }
    }
}

impl Diff {
    /// Nothing located, and nothing to change.
    pub fn new() -> (none: Diff)
        ensures
            none@ == DiffState::none(),
    {
        Diff { engines: PathChanges::new(), flight_model: PathChanges::new() }
    }

    /// The change set for the file of `category`, and where that file is.
    pub fn changes(&self, category: Category) -> (file: &PathChanges)
        ensures
            file@ == self@.of(category),
    {
        match category {
            Category::Engines => &self.engines,
            Category::FlightModel => &self.flight_model,
        }
    }

    /// Whether the file of `category` has changes pending. Only then is
    /// that file rewritten.
    pub fn pending(&self, category: Category) -> (pending: bool)
        ensures
            pending == self@.pending(category),
    {
        !self.changes(category).changes.is_empty()
    }

    /// The first category from `from` on whose file has changes pending.
    pub fn next_pending(&self, from: Option<Category>) -> (next: Option<Category>)
        ensures
            next == self@.next_pending(from),
            next matches Some(category) ==> self@.pending(category),
        decreases Category::left(from),
    {
        match from {
            Some(category) => if self.pending(category) {
                Some(category)
            } else {
                self.next_pending(category.following())
            },
            None => None,
        }
    }
}

} // verus!
