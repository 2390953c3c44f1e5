//! The run: which file is looked for, read and replaced, and when.
//!
//! The library touches no file. It asks for each piece of outside work with
//! a [`Request`] and is told the outcome with a [`Reply`]; [`run`] takes the
//! state of the run and a reply to the state that follows and the next
//! request. Whoever drives the run performs each request and stops at the
//! first that fails.
//!
//! The candidates are worked on in their order, and only those whose name
//! the patches hold. For such a package each category with a
//! mapping of its own is looked for and, where it is found, read and
//! compared; then each file with changes pending is read once more,
//! rewritten and replaced.

use crate::diff::{build_diff, changes};
use crate::patch::{Category, Diff, DiffState, FileState, Patch};
use crate::rewrite::{announced, rewritten_text, texts, write_modified_file};
use crate::table::{Changes, Patches};
use crate::text::lines;
use std::path::PathBuf;
use vstd::prelude::*;

verus! {

/// A directory under the packages root: a package, if the patches name
/// it.
#[derive(Debug, PartialEq, Eq)]
pub struct Candidate {
    /// Where the directory is.
    pub path: PathBuf,
    /// The name of the directory, where it has one that is text.
    pub name: Option<String>,
}

/// What a run waits for.
#[derive(Clone, Copy, Debug, PartialEq, Eq, Structural)]
pub enum Stage {
    /// For the file of a category to be looked for.
    Locating(Category),
    /// For the text of a located file, to compare it with the patch.
    Reading(Category),
    /// For the text of a file with changes pending, to rewrite it.
    Rereading(Category),
    /// For a rewritten file to be replaced.
    Replacing(Category),
    /// For nothing: the run is over.
    Finished,
}

/// The outcome of a request.
#[derive(Debug, PartialEq, Eq)]
pub enum Reply {
    /// The first file of the wanted name under the package, if there is one.
    Located(Option<PathBuf>),
    /// The text of the file that was read.
    Text(String),
    /// The file was backed up and written.
    Replaced,
}

/// A piece of outside work.
#[derive(Debug, PartialEq, Eq)]
pub enum Request {
    /// Look under the package at work for a file named as the category's
    /// files are.
    Locate(Category),
    /// Read the located file of the category.
    Read(Category),
    /// Show each line of `report`; then move the located file of the
    /// category to its backup and write `text` in its place.
    Replace { category: Category, text: String, report: Vec<String> },
    /// Nothing is left to do.
    Finish,
}

/// A [`Request`] with its texts as character sequences.
pub enum Order {
    Locate(Category),
    Read(Category),
    Replace { category: Category, text: Seq<char>, report: Seq<Seq<char>> },
    Finish,
}

/// The reply does not answer what the run waits for.
#[derive(Clone, Copy, Debug, PartialEq, Eq, Structural)]
pub struct OutOfTurn {}

/// The state of a run, with its tables as mathematical maps.
pub struct JobState {
    /// The patches, by the name of their package.
    pub patches: Map<Seq<char>, Patch>,
    /// The directories under the packages root.
    pub candidates: Seq<Candidate>,
    /// The index of the package at work.
    pub position: int,
    /// What the run waits for.
    pub stage: Stage,
    /// What was found out about the files of the package at work.
    pub diff: DiffState,
}

/// A run.
#[derive(Debug)]
pub struct Job {
    patches: Patches,
    candidates: Vec<Candidate>,
    position: usize,
    stage: Stage,
    diff: Diff,
}

impl View for Request {
    type V = Order;

    open spec fn view(&self) -> Order {
        match *self {
            Request::Locate(category) => Order::Locate(category),
            Request::Read(category) => Order::Read(category),
            Request::Replace { category, text, report } => Order::Replace {
                category,
                text: text@,
                report: texts(report@),
            },
            Request::Finish => Order::Finish,
        }
    }
}

/// Whether the patches name `candidate`.
pub open spec fn in_scope(patches: Map<Seq<char>, Patch>, candidate: Candidate) -> bool {
    candidate.name matches Some(name) && patches.contains_key(name@)
}

/// The patch for `candidate`, where it is in scope.
pub open spec fn patch_for(patches: Map<Seq<char>, Patch>, candidate: Candidate) -> Patch {
    patches[candidate.name->0@]
}

/// Whether there is anything to look for in `candidate`: whether it is in
/// scope and its patch wants anything of some file.
pub open spec fn actionable(patches: Map<Seq<char>, Patch>, candidate: Candidate) -> bool {
    in_scope(patches, candidate) && patch_for(patches, candidate).spec_next_wanted(
        Some(Category::Engines),
    ) is Some
}

/// The index of the first actionable candidate from `from` on, or the
/// number of candidates where there is none.
pub open spec fn next_actionable(
    patches: Map<Seq<char>, Patch>,
    candidates: Seq<Candidate>,
    from: int,
) -> int
    decreases candidates.len() - from,
{
    if from >= candidates.len() {
        candidates.len() as int
    } else if actionable(patches, candidates[from]) {
        from
    } else {
        next_actionable(patches, candidates, from + 1)
    }
}

/// The run turns to the first actionable candidate from `from` on and looks
/// for the first file that its patch wants anything of; or it ends.
pub open spec fn enter(patches: Map<Seq<char>, Patch>, candidates: Seq<Candidate>, from: int) -> (
    JobState,
    Order,
) {
    let at = next_actionable(patches, candidates, from);
    if at < candidates.len() {
        let category = patch_for(patches, candidates[at]).spec_next_wanted(
            Some(Category::Engines),
        )->0;
        (
            JobState {
                patches,
                candidates,
                position: at,
                stage: Stage::Locating(category),
                diff: DiffState::none(),
            },
            Order::Locate(category),
        )
    } else {
        (
            JobState {
                patches,
                candidates,
                position: candidates.len() as int,
                stage: Stage::Finished,
                diff: DiffState::none(),
            },
            Order::Finish,
        )
    }
}

impl JobState {
    /// Whether the run is at a package.
    pub open spec fn at_work(self) -> bool {
        &&& 0 <= self.position < self.candidates.len()
        &&& in_scope(self.patches, self.candidates[self.position])
    }

    /// The patch of the package at work.
    pub open spec fn patch(self) -> Patch {
        patch_for(self.patches, self.candidates[self.position])
    }

    /// What holds of every state of a run: it waits only for what is due.
    ///
    /// A file is looked for, and read to be compared, only where the patch
    /// wants something of it. A file is read to be rewritten, and replaced,
    /// only where it has changes pending. A change set with entries has a
    /// located file.
    pub open spec fn wf(self) -> bool {
        &&& 0 <= self.position <= self.candidates.len()
        &&& self.diff.wf()
        &&& match self.stage {
            Stage::Locating(category) => self.at_work() && self.patch().spec_wants(category),
            Stage::Reading(category) => {
                &&& self.at_work()
                &&& self.patch().spec_wants(category)
                &&& self.diff.of(category).path is Some
            },
            Stage::Rereading(category) => self.at_work() && self.diff.pending(category),
            Stage::Replacing(category) => self.at_work() && self.diff.pending(category),
            Stage::Finished => true,
        }
    }

    /// Whether `reply` answers what the run waits for. A finished run takes
    /// every reply.
    pub open spec fn answers(self, reply: Reply) -> bool {
        match self.stage {
            Stage::Locating(_) => reply is Located,
            Stage::Reading(_) => reply is Text,
            Stage::Rereading(_) => reply is Text,
            Stage::Replacing(_) => reply is Replaced,
            Stage::Finished => true,
        }
    }

    /// The run looks for the first file from `from` on that the patch wants
    /// anything of; where there is none it turns to the pending changes.
    pub open spec fn seek(self, from: Option<Category>) -> (JobState, Order) {
        match self.patch().spec_next_wanted(from) {
            Some(category) => (
                JobState { stage: Stage::Locating(category), ..self },
                Order::Locate(category),
            ),
            None => self.write(Some(Category::Engines)),
        }
    }

    /// The run reads the first file from `from` on that has changes
    /// pending; where there is none it leaves the package.
    pub open spec fn write(self, from: Option<Category>) -> (JobState, Order) {
        match self.diff.next_pending(from) {
            Some(category) => (
                JobState { stage: Stage::Rereading(category), ..self },
                Order::Read(category),
            ),
            None => enter(self.patches, self.candidates, self.position + 1),
        }
    }

    /// The state that follows on `reply`, and the next order, where the
    /// reply answers what the run waits for.
    pub open spec fn step(self, reply: Reply) -> (JobState, Order) {
        match (self.stage, reply) {
            (Stage::Locating(category), Reply::Located(Some(path))) => (
                JobState {
                    stage: Stage::Reading(category),
                    diff: self.diff.with(
                        category,
                        FileState { path: Some(path), changes: self.diff.of(category).changes },
                    ),
                    ..self
                },
                Order::Read(category),
            ),
            (Stage::Locating(category), Reply::Located(None)) => self.seek(
                category.spec_following(),
            ),
            (Stage::Reading(category), Reply::Text(text)) => JobState {
                diff: self.diff.with(
                    category,
                    FileState {
                        path: self.diff.of(category).path,
                        changes: changes(self.patch().spec_mapping(category)@, lines(text@)),
                    },
                ),
                ..self
            }.seek(category.spec_following()),
            (Stage::Rereading(category), Reply::Text(text)) => (
                JobState { stage: Stage::Replacing(category), ..self },
                Order::Replace {
                    category,
                    text: rewritten_text(self.diff.of(category).changes, text@),
                    report: announced(self.diff.of(category).changes, lines(text@)),
                },
            ),
            (Stage::Replacing(category), Reply::Replaced) => self.write(category.spec_following()),
            _ => (self, Order::Finish),
        }
    }

    /// Whether `order` is what the run in this state waits for.
    pub open spec fn awaits(self, order: Order) -> bool {
        match order {
            Order::Locate(category) => self.stage == Stage::Locating(category),
            Order::Read(category) => self.stage == Stage::Reading(category) || self.stage
                == Stage::Rereading(category),
            Order::Replace { category, .. } => self.stage == Stage::Replacing(category),
            Order::Finish => self.stage == Stage::Finished,
        }
    }

    /// An upper bound on the number of replies that the run still takes
    /// before it is over.
    pub open spec fn remaining(self) -> int {
        8 * (self.candidates.len() - self.position) + match self.stage {
            Stage::Locating(Category::Engines) => 7int,
            Stage::Reading(Category::Engines) => 6,
            Stage::Locating(Category::FlightModel) => 5,
            Stage::Reading(Category::FlightModel) => 4,
            Stage::Rereading(Category::Engines) => 3,
            Stage::Replacing(Category::Engines) => 2,
            Stage::Rereading(Category::FlightModel) => 1,
            Stage::Replacing(Category::FlightModel) => 0,
            Stage::Finished => 0,
        }
    }
}

/// The state in which a run starts, and its first order.
pub open spec fn start(patches: Map<Seq<char>, Patch>, candidates: Seq<Candidate>) -> (
    JobState,
    Order,
) {
    enter(patches, candidates, 0)
}

/// Where `next_actionable` points: at an actionable candidate with none
/// between `from` and it, or behind the last.
pub proof fn lemma_next_actionable(
    patches: Map<Seq<char>, Patch>,
    candidates: Seq<Candidate>,
    from: int,
)
    requires
        0 <= from <= candidates.len(),
    ensures
        from <= next_actionable(patches, candidates, from) <= candidates.len(),
        next_actionable(patches, candidates, from) < candidates.len() ==> actionable(
            patches,
            candidates[next_actionable(patches, candidates, from)],
        ),
        forall|i: int|
            from <= i < next_actionable(patches, candidates, from) ==> !actionable(
                patches,
                #[trigger] candidates[i],
            ),
    decreases candidates.len() - from,
{
    if from < candidates.len() && !actionable(patches, candidates[from]) {
        lemma_next_actionable(patches, candidates, from + 1);
    }
}

/// What `spec_next_wanted` finds is wanted, and comes no earlier than `from`.
pub proof fn lemma_next_wanted(patch: Patch, from: Option<Category>)
    ensures
        patch.spec_next_wanted(from) matches Some(category) ==> patch.spec_wants(category)
            && Category::left(Some(category)) <= Category::left(from),
    decreases Category::left(from),
{
    match from {
        Some(category) => {
            if !patch.spec_wants(category) {
                lemma_next_wanted(patch, category.spec_following());
            }
        },
        None => {},
    }
}

/// What `next_pending` finds is pending, and comes no earlier than `from`.
pub proof fn lemma_next_pending(diff: DiffState, from: Option<Category>)
    ensures
        diff.next_pending(from) matches Some(category) ==> diff.pending(category)
            && Category::left(Some(category)) <= Category::left(from),
    decreases Category::left(from),
{
    match from {
        Some(category) => {
            if !diff.pending(category) {
                lemma_next_pending(diff, category.spec_following());
            }
        },
        None => {},
    }
}

/// A run waits only for what is due, from its start on.
pub proof fn lemma_start_is_due(patches: Map<Seq<char>, Patch>, candidates: Seq<Candidate>)
    ensures
        start(patches, candidates).0.wf(),
        start(patches, candidates).0.awaits(start(patches, candidates).1),
{
    lemma_enter_is_due(patches, candidates, 0);
}

proof fn lemma_enter_is_due(patches: Map<Seq<char>, Patch>, candidates: Seq<Candidate>, from: int)
    requires
        0 <= from <= candidates.len(),
    ensures
        enter(patches, candidates, from).0.wf(),
        enter(patches, candidates, from).0.awaits(enter(patches, candidates, from).1),
        from <= enter(patches, candidates, from).0.position,
        enter(patches, candidates, from).0.stage is Finished ==> enter(
            patches,
            candidates,
            from,
        ).0.position == candidates.len(),
{
    lemma_next_actionable(patches, candidates, from);
    let at = next_actionable(patches, candidates, from);
    if at < candidates.len() {
        lemma_next_wanted(patch_for(patches, candidates[at]), Some(Category::Engines));
    }
}

/// Every step keeps a run in a state in which it waits only for what is
/// due, and the order that it gives is the one that it then waits for.
///
/// So a file is looked for only where the patch has a mapping with entries
/// for it, and a file is rewritten only where its change set has entries.
pub proof fn lemma_step_is_due(state: JobState, reply: Reply)
    requires
        state.wf(),
        state.answers(reply),
    ensures
        state.step(reply).0.wf(),
        state.step(reply).0.awaits(state.step(reply).1),
        state.step(reply).0.patches == state.patches,
        state.step(reply).0.candidates == state.candidates,
{
    lemma_step(state, reply);
}

/// Every step of a run that is not over brings it nearer to its end.
pub proof fn lemma_step_progresses(state: JobState, reply: Reply)
    requires
        state.wf(),
        state.answers(reply),
        !(state.stage is Finished),
    ensures
        0 <= state.step(reply).0.remaining() < state.remaining(),
{
    lemma_step(state, reply);
}

proof fn lemma_step(state: JobState, reply: Reply)
    requires
        state.wf(),
        state.answers(reply),
    ensures
        state.step(reply).0.wf(),
        state.step(reply).0.awaits(state.step(reply).1),
        state.step(reply).0.patches == state.patches,
        state.step(reply).0.candidates == state.candidates,
        !(state.stage is Finished) ==> 0 <= state.step(reply).0.remaining() < state.remaining(),
{
    match (state.stage, reply) {
        (Stage::Locating(category), Reply::Located(Some(path))) => {},
        (Stage::Locating(category), Reply::Located(None)) => {
            lemma_seek_is_due(state, category.spec_following());
        },
        (Stage::Reading(category), Reply::Text(text)) => {
            let read = JobState {
                diff: state.diff.with(
                    category,
                    FileState {
                        path: state.diff.of(category).path,
                        changes: changes(state.patch().spec_mapping(category)@, lines(text@)),
                    },
                ),
                ..state
            };
            lemma_seek_is_due(read, category.spec_following());
        },
        (Stage::Rereading(category), Reply::Text(text)) => {},
        (Stage::Replacing(category), Reply::Replaced) => {
            lemma_write_is_due(state, category.spec_following());
        },
        _ => {},
    }
}

proof fn lemma_seek_is_due(state: JobState, from: Option<Category>)
    requires
        state.at_work(),
        state.diff.wf(),
    ensures
        state.seek(from).0.wf(),
        state.seek(from).0.awaits(state.seek(from).1),
        state.seek(from).0.patches == state.patches,
        state.seek(from).0.candidates == state.candidates,
        0 <= state.seek(from).0.remaining() <= 8 * (state.candidates.len() - state.position) + 2
            * Category::left(from) + 3,
{
    lemma_next_wanted(state.patch(), from);
    if state.patch().spec_next_wanted(from) is None {
        lemma_write_is_due(state, Some(Category::Engines));
    }
}

proof fn lemma_write_is_due(state: JobState, from: Option<Category>)
    requires
        state.at_work(),
        state.diff.wf(),
    ensures
        state.write(from).0.wf(),
        state.write(from).0.awaits(state.write(from).1),
        state.write(from).0.patches == state.patches,
        state.write(from).0.candidates == state.candidates,
        0 <= state.write(from).0.remaining() <= 8 * (state.candidates.len() - state.position) + 2
            * Category::left(from) - 1,
{
    lemma_next_pending(state.diff, from);
    if state.diff.next_pending(from) is None {
        lemma_enter_is_due(state.patches, state.candidates, state.position + 1);
    }
}

impl View for Job {
    type V = JobState;

    closed spec fn view(&self) -> JobState {
        JobState {
            patches: self.patches@,
            candidates: self.candidates@,
            position: self.position as int,
            stage: self.stage,
            diff: self.diff@,
        }
    }
}

/// The first category from `from` on that the patch for `candidate` wants
/// anything of; `None` also where `candidate` is not in scope.
fn wanted_of(patches: &Patches, candidate: &Candidate, from: Option<Category>) -> (next: Option<
    Category,
>)
    ensures
        next == if in_scope(patches@, *candidate) {
            patch_for(patches@, *candidate).spec_next_wanted(from)
        } else {
            None
        },
{
    match &candidate.name {
        Some(name) => match patches.get(name.as_str()) {
            Some(patch) => patch.next_wanted(from),
            None => None,
        },
        None => None,
    }
}

/// The change set that brings `text` to the mapping that the patch for
/// `candidate` has for `category`.
fn changes_of(patches: &Patches, candidate: &Candidate, category: Category, text: &str) -> (diff:
    Changes)
    ensures
        in_scope(patches@, *candidate) ==> diff@ == changes(
            patch_for(patches@, *candidate).spec_mapping(category)@,
            lines(text@),
        ),
{
    match &candidate.name {
        Some(name) => match patches.get(name.as_str()) {
            Some(patch) => build_diff(patch.mapping(category), text),
            None => Changes::new(),
        },
        None => Changes::new(),
    }
}

impl Job {
    #[verifier::type_invariant]
    spec fn inv(self) -> bool {
        self@.wf()
    }

    /// Starts a run over `candidates` with the patches `patches`, and
    /// gives its first request.
    pub fn new(patches: Patches, candidates: Vec<Candidate>) -> (out: (Job, Request))
        ensures
            (out.0@, out.1@) == start(patches@, candidates@),
            out.0@.wf(),
            out.0@.awaits(out.1@),
    {
        proof {
            lemma_start_is_due(patches@, candidates@);
        }
        Job::enter(patches, candidates, 0)
    }

    fn enter(patches: Patches, candidates: Vec<Candidate>, from: usize) -> (out: (Job, Request))
        requires
            from <= candidates.len(),
        ensures
            (out.0@, out.1@) == enter(patches@, candidates@, from as int),
    {
        let mut at: usize = from;
        let mut first: Option<Category> = None;
        while at < candidates.len() && first.is_none()
            invariant
                from <= at <= candidates.len(),
                next_actionable(patches@, candidates@, from as int) == next_actionable(
                    patches@,
                    candidates@,
                    at as int,
                ),
                first matches Some(category) ==> {
                    &&& at < candidates.len()
                    &&& in_scope(patches@, candidates@[at as int])
                    &&& patch_for(patches@, candidates@[at as int]).spec_next_wanted(
                        Some(Category::Engines),
                    ) == Some(category)
                },
            decreases
                    candidates.len() - at + if first is None {
                        1int
                    } else {
                        0int
                    },
        {
            let found = wanted_of(&patches, &candidates[at], Some(Category::Engines));
            if found.is_some() {
                first = found;
            } else {
                at = at + 1;
            }
        }
        proof {
            lemma_enter_is_due(patches@, candidates@, from as int);
        }
        match first {
            Some(category) => (
                Job { patches, candidates, position: at, stage: Stage::Locating(category), diff: Diff::new() },
                Request::Locate(category),
            ),
            None => {
                let position = candidates.len();
                (
                    Job { patches, candidates, position, stage: Stage::Finished, diff: Diff::new() },
                    Request::Finish,
                )
            },
        }
    }

    fn seek(
        patches: Patches,
        candidates: Vec<Candidate>,
        position: usize,
        diff: Diff,
        from: Option<Category>,
        Ghost(state): Ghost<JobState>,
    ) -> (out: (Job, Request))
        requires
            state.patches == patches@,
            state.candidates == candidates@,
            state.position == position,
            state.diff == diff@,
            state.at_work(),
            state.diff.wf(),
        ensures
            (out.0@, out.1@) == state.seek(from),
    {
        proof {
            lemma_seek_is_due(state, from);
        }
        match wanted_of(&patches, &candidates[position], from) {
            Some(category) => (
                Job { patches, candidates, position, stage: Stage::Locating(category), diff },
                Request::Locate(category),
            ),
            None => Job::write(patches, candidates, position, diff, Some(Category::Engines), Ghost(state)),
        }
    }

    fn write(
        patches: Patches,
        candidates: Vec<Candidate>,
        position: usize,
        diff: Diff,
        from: Option<Category>,
        Ghost(state): Ghost<JobState>,
    ) -> (out: (Job, Request))
        requires
            state.patches == patches@,
            state.candidates == candidates@,
            state.position == position,
            state.diff == diff@,
            state.at_work(),
            state.diff.wf(),
        ensures
            (out.0@, out.1@) == state.write(from),
    {
        proof {
            lemma_write_is_due(state, from);
        }
        assert(position < candidates.len());
        match diff.next_pending(from) {
            Some(category) => (
                Job { patches, candidates, position, stage: Stage::Rereading(category), diff },
                Request::Read(category),
            ),
            None => Job::enter(patches, candidates, position + 1),
        }
    }

    /// The directory of the package at work, while the run is at one.
    pub fn package(&self) -> (path: Option<&PathBuf>)
        ensures
            path == if self@.position < self@.candidates.len() {
                Some(&self@.candidates[self@.position].path)
            } else {
                None
            },
    {
        if self.position < self.candidates.len() {
            Some(&self.candidates[self.position].path)
        } else {
            None
        }
    }

    /// The located file of `category` in the package at work, if one was
    /// located.
    pub fn target(&self, category: Category) -> (path: Option<&PathBuf>)
        ensures
            path == match self@.diff.of(category).path {
                Some(path) => Some(&path),
                None => None,
            },
    {
        match &self.diff.changes(category).path {
            Some(path) => Some(path),
            None => None,
        }
    }

    /// What the run waits for.
    pub fn stage(&self) -> (stage: Stage)
        ensures
            stage == self@.stage,
    {
        self.stage
    }
}

/// Takes a run from one request to the next.
///
/// Where `reply` answers what the run waits for, the run goes on as
/// [`JobState::step`] says, and the next request comes back. Where it does
/// not, nothing changes.
pub fn run(job: Job, reply: Reply) -> (out: (Job, Result<Request, OutOfTurn>))
    ensures
        job@.answers(reply) ==> out.1 is Ok && (out.0@, out.1->Ok_0@) == job@.step(reply),
        !job@.answers(reply) ==> out.1 is Err && out.0@ == job@,
        out.0@.wf(),
        out.1 matches Ok(request) ==> out.0@.awaits(request@),
{
    proof {
        use_type_invariant(&job);
        if job@.answers(reply) {
            lemma_step_is_due(job@, reply);
        }
    }
    let ghost state = job@;
    let Job { patches, candidates, position, stage, diff } = job;
    match (stage, reply) {
        (Stage::Locating(category), Reply::Located(Some(path))) => {
            let mut diff = diff;
            match category {
                Category::Engines => {
                    diff.engines.path = Some(path);
                },
                Category::FlightModel => {
                    diff.flight_model.path = Some(path);
                },
            }
            (
                Job { patches, candidates, position, stage: Stage::Reading(category), diff },
                Ok(Request::Read(category)),
            )
        },
        (Stage::Locating(category), Reply::Located(None)) => {
            let (next, request) = Job::seek(
                patches,
                candidates,
                position,
                diff,
                category.following(),
                Ghost(state),
            );
            (next, Ok(request))
        },
        (Stage::Reading(category), Reply::Text(text)) => {
            let found = changes_of(&patches, &candidates[position], category, text.as_str());
            let mut diff = diff;
            match category {
                Category::Engines => {
                    diff.engines.changes = found;
                },
                Category::FlightModel => {
                    diff.flight_model.changes = found;
                },
            }
            let ghost read = JobState { diff: diff@, ..state };
            let (next, request) = Job::seek(
                patches,
                candidates,
                position,
                diff,
                category.following(),
                Ghost(read),
            );
            (next, Ok(request))
        },
        (Stage::Rereading(category), Reply::Text(text)) => {
            let modified = write_modified_file(diff.changes(category), text.as_str());
            (
                Job { patches, candidates, position, stage: Stage::Replacing(category), diff },
                Ok(
                    Request::Replace {
                        category,
                        text: modified.text,
                        report: modified.report,
                    },
                ),
            )
        },
        (Stage::Replacing(category), Reply::Replaced) => {
            let (next, request) = Job::write(
                patches,
                candidates,
                position,
                diff,
                category.following(),
                Ghost(state),
            );
            (next, Ok(request))
        },
        (Stage::Finished, _) => (
            Job { patches, candidates, position, stage, diff },
            Ok(Request::Finish),
        ),
        _ => (Job { patches, candidates, position, stage, diff }, Err(OutOfTurn {  })),
    }
}

} // verus!
