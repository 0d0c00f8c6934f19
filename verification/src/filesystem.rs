//! The output resolver: an ordered chain of candidate directories is tried
//! until one yields a writable output file. The decisions live here, as a
//! step machine with an exact transition relation; the caller performs each
//! requested filesystem step and reports what happened.

use vstd::prelude::*;
use vstd::string::StringExecFns;

use crate::errors::SquishError;
use crate::types::record_path;

verus! {

/// The mathematical state of a [`FileCreator`].
#[verifier::ext_equal]
pub struct FileCreatorView {
    pub name: Seq<char>,
    pub paths: Seq<Seq<char>>,
    pub create: bool,
    pub truncate: bool,
}

/// Builds the configuration for resolving the output file: a target filename,
/// an ordered chain of candidate directories, and two flags.
pub struct FileCreator {
    name: String,
    paths: Vec<String>,
    create: bool,
    truncate: bool,
}

pub open spec fn dirs_of(v: Seq<String>) -> Seq<Seq<char>> {
    v.map_values(|s: String| s@)
}

impl View for FileCreator {
    type V = FileCreatorView;

    closed spec fn view(&self) -> FileCreatorView {
        FileCreatorView {
            name: self.name@,
            paths: dirs_of(self.paths@),
            create: self.create,
            truncate: self.truncate,
        }
    }
}

/// A creator always carries at least one candidate directory.
pub open spec fn creator_wf(v: FileCreatorView) -> bool {
    v.paths.len() >= 1
}

impl FileCreator {
    /// A creator for `name`, trying `path` first, with directory creation and
    /// file truncation disabled.
    pub fn new(name: &str, path: &str) -> (r: Self)
        ensures
            r@ == (FileCreatorView {
                name: name@,
                paths: seq![path@],
                create: false,
                truncate: false,
            }),
            creator_wf(r@),
    {
        let mut paths: Vec<String> = Vec::new();
        paths.push(path.to_owned());
        let r = FileCreator { name: name.to_owned(), paths, create: false, truncate: false };
        proof {
            assert(dirs_of(r.paths@) =~= seq![path@]);
        }
        r
    }

    /// Add a fallback directory to try after the ones already given; a
    /// directory already in the chain is not added again.
    pub fn with_fallback(self, path: &str) -> (r: Self)
        ensures
            r@ == (FileCreatorView { paths: record_path(self@.paths, path@), ..self@ }),
            creator_wf(self@) ==> creator_wf(r@),
    {
        let mut this = self;
        let p = path.to_owned();
        let n = this.paths.len();
        let mut i: usize = 0;
        let mut present = false;
        while i < n
            invariant
                n == this.paths.len(),
                0 <= i <= n,
                p@ == path@,
                !present ==> (forall|j: int| 0 <= j < i ==> dirs_of(this.paths@)[j] != path@),
                present ==> dirs_of(this.paths@).contains(path@),
            decreases n - i,
        {
            if this.paths[i] == p {
                assert(dirs_of(this.paths@)[i as int] == path@);
                present = true;
            }
            i = i + 1;
        }
        if !present {
            let ghost before = dirs_of(this.paths@);
            this.paths.push(p);
            proof {
                assert(dirs_of(this.paths@) =~= before.push(path@));
            }
        }
        this
    }

    /// Allow or forbid creating a missing candidate directory, parents
    /// included; creation is forbidden by default.
    pub fn allow_create_dirs(self, create: bool) -> (r: Self)
        ensures
            r@ == (FileCreatorView { create, ..self@ }),
    {
        let mut this = self;
        this.create = create;
        this
    }

    /// Allow or forbid truncating an already existing output file; truncation
    /// is forbidden by default.
    pub fn allow_truncate_file(self, truncate: bool) -> (r: Self)
        ensures
            r@ == (FileCreatorView { truncate, ..self@ }),
    {
        let mut this = self;
        this.truncate = truncate;
        this
    }

    /// The target filename.
    pub fn filename(&self) -> (r: &String)
        ensures
            r@ == self@.name,
    {
        &self.name
    }

    /// The candidate directory at one position of the chain.
    pub fn dir_at(&self, index: usize) -> (r: &String)
        requires
            index < self@.paths.len(),
        ensures
            r@ == self@.paths[index as int],
    {
        &self.paths[index]
    }

    /// How many candidate directories the chain holds.
    pub fn candidate_count(&self) -> (r: usize)
        ensures
            r == self@.paths.len(),
    {
        self.paths.len()
    }

    /// Whether an existing output file is to be truncated.
    pub fn truncates(&self) -> (r: bool)
        ensures
            r == self@.truncate,
    {
        self.truncate
    }

    /// The fatal error reported when every candidate was exhausted.
    pub fn exhausted_error(&self) -> (r: SquishError)
        ensures
            r matches SquishError::FileCreationExhausted { filename } && filename@ == self@.name,
    {
        SquishError::FileCreationExhausted { filename: self.name.clone() }
    }
}

/// The filesystem step the resolver asks its caller to perform next, or how
/// the resolution ended.
#[derive(Clone, Copy, Debug, PartialEq, Eq, Structural)]
pub enum CreateAction {
    /// Ask whether the candidate directory at `index` exists, is a directory
    /// and is writable.
    ProbeDir { index: usize },
    /// Try to create the candidate directory at `index`, parents included.
    MakeDirs { index: usize },
    /// Try to open or create the target file inside the candidate directory
    /// at `index`, truncating it only if truncation is allowed.
    OpenFile { index: usize },
    /// The file was opened inside the candidate directory at `index`.
    Done { index: usize },
    /// Every candidate directory was exhausted without an open file.
    GiveUp,
}

/// What the caller reports back after performing the requested step.
#[derive(Clone, Copy, Debug, PartialEq, Eq, Structural)]
pub enum CreateEvent {
    Probed { writable: bool },
    MadeDirs { ok: bool },
    Opened { ok: bool },
}

/// The mathematical state of a [`CreateRun`].
#[verifier::ext_equal]
pub struct CreateRunView {
    pub creator: FileCreatorView,
    pub index: usize,
    pub pending: CreateAction,
    pub reprobing: bool,
}

/// A resolution in progress: the configuration, the candidate under trial,
/// and the step the caller was asked to perform.
pub struct CreateRun {
    creator: FileCreator,
    index: usize,
    pending: CreateAction,
    reprobing: bool,
}

impl View for CreateRun {
    type V = CreateRunView;

    closed spec fn view(&self) -> CreateRunView {
        CreateRunView {
            creator: self.creator@,
            index: self.index,
            pending: self.pending,
            reprobing: self.reprobing,
        }
    }
}

/// The event answers the step that was pending.
pub open spec fn event_matches(pending: CreateAction, ev: CreateEvent) -> bool {
    match (pending, ev) {
        (CreateAction::ProbeDir { .. }, CreateEvent::Probed { .. }) => true,
        (CreateAction::MakeDirs { .. }, CreateEvent::MadeDirs { .. }) => true,
        (CreateAction::OpenFile { .. }, CreateEvent::Opened { .. }) => true,
        _ => false,
    }
}

/// A live run points its pending step at the candidate under trial, within
/// the chain; a run that ended stays ended.
pub open spec fn run_wf(r: CreateRunView) -> bool {
    &&& creator_wf(r.creator)
    &&& match r.pending {
        CreateAction::ProbeDir { index } => index == r.index && r.index < r.creator.paths.len(),
        CreateAction::MakeDirs { index } => index == r.index && r.index < r.creator.paths.len()
            && r.creator.create && !r.reprobing,
        CreateAction::OpenFile { index } => index == r.index && r.index < r.creator.paths.len(),
        CreateAction::Done { index } => index < r.creator.paths.len(),
        CreateAction::GiveUp => true,
    }
}

/// Give up on the current candidate: move to the next one, or end the run
/// when the chain is exhausted.
pub open spec fn next_candidate(r: CreateRunView) -> (CreateRunView, CreateAction) {
    if r.index + 1 < r.creator.paths.len() {
        let a = CreateAction::ProbeDir { index: (r.index + 1) as usize };
        (CreateRunView { index: (r.index + 1) as usize, pending: a, reprobing: false, ..r }, a)
    } else {
        (CreateRunView { pending: CreateAction::GiveUp, ..r }, CreateAction::GiveUp)
    }
}

/// The resolver's transition relation: what one reported event makes of the
/// run, and which step is asked for next.
///
/// A writable candidate is asked to open the file; a non-writable one is
/// asked to be created when creation is allowed and not yet tried, and is
/// skipped otherwise; a created candidate is probed once more; a successful
/// open ends the run at that candidate; any other failure skips to the next
/// candidate.
pub open spec fn advance_view(r: CreateRunView, ev: CreateEvent) -> (CreateRunView, CreateAction) {
    match (r.pending, ev) {
        (CreateAction::ProbeDir { index }, CreateEvent::Probed { writable }) => {
            if writable {
                let a = CreateAction::OpenFile { index };
                (CreateRunView { pending: a, ..r }, a)
            } else if r.creator.create && !r.reprobing {
                let a = CreateAction::MakeDirs { index };
                (CreateRunView { pending: a, ..r }, a)
            } else {
                next_candidate(r)
            }
        },
        (CreateAction::MakeDirs { index }, CreateEvent::MadeDirs { ok }) => {
            if ok {
                let a = CreateAction::ProbeDir { index };
                (CreateRunView { pending: a, reprobing: true, ..r }, a)
            } else {
                next_candidate(r)
            }
        },
        (CreateAction::OpenFile { index }, CreateEvent::Opened { ok }) => {
            if ok {
                let a = CreateAction::Done { index };
                (CreateRunView { pending: a, ..r }, a)
            } else {
                next_candidate(r)
            }
        },
        _ => (CreateRunView { pending: CreateAction::GiveUp, ..r }, CreateAction::GiveUp),
    }
}

impl FileCreator {
    /// Begin resolving: the first candidate of the chain is probed first.
    pub fn begin(self) -> (r: (CreateRun, CreateAction))
        requires
            creator_wf(self@),
        ensures
            r.0@ == (CreateRunView {
                creator: self@,
                index: 0,
                pending: CreateAction::ProbeDir { index: 0 },
                reprobing: false,
            }),
            r.1 == (CreateAction::ProbeDir { index: 0 }),
            run_wf(r.0@),
    {
        let run = CreateRun {
            creator: self,
            index: 0,
            pending: CreateAction::ProbeDir { index: 0 },
            reprobing: false,
        };
        (run, CreateAction::ProbeDir { index: 0 })
    }
}

impl CreateRun {
    /// The configuration the run was started with.
    pub fn creator(&self) -> (r: &FileCreator)
        ensures
            r@ == self@.creator,
    {
        &self.creator
    }

    /// Feed back what the requested step did, and learn the next step.
    pub fn advance(&mut self, ev: CreateEvent) -> (a: CreateAction)
        requires
            run_wf(old(self)@),
            event_matches(old(self)@.pending, ev),
        ensures
            (final (self)@, a) == advance_view(old(self)@, ev),
            run_wf(final (self)@),
    {
        match (self.pending, ev) {
            (CreateAction::ProbeDir { index }, CreateEvent::Probed { writable }) => {
                if writable {
                    let a = CreateAction::OpenFile { index };
                    self.pending = a;
                    a
                } else if self.creator.create && !self.reprobing {
                    let a = CreateAction::MakeDirs { index };
                    self.pending = a;
                    a
                } else {
                    self.go_next()
                }
            },
            (CreateAction::MakeDirs { index }, CreateEvent::MadeDirs { ok }) => {
                if ok {
                    let a = CreateAction::ProbeDir { index };
                    self.pending = a;
                    self.reprobing = true;
                    a
                } else {
                    self.go_next()
                }
            },
            (CreateAction::OpenFile { index }, CreateEvent::Opened { ok }) => {
                if ok {
                    let a = CreateAction::Done { index };
                    self.pending = a;
                    a
                } else {
                    self.go_next()
                }
            },
            _ => {
                // unreachable under the precondition
                self.pending = CreateAction::GiveUp;
                CreateAction::GiveUp
            },
        }
    }

    fn go_next(&mut self) -> (a: CreateAction)
        requires
            run_wf(old(self)@),
            old(self)@.index < old(self)@.creator.paths.len(),
        ensures
            (final (self)@, a) == next_candidate(old(self)@),
            run_wf(final (self)@),
    {
        if self.index < self.creator.paths.len() - 1 {
            self.index = self.index + 1;
            let a = CreateAction::ProbeDir { index: self.index };
            self.pending = a;
            self.reprobing = false;
            a
        } else {
            self.pending = CreateAction::GiveUp;
            CreateAction::GiveUp
        }
    }
}

} // verus!
