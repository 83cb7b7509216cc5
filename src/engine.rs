//! The tail engine: the decisions taken for each path of each change
//! notification, with the file reads left to the caller.
//!
//! For each affected path the caller asks [`TailEngine::request`] what to
//! observe of the file, performs that observation, and hands the [`Outcome`] to
//! [`TailEngine::handle`], which updates the registry and yields at most one
//! [`Record`].

use vstd::prelude::*;
use crate::path::{display_name, matches_extension, passes_filter};
use crate::registry::{FileState, Registry};

verus! {

/// The kind of a change notification.
#[derive(Clone, Copy, Debug, PartialEq, Eq)]
pub enum EventKind {
    Created,
    Modified,
    Removed,
    Other,
}

/// What the caller must observe of a file before the engine can act on it.
#[derive(Clone, Copy, Debug, PartialEq, Eq)]
pub enum Request {
    /// Nothing: the engine will act without looking at the file.
    Nothing,
    /// Open the file and report its length.
    OpenAtEnd,
    /// Read every byte of the file from this offset to its end.
    ReadFrom(u64),
}

/// What the caller observed of a file.
#[derive(Clone, Debug, PartialEq, Eq)]
pub enum Outcome {
    /// The file was opened; it was this long.
    Opened(u64),
    /// These bytes were read.
    Read(Vec<u8>),
    /// The file could not be opened or read.
    Failed,
    /// Nothing was observed.
    Skipped,
}

/// What was observed, as the contracts see it.
pub enum Observed {
    Opened(u64),
    Read(Seq<u8>),
    Failed,
    Skipped,
}

impl View for Outcome {
    type V = Observed;

    open spec fn view(&self) -> Observed {
        match self {
            Outcome::Opened(n) => Observed::Opened(*n),
            Outcome::Read(b) => Observed::Read(b@),
            Outcome::Failed => Observed::Failed,
            Outcome::Skipped => Observed::Skipped,
        }
    }
}

/// What the engine reports.
#[derive(Clone, Debug, PartialEq, Eq)]
pub enum Record {
    /// A file has been tracked since it was created.
    Added(String),
    /// New bytes of a tracked file, with the name shown beside them.
    Content { path: String, name: String, bytes: Vec<u8> },
    /// A tracked file was removed.
    Removed(String),
}

/// A record, as the contracts see it.
pub enum Report {
    Added(Seq<char>),
    Content(Seq<char>, Seq<char>, Seq<u8>),
    Removed(Seq<char>),
}

impl View for Record {
    type V = Report;

    open spec fn view(&self) -> Report {
        match self {
            Record::Added(p) => Report::Added(p@),
            Record::Content { path, name, bytes } => Report::Content(path@, name@, bytes@),
            Record::Removed(p) => Report::Removed(p@),
        }
    }
}

pub open spec fn report_of(r: Option<Record>) -> Option<Report> {
    match r {
        Some(rec) => Some(rec@),
        None => None,
    }
}

/// The path that a report is about.
pub open spec fn report_path(r: Report) -> Seq<char> {
    match r {
        Report::Added(p) => p,
        Report::Content(p, _, _) => p,
        Report::Removed(p) => p,
    }
}

/// The registry as a map from path to state.
pub type Cursors = Map<Seq<char>, FileState>;

/// What the engine needs observed of `p` for an event of `kind`.
pub open spec fn request_for(reg: Cursors, ext: Seq<char>, kind: EventKind, p: Seq<char>) -> Request {
    if !passes_filter(p, ext) {
        Request::Nothing
    } else {
        match kind {
            EventKind::Created => Request::OpenAtEnd,
            EventKind::Modified => if reg.contains_key(p) {
                Request::ReadFrom(reg[p].cursor)
            } else {
                Request::Nothing
            },
            _ => Request::Nothing,
        }
    }
}

/// The registry and the report after an event of `kind` on `p`, given what was
/// observed of the file.
pub open spec fn step(reg: Cursors, ext: Seq<char>, kind: EventKind, p: Seq<char>, o: Observed) -> (
    Cursors,
    Option<Report>,
) {
    if !passes_filter(p, ext) {
        (reg, None)
    } else {
        match kind {
            EventKind::Created => match o {
                Observed::Opened(end) => (
                    reg.insert(p, FileState { name: display_name(p), cursor: end }),
                    Some(Report::Added(p)),
                ),
                _ => (reg, None),
            },
            EventKind::Modified => match o {
                Observed::Read(b) => if reg.contains_key(p) && b.len() > 0 && reg[p].cursor
                    + b.len() <= u64::MAX {
                    (
                        reg.insert(
                            p,
                            FileState {
                                name: reg[p].name,
                                cursor: (reg[p].cursor + b.len()) as u64,
                            },
                        ),
                        Some(Report::Content(p, reg[p].name, b)),
                    )
                } else {
                    (reg, None)
                },
                _ => (reg, None),
            },
            EventKind::Removed => if reg.contains_key(p) {
                (reg.remove(p), Some(Report::Removed(p)))
            } else {
                (reg, None)
            },
            EventKind::Other => (reg, None),
        }
    }
}

/// Every tracked path passes the filter.
pub open spec fn all_pass(reg: Cursors, ext: Seq<char>) -> bool {
    forall|k: Seq<char>| #[trigger] reg.contains_key(k) ==> passes_filter(k, ext)
}

/// The engine: the registry it owns and the extension of the files it tracks.
pub struct TailEngine {
    registry: Registry,
    extension: String,
}

impl View for TailEngine {
    type V = Cursors;

    closed spec fn view(&self) -> Cursors {
        self.registry@
    }
}

impl TailEngine {
    /// The extension of the files tracked.
    pub closed spec fn ext(&self) -> Seq<char> {
        self.extension@
    }

    pub closed spec fn wf(&self) -> bool {
        &&& self.registry.wf()
        &&& all_pass(self.registry@, self.extension@)
    }

    /// An engine that tracks nothing yet, for files whose extension is `extension`.
    pub fn new(extension: String) -> (r: TailEngine)
        ensures
            r.wf(),
            r.ext() == extension@,
            r@ == Cursors::empty(),
    {
        TailEngine { registry: Registry::new(), extension }
    }

    /// The extension of the files tracked.
    pub fn extension(&self) -> (r: &String)
        ensures
            r@ == self.ext(),
    {
        &self.extension
    }

    /// Whether `path` passes the filter.
    pub fn accepts(&self, path: &String) -> (r: bool)
        ensures
            r == passes_filter(path@, self.ext()),
    {
        matches_extension(path.as_str(), &self.extension)
    }

    /// Whether `path` is tracked.
    pub fn is_tracked(&self, path: &String) -> (r: bool)
        requires
            self.wf(),
        ensures
            r == self@.contains_key(path@),
    {
        self.registry.contains(path)
    }

    /// The read cursor of `path`, if it is tracked.
    pub fn cursor(&self, path: &String) -> (r: Option<u64>)
        requires
            self.wf(),
        ensures
            self@.contains_key(path@) ==> r == Some(self@[path@].cursor),
            !self@.contains_key(path@) ==> r is None,
    {
        self.registry.cursor(path)
    }

    /// What the caller must observe of `path` before handing an event of
    /// `kind` on it to [`TailEngine::handle`].
    pub fn request(&self, kind: EventKind, path: &String) -> (r: Request)
        requires
            self.wf(),
        ensures
            r == request_for(self@, self.ext(), kind, path@),
    {
        if !self.accepts(path) {
            return Request::Nothing;
        }
        match kind {
            EventKind::Created => Request::OpenAtEnd,
            EventKind::Modified => match self.registry.cursor(path) {
                Some(c) => Request::ReadFrom(c),
                None => Request::Nothing,
            },
            _ => Request::Nothing,
        }
    }

    /// Tracks `path`, found before watching began, if it passes the filter and
    /// could be opened; says whether it is now tracked. Nothing is reported.
    pub fn seed(&mut self, path: String, outcome: Outcome) -> (r: bool)
        requires
            old(self).wf(),
        ensures
            final(self).wf(),
            final(self).ext() == old(self).ext(),
            final(self)@ == step(old(self)@, old(self).ext(), EventKind::Created, path@, outcome@).0,
            r == (passes_filter(path@, old(self).ext()) && outcome is Opened),
    {
        if !self.accepts(&path) {
            return false;
        }
        match outcome {
            Outcome::Opened(end) => {
                self.registry.register(path, end);
                assert(all_pass(self.registry@, self.extension@));
                true
            },
            _ => false,
        }
    }

    /// Acts on an event of `kind` on `path`, given what was observed of the
    /// file, and yields what is to be reported.
    pub fn handle(&mut self, kind: EventKind, path: String, outcome: Outcome) -> (r: Option<Record>)
        requires
            old(self).wf(),
        ensures
            final(self).wf(),
            final(self).ext() == old(self).ext(),
            (final(self)@, report_of(r)) == step(old(self)@, old(self).ext(), kind, path@, outcome@),
    {
        if !self.accepts(&path) {
            return None;
        }
        match kind {
            EventKind::Created => match outcome {
                Outcome::Opened(end) => {
                    let shown = path.clone();
                    self.registry.register(path, end);
                    assert(all_pass(self.registry@, self.extension@));
                    Some(Record::Added(shown))
                },
                _ => None,
            },
            EventKind::Modified => match outcome {
                Outcome::Read(bytes) => {
                    match self.registry.name_of(&path) {
                        Some(name) => {
                            let ghost before = self.registry@;
                            let fresh = self.registry.advance(&path, bytes);
                            if fresh.len() > 0 {
                                assert(all_pass(self.registry@, self.extension@));
                                Some(Record::Content { path, name, bytes: fresh })
                            } else {
                                assert(self.registry@ =~= before);
                                None
                            }
                        },
                        None => None,
                    }
                },
                _ => None,
            },
            EventKind::Removed => {
                if self.registry.unregister(&path) {
                    Some(Record::Removed(path))
                } else {
                    None
                }
            },
            EventKind::Other => None,
        }
    }
}

} // verus!
