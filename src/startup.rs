use vstd::prelude::*;
use crate::error::PlzError;
use crate::locate::{Locator, Probe};
use crate::project::Project;
use crate::session::{settle, Session};

verus! {

/// The steps before any task runs: find the project root, decode its manifest,
/// change into the root, and only then start the requested tasks.
pub enum Startup<C> {
    /// Probing for the manifest.
    Searching(Locator<C>),
    /// The manifest is in this directory: read and decode it next.
    Reading(Vec<C>),
    /// The manifest is decoded: change into this directory next.
    Entering(Vec<C>, Project),
    /// The process is in the project root: the requested tasks run.
    Running(Session),
    /// Startup failed; no task runs.
    Failed(PlzError),
}

impl<C> Startup<C> {
    /// Starts the search in the directory `start`.
    pub fn begin(start: Vec<C>) -> (s: Startup<C>)
        ensures
            s matches Startup::Searching(l) && l.dir() == start@,
    {
        Startup::Searching(Locator::new(start))
    }

    /// Takes whether the directory being probed holds the manifest as a
    /// regular file.
    pub fn probed(self, is_file: bool) -> (s: Startup<C>)
        requires
            self is Searching,
        ensures
            ({
                let l = self->Searching_0;
                &&& is_file ==> (s matches Startup::Reading(root) && root@ == l.dir())
                &&& !is_file && l.dir().len() > 0 ==> (s matches Startup::Searching(m) && m.dir() == l.dir().drop_last())
                &&& !is_file && l.dir().len() == 0 ==> (s matches Startup::Failed(PlzError::ManifestNotFound))
            }),
    {
        match self {
            Startup::Searching(mut l) => match l.advance(is_file) {
                Probe::Found => Startup::Reading(l.into_components()),
                Probe::Climb => Startup::Searching(l),
                Probe::Exhausted => Startup::Failed(PlzError::ManifestNotFound),
            },
            other => other,
        }
    }

    /// Takes the decoded manifest, or what went wrong in reading or decoding it.
    pub fn read(self, loaded: Result<Project, PlzError>) -> (s: Startup<C>)
        requires
            self is Reading,
            loaded matches Ok(p) ==> p.wf(),
        ensures
            match loaded {
                Ok(p) => s matches Startup::Entering(root, q) && root@ == self->Reading_0@ && q == p,
                Err(e) => s matches Startup::Failed(f) && f == e,
            },
    {
        match self {
            Startup::Reading(root) => match loaded {
                Ok(p) => Startup::Entering(root, p),
                Err(e) => Startup::Failed(e),
            },
            other => other,
        }
    }

    /// Takes whether changing into the project root succeeded; where it did,
    /// the tasks `requested` start.
    pub fn entered(self, changed: Result<(), PlzError>, requested: Vec<String>) -> (s: Startup<C>)
        requires
            self matches Startup::Entering(_, p) && p.wf(),
        ensures
            match changed {
                Ok(()) => s matches Startup::Running(r) && r.wf()
                    && r.tasks() == self->Entering_1@
                    && r.requested() == requested@
                    && r.reported() == Seq::<Result<(), PlzError>>::empty()
                    && r.stage() == settle(self->Entering_1@, requested@, 0),
                Err(e) => s matches Startup::Failed(f) && f == e,
            },
    {
        match self {
            Startup::Entering(_, p) => match changed {
                Ok(()) => Startup::Running(Session::new(p, requested)),
                Err(e) => Startup::Failed(e),
            },
            other => other,
        }
    }
}

} // verus!
