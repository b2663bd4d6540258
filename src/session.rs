use vstd::prelude::*;
use crate::error::PlzError;
use crate::project::{Project, Task};

verus! {

/// Where a run of the requested tasks stands.
#[derive(Debug)]
pub enum Stage {
    /// The requested task at this index is defined and is the next to run.
    Ready(usize),
    /// The run has ended, with this result.
    Finished(Result<(), PlzError>),
}

/// The stage reached on coming to the requested task at index `i`: it runs if
/// it is defined; past the end, or at an undefined name, the run ends.
pub open spec fn settle(tasks: Map<Seq<char>, Seq<Seq<char>>>, requested: Seq<String>, i: nat) -> Stage {
    if i >= requested.len() {
        Stage::Finished(Ok(()))
    } else if !tasks.contains_key(requested[i as int]@) {
        Stage::Finished(Err(PlzError::UnknownTask(requested[i as int])))
    } else {
        Stage::Ready(i as usize)
    }
}

/// The stage after the running task reports `r`: on success the next requested
/// task comes up, on failure the run ends with that failure.
pub open spec fn report(
    tasks: Map<Seq<char>, Seq<Seq<char>>>,
    requested: Seq<String>,
    s: Stage,
    r: Result<(), PlzError>,
) -> Stage {
    match s {
        Stage::Ready(i) => match r {
            Ok(()) => settle(tasks, requested, (i + 1) as nat),
            Err(e) => Stage::Finished(Err(e)),
        },
        _ => s,
    }
}

/// The stage after the tasks that ran have reported `reports`, in order.
pub open spec fn stage_after(
    tasks: Map<Seq<char>, Seq<Seq<char>>>,
    requested: Seq<String>,
    reports: Seq<Result<(), PlzError>>,
) -> Stage
    decreases reports.len(),
{
    if reports.len() == 0 {
        settle(tasks, requested, 0)
    } else {
        report(tasks, requested, stage_after(tasks, requested, reports.drop_last()), reports.last())
    }
}

/// The indices of the requested tasks that ran and reported `reports`.
pub open spec fn ran(
    tasks: Map<Seq<char>, Seq<Seq<char>>>,
    requested: Seq<String>,
    reports: Seq<Result<(), PlzError>>,
) -> Seq<int>
    decreases reports.len(),
{
    if reports.len() == 0 {
        Seq::empty()
    } else {
        match stage_after(tasks, requested, reports.drop_last()) {
            Stage::Ready(i) => ran(tasks, requested, reports.drop_last()).push(i as int),
            _ => ran(tasks, requested, reports.drop_last()),
        }
    }
}

proof fn lemma_before_stop(
    tasks: Map<Seq<char>, Seq<Seq<char>>>,
    requested: Seq<String>,
    reports: Seq<Result<(), PlzError>>,
    m: nat,
)
    requires
        requested.len() <= usize::MAX,
        m < requested.len(),
        m <= reports.len(),
        forall|j: int| 0 <= j <= m ==> tasks.contains_key(#[trigger] requested[j]@),
        forall|j: int| 0 <= j < m ==> (#[trigger] reports[j]) is Ok,
    ensures
        stage_after(tasks, requested, reports.take(m as int)) == Stage::Ready(m as usize),
        ran(tasks, requested, reports.take(m as int)) =~= Seq::new(m, |j: int| j),
    decreases m,
{
    if m == 0 {
        assert(reports.take(0) =~= Seq::<Result<(), PlzError>>::empty());
        assert(tasks.contains_key(requested[0]@));
    } else {
        lemma_before_stop(tasks, requested, reports, (m - 1) as nat);
        assert(reports.take(m as int).drop_last() =~= reports.take(m - 1));
        assert(reports[m - 1] is Ok);
        assert(tasks.contains_key(requested[m as int]@));
    }
}

proof fn lemma_finished_stays(
    tasks: Map<Seq<char>, Seq<Seq<char>>>,
    requested: Seq<String>,
    reports: Seq<Result<(), PlzError>>,
    m: nat,
)
    requires
        m <= reports.len(),
        stage_after(tasks, requested, reports.take(m as int)) is Finished,
    ensures
        stage_after(tasks, requested, reports) == stage_after(tasks, requested, reports.take(m as int)),
        ran(tasks, requested, reports) == ran(tasks, requested, reports.take(m as int)),
    decreases reports.len(),
{
    if reports.len() == m {
        assert(reports.take(m as int) =~= reports);
    } else {
        assert(reports.drop_last().take(m as int) =~= reports.take(m as int));
        lemma_finished_stays(tasks, requested, reports.drop_last(), m);
    }
}

/// Where the requested task `k` is the first that is not defined, and every
/// task before it succeeds, exactly the tasks `0..k` run, in order, and the
/// run ends with that task reported unknown.
pub proof fn lemma_session_stops_at_unknown(
    tasks: Map<Seq<char>, Seq<Seq<char>>>,
    requested: Seq<String>,
    reports: Seq<Result<(), PlzError>>,
    k: nat,
)
    requires
        requested.len() <= usize::MAX,
        k < requested.len(),
        k <= reports.len(),
        forall|j: int| 0 <= j < k ==> tasks.contains_key(#[trigger] requested[j]@),
        !tasks.contains_key(requested[k as int]@),
        forall|j: int| 0 <= j < k ==> (#[trigger] reports[j]) is Ok,
    ensures
        ran(tasks, requested, reports) =~= Seq::new(k, |j: int| j),
        stage_after(tasks, requested, reports) == Stage::Finished(Err(PlzError::UnknownTask(requested[k as int]))),
{
    if k == 0 {
        assert(reports.take(0) =~= Seq::<Result<(), PlzError>>::empty());
    } else {
        lemma_before_stop(tasks, requested, reports, (k - 1) as nat);
        assert(reports.take(k as int).drop_last() =~= reports.take(k - 1));
        assert(reports[k - 1] is Ok);
    }
    lemma_finished_stays(tasks, requested, reports, k);
}

/// Where the requested task `k` is the first that fails, and all up to it are
/// defined, exactly the tasks `0..=k` run, in order, and the run ends with
/// that task's failure.
pub proof fn lemma_session_stops_at_failure(
    tasks: Map<Seq<char>, Seq<Seq<char>>>,
    requested: Seq<String>,
    reports: Seq<Result<(), PlzError>>,
    k: nat,
)
    requires
        requested.len() <= usize::MAX,
        k < requested.len(),
        k < reports.len(),
        forall|j: int| 0 <= j <= k ==> tasks.contains_key(#[trigger] requested[j]@),
        forall|j: int| 0 <= j < k ==> (#[trigger] reports[j]) is Ok,
        reports[k as int] is Err,
    ensures
        ran(tasks, requested, reports) =~= Seq::new(k + 1, |j: int| j),
        stage_after(tasks, requested, reports) == Stage::Finished(reports[k as int]),
{
    lemma_before_stop(tasks, requested, reports, k);
    assert(reports.take(k as int + 1).drop_last() =~= reports.take(k as int));
    lemma_finished_stays(tasks, requested, reports, (k + 1) as nat);
}

/// Where every requested task is defined and succeeds, all of them run, in
/// order, and the run ends in success.
pub proof fn lemma_session_runs_all(
    tasks: Map<Seq<char>, Seq<Seq<char>>>,
    requested: Seq<String>,
    reports: Seq<Result<(), PlzError>>,
)
    requires
        requested.len() <= usize::MAX,
        requested.len() <= reports.len(),
        forall|j: int| 0 <= j < requested.len() ==> tasks.contains_key(#[trigger] requested[j]@),
        forall|j: int| 0 <= j < requested.len() ==> (#[trigger] reports[j]) is Ok,
    ensures
        ran(tasks, requested, reports) =~= Seq::new(requested.len(), |j: int| j),
        stage_after(tasks, requested, reports) == Stage::Finished(Ok(())),
{
    let n = requested.len();
    if n == 0 {
        assert(reports.take(0) =~= Seq::<Result<(), PlzError>>::empty());
    } else {
        lemma_before_stop(tasks, requested, reports, (n - 1) as nat);
        assert(reports.take(n as int).drop_last() =~= reports.take(n - 1));
        assert(reports[n - 1] is Ok);
    }
    lemma_finished_stays(tasks, requested, reports, n);
}

/// Whatever the tasks report, those that run are the first ones requested, in
/// order; while the run goes on, the next is the one after them.
pub proof fn lemma_ran_in_order(
    tasks: Map<Seq<char>, Seq<Seq<char>>>,
    requested: Seq<String>,
    reports: Seq<Result<(), PlzError>>,
)
    requires
        requested.len() <= usize::MAX,
    ensures
        ran(tasks, requested, reports) =~= Seq::new(ran(tasks, requested, reports).len(), |j: int| j),
        ran(tasks, requested, reports).len() <= requested.len(),
        stage_after(tasks, requested, reports) matches Stage::Ready(i)
            ==> i == ran(tasks, requested, reports).len() && i < requested.len(),
    decreases reports.len(),
{
    if reports.len() > 0 {
        lemma_ran_in_order(tasks, requested, reports.drop_last());
    }
}

/// Two runs of the same requested tasks against the same manifest run the same
/// tasks in the same order, as far as the shorter of them goes, whatever the
/// tasks report in each.
pub proof fn lemma_sessions_agree(
    tasks: Map<Seq<char>, Seq<Seq<char>>>,
    requested: Seq<String>,
    first: Seq<Result<(), PlzError>>,
    second: Seq<Result<(), PlzError>>,
)
    requires
        requested.len() <= usize::MAX,
    ensures
        ran(tasks, requested, first).is_prefix_of(ran(tasks, requested, second))
            || ran(tasks, requested, second).is_prefix_of(ran(tasks, requested, first)),
{
    lemma_ran_in_order(tasks, requested, first);
    lemma_ran_in_order(tasks, requested, second);
    let a = ran(tasks, requested, first);
    let b = ran(tasks, requested, second);
    if a.len() <= b.len() {
        assert(a =~= b.subrange(0, a.len() as int));
    } else {
        assert(b =~= a.subrange(0, b.len() as int));
    }
}

fn settled(project: &Project, requested: &Vec<String>, i: usize) -> (s: Stage)
    requires
        project.wf(),
        i <= requested@.len(),
    ensures
        s == settle(project@, requested@, i as nat),
{
    if i >= requested.len() {
        Stage::Finished(Ok(()))
    } else {
        match project.lookup(requested[i].as_str()) {
            Ok(_) => Stage::Ready(i),
            Err(_) => Stage::Finished(Err(PlzError::UnknownTask(requested[i].clone()))),
        }
    }
}

/// A run of the requested tasks, in the order requested: each defined task runs
/// in turn, and the run ends at the first task that is undefined or fails.
pub struct Session {
    project: Project,
    requested: Vec<String>,
    stage: Stage,
    reported: Ghost<Seq<Result<(), PlzError>>>,
}

impl Session {
    /// The tasks that the manifest defines.
    pub closed spec fn tasks(&self) -> Map<Seq<char>, Seq<Seq<char>>> {
        self.project@
    }

    /// The names of the requested tasks, in order.
    pub closed spec fn requested(&self) -> Seq<String> {
        self.requested@
    }

    /// The current stage.
    pub closed spec fn stage(&self) -> Stage {
        self.stage
    }

    /// What the tasks that ran have reported, in order.
    pub closed spec fn reported(&self) -> Seq<Result<(), PlzError>> {
        self.reported@
    }

    /// The stage is the one that the reports lead to.
    pub closed spec fn wf(&self) -> bool {
        &&& self.project.wf()
        &&& self.stage == stage_after(self.project@, self.requested@, self.reported@)
        &&& self.stage matches Stage::Ready(i) ==> i < self.requested@.len()
            && self.project@.contains_key(self.requested@[i as int]@)
    }

    /// Starts a run of the tasks `requested` of `project`.
    pub fn new(project: Project, requested: Vec<String>) -> (s: Session)
        requires
            project.wf(),
        ensures
            s.wf(),
            s.tasks() == project@,
            s.requested() == requested@,
            s.reported() == Seq::<Result<(), PlzError>>::empty(),
            s.stage() == settle(project@, requested@, 0),
    {
        let stage = settled(&project, &requested, 0);
        Session { project, requested, stage, reported: Ghost(Seq::empty()) }
    }

    /// The task to run now, if the run has not ended.
    pub fn current_task(&self) -> (r: Option<&Task>)
        requires
            self.wf(),
        ensures
            match self.stage() {
                Stage::Ready(i) => r matches Some(t) && i < self.requested().len()
                    && t@ == self.tasks()[self.requested()[i as int]@],
                _ => r is None,
            },
    {
        match self.stage {
            Stage::Ready(i) => match self.project.lookup(self.requested[i].as_str()) {
                Ok(t) => Some(t),
                Err(_) => None,
            },
            _ => None,
        }
    }

    /// Takes the result of the task that ran.
    pub fn task_done(&mut self, result: Result<(), PlzError>)
        requires
            old(self).wf(),
            old(self).stage() is Ready,
        ensures
            final(self).wf(),
            final(self).tasks() == old(self).tasks(),
            final(self).requested() == old(self).requested(),
            final(self).reported() == old(self).reported().push(result),
            final(self).stage() == report(old(self).tasks(), old(self).requested(), old(self).stage(), result),
    {
        let ghost old_reported = self.reported@;
        let ghost r_copy = result;
        let i = match self.stage {
            Stage::Ready(i) => i,
            _ => 0,
        };
        assert(i < self.requested.len());
        self.stage = match result {
            Ok(()) => settled(&self.project, &self.requested, i + 1),
            Err(e) => Stage::Finished(Err(e)),
        };
        self.reported = Ghost(old_reported.push(r_copy));
        proof {
            assert(self.reported@.drop_last() =~= old_reported);
        }
    }

    /// How the run ended, once it has ended.
    pub fn outcome(&self) -> (r: Option<&Result<(), PlzError>>)
        ensures
            match self.stage() {
                Stage::Finished(res) => r == Some(&res),
                _ => r is None,
            },
    {
        match &self.stage {
            Stage::Finished(res) => Some(res),
            _ => None,
        }
    }
}

} // verus!
