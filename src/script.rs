use vstd::prelude::*;
use vstd::string::*;
use crate::error::PlzError;
use crate::project::Task;

verus! {

/// What the shell reported for one command.
#[derive(Debug, Clone)]
pub enum Outcome {
    /// The command ran to completion with this exit code.
    Exited(i32),
    /// The shell itself failed (parse error, I/O failure); holds its message.
    ExecutorFailed(String),
}

/// Where a run of a task's script stands.
#[derive(Debug, Clone)]
pub enum RunState {
    /// The command at this index is the next to run.
    Running(usize),
    /// Every command exited with code `0`.
    Done,
    /// The command at this index exited with this non-zero code.
    Failed(usize, i32),
    /// The shell failed on the command at this index.
    Errored(usize, String),
}

/// The command ran and exited with code `0`.
pub open spec fn succeeded(o: Outcome) -> bool {
    o matches Outcome::Exited(c) && c == 0
}

/// The state of a script of `n` commands before any has run.
pub open spec fn start_state(n: nat) -> RunState {
    if n == 0 {
        RunState::Done
    } else {
        RunState::Running(0)
    }
}

/// The state after the shell reports `o` in state `s`, for a script of `n` commands.
pub open spec fn next_state(n: nat, s: RunState, o: Outcome) -> RunState {
    match s {
        RunState::Running(i) => match o {
            Outcome::Exited(c) => if c != 0 {
                RunState::Failed(i, c)
            } else if i + 1 < n {
                RunState::Running((i + 1) as usize)
            } else {
                RunState::Done
            },
            Outcome::ExecutorFailed(e) => RunState::Errored(i, e),
        },
        _ => s,
    }
}

/// The state after the shell has reported `outs`, in order.
pub open spec fn state_after(n: nat, outs: Seq<Outcome>) -> RunState
    decreases outs.len(),
{
    if outs.len() == 0 {
        start_state(n)
    } else {
        next_state(n, state_after(n, outs.drop_last()), outs.last())
    }
}

/// The indices of the commands handed to the shell while it reported `outs`.
pub open spec fn executed(n: nat, outs: Seq<Outcome>) -> Seq<int>
    decreases outs.len(),
{
    if outs.len() == 0 {
        Seq::empty()
    } else {
        match state_after(n, outs.drop_last()) {
            RunState::Running(i) => executed(n, outs.drop_last()).push(i as int),
            _ => executed(n, outs.drop_last()),
        }
    }
}

proof fn lemma_before_failure(n: nat, outs: Seq<Outcome>, m: nat)
    requires
        n <= usize::MAX,
        m < n,
        m <= outs.len(),
        forall|j: int| 0 <= j < m ==> succeeded(#[trigger] outs[j]),
    ensures
        state_after(n, outs.take(m as int)) == RunState::Running(m as usize),
        executed(n, outs.take(m as int)) =~= Seq::new(m, |j: int| j),
    decreases m,
{
    if m == 0 {
        assert(outs.take(0) =~= Seq::<Outcome>::empty());
    } else {
        lemma_before_failure(n, outs, (m - 1) as nat);
        assert(outs.take(m as int).drop_last() =~= outs.take(m - 1));
        assert(succeeded(outs[m - 1]));
    }
}

proof fn lemma_stopped_stays(n: nat, outs: Seq<Outcome>, m: nat)
    requires
        m <= outs.len(),
        !(state_after(n, outs.take(m as int)) is Running),
    ensures
        state_after(n, outs) == state_after(n, outs.take(m as int)),
        executed(n, outs) == executed(n, outs.take(m as int)),
    decreases outs.len(),
{
    if outs.len() == m {
        assert(outs.take(m as int) =~= outs);
    } else {
        assert(outs.drop_last().take(m as int) =~= outs.take(m as int));
        lemma_stopped_stays(n, outs.drop_last(), m);
    }
}

/// Where command `k` is the first whose report is not a zero exit code, exactly
/// the commands `0..=k` are handed to the shell, in order, and the run stops
/// in the state that report leads to.
pub proof fn lemma_script_stops_at_first_failure(n: nat, outs: Seq<Outcome>, k: nat)
    requires
        n <= usize::MAX,
        k < n,
        k < outs.len(),
        forall|j: int| 0 <= j < k ==> succeeded(#[trigger] outs[j]),
        !succeeded(outs[k as int]),
    ensures
        executed(n, outs) =~= Seq::new(k + 1, |j: int| j),
        state_after(n, outs) == next_state(n, RunState::Running(k as usize), outs[k as int]),
        !(state_after(n, outs) is Running),
{
    lemma_before_failure(n, outs, k);
    assert(outs.take(k as int + 1).drop_last() =~= outs.take(k as int));
    lemma_stopped_stays(n, outs, (k + 1) as nat);
}

/// Where every command exits with code `0`, all of them are handed to the
/// shell, in order, and the run ends done.
pub proof fn lemma_script_runs_all(n: nat, outs: Seq<Outcome>)
    requires
        n <= usize::MAX,
        n <= outs.len(),
        forall|j: int| 0 <= j < n ==> succeeded(#[trigger] outs[j]),
    ensures
        executed(n, outs) =~= Seq::new(n, |j: int| j),
        state_after(n, outs) == RunState::Done,
{
    if n == 0 {
        assert(outs.take(0) =~= Seq::<Outcome>::empty());
        lemma_stopped_stays(n, outs, 0);
    } else {
        lemma_before_failure(n, outs, (n - 1) as nat);
        assert(outs.take(n as int).drop_last() =~= outs.take(n - 1));
        assert(succeeded(outs[n - 1]));
        lemma_stopped_stays(n, outs, n);
    }
}

/// Whatever the shell reports, the commands handed out are the first ones of
/// the script, in order; while the run goes on, the next is the one after them.
pub proof fn lemma_executed_in_order(n: nat, outs: Seq<Outcome>)
    requires
        n <= usize::MAX,
    ensures
        executed(n, outs) =~= Seq::new(executed(n, outs).len(), |j: int| j),
        executed(n, outs).len() <= n,
        state_after(n, outs) matches RunState::Running(i) ==> i == executed(n, outs).len() && i < n,
    decreases outs.len(),
{
    if outs.len() > 0 {
        lemma_executed_in_order(n, outs.drop_last());
    }
}

/// Two runs of the same script hand out the same commands in the same order,
/// as far as the shorter of them goes, whatever the shell reports in each.
pub proof fn lemma_script_runs_agree(n: nat, first: Seq<Outcome>, second: Seq<Outcome>)
    requires
        n <= usize::MAX,
    ensures
        executed(n, first).is_prefix_of(executed(n, second))
            || executed(n, second).is_prefix_of(executed(n, first)),
{
    lemma_executed_in_order(n, first);
    lemma_executed_in_order(n, second);
    let a = executed(n, first);
    let b = executed(n, second);
    if a.len() <= b.len() {
        assert(a =~= b.subrange(0, a.len() as int));
    } else {
        assert(b =~= a.subrange(0, b.len() as int));
    }
}

/// The line printed before a command runs: `+ ` and the command.
pub fn trace_line(cmd: &str) -> (r: String)
    ensures
        r@ == "+ "@ + cmd@,
{
    let prefix = String::from_str("+ ");
    prefix.concat(cmd)
}

/// One run of a task's script: the commands are handed out in order, and the
/// run stops at the first that does not exit with code `0`.
pub struct ScriptRun {
    task: Task,
    state: RunState,
    reported: Ghost<Seq<Outcome>>,
}

impl ScriptRun {
    /// The script being run.
    pub closed spec fn script(&self) -> Seq<Seq<char>> {
        self.task@
    }

    /// The current state.
    pub closed spec fn state(&self) -> RunState {
        self.state
    }

    /// What the shell has reported so far, in order.
    pub closed spec fn reported(&self) -> Seq<Outcome> {
        self.reported@
    }

    /// The state is the one that the reports lead to, and an index in it names a command.
    pub closed spec fn wf(&self) -> bool {
        &&& self.state == state_after(self.task.script@.len(), self.reported@)
        &&& self.state matches RunState::Running(i) ==> i < self.task.script@.len()
    }

    /// Starts a run of `task` (a fresh run: nothing has been reported).
    pub fn begin(task: Task) -> (r: ScriptRun)
        ensures
            r.wf(),
            r.script() == task@,
            r.reported() == Seq::<Outcome>::empty(),
            r.state() == start_state(task@.len()),
    {
        let n = task.script.len();
        let state = if n == 0 {
            RunState::Done
        } else {
            RunState::Running(0)
        };
        ScriptRun { task, state, reported: Ghost(Seq::empty()) }
    }

    /// The command to run next, if the run has not stopped.
    pub fn current(&self) -> (r: Option<&String>)
        requires
            self.wf(),
        ensures
            match self.state() {
                RunState::Running(i) => r matches Some(c) && i < self.script().len() && c@ == self.script()[i as int],
                _ => r is None,
            },
    {
        match self.state {
            RunState::Running(i) => Some(&self.task.script[i]),
            _ => None,
        }
    }

    /// Takes the shell's report on the current command.
    pub fn record(&mut self, o: Outcome)
        requires
            old(self).wf(),
            old(self).state() is Running,
        ensures
            final(self).wf(),
            final(self).script() == old(self).script(),
            final(self).reported() == old(self).reported().push(o),
            final(self).state() == next_state(old(self).script().len(), old(self).state(), o),
    {
        let ghost old_reported = self.reported@;
        let n = self.task.script.len();
        let i = match self.state {
            RunState::Running(i) => i,
            _ => 0,
        };
        let ghost o_copy = o;
        self.state = match o {
            Outcome::Exited(c) => if c != 0 {
                RunState::Failed(i, c)
            } else if i + 1 < n {
                RunState::Running(i + 1)
            } else {
                RunState::Done
            },
            Outcome::ExecutorFailed(e) => RunState::Errored(i, e),
        };
        self.reported = Ghost(old_reported.push(o_copy));
        proof {
            assert(self.reported@.drop_last() =~= old_reported);
        }
    }

    /// How the run ended, once it has stopped.
    pub fn finish(&self) -> (r: Option<Result<(), PlzError>>)
        ensures
            match self.state() {
                RunState::Running(_) => r is None,
                RunState::Done => r matches Some(Ok(())),
                RunState::Failed(i, c) => r matches Some(Err(PlzError::CommandFailed(j, d))) && j == i && d == c,
                RunState::Errored(i, e) => r matches Some(Err(PlzError::ExecutorError(j, m))) && j == i && m == e,
            },
    {
        match &self.state {
            RunState::Running(_) => None,
            RunState::Done => Some(Ok(())),
            RunState::Failed(i, c) => Some(Err(PlzError::CommandFailed(*i, *c))),
            RunState::Errored(i, e) => Some(Err(PlzError::ExecutorError(*i, e.clone()))),
        }
    }
}

} // verus!
