//! The task runner: runs a task set's commands one after another in a remote
//! directory and stops at the first that fails. It decides; the caller runs each
//! command and reports its exit status.

use vstd::prelude::*;
use crate::config::TaskRun;

verus! {

/// The shell command that runs `run` inside `pwd`.
pub open spec fn task_command(pwd: Seq<char>, run: Seq<char>) -> Seq<char> {
    "cd "@ + pwd + " && "@ + run
}

/// The command line for `run` inside `pwd`.
pub fn build_task_command(pwd: &str, run: &str) -> (r: String)
    ensures
        r@ == task_command(pwd@, run@),
{
    let mut r = String::from_str("cd ");
    r.append(pwd);
    r.append(" && ");
    r.append(run);
    r
}

/// The task that failed and the exit status it failed with.
#[derive(Clone, Debug)]
pub struct TaskFailure {
    pub index: usize,
    pub name: String,
    pub exit_code: u8,
}

/// What the caller is to do next.
pub enum TaskAction {
    /// Run `command`, the task at `index`, and report its exit status.
    Run { index: usize, command: String },
    /// Every task ran successfully.
    Succeeded,
    /// The task at `index` exited with `exit_code`; nothing after it runs.
    Failed { index: usize, exit_code: u8 },
}

/// Progress through a task set: how many tasks finished successfully, and the
/// failure, if one came.
pub struct RunView {
    pub next: int,
    pub failure: Option<(int, u8)>,
}

/// The report of exit status `code` for the current task of a set of `n` tasks.
pub open spec fn run_step(n: int, st: RunView, code: u8) -> RunView {
    if st.failure is Some || st.next >= n {
        st
    } else if code == 0 {
        RunView { next: st.next + 1, failure: None }
    } else {
        RunView { next: st.next, failure: Some((st.next, code)) }
    }
}

/// The reports `codes` made one after another.
pub open spec fn run_all(n: int, st: RunView, codes: Seq<u8>) -> RunView
    decreases codes.len(),
{
    if codes.len() == 0 {
        st
    } else {
        run_step(n, run_all(n, st, codes.drop_last()), codes.last())
    }
}

/// The index of the first non-zero status among the first `k` of `codes`, if any.
pub open spec fn first_failure(codes: Seq<u8>, k: int) -> Option<int>
    decreases k,
{
    if k <= 0 {
        None
    } else {
        match first_failure(codes, k - 1) {
            Some(i) => Some(i),
            None => if codes[k - 1] != 0 {
                Some(k - 1)
            } else {
                None
            },
        }
    }
}

/// Fail-fast: when task `i` reports `codes[i]`, the set runs tasks in order up to
/// the first non-zero status, fails with that task and status, and runs nothing
/// after it; with no non-zero status every task runs and the set succeeds.
pub proof fn lemma_fail_fast(n: int, codes: Seq<u8>, k: int)
    requires
        0 <= k <= codes.len(),
        codes.len() <= n,
    ensures
        run_all(n, RunView { next: 0, failure: None }, codes.subrange(0, k)) == match first_failure(codes, k) {
            Some(i) => RunView { next: i, failure: Some((i, codes[i])) },
            None => RunView { next: k, failure: None },
        },
    decreases k,
{
    if k > 0 {
        lemma_fail_fast(n, codes, k - 1);
        assert(codes.subrange(0, k).drop_last() =~= codes.subrange(0, k - 1));
        assert(codes.subrange(0, k).last() == codes[k - 1]);
    } else {
        assert(codes.subrange(0, k) =~= Seq::<u8>::empty());
    }
}

/// Runs a task set in a fixed remote directory, in order, stopping at the first
/// failure.
pub struct TaskRunner {
    pub pwd: String,
    pub names: Vec<String>,
    pub commands: Vec<String>,
    pub next: usize,
    pub failure: Option<(usize, u8)>,
}

impl TaskRunner {
    pub open spec fn view_state(&self) -> RunView {
        RunView {
            next: self.next as int,
            failure: match self.failure {
                Some((i, c)) => Some((i as int, c)),
                None => None,
            },
        }
    }

    pub open spec fn wf(&self) -> bool {
        &&& self.names@.len() == self.commands@.len()
        &&& self.next <= self.commands@.len()
        &&& self.failure matches Some((i, c)) ==> i == self.next && i < self.commands@.len() && c != 0
    }

    /// A runner for `runs` inside `pwd`, before any task ran.
    pub fn new(pwd: &str, runs: &Vec<TaskRun>) -> (r: TaskRunner)
        ensures
            r.wf(),
            r.pwd@ == pwd@,
            r.commands@.len() == runs@.len(),
            forall|i: int| 0 <= i < runs@.len() ==> #[trigger] r.commands@[i]@ == task_command(pwd@, runs@[i].run@)
                && r.names@[i]@ == runs@[i].name@,
            r.view_state() == (RunView { next: 0, failure: None }),
    {
        let mut names: Vec<String> = Vec::new();
        let mut commands: Vec<String> = Vec::new();
        let mut i: usize = 0;
        while i < runs.len()
            invariant
                i <= runs@.len(),
                names@.len() == i,
                commands@.len() == i,
                forall|j: int| 0 <= j < i ==> #[trigger] commands@[j]@ == task_command(pwd@, runs@[j].run@)
                    && names@[j]@ == runs@[j].name@,
            decreases runs.len() - i,
        {
            commands.push(build_task_command(pwd, runs[i].run.as_str()));
            names.push(runs[i].name.clone());
            i += 1;
        }
        TaskRunner { pwd: pwd.to_owned(), names, commands, next: 0, failure: None }
    }

    /// What to do next: run the current task, or report how the set ended.
    pub fn next_action(&self) -> (r: TaskAction)
        requires
            self.wf(),
        ensures
            self.failure matches Some((i, c)) ==> r == (TaskAction::Failed { index: i, exit_code: c }),
            self.failure is None && self.next < self.commands@.len() ==> (r matches TaskAction::Run { index, command }
                && index == self.next && command@ == self.commands@[self.next as int]@),
            self.failure is None && self.next == self.commands@.len() ==> r matches TaskAction::Succeeded,
    {
        match self.failure {
            Some((i, c)) => TaskAction::Failed { index: i, exit_code: c },
            None => {
                if self.next < self.commands.len() {
                    TaskAction::Run { index: self.next, command: self.commands[self.next].clone() }
                } else {
                    TaskAction::Succeeded
                }
            },
        }
    }

    /// Reports the exit status of the current task.
    pub fn report(&mut self, exit_code: u8)
        requires
            old(self).wf(),
        ensures
            final(self).wf(),
            final(self).pwd == old(self).pwd,
            final(self).names == old(self).names,
            final(self).commands == old(self).commands,
            final(self).view_state() == run_step(old(self).commands@.len() as int, old(self).view_state(), exit_code),
    {
        if self.failure.is_none() && self.next < self.commands.len() {
            if exit_code == 0 {
                self.next = self.next + 1;
            } else {
                self.failure = Some((self.next, exit_code));
            }
        }
    }

    /// The failure of the set, naming the task, once a task failed.
    pub fn failure(&self) -> (r: Option<TaskFailure>)
        requires
            self.wf(),
        ensures
            self.failure is None ==> r is None,
            self.failure matches Some((i, c)) ==> (r matches Some(f) && f.index == i && f.exit_code == c
                && f.name@ == self.names@[i as int]@),
    {
        match self.failure {
            Some((i, c)) => Some(TaskFailure { index: i, name: self.names[i].clone(), exit_code: c }),
            None => None,
        }
    }
}

} // verus!
