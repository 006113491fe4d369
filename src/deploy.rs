//! From a task definition to the pieces of a deployment run: what to transfer and
//! which commands to run where.

use vstd::prelude::*;
use crate::config::{TaskDefinition, ConfigContext, Configuration};
use crate::fs::FileTransferList;
use crate::path::{path_join, join_path};
use crate::task::{TaskRunner, task_command, RunView};

verus! {

/// The transfer of `task`'s code: from its location to its destination below the
/// host's base directory, under its ignore rules read as coming from
/// `config_file`.
pub fn transfer_list_for(task: &TaskDefinition, config_file: &str) -> (r: FileTransferList)
    ensures
        r.local_source_origin@ == task.code.location@,
        r.remote_dest_origin@ == path_join(task.host.base_dir@, task.code.dest@),
        r.ignore_statement@ == task.code.ignore@,
        r.ignore_origin@ == config_file@,
{
    let dest = join_path(task.host.base_dir.as_str(), task.code.dest.as_str());
    FileTransferList::new(task.code.location.as_str(), dest.as_str(), task.code.ignore.as_str(), config_file)
}

/// The runner of `task`'s commands, each run inside the host's base directory.
pub fn task_runner_for(task: &TaskDefinition) -> (r: TaskRunner)
    ensures
        r.wf(),
        r.pwd@ == task.host.base_dir@,
        r.commands@.len() == task.run@.len(),
        forall|i: int| 0 <= i < task.run@.len() ==> #[trigger] r.commands@[i]@ == task_command(task.host.base_dir@, task.run@[i].run@),
        r.view_state() == (RunView { next: 0, failure: None }),
{
    TaskRunner::new(task.host.base_dir.as_str(), &task.run)
}

impl ConfigContext {
    /// The task that this configuration defines.
    pub fn task(&self) -> (r: &TaskDefinition)
        ensures
            self.config matches Configuration::TaskDefinition(t) && r == t,
    {
        match &self.config {
            Configuration::TaskDefinition(t) => t,
        }
    }
}

} // verus!
