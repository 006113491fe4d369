//! The deployment configuration: where the code is, where it goes, and the
//! commands to run there.

use vstd::prelude::*;

verus! {

/// A configuration together with the file it was read from.
pub struct ConfigContext {
    pub config_file: String,
    pub config: Configuration,
}

/// The kinds of configuration.
pub enum Configuration {
    TaskDefinition(TaskDefinition),
}

/// A deployment task: the host, the code to send, the commands to run, and the
/// artifacts to bring back.
pub struct TaskDefinition {
    pub alias: Option<String>,
    pub host: TaskHost,
    pub code: TaskCodeDefinition,
    pub run: Vec<TaskRun>,
    pub artifact: Vec<TaskArtifact>,
}

/// The remote host and the directory that destinations are relative to.
pub struct TaskHost {
    pub name: String,
    pub base_dir: String,
}

/// The local code location, its destination below the host's base directory, and
/// its ignore rules.
pub struct TaskCodeDefinition {
    pub location: String,
    pub dest: String,
    pub ignore: String,
    pub protocol: TaskCodeProtocol,
}

/// How code travels to the host.
#[derive(Clone, Copy, Debug, PartialEq, Eq, Structural)]
pub enum TaskCodeProtocol {
    Ssh,
}

/// One named command to run on the host.
pub struct TaskRun {
    pub name: String,
    pub run: String,
    pub platform: TaskRunPlatform,
}

/// Where a command runs.
#[derive(Clone, Copy, Debug, PartialEq, Eq, Structural)]
pub enum TaskRunPlatform {
    Remote,
}

impl Default for TaskRunPlatform {
    fn default() -> (r: TaskRunPlatform)
        ensures
            r == TaskRunPlatform::Remote,
    {
        TaskRunPlatform::Remote
    }
}

/// A file to bring back from the host.
pub struct TaskArtifact {
    pub remote_path: String,
    pub local_path: String,
}

/// A source tree and where it is synchronised to.
pub struct SyncSourceConfiguration {
    pub local_source: String,
    pub remote_dest: String,
}

} // verus!
