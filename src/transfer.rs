//! The transfer orchestrator: realises an ordered entry list on the remote host,
//! one entry at a time. Directories are created with a command whose exit status
//! does not matter; files are copied whole, and a failed copy stops the transfer.
//! It decides; the caller performs each action and reports back.

use vstd::prelude::*;
use crate::fs::{Entry, EntryType, entries_view};

verus! {

/// The permission bits that copied files get.
pub const FILE_MODE: i32 = 420;

/// The command that creates directory `remote` and any missing ancestors, and
/// succeeds when it exists already.
pub open spec fn mkdir_command(remote: Seq<char>) -> Seq<char> {
    "mkdir -p '"@ + remote + "'"@
}

pub fn build_mkdir_command(remote: &str) -> (r: String)
    ensures
        r@ == mkdir_command(remote@),
{
    let mut r = String::from_str("mkdir -p '");
    r.append(remote);
    r.append("'");
    r
}

/// Why a file could not be transferred.
#[derive(Clone, Debug)]
pub enum FileTransferError {
    /// The local file could not be read.
    ReadFailed { path: String },
    /// The remote copy was not acknowledged.
    CopyFailed { path: String },
}

/// What the caller is to do next.
pub enum TransferAction {
    /// Run `command` remotely and report that it finished.
    MakeDir { index: usize, command: String },
    /// Copy the file at `local_source` to `remote_dest` with permission bits `mode`
    /// and report the outcome.
    CopyFile { index: usize, local_source: String, remote_dest: String, mode: i32 },
    /// Every entry is in place.
    Done,
    /// The entry at `index` failed; nothing after it is attempted.
    Aborted { index: usize },
}

/// Progress through the entry list: how many entries are in place, and whether
/// the current one failed.
pub struct TransferView {
    pub next: int,
    pub failed: bool,
}

/// The report on the current entry of a list of `n`: for a directory, that its
/// creation command finished, whatever its exit status; for a file, whether the
/// copy succeeded.
pub open spec fn transfer_step(n: int, st: TransferView, is_dir: bool, copied: bool) -> TransferView {
    if st.failed || st.next >= n {
        st
    } else if is_dir || copied {
        TransferView { next: st.next + 1, failed: false }
    } else {
        TransferView { next: st.next, failed: true }
    }
}

/// Creating a directory never fails the transfer: whatever the creation command
/// exits with (an existing directory included), the orchestrator moves on to the
/// next entry.
pub proof fn lemma_dir_creation_idempotent(n: int, st: TransferView, copied: bool)
    requires
        !st.failed,
        0 <= st.next < n,
    ensures
        transfer_step(n, st, true, copied) == (TransferView { next: st.next + 1, failed: false }),
{
}

/// One run of the orchestrator over an entry list.
pub struct TransferRun {
    pub entries: Vec<Entry>,
    pub next: usize,
    pub error: Option<FileTransferError>,
}

impl TransferRun {
    pub open spec fn view_state(&self) -> TransferView {
        TransferView { next: self.next as int, failed: self.error is Some }
    }

    pub open spec fn wf(&self) -> bool {
        &&& self.next <= self.entries@.len()
        &&& self.error is Some ==> self.next < self.entries@.len()
    }

    /// A run over `entries`, in their order.
    pub fn new(entries: Vec<Entry>) -> (r: TransferRun)
        ensures
            r.wf(),
            entries_view(r.entries@) == entries_view(entries@),
            r.view_state() == (TransferView { next: 0, failed: false }),
    {
        TransferRun { entries, next: 0, error: None }
    }

    /// What to do next.
    pub fn next_action(&self) -> (r: TransferAction)
        requires
            self.wf(),
        ensures
            self.error is Some ==> r == (TransferAction::Aborted { index: self.next }),
            self.error is None && self.next == self.entries@.len() ==> r matches TransferAction::Done,
            self.error is None && self.next < self.entries@.len() && self.entries@[self.next as int].kind == EntryType::Dir
                ==> (r matches TransferAction::MakeDir { index, command } && index == self.next
                && command@ == mkdir_command(self.entries@[self.next as int].remote_dest@)),
            self.error is None && self.next < self.entries@.len() && self.entries@[self.next as int].kind == EntryType::File
                ==> (r matches TransferAction::CopyFile { index, local_source, remote_dest, mode } && index == self.next
                && local_source@ == self.entries@[self.next as int].local_source@
                && remote_dest@ == self.entries@[self.next as int].remote_dest@ && mode == FILE_MODE),
    {
        if self.error.is_some() {
            return TransferAction::Aborted { index: self.next };
        }
        if self.next == self.entries.len() {
            return TransferAction::Done;
        }
        let e = &self.entries[self.next];
        match e.kind {
            EntryType::Dir => TransferAction::MakeDir { index: self.next, command: build_mkdir_command(e.remote_dest.as_str()) },
            EntryType::File => TransferAction::CopyFile {
                index: self.next,
                local_source: e.local_source.clone(),
                remote_dest: e.remote_dest.clone(),
                mode: FILE_MODE,
            },
        }
    }

    /// Reports that the current directory's creation command finished with
    /// `exit_code`; the status is not held against the transfer.
    pub fn report_dir_created(&mut self, exit_code: u8)
        requires
            old(self).wf(),
        ensures
            final(self).wf(),
            entries_view(final(self).entries@) == entries_view(old(self).entries@),
            final(self).view_state() == transfer_step(old(self).entries@.len() as int, old(self).view_state(), true, false),
    {
        if self.error.is_none() && self.next < self.entries.len() {
            self.next = self.next + 1;
        }
    }

    /// Reports the outcome of copying the current file.
    pub fn report_file_copied(&mut self, outcome: Result<(), FileTransferError>)
        requires
            old(self).wf(),
        ensures
            final(self).wf(),
            entries_view(final(self).entries@) == entries_view(old(self).entries@),
            final(self).view_state() == transfer_step(old(self).entries@.len() as int, old(self).view_state(), false, outcome is Ok),
            old(self).error is None && old(self).next < old(self).entries@.len() ==> match outcome {
                Ok(()) => final(self).error is None,
                Err(e) => final(self).error == Some(e),
            },
    {
        if self.error.is_none() && self.next < self.entries.len() {
            match outcome {
                Ok(()) => {
                    self.next = self.next + 1;
                },
                Err(e) => {
                    self.error = Some(e);
                },
            }
        }
    }

    /// The error that stopped the transfer, if one did.
    pub fn error(&self) -> (r: Option<FileTransferError>)
        ensures
            r == self.error,
    {
        match &self.error {
            Some(e) => Some(e.duplicate()),
            None => None,
        }
    }
}

impl FileTransferError {
    /// A copy of this error.
    pub fn duplicate(&self) -> (r: FileTransferError)
        ensures
            r == *self,
    {
        match self {
            FileTransferError::ReadFailed { path } => FileTransferError::ReadFailed { path: path.clone() },
            FileTransferError::CopyFailed { path } => FileTransferError::CopyFailed { path: path.clone() },
        }
    }
}

} // verus!
