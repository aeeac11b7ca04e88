//! The outcomes of comparing a file's local and remote versions.

use vstd::prelude::*;

verus! {

/// What synchronisation should do with a file.
#[derive(Debug, Clone, Copy, PartialEq, Eq, Structural)]
pub enum SyncAction {
    UploadToRemote,
    DownloadFromRemote,
    DoNothing,
    Conflict,
}

} // verus!
