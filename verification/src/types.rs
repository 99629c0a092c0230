//! The small value types shared by the whole namespace: permission tags,
//! error kinds, seek origins, and descriptor-table entries.

use vstd::prelude::*;

verus! {

/// Access tag of a node, fixed once at creation; no operation changes it.
#[derive(Clone, Copy, PartialEq, Eq, Structural, Debug)]
pub enum Permissions {
    Read,
    Write,
    ReadWrite,
}

impl Permissions {
    /// Only `Write` and `ReadWrite` authorize creating an entry inside a
    /// directory.  The check applies to the parent directory's tag, not to
    /// the new child's.
    pub open spec fn allows_entry_creation(self) -> bool {
        self == Permissions::Write || self == Permissions::ReadWrite
    }
}

/// Every failure of a namespace operation is reported as one of these kinds;
/// no operation panics and there is no partial success.
#[derive(Clone, Copy, PartialEq, Eq, Structural, Debug)]
pub enum FileSystemError {
    InvalidType,
    PermissionDenied,
    FileNotFound,
    FileExists,
    DirectoryNotEmpty,
    InvalidFileDescriptor,
}

/// Reference point for `seek`: an absolute offset, or a signed delta from
/// the current cursor or from the end of the file.
#[derive(Clone, Copy, PartialEq, Eq, Structural, Debug)]
pub enum OffsetFrom {
    Start(usize),
    Current(isize),
    End(isize),
}

/// A descriptor-table entry: the arena index of the shared file payload the
/// handle refers to, plus the private cursor of this handle.  Two handles
/// opened on the same live file share a payload exactly when their
/// `file_id`s are equal.
#[derive(Clone, Copy, PartialEq, Eq, Structural, Debug)]
pub struct FileDescriptor {
    pub file_id: usize,
    pub position: usize,
}

} // verus!
