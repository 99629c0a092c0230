//! An in-process, in-memory hierarchical namespace: a minimal POSIX-like
//! virtual file system.
//!
//! The namespace supports directory creation and removal, file creation,
//! open/close via integer file-descriptor handles, positioned reads,
//! appending writes, and seek arithmetic with permission checks.
//!
//! Every operation is specified against a mathematical model (`FsView`): a
//! tree of directories and files, an arena of file payloads, and a
//! descriptor table.  The executable code is proved to follow that model
//! exactly, and the model's laws (uniqueness of names, shared-payload
//! visibility, descriptor lifecycle, read/write round trips) are proved as
//! theorems in `laws`.

pub mod fs;
pub mod laws;
pub mod path;
pub mod tree;
pub mod types;
